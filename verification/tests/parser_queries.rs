use guard_lang::exprs::{
    BinaryExpr, BinaryOperator, BlockExpr, Expr, IntExpr, QueryExpr, StringExpr, UnaryExpr, UnaryOperator,
};
use guard_lang::parser::grammar::{parse_query_filter_segment, parse_select, parse_unary_bool_expr, FilterKind};
use guard_lang::parser::lexical::{
    binary_comparison_operator, here_doc, message_doc, unary_comparison_operator,
};
use guard_lang::parser::{ParseErr, Span};
use guard_lang::types::Location;
use guard_lang::visitor::Visitor;

fn span(text: &str) -> Span {
    Span::new_extra(text, "")
}

#[test]
fn test_parse_query_filter_segment() {
    let success = [
        "[name]",
        "[ bucket_name ]",
        r###"[ # comment here
            bucket_name
        ]"###,
        "[ %names ]",
        "[ 'lookup' ]",
        "[1]",
        r###"[ # select the set of names
           %names]"###,
    ];
    for to_parse in success.iter() {
        let sp = span(to_parse);
        let result = parse_query_filter_segment(&FilterKind::VarBlock, &sp, 0);
        assert_eq!(result.is_ok(), true);
        match result.unwrap().1 {
            (Expr::Variable(expr), None) => {
                let StringExpr { value, .. } = *expr;
                assert_eq!(value == "name" || value == "bucket_name", true);
            }
            (Expr::VariableReference(expr), None) => {
                let StringExpr { value, .. } = *expr;
                assert_eq!(value, "names");
            }
            (Expr::String(expr), None) => {
                let StringExpr { value, .. } = *expr;
                assert_eq!(value, "lookup");
            }
            (Expr::Int(expr), None) => {
                let IntExpr { value, .. } = *expr;
                assert_eq!(value, 1);
            }
            _ => unreachable!(),
        }
    }

    let failures = [""];
    let locations = [Location::new(1, 1)];
    for (to_parse, loc) in failures.iter().zip(&locations) {
        let sp = span(to_parse);
        let result = parse_query_filter_segment(&FilterKind::VarBlock, &sp, 0);
        assert_eq!(result.is_err(), true);
        if let ParseErr::Error(e) = result.unwrap_err() {
            assert_eq!(e.get_location(), loc);
        }
    }
}

#[test]
fn test_parse_query() {
    let success = [
        "Resources.*.Properties.Tags",
        "Resources[name].Properties.Tags",
        "Resources",
        "Resources[%buckets].Properties.Tags",
    ];
    for to_parse in success.iter() {
        let sp = span(to_parse);
        let result = parse_select(&sp, 0);
        assert_eq!(result.is_ok(), true);
        match result.unwrap().1 {
            Expr::Select(query) => {
                let QueryExpr { parts, .. } = *query;
                for (idx, expr) in parts.iter().enumerate() {
                    match idx {
                        0 => {
                            if let Expr::String(s) = expr {
                                assert_eq!(s.value, "Resources");
                            }
                        }
                        1 => match expr {
                            Expr::String(s) => assert_eq!(s.value(), "*"),
                            Expr::Variable(var) => assert_eq!(var.value(), "name"),
                            Expr::VariableReference(var_ref) => assert_eq!(var_ref.value(), "buckets"),
                            _ => unreachable!(),
                        },
                        2 => {
                            if let Expr::String(s) = expr {
                                assert_eq!(s.value(), "Properties")
                            }
                        }
                        3 => {
                            if let Expr::String(s) = expr {
                                assert_eq!(s.value(), "Tags")
                            }
                        }
                        _ => unreachable!(),
                    }
                }
            }
            _ => unreachable!(),
        }
    }
}

#[test]
fn test_unary_operator() {
    let operators = ["EXISTS", "EMPTY", "IS_BOOL", "IS_STRING", "IS_INT", "IS_FLOAT", "IS_REGEX", "IS_LIST", "IS_MAP", "NOT"];
    let expected = [
        (UnaryOperator::Exists, UnaryOperator::NotExists),
        (UnaryOperator::Empty, UnaryOperator::NotEmpty),
        (UnaryOperator::IsBool, UnaryOperator::IsNotBool),
        (UnaryOperator::IsString, UnaryOperator::IsNotString),
        (UnaryOperator::IsInt, UnaryOperator::IsNotInt),
        (UnaryOperator::IsFloat, UnaryOperator::IsNotFloat),
        (UnaryOperator::IsRegex, UnaryOperator::IsNotRegex),
        (UnaryOperator::IsList, UnaryOperator::IsNotList),
        (UnaryOperator::IsMap, UnaryOperator::IsNotMap),
        (UnaryOperator::Not, UnaryOperator::Not),
    ];
    let operators: Vec<(String, String, String, String)> = operators
        .iter()
        .map(|s| (s.to_string(), s.to_lowercase()))
        .zip(&["!", "NOT", "not"])
        .map(|((upper, lower), not)| {
            let (not_upper, not_lower) = (format!("{} {}", not, upper), format!("{} {}", not, lower));
            (upper, lower, not_upper, not_lower)
        })
        .collect();

    for (operators, expected) in operators.iter().zip(&expected) {
        let sp = span(&operators.0);
        let result = unary_comparison_operator(&sp, 0);
        assert_eq!(result.is_ok(), true);
        assert_eq!(result.unwrap().1, expected.0);

        let sp = span(&operators.1);
        let result = unary_comparison_operator(&sp, 0);
        assert_eq!(result.is_ok(), true);
        assert_eq!(result.unwrap().1, expected.0);

        let sp = span(&operators.2);
        let result = unary_comparison_operator(&sp, 0);
        assert_eq!(result.is_ok(), true);
        assert_eq!(result.unwrap().1, expected.1);

        let sp = span(&operators.3);
        let result = unary_comparison_operator(&sp, 0);
        assert_eq!(result.is_ok(), true);
        assert_eq!(result.unwrap().1, expected.1);
    }
}

struct ExpectedPart {}

impl<'expr> Visitor<'expr> for ExpectedPart {
    type Value = ();
    type Error = String;

    fn visit_select(self, _expr: &'expr Expr, value: &'expr QueryExpr) -> Result<Self::Value, Self::Error> {
        assert_eq!(value.parts.len(), 1);
        for each in &value.parts {
            each.accept(ExpectedPart {})?;
        }
        Ok(())
    }

    fn visit_binary_operation(self, _expr: &'expr Expr, value: &'expr BinaryExpr) -> Result<Self::Value, Self::Error> {
        assert_eq!(value.operator, BinaryOperator::Equals);
        value.lhs.accept(ExpectedPart {})?;
        value.rhs.accept(ExpectedPart {})?;
        Ok(())
    }

    fn visit_string(self, _expr: &'expr Expr, value: &'expr StringExpr) -> Result<Self::Value, Self::Error> {
        assert_eq!(
            value.value == "Resources"
                || value.value == "*"
                || value.value == "Properties"
                || value.value == "Type"
                || value.value == "AWS::SQS::Queue"
                || value.value == "Tags",
            true,
            "Unexpected {}",
            value.value
        );
        Ok(())
    }

    fn visit_filter(self, _expr: &'expr Expr, value: &'expr BlockExpr) -> Result<Self::Value, Self::Error> {
        assert_eq!(value.assignments.is_empty(), true);
        value.clause.accept(ExpectedPart {})?;
        Ok(())
    }

    fn visit_variable(self, _expr: &'expr Expr, value: &'expr StringExpr) -> Result<Self::Value, Self::Error> {
        assert_eq!(value.value, "name");
        Ok(())
    }

    fn visit_variable_reference(self, _expr: &'expr Expr, value: &'expr StringExpr) -> Result<Self::Value, Self::Error> {
        assert_eq!(value.value == "buckets" || value.value == "sqs_queues", true, "{}", value.value);
        Ok(())
    }

    fn visit_any(self, expr: &'expr Expr) -> Result<Self::Value, Self::Error> {
        Err(format!("Unexpected Expr {:?}", expr))
    }
}

struct ExpectQuery {}

impl<'expr> Visitor<'expr> for ExpectQuery {
    type Value = ();
    type Error = String;

    fn visit_select(self, _expr: &'expr Expr, value: &'expr QueryExpr) -> Result<Self::Value, Self::Error> {
        assert_eq!(value.parts.len() == 4 || value.parts.len() == 1 || value.parts.len() == 2, true);
        for each in &value.parts {
            each.accept(ExpectedPart {})?;
        }
        Ok(())
    }

    fn visit_any(self, expr: &'expr Expr) -> Result<Self::Value, Self::Error> {
        Err(format!("Unexpected Expr {:?}", expr))
    }
}

struct UnaryVisitor {}

impl<'expr> Visitor<'expr> for UnaryVisitor {
    type Value = ();
    type Error = String;

    fn visit_unary_operation(self, _expr: &'expr Expr, value: &'expr UnaryExpr) -> Result<Self::Value, Self::Error> {
        if value.operator == UnaryOperator::Not {
            return value.expr.accept(UnaryVisitor {});
        }
        assert_eq!(
            value.operator == UnaryOperator::Exists
                || value.operator == UnaryOperator::NotExists
                || value.operator == UnaryOperator::Keys
                || value.operator == UnaryOperator::Empty
                || value.operator == UnaryOperator::NotEmpty,
            true
        );
        value.expr.accept(ExpectQuery {})?;
        Ok(())
    }

    fn visit_any(self, expr: &'expr Expr) -> Result<Self::Value, Self::Error> {
        Err(format!("Unexpected expr {:?}", expr))
    }
}

#[test]
fn test_parse_unary_expr() {
    let success = [
        "Resources[*].Properties.Tags EXISTS << Ensure Tags EXISTs >>",
        r#"Resources.*.Properties.Tags !EXISTS <<YAML
        message: Tags Do not exist
        Guide: https://guides.bestpractices.aws
        YAML
        "#,
        "Resources[name].Properties.Tags EMPTY",
        "Resources[%buckets].Properties.Tags NOT EMPTY",
        "Resources.%buckets.Properties.Tags NOT EMPTY",
        r#"Resources.
            %buckets.
            Properties.
            Tags NOT EMPTY"#,
        r###"Resources
            # extract the list of buckets we used
            .%buckets
            .Properties
            # checking if Tags EXISTS and is not EMPTY
            .Tags !EMPTY"###,
        r###"keys %sqs_queues"###,
        r###"keys Resources[ Type == 'AWS::SQS::Queue' ]"###,
    ];
    for expr in success.iter() {
        let sp = span(expr);
        let result = parse_unary_bool_expr(&sp, 0);
        assert_eq!(result.is_ok(), true, "{} {:?}", expr, result);
        let unary = result.unwrap().1;
        let result = unary.accept(UnaryVisitor {});
        assert_eq!(result.is_ok(), true, "Error {:?}", result);
    }
}

#[test]
fn test_binary_cmp_operator() {
    let success = ["==", "!=", ">", "<", "<=", ">=", "> >", "< <", "in "];
    let expected = [
        BinaryOperator::Equals,
        BinaryOperator::NotEquals,
        BinaryOperator::Greater,
        BinaryOperator::Lesser,
        BinaryOperator::LesserThanEquals,
        BinaryOperator::GreaterThanEquals,
        BinaryOperator::Greater,
        BinaryOperator::Lesser,
        BinaryOperator::In,
    ];
    for (to_parse, expected) in success.iter().zip(&expected) {
        let sp = span(to_parse);
        let result = binary_comparison_operator(&sp, 0);
        assert_eq!(result.is_ok(), true);
        assert_eq!(result.unwrap().1, *expected);
    }

    for to_parse in ["", ">>", "<<", "not"].iter() {
        let sp = span(to_parse);
        let result = binary_comparison_operator(&sp, 0);
        assert_eq!(result.is_err(), true);
    }
}

#[test]
fn test_here_doc() {
    let success = [
        "<<EOM\nthis is the message EOM ",
        r#"<<EOM
        This is a multiline message that end here EOM
        "#,
        r#"<<YAML
        message: %name instance was not compliant
        Guide: https://mycompany-guide.aws
        YAML
        "#,
    ];
    for to_parse in success.iter() {
        let sp = span(to_parse);
        let result = here_doc(&sp, 0);
        assert_eq!(result.is_ok(), true);
    }

    let failures = [
        "",
        "<<EOM no newline after doc part EOM ",
        "<<START\n with no end ",
        "<<EOM\n no space at end EOM",
    ];
    for to_parse in failures.iter() {
        let sp = span(to_parse);
        let result = here_doc(&sp, 0);
        assert_eq!(result.is_err(), true);
    }
}

#[test]
fn test_message_doc() {
    let success = [
        "<<this is the message>>",
        r#"<<
        This is a multiline message that end here EOM>>"#,
        r#"<<
        message: %name instance was not compliant
        Guide: https://mycompany-guide.aws
        >>"#,
    ];
    for to_parse in success.iter() {
        let sp = span(to_parse);
        let result = message_doc(&sp, 0);
        assert_eq!(result.is_ok(), true);
        let remaining = result.unwrap().0;
        assert_eq!(sp.fragment(remaining).is_empty(), true);
    }

    for to_parse in ["", "<<no ending doc part", "<< START with no end "].iter() {
        let sp = span(to_parse);
        let result = message_doc(&sp, 0);
        assert_eq!(result.is_err(), true);
    }
}
