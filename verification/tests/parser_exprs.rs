use guard_lang::exprs::{
    ArrayExpr, BinaryExpr, BinaryOperator, Expr, IntExpr, LetExpr, MapExpr, QueryExpr, RegexExpr, StringExpr,
    UnaryExpr, UnaryOperator,
};
use guard_lang::parser::grammar::{parse_and_conjunction, parse_binary_bool_expr, parse_disjunction_expr, parse_let_expr};
use guard_lang::parser::{ParseErr, Span};
use guard_lang::visitor::Visitor;

fn span(text: &str) -> Span {
    Span::new_extra(text, "")
}

struct BinaryExprChecker {}

impl<'expr> Visitor<'expr> for BinaryExprChecker {
    type Value = ();
    type Error = ();

    fn visit_select(self, _expr: &'expr Expr, value: &'expr QueryExpr) -> Result<Self::Value, Self::Error> {
        for each in &value.parts {
            each.accept(BinaryExprChecker {})?;
        }
        Ok(())
    }

    fn visit_binary_operation(self, _expr: &'expr Expr, value: &'expr BinaryExpr) -> Result<Self::Value, Self::Error> {
        assert_eq!(
            value.operator == BinaryOperator::In
                || value.operator == BinaryOperator::NotEquals
                || value.operator == BinaryOperator::Lesser
                || value.operator == BinaryOperator::LesserThanEquals
                || value.operator == BinaryOperator::GreaterThanEquals,
            true
        );
        value.lhs.accept(BinaryExprChecker {})?;
        value.rhs.accept(BinaryExprChecker {})?;
        if let Some(msg) = &value.message {
            assert_eq!(msg.contains("here doc that is working") || msg.contains("still works"), true);
        }
        Ok(())
    }

    fn visit_array(self, _expr: &'expr Expr, value: &'expr ArrayExpr) -> Result<Self::Value, Self::Error> {
        for each in &value.elements {
            each.accept(BinaryExprChecker {})?;
        }
        Ok(())
    }

    fn visit_string(self, _expr: &'expr Expr, value: &'expr StringExpr) -> Result<Self::Value, Self::Error> {
        let known = [
            "Resources", "*", "Properties", "Tags", "Key", "CpuUnits", "Spec", "Memory", "Cpu", "Statements",
            "Principal", "Parameters", "AllowedMinValue", "IAM", "Grants", "Ensure", "Message",
        ];
        assert_eq!(known.contains(&value.value.as_str()), true);
        Ok(())
    }

    fn visit_regex(self, _expr: &'expr Expr, value: &'expr RegexExpr) -> Result<Self::Value, Self::Error> {
        assert_eq!(value.value, "^GG");
        Ok(())
    }

    fn visit_int(self, _expr: &'expr Expr, value: &'expr IntExpr) -> Result<Self::Value, Self::Error> {
        assert_eq!(value.value == 10 || value.value == 300 || value.value == 800 || value.value == 200, true);
        Ok(())
    }

    fn visit_variable(self, _expr: &'expr Expr, value: &'expr StringExpr) -> Result<Self::Value, Self::Error> {
        assert_eq!(value.value, "index");
        Ok(())
    }

    fn visit_any(self, expr: &'expr Expr) -> Result<Self::Value, Self::Error> {
        panic!("unexpected {:?}", expr)
    }
}

#[test]
fn test_binary_expr() {
    let success = [
        "Resources.*.Properties.Tags[*].Key != /^GG/",
        "CpuUnits >= 10",
        "Spec.Memory <= 200",
        "Spec.Memory IN [200, 300, 800]",
        "Spec.Cpu >= Parameters.AllowedMinValue",
        r#"Statements[*].Principal != '*'"#,
        r###"
        Statements[index].
            Principal != '*'
        "###,
        r###"
        IAM.Grants[*].Principal != '*' # okay we have some doc message here
            <<GRANT_ALL_DISALLOWED
            This is a here doc that is working this out well
            We are going to end this here
            GRANT_ALL_DISALLOWED
        "###,
        r#"Ensure < "Message" << Message still works >>"#,
    ];
    for to_parse in success.iter() {
        let sp = span(to_parse);
        let result = parse_binary_bool_expr(&sp, 0);
        println!("{} {:?}", to_parse, result);
        assert_eq!(result.is_ok(), true);
        let expr = result.unwrap().1;
        let result = expr.accept(BinaryExprChecker {});
        assert_eq!(result.is_ok(), true);
    }
}

struct LetExprAssertions {}

impl<'expr> Visitor<'expr> for LetExprAssertions {
    type Value = ();
    type Error = ();

    fn visit_let(self, _expr: &'expr Expr, value: &'expr LetExpr) -> Result<Self::Value, Self::Error> {
        assert_eq!(value.name == "literal" || value.name == "map" || value.name == "query", true);
        value.value.accept(LetExprAssertions {})?;
        Ok(())
    }

    fn visit_select(self, _expr: &'expr Expr, value: &'expr QueryExpr) -> Result<Self::Value, Self::Error> {
        for each in &value.parts {
            each.accept(LetExprAssertions {})?;
        }
        Ok(())
    }

    fn visit_binary_operation(self, _expr: &'expr Expr, value: &'expr BinaryExpr) -> Result<Self::Value, Self::Error> {
        assert_eq!(value.operator, BinaryOperator::Or);
        value.lhs.accept(LetExprAssertions {})?;
        value.rhs.accept(LetExprAssertions {})?;
        Ok(())
    }

    fn visit_unary_operation(self, _expr: &'expr Expr, value: &'expr UnaryExpr) -> Result<Self::Value, Self::Error> {
        assert_eq!(value.operator, UnaryOperator::Keys);
        value.expr.accept(LetExprAssertions {})?;
        Ok(())
    }

    fn visit_array(self, _expr: &'expr Expr, value: &'expr ArrayExpr) -> Result<Self::Value, Self::Error> {
        assert_eq!(value.elements.is_empty() || value.elements.len() == 2, true);
        for each in &value.elements {
            each.accept(LetExprAssertions {})?;
        }
        Ok(())
    }

    fn visit_map(self, _expr: &'expr Expr, value: &'expr MapExpr) -> Result<Self::Value, Self::Error> {
        assert_eq!(value.entries.len(), 2);
        for (each, _) in value.entries.iter() {
            assert_eq!(each == "hi" || each == "bye", true);
        }
        Ok(())
    }

    fn visit_string(self, _expr: &'expr Expr, value: &'expr StringExpr) -> Result<Self::Value, Self::Error> {
        assert_eq!(
            value.value == "keys"
                || value.value == "keysParameters"
                || value.value == "Parameters"
                || value.value == "AWS"
                || value.value == "allowedPrefixLists",
            true
        );
        Ok(())
    }

    fn visit_int(self, _expr: &'expr Expr, value: &'expr IntExpr) -> Result<Self::Value, Self::Error> {
        assert_eq!(value.value == 10 || value.value == 20, true);
        Ok(())
    }

    fn visit_any(self, expr: &'expr Expr) -> Result<Self::Value, Self::Error> {
        panic!("unexpected {:?}", expr)
    }
}

#[test]
fn test_let_expr() {
    let success = [
        "let literal = [10, 20]",
        r#"let map = { hi: "there", bye: 20 }"#,
        r#"let query = Parameters.AWS.allowedPrefixLists"#,
        r#"let query = Parameters.AWS.allowedPrefixLists || []"#,
        r#"let query = keys Parameters"#,
        r#"let query = keysParameters"#,
        r#"let query = 'keys'"#,
    ];
    for to_parse in success.iter() {
        let sp = span(to_parse);
        let result = parse_let_expr(&sp, 0);
        println!("{}, {:?}", to_parse, result);
        assert_eq!(result.is_ok(), true);
        let result = result.unwrap().1;
        let r = result.accept(LetExprAssertions {});
        assert_eq!(r.is_ok(), true);
    }

    for to_parse in ["", "s = 10", "let s 10"].iter() {
        let sp = span(to_parse);
        let result = parse_let_expr(&sp, 0);
        assert_eq!(result.is_err(), true, "{}, {:?}", to_parse, result);
    }
}

struct DisjunctionAssertions {}

impl<'expr> Visitor<'expr> for DisjunctionAssertions {
    type Value = ();
    type Error = String;

    fn visit_select(self, _expr: &'expr Expr, value: &'expr QueryExpr) -> Result<Self::Value, Self::Error> {
        let length = value.parts.len();
        assert_eq!(length == 1 || length == 3, true);
        for each in &value.parts {
            each.accept(DisjunctionAssertions {})?;
        }
        Ok(())
    }

    fn visit_binary_operation(self, _expr: &'expr Expr, value: &'expr BinaryExpr) -> Result<Self::Value, Self::Error> {
        assert_eq!(value.operator == BinaryOperator::Or || value.operator == BinaryOperator::NotEquals, true);
        value.lhs.accept(DisjunctionAssertions {})?;
        value.rhs.accept(DisjunctionAssertions {})?;
        Ok(())
    }

    fn visit_unary_operation(self, _expr: &'expr Expr, value: &'expr UnaryExpr) -> Result<Self::Value, Self::Error> {
        assert_eq!(value.operator, UnaryOperator::Exists);
        value.expr.accept(DisjunctionAssertions {})?;
        Ok(())
    }

    fn visit_string(self, _expr: &'expr Expr, value: &'expr StringExpr) -> Result<Self::Value, Self::Error> {
        assert_eq!(
            value.value == "Resources"
                || value.value == "resourceType"
                || value.value == "configuration"
                || value.value == "Properties"
                || value.value == "Principals"
                || value.value == "*",
            true
        );
        Ok(())
    }

    fn visit_any(self, expr: &'expr Expr) -> Result<Self::Value, Self::Error> {
        Err(format!("Unexpected expression {:?}", expr))
    }
}

#[test]
fn test_or_disjunctions() {
    let success = [
        "Resources EXISTS or resourceType EXISTS",
        "Resources EXISTS || configuration EXISTS",
        r#"Resources EXISTS OR configuration.Properties.Principals != '*'"#,
        r###"Resources EXISTS # this is embedded comment
             || resourceType EXISTS
        "###,
        "Resources EXISTS",
        "Resources EXISTS or resourceType exists and configuration exists",
    ];
    for to_parse in success.iter() {
        let sp = span(to_parse);
        let result = parse_disjunction_expr(&sp, 0);
        println!("{}, {:?}", to_parse, result);
        assert_eq!(result.is_ok(), true);
        let result = result.unwrap().1.accept(DisjunctionAssertions {});
        assert_eq!(result.is_ok(), true);
    }

    for to_parse in ["", "or Resource EXISTS", "Resources EXISTS ||"].iter() {
        let sp = span(to_parse);
        let result = parse_disjunction_expr(&sp, 0);
        assert_eq!(result.is_err(), true);
        println!("{} {:?}", to_parse, result);
        let pe = match result.unwrap_err() {
            ParseErr::Error(pe) | ParseErr::Failure(pe) => pe,
        };
        println!("{:?} ", pe);
        assert_eq!(
            pe.get_location().column() == 1
                || pe.get_location().column() == "or ".len() + 1
                || pe.get_location().column() == "Resources EXISTS ||".len() + 1,
            true
        );
    }
}

#[derive(Debug)]
struct Unhandled<'e> {
    #[allow(dead_code)]
    expr: &'e Expr,
}

struct ConjunctionAssertions<'a> {
    vec: &'a mut Vec<String>,
}

impl<'expr, 'a> Visitor<'expr> for ConjunctionAssertions<'a> {
    type Value = ();
    type Error = Unhandled<'expr>;

    fn visit_select(self, _expr: &'expr Expr, value: &'expr QueryExpr) -> Result<Self::Value, Self::Error> {
        for each in &value.parts {
            each.accept(ConjunctionAssertions { vec: self.vec })?;
        }
        Ok(())
    }

    fn visit_binary_operation(self, _expr: &'expr Expr, value: &'expr BinaryExpr) -> Result<Self::Value, Self::Error> {
        assert_eq!(
            value.operator == BinaryOperator::And
                || value.operator == BinaryOperator::Equals
                || value.operator == BinaryOperator::Or,
            true
        );
        value.lhs.accept(ConjunctionAssertions { vec: self.vec })?;
        value.rhs.accept(ConjunctionAssertions { vec: self.vec })?;
        Ok(())
    }

    fn visit_unary_operation(self, _expr: &'expr Expr, value: &'expr UnaryExpr) -> Result<Self::Value, Self::Error> {
        assert_eq!(value.operator == UnaryOperator::Exists || value.operator == UnaryOperator::NotExists, true);
        value.expr.accept(ConjunctionAssertions { vec: self.vec })?;
        Ok(())
    }

    fn visit_string(self, _expr: &'expr Expr, value: &'expr StringExpr) -> Result<Self::Value, Self::Error> {
        self.vec.push(value.value.clone());
        let known = [
            "Resources", "*", "Properties", "Tags", "AWSTemplateVersion", "CodeDeploy", "resourceType",
            "configuration", "Hooks",
        ];
        assert_eq!(known.contains(&value.value.as_str()), true);
        Ok(())
    }

    fn visit_regex(self, _expr: &'expr Expr, value: &'expr RegexExpr) -> Result<Self::Value, Self::Error> {
        assert_eq!(value.value, "2010");
        Ok(())
    }

    fn visit_any(self, expr: &'expr Expr) -> Result<Self::Value, Self::Error> {
        Err(Unhandled { expr })
    }
}

#[test]
fn test_and_conjunctions() {
    let success = [
        "Resources EXISTS && Resources.*.Properties.Tags EXISTS",
        r###"Resources EXISTS
             Resources.*.Properties.Tags EXISTS
        "###,
        r###"Resources EXISTS &&
             AWSTemplateVersion == /2010/ and
             Hooks NOT EXISTS
        "###,
        r###"Resources EXISTS
             AWSTemplateVersion == /2010/ or
             Hooks.CodeDeploy EXISTS
        "###,
        r###"(Resources EXISTS && Hooks EXISTS) or
             (Hooks.CodeDeploy EXISTS)
        "###,
        r###"(Resources EXISTS && Hooks EXISTS)"###,
        "(Resources EXISTS or resourceType exists) and configuration exists",
    ];
    for to_parse in success.iter() {
        let sp = span(to_parse);
        let result = parse_and_conjunction(&sp, 0);
        let mut my_vec: Vec<String> = Vec::new();
        assert_eq!(result.is_ok(), true, "{} {:?}", to_parse, result);
        let result = result.unwrap().1;
        let asserts = result.accept(ConjunctionAssertions { vec: &mut my_vec });
        assert_eq!(asserts.is_ok(), true);
        println!("{:?}", my_vec);
    }

    let failures = [
        "",
        "(a == true && b == true) or ",
        "Resource exist and me not exists",
        "Resources != && me exists",
    ];
    for to_parse in failures.iter() {
        let sp = span(to_parse);
        let result = parse_and_conjunction(&sp, 0);
        println!("{} {:?}", to_parse, result);
        assert_eq!(result.is_err(), true);
    }
}
