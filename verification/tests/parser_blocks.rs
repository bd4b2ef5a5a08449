use guard_lang::exprs::{
    ArrayExpr, BinaryExpr, BinaryOperator, BlockClauseExpr, BlockExpr, Expr, LetExpr, QueryExpr, RegexExpr, StringExpr,
    UnaryExpr, UnaryOperator,
};
use guard_lang::parser::grammar::{
    parse_and_conjunction, parse_block_inner_expr, parse_query_block_expr, parse_unary_binary_or_block_expr,
};
use guard_lang::parser::Span;
use guard_lang::visitor::Visitor;

fn span(text: &str) -> Span {
    Span::new_extra(text, "")
}

struct ParseBlockAssertions {}

impl<'expr> Visitor<'expr> for ParseBlockAssertions {
    type Value = ();
    type Error = ();

    fn visit_let(self, _expr: &'expr Expr, value: &'expr LetExpr) -> Result<Self::Value, Self::Error> {
        assert_eq!(value.name == "literal" || value.name == "important", true, "{} not literal or important", value.name);
        value.value.accept(ParseBlockAssertions {})?;
        Ok(())
    }

    fn visit_select(self, _expr: &'expr Expr, value: &'expr QueryExpr) -> Result<Self::Value, Self::Error> {
        assert_eq!(value.parts.is_empty(), false);
        for each in &value.parts {
            each.accept(ParseBlockAssertions {})?;
        }
        Ok(())
    }

    fn visit_binary_operation(self, _expr: &'expr Expr, value: &'expr BinaryExpr) -> Result<Self::Value, Self::Error> {
        assert_eq!(
            value.operator == BinaryOperator::Or
                || value.operator == BinaryOperator::And
                || value.operator == BinaryOperator::Equals,
            true,
            "{:?} not Or, And or Equals",
            value.operator
        );
        value.lhs.accept(ParseBlockAssertions {})?;
        value.rhs.accept(ParseBlockAssertions {})?;
        Ok(())
    }

    fn visit_unary_operation(self, _expr: &'expr Expr, value: &'expr UnaryExpr) -> Result<Self::Value, Self::Error> {
        assert_eq!(
            value.operator == UnaryOperator::Exists || value.operator == UnaryOperator::NotEmpty,
            true,
            "{:?} not Exist or NotEmpty",
            value.operator
        );
        value.expr.accept(ParseBlockAssertions {})?;
        Ok(())
    }

    fn visit_array(self, _expr: &'expr Expr, value: &'expr ArrayExpr) -> Result<Self::Value, Self::Error> {
        for each in &value.elements {
            each.accept(ParseBlockAssertions {})?;
        }
        Ok(())
    }

    fn visit_string(self, _expr: &'expr Expr, value: &'expr StringExpr) -> Result<Self::Value, Self::Error> {
        let known = ["literal string here", "imp1", "imp2", "Resources", "*", "Properties", "Tags", "Value", "Key"];
        assert_eq!(known.contains(&value.value.as_str()), true, "{} not expected", value.value);
        Ok(())
    }

    fn visit_regex(self, _expr: &'expr Expr, value: &'expr RegexExpr) -> Result<Self::Value, Self::Error> {
        assert_eq!(value.value == "^Value" || value.value == "^Other", true);
        Ok(())
    }

    fn visit_filter(self, _expr: &'expr Expr, value: &'expr BlockExpr) -> Result<Self::Value, Self::Error> {
        for each in &value.assignments {
            each.accept(ParseBlockAssertions {})?;
        }
        value.clause.accept(ParseBlockAssertions {})?;
        Ok(())
    }

    fn visit_variable_reference(self, _expr: &'expr Expr, value: &'expr StringExpr) -> Result<Self::Value, Self::Error> {
        assert_eq!(value.value == "important" || value.value == "literal", true);
        Ok(())
    }

    fn visit_any(self, expr: &'expr Expr) -> Result<Self::Value, Self::Error> {
        panic!("unexpected {:?}", expr)
    }
}

#[test]
fn test_parse_block_expr() {
    let success = [
        r###"
        let literal = "literal string here"
        let important = ["imp1", "imp2"]

        Resources.*.Properties.Tags[*].Key == %literal
        Resources.%important.Properties.Tags[*].Value == /^Value/
        "###,
        r###"
        let literal = "literal string here"
        let important = ["imp1", "imp2"]

        Resources.*.Properties.Tags[*].Key == %literal
        Resources.%important.Properties.Tags[*].Value == /^Value/
        (Resources.%important.Properties EXISTS &&
         Resources.%important.Properties.Tags NOT EMPTY) OR
        Resources.*.Properties EXISTS
        "###,
        r###"
        let literal = "literal string here"
        let important = ["imp1", "imp2"]

        Resources.*.Properties.Tags[*].Key == %literal
        Resources.%important.Properties.Tags[*].Value == /^Value/ or
        Resources.%important.Properties.Tags[*].Value == /^Other/
        "###,
    ];
    for to_parse in success.iter() {
        let sp = span(to_parse);
        let result = parse_block_inner_expr(&sp, 0);
        assert_eq!(result.is_ok(), true, "{} {:?}", to_parse, result);
        let expr = result.unwrap().1;
        let filter = Expr::Filter(Box::new(expr));
        let result = filter.accept(ParseBlockAssertions {});
        assert_eq!(result.is_ok(), true);
    }
}

struct BlockQueryAssertions {}

impl<'expr> Visitor<'expr> for BlockQueryAssertions {
    type Value = ();
    type Error = ();

    fn visit_select(self, _expr: &'expr Expr, value: &'expr QueryExpr) -> Result<Self::Value, Self::Error> {
        for each in &value.parts {
            each.accept(BlockQueryAssertions {})?;
        }
        Ok(())
    }

    fn visit_binary_operation(self, _expr: &'expr Expr, value: &'expr BinaryExpr) -> Result<Self::Value, Self::Error> {
        assert_eq!(
            value.operator == BinaryOperator::Equals
                || value.operator == BinaryOperator::And
                || value.operator == BinaryOperator::Or,
            true
        );
        value.lhs.accept(BlockQueryAssertions {})?;
        value.rhs.accept(BlockQueryAssertions {})?;
        Ok(())
    }

    fn visit_unary_operation(self, _expr: &'expr Expr, value: &'expr UnaryExpr) -> Result<Self::Value, Self::Error> {
        assert_eq!(value.operator, UnaryOperator::Exists);
        value.expr.accept(BlockQueryAssertions {})?;
        Ok(())
    }

    fn visit_string(self, _expr: &'expr Expr, value: &'expr StringExpr) -> Result<Self::Value, Self::Error> {
        let known = ["Resources", "AWS::S3::Bucket", "Properties", "Metadata", "Type", "Tags", "*", "Key", "aws:cdk"];
        assert_eq!(known.contains(&value.value.as_str()), true, "Unexpected {}", value.value);
        Ok(())
    }

    fn visit_regex(self, _expr: &'expr Expr, value: &'expr RegexExpr) -> Result<Self::Value, Self::Error> {
        assert_eq!(value.value == "^Value", true);
        Ok(())
    }

    fn visit_filter(self, _expr: &'expr Expr, value: &'expr BlockExpr) -> Result<Self::Value, Self::Error> {
        assert_eq!(value.assignments.is_empty(), true, "{:?}", value.assignments);
        value.clause.accept(BlockQueryAssertions {})?;
        Ok(())
    }

    fn visit_variable(self, _expr: &'expr Expr, value: &'expr StringExpr) -> Result<Self::Value, Self::Error> {
        assert_eq!(value.value == "name", true);
        Ok(())
    }

    fn visit_block(self, _expr: &'expr Expr, value: &'expr BlockClauseExpr) -> Result<Self::Value, Self::Error> {
        for each in &value.select.parts {
            each.accept(BlockQueryAssertions {})?;
        }
        assert_eq!(value.block.assignments.is_empty(), true, "{:?}", value.block.assignments);
        value.block.clause.accept(BlockQueryAssertions {})?;
        Ok(())
    }

    fn visit_any(self, expr: &'expr Expr) -> Result<Self::Value, Self::Error> {
        panic!("unexpected {:?}", expr)
    }
}

#[test]
fn test_with_block_queries() {
    let success = [
        r####"
        Resources.* {
            Properties EXISTS or
            Metadata EXISTS
        }
        "####,
        r#"
        Resources[ name | Type == 'AWS::S3::Bucket' && Properties { Tags EXISTS and Metadata EXISTS } ].Properties {
            Tags[*].Key == /^Value/
            Metadata.'aws:cdk' EXISTS
        }
        "#,
        "Resources[*] { Properties EXISTS }",
        "Resources[ Type == 'AWS::S3::Bucket' ].Properties { Tags EXISTS }",
    ];
    for to_parse in success.iter() {
        let sp = span(to_parse);
        let result = parse_query_block_expr(&sp, 0);
        assert_eq!(result.is_ok(), true, "{} {:?}", to_parse, result);
        let expr = result.unwrap().1;
        let visitation = expr.accept(BlockQueryAssertions {});
        assert_eq!(visitation.is_ok(), true, "{:?}", visitation);
    }

    let failures = [
        "",
        "Resources.* { Properties",
        "Resources.* { Properties { Tags NOT EMPTY }",
        "Resources[*] { Properties }",
        "Resources[*] { Properties { Tags NOT EXISTS && Tags[*] { Key == /^Key/ }",
        "Resources.* { let p = Properties }",
    ];
    for to_parse in failures.iter() {
        let sp = span(to_parse);
        let result = parse_query_block_expr(&sp, 0);
        println!("{:?}", result);
        assert_eq!(result.is_err(), true);
    }
}

struct NotAssertions {}

impl Visitor<'_> for NotAssertions {
    type Value = ();
    type Error = ();

    fn visit_select(self, _expr: &'_ Expr, value: &'_ QueryExpr) -> Result<Self::Value, Self::Error> {
        for each in &value.parts {
            each.accept(NotAssertions {})?;
        }
        Ok(())
    }

    fn visit_binary_operation(self, _expr: &'_ Expr, value: &'_ BinaryExpr) -> Result<Self::Value, Self::Error> {
        assert_eq!(
            value.operator == BinaryOperator::Equals
                || value.operator == BinaryOperator::And
                || value.operator == BinaryOperator::Or,
            true,
            "Unexpected binary operation {:?}",
            value.operator
        );
        value.lhs.accept(NotAssertions {})?;
        value.rhs.accept(NotAssertions {})?;
        Ok(())
    }

    fn visit_unary_operation(self, _expr: &'_ Expr, value: &'_ UnaryExpr) -> Result<Self::Value, Self::Error> {
        assert_eq!(value.operator == UnaryOperator::Exists || value.operator == UnaryOperator::Not, true);
        value.expr.accept(NotAssertions {})?;
        Ok(())
    }

    fn visit_string(self, _expr: &'_ Expr, value: &'_ StringExpr) -> Result<Self::Value, Self::Error> {
        let known = [
            "*", "Metadata", "Resources", "Tags", "AWSTemplateVersion", "Type", "AWS::S3::Bucket", "Hooks",
            "Properties",
        ];
        assert_eq!(known.contains(&value.value.as_str()), true, "Unexpected {:?}", value);
        Ok(())
    }

    fn visit_block(self, _expr: &'_ Expr, value: &'_ BlockClauseExpr) -> Result<Self::Value, Self::Error> {
        for each in &value.select.parts {
            each.accept(NotAssertions {})?;
        }
        assert_eq!(value.block.assignments.is_empty(), true, "{:?}", value.block.assignments);
        value.block.clause.accept(NotAssertions {})?;
        Ok(())
    }

    fn visit_any(self, expr: &'_ Expr) -> Result<Self::Value, Self::Error> {
        panic!("unexpected {:?}", expr)
    }
}

#[test]
fn test_not_prefix() {
    let success = [
        "not Resources EXISTS",
        "!Resources EXISTS",
        " ! Resources EXISTS",
        "not Resources[*] { Properties EXISTS && Metadata EXISTS }",
        "not ((Resources EXISTS && AWSTemplateVersion EXISTS) or (Resources EXISTS &&  Hooks EXISTS))",
        "not Type == 'AWS::S3::Bucket'",
    ];
    for to_parse in success.iter() {
        let sp = span(to_parse);
        let result = parse_and_conjunction(&sp, 0);
        assert_eq!(result.is_ok(), true, "{} {:?}", to_parse, result);
        let expr = result.unwrap().1;
        let result = expr.accept(NotAssertions {});
        assert_eq!(result.is_ok(), true, "{:?}", result);
    }
}

#[test]
fn test_atleast_one() {
    let success = [
        r#"atleast-one Resources[*] {
            Properties EXISTS
            Metadata EXISTS
        }
        "#,
        r#"Resources[ name | Type == 'AWS::DynamoDB::Table' ].Properties {
            atleast-one Tags[*] {
                Key == /^PROD/
                Value == /App/
            } <<TXT
                The DDB table { $name } does not have any PROD App Key { $Tags }
            TXT
        }"#,
    ];
    for to_parse in success.iter() {
        let sp = span(to_parse);
        let result = parse_unary_binary_or_block_expr(&sp, 0);
        assert_eq!(result.is_ok(), true, "{} {:?}", to_parse, result);
    }
}
