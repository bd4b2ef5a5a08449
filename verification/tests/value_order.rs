use guard_lang::data::{DataEvent, ScalarStyle, StructureReader};
use guard_lang::evaluation::EvaluationError;
use guard_lang::read_json_value;
use guard_lang::value::Value;
use yaml_rust::parser::{Event, MarkedEventReceiver, Parser};
use yaml_rust::scanner::{Marker, TScalarStyle, TokenType};

struct Feeder {
    reader: StructureReader,
}

fn style_of(style: TScalarStyle) -> ScalarStyle {
    match style {
        TScalarStyle::Any => ScalarStyle::Any,
        TScalarStyle::Plain => ScalarStyle::Plain,
        TScalarStyle::SingleQuoted => ScalarStyle::SingleQuoted,
        TScalarStyle::DoubleQuoted => ScalarStyle::DoubleQuoted,
        TScalarStyle::Literal => ScalarStyle::Literal,
        TScalarStyle::Foled => ScalarStyle::Foled,
    }
}

impl MarkedEventReceiver for Feeder {
    fn on_event(&mut self, ev: Event, mark: Marker) {
        let ev = match ev {
            Event::Nothing => DataEvent::Nothing,
            Event::StreamStart => DataEvent::StreamStart,
            Event::StreamEnd => DataEvent::StreamEnd,
            Event::DocumentStart => DataEvent::DocumentStart,
            Event::DocumentEnd => DataEvent::DocumentEnd,
            Event::Alias(a) => DataEvent::Alias(a),
            Event::Scalar(v, style, anchor, token) => {
                let tag = match token {
                    Some(TokenType::Tag(handle, suffix)) => Some((handle, suffix)),
                    _ => None,
                };
                DataEvent::Scalar(v, style_of(style), anchor, tag)
            }
            Event::SequenceStart(anchor) => DataEvent::SequenceStart(anchor, None),
            Event::SequenceEnd => DataEvent::SequenceEnd,
            Event::MappingStart(anchor) => DataEvent::MappingStart(anchor, None),
            Event::MappingEnd => DataEvent::MappingEnd,
        };
        if !self.reader.can_take(&ev) {
            panic!("unsupported data event {:?}", ev);
        }
        self.reader.on_event(ev, mark.line(), mark.col());
    }
}

fn read_from(text: &str) -> Result<Value, EvaluationError<'static>> {
    let mut feeder = Feeder { reader: StructureReader::new() };
    let mut parser = Parser::new(text.chars());
    match parser.load(&mut feeder, false) {
        Ok(_) => Ok(feeder.reader.pop_document().unwrap()),
        Err(e) => {
            println!("Error {}", e);
            read_json_value(text)
        }
    }
}
use guard_lang::exprs::Expr;
use guard_lang::parse_json_value;
use guard_lang::parser::grammar::parse_value;
use guard_lang::parser::{ParseErr, Span};

fn value_expr(text: &str) -> Result<(usize, Expr), ParseErr> {
    let sp = Span::new_extra(text, "");
    parse_value(&sp, 0)
}

#[test]
fn test_simple_comparisons() {
    let expr = value_expr(r#"'simple'"#);
    assert_eq!(expr.is_ok(), true, "{:?}", expr);
    let expr = expr.unwrap().1;
    let value = read_from("simple");
    assert_eq!(value.is_ok(), true, "{:?}", value);
    let value = value.unwrap();
    assert_eq!(value, expr);

    let expr = value_expr(r#"10"#);
    assert_eq!(expr.is_ok(), true, "{:?}", expr);
    let expr = expr.unwrap().1;
    let value = read_from("10");
    assert_eq!(value.is_ok(), true, "{:?}", value);
    let value = value.unwrap();
    assert_eq!(value, expr);

    let expr = value_expr(r#"true"#);
    assert_eq!(expr.is_ok(), true, "{:?}", expr);
    let expr = expr.unwrap().1;
    let value = read_from("true");
    assert_eq!(value.is_ok(), true, "{:?}", value);
    let value = value.unwrap();
    assert_eq!(value, expr);

    let expr = value_expr(r#"10.0"#);
    assert_eq!(expr.is_ok(), true, "{:?}", expr);
    let expr = expr.unwrap().1;
    let value = read_from("10.0");
    assert_eq!(value.is_ok(), true, "{:?}", value);
    let value = value.unwrap();
    assert_eq!(value, expr);

    let expr = value_expr(r#"10.0"#);
    assert_eq!(expr.is_ok(), true, "{:?}", expr);
    let expr = expr.unwrap().1;
    let value = read_from("10.0");
    assert_eq!(value.is_ok(), true, "{:?}", value);
    let value = value.unwrap();
    assert_eq!(value, expr);

    let expr = value_expr(r#"10.0"#);
    assert_eq!(expr.is_ok(), true, "{:?}", expr);
    let expr = expr.unwrap().1;
    let value = read_from("10");
    assert_eq!(value.is_ok(), true, "{:?}", value);
    let value = value.unwrap();
    assert_eq!(value, expr);

    let expr = value_expr(r#"10"#);
    assert_eq!(expr.is_ok(), true, "{:?}", expr);
    let expr = expr.unwrap().1;
    let value = read_from("10.0");
    assert_eq!(value.is_ok(), true, "{:?}", value);
    let value = value.unwrap();
    assert_eq!(value, expr);

}

#[test]
fn test_simple_collections() {

    let expr = value_expr(r#"['simple', 'truth']"#);
    assert_eq!(expr.is_ok(), true, "{:?}", expr);
    let expr = expr.unwrap().1;
    let value = read_from("[simple, truth]");
    assert_eq!(value.is_ok(), true, "{:?}", value);
    let value = value.unwrap();
    assert_eq!(value, expr);

    let expr = value_expr(r#"[10,20,30,]"#);
    assert_eq!(expr.is_ok(), true, "{:?}", expr);
    let expr = expr.unwrap().1;
    let value = read_from("[10,20,30]");
    assert_eq!(value.is_ok(), true, "{:?}", value);
    let value = value.unwrap();
    assert_eq!(value, expr);

    let expr = value_expr(r#"[10,20,30,40]"#);
    assert_eq!(expr.is_ok(), true, "{:?}", expr);
    let expr = expr.unwrap().1;
    let value = read_from("[10,20,30]");
    assert_eq!(value.is_ok(), true, "{:?}", value);
    let value = value.unwrap();
    assert_eq!(value == expr, false);

    let expr = value_expr(r#"[{simple: 'truth', value: 20}]"#);
    assert_eq!(expr.is_ok(), true, "{:?}", expr);
    let expr = expr.unwrap().1;
    let value = read_from(r#"[{simple: truth, value: 20}]"#);
    assert_eq!(value.is_ok(), true, "{:?}", value);
    let value = value.unwrap();
    assert_eq!(value, expr);

}

#[test]
fn test_simple_maps() {

    let expr = value_expr(r#"{simple: 'truth', value: 20}"#);
    assert_eq!(expr.is_ok(), true, "{:?}", expr);
    let expr = expr.unwrap().1;
    let value = read_from(r#"{simple: truth, value: 20}"#);
    assert_eq!(value.is_ok(), true, "{:?}", value);
    let value = value.unwrap();
    assert_eq!(value, expr);

    let expr = value_expr(r#"{simple_no_match: 'truth', value: 20}"#);
    assert_eq!(expr.is_ok(), true, "{:?}", expr);
    let expr = expr.unwrap().1;
    let value = read_from(r#"{simple: truth, value: 20}"#);
    assert_eq!(value.is_ok(), true, "{:?}", value);
    let value = value.unwrap();
    assert_eq!(value == expr, false);

    let expr = value_expr(r#"{simple: 'truth', value: 30}"#);
    assert_eq!(expr.is_ok(), true, "{:?}", expr);
    let expr = expr.unwrap().1;
    let value = read_from(r#"{simple: truth, value: 20}"#);
    assert_eq!(value.is_ok(), true, "{:?}", value);
    let value = value.unwrap();
    assert_eq!(value == expr, false);

    let expr = value_expr(r#"{simple: 'truth', value: [20]}"#);
    assert_eq!(expr.is_ok(), true, "{:?}", expr);
    let expr = expr.unwrap().1;
    let value = read_from(r#"{simple: truth, value: 20}"#);
    assert_eq!(value.is_ok(), true, "{:?}", value);
    let value = value.unwrap();
    assert_eq!(value == expr, false);
}

#[test]
fn test_other_binary_operators() {

    let expr = value_expr(r#"10"#);
    assert_eq!(expr.is_ok(), true, "{:?}", expr);
    let expr = expr.unwrap().1;
    let value = read_from("10");
    assert_eq!(value.is_ok(), true, "{:?}", value);
    let value = value.unwrap();
    assert_eq!(value < expr, false);
    assert_eq!(value > expr, false);
    assert_eq!(value <= expr, true);
    assert_eq!(value >= expr, true);

    //
    // Testing cases like security_groups.ports > 100 && security_groups.ports <= 8000
    //
    let value = read_from("[10, 20]");
    assert_eq!(value.is_ok(), true, "{:?}", value);
    let value = value.unwrap();
    assert_eq!(value < expr, false);
    assert_eq!(value > expr, false);
    assert_eq!(value <= expr, false);
    assert_eq!(value >= expr, true);

    let expr = value_expr(r#"true"#);
    assert_eq!(expr.is_ok(), true, "{:?}", expr);
    let expr = expr.unwrap().1;
    let value = read_from("true");
    assert_eq!(value.is_ok(), true, "{:?}", value);
    let value = value.unwrap();
    assert_eq!(value < expr, false);
    assert_eq!(value > expr, false);
    assert_eq!(value <= expr, true);
    assert_eq!(value >= expr, true);

    let expr = value_expr(r#"10.0"#);
    assert_eq!(expr.is_ok(), true, "{:?}", expr);
    let expr = expr.unwrap().1;
    let value = read_from("10.0");
    assert_eq!(value.is_ok(), true, "{:?}", value);
    let value = value.unwrap();
    assert_eq!(value < expr, false);
    assert_eq!(value > expr, false);
    assert_eq!(value <= expr, true);
    assert_eq!(value >= expr, true);

    let expr = value_expr(r#"10.0"#);
    assert_eq!(expr.is_ok(), true, "{:?}", expr);
    let expr = expr.unwrap().1;
    let value = read_from("20");
    assert_eq!(value.is_ok(), true, "{:?}", value);
    let value = value.unwrap();
    assert_eq!(value < expr, false);
    assert_eq!(value > expr, true);
    assert_eq!(value <= expr, false);
    assert_eq!(value >= expr, true);

    let expr = value_expr(r#"10"#);
    assert_eq!(expr.is_ok(), true, "{:?}", expr);
    let expr = expr.unwrap().1;
    let value = read_from("10.0");
    assert_eq!(value.is_ok(), true, "{:?}", value);
    let value = value.unwrap();
    assert_eq!(value < expr, false);
    assert_eq!(value > expr, false);
    assert_eq!(value <= expr, true);
    assert_eq!(value >= expr, true);

    let expr = value_expr(r#"20.0"#);
    assert_eq!(expr.is_ok(), true, "{:?}", expr);
    let expr = expr.unwrap().1;
    let value = read_from("10");
    assert_eq!(value.is_ok(), true, "{:?}", value);
    let value = value.unwrap();
    assert_eq!(value < expr, true);
    assert_eq!(value > expr, false);
    assert_eq!(value <= expr, true);
    assert_eq!(value >= expr, false);

}

#[test]
fn test_json_parsing() {
    let template = r#"
    {
  "AWSTemplateFormatVersion" : "2010-09-09",

  "Description" : "AWS CloudFormation Sample Template DynamoDB_Table: This template demonstrates the creation of a DynamoDB table.  **WARNING** This template creates an Amazon DynamoDB table. You will be billed for the AWS resources used if you create a stack from this template.",

  "Parameters" : {
    "HashKeyElementName" : {
      "Description" : "HashType PrimaryKey Name",
      "Type" : "String",
      "AllowedPattern" : "[a-zA-Z0-9]*",
      "MinLength": "1",
      "MaxLength": "2048",
      "ConstraintDescription" : "must contain only alphanumberic characters"
    },

    "HashKeyElementType" : {
      "Description" : "HashType PrimaryKey Type",
      "Type" : "String",
      "Default" : "S",
      "AllowedPattern" : "[S|N]",
      "MinLength": "1",
      "MaxLength": "1",
      "ConstraintDescription" : "must be either S or N"
    },

    "ReadCapacityUnits" : {
      "Description" : "Provisioned read throughput",
      "Type" : "Number",
      "Default" : "5",
      "MinValue": "5",
      "MaxValue": "10000",
      "ConstraintDescription" : "must be between 5 and 10000"
    },

    "WriteCapacityUnits" : {
      "Description" : "Provisioned write throughput",
      "Type" : "Number",
      "Default" : "10",
      "MinValue": "5",
      "MaxValue": "10000",
      "ConstraintDescription" : "must be between 5 and 10000"
    }
  },

  "Resources" : {
    "myDynamoDBTable" : {
      "Type" :"AWS::DynamoDB::Table",
      "Properties" : {
        "AttributeDefinitions": [ {
          "AttributeName" : {"Ref" : "HashKeyElementName"},
          "AttributeType" : {"Ref" : "HashKeyElementType"}
        } ],
        "KeySchema": [
          { "AttributeName": {"Ref" : "HashKeyElementName"}, "KeyType": "HASH" }
        ],
        "ProvisionedThroughput" : {
          "ReadCapacityUnits" : {"Ref" : "ReadCapacityUnits"},
          "WriteCapacityUnits" : {"Ref" : "WriteCapacityUnits"}
        }
      }
    }
  },

  "Outputs" : {
    "TableName" : {
      "Value" : {"Ref" : "myDynamoDBTable"},
      "Description" : "Table name of the newly created DynamoDB table"
    }
  }
}"#;

    let expr = guard_lang::parse_json_value(template, "");
    assert_eq!(expr.is_ok(), true, "{:?}", expr);
    let value = Value::try_from(expr.unwrap());
    assert_eq!(value.is_ok(), true);
    println!("{:?}", value.unwrap());

}