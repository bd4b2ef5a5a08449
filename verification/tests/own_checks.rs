use guard_lang::data::{DataEvent, ScalarStyle, StructureReader};
use guard_lang::evaluation::EvaluationError;
use guard_lang::read_json_value;
use guard_lang::value::Value;
use yaml_rust::parser::{Event, MarkedEventReceiver, Parser};
use yaml_rust::scanner::{Marker, TScalarStyle, TokenType};

struct Feeder {
    reader: StructureReader,
}

fn style_of(style: TScalarStyle) -> ScalarStyle {
    match style {
        TScalarStyle::Any => ScalarStyle::Any,
        TScalarStyle::Plain => ScalarStyle::Plain,
        TScalarStyle::SingleQuoted => ScalarStyle::SingleQuoted,
        TScalarStyle::DoubleQuoted => ScalarStyle::DoubleQuoted,
        TScalarStyle::Literal => ScalarStyle::Literal,
        TScalarStyle::Foled => ScalarStyle::Foled,
    }
}

impl MarkedEventReceiver for Feeder {
    fn on_event(&mut self, ev: Event, mark: Marker) {
        let ev = match ev {
            Event::Nothing => DataEvent::Nothing,
            Event::StreamStart => DataEvent::StreamStart,
            Event::StreamEnd => DataEvent::StreamEnd,
            Event::DocumentStart => DataEvent::DocumentStart,
            Event::DocumentEnd => DataEvent::DocumentEnd,
            Event::Alias(a) => DataEvent::Alias(a),
            Event::Scalar(v, style, anchor, token) => {
                let tag = match token {
                    Some(TokenType::Tag(handle, suffix)) => Some((handle, suffix)),
                    _ => None,
                };
                DataEvent::Scalar(v, style_of(style), anchor, tag)
            }
            Event::SequenceStart(anchor) => DataEvent::SequenceStart(anchor, None),
            Event::SequenceEnd => DataEvent::SequenceEnd,
            Event::MappingStart(anchor) => DataEvent::MappingStart(anchor, None),
            Event::MappingEnd => DataEvent::MappingEnd,
        };
        if !self.reader.can_take(&ev) {
            panic!("unsupported data event {:?}", ev);
        }
        self.reader.on_event(ev, mark.line(), mark.col());
    }
}

fn read_from(text: &str) -> Result<Value, EvaluationError<'static>> {
    let mut feeder = Feeder { reader: StructureReader::new() };
    let mut parser = Parser::new(text.chars());
    match parser.load(&mut feeder, false) {
        Ok(_) => Ok(feeder.reader.pop_document().unwrap()),
        Err(e) => {
            println!("Error {}", e);
            read_json_value(text)
        }
    }
}
use guard_lang::evaluation::{Comparison, EvalReporter, ValueType};
use guard_lang::exprs::Expr;
use guard_lang::parse_rules;
use guard_lang::parser::grammar::{parse_and_conjunction, parse_let_expr, parse_select, parse_unary_binary_or_block_expr, parse_value};
use guard_lang::parser::Span;
use guard_lang::query::{RootScopeHierarchy, Scope};
use guard_lang::types::LangError;
use guard_lang::value::Status;
use std::cmp::Ordering;

#[derive(Debug)]
struct Quiet {}

impl<'value> EvalReporter<'value> for Quiet {
    fn report_missing_value(&mut self, _u: ValueType<'value>, _d: &'value str, _e: &'value Expr) -> Result<(), std::io::Error> {
        Ok(())
    }

    fn report_mismatch_value_traversal(&mut self, _u: ValueType<'value>, _d: &'value str, _e: &'value Expr) -> Result<(), std::io::Error> {
        Ok(())
    }

    fn report_evaluation(&mut self, _s: Status, _c: Comparison<'value>, _d: &'value str, _e: &'value Expr) -> Result<(), std::io::Error> {
        Ok(())
    }
}

#[derive(Debug)]
struct Failing {}

impl<'value> EvalReporter<'value> for Failing {
    fn report_missing_value(&mut self, _u: ValueType<'value>, _d: &'value str, _e: &'value Expr) -> Result<(), std::io::Error> {
        Err(std::io::Error::new(std::io::ErrorKind::Other, "closed"))
    }

    fn report_mismatch_value_traversal(&mut self, _u: ValueType<'value>, _d: &'value str, _e: &'value Expr) -> Result<(), std::io::Error> {
        Err(std::io::Error::new(std::io::ErrorKind::Other, "closed"))
    }

    fn report_evaluation(&mut self, _s: Status, _c: Comparison<'value>, _d: &'value str, _e: &'value Expr) -> Result<(), std::io::Error> {
        Err(std::io::Error::new(std::io::ErrorKind::Other, "closed"))
    }
}

fn select(text: &str) -> Expr {
    let sp = Span::new_extra(text, "");
    parse_select(&sp, 0).unwrap().1
}

fn clause(text: &str) -> Expr {
    let sp = Span::new_extra(text, "");
    parse_unary_binary_or_block_expr(&sp, 0).unwrap().1
}

fn literal(text: &str) -> Expr {
    let sp = Span::new_extra(text, "");
    parse_value(&sp, 0).unwrap().1
}

const DATA: &str = r###"
Resources:
  bucket:
    Type: AWS::S3::Bucket
    Properties:
      Tags: [a, b, c]
  role:
    Type: AWS::IAM::Role
"###;

#[test]
fn value_order_reads_both_ways() {
    let a = read_from("10").unwrap();
    let b = read_from("20").unwrap();
    assert_eq!(a.partial_cmp(&b), Some(Ordering::Less));
    assert_eq!(b.partial_cmp(&a), Some(Ordering::Greater));
    assert_eq!(a < b, b > a);
    let s = read_from("apple").unwrap();
    let t = read_from("banana").unwrap();
    assert_eq!(s.partial_cmp(&t), Some(Ordering::Less));
    assert_eq!(t.partial_cmp(&s), Some(Ordering::Greater));
    let x = read_from("1.5").unwrap();
    let y = read_from("1.25").unwrap();
    assert_eq!(x.partial_cmp(&y), Some(Ordering::Greater));
    assert_eq!(y.partial_cmp(&x), Some(Ordering::Less));
    assert_eq!(a.partial_cmp(&s), None);
    assert_eq!(s.partial_cmp(&a), None);
}

#[test]
fn data_values_equal_themselves() {
    let v = read_from(DATA).unwrap();
    assert_eq!(v == v, true);
    let f = read_from("[1.50, 2, {k: v}]").unwrap();
    assert_eq!(f == f, true);
}

#[test]
fn plain_scalars_read_by_kind() {
    assert_eq!(matches!(read_from("~").unwrap(), Value::Null(_)), true);
    assert_eq!(matches!(read_from("null").unwrap(), Value::Null(_)), true);
    assert_eq!(matches!(read_from("true").unwrap(), Value::Bool(true, _)), true);
    assert_eq!(matches!(read_from("false").unwrap(), Value::Bool(false, _)), true);
    assert_eq!(matches!(read_from("42").unwrap(), Value::Int(42, _)), true);
    match read_from("1.5").unwrap() {
        Value::Float(t, _) => assert_eq!(t, "1.5"),
        other => panic!("{:?}", other),
    }
    match read_from("'quoted'").unwrap() {
        Value::String(t, _) => assert_eq!(t, "quoted"),
        other => panic!("{:?}", other),
    }
}

#[test]
fn short_form_functions_become_long_form() {
    let v = read_from("Name: !Ref Bucket").unwrap();
    match v {
        Value::Mapping(entries, _) => match &entries[0].1 {
            Value::Mapping(inner, _) => {
                assert_eq!(inner[0].0, "Ref");
                assert_eq!(matches!(&inner[0].1, Value::String(s, _) if s == "Bucket"), true);
            }
            other => panic!("{:?}", other),
        },
        other => panic!("{:?}", other),
    }
}

#[test]
fn unary_checks_and_their_negations() {
    let v = read_from(DATA).unwrap();
    let exists = clause("Resources.Missing EXISTS");
    let not_exists = clause("Resources.Missing NOT EXISTS");
    let mut h = RootScopeHierarchy::new(&v, Quiet {});
    assert_eq!(h.unary_operation(&exists, Vec::new()).unwrap(), false);
    let mut h = RootScopeHierarchy::new(&v, Quiet {});
    assert_eq!(h.unary_operation(&not_exists, Vec::new()).unwrap(), true);
    // a check on values found with nothing reported on the way does not hold
    let present = clause("Resources.bucket EXISTS");
    let mut h = RootScopeHierarchy::new(&v, Quiet {});
    assert_eq!(h.unary_operation(&present, Vec::new()).unwrap(), false);
}

#[test]
fn equality_and_inequality_answer_opposite_ways() {
    let v = read_from(DATA).unwrap();
    let eq = clause("Resources.bucket.Type == 'AWS::S3::Bucket'");
    let ne = clause("Resources.bucket.Type != 'AWS::S3::Bucket'");
    let mut h = RootScopeHierarchy::new(&v, Quiet {});
    assert_eq!(h.binary_operation(&eq, Vec::new()).unwrap(), true);
    let mut h = RootScopeHierarchy::new(&v, Quiet {});
    assert_eq!(h.binary_operation(&ne, Vec::new()).unwrap(), false);
    let is_in = clause("Resources.bucket.Properties.Tags IN ['a', 'b', 'c']");
    let sp = Span::new_extra("not Resources.bucket.Properties.Tags IN ['a', 'b', 'c']", "");
    let not_in = parse_and_conjunction(&sp, 0).unwrap().1;
    let mut h = RootScopeHierarchy::new(&v, Quiet {});
    assert_eq!(h.binary_operation(&is_in, Vec::new()).unwrap(), true);
    let mut h = RootScopeHierarchy::new(&v, Quiet {});
    assert_eq!(h.unary_operation(&not_in, Vec::new()).unwrap(), false);
}

#[test]
fn conversions_with_and_without_regex_agree() {
    let e = literal("{ a: [1, 2.5, 'x'], b: null }");
    let owned = Value::try_from(literal("{ a: [1, 2.5, 'x'], b: null }")).unwrap();
    let borrowed = Value::try_from_ref(&e).unwrap();
    assert_eq!(owned == borrowed, true);
    let r = literal("/abc/");
    assert_eq!(Value::try_from_ref(&r).is_ok(), true);
    assert_eq!(matches!(Value::try_from(literal("/abc/")), Err(LangError::ParseError(_))), true);
}

#[test]
fn definitions_read_back_and_replace() {
    let sp1 = Span::new_extra("let x = 10", "");
    let first = parse_let_expr(&sp1, 0).unwrap().1;
    let sp2 = Span::new_extra("let x = 20", "");
    let second = parse_let_expr(&sp2, 0).unwrap().1;
    let (first, second) = match (&first, &second) {
        (Expr::Let(a), Expr::Let(b)) => (a, b),
        _ => unreachable!(),
    };
    let mut scope = Scope::new();
    scope.define(first);
    scope.define(second);
    assert_eq!(scope.variable_definitions.len(), 1);
    assert_eq!(matches!(&scope.variable_definitions[0].1.value, Expr::Int(i) if i.value == 20), true);
}

#[test]
fn scopes_added_then_left() {
    let v = read_from(DATA).unwrap();
    let mut h = RootScopeHierarchy::new(&v, Quiet {});
    h.add_scope(Scope::new());
    assert_eq!(h.scopes.len(), 1);
    h.drop_scope();
    assert_eq!(h.scopes.len(), 0);
    assert_eq!(h.completed.len(), 1);
    h.drop_scope();
    assert_eq!(h.completed.len(), 1);
}

#[test]
fn variables_resolve_once_and_are_reused() {
    let v = read_from(DATA).unwrap();
    let rules = parse_rules("let types = Resources.*.Type\nrule r { %types EXISTS }", "").unwrap();
    let query = select("%types");
    let mut h = RootScopeHierarchy::new(&v, Quiet {});
    assert_eq!(h.add_scope_of(&rules).is_ok(), true);
    assert_eq!(h.get_resolved_variable("types").is_none(), true);
    let first = h.query(&query, Vec::new()).unwrap();
    assert_eq!(first.len(), 2);
    let cached = h.get_resolved_variable("types").unwrap();
    assert_eq!(cached.len(), 2);
    let again = h.query(&query, Vec::new()).unwrap();
    assert_eq!(again.len(), 2);
}

#[test]
fn this_keeps_what_was_selected() {
    let v = read_from(DATA).unwrap();
    let q = select("Resources.bucket.this.Type");
    let mut h = RootScopeHierarchy::new(&v, Quiet {});
    let r = h.query(&q, Vec::new()).unwrap();
    assert_eq!(r.len(), 1);
    assert_eq!(matches!(r[0], ValueType::DataValue(Value::String(s, _)) if s == "AWS::S3::Bucket"), true);
}

#[test]
fn indices_count_from_either_end() {
    let v = read_from("a: [1, 2, 3]").unwrap();
    let mut h = RootScopeHierarchy::new(&v, Quiet {});
    let q1 = select("a['-1']");
    let last = h.query(&q1, Vec::new()).unwrap();
    assert_eq!(matches!(last[0], ValueType::DataValue(Value::Int(3, _))), true);
    let q2 = select("a['0']");
    let first = h.query(&q2, Vec::new()).unwrap();
    assert_eq!(matches!(first[0], ValueType::DataValue(Value::Int(1, _))), true);
    let q3 = select("a['5']");
    let beyond = h.query(&q3, Vec::new()).unwrap();
    assert_eq!(beyond.len(), 0);
    assert_eq!(h.missing, true);
}

#[test]
fn keys_are_tried_in_other_cases() {
    let v = read_from("settings: {max_size: 3}").unwrap();
    let mut h = RootScopeHierarchy::new(&v, Quiet {});
    let q4 = select("settings.MaxSize");
    let r = h.query(&q4, Vec::new()).unwrap();
    assert_eq!(matches!(r[0], ValueType::DataValue(Value::Int(3, _))), true);
    let q5 = select("settings.maxSize");
    let r = h.query(&q5, Vec::new()).unwrap();
    assert_eq!(r.len(), 1);
}

#[test]
fn unknown_root_key_is_a_computation_error() {
    let v = read_from(DATA).unwrap();
    let mut h = RootScopeHierarchy::new(&v, Quiet {});
    let q6 = select("Nothing.Here");
    let r = h.query(&q6, Vec::new());
    assert_eq!(matches!(r, Err(EvaluationError::ComputationError(_))), true);
}

#[test]
fn unknown_variable_is_a_computation_error() {
    let v = read_from(DATA).unwrap();
    let mut h = RootScopeHierarchy::new(&v, Quiet {});
    let q7 = select("%nowhere");
    let r = h.query(&q7, Vec::new());
    assert_eq!(matches!(r, Err(EvaluationError::ComputationError(_))), true);
}

#[test]
fn non_comparison_is_an_unexpected_expression() {
    let v = read_from(DATA).unwrap();
    let e = clause("Resources EXISTS");
    let mut h = RootScopeHierarchy::new(&v, Quiet {});
    let r = h.binary_operation(&e, Vec::new());
    assert_eq!(matches!(r, Err(EvaluationError::UnexpectedExpr(..))), true);
}

#[test]
fn reporter_failure_is_an_io_error() {
    let v = read_from(DATA).unwrap();
    let e = clause("Resources.bucket.Type == 'AWS::S3::Bucket'");
    let mut h = RootScopeHierarchy::new(&v, Failing {});
    let r = h.binary_operation(&e, Vec::new());
    assert_eq!(matches!(r, Err(EvaluationError::IoError(_))), true);
    let mut h = RootScopeHierarchy::new(&v, Failing {});
    let q8 = select("Resources.Missing");
    let r = h.query(&q8, Vec::new());
    assert_eq!(matches!(r, Err(EvaluationError::IoError(_))), true);
}

#[test]
fn text_that_is_no_value_is_a_parse_error() {
    let r = read_json_value("{ unclosed: ");
    assert_eq!(matches!(r, Err(EvaluationError::GuardFileParseError(_))), true);
    let r = read_json_value("[1, 2]");
    assert_eq!(matches!(r, Ok(Value::List(ref l, _)) if l.len() == 2), true);
}

#[test]
fn invalid_pattern_as_key_is_a_computation_error() {
    let v = read_from(DATA).unwrap();
    let lookup = literal("[ /[/ ]");
    let q = select("Resources.%lookup");
    let mut h = RootScopeHierarchy::new(&v, Quiet {});
    let mut scope = Scope::new();
    scope.insert_variable("lookup", vec![ValueType::LiteralValue(&lookup)]);
    h.add_scope(scope);
    let r = h.query(&q, Vec::new());
    assert_eq!(matches!(r, Err(EvaluationError::ComputationError(_))), true);
}

#[test]
fn malformed_rules_are_parse_errors() {
    assert_eq!(matches!(parse_rules("rule {", ""), Err(LangError::ParseError(_))), true);
}

#[test]
fn empty_containers_read_as_empty_documents() {
    let mut r = StructureReader::new();
    r.on_event(DataEvent::StreamStart, 0, 0);
    r.on_event(DataEvent::DocumentStart, 0, 0);
    assert_eq!(r.can_take(&DataEvent::MappingStart(0, None)), true);
    r.on_event(DataEvent::MappingStart(0, None), 1, 2);
    assert_eq!(r.can_take(&DataEvent::MappingEnd), true);
    r.on_event(DataEvent::MappingEnd, 1, 4);
    assert_eq!(r.can_take(&DataEvent::DocumentEnd), true);
    r.on_event(DataEvent::DocumentEnd, 2, 0);
    r.on_event(DataEvent::DocumentStart, 3, 0);
    r.on_event(DataEvent::SequenceStart(0, None), 3, 1);
    assert_eq!(r.can_take(&DataEvent::SequenceEnd), true);
    r.on_event(DataEvent::SequenceEnd, 3, 3);
    r.on_event(DataEvent::DocumentEnd, 4, 0);
    match r.pop_document() {
        Some(Value::List(items, loc)) => {
            assert_eq!(items.len(), 0);
            assert_eq!((loc.row, loc.column), (3, 1));
        }
        other => panic!("{:?}", other),
    }
    match r.pop_document() {
        Some(Value::Mapping(entries, loc)) => {
            assert_eq!(entries.len(), 0);
            assert_eq!((loc.row, loc.column), (1, 2));
        }
        other => panic!("{:?}", other),
    }
    assert_eq!(r.pop_document().is_none(), true);
    assert_eq!(r.can_take(&DataEvent::DocumentEnd), false);
    assert_eq!(r.can_take(&DataEvent::MappingEnd), false);
}

#[test]
fn unnamed_span_holds_the_text() {
    let s = guard_lang::parser::from_str2("a: 1");
    assert_eq!(s.chars.iter().collect::<String>(), "a: 1");
    assert_eq!(s.file, "");
}

#[test]
fn repeated_keys_keep_first_place_and_last_value() {
    match guard_lang::parse_json_value("{a: 1, b: 2, a: 3}", "") {
        Ok(Expr::Mapping(m)) => {
            assert_eq!(m.entries.len(), 2);
            assert_eq!(m.entries[0].0, "a");
            assert_eq!(matches!(&m.entries[0].1, Expr::Int(i) if i.value == 3), true);
            assert_eq!(m.entries[1].0, "b");
            assert_eq!(matches!(&m.entries[1].1, Expr::Int(i) if i.value == 2), true);
        }
        other => panic!("{:?}", other),
    }
}

#[test]
fn unclosed_list_fails_where_it_stops() {
    match guard_lang::parse_json_value("[1, 2", "") {
        Err(LangError::ParseError(e)) => {
            assert_eq!((e.location.row, e.location.column), (1, 6));
        }
        other => panic!("{:?}", other),
    }
}

#[test]
fn rules_text_after_the_rules_is_a_failure_where_it_starts() {
    match parse_rules("rule r { a exists }\n}", "f") {
        Err(LangError::ParseError(e)) => {
            assert_eq!((e.location.row, e.location.column), (2, 1));
        }
        other => panic!("{:?}", other),
    }
}

#[test]
fn errors_show_their_reason_and_place() {
    let e = EvaluationError::ComputationError("boom".to_string());
    assert_eq!(e.to_display_string(), "Error boom");
    match guard_lang::parse_json_value("[1, 2", "") {
        Err(err) => {
            let text = err.to_display_string();
            assert_eq!(text.starts_with("Error parsing at Line = 1, Column = 6. Reason "), true);
            let wrapped = EvaluationError::GuardFileParseError(err);
            assert_eq!(wrapped.to_display_string(), text);
        }
        other => panic!("{:?}", other),
    }
    let unexpected_expr = literal("10");
    let shown = EvaluationError::UnexpectedExpr("odd".to_string(), &unexpected_expr).to_display_string();
    assert_eq!(shown.starts_with("Error odd Location Line = 1, Column = 1, Expr Int("), true);
}

#[test]
fn it_works() {
    assert_eq!(2 + 2, 4);
}

use guard_lang::evaluation::{check_operator, SingleOrQuery};
use guard_lang::exprs::{BinaryOperator, FloatExpr};
use guard_lang::parser::ParseErr;
use guard_lang::parser::values::parse_range;
use guard_lang::types::Location;

fn float_literal(text: &str) -> Expr {
    Expr::Float(Box::new(FloatExpr::new(text.to_string(), Location::new(1, 1))))
}

#[test]
fn nan_literal_equals_nothing() {
    let n1 = float_literal("NaN");
    let n2 = float_literal("NaN");
    assert!(n1 != n2);
    assert!(n1 != float_literal("1.0"));
}

#[test]
fn infinity_literals_compare_by_sign() {
    assert!(float_literal("inf") == float_literal("Infinity"));
    assert!(float_literal("-inf") == float_literal("-INFINITY"));
    assert!(float_literal("inf") != float_literal("-inf"));
    assert!(float_literal("0.0") == float_literal("-0.0"));
}

#[test]
fn nan_and_infinity_in_data_are_floats() {
    let v = read_from("a: NaN\nb: inf\nc: -Infinity\nd: .nan\n").unwrap();
    match v {
        Value::Mapping(entries, _) => {
            assert_eq!(entries.len(), 4);
            assert!(matches!(&entries[0].1, Value::Float(t, _) if t == "NaN"));
            assert!(matches!(&entries[1].1, Value::Float(t, _) if t == "inf"));
            assert!(matches!(&entries[2].1, Value::Float(t, _) if t == "-Infinity"));
            assert!(!matches!(&entries[3].1, Value::Float(_, _)));
        }
        other => panic!("{:?}", other),
    }
}

#[test]
fn single_letter_booleans() {
    assert!(matches!(literal("T"), Expr::Bool(b) if b.value));
    assert!(matches!(literal("F"), Expr::Bool(b) if !b.value));
    assert!(matches!(literal("True"), Expr::Bool(b) if b.value));
    assert!(matches!(literal("FALSE"), Expr::Bool(b) if !b.value));
}

#[test]
fn conversion_error_names_the_first_bad_expression() {
    let arr = literal("[1, /a+/, 3]");
    let bad_location = match &arr {
        Expr::Array(a) => *a.elements[1].get_location(),
        other => panic!("{:?}", other),
    };
    match Value::try_from(arr) {
        Err(LangError::ParseError(pe)) => {
            assert_eq!(pe.message, "Unknown expression for JSON Regex");
            assert_eq!(pe.location, bad_location);
        }
        other => panic!("{:?}", other),
    }
    match Value::try_from(select("a.b")) {
        Err(LangError::ParseError(pe)) => assert_eq!(pe.message, "Unknown expression for JSON Select"),
        other => panic!("{:?}", other),
    }
}

#[test]
fn reversed_range_message() {
    for (text, msg) in [
        ("r[20, 10]", "Range specified is incorrect Start = 20, end = 10"),
        ("r(2.5, 1]", "Range specified is incorrect Start = 2.5, end = 1"),
    ] {
        let sp = Span::new_extra(text, "");
        match parse_range(&sp, 0) {
            Err(ParseErr::Failure(pe)) => {
                assert_eq!(pe.message, msg);
                assert_eq!(pe.location, Location::new(1, 1));
            }
            other => panic!("{:?}", other),
        }
    }
}

#[derive(Debug, Default)]
struct Recording {
    seen: Vec<(Status, String)>,
    told: Vec<String>,
}

impl<'value> EvalReporter<'value> for Recording {
    fn report_missing_value(&mut self, u: ValueType<'value>, d: &'value str, _e: &'value Expr) -> Result<(), std::io::Error> {
        assert_eq!(d, "");
        self.told.push(format!("missing {:?}", u));
        Ok(())
    }

    fn report_mismatch_value_traversal(&mut self, u: ValueType<'value>, d: &'value str, _e: &'value Expr) -> Result<(), std::io::Error> {
        assert_eq!(d, "");
        self.told.push(format!("mismatch {:?}", u));
        Ok(())
    }

    fn report_evaluation(&mut self, s: Status, c: Comparison<'value>, d: &'value str, _e: &'value Expr) -> Result<(), std::io::Error> {
        assert_eq!(d, "");
        let text = match c {
            Comparison::Binary(b) => format!("{:?} {:?} {:?}", b.lhs, b.operator, b.rhs),
            Comparison::Unary(u) => format!("{:?} {:?}", u.operator, u.argument),
        };
        self.seen.push((s, text));
        Ok(())
    }
}

#[test]
fn check_operator_reports_each_check() {
    let ten = literal("10");
    let twenty = literal("20");
    let binop = clause("10 < 20");
    let mut rec = Recording::default();
    let r = check_operator(
        BinaryOperator::Lesser,
        &binop,
        SingleOrQuery::Single(ValueType::LiteralValue(&ten)),
        SingleOrQuery::Single(ValueType::LiteralValue(&twenty)),
        &mut rec,
    );
    assert!(matches!(r, Ok(true)));
    assert_eq!(rec.seen.len(), 1);
    assert_eq!(rec.seen[0].0, Status::PASS);
    assert!(rec.seen[0].1.find("10").unwrap() < rec.seen[0].1.find("20").unwrap());

    let data = read_from("[5, 15, 25]").unwrap();
    let items: Vec<ValueType> = match &data {
        Value::List(l, _) => l.iter().map(ValueType::DataValue).collect(),
        other => panic!("{:?}", other),
    };
    let mut rec = Recording::default();
    let r = check_operator(
        BinaryOperator::Lesser,
        &binop,
        SingleOrQuery::Query(items),
        SingleOrQuery::Single(ValueType::LiteralValue(&twenty)),
        &mut rec,
    );
    assert!(matches!(r, Ok(false)));
    let statuses: Vec<Status> = rec.seen.iter().map(|s| s.0).collect();
    assert_eq!(statuses, vec![Status::PASS, Status::PASS, Status::FAIL]);

    let mut rec = Recording::default();
    let r = check_operator(
        BinaryOperator::Lesser,
        &binop,
        SingleOrQuery::Query(Vec::new()),
        SingleOrQuery::Single(ValueType::LiteralValue(&twenty)),
        &mut rec,
    );
    assert!(matches!(r, Ok(true)));
    assert!(rec.seen.is_empty());

    let mut failing = Failing {};
    let r = check_operator(
        BinaryOperator::Lesser,
        &binop,
        SingleOrQuery::Single(ValueType::LiteralValue(&ten)),
        SingleOrQuery::Single(ValueType::LiteralValue(&twenty)),
        &mut failing,
    );
    assert!(matches!(r, Err(EvaluationError::IoError(_))));
}

#[test]
fn reporter_errors_come_only_from_reports() {
    let v = read_from(DATA).unwrap();
    // nothing missing: the failing reporter is never told, so the query succeeds
    let found = select("Resources.bucket.Type");
    let mut h = RootScopeHierarchy::new(&v, Failing {});
    assert_eq!(h.query(&found, Vec::new()).unwrap().len(), 1);
    // a missing key is told, and the reporter's error comes back
    let missing = select("Resources.Missing");
    let mut h = RootScopeHierarchy::new(&v, Failing {});
    assert!(matches!(h.query(&missing, Vec::new()), Err(EvaluationError::IoError(_))));
    // a comparison tells its check, and the reporter's error comes back
    let eq = clause("Resources.bucket.Type == 'AWS::S3::Bucket'");
    let mut h = RootScopeHierarchy::new(&v, Failing {});
    assert!(matches!(h.binary_operation(&eq, Vec::new()), Err(EvaluationError::IoError(_))));
    // with a recording reporter, the one check of each selected value is told
    let tags = clause("Resources.bucket.Properties.Tags[*] != 'z'");
    let mut h = RootScopeHierarchy::new(&v, Recording::default());
    assert_eq!(h.binary_operation(&tags, Vec::new()).unwrap(), true);
    assert_eq!(h.reporter.seen.len(), 3);
}

#[test]
fn converted_key_found_tells_nothing() {
    let v = read_from("Resources:\n  allowed_ports: [600, 800]\n").unwrap();
    let q = select("Resources.AllowedPorts");
    let mut h = RootScopeHierarchy::new(&v, Recording::default());
    let found = h.query(&q, Vec::new()).unwrap();
    assert_eq!(found.len(), 1);
    assert!(matches!(found[0], ValueType::DataValue(Value::List(l, _)) if l.len() == 2));
    assert!(h.reporter.told.is_empty());
    assert!(h.reporter.seen.is_empty());
}

#[test]
fn star_on_empty_values_tells_missing_once() {
    let v = read_from("a: {}\nb: []\nc: 5\n").unwrap();
    for (text, n_values) in [("a.*", 0usize), ("b.*", 0), ("c.*", 1)] {
        let q = select(text);
        let mut h = RootScopeHierarchy::new(&v, Recording::default());
        let found = h.query(&q, Vec::new()).unwrap();
        assert_eq!(found.len(), n_values);
        if n_values == 0 {
            assert_eq!(h.reporter.told.len(), 1);
            assert!(h.reporter.told[0].starts_with("missing"));
        } else {
            assert!(h.reporter.told.is_empty());
        }
    }
    // a key on a list is of the wrong kind
    let q = select("b.x");
    let mut h = RootScopeHierarchy::new(&v, Recording::default());
    assert_eq!(h.query(&q, Vec::new()).unwrap().len(), 0);
    assert_eq!(h.reporter.told.len(), 1);
    assert!(h.reporter.told[0].starts_with("mismatch"));
}

#[test]
fn converted_literal_equals_itself() {
    for text in ["{ a: [1, 2.5, 'x'], b: null, c: { d: true } }", "[1, 2, [3, 'four']]", "-7", "'s'", "1.0e3"] {
        let e = literal(text);
        let v = Value::try_from(literal(text)).unwrap();
        assert!(v == e, "{}", text);
    }
}

#[test]
fn literal_equality_is_symmetric_and_reflexive() {
    let a = literal("{a: 1, b: [2, 3.0]}");
    let b = literal("{b: [2, 3.00], a: 1}");
    let c = literal("{a: 1}");
    assert!(a == b && b == a);
    assert!(a == a && b == b);
    assert!(!(a == c) && !(c == a));
}

#[test]
fn value_literal_equality_ignores_locations() {
    let near = read_from("x: [1, 2]\n").unwrap();
    let far = read_from("\n\n\n   x: [1, 2]\n").unwrap();
    let lit = literal("{ x: [1, 2] }");
    let lit_far = literal("\n\n  { x: [1, 2] }");
    assert!(near == lit && far == lit && near == lit_far && far == lit_far);
}
