use guard_lang::exprs::Expr;
use guard_lang::parser::grammar::{parse_array, parse_map};
use guard_lang::parser::lexical::{
    parse_bool, parse_float, parse_int_value, parse_name, parse_regex, parse_string,
    parse_variable_reference,
};
use guard_lang::parser::values::parse_range;
use guard_lang::parser::{ParseErr, Span};
use guard_lang::types::{Location, RangeType, LOWER_INCLUSIVE, UPPER_INCLUSIVE};

fn span(text: &str) -> Span {
    Span::new_extra(text, "")
}

fn error_location(err: &ParseErr) -> Location {
    match err {
        ParseErr::Error(pe) | ParseErr::Failure(pe) => *pe.get_location(),
    }
}

#[test]
fn parser_tests_test_parser_name() {
    let success = ["lambda", "s3_buckets", "ec2_security_groups", "ec2_security_rule type"];
    for s in success.iter() {
        let compare = s.split(" ").next().map_or("", std::convert::identity);
        let sp = span(s);
        let result = parse_name(&sp, 0);
        assert_eq!(result.is_ok(), true);
        assert_eq!(result.unwrap().1, compare);
    }

    let failures = ["", "1reject"];
    for s in failures.iter() {
        let sp = span(s);
        let result = parse_name(&sp, 0);
        assert_eq!(result.is_err(), true);
    }
}

#[test]
fn test_parse_bool() {
    for s in ["true", "True", "TRUE"].iter() {
        let sp = span(s);
        let result = parse_bool(&sp, 0);
        assert_eq!(result.is_ok(), true);
        let expr = match result.unwrap().1 {
            Expr::Bool(b) => *b,
            _ => unreachable!(),
        };
        assert_eq!(expr.value, true);
        assert_eq!(expr.location, Location::new(1, 1));
    }

    for s in ["false", "False", "FALSE"].iter() {
        let sp = span(s);
        let result = parse_bool(&sp, 0);
        assert_eq!(result.is_ok(), true);
        let expr = match result.unwrap().1 {
            Expr::Bool(b) => *b,
            _ => unreachable!(),
        };
        assert_eq!(expr.value, false);
        assert_eq!(expr.location, Location::new(1, 1));
    }

    for s in ["", "1", "0"].iter() {
        let sp = span(s);
        let result = parse_bool(&sp, 0);
        assert_eq!(result.is_err(), true);
    }
}

#[test]
fn test_parse_string() {
    let success = ["literal", "1literal", "this is", "escap\\\"ed"];
    for s in success.iter() {
        let to_parse = format!("\"{}\"", s);
        let expected = if s.contains("\\") { s.replace("\\", "") } else { s.to_string() };
        let sp = span(&to_parse);
        let result = parse_string(&sp, 0);
        let location = Location::new(1, 1);
        assert_eq!(result.is_ok(), true);
        match result {
            Ok((_, Expr::String(s))) => {
                assert_eq!(s.value(), &expected);
                assert_eq!(s.location(), &location);
            }
            _ => unreachable!(),
        }
    }

    let success = ["\"Hello World\"", "Added embedded \"string\""];
    for s in success.iter() {
        let to_parse = format!("\'{}\'", s);
        let sp = span(&to_parse);
        let result = parse_string(&sp, 0);
        let location = Location::new(1, 1);
        assert_eq!(result.is_ok(), true);
        match result {
            Ok((_, Expr::String(v))) => {
                assert_eq!(v.value(), *s);
                assert_eq!(v.location(), &location);
            }
            _ => unreachable!(),
        }
    }

    for e in ["", "No Quotes"].iter() {
        let sp = span(e);
        let result = parse_string(&sp, 0);
        assert_eq!(result.is_err(), true);
        match result {
            Err(ParseErr::Error(pe)) => {
                let location = pe.get_location();
                assert_eq!(location.row(), 1);
                assert_eq!(location.column(), 1);
            }
            _ => unreachable!(),
        }
    }
}

#[test]
fn test_parse_regex() {
    let success = [
        "/.*PROD.*/",
        "/arn:[\\w+=\\/,.@-]+:[\\w+=\\/,.@-]+:[\\w+=\\/,.@-]*:[0-9]*:[\\w+=,.@-]+(\\/[\\w+=,.@-]+)*/",
        "/notescape/d",
    ];
    for s in success.iter() {
        let to_match = s.replace("\\/", "/");
        let mut to_chars = to_match.chars();
        to_chars.next();
        to_chars.next_back();
        let expected = to_chars.as_str().to_string();
        let sp = span(s);
        let result = parse_regex(&sp, 0);
        assert_eq!(result.is_ok(), true);
        match result {
            Ok((_, Expr::Regex(regex))) => {
                if regex.value().contains("not") {
                    assert_eq!(regex.value(), "notescape");
                } else {
                    assert_eq!(regex.value(), expected);
                }
            }
            _ => unreachable!(),
        }
    }

    for to_parse in ["", "/open", "close/"].iter() {
        let sp = span(to_parse);
        let result = parse_regex(&sp, 0);
        assert_eq!(result.is_err(), true);
        match result {
            Err(ParseErr::Error(pe)) => {
                assert_eq!(pe.get_location().row(), 1);
                assert_eq!(pe.get_location().column() == 1 || pe.get_location().column() == 6, true);
            }
            _ => unreachable!(),
        }
    }
}

#[test]
fn test_parse_int() {
    let success = ["100", "200E", "0", "0123K-12", "+10", "-10", "+12E+10"];
    let expected = [100, 200, 0, 123, 10, -10, 12];
    for (to_parse, expected) in success.iter().zip(&expected) {
        let sp = span(to_parse);
        let result = parse_int_value(&sp, 0);
        assert_eq!(result.is_ok(), true);
        match result {
            Ok((pos, Expr::Int(val))) => {
                assert_eq!(val.value(), *expected);
                if *expected == 200 {
                    assert_eq!(sp.location_at(pos).column(), 4);
                    assert_eq!(sp.fragment(pos), "E");
                }
                if *expected == 123 {
                    assert_eq!(sp.location_at(pos).column(), 5);
                    assert_eq!(sp.fragment(pos), "K-12");
                }
                if *expected == 12 {
                    assert_eq!(sp.location_at(pos).column(), 4);
                    assert_eq!(sp.fragment(pos), "E+10");
                }
            }
            _ => unreachable!(),
        }
    }

    for to_parse in ["", "a10", "error"].iter() {
        let sp = span(to_parse);
        let result = parse_int_value(&sp, 0);
        assert_eq!(result.is_err(), true);
        match result {
            Err(ParseErr::Error(pe)) => {
                assert_eq!(pe.get_location().row(), 1);
                assert_eq!(pe.get_location().column(), 1);
            }
            _ => unreachable!(),
        }
    }
}

#[test]
fn test_parse_float_value() {
    let success = ["10.9", ".9", "1.", "1e10", "1e-10", "1.2E10"];
    let expected: Vec<f64> = success.iter().map(|s| s.parse::<f64>().unwrap()).collect();
    for (to_parse, expected) in success.iter().zip(&expected) {
        let sp = span(to_parse);
        let result = parse_float(&sp, 0);
        assert_eq!(result.is_ok(), true);
        match result.unwrap().1 {
            Expr::Float(val) => {
                assert_eq!(val.value().parse::<f64>().unwrap(), *expected);
            }
            _ => unreachable!(),
        }
    }

    let failures = ["10", "10K", "10 ", "", "error"];
    let locations = [
        Location::new(1, 3),
        Location::new(1, 3),
        Location::new(1, 3),
        Location::new(1, 1),
        Location::new(1, 1),
    ];
    for (to_parse, location) in failures.iter().zip(&locations) {
        let sp = span(to_parse);
        let result = parse_float(&sp, 0);
        assert_eq!(result.is_err(), true);
        assert_eq!(&error_location(&result.unwrap_err()), location);
    }
}

#[test]
fn test_parse_range() {
    let success = [
        "r(10, 20)",
        r#"r(10,
             20)"#,
        r###"r(# okay starting with 10
               10, # ending with 20 not inclusive
             20)"###,
        "r[100, 200]",
        "r(100, 200]",
    ];
    let expected = [
        RangeType { lower: 10, upper: 20, inclusive: 0 },
        RangeType { lower: 10, upper: 20, inclusive: 0 },
        RangeType { lower: 10, upper: 20, inclusive: 0 },
        RangeType { lower: 100, upper: 200, inclusive: LOWER_INCLUSIVE | UPPER_INCLUSIVE },
        RangeType { lower: 100, upper: 200, inclusive: UPPER_INCLUSIVE },
    ];
    for (to_parse, expected) in success.iter().zip(&expected) {
        let sp = span(to_parse);
        let range = parse_range(&sp, 0);
        assert_eq!(range.is_ok(), true);
        match range.unwrap().1 {
            Expr::RangeInt(range) => {
                assert_eq!(range.value(), expected);
            }
            _ => unreachable!(),
        }
    }

    let success = [
        r#"r(10.2,
             20.5)"#,
        "r[100.0, 200.10]",
        "r(10.0, 20]",
    ];
    let expected: [RangeType<f64>; 3] = [
        RangeType { lower: 10.2, upper: 20.5, inclusive: 0 },
        RangeType { lower: 100.0, upper: 200.10, inclusive: LOWER_INCLUSIVE | UPPER_INCLUSIVE },
        RangeType { lower: 10.0, upper: 20.0, inclusive: UPPER_INCLUSIVE },
    ];
    for (to_parse, expected) in success.iter().zip(&expected) {
        let sp = span(to_parse);
        let range = parse_range(&sp, 0);
        assert_eq!(range.is_ok(), true);
        match range.unwrap().1 {
            Expr::RangeFloat(range) => {
                let value = range.value();
                assert_eq!(value.lower.parse::<f64>().unwrap(), expected.lower);
                assert_eq!(value.upper.parse::<f64>().unwrap(), expected.upper);
                assert_eq!(value.inclusive, expected.inclusive);
            }
            _ => unreachable!(),
        }
    }

    let failures = ["", "r(10", "r[10, \"error\"]", "r(10, 20"];
    let locations = [
        Location::new(1, 1),
        Location::new(1, failures[1].len() + 1),
        Location::new(1, "r[10, ".len() + 1),
        Location::new(1, "r(10, 20".len() + 1),
    ];
    for (to_parse, loc) in failures.iter().zip(&locations) {
        let sp = span(to_parse);
        let result = parse_range(&sp, 0);
        assert_eq!(result.is_err(), true);
        assert_eq!(&error_location(&result.unwrap_err()), loc);
    }
}

#[test]
fn test_parse_map() {
    let success = [
        r###"
        {
            size: 10,
            length: 20,
            units: {
                type: "centimeters",
            }
        }
        "###,
        "{ size: 10, }",
        "{ size: 10, length: 20 }",
        "{ ok: true, value: null }",
        r###"
        {
           size: # this is a comment
              10,
        }
        "###,
        "{}",
        r#"
        { size: 10,
          type: "goodwill",
          amount: 10.5
        }
        "#,
    ];
    for to_parse in success.iter() {
        let sp = span(to_parse);
        let result = parse_map(&sp, 0);
        assert_eq!(result.is_ok(), true);
    }

    let failures = [
        r###"{ size 10 }"###,
        "{ size: 20, { error: true } }",
        r#"{ "touch": true, dimenstions: [ 10, 20, 30, ]"#,
        "{",
    ];
    let expected_failures = [
        Location::new(1, "{ size ".len() + 1),
        Location::new(1, "{ size: 20, ".len() + 1),
        Location::new(1, r#"{ "touch": true, dimenstions: [ 10, 20, 30, ]"#.len() + 1),
        Location::new(1, "{".len() + 1),
    ];
    for (to_parse, failure) in failures.iter().zip(&expected_failures) {
        let sp = span(to_parse);
        let result = parse_map(&sp, 0);
        assert_eq!(result.is_err(), true);
        assert_eq!(&error_location(&result.unwrap_err()), failure);
    }
}

#[test]
fn test_parse_collection() {
    for to_parse in ["[10, 20]", "[10, 20, 30, { mixed: true },]", "[[10, 20], 30, [40, 50]]"].iter() {
        let sp = span(to_parse);
        let result = parse_array(&sp, 0);
        assert_eq!(result.is_ok(), true);
    }

    let failures = ["", "[", "[10, 40,", "10, 40]"];
    let locations = [
        Location::new(1, 1),
        Location::new(1, 2),
        Location::new(1, "[10, 40,".len() + 1),
        Location::new(1, 1),
    ];
    for (to_parse, location) in failures.iter().zip(&locations) {
        let sp = span(to_parse);
        let result = parse_array(&sp, 0);
        assert_eq!(result.is_err(), true);
        assert_eq!(&error_location(&result.unwrap_err()), location);
    }
}

#[test]
fn test_parse_variable_reference() {
    let success = ["%var", "%var2", "%var_this"];
    for to_parse in success.iter() {
        let expected = to_parse.replace("%", "");
        let sp = span(to_parse);
        let result = parse_variable_reference(&sp, 0);
        assert_eq!(result.is_ok(), true);
        match result.unwrap().1 {
            Expr::VariableReference(sr) => {
                assert_eq!(sr.value(), expected);
            }
            _ => unreachable!(),
        }
    }

    for to_parse in ["", "var", "10%var"].iter() {
        let sp = span(to_parse);
        let result = parse_variable_reference(&sp, 0);
        assert_eq!(result.is_err(), true);
    }
}
