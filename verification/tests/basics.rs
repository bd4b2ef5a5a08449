use guard_lang::parse_rules;
use guard_lang::exprs::Expr;

#[test]
fn lib_it_works() {
    assert_eq!(2 + 2, 4);
}

#[test]
fn parse_rules_names_the_file() {
    let r = parse_rules("let x = 10\nrule a { x == 10 }", "rules.guard");
    match r {
        Ok(Expr::File(f)) => assert_eq!(f.name, "rules.guard"),
        other => panic!("{:?}", other),
    }
}

