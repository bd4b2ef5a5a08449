//! Guard language: rule grammar, data model and evaluation primitives.
pub mod text;
pub mod types;
pub mod exprs;
pub mod tree;
pub mod parser;
pub mod numeric;
pub mod visitor;
pub mod equality;
pub mod assoc;
pub mod value;
pub mod matching;
pub mod compare;
pub mod value_order;
pub mod data;
pub mod evaluation;
pub mod cases;
pub mod query;
pub mod laws;

use vstd::prelude::*;
use crate::exprs::Expr;
use crate::types::{LangError, ParseError};
use crate::parser::{Span, ParseErr, Outcome, loc_at};
use crate::parser::syntax::{syn_rules_file, syn_value};
use crate::parser::grammar::{parse_rules_file, is_value_expr};
use crate::value::{Value, tree_value, lemma_tree_value};
use crate::evaluation::EvaluationError;

verus! {

/// Whether a parse error is located where the grammar gives up.
pub open spec fn error_located(e: ParseError, text: Seq<char>, o: Outcome) -> bool {
    match o {
        Outcome::Error(q) => e.location == loc_at(text, q),
        Outcome::Failure(q) => e.location == loc_at(text, q),
        Outcome::Done(_) => false,
    }
}

/// Parses the text of a rules file named `file`. It succeeds exactly when
/// the grammar reads the whole text as `let` assignments and rules, and the
/// result is the tree the grammar builds; otherwise the error is located
/// where the grammar gives up.
pub fn parse_rules(rules: &str, file: &str) -> (r: Result<Expr, LangError>)
    requires
        rules@.len() < usize::MAX,
    ensures
        r is Ok <==> syn_rules_file(rules@, 0, file@).0 is Done,
        r matches Ok(e) ==> e.tree() == syn_rules_file(rules@, 0, file@).1,
        r matches Ok(e) ==> (e matches Expr::File(f) && f.name@ == file@),
        r matches Err(e) ==> (e matches LangError::ParseError(pe) && error_located(
            pe,
            rules@,
            syn_rules_file(rules@, 0, file@).0,
        )),
{
    let span = Span::new_extra(rules, file);
    match parse_rules_file(&span, 0, file) {
        Ok((_, e)) => Ok(e),
        Err(ParseErr::Failure(e)) => Err(LangError::ParseError(e)),
        Err(ParseErr::Error(e)) => Err(LangError::ParseError(e)),
    }
}

/// Parses a value literal (a scalar, a list, a key/value literal, `null` or a
/// range) at the start of `value`, with white space and comments around it.
/// It succeeds exactly when the grammar reads a value there, and the result
/// is the tree the grammar builds; otherwise the error is located where the
/// grammar gives up.
pub fn parse_json_value(value: &str, file: &str) -> (r: Result<Expr, LangError>)
    requires
        value@.len() < usize::MAX,
    ensures
        r is Ok <==> syn_value(value@, 0).0 is Done,
        r matches Ok(e) ==> e.tree() == syn_value(value@, 0).1 && is_value_expr(e),
        r matches Err(e) ==> (e matches LangError::ParseError(pe) && error_located(
            pe,
            value@,
            syn_value(value@, 0).0,
        )),
{
    let span = Span::new_extra(value, file);
    match crate::parser::grammar::parse_value(&span, 0) {
        Ok((_, e)) => Ok(e),
        Err(ParseErr::Failure(e)) => Err(LangError::ParseError(e)),
        Err(ParseErr::Error(e)) => Err(LangError::ParseError(e)),
    }
}

/// Reads data text that is not YAML as a value literal: parsed as a value
/// expression, then converted to a value. It succeeds exactly when the text
/// reads as a value literal with no regular expression in it, and the value
/// is what that literal stands for; either step failing is a parse error of
/// the text.
pub fn read_json_value<'e>(text: &str) -> (r: Result<Value, EvaluationError<'e>>)
    requires
        text@.len() < usize::MAX,
    ensures
        r is Ok <==> (syn_value(text@, 0).0 is Done && tree_value(syn_value(text@, 0).1, false) is Some),
        r matches Ok(v) ==> Some(v.model()) == tree_value(syn_value(text@, 0).1, false) && v.wf(),
        r matches Err(e) ==> e is GuardFileParseError,
{
    match parse_json_value(text, "") {
        Ok(e) => {
            proof {
                lemma_tree_value(e, false);
            }
            match Value::try_from(e) {
                Ok(v) => Ok(v),
                Err(err) => Err(EvaluationError::GuardFileParseError(err)),
            }
        },
        Err(err) => Err(EvaluationError::GuardFileParseError(err)),
    }
}

} // verus!
