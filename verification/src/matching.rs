//! Regular expression matching, done by the `regex` crate.
use vstd::prelude::*;

verus! {

/// What compiling `pattern` and testing `text` against it answers: `None`
/// when the pattern does not compile, else whether it matches somewhere in
/// the text.
pub uninterp spec fn regex_match_result(pattern: Seq<char>, text: Seq<char>) -> Option<bool>;

/// Compiles `pattern` with `regex::Regex::new` and tests `text` with
/// `Regex::is_match`. The contract claims only that the answer depends on
/// the pattern and the text alone; which texts a pattern matches is the
/// `regex` crate's and is not stated here.
#[verifier::external_body]
pub(crate) fn regex_is_match(pattern: &str, text: &str) -> (r: Option<bool>)
    ensures
        r == regex_match_result(pattern@, text@),
{
    match regex::Regex::new(pattern) {
        Ok(re) => Some(re.is_match(text)),
        Err(_) => None,
    }
}

} // verus!
