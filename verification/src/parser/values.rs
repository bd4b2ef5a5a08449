//! Literal values that hold no other expression: ranges, scalars, and the
//! delimiters and keys of collections.
use vstd::prelude::*;
use crate::exprs::{Expr, RangeIntExpr, RangeFloatExpr};
use crate::parser::syntax::{scalar_tree, range_tree};
use crate::types::{RangeType, ParseError, LOWER_INCLUSIVE, UPPER_INCLUSIVE};
use crate::text::{push_str, i64_to_decimal, signed_decimal, string_from_range};
use crate::numeric::{decimal_from_text, compare_decimals, readable_decimal, decimal_of_text, rat_order};
use crate::parser::{
    Span,
    ParseErr,
    PResult,
    Outcome,
    has_outcome,
    advances,
    loc_at,
    error_at,
    failure_at,
    file_message,
    add_context,
};
use crate::parser::lexical::{
    spec_float,
    spec_int,
    int_value,
    spec_string,
    spec_regex,
    spec_bool,
    spec_name,
    spec_strip_char,
    spec_ws_char,
    skip_ws,
    lemma_skip_ws,
    parse_float,
    parse_int_value,
    parse_string,
    parse_regex,
    parse_bool,
    var_name,
    strip_char,
    ws_char,
    char_at_is,
    zero_or_more_ws_or_comment,
    slice_chars,
};

verus! {

/// Where an outcome stopped, whatever it was.
pub open spec fn outcome_pos(o: Outcome) -> int {
    match o {
        Outcome::Done(q) => q,
        Outcome::Error(q) => q,
        Outcome::Failure(q) => q,
    }
}

// ---------------------------------------------------------------------
// Ranges
// ---------------------------------------------------------------------

/// A bound of a range: a float when the text starts like one, else an integer.
pub open spec fn spec_range_number(s: Seq<char>, a: int) -> Outcome {
    match spec_float(s, a) {
        Outcome::Error(_) => spec_int(s, a),
        o => o,
    }
}

/// The positions of a range written at `p`: where the lower bound starts
/// and ends, and where the upper bound starts and ends.
pub open spec fn range_lower_start(s: Seq<char>, p: int) -> int {
    skip_ws(s, p + 2)
}

pub open spec fn range_lower_end(s: Seq<char>, p: int) -> int {
    outcome_pos(spec_range_number(s, range_lower_start(s, p)))
}

pub open spec fn range_upper_start(s: Seq<char>, p: int) -> int {
    outcome_pos(spec_strip_char(s, range_lower_end(s, p), ','))
}

pub open spec fn range_upper_end(s: Seq<char>, p: int) -> int {
    outcome_pos(spec_range_number(s, range_upper_start(s, p)))
}

/// Whether both bounds are integers.
pub open spec fn range_is_int(s: Seq<char>, p: int) -> bool {
    !(spec_float(s, range_lower_start(s, p)) is Done) && !(spec_float(
        s,
        range_upper_start(s, p),
    ) is Done)
}

/// Whether the lower bound text is at most the upper bound text as a
/// number. Bounds that cannot be read as decimals are not compared.
pub open spec fn texts_in_order(t1: Seq<char>, t2: Seq<char>) -> bool {
    if readable_decimal(t1) && readable_decimal(t2) {
        match (decimal_of_text(t1), decimal_of_text(t2)) {
            (Some((n1, d1, e1)), Some((n2, d2, e2))) => rat_order(
                signed_value(n1, d1),
                e1,
                signed_value(n2, d2),
                e2,
            ) <= 0,
            _ => true,
        }
    } else {
        true
    }
}

pub open spec fn signed_value(negative: bool, digits: Seq<u8>) -> int {
    if negative {
        -(crate::numeric::dval(digits) as int)
    } else {
        crate::numeric::dval(digits) as int
    }
}

/// Whether the lower bound of the range at `p` is at most its upper bound.
pub open spec fn range_in_order(s: Seq<char>, p: int) -> bool {
    let a = range_lower_start(s, p);
    let b = range_lower_end(s, p);
    let c = range_upper_start(s, p);
    let d = range_upper_end(s, p);
    if range_is_int(s, p) {
        int_value(s, a, b) <= int_value(s, c, d)
    } else {
        texts_in_order(s.subrange(a, b), s.subrange(c, d))
    }
}

/// `RANGE ::= 'r' ('(' | '[') bound ',' bound (')' | ']')`, with white space
/// and comments allowed before each bound and around the comma.
pub open spec fn spec_range(s: Seq<char>, p: int) -> Outcome {
    if !(0 <= p < s.len() && s[p] == 'r') {
        Outcome::Error(p)
    } else if !(p + 1 < s.len() && (s[p + 1] == '(' || s[p + 1] == '[')) {
        Outcome::Error(p + 1)
    } else {
        match spec_range_number(s, range_lower_start(s, p)) {
            Outcome::Done(_) => match spec_strip_char(s, range_lower_end(s, p), ',') {
                Outcome::Done(_) => match spec_range_number(s, range_upper_start(s, p)) {
                    Outcome::Done(d) => if d < s.len() && (s[d] == ')' || s[d] == ']') {
                        if range_in_order(s, p) {
                            Outcome::Done(d + 1)
                        } else {
                            Outcome::Failure(p)
                        }
                    } else {
                        Outcome::Failure(d)
                    },
                    o => o,
                },
                o => o,
            },
            o => o,
        }
    }
}

/// Which ends of the range at `p` are included.
pub open spec fn range_inclusive(s: Seq<char>, p: int) -> u8 {
    let lower: u8 = if s[p + 1] == '[' {
        LOWER_INCLUSIVE
    } else {
        0u8
    };
    let upper: u8 = if s[range_upper_end(s, p)] == ']' {
        UPPER_INCLUSIVE
    } else {
        0u8
    };
    (lower + upper) as u8
}

/// A bound of a range.
fn range_number(s: &Span, a: usize) -> (r: PResult<Expr>)
    requires
        s.wf(),
        a <= s.chars@.len(),
    ensures
        has_outcome(r, s.chars@, spec_range_number(s.chars@, a as int)),
        advances(r, s.chars@, a as int),
        r matches Ok((q, e)) ==> (if spec_float(s.chars@, a as int) is Done {
            e matches Expr::Float(f) && f.value@ == s.chars@.subrange(a as int, q as int)
        } else {
            e matches Expr::Int(i) && i.value == int_value(s.chars@, a as int, q as int)
        }),
{
    match parse_float(s, a) {
        Err(ParseErr::Error(_)) => parse_int_value(s, a),
        r => r,
    }
}

/// The two bounds of a range and the comma between them, with where the
/// lower bound ends and where the upper bound starts.
fn range_value(s: &Span, p: usize) -> (r: PResult<(Expr, usize, usize, Expr)>)
    requires
        s.wf(),
        p + 2 <= s.chars@.len(),
    ensures
        match spec_range_number(s.chars@, range_lower_start(s.chars@, p as int)) {
            Outcome::Done(_) => match spec_strip_char(
                s.chars@,
                range_lower_end(s.chars@, p as int),
                ',',
            ) {
                Outcome::Done(_) => has_outcome(
                    r,
                    s.chars@,
                    spec_range_number(s.chars@, range_upper_start(s.chars@, p as int)),
                ),
                o => has_outcome(r, s.chars@, o),
            },
            o => has_outcome(r, s.chars@, o),
        },
        r matches Ok((d, (lo, b_, c_, hi))) ==> {
            let a = range_lower_start(s.chars@, p as int);
            let b = range_lower_end(s.chars@, p as int);
            let c = range_upper_start(s.chars@, p as int);
            &&& d == range_upper_end(s.chars@, p as int)
            &&& b_ == b
            &&& c_ == c
            &&& a < b <= c < d <= s.chars@.len()
            &&& (if spec_float(s.chars@, a) is Done {
                lo matches Expr::Float(f) && f.value@ == s.chars@.subrange(a, b)
            } else {
                lo matches Expr::Int(i) && i.value == int_value(s.chars@, a, b)
            })
            &&& (if spec_float(s.chars@, c) is Done {
                hi matches Expr::Float(f) && f.value@ == s.chars@.subrange(c, d as int)
            } else {
                hi matches Expr::Int(i) && i.value == int_value(s.chars@, c, d as int)
            })
        },
{
    let a = zero_or_more_ws_or_comment(s, p + 2);
    let (b, lower) = range_number(s, a)?;
    let (c, _) = strip_char(s, b, ',')?;
    let (d, higher) = range_number(s, c)?;
    Ok((d, (lower, b, c, higher)))
}

/// The text of a bound: the literal of a float, the digits of an integer.
fn bound_text(s: &Span, a: usize, b: usize) -> (r: Vec<char>)
    requires
        a <= b <= s.chars@.len(),
    ensures
        r@ == s.chars@.subrange(a as int, b as int),
{
    slice_chars(&s.chars, a, b)
}

/// `Range specified is incorrect Start = <lower>, end = <upper>`.
fn range_message(lower: &str, upper: &str) -> (r: String)
    ensures
        r@ == "Range specified is incorrect Start = "@ + lower@ + ", end = "@ + upper@,
{
    let mut m = String::new();
    push_str(&mut m, "Range specified is incorrect Start = ");
    push_str(&mut m, lower);
    push_str(&mut m, ", end = ");
    push_str(&mut m, upper);
    m
}

/// Whether two bound texts are in order as numbers, by exact decimal
/// comparison.
fn bound_texts_in_order(t1: &Vec<char>, t2: &Vec<char>) -> (r: bool)
    ensures
        r == texts_in_order(t1@, t2@),
{
    match (decimal_from_text(t1), decimal_from_text(t2)) {
        (Some(d1), Some(d2)) => compare_decimals(&d1, &d2) <= 0,
        _ => true,
    }
}

/// The range at `p` is written out in full, and its lower bound is greater
/// than its upper one.
pub open spec fn range_reversed(s: Seq<char>, p: int) -> bool {
    &&& 0 <= p < s.len() && s[p] == 'r'
    &&& p + 1 < s.len() && (s[p + 1] == '(' || s[p + 1] == '[')
    &&& spec_range_number(s, range_lower_start(s, p)) is Done
    &&& spec_strip_char(s, range_lower_end(s, p), ',') is Done
    &&& spec_range_number(s, range_upper_start(s, p)) matches Outcome::Done(d) && d < s.len() && (
    s[d] == ')' || s[d] == ']')
    &&& !range_in_order(s, p)
}

/// The message for a range whose lower bound is greater than its upper one:
/// `Range specified is incorrect Start = <lower>, end = <upper>`, integer
/// bounds in decimal, float bounds as written.
pub open spec fn range_order_message(s: Seq<char>, p: int) -> Seq<char> {
    let a = range_lower_start(s, p);
    let b = range_lower_end(s, p);
    let c = range_upper_start(s, p);
    let d = range_upper_end(s, p);
    let lower = if range_is_int(s, p) {
        signed_decimal(int_value(s, a, b) as int)
    } else {
        s.subrange(a, b)
    };
    let upper = if range_is_int(s, p) {
        signed_decimal(int_value(s, c, d) as int)
    } else {
        s.subrange(c, d)
    };
    "Range specified is incorrect Start = "@ + lower + ", end = "@ + upper
}

/// `RANGE ::= 'r' ('(' | '[') (INT | FLOAT) ',' (INT | FLOAT) (')' | ']')`.
/// Two integer bounds make an integer range; a float bound makes a float
/// range whose bounds are the literal texts. A lower bound greater than the
/// upper one is a failure located at the `r`.
pub fn parse_range(s: &Span, p: usize) -> (r: PResult<Expr>)
    requires
        s.wf(),
        p <= s.chars@.len(),
    ensures
        has_outcome(r, s.chars@, spec_range(s.chars@, p as int)),
        advances(r, s.chars@, p as int),
        r matches Ok((_, e)) ==> {
            let a = range_lower_start(s.chars@, p as int);
            let b = range_lower_end(s.chars@, p as int);
            let c = range_upper_start(s.chars@, p as int);
            let d = range_upper_end(s.chars@, p as int);
            if range_is_int(s.chars@, p as int) {
                &&& e matches Expr::RangeInt(ri)
                &&& ri.value.lower == int_value(s.chars@, a, b)
                &&& ri.value.upper == int_value(s.chars@, c, d)
                &&& ri.value.inclusive == range_inclusive(s.chars@, p as int)
                &&& ri.location == loc_at(s.chars@, p as int)
            } else {
                &&& e matches Expr::RangeFloat(rf)
                &&& rf.value.lower@ == s.chars@.subrange(a, b)
                &&& rf.value.upper@ == s.chars@.subrange(c, d)
                &&& rf.value.inclusive == range_inclusive(s.chars@, p as int)
                &&& rf.location == loc_at(s.chars@, p as int)
            }
        },
        r matches Ok((_, e)) ==> e.tree() == range_tree(s.chars@, p as int),
        range_reversed(s.chars@, p as int) ==> (r matches Err(
            ParseErr::Failure(pe),
        ) && pe.location == loc_at(s.chars@, p as int) && pe.message@ == range_order_message(
            s.chars@,
            p as int,
        )),
{
    let location = s.location_at(p);
    if !char_at_is(s, p, 'r') {
        return Err(error_at(s, p, "Char"));
    }
    if !(char_at_is(s, p + 1, '(') || char_at_is(s, p + 1, '[')) {
        return Err(error_at(s, p + 1, "OneOf"));
    }
    let start = s.chars[p + 1];
    proof {
        lemma_skip_ws(s.chars@, p + 2);
    }
    let (d, (start_value, b, c, end_value)) = match range_value(s, p) {
        Ok(v) => v,
        Err(e) => {
            return Err(
                add_context(
                    e,
                    "expecting range of integers or floats. E,g, r[10, 20] or r(10.2, 12.5]",
                ),
            );
        },
    };
    if !(char_at_is(s, d, ')') || char_at_is(s, d, ']')) {
        return Err(failure_at(s, d, "OneOf"));
    }
    let end = s.chars[d];
    let mut inclusive: u8 = if start == '[' {
        LOWER_INCLUSIVE
    } else {
        0u8
    };
    inclusive |= if end == ']' {
        UPPER_INCLUSIVE
    } else {
        0u8
    };
    proof {
        let x: u8 = if start == '[' { 1u8 } else { 0u8 };
        let y: u8 = if end == ']' { 2u8 } else { 0u8 };
        assert((x | y) == ((x + y) as u8)) by (bit_vector)
            requires
                x == 0 || x == 1,
                y == 0 || y == 2,
        ;
    }
    let a = zero_or_more_ws_or_comment(s, p + 2);
    let value = match (&start_value, &end_value) {
        (Expr::Int(lo), Expr::Int(hi)) => {
            if lo.value() > hi.value() {
                let lt = i64_to_decimal(lo.value());
                let ht = i64_to_decimal(hi.value());
                let msg = range_message(lt.as_str(), ht.as_str());
                return Err(ParseErr::Failure(ParseError::new(location, msg)));
            }
            Expr::RangeInt(
                Box::new(
                    RangeIntExpr::new(
                        RangeType { lower: lo.value(), upper: hi.value(), inclusive },
                        location,
                    ),
                ),
            )
        },
        _ => {
            let lower_text = bound_text(s, a, b);
            let upper_text = bound_text(s, c, d);
            let lt = string_from_range(&s.chars, a, b);
            let ht = string_from_range(&s.chars, c, d);
            if !bound_texts_in_order(&lower_text, &upper_text) {
                let msg = range_message(lt.as_str(), ht.as_str());
                return Err(ParseErr::Failure(ParseError::new(location, msg)));
            }
            Expr::RangeFloat(
                Box::new(
                    RangeFloatExpr::new(RangeType { lower: lt, upper: ht, inclusive }, location),
                ),
            )
        },
    };
    Ok((d + 1, value))
}

// ---------------------------------------------------------------------
// Scalars
// ---------------------------------------------------------------------

pub open spec fn bool_outcome(s: Seq<char>, p: int) -> Outcome {
    match spec_bool(s, p) {
        Some((q, _)) => Outcome::Done(q),
        None => Outcome::Error(p),
    }
}

/// `SCALAR ::= STRING | REGEX | FLOAT | INT | BOOL`, tried in this order.
pub open spec fn spec_scalar(s: Seq<char>, p: int) -> Outcome {
    match spec_string(s, p).0 {
        Outcome::Error(_) => match spec_regex(s, p).0 {
            Outcome::Error(_) => match spec_float(s, p) {
                Outcome::Error(_) => match spec_int(s, p) {
                    Outcome::Error(_) => bool_outcome(s, p),
                    o => o,
                },
                o => o,
            },
            o => o,
        },
        o => o,
    }
}

/// A scalar literal: a string, a regular expression, a float, an integer
/// or a boolean, the first form that reads.
pub fn parse_scalar_value(s: &Span, p: usize) -> (r: PResult<Expr>)
    requires
        s.wf(),
        p <= s.chars@.len(),
    ensures
        has_outcome(r, s.chars@, spec_scalar(s.chars@, p as int)),
        advances(r, s.chars@, p as int),
        r matches Ok((q, e)) ==> {
            let t = s.chars@;
            if spec_string(t, p as int).0 is Done {
                e matches Expr::String(se) && se.value@ == spec_string(t, p as int).1
            } else if spec_regex(t, p as int).0 is Done {
                e matches Expr::Regex(re) && re.value@ == spec_regex(t, p as int).1
            } else if spec_float(t, p as int) is Done {
                e matches Expr::Float(f) && f.value@ == t.subrange(p as int, q as int)
            } else if spec_int(t, p as int) is Done {
                e matches Expr::Int(i) && i.value == int_value(t, p as int, q as int)
            } else {
                e matches Expr::Bool(b) && b.value == spec_bool(t, p as int).unwrap().1
            }
        },
        r matches Ok((q, e)) ==> e.tree() == scalar_tree(s.chars@, p as int, q as int),
{
    match parse_string(s, p) {
        Err(ParseErr::Error(_)) => {},
        r => return r,
    }
    match parse_regex(s, p) {
        Err(ParseErr::Error(_)) => {},
        r => return r,
    }
    match parse_float(s, p) {
        Err(ParseErr::Error(_)) => {},
        r => return r,
    }
    match parse_int_value(s, p) {
        Err(ParseErr::Error(_)) => {},
        r => return r,
    }
    parse_bool(s, p)
}

// ---------------------------------------------------------------------
// Delimiters and keys of collections
// ---------------------------------------------------------------------

/// `,` after white space and comments.
pub fn parse_value_separator(s: &Span, p: usize) -> (r: PResult<()>)
    requires
        s.wf(),
        p <= s.chars@.len(),
    ensures
        has_outcome(r, s.chars@, spec_ws_char(s.chars@, p as int, ',')),
        advances(r, s.chars@, p as int),
        r is Err ==> r matches Err(ParseErr::Error(_)),
{
    ws_char(s, p, ',')
}

/// `{` after white space and comments.
pub fn parse_start_bracket(s: &Span, p: usize) -> (r: PResult<()>)
    requires
        s.wf(),
        p <= s.chars@.len(),
    ensures
        has_outcome(r, s.chars@, spec_ws_char(s.chars@, p as int, '{')),
        advances(r, s.chars@, p as int),
        r is Err ==> r matches Err(ParseErr::Error(_)),
{
    ws_char(s, p, '{')
}

/// `}` after white space and comments.
pub fn parse_end_bracket(s: &Span, p: usize) -> (r: PResult<()>)
    requires
        s.wf(),
        p <= s.chars@.len(),
    ensures
        has_outcome(r, s.chars@, spec_ws_char(s.chars@, p as int, '}')),
        advances(r, s.chars@, p as int),
        r is Err ==> r matches Err(ParseErr::Error(_)),
{
    ws_char(s, p, '}')
}

/// `:` after white space and comments.
pub fn parse_map_key_value_sep(s: &Span, p: usize) -> (r: PResult<()>)
    requires
        s.wf(),
        p <= s.chars@.len(),
    ensures
        has_outcome(r, s.chars@, spec_ws_char(s.chars@, p as int, ':')),
        advances(r, s.chars@, p as int),
        r is Err ==> r matches Err(ParseErr::Error(_)),
{
    ws_char(s, p, ':')
}

/// `[` after white space and comments.
pub fn parse_start_braces(s: &Span, p: usize) -> (r: PResult<()>)
    requires
        s.wf(),
        p <= s.chars@.len(),
    ensures
        has_outcome(r, s.chars@, spec_ws_char(s.chars@, p as int, '[')),
        advances(r, s.chars@, p as int),
        r is Err ==> r matches Err(ParseErr::Error(_)),
{
    ws_char(s, p, '[')
}

/// `]` after white space and comments.
pub fn parse_end_braces(s: &Span, p: usize) -> (r: PResult<()>)
    requires
        s.wf(),
        p <= s.chars@.len(),
    ensures
        has_outcome(r, s.chars@, spec_ws_char(s.chars@, p as int, ']')),
        advances(r, s.chars@, p as int),
        r is Err ==> r matches Err(ParseErr::Error(_)),
{
    ws_char(s, p, ']')
}

/// `(` after white space and comments.
pub fn parse_start_parenthesis(s: &Span, p: usize) -> (r: PResult<()>)
    requires
        s.wf(),
        p <= s.chars@.len(),
    ensures
        has_outcome(r, s.chars@, spec_ws_char(s.chars@, p as int, '(')),
        advances(r, s.chars@, p as int),
        r is Err ==> r matches Err(ParseErr::Error(_)),
{
    ws_char(s, p, '(')
}

/// `)` after white space and comments.
pub fn parse_end_parenthesis(s: &Span, p: usize) -> (r: PResult<()>)
    requires
        s.wf(),
        p <= s.chars@.len(),
    ensures
        has_outcome(r, s.chars@, spec_ws_char(s.chars@, p as int, ')')),
        advances(r, s.chars@, p as int),
        r is Err ==> r matches Err(ParseErr::Error(_)),
{
    ws_char(s, p, ')')
}

/// `KEY ::= PROPERTY_NAME | STRING`, with white space and comments around it.
pub open spec fn spec_map_key(s: Seq<char>, p: int) -> Outcome {
    let a = skip_ws(s, p);
    match spec_name(s, a) {
        Outcome::Done(q) => Outcome::Done(skip_ws(s, q)),
        Outcome::Error(_) => match spec_string(s, a).0 {
            Outcome::Done(q) => Outcome::Done(skip_ws(s, q)),
            o => o,
        },
        o => o,
    }
}

/// The text of the key read by `spec_map_key`.
pub open spec fn map_key_text(s: Seq<char>, p: int) -> Seq<char> {
    let a = skip_ws(s, p);
    match spec_name(s, a) {
        Outcome::Done(q) => s.subrange(a, q),
        _ => spec_string(s, a).1,
    }
}

/// The key of an entry of a key/value literal.
pub fn parse_map_key(s: &Span, p: usize) -> (r: PResult<Expr>)
    requires
        s.wf(),
        p <= s.chars@.len(),
    ensures
        has_outcome(r, s.chars@, spec_map_key(s.chars@, p as int)),
        advances(r, s.chars@, p as int),
        r matches Ok((_, e)) ==> e matches Expr::String(k) && k.value@ == map_key_text(
            s.chars@,
            p as int,
        ),
{
    let a = zero_or_more_ws_or_comment(s, p);
    let (q, key) = match var_name(s, a) {
        Err(ParseErr::Error(_)) => parse_string(s, a)?,
        r => r?,
    };
    proof {
        lemma_skip_ws(s.chars@, q as int);
    }
    Ok((zero_or_more_ws_or_comment(s, q), key))
}

} // verus!
