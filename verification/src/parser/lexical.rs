//! Tokens of the Guard language: white space and comments, names,
//! literals, documentation messages and operator keywords.
use vstd::prelude::*;
use crate::exprs::{Expr, StringExpr, IntExpr, RegexExpr, BoolExpr, CharExpr, FloatExpr, BinaryOperator, UnaryOperator};
use crate::text::{
    chars_of, matches_at, string_from_range, push_str, push_char, is_ascii_alpha, is_ascii_digit,
    is_ascii_alpha_exec, is_ascii_digit_exec, digit_value, unicode_alphanumeric,
    char_is_alphanumeric,
};
use super::{Span, ParseErr, PResult, Outcome, has_outcome, advances, ends_within, loc_at, error_at, failure_at};

verus! {

// ---------------------------------------------------------------------
// Character scanning
// ---------------------------------------------------------------------

pub open spec fn is_ws(c: char) -> bool {
    c == ' ' || c == '\t' || c == '\r' || c == '\n'
}

/// The first position at or after `p` holding `c`, or the end of the text.
pub open spec fn find_char(s: Seq<char>, p: int, c: char) -> int
    decreases s.len() - p,
{
    if p >= s.len() {
        s.len() as int
    } else if s[p] == c {
        p
    } else {
        find_char(s, p + 1, c)
    }
}

/// The first position at or after `p` that is not white space.
pub open spec fn ws_end(s: Seq<char>, p: int) -> int
    decreases s.len() - p,
{
    if p >= s.len() {
        s.len() as int
    } else if is_ws(s[p]) {
        ws_end(s, p + 1)
    } else {
        p
    }
}

/// The first position at or after `p` that is not an ASCII digit.
pub open spec fn digit_end(s: Seq<char>, p: int) -> int
    decreases s.len() - p,
{
    if p >= s.len() {
        s.len() as int
    } else if is_ascii_digit(s[p]) {
        digit_end(s, p + 1)
    } else {
        p
    }
}

pub open spec fn is_name_char(c: char) -> bool {
    unicode_alphanumeric(c) || c == '_'
}

/// The first position at or after `p` that cannot continue a name.
pub open spec fn name_end(s: Seq<char>, p: int) -> int
    decreases s.len() - p,
{
    if p >= s.len() {
        s.len() as int
    } else if is_name_char(s[p]) {
        name_end(s, p + 1)
    } else {
        p
    }
}

/// Whether the text `t` occurs in `s` at `p`.
pub open spec fn tag_at(s: Seq<char>, p: int, t: Seq<char>) -> bool {
    0 <= p && p + t.len() <= s.len() && s.subrange(p, p + t.len()) == t
}

/// The first position at or after `p` where the text `t` occurs, if any.
pub open spec fn find_text(s: Seq<char>, p: int, t: Seq<char>) -> Option<int>
    decreases s.len() - p,
{
    if p < 0 || p + t.len() > s.len() {
        None
    } else if tag_at(s, p, t) {
        Some(p)
    } else if p >= s.len() {
        None
    } else {
        find_text(s, p + 1, t)
    }
}

pub proof fn lemma_find_char_bounds(s: Seq<char>, p: int, c: char)
    requires
        0 <= p,
    ensures
        p <= find_char(s, p, c) || p > s.len(),
        find_char(s, p, c) <= s.len(),
        find_char(s, p, c) < s.len() ==> s[find_char(s, p, c)] == c,
        forall|k: int| p <= k < find_char(s, p, c) ==> s[k] != c,
    decreases s.len() - p,
{
    if p < s.len() && s[p] != c {
        lemma_find_char_bounds(s, p + 1, c);
    }
}

pub proof fn lemma_ws_end_bounds(s: Seq<char>, p: int)
    requires
        0 <= p <= s.len(),
    ensures
        p <= ws_end(s, p) <= s.len(),
    decreases s.len() - p,
{
    if p < s.len() && is_ws(s[p]) {
        lemma_ws_end_bounds(s, p + 1);
    }
}

pub proof fn lemma_digit_end_bounds(s: Seq<char>, p: int)
    requires
        0 <= p <= s.len(),
    ensures
        p <= digit_end(s, p) <= s.len(),
        forall|k: int| p <= k < digit_end(s, p) ==> is_ascii_digit(#[trigger] s[k]),
        digit_end(s, p) < s.len() ==> !is_ascii_digit(s[digit_end(s, p)]),
    decreases s.len() - p,
{
    if p < s.len() && is_ascii_digit(s[p]) {
        lemma_digit_end_bounds(s, p + 1);
    }
}

pub proof fn lemma_name_end_bounds(s: Seq<char>, p: int)
    requires
        0 <= p <= s.len(),
    ensures
        p <= name_end(s, p) <= s.len(),
    decreases s.len() - p,
{
    if p < s.len() && is_name_char(s[p]) {
        lemma_name_end_bounds(s, p + 1);
    }
}

pub proof fn lemma_find_text_bounds(s: Seq<char>, p: int, t: Seq<char>)
    requires
        0 <= p,
    ensures
        find_text(s, p, t) matches Some(k) ==> p <= k && tag_at(s, k, t),
    decreases s.len() - p,
{
    if !(p < 0 || p + t.len() > s.len()) && !tag_at(s, p, t) && p < s.len() {
        lemma_find_text_bounds(s, p + 1, t);
    }
}

pub fn find_char_exec(s: &Span, p: usize, c: char) -> (r: usize)
    requires
        s.wf(),
        p <= s.chars@.len(),
    ensures
        r == find_char(s.chars@, p as int, c),
        p <= r <= s.chars@.len(),
{
    proof {
        lemma_find_char_bounds(s.chars@, p as int, c);
    }
    let mut i = p;
    while i < s.chars.len() && s.chars[i] != c
        invariant
            s.wf(),
            p <= i <= s.chars@.len(),
            find_char(s.chars@, i as int, c) == find_char(s.chars@, p as int, c),
        decreases s.chars@.len() - i,
    {
        i = i + 1;
    }
    i
}

pub fn ws_end_exec(s: &Span, p: usize) -> (r: usize)
    requires
        s.wf(),
        p <= s.chars@.len(),
    ensures
        r == ws_end(s.chars@, p as int),
        p <= r <= s.chars@.len(),
{
    proof {
        lemma_ws_end_bounds(s.chars@, p as int);
    }
    let mut i = p;
    while i < s.chars.len() && is_ws_exec(s.chars[i])
        invariant
            s.wf(),
            p <= i <= s.chars@.len(),
            ws_end(s.chars@, i as int) == ws_end(s.chars@, p as int),
        decreases s.chars@.len() - i,
    {
        i = i + 1;
    }
    i
}

pub fn digit_end_exec(s: &Span, p: usize) -> (r: usize)
    requires
        s.wf(),
        p <= s.chars@.len(),
    ensures
        r == digit_end(s.chars@, p as int),
        p <= r <= s.chars@.len(),
{
    proof {
        lemma_digit_end_bounds(s.chars@, p as int);
    }
    let mut i = p;
    while i < s.chars.len() && is_ascii_digit_exec(s.chars[i])
        invariant
            s.wf(),
            p <= i <= s.chars@.len(),
            digit_end(s.chars@, i as int) == digit_end(s.chars@, p as int),
        decreases s.chars@.len() - i,
    {
        i = i + 1;
    }
    i
}

pub fn name_end_exec(s: &Span, p: usize) -> (r: usize)
    requires
        s.wf(),
        p <= s.chars@.len(),
    ensures
        r == name_end(s.chars@, p as int),
        p <= r <= s.chars@.len(),
{
    proof {
        lemma_name_end_bounds(s.chars@, p as int);
    }
    let mut i = p;
    while i < s.chars.len() && (char_is_alphanumeric(s.chars[i]) || s.chars[i] == '_')
        invariant
            s.wf(),
            p <= i <= s.chars@.len(),
            name_end(s.chars@, i as int) == name_end(s.chars@, p as int),
        decreases s.chars@.len() - i,
    {
        i = i + 1;
    }
    i
}

pub fn is_ws_exec(c: char) -> (r: bool)
    ensures
        r == is_ws(c),
{
    c == ' ' || c == '\t' || c == '\r' || c == '\n'
}

/// Whether the text `t` occurs at `p`.
pub fn tag_exec(s: &Span, p: usize, t: &str) -> (r: bool)
    requires
        s.wf(),
        p <= s.chars@.len(),
    ensures
        r == tag_at(s.chars@, p as int, t@),
{
    let tc = chars_of(t);
    matches_at(&s.chars, p, &tc)
}

/// Whether the character `c` is at `p`.
pub fn char_at_is(s: &Span, p: usize, c: char) -> (r: bool)
    ensures
        r == (p < s.chars@.len() && s.chars@[p as int] == c),
{
    p < s.chars.len() && s.chars[p] == c
}

/// The first position at or after `p` where `t` occurs, if any.
pub fn find_text_exec(s: &Span, p: usize, t: &Vec<char>) -> (r: Option<usize>)
    requires
        s.wf(),
        p <= s.chars@.len(),
    ensures
        r matches Some(k) ==> find_text(s.chars@, p as int, t@) == Some(k as int),
        r is None ==> find_text(s.chars@, p as int, t@) is None,
{
    let mut i = p;
    loop
        invariant
            s.wf(),
            p <= i <= s.chars@.len(),
            find_text(s.chars@, i as int, t@) == find_text(s.chars@, p as int, t@),
        decreases s.chars@.len() - i,
    {
        if t.len() > s.chars.len() - i {
            return None;
        }
        if t.len() == 0 {
            proof {
                assert(s.chars@.subrange(i as int, i as int + t@.len()) =~= t@);
            }
            return Some(i);
        }
        if matches_at(&s.chars, i, t) {
            return Some(i);
        }
        i = i + 1;
    }
}

// ---------------------------------------------------------------------
// White space and comments
// ---------------------------------------------------------------------

/// One run of white space, or one `#` comment that ends with a newline.
pub open spec fn spec_ws_or_comment(s: Seq<char>, p: int) -> Outcome {
    if p < s.len() && is_ws(s[p]) {
        Outcome::Done(ws_end(s, p))
    } else if p < s.len() && s[p] == '#' {
        let q = find_char(s, p + 1, '\n');
        if q < s.len() {
            Outcome::Done(q + 1)
        } else {
            Outcome::Error(q)
        }
    } else {
        Outcome::Error(p)
    }
}

/// Everything that is white space or comments, from `p` on.
pub open spec fn skip_ws(s: Seq<char>, p: int) -> int
    decreases s.len() - p,
{
    if 0 <= p <= s.len() {
        match spec_ws_or_comment(s, p) {
            Outcome::Done(q) => if p < q <= s.len() {
                skip_ws(s, q)
            } else {
                p
            },
            _ => p,
        }
    } else {
        p
    }
}

/// At least one white space run or comment, then everything that follows.
pub open spec fn spec_ws1(s: Seq<char>, p: int) -> Outcome {
    match spec_ws_or_comment(s, p) {
        Outcome::Done(q) => Outcome::Done(skip_ws(s, q)),
        o => o,
    }
}

pub proof fn lemma_ws_or_comment(s: Seq<char>, p: int)
    requires
        0 <= p <= s.len(),
    ensures
        spec_ws_or_comment(s, p) matches Outcome::Done(q) ==> p < q <= s.len(),
        spec_ws_or_comment(s, p) matches Outcome::Error(q) ==> p <= q <= s.len(),
        !(spec_ws_or_comment(s, p) is Failure),
{
    if p < s.len() && is_ws(s[p]) {
        lemma_ws_end_bounds(s, p + 1);
    } else if p < s.len() && s[p] == '#' {
        lemma_find_char_bounds(s, p + 1, '\n');
    }
}

pub proof fn lemma_skip_ws(s: Seq<char>, p: int)
    requires
        0 <= p <= s.len(),
    ensures
        p <= skip_ws(s, p) <= s.len(),
    decreases s.len() - p,
{
    lemma_ws_or_comment(s, p);
    if let Outcome::Done(q) = spec_ws_or_comment(s, p) {
        lemma_skip_ws(s, q);
    }
}

pub fn ws_or_comment(s: &Span, p: usize) -> (r: PResult<()>)
    requires
        s.wf(),
        p <= s.chars@.len(),
    ensures
        has_outcome(r, s.chars@, spec_ws_or_comment(s.chars@, p as int)),
        advances(r, s.chars@, p as int),
{
    proof {
        lemma_ws_or_comment(s.chars@, p as int);
    }
    if p < s.chars.len() && is_ws_exec(s.chars[p]) {
        Ok((ws_end_exec(s, p), ()))
    } else if char_at_is(s, p, '#') {
        let q = find_char_exec(s, p + 1, '\n');
        if q < s.chars.len() {
            Ok((q + 1, ()))
        } else {
            Err(error_at(s, q, "Char"))
        }
    } else {
        Err(error_at(s, p, "Char"))
    }
}

/// Skips white space and comments (never fails).
pub fn zero_or_more_ws_or_comment(s: &Span, p: usize) -> (r: usize)
    requires
        s.wf(),
        p <= s.chars@.len(),
    ensures
        r == skip_ws(s.chars@, p as int),
        p <= r <= s.chars@.len(),
{
    proof {
        lemma_skip_ws(s.chars@, p as int);
    }
    let mut i = p;
    loop
        invariant
            s.wf(),
            p <= i <= s.chars@.len(),
            skip_ws(s.chars@, i as int) == skip_ws(s.chars@, p as int),
        decreases s.chars@.len() - i,
    {
        proof {
            lemma_ws_or_comment(s.chars@, i as int);
        }
        match ws_or_comment(s, i) {
            Ok((q, _)) => {
                i = q;
            },
            Err(_) => {
                proof {
                    lemma_ws_or_comment(s.chars@, i as int);
                }
                return i;
            },
        }
    }
}

/// Requires at least one white space run or comment and skips all that follow.
pub fn one_or_more_ws_or_comment(s: &Span, p: usize) -> (r: PResult<()>)
    requires
        s.wf(),
        p <= s.chars@.len(),
    ensures
        has_outcome(r, s.chars@, spec_ws1(s.chars@, p as int)),
        advances(r, s.chars@, p as int),
        r is Err ==> r matches Err(ParseErr::Error(_)),
{
    match ws_or_comment(s, p) {
        Ok((q, _)) => {
            proof {
                lemma_skip_ws(s.chars@, q as int);
            }
            Ok((zero_or_more_ws_or_comment(s, q), ()))
        },
        Err(e) => Err(e),
    }
}

// ---------------------------------------------------------------------
// Names
// ---------------------------------------------------------------------

/// A name: an ASCII letter followed by letters, digits or underscores.
pub open spec fn spec_name(s: Seq<char>, p: int) -> Outcome {
    if 0 <= p < s.len() && is_ascii_alpha(s[p]) {
        Outcome::Done(name_end(s, p + 1))
    } else {
        Outcome::Error(p)
    }
}

pub fn parse_name(s: &Span, p: usize) -> (r: PResult<String>)
    requires
        s.wf(),
        p <= s.chars@.len(),
    ensures
        has_outcome(r, s.chars@, spec_name(s.chars@, p as int)),
        advances(r, s.chars@, p as int),
        r matches Ok((q, name)) ==> name@ == s.chars@.subrange(p as int, q as int),
{
    if p < s.chars.len() && is_ascii_alpha_exec(s.chars[p]) {
        let q = name_end_exec(s, p + 1);
        Ok((q, string_from_range(&s.chars, p, q)))
    } else {
        Err(error_at(s, p, "Alphabetic"))
    }
}

/// A name, as a string expression located where it starts.
pub fn var_name(s: &Span, p: usize) -> (r: PResult<Expr>)
    requires
        s.wf(),
        p <= s.chars@.len(),
    ensures
        has_outcome(r, s.chars@, spec_name(s.chars@, p as int)),
        advances(r, s.chars@, p as int),
        r matches Ok((q, e)) ==> e matches Expr::String(se) && se.value@ == s.chars@.subrange(
            p as int,
            q as int,
        ) && se.location == loc_at(s.chars@, p as int),
{
    let location = s.location_at(p);
    let (q, name) = parse_name(s, p)?;
    Ok((q, Expr::String(Box::new(StringExpr::new(name, location)))))
}

// ---------------------------------------------------------------------
// Integers
// ---------------------------------------------------------------------

/// The position after an optional `+` or `-` at `p`.
pub open spec fn sign_end(s: Seq<char>, p: int) -> int {
    if 0 <= p < s.len() && (s[p] == '+' || s[p] == '-') {
        p + 1
    } else {
        p
    }
}

/// The value of the decimal digits in `[a, b)`.
pub open spec fn digits_value(s: Seq<char>, a: int, b: int) -> nat
    decreases b - a,
{
    if b <= a {
        0
    } else {
        digits_value(s, a, b - 1) * 10 + (digit_value(s[b - 1]) as nat)
    }
}

/// The nearest `i64` to an integer.
pub open spec fn clamp_i64(v: int) -> i64 {
    if v > i64::MAX {
        i64::MAX
    } else if v < i64::MIN {
        i64::MIN
    } else {
        v as i64
    }
}

/// An optionally signed run of decimal digits.
pub open spec fn spec_int(s: Seq<char>, p: int) -> Outcome {
    let p1 = sign_end(s, p);
    if digit_end(s, p1) > p1 {
        Outcome::Done(digit_end(s, p1))
    } else {
        Outcome::Error(p1)
    }
}

/// The value of the integer text in `[p, q)`, saturated to the `i64` range.
pub open spec fn int_value(s: Seq<char>, p: int, q: int) -> i64 {
    let p1 = sign_end(s, p);
    let magnitude = digits_value(s, p1, q) as int;
    clamp_i64(if p1 > p && s[p] == '-' { -magnitude } else { magnitude })
}

/// The digit value cap used while accumulating: beyond it every value
/// saturates the same way.
pub open spec fn digit_cap() -> nat {
    0x1_0000_0000_0000_0000
}

pub proof fn lemma_cap_step(v: nat, d: nat)
    requires
        d < 10,
    ensures
        (if v * 10 + d > digit_cap() { digit_cap() } else { v * 10 + d }) == (if (if v > digit_cap() {
            digit_cap()
        } else {
            v
        }) * 10 + d > digit_cap() {
            digit_cap()
        } else {
            (if v > digit_cap() {
                digit_cap()
            } else {
                v
            }) * 10 + d
        }),
{
}

/// Reads the digits in `[a, b)` as a natural number, capped.
pub fn read_digits(s: &Span, a: usize, b: usize) -> (r: u128)
    requires
        a <= b <= s.chars@.len(),
        forall|k: int| a <= k < b ==> is_ascii_digit(#[trigger] s.chars@[k]),
    ensures
        r == (if digits_value(s.chars@, a as int, b as int) > digit_cap() {
            digit_cap()
        } else {
            digits_value(s.chars@, a as int, b as int)
        }),
{
    let mut acc: u128 = 0;
    let mut i = a;
    while i < b
        invariant
            a <= i <= b <= s.chars@.len(),
            forall|k: int| a <= k < b ==> is_ascii_digit(#[trigger] s.chars@[k]),
            acc == (if digits_value(s.chars@, a as int, i as int) > digit_cap() {
                digit_cap()
            } else {
                digits_value(s.chars@, a as int, i as int)
            }),
        decreases b - i,
    {
        let c = s.chars[i];
        assert(is_ascii_digit(s.chars@[i as int]));
        let d: u128 = ((c as u32) - ('0' as u32)) as u128;
        proof {
            lemma_cap_step(digits_value(s.chars@, a as int, i as int), d as nat);
        }
        let next = acc * 10 + d;
        acc = if next > 0x1_0000_0000_0000_0000 {
            0x1_0000_0000_0000_0000
        } else {
            next
        };
        i = i + 1;
    }
    acc
}

/// Converts a capped magnitude and a sign to the nearest `i64`.
pub fn signed_saturating(negative: bool, magnitude: u128) -> (r: i64)
    requires
        magnitude <= digit_cap(),
    ensures
        r == clamp_i64(if negative { -(magnitude as int) } else { magnitude as int }),
{
    if negative {
        if magnitude > 0x8000_0000_0000_0000 {
            i64::MIN
        } else if magnitude == 0x8000_0000_0000_0000 {
            i64::MIN
        } else {
            -(magnitude as i64)
        }
    } else {
        if magnitude > 0x7fff_ffff_ffff_ffff {
            i64::MAX
        } else {
            magnitude as i64
        }
    }
}

/// `INT ::= (+|-)? (0..9)+`
pub fn parse_int_value(s: &Span, p: usize) -> (r: PResult<Expr>)
    requires
        s.wf(),
        p <= s.chars@.len(),
    ensures
        has_outcome(r, s.chars@, spec_int(s.chars@, p as int)),
        advances(r, s.chars@, p as int),
        r matches Ok((q, e)) ==> e matches Expr::Int(ie) && ie.value == int_value(
            s.chars@,
            p as int,
            q as int,
        ) && ie.location == loc_at(s.chars@, p as int),
{
    let location = s.location_at(p);
    let negative = char_at_is(s, p, '-');
    let p1 = if char_at_is(s, p, '+') || negative {
        p + 1
    } else {
        p
    };
    let q = digit_end_exec(s, p1);
    if q == p1 {
        return Err(error_at(s, p1, "Digit"));
    }
    proof {
        lemma_digit_end_bounds(s.chars@, p1 as int);
    }
    let magnitude = read_digits(s, p1, q);
    let value = signed_saturating(negative, magnitude);
    proof {
        let m = digits_value(s.chars@, p1 as int, q as int) as int;
        if m > digit_cap() {
            assert(clamp_i64(m) == i64::MAX);
            assert(clamp_i64(-m) == i64::MIN);
        }
    }
    Ok((q, Expr::Int(Box::new(IntExpr::new(value, location)))))
}

// ---------------------------------------------------------------------
// Strings
// ---------------------------------------------------------------------

/// The rest of a quoted string after its opening quote at `p`: text up to
/// the closing quote, where a backslash right before a quote makes the
/// quote part of the text. The result is the outcome and the text read.
pub open spec fn string_body(s: Seq<char>, p: int, quote: char, acc: Seq<char>) -> (Outcome, Seq<
    char,
>)
    decreases s.len() - p,
{
    if p < 0 || p > s.len() {
        (Outcome::Failure(p), acc)
    } else {
        proof {
            lemma_find_char_bounds(s, p, quote);
        }
        let q = find_char(s, p, quote);
        if q > p && s[q - 1] == '\\' {
            if q >= s.len() {
                (Outcome::Failure(s.len() as int), acc)
            } else {
                string_body(s, q + 1, quote, acc + s.subrange(p, q - 1).push(quote))
            }
        } else if q >= s.len() {
            (Outcome::Failure(s.len() as int), acc)
        } else {
            (Outcome::Done(q + 1), acc + s.subrange(p, q))
        }
    }
}

pub open spec fn spec_string_inner(s: Seq<char>, p: int, quote: char) -> (Outcome, Seq<char>) {
    if 0 <= p < s.len() && s[p] == quote {
        string_body(s, p + 1, quote, Seq::empty())
    } else {
        (Outcome::Error(p), Seq::empty())
    }
}

/// A string in single or double quotes.
pub open spec fn spec_string(s: Seq<char>, p: int) -> (Outcome, Seq<char>) {
    if 0 <= p < s.len() && s[p] == '\'' {
        spec_string_inner(s, p, '\'')
    } else {
        spec_string_inner(s, p, '"')
    }
}

pub proof fn lemma_string_body(s: Seq<char>, p: int, quote: char, acc: Seq<char>)
    requires
        0 <= p <= s.len(),
    ensures
        string_body(s, p, quote, acc).0 matches Outcome::Done(q) ==> p < q <= s.len(),
        !(string_body(s, p, quote, acc).0 is Error),
    decreases s.len() - p,
{
    lemma_find_char_bounds(s, p, quote);
    let q = find_char(s, p, quote);
    if q > p && s[q - 1] == '\\' && q < s.len() {
        lemma_string_body(s, q + 1, quote, acc + s.subrange(p, q - 1).push(quote));
    }
}

pub fn parse_string_inner(s: &Span, p: usize, quote: char) -> (r: PResult<String>)
    requires
        s.wf(),
        p <= s.chars@.len(),
    ensures
        has_outcome(r, s.chars@, spec_string_inner(s.chars@, p as int, quote).0),
        advances(r, s.chars@, p as int),
        r matches Ok((_, v)) ==> v@ == spec_string_inner(s.chars@, p as int, quote).1,
{
    if !char_at_is(s, p, quote) {
        return Err(error_at(s, p, "Char"));
    }
    let mut completed = String::new();
    let mut i = p + 1;
    proof {
        lemma_string_body(s.chars@, i as int, quote, completed@);
    }
    loop
        invariant
            s.wf(),
            p < i <= s.chars@.len(),
            string_body(s.chars@, i as int, quote, completed@) == spec_string_inner(
                s.chars@,
                p as int,
                quote,
            ),
        decreases s.chars@.len() - i,
    {
        proof {
            lemma_string_body(s.chars@, i as int, quote, completed@);
            lemma_find_char_bounds(s.chars@, i as int, quote);
        }
        let q = find_char_exec(s, i, quote);
        if q > i && s.chars[q - 1] == '\\' {
            if q >= s.chars.len() {
                return Err(failure_at(s, s.chars.len(), "Char"));
            }
            let frag = string_from_range(&s.chars, i, q - 1);
            push_str(&mut completed, frag.as_str());
            push_char(&mut completed, quote);
            i = q + 1;
        } else if q >= s.chars.len() {
            return Err(failure_at(s, s.chars.len(), "Char"));
        } else {
            let frag = string_from_range(&s.chars, i, q);
            push_str(&mut completed, frag.as_str());
            return Ok((q + 1, completed));
        }
    }
}

/// `STRING ::= '"' (ESC|.)* '"' | '\'' (ESC|.)* '\''`
pub fn parse_string(s: &Span, p: usize) -> (r: PResult<Expr>)
    requires
        s.wf(),
        p <= s.chars@.len(),
    ensures
        has_outcome(r, s.chars@, spec_string(s.chars@, p as int).0),
        advances(r, s.chars@, p as int),
        r matches Ok((_, e)) ==> e matches Expr::String(se) && se.value@ == spec_string(
            s.chars@,
            p as int,
        ).1 && se.location == loc_at(s.chars@, p as int),
{
    let location = s.location_at(p);
    let (q, value) = if char_at_is(s, p, '\'') {
        parse_string_inner(s, p, '\'')?
    } else {
        parse_string_inner(s, p, '"')?
    };
    Ok((q, Expr::String(Box::new(StringExpr::new(value, location)))))
}

// ---------------------------------------------------------------------
// Regular expressions
// ---------------------------------------------------------------------

/// The rest of a regular expression after its opening `/` at `p`: at least
/// one character up to the closing `/`, where a backslash right before a
/// `/` makes the `/` part of the expression.
pub open spec fn regex_body(s: Seq<char>, p: int, acc: Seq<char>) -> (Outcome, Seq<char>)
    decreases s.len() - p,
{
    if p < 0 || p > s.len() {
        (Outcome::Error(p), acc)
    } else {
        proof {
            lemma_find_char_bounds(s, p, '/');
        }
        let q = find_char(s, p, '/');
        if q == p {
            (Outcome::Error(p), acc)
        } else if s[q - 1] == '\\' {
            if q >= s.len() {
                (Outcome::Failure(s.len() as int), acc)
            } else {
                regex_body(s, q + 1, acc + s.subrange(p, q - 1).push('/'))
            }
        } else if q >= s.len() {
            (Outcome::Error(q), acc + s.subrange(p, q))
        } else {
            (Outcome::Done(q + 1), acc + s.subrange(p, q))
        }
    }
}

/// `REGEX ::= '/' (ESC|.)+ '/'`
pub open spec fn spec_regex(s: Seq<char>, p: int) -> (Outcome, Seq<char>) {
    if 0 <= p < s.len() && s[p] == '/' {
        regex_body(s, p + 1, Seq::empty())
    } else {
        (Outcome::Error(p), Seq::empty())
    }
}

pub proof fn lemma_regex_body(s: Seq<char>, p: int, acc: Seq<char>)
    requires
        0 <= p <= s.len(),
    ensures
        regex_body(s, p, acc).0 matches Outcome::Done(q) ==> p < q <= s.len(),
    decreases s.len() - p,
{
    lemma_find_char_bounds(s, p, '/');
    let q = find_char(s, p, '/');
    if q != p && s[q - 1] == '\\' && q < s.len() {
        lemma_regex_body(s, q + 1, acc + s.subrange(p, q - 1).push('/'));
    }
}

pub fn parse_regex(s: &Span, p: usize) -> (r: PResult<Expr>)
    requires
        s.wf(),
        p <= s.chars@.len(),
    ensures
        has_outcome(r, s.chars@, spec_regex(s.chars@, p as int).0),
        advances(r, s.chars@, p as int),
        r matches Ok((_, e)) ==> e matches Expr::Regex(re) && re.value@ == spec_regex(
            s.chars@,
            p as int,
        ).1 && re.location == loc_at(s.chars@, p as int + 1),
{
    if !char_at_is(s, p, '/') {
        return Err(error_at(s, p, "Char"));
    }
    let location = s.location_at(p + 1);
    let mut regex = String::new();
    let mut i = p + 1;
    loop
        invariant
            s.wf(),
            p < i <= s.chars@.len(),
            regex_body(s.chars@, i as int, regex@) == spec_regex(s.chars@, p as int),
            location == loc_at(s.chars@, p as int + 1),
        decreases s.chars@.len() - i,
    {
        proof {
            lemma_regex_body(s.chars@, i as int, regex@);
            lemma_find_char_bounds(s.chars@, i as int, '/');
        }
        let q = find_char_exec(s, i, '/');
        if q == i {
            return Err(error_at(s, i, "IsNot"));
        } else if s.chars[q - 1] == '\\' {
            if q >= s.chars.len() {
                return Err(failure_at(s, s.chars.len(), "IsNot"));
            }
            let frag = string_from_range(&s.chars, i, q - 1);
            push_str(&mut regex, frag.as_str());
            push_char(&mut regex, '/');
            i = q + 1;
        } else if q >= s.chars.len() {
            return Err(error_at(s, q, "Char"));
        } else {
            let frag = string_from_range(&s.chars, i, q);
            push_str(&mut regex, frag.as_str());
            return Ok((q + 1, Expr::Regex(Box::new(RegexExpr::new(regex, location)))));
        }
    }
}

// ---------------------------------------------------------------------
// Booleans, null, characters
// ---------------------------------------------------------------------

/// `BOOL ::= true|True|TRUE|T|false|False|FALSE|F`; the whole words are
/// tried before the single letters, and a single letter is a boolean only
/// where it is not the start of a longer name (`Tags` is a name).
pub open spec fn spec_bool(s: Seq<char>, p: int) -> Option<(int, bool)> {
    if tag_at(s, p, "true"@) {
        Some((p + 4, true))
    } else if tag_at(s, p, "True"@) {
        Some((p + 4, true))
    } else if tag_at(s, p, "TRUE"@) {
        Some((p + 4, true))
    } else if tag_at(s, p, "false"@) {
        Some((p + 5, false))
    } else if tag_at(s, p, "False"@) {
        Some((p + 5, false))
    } else if tag_at(s, p, "FALSE"@) {
        Some((p + 5, false))
    } else if tag_at(s, p, "T"@) && name_end(s, p) == p + 1 {
        Some((p + 1, true))
    } else if tag_at(s, p, "F"@) && name_end(s, p) == p + 1 {
        Some((p + 1, false))
    } else {
        None
    }
}

pub fn parse_bool(s: &Span, p: usize) -> (r: PResult<Expr>)
    requires
        s.wf(),
        p <= s.chars@.len(),
    ensures
        has_outcome(
            r,
            s.chars@,
            match spec_bool(s.chars@, p as int) {
                Some((q, _)) => Outcome::Done(q),
                None => Outcome::Error(p as int),
            },
        ),
        advances(r, s.chars@, p as int),
        r matches Ok((_, e)) ==> e matches Expr::Bool(b) && b.value == spec_bool(
            s.chars@,
            p as int,
        ).unwrap().1 && b.location == loc_at(s.chars@, p as int),
{
    proof {
        reveal_strlit("true");
        reveal_strlit("True");
        reveal_strlit("TRUE");
        reveal_strlit("false");
        reveal_strlit("False");
        reveal_strlit("FALSE");
        reveal_strlit("T");
        reveal_strlit("F");
    }
    let location = s.location_at(p);
    let (q, v) = if tag_exec(s, p, "true") {
        (p + 4, true)
    } else if tag_exec(s, p, "True") {
        (p + 4, true)
    } else if tag_exec(s, p, "TRUE") {
        (p + 4, true)
    } else if tag_exec(s, p, "false") {
        (p + 5, false)
    } else if tag_exec(s, p, "False") {
        (p + 5, false)
    } else if tag_exec(s, p, "FALSE") {
        (p + 5, false)
    } else if tag_exec(s, p, "T") && name_end_exec(s, p) == p + 1 {
        (p + 1, true)
    } else if tag_exec(s, p, "F") && name_end_exec(s, p) == p + 1 {
        (p + 1, false)
    } else {
        return Err(error_at(s, p, "Tag"));
    };
    Ok((q, Expr::Bool(Box::new(BoolExpr::new(v, location)))))
}

/// `null` or `NULL`.
pub open spec fn spec_null(s: Seq<char>, p: int) -> Outcome {
    if tag_at(s, p, "null"@) || tag_at(s, p, "NULL"@) {
        Outcome::Done(p + 4)
    } else {
        Outcome::Error(p)
    }
}

pub fn parse_null(s: &Span, p: usize) -> (r: PResult<Expr>)
    requires
        s.wf(),
        p <= s.chars@.len(),
    ensures
        has_outcome(r, s.chars@, spec_null(s.chars@, p as int)),
        advances(r, s.chars@, p as int),
        r matches Ok((_, e)) ==> e matches Expr::Null(l) && *l == loc_at(s.chars@, p as int),
{
    proof {
        reveal_strlit("null");
        reveal_strlit("NULL");
    }
    let location = s.location_at(p);
    if tag_exec(s, p, "null") || tag_exec(s, p, "NULL") {
        Ok((p + 4, Expr::Null(Box::new(location))))
    } else {
        Err(error_at(s, p, "Tag"))
    }
}

/// Any single character.
pub fn parse_char(s: &Span, p: usize) -> (r: PResult<Expr>)
    requires
        s.wf(),
        p <= s.chars@.len(),
    ensures
        has_outcome(
            r,
            s.chars@,
            if p < s.chars@.len() {
                Outcome::Done(p + 1)
            } else {
                Outcome::Error(p as int)
            },
        ),
        r matches Ok((_, e)) ==> e matches Expr::Char(c) && c.value == s.chars@[p as int]
            && c.location == loc_at(s.chars@, p as int),
{
    let location = s.location_at(p);
    if p < s.chars.len() {
        Ok((p + 1, Expr::Char(Box::new(CharExpr::new(s.chars[p], location)))))
    } else {
        Err(error_at(s, p, "Eof"))
    }
}

// ---------------------------------------------------------------------
// Floating point numbers
// ---------------------------------------------------------------------

pub open spec fn is_exp_mark(s: Seq<char>, p: int) -> bool {
    0 <= p < s.len() && (s[p] == 'e' || s[p] == 'E')
}

/// `FLOAT ::= (+|-)? ( digits '.' | '.' digits | digits (e|E) (+|-)? digits )`,
/// the form a number must start with to be read as a float.
pub open spec fn spec_float_start(s: Seq<char>, p: int) -> Outcome {
    let p1 = sign_end(s, p);
    let d = digit_end(s, p1);
    if d > p1 && d < s.len() && s[d] == '.' {
        Outcome::Done(d + 1)
    } else if p1 < s.len() && s[p1] == '.' && digit_end(s, p1 + 1) > p1 + 1 {
        Outcome::Done(digit_end(s, p1 + 1))
    } else if d == p1 {
        Outcome::Error(p1)
    } else if !is_exp_mark(s, d) {
        Outcome::Error(d)
    } else {
        let e2 = sign_end(s, d + 1);
        if digit_end(s, e2) > e2 {
            Outcome::Done(digit_end(s, e2))
        } else {
            Outcome::Failure(e2)
        }
    }
}

/// The full extent of a float that starts well: sign, mantissa with an
/// optional fraction, optional exponent.
pub open spec fn spec_float_extent(s: Seq<char>, p: int) -> Outcome {
    let p1 = sign_end(s, p);
    let d = digit_end(s, p1);
    let m = if d > p1 {
        if d < s.len() && s[d] == '.' {
            digit_end(s, d + 1)
        } else {
            d
        }
    } else {
        digit_end(s, p1 + 1)
    };
    if is_exp_mark(s, m) {
        let e2 = sign_end(s, m + 1);
        if digit_end(s, e2) > e2 {
            Outcome::Done(digit_end(s, e2))
        } else {
            Outcome::Failure(e2)
        }
    } else {
        Outcome::Done(m)
    }
}

pub open spec fn spec_float(s: Seq<char>, p: int) -> Outcome {
    match spec_float_start(s, p) {
        Outcome::Done(_) => spec_float_extent(s, p),
        o => o,
    }
}

pub fn sign_end_exec(s: &Span, p: usize) -> (r: usize)
    requires
        s.wf(),
        p <= s.chars@.len(),
    ensures
        r == sign_end(s.chars@, p as int),
        p <= r <= s.chars@.len(),
{
    if char_at_is(s, p, '+') || char_at_is(s, p, '-') {
        p + 1
    } else {
        p
    }
}

fn is_exp_mark_exec(s: &Span, p: usize) -> (r: bool)
    ensures
        r == is_exp_mark(s.chars@, p as int),
{
    char_at_is(s, p, 'e') || char_at_is(s, p, 'E')
}

/// A floating point literal; the expression holds its text.
pub fn parse_float(s: &Span, p: usize) -> (r: PResult<Expr>)
    requires
        s.wf(),
        p <= s.chars@.len(),
    ensures
        has_outcome(r, s.chars@, spec_float(s.chars@, p as int)),
        advances(r, s.chars@, p as int),
        r matches Ok((q, e)) ==> e matches Expr::Float(f) && f.value@ == s.chars@.subrange(
            p as int,
            q as int,
        ) && f.location == loc_at(s.chars@, p as int),
{
    let location = s.location_at(p);
    let p1 = sign_end_exec(s, p);
    let d = digit_end_exec(s, p1);
    let len = s.chars.len();
    let starts_well = if d > p1 && d < len && s.chars[d] == '.' {
        true
    } else if p1 < len && s.chars[p1] == '.' && digit_end_exec(s, p1 + 1) > p1 + 1 {
        true
    } else if d == p1 {
        return Err(error_at(s, p1, "Digit"));
    } else if !is_exp_mark_exec(s, d) {
        return Err(error_at(s, d, "Char"));
    } else {
        let e2 = sign_end_exec(s, d + 1);
        if digit_end_exec(s, e2) > e2 {
            true
        } else {
            return Err(failure_at(s, e2, "Digit"));
        }
    };
    let m = if d > p1 {
        if d < len && s.chars[d] == '.' {
            digit_end_exec(s, d + 1)
        } else {
            d
        }
    } else {
        digit_end_exec(s, p1 + 1)
    };
    let end = if is_exp_mark_exec(s, m) {
        let e2 = sign_end_exec(s, m + 1);
        let f = digit_end_exec(s, e2);
        if f > e2 {
            f
        } else {
            return Err(failure_at(s, e2, "Digit"));
        }
    } else {
        m
    };
    let text = string_from_range(&s.chars, p, end);
    Ok((end, Expr::Float(Box::new(FloatExpr::new(text, location)))))
}

// ---------------------------------------------------------------------
// Single characters after white space
// ---------------------------------------------------------------------

/// White space and comments, then the character `c`.
pub open spec fn spec_ws_char(s: Seq<char>, p: int, c: char) -> Outcome {
    let a = skip_ws(s, p);
    if 0 <= a < s.len() && s[a] == c {
        Outcome::Done(a + 1)
    } else {
        Outcome::Error(a)
    }
}

pub fn ws_char(s: &Span, p: usize, c: char) -> (r: PResult<()>)
    requires
        s.wf(),
        p <= s.chars@.len(),
    ensures
        has_outcome(r, s.chars@, spec_ws_char(s.chars@, p as int, c)),
        advances(r, s.chars@, p as int),
        r is Err ==> r matches Err(ParseErr::Error(_)),
{
    let a = zero_or_more_ws_or_comment(s, p);
    if char_at_is(s, a, c) {
        Ok((a + 1, ()))
    } else {
        Err(error_at(s, a, "Char"))
    }
}

/// White space and comments, the character `c`, then white space and comments.
pub open spec fn spec_strip_char(s: Seq<char>, p: int, c: char) -> Outcome {
    match spec_ws_char(s, p, c) {
        Outcome::Done(q) => Outcome::Done(skip_ws(s, q)),
        o => o,
    }
}

pub fn strip_char(s: &Span, p: usize, c: char) -> (r: PResult<()>)
    requires
        s.wf(),
        p <= s.chars@.len(),
    ensures
        has_outcome(r, s.chars@, spec_strip_char(s.chars@, p as int, c)),
        advances(r, s.chars@, p as int),
        r is Err ==> r matches Err(ParseErr::Error(_)),
{
    let (q, _) = ws_char(s, p, c)?;
    Ok((zero_or_more_ws_or_comment(s, q), ()))
}

// ---------------------------------------------------------------------
// References
// ---------------------------------------------------------------------

/// `%name`
pub open spec fn spec_variable_reference(s: Seq<char>, p: int) -> Outcome {
    if 0 <= p < s.len() && s[p] == '%' {
        spec_name(s, p + 1)
    } else {
        Outcome::Error(p)
    }
}

pub fn parse_variable_reference(s: &Span, p: usize) -> (r: PResult<Expr>)
    requires
        s.wf(),
        p <= s.chars@.len(),
    ensures
        has_outcome(r, s.chars@, spec_variable_reference(s.chars@, p as int)),
        advances(r, s.chars@, p as int),
        r matches Ok((q, e)) ==> e matches Expr::VariableReference(se) && se.value@
            == s.chars@.subrange(p + 1, q as int) && se.location == loc_at(s.chars@, p + 1),
{
    if !char_at_is(s, p, '%') {
        return Err(error_at(s, p, "Char"));
    }
    let (q, e) = var_name(s, p + 1)?;
    match e {
        Expr::String(se) => Ok((q, Expr::VariableReference(se))),
        other => Ok((q, other)),
    }
}

/// `*`, as the string expression `*`.
pub fn parse_all_reference(s: &Span, p: usize) -> (r: PResult<Expr>)
    requires
        s.wf(),
        p <= s.chars@.len(),
    ensures
        has_outcome(
            r,
            s.chars@,
            if p < s.chars@.len() && s.chars@[p as int] == '*' {
                Outcome::Done(p + 1)
            } else {
                Outcome::Error(p as int)
            },
        ),
        r matches Ok((_, e)) ==> e matches Expr::String(se) && se.value@ == seq!['*']
            && se.location == loc_at(s.chars@, p as int),
{
    let location = s.location_at(p);
    if char_at_is(s, p, '*') {
        let mut v = String::new();
        push_char(&mut v, '*');
        proof {
            assert(v@ =~= seq!['*']);
        }
        Ok((p + 1, Expr::String(Box::new(StringExpr::new(v, location)))))
    } else {
        Err(error_at(s, p, "Tag"))
    }
}

// ---------------------------------------------------------------------
// Custom messages
// ---------------------------------------------------------------------

/// `<<` message `>>`
pub open spec fn spec_message_doc(s: Seq<char>, p: int) -> Outcome {
    if !tag_at(s, p, seq!['<', '<']) {
        Outcome::Error(p)
    } else {
        match find_text(s, p + 2, seq!['>', '>']) {
            None => Outcome::Failure(p + 2),
            Some(k) => Outcome::Done(k + 2),
        }
    }
}

pub fn message_doc(s: &Span, p: usize) -> (r: PResult<String>)
    requires
        s.wf(),
        p <= s.chars@.len(),
    ensures
        has_outcome(r, s.chars@, spec_message_doc(s.chars@, p as int)),
        advances(r, s.chars@, p as int),
        r matches Ok((q, m)) ==> m@ == s.chars@.subrange(p + 2, q - 2),
{
    let open = vec!['<', '<'];
    let close = vec!['>', '>'];
    proof {
        assert(open@ =~= seq!['<', '<']);
        assert(close@ =~= seq!['>', '>']);
    }
    if !matches_at(&s.chars, p, &open) {
        return Err(error_at(s, p, "Tag"));
    }
    match find_text_exec(s, p + 2, &close) {
        None => Err(failure_at(s, p + 2, "Can not find ending for message doc >>")),
        Some(k) => {
            proof {
                lemma_find_text_bounds(s.chars@, p + 2, close@);
            }
            Ok((k + 2, string_from_range(&s.chars, p + 2, k)))
        },
    }
}

/// `<<NAME` newline, message, `NAME`, then white space.
pub open spec fn spec_here_doc(s: Seq<char>, p: int) -> Outcome {
    if !tag_at(s, p, seq!['<', '<']) {
        Outcome::Error(p)
    } else {
        match spec_name(s, p + 2) {
            Outcome::Done(n) => if !(n < s.len() && s[n] == '\n') {
                Outcome::Error(n)
            } else {
                match find_text(s, n + 1, s.subrange(p + 2, n)) {
                    None => Outcome::Failure(n + 1),
                    Some(k) => match spec_ws1(s, k + (n - (p + 2))) {
                        Outcome::Done(q) => Outcome::Done(q),
                        Outcome::Error(q) => Outcome::Failure(q),
                        Outcome::Failure(q) => Outcome::Failure(q),
                    },
                }
            },
            o => o,
        }
    }
}

/// The message of a here-doc: the text between the line that opens it and
/// the repeated name that closes it.
pub open spec fn here_doc_text(s: Seq<char>, p: int) -> Seq<char> {
    match spec_name(s, p + 2) {
        Outcome::Done(n) => match find_text(s, n + 1, s.subrange(p + 2, n)) {
            Some(k) => s.subrange(n + 1, k),
            None => Seq::empty(),
        },
        _ => Seq::empty(),
    }
}

pub fn here_doc(s: &Span, p: usize) -> (r: PResult<String>)
    requires
        s.wf(),
        p <= s.chars@.len(),
    ensures
        has_outcome(r, s.chars@, spec_here_doc(s.chars@, p as int)),
        advances(r, s.chars@, p as int),
        r matches Ok((_, m)) ==> m@ == here_doc_text(s.chars@, p as int),
{
    let open = vec!['<', '<'];
    proof {
        assert(open@ =~= seq!['<', '<']);
    }
    if !matches_at(&s.chars, p, &open) {
        return Err(error_at(s, p, "Tag"));
    }
    let (n, _name) = parse_name(s, p + 2)?;
    if !char_at_is(s, n, '\n') {
        return Err(error_at(s, n, "Char"));
    }
    let identity = slice_chars(&s.chars, p + 2, n);
    match find_text_exec(s, n + 1, &identity) {
        None => Err(failure_at(s, n + 1, "Can not find HEREDOC ending")),
        Some(k) => {
            proof {
                lemma_find_text_bounds(s.chars@, n + 1, identity@);
            }
            let message = string_from_range(&s.chars, n + 1, k);
            let after = k + (n - (p + 2));
            match one_or_more_ws_or_comment(s, after) {
                Ok((q, _)) => Ok((q, message)),
                Err(ParseErr::Error(e)) => Err(ParseErr::Failure(e)),
                Err(ParseErr::Failure(e)) => Err(ParseErr::Failure(e)),
            }
        },
    }
}

/// The characters in `[a, b)` of a character vector.
pub fn slice_chars(v: &Vec<char>, a: usize, b: usize) -> (r: Vec<char>)
    requires
        a <= b <= v@.len(),
    ensures
        r@ == v@.subrange(a as int, b as int),
{
    let mut out: Vec<char> = Vec::new();
    let mut i = a;
    while i < b
        invariant
            a <= i <= b <= v@.len(),
            out@ == v@.subrange(a as int, i as int),
        decreases b - i,
    {
        out.push(v[i]);
        proof {
            assert(v@.subrange(a as int, i as int + 1) =~= v@.subrange(a as int, i as int).push(
                v@[i as int],
            ));
        }
        i = i + 1;
    }
    out
}


// ---------------------------------------------------------------------
// Keywords and operators
// ---------------------------------------------------------------------

/// The index of the first of the keywords that occurs at `a`, if any.
pub open spec fn first_tag(s: Seq<char>, a: int, kws: Seq<&str>) -> Option<int>
    decreases kws.len(),
{
    if kws.len() == 0 {
        None
    } else if tag_at(s, a, kws[0]@) {
        Some(0)
    } else {
        match first_tag(s, a, kws.drop_first()) {
            Some(i) => Some(i + 1),
            None => None,
        }
    }
}

pub proof fn lemma_first_tag(s: Seq<char>, a: int, kws: Seq<&str>)
    ensures
        first_tag(s, a, kws) matches Some(i) ==> 0 <= i < kws.len() && tag_at(s, a, kws[i]@),
    decreases kws.len(),
{
    if kws.len() > 0 && !tag_at(s, a, kws[0]@) {
        lemma_first_tag(s, a, kws.drop_first());
    }
}

pub fn first_tag_exec(s: &Span, a: usize, kws: &[&str]) -> (r: Option<usize>)
    requires
        s.wf(),
        a <= s.chars@.len(),
    ensures
        r matches Some(i) ==> first_tag(s.chars@, a as int, kws@) == Some(i as int),
        r is None ==> first_tag(s.chars@, a as int, kws@) is None,
{
    let mut i: usize = 0;
    proof {
        assert(kws@.subrange(0, kws@.len() as int) =~= kws@);
    }
    while i < kws.len()
        invariant
            s.wf(),
            a <= s.chars@.len(),
            0 <= i <= kws@.len(),
            first_tag(s.chars@, a as int, kws@) == match first_tag(
                s.chars@,
                a as int,
                kws@.subrange(i as int, kws@.len() as int),
            ) {
                Some(j) => Some(j + i),
                None => None,
            },
        decreases kws@.len() - i,
    {
        proof {
            assert(kws@.subrange(i as int, kws@.len() as int).drop_first() =~= kws@.subrange(
                i as int + 1,
                kws@.len() as int,
            ));
        }
        if tag_exec(s, a, kws[i]) {
            return Some(i);
        }
        i = i + 1;
    }
    proof {
        assert(kws@.subrange(i as int, kws@.len() as int) =~= Seq::<&str>::empty());
    }
    None
}

/// White space and comments, the first keyword that occurs, then at least
/// one white space run or comment.
pub open spec fn spec_kw_trailing(s: Seq<char>, p: int, kws: Seq<&str>) -> Outcome {
    let a = skip_ws(s, p);
    match first_tag(s, a, kws) {
        Some(i) => spec_ws1(s, a + kws[i]@.len()),
        None => Outcome::Error(a),
    }
}

pub fn kw_trailing(s: &Span, p: usize, kws: &[&str]) -> (r: PResult<()>)
    requires
        s.wf(),
        p <= s.chars@.len(),
    ensures
        has_outcome(r, s.chars@, spec_kw_trailing(s.chars@, p as int, kws@)),
        advances(r, s.chars@, p as int),
        r is Err ==> r matches Err(ParseErr::Error(_)),
{
    let a = zero_or_more_ws_or_comment(s, p);
    match first_tag_exec(s, a, kws) {
        Some(i) => {
            proof {
                lemma_first_tag(s.chars@, a as int, kws@);
            }
            let n = chars_of(kws[i]).len();
            one_or_more_ws_or_comment(s, a + n)
        },
        None => Err(error_at(s, a, "Tag")),
    }
}

/// White space and comments, the text `t`, then white space and comments.
pub open spec fn spec_strip_tag(s: Seq<char>, p: int, t: Seq<char>) -> Outcome {
    let a = skip_ws(s, p);
    if tag_at(s, a, t) {
        Outcome::Done(skip_ws(s, a + t.len()))
    } else {
        Outcome::Error(a)
    }
}

pub fn strip_tag(s: &Span, p: usize, t: &str) -> (r: PResult<()>)
    requires
        s.wf(),
        p <= s.chars@.len(),
    ensures
        has_outcome(r, s.chars@, spec_strip_tag(s.chars@, p as int, t@)),
        ends_within(r, s.chars@, p as int),
        t@.len() > 0 ==> advances(r, s.chars@, p as int),
        r is Err ==> r matches Err(ParseErr::Error(_)),
{
    let a = zero_or_more_ws_or_comment(s, p);
    if tag_exec(s, a, t) {
        let n = chars_of(t).len();
        proof {
            lemma_skip_ws(s.chars@, a + n);
        }
        Ok((zero_or_more_ws_or_comment(s, a + n), ()))
    } else {
        Err(error_at(s, a, "Tag"))
    }
}

/// A keyword form (written with trailing white space) or a symbol form
/// (written with optional white space).
pub open spec fn spec_keyword_or_symbol(s: Seq<char>, p: int, kws: Seq<&str>, sym: Seq<char>) -> Outcome {
    match spec_kw_trailing(s, p, kws) {
        Outcome::Done(q) => Outcome::Done(q),
        _ => spec_strip_tag(s, p, sym),
    }
}

/// `or`, `OR` or `||`.
pub fn or_operator(s: &Span, p: usize) -> (r: PResult<BinaryOperator>)
    requires
        s.wf(),
        p <= s.chars@.len(),
    ensures
        has_outcome(r, s.chars@, spec_keyword_or_symbol(s.chars@, p as int, seq!["or", "OR"], "||"@)),
        advances(r, s.chars@, p as int),
        r matches Ok((_, op)) ==> op == BinaryOperator::Or,
        r is Err ==> r matches Err(ParseErr::Error(_)),
{
    proof {
        reveal_strlit("||");
    }
    let kws = ["or", "OR"];
    assert(kws@ == seq!["or", "OR"]);
    match kw_trailing(s, p, &kws) {
        Ok((q, _)) => Ok((q, BinaryOperator::Or)),
        Err(_) => {
            let (q, _) = strip_tag(s, p, "||")?;
            Ok((q, BinaryOperator::Or))
        },
    }
}

/// `and`, `AND` or `&&`.
pub fn and_operator(s: &Span, p: usize) -> (r: PResult<BinaryOperator>)
    requires
        s.wf(),
        p <= s.chars@.len(),
    ensures
        has_outcome(r, s.chars@, spec_keyword_or_symbol(s.chars@, p as int, seq!["and", "AND"], "&&"@)),
        advances(r, s.chars@, p as int),
        r matches Ok((_, op)) ==> op == BinaryOperator::And,
        r is Err ==> r matches Err(ParseErr::Error(_)),
{
    proof {
        reveal_strlit("&&");
    }
    let kws = ["and", "AND"];
    assert(kws@ == seq!["and", "AND"]);
    match kw_trailing(s, p, &kws) {
        Ok((q, _)) => Ok((q, BinaryOperator::And)),
        Err(_) => {
            let (q, _) = strip_tag(s, p, "&&")?;
            Ok((q, BinaryOperator::And))
        },
    }
}

/// `not`, `NOT` or `!`.
pub fn not(s: &Span, p: usize) -> (r: PResult<UnaryOperator>)
    requires
        s.wf(),
        p <= s.chars@.len(),
    ensures
        has_outcome(r, s.chars@, spec_keyword_or_symbol(s.chars@, p as int, seq!["not", "NOT"], "!"@)),
        advances(r, s.chars@, p as int),
        r matches Ok((_, op)) ==> op == UnaryOperator::Not,
        r is Err ==> r matches Err(ParseErr::Error(_)),
{
    proof {
        reveal_strlit("!");
    }
    let kws = ["not", "NOT"];
    assert(kws@ == seq!["not", "NOT"]);
    match kw_trailing(s, p, &kws) {
        Ok((q, _)) => Ok((q, UnaryOperator::Not)),
        Err(_) => {
            let (q, _) = strip_tag(s, p, "!")?;
            Ok((q, UnaryOperator::Not))
        },
    }
}

/// `anyone`, `some` or `atleast-one` (at least one), or `any`.
pub open spec fn spec_anyone(s: Seq<char>, p: int) -> (Outcome, UnaryOperator) {
    match spec_kw_trailing(s, p, seq!["anyone", "some", "atleast-one"]) {
        Outcome::Done(q) => (Outcome::Done(q), UnaryOperator::AnyOne),
        _ => (spec_kw_trailing(s, p, seq!["any"]), UnaryOperator::Any),
    }
}

pub fn anyone(s: &Span, p: usize) -> (r: PResult<UnaryOperator>)
    requires
        s.wf(),
        p <= s.chars@.len(),
    ensures
        has_outcome(r, s.chars@, spec_anyone(s.chars@, p as int).0),
        advances(r, s.chars@, p as int),
        r matches Ok((_, op)) ==> op == spec_anyone(s.chars@, p as int).1,
        r is Err ==> r matches Err(ParseErr::Error(_)),
{
    let kws = ["anyone", "some", "atleast-one"];
    assert(kws@ == seq!["anyone", "some", "atleast-one"]);
    match kw_trailing(s, p, &kws) {
        Ok((q, _)) => Ok((q, UnaryOperator::AnyOne)),
        Err(_) => {
            let any = ["any"];
            assert(any@ == seq!["any"]);
            let (q, _) = kw_trailing(s, p, &any)?;
            Ok((q, UnaryOperator::Any))
        },
    }
}

/// `keys`/`KEYS` or `indices`/`INDICES`, followed by white space.
pub open spec fn spec_keys_or_indices(s: Seq<char>, p: int) -> (Outcome, UnaryOperator) {
    match spec_kw_trailing(s, p, seq!["keys", "KEYS"]) {
        Outcome::Done(q) => (Outcome::Done(q), UnaryOperator::Keys),
        _ => (spec_kw_trailing(s, p, seq!["indices", "INDICES"]), UnaryOperator::Indices),
    }
}

pub fn keys_or_indices(s: &Span, p: usize) -> (r: PResult<UnaryOperator>)
    requires
        s.wf(),
        p <= s.chars@.len(),
    ensures
        has_outcome(r, s.chars@, spec_keys_or_indices(s.chars@, p as int).0),
        advances(r, s.chars@, p as int),
        r matches Ok((_, op)) ==> op == spec_keys_or_indices(s.chars@, p as int).1,
        r is Err ==> r matches Err(ParseErr::Error(_)),
{
    let kws = ["keys", "KEYS"];
    assert(kws@ == seq!["keys", "KEYS"]);
    match kw_trailing(s, p, &kws) {
        Ok((q, _)) => Ok((q, UnaryOperator::Keys)),
        Err(_) => {
            let ind = ["indices", "INDICES"];
            assert(ind@ == seq!["indices", "INDICES"]);
            let (q, _) = kw_trailing(s, p, &ind)?;
            Ok((q, UnaryOperator::Indices))
        },
    }
}

/// The comparison symbol at `a`, if any, with its length: `==`, `!=`,
/// `>=`, `>` (not followed by another `>`), `<=`, `<` (not followed by
/// another `<`).
pub open spec fn comparison_symbol(s: Seq<char>, a: int) -> Option<(BinaryOperator, int)> {
    if tag_at(s, a, "=="@) {
        Some((BinaryOperator::Equals, 2))
    } else if tag_at(s, a, "!="@) {
        Some((BinaryOperator::NotEquals, 2))
    } else if tag_at(s, a, ">="@) {
        Some((BinaryOperator::GreaterThanEquals, 2))
    } else if tag_at(s, a, ">"@) && !(a + 1 < s.len() && s[a + 1] == '>') {
        Some((BinaryOperator::Greater, 1))
    } else if tag_at(s, a, "<="@) {
        Some((BinaryOperator::LesserThanEquals, 2))
    } else if tag_at(s, a, "<"@) && !(a + 1 < s.len() && s[a + 1] == '<') {
        Some((BinaryOperator::Lesser, 1))
    } else {
        None
    }
}

/// A comparison symbol between white space, or `in`/`IN` followed by white space.
pub open spec fn spec_binary_comparison_operator(s: Seq<char>, p: int) -> (Outcome, BinaryOperator) {
    let a = skip_ws(s, p);
    match comparison_symbol(s, a) {
        Some((op, n)) => (Outcome::Done(skip_ws(s, a + n)), op),
        None => (spec_kw_trailing(s, p, seq!["in", "IN"]), BinaryOperator::In),
    }
}

pub fn binary_comparison_operator(s: &Span, p: usize) -> (r: PResult<BinaryOperator>)
    requires
        s.wf(),
        p <= s.chars@.len(),
    ensures
        has_outcome(r, s.chars@, spec_binary_comparison_operator(s.chars@, p as int).0),
        advances(r, s.chars@, p as int),
        r matches Ok((_, op)) ==> op == spec_binary_comparison_operator(s.chars@, p as int).1,
        r is Err ==> r matches Err(ParseErr::Error(_)),
{
    proof {
        reveal_strlit("==");
        reveal_strlit("!=");
        reveal_strlit(">=");
        reveal_strlit(">");
        reveal_strlit("<=");
        reveal_strlit("<");
    }
    let a = zero_or_more_ws_or_comment(s, p);
    let (op, n): (BinaryOperator, usize) = if tag_exec(s, a, "==") {
        (BinaryOperator::Equals, 2)
    } else if tag_exec(s, a, "!=") {
        (BinaryOperator::NotEquals, 2)
    } else if tag_exec(s, a, ">=") {
        (BinaryOperator::GreaterThanEquals, 2)
    } else if tag_exec(s, a, ">") && !char_at_is(s, a + 1, '>') {
        (BinaryOperator::Greater, 1)
    } else if tag_exec(s, a, "<=") {
        (BinaryOperator::LesserThanEquals, 2)
    } else if tag_exec(s, a, "<") && !char_at_is(s, a + 1, '<') {
        (BinaryOperator::Lesser, 1)
    } else {
        let kws = ["in", "IN"];
        assert(kws@ == seq!["in", "IN"]);
        let (q, _) = kw_trailing(s, p, &kws)?;
        return Ok((q, BinaryOperator::In));
    };
    proof {
        lemma_skip_ws(s.chars@, a + n);
    }
    Ok((zero_or_more_ws_or_comment(s, a + n), op))
}

/// The keyword pairs of the unary comparisons, in the order they are tried,
/// with the operator and its negation.
pub open spec fn unary_keyword(i: int) -> (Seq<char>, Seq<char>, UnaryOperator, UnaryOperator) {
    if i == 0 {
        ("EMPTY"@, "empty"@, UnaryOperator::Empty, UnaryOperator::NotEmpty)
    } else if i == 1 {
        ("EXISTS"@, "exists"@, UnaryOperator::Exists, UnaryOperator::NotExists)
    } else if i == 2 {
        ("is_string"@, "IS_STRING"@, UnaryOperator::IsString, UnaryOperator::IsNotString)
    } else if i == 3 {
        ("is_list"@, "IS_LIST"@, UnaryOperator::IsList, UnaryOperator::IsNotList)
    } else if i == 4 {
        ("is_int"@, "IS_INT"@, UnaryOperator::IsInt, UnaryOperator::IsNotInt)
    } else if i == 5 {
        ("is_float"@, "IS_FLOAT"@, UnaryOperator::IsFloat, UnaryOperator::IsNotFloat)
    } else if i == 6 {
        ("is_bool"@, "IS_BOOL"@, UnaryOperator::IsBool, UnaryOperator::IsNotBool)
    } else {
        ("is_regex"@, "IS_REGEX"@, UnaryOperator::IsRegex, UnaryOperator::IsNotRegex)
    }
}

/// The first unary keyword pair with a form at `b`, from the `i`-th on:
/// its index and the length of the form found.
pub open spec fn first_unary_keyword(s: Seq<char>, b: int, i: int) -> Option<(int, int)>
    decreases 8 - i,
{
    if i < 0 || i >= 8 {
        None
    } else if tag_at(s, b, unary_keyword(i).0) {
        Some((i, unary_keyword(i).0.len() as int))
    } else if tag_at(s, b, unary_keyword(i).1) {
        Some((i, unary_keyword(i).1.len() as int))
    } else {
        first_unary_keyword(s, b, i + 1)
    }
}

/// `[not] KEYWORD` between white space, where a leading `not` (or `!`)
/// negates the check: `EMPTY`, `EXISTS`, `is_string`, `is_list`, `is_int`,
/// `is_float`, `is_bool`, `is_regex`, each in lower or upper case.
pub open spec fn spec_unary_comparison_operator(s: Seq<char>, p: int) -> (Outcome, UnaryOperator) {
    let a = skip_ws(s, p);
    let negated = spec_keyword_or_symbol(s, a, seq!["not", "NOT"], "!"@);
    let b = match negated {
        Outcome::Done(n) => n,
        _ => a,
    };
    match first_unary_keyword(s, b, 0) {
        Some((i, n)) => (
            Outcome::Done(skip_ws(s, b + n)),
            if negated is Done {
                unary_keyword(i).3
            } else {
                unary_keyword(i).2
            },
        ),
        None => (Outcome::Error(b), UnaryOperator::Exists),
    }
}

pub fn unary_comparison_operator(s: &Span, p: usize) -> (r: PResult<UnaryOperator>)
    requires
        s.wf(),
        p <= s.chars@.len(),
    ensures
        has_outcome(r, s.chars@, spec_unary_comparison_operator(s.chars@, p as int).0),
        advances(r, s.chars@, p as int),
        r matches Ok((_, op)) ==> op == spec_unary_comparison_operator(s.chars@, p as int).1,
        r is Err ==> r matches Err(ParseErr::Error(_)),
{
    let a = zero_or_more_ws_or_comment(s, p);
    let (b, negated) = match not(s, a) {
        Ok((n, _)) => (n, true),
        Err(_) => (a, false),
    };
    let mut i: usize = 0;
    while i < 8
        invariant
            s.wf(),
            p <= a <= b <= s.chars@.len(),
            a == skip_ws(s.chars@, p as int),
            negated == (spec_keyword_or_symbol(s.chars@, a as int, seq!["not", "NOT"], "!"@) is Done),
            b == match spec_keyword_or_symbol(s.chars@, a as int, seq!["not", "NOT"], "!"@) {
                Outcome::Done(n) => n,
                _ => a as int,
            },
            0 <= i <= 8,
            first_unary_keyword(s.chars@, b as int, 0) == first_unary_keyword(
                s.chars@,
                b as int,
                i as int,
            ),
        decreases 8 - i,
    {
        let (upper, lower, op, not_op) = unary_keyword_exec(i);
        let found = if tag_exec(s, b, upper) {
            Some(chars_of(upper).len())
        } else if tag_exec(s, b, lower) {
            Some(chars_of(lower).len())
        } else {
            None
        };
        if let Some(n) = found {
            proof {
                lemma_skip_ws(s.chars@, b + n);
            }
            let q = zero_or_more_ws_or_comment(s, b + n);
            return Ok((q, if negated { not_op } else { op }));
        }
        i = i + 1;
    }
    Err(error_at(s, b, "Tag"))
}

fn unary_keyword_exec(i: usize) -> (r: (&'static str, &'static str, UnaryOperator, UnaryOperator))
    requires
        i < 8,
    ensures
        r.0@ == unary_keyword(i as int).0,
        r.1@ == unary_keyword(i as int).1,
        r.2 == unary_keyword(i as int).2,
        r.3 == unary_keyword(i as int).3,
        r.0@.len() > 0,
        r.1@.len() > 0,
{
    proof {
        reveal_strlit("EMPTY");
        reveal_strlit("empty");
        reveal_strlit("EXISTS");
        reveal_strlit("exists");
        reveal_strlit("is_string");
        reveal_strlit("IS_STRING");
        reveal_strlit("is_list");
        reveal_strlit("IS_LIST");
        reveal_strlit("is_int");
        reveal_strlit("IS_INT");
        reveal_strlit("is_float");
        reveal_strlit("IS_FLOAT");
        reveal_strlit("is_bool");
        reveal_strlit("IS_BOOL");
        reveal_strlit("is_regex");
        reveal_strlit("IS_REGEX");
    }
    if i == 0 {
        ("EMPTY", "empty", UnaryOperator::Empty, UnaryOperator::NotEmpty)
    } else if i == 1 {
        ("EXISTS", "exists", UnaryOperator::Exists, UnaryOperator::NotExists)
    } else if i == 2 {
        ("is_string", "IS_STRING", UnaryOperator::IsString, UnaryOperator::IsNotString)
    } else if i == 3 {
        ("is_list", "IS_LIST", UnaryOperator::IsList, UnaryOperator::IsNotList)
    } else if i == 4 {
        ("is_int", "IS_INT", UnaryOperator::IsInt, UnaryOperator::IsNotInt)
    } else if i == 5 {
        ("is_float", "IS_FLOAT", UnaryOperator::IsFloat, UnaryOperator::IsNotFloat)
    } else if i == 6 {
        ("is_bool", "IS_BOOL", UnaryOperator::IsBool, UnaryOperator::IsNotBool)
    } else {
        ("is_regex", "IS_REGEX", UnaryOperator::IsRegex, UnaryOperator::IsNotRegex)
    }
}

} // verus!
