//! Equality of data values, with each other and with the literal
//! expressions of rules.
use vstd::prelude::*;
use crate::types::{RangeType, in_range, lower_included, upper_included};
use crate::exprs::Expr;
use crate::value::Value;
use crate::assoc::{key_index, keys_unique, lemma_key_index, find_key};
use crate::numeric::{
    decimal_from_text,
    decimal_from_i64,
    compare_decimals,
    readable_decimal,
    ordered_float,
    infinity_sign,
    nan_text,
    special_float,
    decimal_of_text,
    rat_order,
};
use crate::parser::values::signed_value;
use crate::equality::{float_text_eq, float_text_equal, opt_string_eq};
use crate::matching::{regex_match_result, regex_is_match};
use crate::text::str_equal;
use vstd::std_specs::cmp::PartialEqSpecImpl;

verus! {

// ---------------------------------------------------------------------
// Decimal texts against integers
// ---------------------------------------------------------------------

/// The order of the number a float text denotes and the integer `k`:
/// -1, 0 or 1; an infinity is above or below every integer (0 for text
/// that denotes no number).
pub open spec fn text_order_int(t: Seq<char>, k: int) -> int {
    if infinity_sign(t) != 0 {
        infinity_sign(t)
    } else {
        match decimal_of_text(t) {
            Some((n, d, e)) => rat_order(signed_value(n, d), e, k, 0),
            None => 0,
        }
    }
}

/// The order of two float texts: -1, 0 or 1; infinities are above or
/// below every decimal and equal to themselves (0 when one denotes no
/// number).
pub open spec fn text_order(t1: Seq<char>, t2: Seq<char>) -> int {
    if infinity_sign(t1) != 0 || infinity_sign(t2) != 0 {
        if infinity_sign(t1) == infinity_sign(t2) {
            0
        } else if infinity_sign(t1) > infinity_sign(t2) {
            1
        } else {
            -1
        }
    } else {
        text_order_decimals(t1, t2)
    }
}

/// The order of two decimal texts: -1, 0 or 1 (0 when one is unreadable).
pub open spec fn text_order_decimals(t1: Seq<char>, t2: Seq<char>) -> int {
    match (decimal_of_text(t1), decimal_of_text(t2)) {
        (Some((n1, d1, e1)), Some((n2, d2, e2))) => rat_order(
            signed_value(n1, d1),
            e1,
            signed_value(n2, d2),
            e2,
        ),
        _ => 0,
    }
}

/// `text_order_int` on an `i64`.
pub open spec fn text_vs_int_order(t: Seq<char>, k: i64) -> int {
    text_order_int(t, k as int)
}

/// The order of an integer and the number a decimal text denotes.
pub open spec fn int_vs_text_order(k: i64, t: Seq<char>) -> int {
    -text_order_int(t, k as int)
}

/// Compares the number a float text denotes with an integer; `None` when
/// the text denotes no number in the order (NaN, or no number at all).
pub fn text_vs_int(t: &String, k: i64) -> (r: Option<i8>)
    ensures
        r is Some <==> ordered_float(t@),
        r matches Some(c) ==> c as int == text_order_int(t@, k as int),
{
    let chars = crate::text::chars_of(t.as_str());
    let special = special_float(&chars);
    if special == 1 || special == -1 {
        return Some(special);
    }
    match decimal_from_text(&chars) {
        Some(d) => {
            let kd = decimal_from_i64(k);
            Some(compare_decimals(&d, &kd))
        },
        None => None,
    }
}

/// Compares two float texts; `None` when one denotes no number in the
/// order.
pub fn text_vs_text(t1: &String, t2: &String) -> (r: Option<i8>)
    ensures
        r is Some <==> ordered_float(t1@) && ordered_float(t2@),
        r matches Some(c) ==> c as int == text_order(t1@, t2@),
{
    let c1 = crate::text::chars_of(t1.as_str());
    let c2 = crate::text::chars_of(t2.as_str());
    let s1 = special_float(&c1);
    let s2 = special_float(&c2);
    if s1 == 1 || s1 == -1 || s2 == 1 || s2 == -1 {
        let k1: i8 = if s1 == 1 || s1 == -1 { s1 } else { 0 };
        let k2: i8 = if s2 == 1 || s2 == -1 { s2 } else { 0 };
        let known1 = k1 != 0 || decimal_from_text(&c1).is_some();
        let known2 = k2 != 0 || decimal_from_text(&c2).is_some();
        if !known1 || !known2 {
            return None;
        }
        return Some(if k1 == k2 {
            0
        } else if k1 > k2 {
            1
        } else {
            -1
        });
    }
    match (decimal_from_text(&c1), decimal_from_text(&c2)) {
        (Some(d1), Some(d2)) => Some(compare_decimals(&d1, &d2)),
        _ => None,
    }
}

/// Whether converting the number a float text denotes to an `i64`, by
/// dropping its fraction and saturating at the bounds, gives `v`.
pub open spec fn float_truncates_to(t: Seq<char>, v: i64) -> bool {
    ||| nan_text(t) && v == 0
    ||| ordered_float(t) && if v == i64::MAX {
        text_order_int(t, v as int) >= 0
    } else if v == i64::MIN {
        text_order_int(t, v as int) <= 0
    } else if v > 0 {
        text_order_int(t, v as int) >= 0 && text_order_int(t, v + 1) < 0
    } else if v < 0 {
        text_order_int(t, v - 1) > 0 && text_order_int(t, v as int) <= 0
    } else {
        text_order_int(t, -1) > 0 && text_order_int(t, 1) < 0
    }
}

pub fn float_truncates_to_exec(t: &String, v: i64) -> (r: bool)
    ensures
        r == float_truncates_to(t@, v),
{
    proof {
        if nan_text(t@) {
            crate::numeric::lemma_nan_unordered(t@);
        }
    }
    let at = match text_vs_int(t, v) {
        Some(c) => c,
        None => {
            let chars = crate::text::chars_of(t.as_str());
            return special_float(&chars) == 2 && v == 0;
        },
    };
    if v == i64::MAX {
        at >= 0
    } else if v == i64::MIN {
        at <= 0
    } else if v > 0 {
        match text_vs_int(t, v + 1) {
            Some(c) => at >= 0 && c < 0,
            None => false,
        }
    } else if v < 0 {
        match text_vs_int(t, v - 1) {
            Some(c) => c > 0 && at <= 0,
            None => false,
        }
    } else {
        match (text_vs_int(t, -1), text_vs_int(t, 1)) {
            (Some(c1), Some(c2)) => c1 > 0 && c2 < 0,
            _ => false,
        }
    }
}

/// Whether an integer equals the number a float text denotes.
pub open spec fn int_float_eq(i: i64, t: Seq<char>) -> bool {
    ordered_float(t) && text_order_int(t, i as int) == 0
}

/// Whether the number a float text denotes lies in a range of float texts.
pub open spec fn float_in_range(r: RangeType<String>, t: Seq<char>) -> bool {
    &&& ordered_float(t)
    &&& ordered_float(r.lower@)
    &&& ordered_float(r.upper@)
    &&& if lower_included(r.inclusive) {
        text_order(r.lower@, t) <= 0
    } else {
        text_order(r.lower@, t) < 0
    }
    &&& if upper_included(r.inclusive) {
        text_order(t, r.upper@) <= 0
    } else {
        text_order(t, r.upper@) < 0
    }
}

pub fn float_in_range_exec(r: &RangeType<String>, t: &String) -> (b: bool)
    ensures
        b == float_in_range(*r, t@),
{
    let lower = match text_vs_text(&r.lower, t) {
        Some(c) => c,
        None => return false,
    };
    let upper = match text_vs_text(t, &r.upper) {
        Some(c) => c,
        None => return false,
    };
    let lower_ok = if (r.inclusive & crate::types::LOWER_INCLUSIVE) > 0 {
        lower <= 0
    } else {
        lower < 0
    };
    let upper_ok = if (r.inclusive & crate::types::UPPER_INCLUSIVE) > 0 {
        upper <= 0
    } else {
        upper < 0
    };
    lower_ok && upper_ok
}

// ---------------------------------------------------------------------
// A value and a literal expression
// ---------------------------------------------------------------------

/// Whether a data value equals a literal: lists of the same length whose
/// every value equals some element of the literal, mappings with the same
/// number of keys whose every entry is found with an equal value, numbers by
/// value (a float equals an integer it truncates to, an integer equals a
/// float of the same value, an integer equals a range that holds it), a
/// string equals a regular expression that matches it.
pub open spec fn value_eq_expr(v: Value, e: Expr) -> bool
    decreases e, 0nat,
{
    match e {
        Expr::Array(a) => match v {
            Value::List(vs, _) => vs@.len() == a.elements@.len() && all_found_in(
                vs@,
                a.elements@,
            ),
            _ => false,
        },
        Expr::Mapping(m) => match v {
            Value::Mapping(es, _) => m.entries@.len() == es@.len() && entries_found_in(
                es@,
                m.entries@,
            ),
            _ => false,
        },
        Expr::Null(_) => v is Null,
        Expr::String(se) => match v {
            Value::String(s, _) => se.value@ == s@,
            _ => false,
        },
        Expr::Regex(re) => match v {
            Value::Regex(r, _) => r@ == re.value@,
            Value::String(s, _) => regex_match_result(re.value@, s@) == Some(true),
            _ => false,
        },
        Expr::Char(ce) => match v {
            Value::Char(c, _) => c == ce.value,
            _ => false,
        },
        Expr::Bool(be) => match v {
            Value::Bool(b, _) => b == be.value,
            _ => false,
        },
        Expr::Int(ie) => match v {
            Value::Int(i, _) => i == ie.value,
            Value::Float(f, _) => float_truncates_to(f@, ie.value),
            _ => false,
        },
        Expr::Float(fe) => match v {
            Value::Int(i, _) => int_float_eq(i, fe.value@),
            Value::Float(f, _) => float_text_eq(f@, fe.value@),
            _ => false,
        },
        Expr::RangeInt(r) => match v {
            Value::Int(i, _) => in_range(r.value, i),
            _ => false,
        },
        Expr::RangeFloat(r) => match v {
            Value::Float(f, _) => float_in_range(r.value, f@),
            _ => false,
        },
        _ => false,
    }
}

/// Every value equals some element.
pub open spec fn all_found_in(vs: Seq<Value>, es: Seq<Expr>) -> bool
    decreases es, vs.len() + 1,
{
    if vs.len() == 0 {
        true
    } else {
        any_equal(vs[0], es) && all_found_in(vs.subrange(1, vs.len() as int), es)
    }
}

/// Some element equals the value.
pub open spec fn any_equal(v: Value, es: Seq<Expr>) -> bool
    decreases es, 0nat,
{
    if es.len() == 0 {
        false
    } else {
        value_eq_expr(v, es[0]) || any_equal(v, es.subrange(1, es.len() as int))
    }
}

/// Every entry of `vs` has its key among the entries of `es`, with an equal
/// value.
pub open spec fn entries_found_in(vs: Seq<(String, Value)>, es: Seq<(String, Expr)>) -> bool
    decreases es, vs.len() + 1,
{
    if vs.len() == 0 {
        true
    } else {
        let i = key_index(es, vs[0].0@);
        &&& 0 <= i < es.len()
        &&& value_eq_expr(vs[0].1, es[i].1)
        &&& entries_found_in(vs.subrange(1, vs.len() as int), es)
    }
}

/// The exact position of the last entry with key `k`.
fn last_key_index(es: &Vec<(String, Expr)>, k: &String) -> (r: Option<usize>)
    ensures
        r matches Some(i) ==> i < es@.len() && key_index(es@, k@) == i,
        r is None ==> key_index(es@, k@) == -1,
{
    let mut i = es.len();
    proof {
        assert(es@.subrange(0, i as int) =~= es@);
    }
    while i > 0
        invariant
            i <= es@.len(),
            key_index(es@.subrange(0, i as int), k@) == key_index(es@, k@),
        decreases i,
    {
        proof {
            assert(es@.subrange(0, i as int).drop_last() =~= es@.subrange(0, i - 1));
        }
        if str_equal(es[i - 1].0.as_str(), k.as_str()) {
            return Some(i - 1);
        }
        i = i - 1;
    }
    None
}

pub fn value_equals_expr(v: &Value, e: &Expr) -> (r: bool)
    ensures
        r == value_eq_expr(*v, *e),
    decreases e, 0nat,
{
    match e {
        Expr::Array(a) => match v {
            Value::List(vs, _) => {
                if vs.len() != a.elements.len() {
                    return false;
                }
                all_found_in_exec(vs, &a.elements)
            },
            _ => false,
        },
        Expr::Mapping(m) => match v {
            Value::Mapping(es, _) => {
                if m.entries.len() != es.len() {
                    return false;
                }
                entries_found_in_exec(es, &m.entries)
            },
            _ => false,
        },
        Expr::Null(_) => match v {
            Value::Null(_) => true,
            _ => false,
        },
        Expr::String(se) => match v {
            Value::String(s, _) => str_equal(se.value.as_str(), s.as_str()),
            _ => false,
        },
        Expr::Regex(re) => match v {
            Value::Regex(r, _) => str_equal(r.as_str(), re.value.as_str()),
            Value::String(s, _) => match regex_is_match(re.value.as_str(), s.as_str()) {
                Some(b) => b,
                None => false,
            },
            _ => false,
        },
        Expr::Char(ce) => match v {
            Value::Char(c, _) => *c == ce.value,
            _ => false,
        },
        Expr::Bool(be) => match v {
            Value::Bool(b, _) => *b == be.value,
            _ => false,
        },
        Expr::Int(ie) => match v {
            Value::Int(i, _) => *i == ie.value,
            Value::Float(f, _) => float_truncates_to_exec(f, ie.value),
            _ => false,
        },
        Expr::Float(fe) => match v {
            Value::Int(i, _) => match text_vs_int(&fe.value, *i) {
                Some(c) => c == 0,
                None => false,
            },
            Value::Float(f, _) => float_text_equal(f, &fe.value),
            _ => false,
        },
        Expr::RangeInt(r) => match v {
            Value::Int(i, _) => crate::types::is_within(&r.value, i),
            _ => false,
        },
        Expr::RangeFloat(r) => match v {
            Value::Float(f, _) => float_in_range_exec(&r.value, f),
            _ => false,
        },
        _ => false,
    }
}

fn all_found_in_exec(vs: &Vec<Value>, es: &Vec<Expr>) -> (r: bool)
    ensures
        r == all_found_in(vs@, es@),
    decreases es@, vs@.len() + 1,
{
    let n = vs.len();
    let mut i: usize = 0;
    proof {
        assert(vs@.subrange(0, n as int) =~= vs@);
    }
    while i < n
        invariant
            n == vs@.len(),
            i <= n,
            all_found_in(vs@, es@) == all_found_in(vs@.subrange(i as int, n as int), es@),
        decreases n - i,
    {
        proof {
            let t = vs@.subrange(i as int, n as int);
            assert(t.subrange(1, t.len() as int) =~= vs@.subrange(i + 1, n as int));
            assert(t[0] == vs@[i as int]);
        }
        if !any_equal_exec(&vs[i], es) {
            return false;
        }
        i = i + 1;
    }
    true
}

fn any_equal_exec(v: &Value, es: &Vec<Expr>) -> (r: bool)
    ensures
        r == any_equal(*v, es@),
    decreases es@, 0nat,
{
    let n = es.len();
    let mut j: usize = 0;
    proof {
        assert(es@.subrange(0, n as int) =~= es@);
    }
    while j < n
        invariant
            n == es@.len(),
            j <= n,
            any_equal(*v, es@) == any_equal(*v, es@.subrange(j as int, n as int)),
        decreases n - j,
    {
        proof {
            let t = es@.subrange(j as int, n as int);
            assert(t.subrange(1, t.len() as int) =~= es@.subrange(j + 1, n as int));
            assert(t[0] == es@[j as int]);
            assert(decreases_to!(es@ => es@[j as int]));
        }
        if value_equals_expr(v, &es[j]) {
            return true;
        }
        j = j + 1;
    }
    false
}

fn entries_found_in_exec(vs: &Vec<(String, Value)>, es: &Vec<(String, Expr)>) -> (r: bool)
    ensures
        r == entries_found_in(vs@, es@),
    decreases es@, vs@.len() + 1,
{
    let n = vs.len();
    let mut i: usize = 0;
    proof {
        assert(vs@.subrange(0, n as int) =~= vs@);
    }
    while i < n
        invariant
            n == vs@.len(),
            i <= n,
            entries_found_in(vs@, es@) == entries_found_in(vs@.subrange(i as int, n as int), es@),
        decreases n - i,
    {
        proof {
            let t = vs@.subrange(i as int, n as int);
            assert(t.subrange(1, t.len() as int) =~= vs@.subrange(i + 1, n as int));
            assert(t[0] == vs@[i as int]);
        }
        match last_key_index(es, &vs[i].0) {
            None => return false,
            Some(j) => {
                proof {
                    assert(decreases_to!(es@ => es@[j as int]));
                    assert(decreases_to!(es@[j as int] => es@[j as int].1));
                }
                if !value_equals_expr(&vs[i].1, &es[j].1) {
                    return false;
                }
            },
        }
        i = i + 1;
    }
    true
}

impl PartialEq<Expr> for Value {
    fn eq(&self, other: &Expr) -> (r: bool) {
        value_equals_expr(self, other)
    }
}

impl PartialEqSpecImpl<Expr> for Value {
    open spec fn obeys_eq_spec() -> bool {
        true
    }

    open spec fn eq_spec(&self, other: &Expr) -> bool {
        value_eq_expr(*self, *other)
    }
}

// ---------------------------------------------------------------------
// Two values
// ---------------------------------------------------------------------

/// Whether two values are equal: same variant, equal contents and the same
/// location; floats by value, mappings with the same keys mapped to equal
/// values in any order.
pub open spec fn value_eq(a: Value, b: Value) -> bool
    decreases a, 0nat,
{
    match (a, b) {
        (Value::BadValue(s, l), Value::BadValue(t, m)) => s@ == t@ && l == m,
        (Value::Null(l), Value::Null(m)) => l == m,
        (Value::String(s, l), Value::String(t, m)) => s@ == t@ && l == m,
        (Value::Regex(s, l), Value::Regex(t, m)) => s@ == t@ && l == m,
        (Value::Bool(x, l), Value::Bool(y, m)) => x == y && l == m,
        (Value::Int(x, l), Value::Int(y, m)) => x == y && l == m,
        (Value::Float(x, l), Value::Float(y, m)) => float_text_eq(x@, y@) && l == m,
        (Value::RangeInt(x, l), Value::RangeInt(y, m)) => x == y && l == m,
        (Value::RangeFloat(x, l), Value::RangeFloat(y, m)) => {
            &&& float_text_eq(x.upper@, y.upper@)
            &&& float_text_eq(x.lower@, y.lower@)
            &&& x.inclusive == y.inclusive
            &&& l == m
        },
        (Value::Char(x, l), Value::Char(y, m)) => x == y && l == m,
        (Value::List(x, l), Value::List(y, m)) => values_eq(x@, y@) && l == m,
        (Value::Mapping(x, l), Value::Mapping(y, m)) => {
            &&& x@.len() == y@.len()
            &&& value_entries_found(x@, y@)
            &&& l == m
        },
        _ => false,
    }
}

pub open spec fn values_eq(x: Seq<Value>, y: Seq<Value>) -> bool
    decreases x, 0nat,
{
    if x.len() == 0 {
        y.len() == 0
    } else {
        &&& y.len() > 0
        &&& value_eq(x[0], y[0])
        &&& values_eq(x.subrange(1, x.len() as int), y.subrange(1, y.len() as int))
    }
}

/// Every entry of `x` has its key in `y`, with an equal value.
pub open spec fn value_entries_found(x: Seq<(String, Value)>, y: Seq<(String, Value)>) -> bool
    decreases x, 0nat,
{
    if x.len() == 0 {
        true
    } else {
        let i = key_index(y, x[0].0@);
        &&& 0 <= i < y.len()
        &&& value_eq(x[0].1, y[i].1)
        &&& value_entries_found(x.subrange(1, x.len() as int), y)
    }
}

proof fn lemma_values_eq_len(x: Seq<Value>, y: Seq<Value>)
    requires
        values_eq(x, y),
    ensures
        x.len() == y.len(),
    decreases x.len(),
{
    if x.len() > 0 {
        lemma_values_eq_len(x.subrange(1, x.len() as int), y.subrange(1, y.len() as int));
    }
}

fn last_value_key_index(es: &Vec<(String, Value)>, k: &String) -> (r: Option<usize>)
    ensures
        r matches Some(i) ==> i < es@.len() && key_index(es@, k@) == i,
        r is None ==> key_index(es@, k@) == -1,
{
    let mut i = es.len();
    proof {
        assert(es@.subrange(0, i as int) =~= es@);
    }
    while i > 0
        invariant
            i <= es@.len(),
            key_index(es@.subrange(0, i as int), k@) == key_index(es@, k@),
        decreases i,
    {
        proof {
            assert(es@.subrange(0, i as int).drop_last() =~= es@.subrange(0, i - 1));
        }
        if str_equal(es[i - 1].0.as_str(), k.as_str()) {
            return Some(i - 1);
        }
        i = i - 1;
    }
    None
}

pub fn value_equals(a: &Value, b: &Value) -> (r: bool)
    ensures
        r == value_eq(*a, *b),
    decreases a, 0nat,
{
    match (a, b) {
        (Value::BadValue(s, l), Value::BadValue(t, m)) => str_equal(s.as_str(), t.as_str()) && *l
            == *m,
        (Value::Null(l), Value::Null(m)) => *l == *m,
        (Value::String(s, l), Value::String(t, m)) => str_equal(s.as_str(), t.as_str()) && *l
            == *m,
        (Value::Regex(s, l), Value::Regex(t, m)) => str_equal(s.as_str(), t.as_str()) && *l == *m,
        (Value::Bool(x, l), Value::Bool(y, m)) => *x == *y && *l == *m,
        (Value::Int(x, l), Value::Int(y, m)) => *x == *y && *l == *m,
        (Value::Float(x, l), Value::Float(y, m)) => float_text_equal(x, y) && *l == *m,
        (Value::RangeInt(x, l), Value::RangeInt(y, m)) => x.upper == y.upper && x.lower == y.lower
            && x.inclusive == y.inclusive && *l == *m,
        (Value::RangeFloat(x, l), Value::RangeFloat(y, m)) => float_text_equal(&x.upper, &y.upper)
            && float_text_equal(&x.lower, &y.lower) && x.inclusive == y.inclusive && *l == *m,
        (Value::Char(x, l), Value::Char(y, m)) => *x == *y && *l == *m,
        (Value::List(x, l), Value::List(y, m)) => values_equal(x, y) && *l == *m,
        (Value::Mapping(x, l), Value::Mapping(y, m)) => x.len() == y.len()
            && value_entries_found_exec(x, y) && *l == *m,
        _ => false,
    }
}

fn values_equal(x: &Vec<Value>, y: &Vec<Value>) -> (r: bool)
    ensures
        r == values_eq(x@, y@),
    decreases x@, 0nat,
{
    if x.len() != y.len() {
        proof {
            if values_eq(x@, y@) {
                lemma_values_eq_len(x@, y@);
            }
        }
        return false;
    }
    let n = x.len();
    let mut i: usize = 0;
    proof {
        assert(x@.subrange(0, n as int) =~= x@);
        assert(y@.subrange(0, n as int) =~= y@);
    }
    while i < n
        invariant
            n == x@.len() == y@.len(),
            i <= n,
            values_eq(x@, y@) == values_eq(x@.subrange(i as int, n as int), y@.subrange(i as int, n as int)),
        decreases n - i,
    {
        proof {
            let xs = x@.subrange(i as int, n as int);
            let ys = y@.subrange(i as int, n as int);
            assert(xs.subrange(1, xs.len() as int) =~= x@.subrange(i + 1, n as int));
            assert(ys.subrange(1, ys.len() as int) =~= y@.subrange(i + 1, n as int));
            assert(xs[0] == x@[i as int]);
            assert(ys[0] == y@[i as int]);
        }
        if !value_equals(&x[i], &y[i]) {
            return false;
        }
        i = i + 1;
    }
    true
}

fn value_entries_found_exec(x: &Vec<(String, Value)>, y: &Vec<(String, Value)>) -> (r: bool)
    ensures
        r == value_entries_found(x@, y@),
    decreases x@, 0nat,
{
    let n = x.len();
    let mut i: usize = 0;
    proof {
        assert(x@.subrange(0, n as int) =~= x@);
    }
    while i < n
        invariant
            n == x@.len(),
            i <= n,
            value_entries_found(x@, y@) == value_entries_found(x@.subrange(i as int, n as int), y@),
        decreases n - i,
    {
        proof {
            let t = x@.subrange(i as int, n as int);
            assert(t.subrange(1, t.len() as int) =~= x@.subrange(i + 1, n as int));
            assert(t[0] == x@[i as int]);
            assert(decreases_to!(x@ => x@[i as int]));
            assert(decreases_to!(x@[i as int] => x@[i as int].1));
        }
        match last_value_key_index(y, &x[i].0) {
            None => return false,
            Some(j) => {
                if !value_equals(&x[i].1, &y[j].1) {
                    return false;
                }
            },
        }
        i = i + 1;
    }
    true
}

impl PartialEq for Value {
    fn eq(&self, other: &Self) -> (r: bool) {
        value_equals(self, other)
    }
}

impl PartialEqSpecImpl for Value {
    open spec fn obeys_eq_spec() -> bool {
        true
    }

    open spec fn eq_spec(&self, other: &Self) -> bool {
        value_eq(*self, *other)
    }
}

} // verus!
