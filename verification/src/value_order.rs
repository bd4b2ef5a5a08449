//! How data values are ordered against literal expressions and against
//! each other.
use vstd::prelude::*;
use core::cmp::Ordering;
use crate::exprs::Expr;
use crate::value::Value;
use crate::numeric::ordered_float;
use crate::text::{lex_order, str_lex_order};
use crate::compare::{
    text_vs_int,
    text_vs_text,
    text_vs_int_order,
    int_vs_text_order,
    text_order,
    value_eq,
};
use crate::equality::float_text_eq;
use vstd::std_specs::cmp::PartialOrdSpecImpl;

verus! {

/// The ordering that a result of -1, 0 or 1 stands for.
pub open spec fn ord_of(c: int) -> Ordering {
    if c < 0 {
        Ordering::Less
    } else if c == 0 {
        Ordering::Equal
    } else {
        Ordering::Greater
    }
}

pub fn ordering_of(c: i8) -> (r: Ordering)
    ensures
        r == (if c < 0 {
            Ordering::Less
        } else if c == 0 {
            Ordering::Equal
        } else {
            Ordering::Greater
        }),
{
    if c < 0 {
        Ordering::Less
    } else if c == 0 {
        Ordering::Equal
    } else {
        Ordering::Greater
    }
}

pub open spec fn int_ord(a: i64, b: i64) -> Ordering {
    if a < b {
        Ordering::Less
    } else if a == b {
        Ordering::Equal
    } else {
        Ordering::Greater
    }
}

pub open spec fn bool_ord(a: bool, b: bool) -> Ordering {
    if a == b {
        Ordering::Equal
    } else if !a {
        Ordering::Less
    } else {
        Ordering::Greater
    }
}

pub open spec fn char_ord(a: char, b: char) -> Ordering {
    if a < b {
        Ordering::Less
    } else if a == b {
        Ordering::Equal
    } else {
        Ordering::Greater
    }
}

/// How a data value is ordered against a literal: scalars of the same kind
/// by their natural order, integers and floats by value; anything else is
/// unordered.
pub open spec fn value_order_expr(v: Value, e: Expr) -> Option<Ordering> {
    match e {
        Expr::Null(_) => match v {
            Value::Null(_) => Some(Ordering::Equal),
            _ => None,
        },
        Expr::String(se) => match v {
            Value::String(s, _) => Some(ord_of(lex_order(s@, se.value@))),
            _ => None,
        },
        Expr::Regex(re) => match v {
            Value::Regex(r, _) => Some(ord_of(lex_order(r@, re.value@))),
            _ => None,
        },
        Expr::Char(ce) => match v {
            Value::Char(c, _) => Some(char_ord(c, ce.value)),
            _ => None,
        },
        Expr::Bool(be) => match v {
            Value::Bool(b, _) => Some(bool_ord(b, be.value)),
            _ => None,
        },
        Expr::Int(ie) => match v {
            Value::Int(i, _) => Some(int_ord(i, ie.value)),
            Value::Float(f, _) => if ordered_float(f@) {
                Some(ord_of(text_vs_int_order(f@, ie.value)))
            } else {
                None
            },
            _ => None,
        },
        Expr::Float(fe) => match v {
            Value::Int(i, _) => if ordered_float(fe.value@) {
                Some(ord_of(int_vs_text_order(i, fe.value@)))
            } else {
                None
            },
            Value::Float(f, _) => if ordered_float(f@) && ordered_float(fe.value@) {
                Some(ord_of(text_order(f@, fe.value@)))
            } else {
                None
            },
            _ => None,
        },
        _ => None,
    }
}

pub fn value_order_with_expr(v: &Value, e: &Expr) -> (r: Option<Ordering>)
    ensures
        r == value_order_expr(*v, *e),
{
    match e {
        Expr::Null(_) => match v {
            Value::Null(_) => Some(Ordering::Equal),
            _ => None,
        },
        Expr::String(se) => match v {
            Value::String(s, _) => Some(ordering_of(str_lex_order(s.as_str(), se.value.as_str()))),
            _ => None,
        },
        Expr::Regex(re) => match v {
            Value::Regex(r, _) => Some(ordering_of(str_lex_order(r.as_str(), re.value.as_str()))),
            _ => None,
        },
        Expr::Char(ce) => match v {
            Value::Char(c, _) => Some(
                if *c < ce.value {
                    Ordering::Less
                } else if *c == ce.value {
                    Ordering::Equal
                } else {
                    Ordering::Greater
                },
            ),
            _ => None,
        },
        Expr::Bool(be) => match v {
            Value::Bool(b, _) => Some(
                if *b == be.value {
                    Ordering::Equal
                } else if !*b {
                    Ordering::Less
                } else {
                    Ordering::Greater
                },
            ),
            _ => None,
        },
        Expr::Int(ie) => match v {
            Value::Int(i, _) => Some(
                if *i < ie.value {
                    Ordering::Less
                } else if *i == ie.value {
                    Ordering::Equal
                } else {
                    Ordering::Greater
                },
            ),
            Value::Float(f, _) => match text_vs_int(f, ie.value) {
                Some(c) => Some(ordering_of(c)),
                None => None,
            },
            _ => None,
        },
        Expr::Float(fe) => match v {
            Value::Int(i, _) => match text_vs_int(&fe.value, *i) {
                Some(c) => Some(
                    if c > 0 {
                        Ordering::Less
                    } else if c == 0 {
                        Ordering::Equal
                    } else {
                        Ordering::Greater
                    },
                ),
                None => None,
            },
            Value::Float(f, _) => match text_vs_text(f, &fe.value) {
                Some(c) => Some(ordering_of(c)),
                None => None,
            },
            _ => None,
        },
        _ => None,
    }
}

/// The four order relations.
pub enum Relation {
    Lt,
    Le,
    Gt,
    Ge,
}

pub open spec fn relation_holds(o: Option<Ordering>, rel: Relation) -> bool {
    match rel {
        Relation::Lt => o == Some(Ordering::Less),
        Relation::Le => o == Some(Ordering::Less) || o == Some(Ordering::Equal),
        Relation::Gt => o == Some(Ordering::Greater),
        Relation::Ge => o == Some(Ordering::Greater) || o == Some(Ordering::Equal),
    }
}

fn relation_holds_exec(o: Option<Ordering>, rel: &Relation) -> (r: bool)
    ensures
        r == relation_holds(o, *rel),
{
    match rel {
        Relation::Lt => match o {
            Some(Ordering::Less) => true,
            _ => false,
        },
        Relation::Le => match o {
            Some(Ordering::Less) => true,
            Some(Ordering::Equal) => true,
            _ => false,
        },
        Relation::Gt => match o {
            Some(Ordering::Greater) => true,
            _ => false,
        },
        Relation::Ge => match o {
            Some(Ordering::Greater) => true,
            Some(Ordering::Equal) => true,
            _ => false,
        },
    }
}

/// Whether a value stands in the relation to a literal. A list stands in it
/// when it has elements and each of them does.
pub open spec fn value_rel_expr(v: Value, e: Expr, rel: Relation) -> bool
    decreases v,
{
    match v {
        Value::List(vs, _) => vs@.len() > 0 && all_rel_expr(vs@, e, rel),
        _ => relation_holds(value_order_expr(v, e), rel),
    }
}

pub open spec fn all_rel_expr(vs: Seq<Value>, e: Expr, rel: Relation) -> bool
    decreases vs,
{
    if vs.len() == 0 {
        true
    } else {
        value_rel_expr(vs[0], e, rel) && all_rel_expr(vs.subrange(1, vs.len() as int), e, rel)
    }
}

pub proof fn lemma_all_rel_expr(vs: Seq<Value>, e: Expr, rel: Relation)
    ensures
        all_rel_expr(vs, e, rel) <==> forall|j: int|
            0 <= j < vs.len() ==> value_rel_expr(#[trigger] vs[j], e, rel),
    decreases vs.len(),
{
    if vs.len() > 0 {
        let t = vs.subrange(1, vs.len() as int);
        lemma_all_rel_expr(t, e, rel);
        assert forall|j: int| 0 <= j < t.len() implies t[j] == vs[j + 1] by {}
        if forall|j: int| 0 <= j < vs.len() ==> value_rel_expr(#[trigger] vs[j], e, rel) {
            assert forall|j: int| 0 <= j < t.len() implies value_rel_expr(#[trigger] t[j], e, rel) by {
                assert(t[j] == vs[j + 1]);
            }
        }
        if all_rel_expr(vs, e, rel) {
            assert forall|j: int| 0 <= j < vs.len() implies value_rel_expr(#[trigger] vs[j], e, rel) by {
                if j > 0 {
                    assert(vs[j] == t[j - 1]);
                }
            }
        }
    }
}

pub fn value_rel_with_expr(v: &Value, e: &Expr, rel: &Relation) -> (r: bool)
    ensures
        r == value_rel_expr(*v, *e, *rel),
    decreases v,
{
    match v {
        Value::List(vs, _) => {
            if vs.len() == 0 {
                return false;
            }
            let n = vs.len();
            let mut i: usize = 0;
            proof {
                lemma_all_rel_expr(vs@, *e, *rel);
                assert(decreases_to!(*v => v->List_0));
                assert(decreases_to!(v->List_0 => vs@));
            }
            while i < n
                invariant
                    n == vs@.len(),
                    i <= n,
                    decreases_to!(*v => vs@),
                    value_rel_expr(*v, *e, *rel) == (vs@.len() > 0 && all_rel_expr(vs@, *e, *rel)),
                    forall|j: int| 0 <= j < i ==> value_rel_expr(#[trigger] vs@[j], *e, *rel),
                    all_rel_expr(vs@, *e, *rel) <==> forall|j: int|
                        0 <= j < vs@.len() ==> value_rel_expr(#[trigger] vs@[j], *e, *rel),
                decreases n - i,
            {
                proof {
                    crate::value::lemma_elem_decreases(vs@, i);
                }
                if !value_rel_with_expr(&vs[i], e, rel) {
                    return false;
                }
                i = i + 1;
            }
            true
        },
        _ => relation_holds_exec(value_order_with_expr(v, e), rel),
    }
}

impl PartialOrd<Expr> for Value {
    fn partial_cmp(&self, other: &Expr) -> (r: Option<Ordering>)
        ensures
            r == value_order_expr(*self, *other),
    {
        value_order_with_expr(self, other)
    }

    fn lt(&self, other: &Expr) -> (r: bool)
        ensures
            r == value_rel_expr(*self, *other, Relation::Lt),
    {
        value_rel_with_expr(self, other, &Relation::Lt)
    }

    fn le(&self, other: &Expr) -> (r: bool)
        ensures
            r == value_rel_expr(*self, *other, Relation::Le),
    {
        value_rel_with_expr(self, other, &Relation::Le)
    }

    fn gt(&self, other: &Expr) -> (r: bool)
        ensures
            r == value_rel_expr(*self, *other, Relation::Gt),
    {
        value_rel_with_expr(self, other, &Relation::Gt)
    }

    fn ge(&self, other: &Expr) -> (r: bool)
        ensures
            r == value_rel_expr(*self, *other, Relation::Ge),
    {
        value_rel_with_expr(self, other, &Relation::Ge)
    }
}

impl PartialOrdSpecImpl<Expr> for Value {
    /// Lists are ordered element by element, which no single ordering of
    /// the whole list expresses.
    open spec fn obeys_partial_cmp_spec() -> bool {
        false
    }

    open spec fn partial_cmp_spec(&self, other: &Expr) -> Option<Ordering> {
        value_order_expr(*self, *other)
    }
}

// ---------------------------------------------------------------------
// Two values
// ---------------------------------------------------------------------

/// How two values are ordered: scalars of the same kind by their natural
/// order, `null` equal to `null`, ranges equal when they are equal;
/// anything else is unordered.
pub open spec fn value_order(a: Value, b: Value) -> Option<Ordering> {
    match (a, b) {
        (Value::Null(_), Value::Null(_)) => Some(Ordering::Equal),
        (Value::String(x, _), Value::String(y, _)) => Some(ord_of(lex_order(x@, y@))),
        (Value::Regex(x, _), Value::Regex(y, _)) => Some(ord_of(lex_order(x@, y@))),
        (Value::Char(x, _), Value::Char(y, _)) => Some(char_ord(x, y)),
        (Value::Bool(x, _), Value::Bool(y, _)) => Some(bool_ord(x, y)),
        (Value::Int(x, _), Value::Int(y, _)) => Some(int_ord(x, y)),
        (Value::Float(x, _), Value::Float(y, _)) => if ordered_float(x@) && ordered_float(y@) {
            Some(ord_of(text_order(x@, y@)))
        } else {
            None
        },
        (Value::RangeInt(x, _), Value::RangeInt(y, _)) => if x == y {
            Some(Ordering::Equal)
        } else {
            None
        },
        (Value::RangeFloat(x, _), Value::RangeFloat(y, _)) => if float_text_eq(x.lower@, y.lower@)
            && float_text_eq(x.upper@, y.upper@) && x.inclusive == y.inclusive {
            Some(Ordering::Equal)
        } else {
            None
        },
        _ => None,
    }
}

pub fn value_order_with(a: &Value, b: &Value) -> (r: Option<Ordering>)
    ensures
        r == value_order(*a, *b),
{
    match (a, b) {
        (Value::Null(_), Value::Null(_)) => Some(Ordering::Equal),
        (Value::String(x, _), Value::String(y, _)) => Some(ordering_of(str_lex_order(x.as_str(), y.as_str()))),
        (Value::Regex(x, _), Value::Regex(y, _)) => Some(ordering_of(str_lex_order(x.as_str(), y.as_str()))),
        (Value::Char(x, _), Value::Char(y, _)) => Some(
            if *x < *y {
                Ordering::Less
            } else if *x == *y {
                Ordering::Equal
            } else {
                Ordering::Greater
            },
        ),
        (Value::Bool(x, _), Value::Bool(y, _)) => Some(
            if *x == *y {
                Ordering::Equal
            } else if !*x {
                Ordering::Less
            } else {
                Ordering::Greater
            },
        ),
        (Value::Int(x, _), Value::Int(y, _)) => Some(
            if *x < *y {
                Ordering::Less
            } else if *x == *y {
                Ordering::Equal
            } else {
                Ordering::Greater
            },
        ),
        (Value::Float(x, _), Value::Float(y, _)) => match text_vs_text(x, y) {
            Some(c) => Some(ordering_of(c)),
            None => None,
        },
        (Value::RangeInt(x, _), Value::RangeInt(y, _)) => if x.lower == y.lower && x.upper == y.upper
            && x.inclusive == y.inclusive {
            Some(Ordering::Equal)
        } else {
            None
        },
        (Value::RangeFloat(x, _), Value::RangeFloat(y, _)) => if crate::equality::float_text_equal(&x.lower, &y.lower)
            && crate::equality::float_text_equal(&x.upper, &y.upper) && x.inclusive == y.inclusive {
            Some(Ordering::Equal)
        } else {
            None
        },
        _ => None,
    }
}

impl PartialOrd for Value {
    fn partial_cmp(&self, other: &Self) -> (r: Option<Ordering>)
        ensures
            r == value_order(*self, *other),
    {
        value_order_with(self, other)
    }
}

impl PartialOrdSpecImpl for Value {
    open spec fn obeys_partial_cmp_spec() -> bool {
        true
    }

    open spec fn partial_cmp_spec(&self, other: &Self) -> Option<Ordering> {
        value_order(*self, *other)
    }
}

// ---------------------------------------------------------------------
// Two literals
// ---------------------------------------------------------------------

/// How two scalar literals are ordered: strings, regular expressions,
/// characters, booleans and integers of the same kind by their natural
/// order, integers and floats by value, `null` equal to `null`; anything
/// else is unordered.
pub open spec fn literal_order(l: Expr, r: Expr) -> Option<Ordering> {
    match (l, r) {
        (Expr::Null(_), Expr::Null(_)) => Some(Ordering::Equal),
        (Expr::String(a), Expr::String(b)) => Some(ord_of(lex_order(a.value@, b.value@))),
        (Expr::Regex(a), Expr::Regex(b)) => Some(ord_of(lex_order(a.value@, b.value@))),
        (Expr::Char(a), Expr::Char(b)) => Some(char_ord(a.value, b.value)),
        (Expr::Bool(a), Expr::Bool(b)) => Some(bool_ord(a.value, b.value)),
        (Expr::Int(a), Expr::Int(b)) => Some(int_ord(a.value, b.value)),
        (Expr::Int(a), Expr::Float(b)) => if ordered_float(b.value@) {
            Some(ord_of(int_vs_text_order(a.value, b.value@)))
        } else {
            None
        },
        (Expr::Float(a), Expr::Int(b)) => if ordered_float(a.value@) {
            Some(ord_of(text_vs_int_order(a.value@, b.value)))
        } else {
            None
        },
        (Expr::Float(a), Expr::Float(b)) => if ordered_float(a.value@) && ordered_float(b.value@) {
            Some(ord_of(text_order(a.value@, b.value@)))
        } else {
            None
        },
        _ => None,
    }
}

pub fn literal_order_with(l: &Expr, r: &Expr) -> (o: Option<Ordering>)
    ensures
        o == literal_order(*l, *r),
{
    match (l, r) {
        (Expr::Null(_), Expr::Null(_)) => Some(Ordering::Equal),
        (Expr::String(a), Expr::String(b)) => Some(ordering_of(str_lex_order(a.value.as_str(), b.value.as_str()))),
        (Expr::Regex(a), Expr::Regex(b)) => Some(ordering_of(str_lex_order(a.value.as_str(), b.value.as_str()))),
        (Expr::Char(a), Expr::Char(b)) => Some(
            if a.value < b.value {
                Ordering::Less
            } else if a.value == b.value {
                Ordering::Equal
            } else {
                Ordering::Greater
            },
        ),
        (Expr::Bool(a), Expr::Bool(b)) => Some(
            if a.value == b.value {
                Ordering::Equal
            } else if !a.value {
                Ordering::Less
            } else {
                Ordering::Greater
            },
        ),
        (Expr::Int(a), Expr::Int(b)) => Some(
            if a.value < b.value {
                Ordering::Less
            } else if a.value == b.value {
                Ordering::Equal
            } else {
                Ordering::Greater
            },
        ),
        (Expr::Int(a), Expr::Float(b)) => match text_vs_int(&b.value, a.value) {
            Some(c) => Some(
                if c > 0 {
                    Ordering::Less
                } else if c == 0 {
                    Ordering::Equal
                } else {
                    Ordering::Greater
                },
            ),
            None => None,
        },
        (Expr::Float(a), Expr::Int(b)) => match text_vs_int(&a.value, b.value) {
            Some(c) => Some(ordering_of(c)),
            None => None,
        },
        (Expr::Float(a), Expr::Float(b)) => match text_vs_text(&a.value, &b.value) {
            Some(c) => Some(ordering_of(c)),
            None => None,
        },
        _ => None,
    }
}

/// Whether two literals stand in the relation.
pub open spec fn literal_rel(l: Expr, r: Expr, rel: Relation) -> bool {
    relation_holds(literal_order(l, r), rel)
}

pub fn literal_rel_with(l: &Expr, r: &Expr, rel: &Relation) -> (b: bool)
    ensures
        b == literal_rel(*l, *r, *rel),
{
    relation_holds_exec(literal_order_with(l, r), rel)
}

/// Whether two values stand in the relation.
pub open spec fn value_rel(l: Value, r: Value, rel: Relation) -> bool {
    relation_holds(value_order(l, r), rel)
}

pub fn value_rel_with(l: &Value, r: &Value, rel: &Relation) -> (b: bool)
    ensures
        b == value_rel(*l, *r, *rel),
{
    relation_holds_exec(value_order_with(l, r), rel)
}

} // verus!
