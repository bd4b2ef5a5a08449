//! Equality of expressions: two expressions are equal when they have the
//! same variant and the same content; locations do not count, key/value
//! literals are equal when they map the same keys to equal values in any
//! order, and float literals are equal when they denote the same number.
use vstd::prelude::*;
use crate::exprs::{Expr, BlockExpr, LetExpr, RuleExpr, IntExpr};
use crate::numeric::{decimal_from_text, compare_decimals, readable_decimal, decimal_of_text, rat_order, infinity_sign, special_float};
use crate::parser::values::signed_value;
use crate::text::{chars_of, str_equal, chars_equal};
use vstd::std_specs::cmp::PartialEqSpecImpl;

verus! {

/// Two float texts denote the same number: equal decimals, or the same
/// infinity. NaN, and text that denotes no number, equals nothing.
pub open spec fn float_text_eq(t1: Seq<char>, t2: Seq<char>) -> bool {
    if infinity_sign(t1) != 0 || infinity_sign(t2) != 0 {
        infinity_sign(t1) == infinity_sign(t2)
    } else if readable_decimal(t1) && readable_decimal(t2) {
        match (decimal_of_text(t1), decimal_of_text(t2)) {
            (Some((n1, d1, e1)), Some((n2, d2, e2))) => rat_order(
                signed_value(n1, d1),
                e1,
                signed_value(n2, d2),
                e2,
            ) == 0,
            _ => false,
        }
    } else {
        false
    }
}

pub open spec fn opt_string_eq(a: Option<String>, b: Option<String>) -> bool {
    match (a, b) {
        (None, None) => true,
        (Some(x), Some(y)) => x@ == y@,
        _ => false,
    }
}

/// The value under key `k`, the first entry with that key.
pub open spec fn lookup(entries: Seq<(String, Expr)>, k: Seq<char>) -> Option<Expr>
    decreases entries.len(),
{
    if entries.len() == 0 {
        None
    } else if entries[0].0@ == k {
        Some(entries[0].1)
    } else {
        lookup(entries.drop_first(), k)
    }
}

pub open spec fn expr_eq(a: Expr, b: Expr) -> bool
    decreases a,
{
    match (a, b) {
        (Expr::File(mine), Expr::File(theirs)) => {
            &&& mine.name@ == theirs.name@
            &&& rules_eq(mine.rules@, theirs.rules@)
            &&& lets_eq(mine.assignments@, theirs.assignments@)
        },
        (Expr::Rule(mine), Expr::Rule(theirs)) => rule_eq(*mine, *theirs),
        (Expr::RuleClause(mine), Expr::RuleClause(theirs)) => {
            &&& mine.name@ == theirs.name@
            &&& opt_exprs_eq(mine.parameters, theirs.parameters)
            &&& opt_string_eq(mine.message, theirs.message)
        },
        (Expr::Let(mine), Expr::Let(theirs)) => let_eq(*mine, *theirs),
        (Expr::When(mine), Expr::When(theirs)) => {
            &&& expr_eq(mine.when, theirs.when)
            &&& block_eq(mine.block, theirs.block)
        },
        (Expr::Select(mine), Expr::Select(theirs)) => exprs_eq(mine.parts@, theirs.parts@),
        (Expr::BinaryOperation(mine), Expr::BinaryOperation(theirs)) => {
            &&& mine.operator == theirs.operator
            &&& expr_eq(mine.lhs, theirs.lhs)
            &&& expr_eq(mine.rhs, theirs.rhs)
            &&& opt_string_eq(mine.message, theirs.message)
        },
        (Expr::UnaryOperation(mine), Expr::UnaryOperation(theirs)) => {
            &&& mine.operator == theirs.operator
            &&& opt_string_eq(mine.message, theirs.message)
            &&& expr_eq(mine.expr, theirs.expr)
        },
        (Expr::Array(mine), Expr::Array(theirs)) => exprs_eq(mine.elements@, theirs.elements@),
        (Expr::Mapping(mine), Expr::Mapping(theirs)) => {
            &&& mine.entries@.len() == theirs.entries@.len()
            &&& entries_found(mine.entries@, theirs.entries@)
        },
        (Expr::Null(_), Expr::Null(_)) => true,
        (Expr::String(mine), Expr::String(theirs)) => mine.value@ == theirs.value@,
        (Expr::Regex(mine), Expr::Regex(theirs)) => mine.value@ == theirs.value@,
        (Expr::Char(mine), Expr::Char(theirs)) => mine.value == theirs.value,
        (Expr::Bool(mine), Expr::Bool(theirs)) => mine.value == theirs.value,
        (Expr::Int(mine), Expr::Int(theirs)) => mine.value == theirs.value,
        (Expr::Float(mine), Expr::Float(theirs)) => float_text_eq(mine.value@, theirs.value@),
        (Expr::RangeInt(mine), Expr::RangeInt(theirs)) => mine.value == theirs.value,
        (Expr::RangeFloat(mine), Expr::RangeFloat(theirs)) => {
            &&& float_text_eq(mine.value.upper@, theirs.value.upper@)
            &&& float_text_eq(mine.value.lower@, theirs.value.lower@)
            &&& mine.value.inclusive == theirs.value.inclusive
        },
        (Expr::Filter(mine), Expr::Filter(theirs)) => block_eq(*mine, *theirs),
        (Expr::Variable(mine), Expr::Variable(theirs)) => mine.value@ == theirs.value@,
        (Expr::VariableReference(mine), Expr::VariableReference(theirs)) => mine.value@
            == theirs.value@,
        (Expr::Block(mine), Expr::Block(theirs)) => {
            &&& exprs_eq(mine.select.parts@, theirs.select.parts@)
            &&& opt_string_eq(mine.message, theirs.message)
            &&& block_eq(mine.block, theirs.block)
        },
        _ => false,
    }
}

pub open spec fn exprs_eq(x: Seq<Expr>, y: Seq<Expr>) -> bool
    decreases x,
{
    if x.len() == 0 {
        y.len() == 0
    } else {
        &&& y.len() > 0
        &&& expr_eq(x[0], y[0])
        &&& exprs_eq(x.subrange(1, x.len() as int), y.subrange(1, y.len() as int))
    }
}

pub open spec fn opt_expr_eq(a: Option<Expr>, b: Option<Expr>) -> bool
    decreases a,
{
    match (a, b) {
        (None, None) => true,
        (Some(x), Some(y)) => expr_eq(x, y),
        _ => false,
    }
}

pub open spec fn opt_exprs_eq(a: Option<Vec<Expr>>, b: Option<Vec<Expr>>) -> bool
    decreases a,
{
    match (a, b) {
        (None, None) => true,
        (Some(x), Some(y)) => exprs_eq(x@, y@),
        _ => false,
    }
}

/// Every entry of `x` has its key in `y`, with an equal value.
pub open spec fn entries_found(x: Seq<(String, Expr)>, y: Seq<(String, Expr)>) -> bool
    decreases x,
{
    if x.len() == 0 {
        true
    } else {
        &&& match lookup(y, x[0].0@) {
            Some(v) => expr_eq(x[0].1, v),
            None => false,
        }
        &&& entries_found(x.subrange(1, x.len() as int), y)
    }
}

pub open spec fn block_eq(a: BlockExpr, b: BlockExpr) -> bool
    decreases a,
{
    &&& exprs_eq(a.assignments@, b.assignments@)
    &&& expr_eq(a.clause, b.clause)
}

pub open spec fn let_eq(a: LetExpr, b: LetExpr) -> bool
    decreases a,
{
    &&& a.name@ == b.name@
    &&& opt_string_eq(a.key, b.key)
    &&& expr_eq(a.value, b.value)
}

pub open spec fn lets_eq(x: Seq<LetExpr>, y: Seq<LetExpr>) -> bool
    decreases x,
{
    if x.len() == 0 {
        y.len() == 0
    } else {
        &&& y.len() > 0
        &&& let_eq(x[0], y[0])
        &&& lets_eq(x.subrange(1, x.len() as int), y.subrange(1, y.len() as int))
    }
}

pub open spec fn rule_eq(a: RuleExpr, b: RuleExpr) -> bool
    decreases a,
{
    &&& a.name@ == b.name@
    &&& opt_exprs_eq(a.parameters, b.parameters)
    &&& block_eq(a.block, b.block)
    &&& opt_expr_eq(a.when, b.when)
}

pub open spec fn rules_eq(x: Seq<RuleExpr>, y: Seq<RuleExpr>) -> bool
    decreases x,
{
    if x.len() == 0 {
        y.len() == 0
    } else {
        &&& y.len() > 0
        &&& rule_eq(x[0], y[0])
        &&& rules_eq(x.subrange(1, x.len() as int), y.subrange(1, y.len() as int))
    }
}

// ---------------------------------------------------------------------
// Lemmas
// ---------------------------------------------------------------------

proof fn lemma_exprs_eq_len(x: Seq<Expr>, y: Seq<Expr>)
    requires
        exprs_eq(x, y),
    ensures
        x.len() == y.len(),
    decreases x.len(),
{
    if x.len() > 0 {
        lemma_exprs_eq_len(x.subrange(1, x.len() as int), y.subrange(1, y.len() as int));
    }
}

proof fn lemma_lets_eq_len(x: Seq<LetExpr>, y: Seq<LetExpr>)
    requires
        lets_eq(x, y),
    ensures
        x.len() == y.len(),
    decreases x.len(),
{
    if x.len() > 0 {
        lemma_lets_eq_len(x.subrange(1, x.len() as int), y.subrange(1, y.len() as int));
    }
}

proof fn lemma_rules_eq_len(x: Seq<RuleExpr>, y: Seq<RuleExpr>)
    requires
        rules_eq(x, y),
    ensures
        x.len() == y.len(),
    decreases x.len(),
{
    if x.len() > 0 {
        lemma_rules_eq_len(x.subrange(1, x.len() as int), y.subrange(1, y.len() as int));
    }
}

/// The first entry with key `k` is at `j`, or there is none.
proof fn lemma_lookup(y: Seq<(String, Expr)>, k: Seq<char>, j: int)
    requires
        0 <= j <= y.len(),
        forall|l: int| 0 <= l < j ==> y[l].0@ != k,
        j < y.len() ==> y[j].0@ == k,
    ensures
        lookup(y, k) == (if j < y.len() {
            Some(y[j].1)
        } else {
            None::<Expr>
        }),
    decreases y.len(),
{
    if y.len() > 0 && j > 0 {
        let t = y.drop_first();
        assert forall|l: int| 0 <= l < j - 1 implies t[l].0@ != k by {
            assert(t[l] == y[l + 1]);
        }
        lemma_lookup(t, k, j - 1);
    }
}

// ---------------------------------------------------------------------
// Comparisons
// ---------------------------------------------------------------------

fn opt_string_equal(a: &Option<String>, b: &Option<String>) -> (r: bool)
    ensures
        r == opt_string_eq(*a, *b),
{
    match (a, b) {
        (None, None) => true,
        (Some(x), Some(y)) => str_equal(x.as_str(), y.as_str()),
        _ => false,
    }
}

/// Whether two float literal texts denote the same number.
pub fn float_text_equal(t1: &String, t2: &String) -> (r: bool)
    ensures
        r == float_text_eq(t1@, t2@),
{
    let c1 = chars_of(t1.as_str());
    let c2 = chars_of(t2.as_str());
    let s1 = special_float(&c1);
    let s2 = special_float(&c2);
    if s1 == 1 || s1 == -1 || s2 == 1 || s2 == -1 {
        let k1: i8 = if s1 == 1 || s1 == -1 { s1 } else { 0 };
        let k2: i8 = if s2 == 1 || s2 == -1 { s2 } else { 0 };
        return k1 == k2;
    }
    match (decimal_from_text(&c1), decimal_from_text(&c2)) {
        (Some(d1), Some(d2)) => compare_decimals(&d1, &d2) == 0,
        _ => false,
    }
}

fn index_of_key(y: &Vec<(String, Expr)>, k: &String) -> (r: Option<usize>)
    ensures
        r matches Some(j) ==> j < y@.len() && y@[j as int].0@ == k@ && forall|l: int|
            0 <= l < j ==> y@[l].0@ != k@,
        r is None ==> forall|l: int| 0 <= l < y@.len() ==> y@[l].0@ != k@,
{
    let mut j: usize = 0;
    while j < y.len()
        invariant
            j <= y@.len(),
            forall|l: int| 0 <= l < j ==> y@[l].0@ != k@,
        decreases y@.len() - j,
    {
        if str_equal(y[j].0.as_str(), k.as_str()) {
            return Some(j);
        }
        j = j + 1;
    }
    None
}

pub fn expr_equal(a: &Expr, b: &Expr) -> (r: bool)
    ensures
        r == expr_eq(*a, *b),
    decreases a,
{
    match (a, b) {
        (Expr::File(mine), Expr::File(theirs)) => {
            str_equal(mine.name.as_str(), theirs.name.as_str()) && rules_equal(
                &mine.rules,
                &theirs.rules,
            ) && lets_equal(&mine.assignments, &theirs.assignments)
        },
        (Expr::Rule(mine), Expr::Rule(theirs)) => rule_equal(mine, theirs),
        (Expr::RuleClause(mine), Expr::RuleClause(theirs)) => {
            str_equal(mine.name.as_str(), theirs.name.as_str()) && opt_exprs_equal(
                &mine.parameters,
                &theirs.parameters,
            ) && opt_string_equal(&mine.message, &theirs.message)
        },
        (Expr::Let(mine), Expr::Let(theirs)) => let_equal(mine, theirs),
        (Expr::When(mine), Expr::When(theirs)) => {
            expr_equal(&mine.when, &theirs.when) && block_equal(&mine.block, &theirs.block)
        },
        (Expr::Select(mine), Expr::Select(theirs)) => exprs_equal(&mine.parts, &theirs.parts),
        (Expr::BinaryOperation(mine), Expr::BinaryOperation(theirs)) => {
            mine.operator == theirs.operator && expr_equal(&mine.lhs, &theirs.lhs) && expr_equal(
                &mine.rhs,
                &theirs.rhs,
            ) && opt_string_equal(&mine.message, &theirs.message)
        },
        (Expr::UnaryOperation(mine), Expr::UnaryOperation(theirs)) => {
            mine.operator == theirs.operator && opt_string_equal(&mine.message, &theirs.message)
                && expr_equal(&mine.expr, &theirs.expr)
        },
        (Expr::Array(mine), Expr::Array(theirs)) => exprs_equal(&mine.elements, &theirs.elements),
        (Expr::Mapping(mine), Expr::Mapping(theirs)) => {
            mine.entries.len() == theirs.entries.len() && entries_all_found(
                &mine.entries,
                &theirs.entries,
            )
        },
        (Expr::Null(_), Expr::Null(_)) => true,
        (Expr::String(mine), Expr::String(theirs)) => str_equal(
            mine.value.as_str(),
            theirs.value.as_str(),
        ),
        (Expr::Regex(mine), Expr::Regex(theirs)) => str_equal(
            mine.value.as_str(),
            theirs.value.as_str(),
        ),
        (Expr::Char(mine), Expr::Char(theirs)) => mine.value == theirs.value,
        (Expr::Bool(mine), Expr::Bool(theirs)) => mine.value == theirs.value,
        (Expr::Int(mine), Expr::Int(theirs)) => mine.value == theirs.value,
        (Expr::Float(mine), Expr::Float(theirs)) => float_text_equal(&mine.value, &theirs.value),
        (Expr::RangeInt(mine), Expr::RangeInt(theirs)) => {
            mine.value.upper == theirs.value.upper && mine.value.lower == theirs.value.lower
                && mine.value.inclusive == theirs.value.inclusive
        },
        (Expr::RangeFloat(mine), Expr::RangeFloat(theirs)) => {
            float_text_equal(&mine.value.upper, &theirs.value.upper) && float_text_equal(
                &mine.value.lower,
                &theirs.value.lower,
            ) && mine.value.inclusive == theirs.value.inclusive
        },
        (Expr::Filter(mine), Expr::Filter(theirs)) => block_equal(mine, theirs),
        (Expr::Variable(mine), Expr::Variable(theirs)) => str_equal(
            mine.value.as_str(),
            theirs.value.as_str(),
        ),
        (Expr::VariableReference(mine), Expr::VariableReference(theirs)) => str_equal(
            mine.value.as_str(),
            theirs.value.as_str(),
        ),
        (Expr::Block(mine), Expr::Block(theirs)) => {
            exprs_equal(&mine.select.parts, &theirs.select.parts) && opt_string_equal(
                &mine.message,
                &theirs.message,
            ) && block_equal(&mine.block, &theirs.block)
        },
        _ => false,
    }
}

fn exprs_equal(x: &Vec<Expr>, y: &Vec<Expr>) -> (r: bool)
    ensures
        r == exprs_eq(x@, y@),
    decreases x@,
{
    if x.len() != y.len() {
        proof {
            if exprs_eq(x@, y@) {
                lemma_exprs_eq_len(x@, y@);
            }
        }
        return false;
    }
    let n = x.len();
    let mut i: usize = 0;
    proof {
        assert(x@.subrange(0, n as int) =~= x@);
        assert(y@.subrange(0, n as int) =~= y@);
    }
    while i < n
        invariant
            n == x@.len() == y@.len(),
            i <= n,
            exprs_eq(x@, y@) == exprs_eq(x@.subrange(i as int, n as int), y@.subrange(i as int, n as int)),
        decreases n - i,
    {
        proof {
            let xs = x@.subrange(i as int, n as int);
            let ys = y@.subrange(i as int, n as int);
            assert(xs.subrange(1, xs.len() as int) =~= x@.subrange(i + 1, n as int));
            assert(ys.subrange(1, ys.len() as int) =~= y@.subrange(i + 1, n as int));
            assert(xs[0] == x@[i as int]);
            assert(ys[0] == y@[i as int]);
        }
        if !expr_equal(&x[i], &y[i]) {
            return false;
        }
        i = i + 1;
    }
    true
}

fn opt_exprs_equal(a: &Option<Vec<Expr>>, b: &Option<Vec<Expr>>) -> (r: bool)
    ensures
        r == opt_exprs_eq(*a, *b),
    decreases a,
{
    match (a, b) {
        (None, None) => true,
        (Some(x), Some(y)) => exprs_equal(x, y),
        _ => false,
    }
}

fn opt_expr_equal(a: &Option<Expr>, b: &Option<Expr>) -> (r: bool)
    ensures
        r == opt_expr_eq(*a, *b),
    decreases a,
{
    match (a, b) {
        (None, None) => true,
        (Some(x), Some(y)) => expr_equal(x, y),
        _ => false,
    }
}

fn entries_all_found(x: &Vec<(String, Expr)>, y: &Vec<(String, Expr)>) -> (r: bool)
    ensures
        r == entries_found(x@, y@),
    decreases x@,
{
    let n = x.len();
    let mut i: usize = 0;
    proof {
        assert(x@.subrange(0, n as int) =~= x@);
    }
    while i < n
        invariant
            n == x@.len(),
            i <= n,
            entries_found(x@, y@) == entries_found(x@.subrange(i as int, n as int), y@),
        decreases n - i,
    {
        proof {
            let xs = x@.subrange(i as int, n as int);
            assert(xs.subrange(1, xs.len() as int) =~= x@.subrange(i + 1, n as int));
            assert(xs[0] == x@[i as int]);
        }
        match index_of_key(y, &x[i].0) {
            None => {
                proof {
                    lemma_lookup(y@, x@[i as int].0@, y@.len() as int);
                }
                return false;
            },
            Some(j) => {
                proof {
                    lemma_lookup(y@, x@[i as int].0@, j as int);
                }
                if !expr_equal(&x[i].1, &y[j].1) {
                    return false;
                }
            },
        }
        i = i + 1;
    }
    true
}

fn block_equal(a: &BlockExpr, b: &BlockExpr) -> (r: bool)
    ensures
        r == block_eq(*a, *b),
    decreases a,
{
    exprs_equal(&a.assignments, &b.assignments) && expr_equal(&a.clause, &b.clause)
}

fn let_equal(a: &LetExpr, b: &LetExpr) -> (r: bool)
    ensures
        r == let_eq(*a, *b),
    decreases a,
{
    str_equal(a.name.as_str(), b.name.as_str()) && opt_string_equal(&a.key, &b.key) && expr_equal(
        &a.value,
        &b.value,
    )
}

fn lets_equal(x: &Vec<LetExpr>, y: &Vec<LetExpr>) -> (r: bool)
    ensures
        r == lets_eq(x@, y@),
    decreases x@,
{
    if x.len() != y.len() {
        proof {
            if lets_eq(x@, y@) {
                lemma_lets_eq_len(x@, y@);
            }
        }
        return false;
    }
    let n = x.len();
    let mut i: usize = 0;
    proof {
        assert(x@.subrange(0, n as int) =~= x@);
        assert(y@.subrange(0, n as int) =~= y@);
    }
    while i < n
        invariant
            n == x@.len() == y@.len(),
            i <= n,
            lets_eq(x@, y@) == lets_eq(x@.subrange(i as int, n as int), y@.subrange(i as int, n as int)),
        decreases n - i,
    {
        proof {
            let xs = x@.subrange(i as int, n as int);
            let ys = y@.subrange(i as int, n as int);
            assert(xs.subrange(1, xs.len() as int) =~= x@.subrange(i + 1, n as int));
            assert(ys.subrange(1, ys.len() as int) =~= y@.subrange(i + 1, n as int));
            assert(xs[0] == x@[i as int]);
            assert(ys[0] == y@[i as int]);
        }
        if !let_equal(&x[i], &y[i]) {
            return false;
        }
        i = i + 1;
    }
    true
}

fn rule_equal(a: &RuleExpr, b: &RuleExpr) -> (r: bool)
    ensures
        r == rule_eq(*a, *b),
    decreases a,
{
    str_equal(a.name.as_str(), b.name.as_str()) && opt_exprs_equal(&a.parameters, &b.parameters)
        && block_equal(&a.block, &b.block) && opt_expr_equal(&a.when, &b.when)
}

fn rules_equal(x: &Vec<RuleExpr>, y: &Vec<RuleExpr>) -> (r: bool)
    ensures
        r == rules_eq(x@, y@),
    decreases x@,
{
    if x.len() != y.len() {
        proof {
            if rules_eq(x@, y@) {
                lemma_rules_eq_len(x@, y@);
            }
        }
        return false;
    }
    let n = x.len();
    let mut i: usize = 0;
    proof {
        assert(x@.subrange(0, n as int) =~= x@);
        assert(y@.subrange(0, n as int) =~= y@);
    }
    while i < n
        invariant
            n == x@.len() == y@.len(),
            i <= n,
            rules_eq(x@, y@) == rules_eq(x@.subrange(i as int, n as int), y@.subrange(i as int, n as int)),
        decreases n - i,
    {
        proof {
            let xs = x@.subrange(i as int, n as int);
            let ys = y@.subrange(i as int, n as int);
            assert(xs.subrange(1, xs.len() as int) =~= x@.subrange(i + 1, n as int));
            assert(ys.subrange(1, ys.len() as int) =~= y@.subrange(i + 1, n as int));
            assert(xs[0] == x@[i as int]);
            assert(ys[0] == y@[i as int]);
        }
        if !rule_equal(&x[i], &y[i]) {
            return false;
        }
        i = i + 1;
    }
    true
}

// ---------------------------------------------------------------------
// `==`
// ---------------------------------------------------------------------

impl PartialEq for Expr {
    fn eq(&self, other: &Self) -> (r: bool) {
        expr_equal(self, other)
    }
}

impl PartialEqSpecImpl for Expr {
    open spec fn obeys_eq_spec() -> bool {
        true
    }

    open spec fn eq_spec(&self, other: &Self) -> bool {
        expr_eq(*self, *other)
    }
}

impl PartialEq for BlockExpr {
    fn eq(&self, other: &Self) -> (r: bool) {
        block_equal(self, other)
    }
}

impl PartialEqSpecImpl for BlockExpr {
    open spec fn obeys_eq_spec() -> bool {
        true
    }

    open spec fn eq_spec(&self, other: &Self) -> bool {
        block_eq(*self, *other)
    }
}

impl PartialEq for LetExpr {
    fn eq(&self, other: &Self) -> (r: bool) {
        let_equal(self, other)
    }
}

impl PartialEqSpecImpl for LetExpr {
    open spec fn obeys_eq_spec() -> bool {
        true
    }

    open spec fn eq_spec(&self, other: &Self) -> bool {
        let_eq(*self, *other)
    }
}

impl PartialEq for RuleExpr {
    fn eq(&self, other: &Self) -> (r: bool) {
        rule_equal(self, other)
    }
}

impl PartialEqSpecImpl for RuleExpr {
    open spec fn obeys_eq_spec() -> bool {
        true
    }

    open spec fn eq_spec(&self, other: &Self) -> bool {
        rule_eq(*self, *other)
    }
}

impl PartialEq<i64> for IntExpr {
    fn eq(&self, other: &i64) -> (r: bool) {
        self.value == *other
    }
}

impl PartialEqSpecImpl<i64> for IntExpr {
    open spec fn obeys_eq_spec() -> bool {
        true
    }

    open spec fn eq_spec(&self, other: &i64) -> bool {
        self.value == *other
    }
}

} // verus!
