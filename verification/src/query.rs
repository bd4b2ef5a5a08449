//! Queries against data: what each step of a query selects, how variables
//! are found and resolved in the scopes, and how comparisons and unary
//! checks are evaluated on what queries select.
use vstd::prelude::*;
use crate::exprs::{Expr, LetExpr, BinaryOperator, UnaryOperator};
use crate::value::Value;
use crate::evaluation::{Item, unary_outcome, check_outcome, ItemSide, all_data_items, is_comparison};
use crate::data::i64_of_text;
use crate::matching::regex_match_result;
use crate::cases::{converted_key, convert_key};
use crate::evaluation::{ValueType, EvaluationError, EvalReporter, Comparison, SingleOrQuery, item_of, items_of};
use crate::value::Status;
use crate::text::{str_equal, to_owned_string};

verus! {

// ---------------------------------------------------------------------
// Keyed entries
// ---------------------------------------------------------------------

/// The index of the first entry from `i` on whose key is `k`, or -1.
pub open spec fn find_from<X>(es: Seq<(Seq<char>, X)>, k: Seq<char>, i: nat) -> int
    decreases es.len() - i,
{
    if i >= es.len() {
        -1
    } else if es[i as int].0 == k {
        i as int
    } else {
        find_from(es, k, i + 1)
    }
}

/// The index of the first entry whose key is `k`, or -1.
pub open spec fn find_first<X>(es: Seq<(Seq<char>, X)>, k: Seq<char>) -> int {
    find_from(es, k, 0)
}

pub proof fn lemma_find_from<X>(es: Seq<(Seq<char>, X)>, k: Seq<char>, i: nat)
    ensures
        find_from(es, k, i) == -1 || (i <= find_from(es, k, i) < es.len() && es[find_from(
            es,
            k,
            i,
        )].0 == k),
        forall|j: int| i <= j < es.len() && (find_from(es, k, i) == -1 || j < find_from(es, k, i))
            ==> es[j].0 != k,
    decreases es.len() - i,
{
    if i < es.len() && es[i as int].0 != k {
        lemma_find_from(es, k, i + 1);
    }
}

/// The entries with `k` set to `v`: the first entry with that key gets the
/// value in place, or the pair goes last.
pub open spec fn set_entry<X>(es: Seq<(Seq<char>, X)>, k: Seq<char>, v: X) -> Seq<(Seq<char>, X)> {
    if find_first(es, k) >= 0 {
        es.update(find_first(es, k), (k, v))
    } else {
        es.push((k, v))
    }
}

/// The entries of a mapping with their keys as character sequences.
pub open spec fn keyed(es: Seq<(String, Value)>) -> Seq<(Seq<char>, Value)> {
    es.map_values(|e: (String, Value)| (e.0@, e.1))
}

// ---------------------------------------------------------------------
// Scopes
// ---------------------------------------------------------------------

/// A scope by what it holds: the `let` definitions by name, and the values
/// variables were resolved to.
pub struct ScopeModel {
    pub defs: Seq<(Seq<char>, LetExpr)>,
    pub vars: Seq<(Seq<char>, Seq<Item>)>,
}

/// The values `k` was resolved to in the first scope from `i` on that
/// holds them.
pub open spec fn cached_from(scopes: Seq<ScopeModel>, k: Seq<char>, i: nat) -> Option<Seq<Item>>
    decreases scopes.len() - i,
{
    if i >= scopes.len() {
        None
    } else if find_first(scopes[i as int].vars, k) >= 0 {
        Some(scopes[i as int].vars[find_first(scopes[i as int].vars, k)].1)
    } else {
        cached_from(scopes, k, i + 1)
    }
}

/// The first scope from `i` on that defines `k`, or -1.
pub open spec fn def_scope_from(scopes: Seq<ScopeModel>, k: Seq<char>, i: nat) -> int
    decreases scopes.len() - i,
{
    if i >= scopes.len() {
        -1
    } else if find_first(scopes[i as int].defs, k) >= 0 {
        i as int
    } else {
        def_scope_from(scopes, k, i + 1)
    }
}

/// The definition of `k` in a scope that defines it.
pub open spec fn def_in(scope: ScopeModel, k: Seq<char>) -> LetExpr {
    scope.defs[find_first(scope.defs, k)].1
}

/// The scopes after recording that `k`, defined in scope `si`, resolved to
/// `items`.
pub open spec fn with_resolution(
    scopes: Seq<ScopeModel>,
    si: int,
    k: Seq<char>,
    items: Seq<Item>,
) -> Seq<ScopeModel> {
    scopes.update(si, ScopeModel { defs: scopes[si].defs, vars: set_entry(scopes[si].vars, k, items) })
}

// ---------------------------------------------------------------------
// Stateless steps
// ---------------------------------------------------------------------

/// A value reported while selecting: missing where a value was expected
/// (`missing`), or else of the wrong kind to go on with.
pub struct Note {
    pub missing: bool,
    pub value: Item,
}

/// A report as the reporter is told it: what was noted, and the part of the
/// query it was met in.
pub struct Told {
    pub missing: bool,
    pub value: Item,
    pub expr: Expr,
}

/// The notes of a step, each told with the part of the query `e`.
pub open spec fn told_at(notes: Seq<Note>, e: Expr) -> Seq<Told> {
    notes.map_values(|n: Note| Told { missing: n.missing, value: n.value, expr: e })
}

/// What a step selects: whether it went through, the values selected, and
/// the values reported missing or of the wrong kind on the way, in order
/// (`reported` says whether there are any).
pub struct LOut {
    pub ok: bool,
    pub items: Seq<Item>,
    pub reported: bool,
    pub notes: Seq<Note>,
}

pub open spec fn lout(items: Seq<Item>) -> LOut {
    LOut { ok: true, items, reported: false, notes: Seq::empty() }
}

/// A step that selects nothing and reports `value`.
pub open spec fn lnote(missing: bool, value: Item) -> LOut {
    LOut { ok: true, items: Seq::empty(), reported: true, notes: seq![Note { missing, value }] }
}

pub open spec fn lfail() -> LOut {
    LOut { ok: false, items: Seq::empty(), reported: false, notes: Seq::empty() }
}

/// One step after another: the selections and the reports are joined, a
/// failure stops.
pub open spec fn lthen(a: LOut, b: LOut) -> LOut {
    if !a.ok {
        a
    } else {
        LOut {
            ok: b.ok,
            items: a.items + b.items,
            reported: a.reported || b.reported,
            notes: a.notes + b.notes,
        }
    }
}

/// A step on each value of a stack, from its top (last) value down to
/// index `k`.
pub open spec fn fold_top(stack: Seq<Item>, k: nat, f: spec_fn(Item) -> LOut) -> LOut
    decreases stack.len() - k,
{
    if k >= stack.len() {
        lout(Seq::empty())
    } else {
        lthen(fold_top(stack, k + 1, f), f(stack[k as int]))
    }
}

/// A step on each of the first `n` values, in order.
pub open spec fn fold_front(vs: Seq<Item>, n: nat, f: spec_fn(Item) -> LOut) -> LOut
    decreases n,
{
    if n == 0 {
        lout(Seq::empty())
    } else {
        lthen(fold_front(vs, (n - 1) as nat, f), f(vs[n - 1]))
    }
}

pub open spec fn star() -> Seq<char> {
    seq!['*']
}

pub open spec fn this_name() -> Seq<char> {
    seq!['t', 'h', 'i', 's']
}

pub open spec fn list_items(vs: Seq<Value>) -> Seq<Item> {
    vs.map_values(|v: Value| Item::Data(v))
}

pub open spec fn entry_items(es: Seq<(String, Value)>) -> Seq<Item> {
    es.map_values(|e: (String, Value)| Item::Data(e.1))
}

/// The first step of a query: `*` selects the elements of a list root or
/// the values of a mapping root, a key the value under it in a mapping
/// root; anything else selects nothing and fails.
pub open spec fn root_lookup(root: Value, key: Seq<char>) -> Option<Seq<Item>> {
    if key == star() {
        match root {
            Value::List(vs, _) => Some(list_items(vs@)),
            Value::Mapping(es, _) => Some(entry_items(es@)),
            _ => None,
        }
    } else {
        match root {
            Value::Mapping(es, _) => if find_first(keyed(es@), key) >= 0 {
                Some(seq![Item::Data(es@[find_first(keyed(es@), key)].1)])
            } else {
                None
            },
            _ => None,
        }
    }
}

/// What `str::parse::<i32>` gives.
pub open spec fn i32_of_text(t: Seq<char>) -> Option<int> {
    match i64_of_text(t) {
        Some(v) => if i32::MIN <= v <= i32::MAX {
            Some(v as int)
        } else {
            None
        },
        None => None,
    }
}

/// An index step on one value: a list gives its element at the index,
/// counted from the end when negative; anything else is reported.
pub open spec fn index_one(top: Item, i: int) -> LOut {
    match top {
        Item::Data(Value::List(vs, _)) => {
            let j = if i < 0 {
                vs@.len() + i
            } else {
                i
            };
            if 0 <= j < vs@.len() {
                lout(seq![Item::Data(vs@[j])])
            } else {
                lnote(false, top)
            }
        },
        _ => lnote(false, top),
    }
}

/// The first spelling from `n` on in which a mapping holds `key`, or -1.
pub open spec fn convert_index(es: Seq<(Seq<char>, Value)>, key: Seq<char>, n: nat) -> int
    decreases 7 - n,
{
    if n >= 7 {
        -1
    } else if find_first(es, converted_key(n as int, key)) >= 0 {
        n as int
    } else {
        convert_index(es, key, n + 1)
    }
}

/// A key step on one value: on a mapping `*` selects all values (an empty
/// mapping is reported), a key the value under it or under the first case
/// spelling of it that the mapping holds (else it is reported); on a list
/// `*` selects all elements (an empty list is reported) and a key is
/// reported; any other value is kept by `*` and reported by a key.
pub open spec fn key_one(top: Item, key: Seq<char>) -> LOut {
    match top {
        Item::Data(Value::Mapping(es, _)) => if key == star() {
            if es@.len() == 0 {
                lnote(true, top)
            } else {
                lout(entry_items(es@))
            }
        } else if find_first(keyed(es@), key) >= 0 {
            lout(seq![Item::Data(es@[find_first(keyed(es@), key)].1)])
        } else if convert_index(keyed(es@), key, 0) >= 0 {
            let n = convert_index(keyed(es@), key, 0);
            lout(seq![Item::Data(es@[find_first(keyed(es@), converted_key(n, key))].1)])
        } else {
            lnote(true, top)
        },
        Item::Data(Value::List(vs, _)) => if key == star() {
            if vs@.len() == 0 {
                lnote(true, top)
            } else {
                lout(list_items(vs@))
            }
        } else {
            lnote(false, top)
        },
        other => if key == star() {
            lout(seq![other])
        } else {
            lnote(false, top)
        },
    }
}

/// The index step as a function of the value it is taken on.
pub open spec fn index_fn(i: int) -> spec_fn(Item) -> LOut {
    |t: Item| index_one(t, i)
}

/// The key step as a function of the value it is taken on.
pub open spec fn key_fn(key: Seq<char>) -> spec_fn(Item) -> LOut {
    |t: Item| key_one(t, key)
}

/// A named step on a stack: on an empty stack it is the first step from
/// the root; `this` keeps the stack; a name that reads as an `i32` is an
/// index into each value, any other a key of each value.
pub open spec fn step_string(root: Value, key: Seq<char>, stack: Seq<Item>) -> LOut {
    if stack.len() == 0 {
        match root_lookup(root, key) {
            Some(items) => lout(items),
            None => lfail(),
        }
    } else if key == this_name() {
        lout(stack)
    } else {
        match i32_of_text(key) {
            Some(i) => fold_top(stack, 0, index_fn(i)),
            None => fold_top(stack, 0, key_fn(key)),
        }
    }
}

/// The value under `key` in the mapping `top`, whose entries are `es`, or
/// else `top` is reported missing.
pub open spec fn map_key(top: Item, es: Seq<(Seq<char>, Value)>, key: Seq<char>) -> LOut {
    if find_first(es, key) >= 0 {
        lout(seq![Item::Data(es[find_first(es, key)].1)])
    } else {
        lnote(true, top)
    }
}

/// The values, in order, among the first `n` entries whose keys the
/// pattern matches; `None` when the pattern does not compile.
pub open spec fn regex_keys(es: Seq<(Seq<char>, Value)>, pattern: Seq<char>, n: nat) -> Option<
    Seq<Item>,
>
    decreases n,
{
    if n == 0 {
        Some(Seq::empty())
    } else {
        match (regex_keys(es, pattern, (n - 1) as nat), regex_match_result(pattern, es[n - 1].0)) {
            (Some(before), Some(true)) => Some(before.push(Item::Data(es[n - 1].1))),
            (Some(before), Some(false)) => Some(before),
            _ => None,
        }
    }
}

/// A literal used as a key into a mapping: a string selects the value
/// under it, a regex the values under all keys it matches (it fails when
/// the pattern does not compile), a list each of its elements in turn; any
/// other literal is reported of the wrong kind.
pub open spec fn map_literal(top: Item, es: Seq<(Seq<char>, Value)>, e: Expr) -> LOut
    decreases e,
{
    match e {
        Expr::String(s) => map_key(top, es, s.value@),
        Expr::Regex(r) => if regex_match_result(r.value@, Seq::empty()) is None {
            lfail()
        } else {
            match regex_keys(es, r.value@, es.len()) {
                Some(items) => lout(items),
                None => lfail(),
            }
        },
        Expr::Array(a) => map_literals(top, es, a.elements@),
        _ => lnote(false, Item::Literal(e)),
    }
}

pub open spec fn map_literals(top: Item, es: Seq<(Seq<char>, Value)>, xs: Seq<Expr>) -> LOut
    decreases xs,
{
    if xs.len() == 0 {
        lout(Seq::empty())
    } else {
        lthen(map_literals(top, es, xs.subrange(0, xs.len() - 1)), map_literal(top, es, xs[xs.len() - 1]))
    }
}

/// One value of a variable used as a key: a data string selects the value
/// under it, a literal as `map_literal` says; other values are reported of
/// the wrong kind.
pub open spec fn var_value(top: Item, es: Seq<(Seq<char>, Value)>, v: Item) -> LOut {
    match v {
        Item::Data(Value::String(s, _)) => map_key(top, es, s@),
        Item::Literal(e) => map_literal(top, es, e),
        _ => lnote(false, v),
    }
}

/// One value of a variable as a function of the mapping and its entries.
pub open spec fn var_value_fn(top: Item, es: Seq<(Seq<char>, Value)>) -> spec_fn(Item) -> LOut {
    |v: Item| var_value(top, es, v)
}

/// A variable used as a key on one value: a mapping is looked up with each
/// value of the variable in turn; any other value is reported.
pub open spec fn var_one(top: Item, values: Seq<Item>) -> LOut {
    match top {
        Item::Data(Value::Mapping(es, _)) => fold_front(values, values.len(), var_value_fn(top, keyed(es@))),
        _ => lnote(true, top),
    }
}

// ---------------------------------------------------------------------
// Queries, with variable resolution
// ---------------------------------------------------------------------

/// What evaluating a query gives: whether it went through, the values
/// selected, the scopes after (with the variables resolved on the way),
/// and whether a value was reported missing or of the wrong kind.
pub struct QOut {
    pub ok: bool,
    pub items: Seq<Item>,
    pub scopes: Seq<ScopeModel>,
    pub reported: bool,
    /// The reports made on the way, in order.
    pub told: Seq<Told>,
}

/// A step taken in the query part `part`.
pub open spec fn qout(l: LOut, scopes: Seq<ScopeModel>, part: Expr) -> QOut {
    QOut { ok: l.ok, items: l.items, scopes, reported: l.reported, told: told_at(l.notes, part) }
}

pub open spec fn qfail(scopes: Seq<ScopeModel>) -> QOut {
    QOut { ok: false, items: Seq::empty(), scopes, reported: false, told: Seq::empty() }
}

/// The parts of a query in order, each on what the previous selected,
/// stopping once nothing is selected.
pub open spec fn eval_query(
    root: Value,
    scopes: Seq<ScopeModel>,
    parts: Seq<Expr>,
    stack: Seq<Item>,
    fuel: nat,
) -> QOut
    decreases fuel, parts,
{
    if parts.len() == 0 {
        QOut { ok: true, items: stack, scopes, reported: false, told: Seq::empty() }
    } else {
        let o = eval_part(root, scopes, parts[0], stack, fuel);
        if !o.ok || o.items.len() == 0 {
            o
        } else {
            let rest = eval_query(root, o.scopes, parts.subrange(1, parts.len() as int), o.items, fuel);
            QOut { reported: o.reported || rest.reported, told: o.told + rest.told, ..rest }
        }
    }
}

/// The variable step as a function of the value it is taken on.
pub open spec fn var_fn(values: Seq<Item>) -> spec_fn(Item) -> LOut {
    |t: Item| var_one(t, values)
}

/// Applies the values of a variable to a stack, after the reports `told`
/// of resolving it: on an empty stack they are the selection, else each
/// value of the stack is looked up with them in the query part `part`.
pub open spec fn apply_values(
    stack: Seq<Item>,
    values: Seq<Item>,
    scopes: Seq<ScopeModel>,
    reported: bool,
    told: Seq<Told>,
    part: Expr,
) -> QOut {
    if stack.len() == 0 {
        QOut { ok: true, items: values, scopes, reported, told }
    } else {
        let o = fold_top(stack, 0, var_fn(values));
        QOut {
            ok: o.ok,
            items: o.items,
            scopes,
            reported: reported || o.reported,
            told: told + told_at(o.notes, part),
        }
    }
}

/// One part of a query. A name is a step (`step_string`). A variable is
/// taken as already resolved in the first scope that holds it, or else its
/// definition in the first scope that defines it is evaluated and the
/// result recorded in that scope; an unknown variable fails, and so does a
/// resolution nested deeper than `fuel`. Other parts fail.
pub open spec fn eval_part(root: Value, scopes: Seq<ScopeModel>, part: Expr, stack: Seq<Item>, fuel: nat) -> QOut
    decreases fuel, part,
{
    match part {
        Expr::String(s) => qout(step_string(root, s.value@, stack), scopes, part),
        Expr::VariableReference(s) => {
            let name = s.value@;
            match cached_from(scopes, name, 0) {
                Some(values) => apply_values(stack, values, scopes, false, Seq::empty(), part),
                None => {
                    let si = def_scope_from(scopes, name, 0);
                    if si < 0 || fuel == 0 {
                        qfail(scopes)
                    } else {
                        let a = eval_assign(root, scopes, def_in(scopes[si], name).value, (fuel - 1) as nat);
                        if !a.ok {
                            a
                        } else {
                            apply_values(
                                stack,
                                a.items,
                                with_resolution(a.scopes, si, name, a.items),
                                a.reported,
                                a.told,
                                part,
                            )
                        }
                    }
                },
            }
        },
        _ => qfail(scopes),
    }
}

/// Whether an expression is a literal value all through: scalars, `null`,
/// ranges, and lists and key/value literals of such.
pub open spec fn is_value_literal(e: Expr) -> bool
    decreases e,
{
    match e {
        Expr::Array(a) => all_value_literals(a.elements@),
        Expr::Mapping(m) => all_entry_literals(m.entries@),
        Expr::Null(_) | Expr::String(_) | Expr::Regex(_) | Expr::Char(_) | Expr::Bool(_) | Expr::Int(
            _,
        ) | Expr::Float(_) | Expr::RangeInt(_) | Expr::RangeFloat(_) => true,
        _ => false,
    }
}

pub open spec fn all_value_literals(xs: Seq<Expr>) -> bool
    decreases xs,
{
    if xs.len() == 0 {
        true
    } else {
        all_value_literals(xs.subrange(0, xs.len() - 1)) && is_value_literal(xs[xs.len() - 1])
    }
}

pub open spec fn all_entry_literals(es: Seq<(String, Expr)>) -> bool
    decreases es,
{
    if es.len() == 0 {
        true
    } else {
        all_entry_literals(es.subrange(0, es.len() - 1)) && is_value_literal(es[es.len() - 1].1)
    }
}

/// What the right side of a `let` evaluates to: a query its selection
/// from the root, `a || b` the value of `a` if it goes through or else that
/// of `b` (both are evaluated), a scalar or a literal list or key/value
/// literal itself; anything else fails.
pub open spec fn eval_assign(root: Value, scopes: Seq<ScopeModel>, e: Expr, fuel: nat) -> QOut
    decreases fuel, e,
{
    match e {
        Expr::Select(q) => eval_query(root, scopes, q.parts@, Seq::empty(), fuel),
        Expr::BinaryOperation(b) => if b.operator != BinaryOperator::Or {
            qfail(scopes)
        } else {
            let l = eval_assign(root, scopes, b.lhs, fuel);
            let r = eval_assign(root, l.scopes, b.rhs, fuel);
            if l.ok {
                QOut {
                    ok: true,
                    items: l.items,
                    scopes: r.scopes,
                    reported: l.reported || r.reported,
                    told: l.told + r.told,
                }
            } else {
                QOut { reported: l.reported || r.reported, told: l.told + r.told, ..r }
            }
        },
        Expr::Array(_) | Expr::Mapping(_) => if is_value_literal(e) {
            QOut { ok: true, items: seq![Item::Literal(e)], scopes, reported: false, told: Seq::empty() }
        } else {
            qfail(scopes)
        },
        Expr::String(_) | Expr::Regex(_) | Expr::Char(_) | Expr::Bool(_) | Expr::Int(_) | Expr::Float(
            _,
        ) | Expr::RangeInt(_) | Expr::RangeFloat(_) => QOut {
            ok: true,
            items: seq![Item::Literal(e)],
            scopes,
            reported: false,
            told: Seq::empty(),
        },
        _ => qfail(scopes),
    }
}

// ---------------------------------------------------------------------
// What the reporter is told
// ---------------------------------------------------------------------

/// Telling the reporter `t` took it from `before` to `after` with the answer
/// `r`: the value, as a data value or a literal, went to `reports_missing`
/// or to `reports_mismatch` as `t` says, with no data file and the part of
/// the query it was met in.
pub open spec fn told_step<'value, R: EvalReporter<'value>>(
    before: R,
    after: R,
    t: Told,
    r: Result<(), std::io::Error>,
) -> bool {
    exists|u: ValueType<'value>|
        #![trigger item_of(u)]
        item_of(u) == t.value && if t.missing {
            before.reports_missing(after, u, ""@, t.expr, r)
        } else {
            before.reports_mismatch(after, u, ""@, t.expr, r)
        }
}

/// The `k`-th report was answered with `Ok(())`, taking the `k`-th state to
/// the next.
pub open spec fn told_step_at<'value, R: EvalReporter<'value>>(states: Seq<R>, ts: Seq<Told>, k: int) -> bool {
    told_step(states[k], states[k + 1], ts[k], Ok(()))
}

/// `states` are the reporter's states as it was told `ts` one after the
/// other, each answered with `Ok(())`.
pub open spec fn told_run<'value, R: EvalReporter<'value>>(states: Seq<R>, ts: Seq<Told>) -> bool {
    &&& states.len() == ts.len() + 1
    &&& forall|k: int| 0 <= k < ts.len() ==> #[trigger] told_step_at(states, ts, k)
}

/// The reporter went from `before` to `after` by being told `ts` in order,
/// answering each with `Ok(())`.
pub open spec fn told_in_turn<'value, R: EvalReporter<'value>>(before: R, after: R, ts: Seq<Told>) -> bool {
    exists|states: Seq<R>|
        #[trigger] told_run(states, ts) && states[0] == before && states[ts.len() as int] == after
}

/// What an evaluation told the reporter, by its result: unless it is an
/// error of the reporter, every report of `ts` was told in order and
/// answered `Ok(())`; on an error of the reporter, the reports before some
/// `n` were, and the `n`-th was answered with that very error. So where the
/// reporter answers every report with `Ok(())`, no error of the reporter
/// comes back.
pub open spec fn reports_told<'value, R: EvalReporter<'value>, T>(
    before: R,
    after: R,
    ts: Seq<Told>,
    r: Result<T, EvaluationError<'value>>,
) -> bool {
    match r {
        Err(EvaluationError::IoError(e)) => exists|mid: R, n: int|
            0 <= n < ts.len() && #[trigger] told_in_turn(before, mid, ts.take(n)) && told_step(
                mid,
                after,
                ts[n],
                Err(e),
            ),
        _ => told_in_turn(before, after, ts),
    }
}

/// Nothing told.
proof fn lemma_told_none<'value, R: EvalReporter<'value>>(start: R)
    ensures
        told_in_turn(start, start, Seq::<Told>::empty()),
{
    assert(told_run(seq![start], Seq::<Told>::empty()));
}

/// One run of reports after another.
proof fn lemma_told_concat<'value, R: EvalReporter<'value>>(
    before: R,
    mid: R,
    after: R,
    ts1: Seq<Told>,
    ts2: Seq<Told>,
)
    requires
        told_in_turn(before, mid, ts1),
        told_in_turn(mid, after, ts2),
    ensures
        told_in_turn(before, after, ts1 + ts2),
{
    let s1 = choose|states: Seq<R>| #[trigger] told_run(states, ts1) && states[0] == before && states[ts1.len() as int] == mid;
    let s2 = choose|states: Seq<R>| #[trigger] told_run(states, ts2) && states[0] == mid && states[ts2.len() as int] == after;
    let s = s1 + s2.subrange(1, s2.len() as int);
    let ts = ts1 + ts2;
    assert forall|k: int| 0 <= k < ts.len() implies #[trigger] told_step_at(s, ts, k) by {
        if k < ts1.len() {
            assert(told_step_at(s1, ts1, k));
        } else {
            assert(told_step_at(s2, ts2, k - ts1.len()));
        }
    }
    assert(told_run(s, ts));
}

/// A run of reports and then an evaluation that told more.
proof fn lemma_told_then<'value, R: EvalReporter<'value>, T>(
    before: R,
    mid: R,
    after: R,
    ts1: Seq<Told>,
    ts2: Seq<Told>,
    r: Result<T, EvaluationError<'value>>,
)
    requires
        told_in_turn(before, mid, ts1),
        reports_told(mid, after, ts2, r),
    ensures
        reports_told(before, after, ts1 + ts2, r),
{
    match r {
        Err(EvaluationError::IoError(e)) => {
            let (m2, n) = choose|m2: R, n: int|
                0 <= n < ts2.len() && #[trigger] told_in_turn(mid, m2, ts2.take(n)) && told_step(
                    m2,
                    after,
                    ts2[n],
                    Err(e),
                );
            lemma_told_concat(before, mid, m2, ts1, ts2.take(n));
            assert(ts1 + ts2.take(n) =~= (ts1 + ts2).take(ts1.len() + n));
            assert((ts1 + ts2)[ts1.len() + n] == ts2[n]);
            assert(told_in_turn(before, m2, (ts1 + ts2).take(ts1.len() + n)));
        },
        _ => {
            lemma_told_concat(before, mid, after, ts1, ts2);
        },
    }
}

/// An error of the reporter stays one as the reports that would have
/// followed are added.
proof fn lemma_told_error_extends<'value, R: EvalReporter<'value>, T>(
    before: R,
    after: R,
    ts: Seq<Told>,
    more: Seq<Told>,
    r: Result<T, EvaluationError<'value>>,
)
    requires
        r matches Err(e) && e is IoError,
        reports_told(before, after, ts, r),
        more.len() >= ts.len(),
        more.take(ts.len() as int) == ts,
    ensures
        reports_told(before, after, more, r),
{
    match r {
        Err(EvaluationError::IoError(e)) => {
            let (m, n) = choose|m: R, n: int|
                0 <= n < ts.len() && #[trigger] told_in_turn(before, m, ts.take(n)) && told_step(
                    m,
                    after,
                    ts[n],
                    Err(e),
                );
            assert(more.take(n) =~= ts.take(n));
            assert(more[n] == more.take(ts.len() as int)[n]);
            assert(told_in_turn(before, m, more.take(n)));
        },
        _ => {},
    }
}

/// A run of notes that begins another is told as the beginning of it.
proof fn lemma_told_at_prefix(a: Seq<Note>, b: Seq<Note>, e: Expr)
    requires
        b.len() <= a.len(),
        a.take(b.len() as int) == b,
    ensures
        told_at(a, e).len() == a.len(),
        told_at(b, e).len() == b.len(),
        told_at(a, e).take(b.len() as int) == told_at(b, e),
{
    assert(told_at(a, e).take(b.len() as int) =~= told_at(b, e)) by {
        assert forall|i: int| 0 <= i < b.len() implies told_at(a, e)[i] == told_at(b, e)[i] by {
            assert(a.take(b.len() as int)[i] == a[i]);
        }
    }
}

/// The reports of a step come before those of the steps after it.
proof fn lemma_lthen_prefix(a: LOut, b: LOut)
    ensures
        a.notes.len() <= lthen(a, b).notes.len(),
        lthen(a, b).notes.take(a.notes.len() as int) == a.notes,
{
    if a.ok {
        assert((a.notes + b.notes).take(a.notes.len() as int) =~= a.notes);
    } else {
        assert(a.notes.take(a.notes.len() as int) =~= a.notes);
    }
}

/// The reports of the fold down to `k` begin those of the whole fold.
proof fn lemma_fold_top_prefix(stack: Seq<Item>, k: nat, f: spec_fn(Item) -> LOut)
    requires
        k <= stack.len(),
    ensures
        fold_top(stack, k, f).notes.len() <= fold_top(stack, 0, f).notes.len(),
        fold_top(stack, 0, f).notes.take(fold_top(stack, k, f).notes.len() as int) == fold_top(stack, k, f).notes,
    decreases k,
{
    let a = fold_top(stack, k, f).notes;
    if k > 0 {
        lemma_fold_top_prefix(stack, (k - 1) as nat, f);
        lemma_lthen_prefix(fold_top(stack, k, f), f(stack[k - 1]));
        let b = fold_top(stack, (k - 1) as nat, f).notes;
        let c = fold_top(stack, 0, f).notes;
        assert(c.take(a.len() as int) =~= c.take(b.len() as int).take(a.len() as int));
    } else {
        assert(a.take(a.len() as int) =~= a);
    }
}

/// The reports of the first `n` values begin those of the whole fold.
proof fn lemma_fold_front_prefix(vs: Seq<Item>, n: nat, f: spec_fn(Item) -> LOut)
    requires
        n <= vs.len(),
    ensures
        fold_front(vs, n, f).notes.len() <= fold_front(vs, vs.len(), f).notes.len(),
        fold_front(vs, vs.len(), f).notes.take(fold_front(vs, n, f).notes.len() as int) == fold_front(vs, n, f).notes,
    decreases vs.len() - n,
{
    let a = fold_front(vs, n, f).notes;
    if n < vs.len() {
        lemma_fold_front_prefix(vs, n + 1, f);
        lemma_lthen_prefix(fold_front(vs, n, f), f(vs[n as int]));
        let b = fold_front(vs, n + 1, f).notes;
        let c = fold_front(vs, vs.len(), f).notes;
        assert(c.take(a.len() as int) =~= c.take(b.len() as int).take(a.len() as int));
    } else {
        assert(a.take(a.len() as int) =~= a);
    }
}

/// The reports of the first `n` literals begin those of the whole list.
proof fn lemma_map_literals_prefix(top: Item, es: Seq<(Seq<char>, Value)>, xs: Seq<Expr>, n: nat)
    requires
        n <= xs.len(),
    ensures
        map_literals(top, es, xs.subrange(0, n as int)).notes.len() <= map_literals(top, es, xs).notes.len(),
        map_literals(top, es, xs).notes.take(map_literals(top, es, xs.subrange(0, n as int)).notes.len() as int)
            == map_literals(top, es, xs.subrange(0, n as int)).notes,
    decreases xs.len() - n,
{
    let a = map_literals(top, es, xs.subrange(0, n as int)).notes;
    if n < xs.len() {
        lemma_map_literals_prefix(top, es, xs, n + 1);
        let next = xs.subrange(0, n as int + 1);
        assert(next.subrange(0, next.len() - 1) =~= xs.subrange(0, n as int));
        lemma_lthen_prefix(map_literals(top, es, xs.subrange(0, n as int)), map_literal(top, es, xs[n as int]));
        let b = map_literals(top, es, next).notes;
        let c = map_literals(top, es, xs).notes;
        assert(c.take(a.len() as int) =~= c.take(b.len() as int).take(a.len() as int));
    } else {
        assert(xs.subrange(0, n as int) =~= xs);
        assert(a.take(a.len() as int) =~= a);
    }
}

/// No notes, nothing told.
proof fn lemma_told_at_empty(e: Expr)
    ensures
        told_at(Seq::<Note>::empty(), e) == Seq::<Told>::empty(),
{
    assert(told_at(Seq::<Note>::empty(), e) =~= Seq::<Told>::empty());
}

/// One note, told in a part of a query.
proof fn lemma_told_at_one(missing: bool, value: Item, e: Expr)
    ensures
        told_at(seq![Note { missing, value }], e) == seq![Told { missing, value, expr: e }],
        told_at(Seq::<Note>::empty(), e) == Seq::<Told>::empty(),
{
    assert(told_at(seq![Note { missing, value }], e) =~= seq![Told { missing, value, expr: e }]);
    assert(told_at(Seq::<Note>::empty(), e) =~= Seq::<Told>::empty());
}

/// The notes of two steps, told in one part of a query.
proof fn lemma_told_at_concat(a: Seq<Note>, b: Seq<Note>, e: Expr)
    ensures
        told_at(a + b, e) == told_at(a, e) + told_at(b, e),
        told_at(a, e).len() == a.len(),
{
    assert(told_at(a + b, e) =~= told_at(a, e) + told_at(b, e));
}

// ---------------------------------------------------------------------
// Scopes, executable
// ---------------------------------------------------------------------

/// The variables of one scope: their `let` definitions by name, and the
/// values those already resolved were resolved to.
#[derive(Debug)]
pub struct Scope<'value> {
    pub variable_definitions: Vec<(String, &'value LetExpr)>,
    pub variables: Vec<(String, Vec<ValueType<'value>>)>,
}

pub open spec fn defs_model<'value>(ds: Seq<(String, &'value LetExpr)>) -> Seq<(Seq<char>, LetExpr)> {
    ds.map_values(|e: (String, &'value LetExpr)| (e.0@, *e.1))
}

pub open spec fn vars_model<'value>(vs: Seq<(String, Vec<ValueType<'value>>)>) -> Seq<(Seq<char>, Seq<Item>)> {
    vs.map_values(|e: (String, Vec<ValueType<'value>>)| (e.0@, items_of(e.1@)))
}

impl<'value> Scope<'value> {
    pub open spec fn model(&self) -> ScopeModel {
        ScopeModel { defs: defs_model(self.variable_definitions@), vars: vars_model(self.variables@) }
    }

    /// A scope with no definitions and no resolved variables.
    pub fn new() -> (r: Self)
        ensures
            r.model().defs.len() == 0,
            r.model().vars.len() == 0,
    {
        Scope { variable_definitions: Vec::new(), variables: Vec::new() }
    }

    /// Records the definition `l` under its name, replacing one of that name.
    pub fn define(&mut self, l: &'value LetExpr)
        ensures
            final(self).model().defs == set_entry(old(self).model().defs, l.name@, *l),
            final(self).model().vars == old(self).model().vars,
    {
        let ghost before = self.model().defs;
        match find_definition(&self.variable_definitions, l.name.as_str()) {
            Some(i) => {
                self.variable_definitions.set(i, (to_owned_string(l.name.as_str()), l));
                proof {
                    assert(self.model().defs =~= before.update(i as int, (l.name@, *l)));
                }
            },
            None => {
                self.variable_definitions.push((to_owned_string(l.name.as_str()), l));
                proof {
                    assert(self.model().defs =~= before.push((l.name@, *l)));
                }
            },
        }
    }

    /// Records that the variable `name` resolved to `values`, replacing an
    /// earlier resolution of that name.
    pub fn insert_variable(&mut self, name: &str, values: Vec<ValueType<'value>>)
        ensures
            final(self).model().vars == set_entry(old(self).model().vars, name@, items_of(values@)),
            final(self).model().defs == old(self).model().defs,
    {
        let ghost before = self.model().vars;
        match find_variable(&self.variables, name) {
            Some(i) => {
                self.variables.set(i, (to_owned_string(name), values));
                proof {
                    assert(self.model().vars =~= before.update(i as int, (name@, items_of(values@))));
                }
            },
            None => {
                self.variables.push((to_owned_string(name), values));
                proof {
                    assert(self.model().vars =~= before.push((name@, items_of(values@))));
                }
            },
        }
    }
}

/// The index of the first definition named `k`.
fn find_definition<'value>(ds: &Vec<(String, &'value LetExpr)>, k: &str) -> (r: Option<usize>)
    ensures
        r matches Some(i) ==> i < ds@.len() && i as int == find_first(defs_model(ds@), k@),
        r is None ==> find_first(defs_model(ds@), k@) == -1,
{
    let ghost m = defs_model(ds@);
    let mut i: usize = 0;
    while i < ds.len()
        invariant
            i <= ds@.len(),
            m == defs_model(ds@),
            m.len() == ds@.len(),
            find_first(m, k@) == find_from(m, k@, i as nat),
        decreases ds@.len() - i,
    {
        if str_equal(ds[i].0.as_str(), k) {
            proof {
                assert(m[i as int].0 == k@);
            }
            return Some(i);
        }
        proof {
            assert(m[i as int].0 != k@);
        }
        i = i + 1;
    }
    None
}

/// The index of the first resolved variable named `k`.
fn find_variable<'value>(vs: &Vec<(String, Vec<ValueType<'value>>)>, k: &str) -> (r: Option<usize>)
    ensures
        r matches Some(i) ==> i < vs@.len() && i as int == find_first(vars_model(vs@), k@),
        r is None ==> find_first(vars_model(vs@), k@) == -1,
{
    let ghost m = vars_model(vs@);
    let mut i: usize = 0;
    while i < vs.len()
        invariant
            i <= vs@.len(),
            m == vars_model(vs@),
            m.len() == vs@.len(),
            find_first(m, k@) == find_from(m, k@, i as nat),
        decreases vs@.len() - i,
    {
        if str_equal(vs[i].0.as_str(), k) {
            proof {
                assert(m[i as int].0 == k@);
            }
            return Some(i);
        }
        proof {
            assert(m[i as int].0 != k@);
        }
        i = i + 1;
    }
    None
}

/// The index of the first entry of a mapping under key `k`.
fn find_value_key(es: &Vec<(String, Value)>, k: &str) -> (r: Option<usize>)
    ensures
        r matches Some(i) ==> i < es@.len() && i as int == find_first(keyed(es@), k@),
        r is None ==> find_first(keyed(es@), k@) == -1,
{
    let ghost m = keyed(es@);
    let mut i: usize = 0;
    while i < es.len()
        invariant
            i <= es@.len(),
            m == keyed(es@),
            m.len() == es@.len(),
            find_first(m, k@) == find_from(m, k@, i as nat),
        decreases es@.len() - i,
    {
        if str_equal(es[i].0.as_str(), k) {
            proof {
                assert(m[i as int].0 == k@);
            }
            return Some(i);
        }
        proof {
            assert(m[i as int].0 != k@);
        }
        i = i + 1;
    }
    None
}

// ---------------------------------------------------------------------
// The hierarchy of scopes
// ---------------------------------------------------------------------

/// The data evaluated against, the scopes of variables (innermost first),
/// the scopes already left, the reporter, and whether a value was reported
/// missing or of the wrong kind.
pub struct RootScopeHierarchy<'value, R> {
    pub roots: &'value Value,
    pub scopes: Vec<Scope<'value>>,
    pub completed: Vec<Scope<'value>>,
    pub reporter: R,
    pub missing: bool,
}

pub open spec fn scopes_model<'value>(scopes: Seq<Scope<'value>>) -> Seq<ScopeModel> {
    scopes.map_values(|s: Scope<'value>| s.model())
}

impl<'value, R: EvalReporter<'value>> RootScopeHierarchy<'value, R> {
    pub open spec fn model(&self) -> Seq<ScopeModel> {
        scopes_model(self.scopes@)
    }

    /// A hierarchy over `roots` with no scopes.
    pub fn new(roots: &'value Value, reporter: R) -> (r: Self)
        ensures
            *r.roots == *roots,
            r.scopes@.len() == 0,
            r.completed@.len() == 0,
            r.reporter == reporter,
            !r.missing,
    {
        RootScopeHierarchy { roots, scopes: Vec::new(), completed: Vec::new(), reporter, missing: false }
    }

    pub fn get_root(&self) -> (r: &'value Value)
        ensures
            *r == *self.roots,
    {
        self.roots
    }

    /// Makes `scope` the innermost scope.
    pub fn add_scope(&mut self, scope: Scope<'value>)
        ensures
            final(self).model() == seq![scope.model()] + old(self).model(),
            *final(self).roots == *old(self).roots,
            final(self).missing == old(self).missing,
    {
        self.scopes.insert(0, scope);
        proof {
            assert(self.model() =~= seq![scope.model()] + old(self).model());
        }
    }

    /// Leaves the innermost scope, if there is one, and keeps it first
    /// among the completed ones.
    pub fn drop_scope(&mut self)
        ensures
            old(self).scopes@.len() > 0 ==> final(self).model() == old(self).model().subrange(
                1,
                old(self).model().len() as int,
            ) && final(self).completed@ == seq![old(self).scopes@[0]] + old(self).completed@,
            old(self).scopes@.len() == 0 ==> final(self).model() == old(self).model()
                && final(self).completed@ == old(self).completed@,
            *final(self).roots == *old(self).roots,
            final(self).missing == old(self).missing,
    {
        if self.scopes.len() > 0 {
            let first = self.scopes.remove(0);
            self.completed.insert(0, first);
            proof {
                assert(self.model() =~= old(self).model().subrange(1, old(self).model().len() as int));
                assert(self.completed@ =~= seq![old(self).scopes@[0]] + old(self).completed@);
            }
        }
    }

    /// The values `name` was resolved to, in the innermost scope that
    /// holds them.
    pub fn get_resolved_variable(&self, name: &str) -> (r: Option<Vec<ValueType<'value>>>)
        ensures
            match cached_from(self.model(), name@, 0) {
                Some(items) => r matches Some(v) && items_of(v@) == items,
                None => r is None,
            },
    {
        let ghost m = self.model();
        let mut i: usize = 0;
        while i < self.scopes.len()
            invariant
                i <= self.scopes@.len(),
                m == self.model(),
                m.len() == self.scopes@.len(),
                cached_from(m, name@, 0) == cached_from(m, name@, i as nat),
            decreases self.scopes@.len() - i,
        {
            proof {
                assert(m[i as int] == self.scopes@[i as int].model());
            }
            match find_variable(&self.scopes[i].variables, name) {
                Some(j) => {
                    let found = copy_values(&self.scopes[i].variables[j].1);
                    return Some(found);
                },
                None => {},
            }
            i = i + 1;
        }
        None
    }

    /// The innermost scope that defines `name`, and the definition.
    pub fn get_variable_expression(&self, name: &str) -> (r: Result<(usize, &'value LetExpr), EvaluationError<'value>>)
        ensures
            def_scope_from(self.model(), name@, 0) >= 0 <==> r is Ok,
            r matches Ok((i, l)) ==> i as int == def_scope_from(self.model(), name@, 0) && i
                < self.scopes@.len() && *l == def_in(self.model()[i as int], name@),
            r matches Err(e) ==> e is ComputationError,
    {
        let ghost m = self.model();
        let mut i: usize = 0;
        while i < self.scopes.len()
            invariant
                i <= self.scopes@.len(),
                m == self.model(),
                m.len() == self.scopes@.len(),
                def_scope_from(m, name@, 0) == def_scope_from(m, name@, i as nat),
            decreases self.scopes@.len() - i,
        {
            proof {
                assert(m[i as int] == self.scopes@[i as int].model());
            }
            match find_definition(&self.scopes[i].variable_definitions, name) {
                Some(j) => {
                    return Ok((i, self.scopes[i].variable_definitions[j].1));
                },
                None => {},
            }
            i = i + 1;
        }
        let mut msg = to_owned_string("Variable ");
        crate::text::push_str(&mut msg, name);
        crate::text::push_str(&mut msg, " could not resolved in any scope");
        Err(EvaluationError::ComputationError(msg))
    }

    /// Records that `name`, defined in scope `scope_idx`, resolved to `value`.
    pub fn add_variable_resolution(&mut self, scope_idx: usize, name: &str, value: Vec<ValueType<'value>>)
        requires
            scope_idx < old(self).scopes@.len(),
        ensures
            final(self).model() == with_resolution(old(self).model(), scope_idx as int, name@, items_of(value@)),
            final(self).scopes@.len() == old(self).scopes@.len(),
            *final(self).roots == *old(self).roots,
            final(self).missing == old(self).missing,
            final(self).reporter == old(self).reporter,
    {
        let mut scope = self.scopes.remove(scope_idx);
        let ghost sm = scope.model();
        scope.insert_variable(name, value);
        self.scopes.insert(scope_idx, scope);
        proof {
            assert(self.model() =~= with_resolution(old(self).model(), scope_idx as int, name@, items_of(value@)));
        }
    }

    /// Reports a value missing where a query expected one.
    fn missing_value(&mut self, until: ValueType<'value>, expr: &'value Expr) -> (r: Result<(), EvaluationError<'value>>)
        ensures
            final(self).missing,
            final(self).scopes == old(self).scopes,
            *final(self).roots == *old(self).roots,
            r matches Err(e) ==> e is IoError,
            reports_told(
                old(self).reporter,
                final(self).reporter,
                seq![Told { missing: true, value: item_of(until), expr: *expr }],
                r,
            ),
    {
        self.missing = true;
        let ghost before = self.reporter;
        let ghost t = Told { missing: true, value: item_of(until), expr: *expr };
        let answer = self.reporter.report_missing_value(until, "", expr);
        proof {
            lemma_told_none::<'value, R>(before);
            assert(seq![t].take(0) =~= Seq::<Told>::empty());
        }
        match answer {
            Ok(u) => {
                proof {
                    assert(u == ());
                    assert(told_step(before, self.reporter, t, Ok(())));
                    let states = seq![before, self.reporter];
                    assert(told_step_at(states, seq![t], 0));
                    assert(told_run(states, seq![t]));
                }
                Ok(())
            },
            Err(e) => {
                proof {
                    assert(told_step(before, self.reporter, t, Err(e)));
                    assert(told_in_turn(before, before, seq![t].take(0)));
                }
                Err(EvaluationError::IoError(e))
            },
        }
    }

    /// Reports a value of the wrong kind for a query to go on with.
    fn mismatch_value(&mut self, until: ValueType<'value>, expr: &'value Expr) -> (r: Result<(), EvaluationError<'value>>)
        ensures
            final(self).missing,
            final(self).scopes == old(self).scopes,
            *final(self).roots == *old(self).roots,
            r matches Err(e) ==> e is IoError,
            reports_told(
                old(self).reporter,
                final(self).reporter,
                seq![Told { missing: false, value: item_of(until), expr: *expr }],
                r,
            ),
    {
        self.missing = true;
        let ghost before = self.reporter;
        let ghost t = Told { missing: false, value: item_of(until), expr: *expr };
        let answer = self.reporter.report_mismatch_value_traversal(until, "", expr);
        proof {
            lemma_told_none::<'value, R>(before);
            assert(seq![t].take(0) =~= Seq::<Told>::empty());
        }
        match answer {
            Ok(u) => {
                proof {
                    assert(u == ());
                    assert(told_step(before, self.reporter, t, Ok(())));
                    let states = seq![before, self.reporter];
                    assert(told_step_at(states, seq![t], 0));
                    assert(told_run(states, seq![t]));
                }
                Ok(())
            },
            Err(e) => {
                proof {
                    assert(told_step(before, self.reporter, t, Err(e)));
                    assert(told_in_turn(before, before, seq![t].take(0)));
                }
                Err(EvaluationError::IoError(e))
            },
        }
    }
}

impl<'value, R: EvalReporter<'value>> EvalReporter<'value> for RootScopeHierarchy<'value, R> {
    /// The hierarchy notes that a value was missing, keeps its scopes, and
    /// its reporter is told.
    open spec fn reports_missing(
        self,
        after: Self,
        until: ValueType<'value>,
        data_file_name: Seq<char>,
        expr: Expr,
        r: Result<(), std::io::Error>,
    ) -> bool {
        &&& after == (RootScopeHierarchy { missing: true, reporter: after.reporter, ..self })
        &&& self.reporter.reports_missing(after.reporter, until, data_file_name, expr, r)
    }

    /// The hierarchy notes that a value was missing, keeps its scopes, and
    /// its reporter is told of the mismatch.
    open spec fn reports_mismatch(
        self,
        after: Self,
        until: ValueType<'value>,
        data_file_name: Seq<char>,
        expr: Expr,
        r: Result<(), std::io::Error>,
    ) -> bool {
        &&& after == (RootScopeHierarchy { missing: true, reporter: after.reporter, ..self })
        &&& self.reporter.reports_mismatch(after.reporter, until, data_file_name, expr, r)
    }

    /// The hierarchy stays as it is but for its reporter, which is told.
    open spec fn reports_evaluation(
        self,
        after: Self,
        status: Status,
        comparison: Comparison<'value>,
        data_file: Seq<char>,
        expr: Expr,
        r: Result<(), std::io::Error>,
    ) -> bool {
        &&& after == (RootScopeHierarchy { reporter: after.reporter, ..self })
        &&& self.reporter.reports_evaluation(after.reporter, status, comparison, data_file, expr, r)
    }

    fn report_missing_value(
        &mut self,
        until: ValueType<'value>,
        data_file_name: &'value str,
        expr: &'value Expr,
    ) -> Result<(), std::io::Error> {
        self.missing = true;
        self.reporter.report_missing_value(until, data_file_name, expr)
    }

    fn report_mismatch_value_traversal(
        &mut self,
        until: ValueType<'value>,
        data_file_name: &'value str,
        expr: &'value Expr,
    ) -> Result<(), std::io::Error> {
        self.missing = true;
        self.reporter.report_mismatch_value_traversal(until, data_file_name, expr)
    }

    fn report_evaluation(
        &mut self,
        status: Status,
        comparison: Comparison<'value>,
        data_file: &'value str,
        expr: &'value Expr,
    ) -> Result<(), std::io::Error> {
        self.reporter.report_evaluation(status, comparison, data_file, expr)
    }
}

/// A copy of a list of values met during evaluation.
pub fn copy_values<'value>(vs: &Vec<ValueType<'value>>) -> (r: Vec<ValueType<'value>>)
    ensures
        r@ == vs@,
{
    let mut out: Vec<ValueType<'value>> = Vec::new();
    let mut i: usize = 0;
    while i < vs.len()
        invariant
            i <= vs@.len(),
            out@ == vs@.subrange(0, i as int),
        decreases vs@.len() - i,
    {
        out.push(vs[i]);
        proof {
            assert(out@ =~= vs@.subrange(0, i + 1));
        }
        i = i + 1;
    }
    proof {
        assert(out@ =~= vs@);
    }
    out
}

// ---------------------------------------------------------------------
// The steps of a query, executable
// ---------------------------------------------------------------------

/// Which step is taken on each value of a stack.
pub enum Step<'a, 'value> {
    /// An index into lists.
    Index(i64),
    /// A key into mappings, or `*`.
    Key(&'a str),
    /// The values of a variable, as keys into mappings.
    Values(&'a Vec<ValueType<'value>>),
}

pub open spec fn step_fn<'a, 'value>(step: Step<'a, 'value>) -> spec_fn(Item) -> LOut {
    match step {
        Step::Index(i) => index_fn(i as int),
        Step::Key(k) => key_fn(k@),
        Step::Values(vs) => var_fn(items_of(vs@)),
    }
}

proof fn lemma_push_item<'value>(v: Seq<ValueType<'value>>, x: ValueType<'value>)
    ensures
        items_of(v.push(x)) == items_of(v).push(item_of(x)),
{
    assert(items_of(v.push(x)) =~= items_of(v).push(item_of(x)));
}

impl<'value, R: EvalReporter<'value>> RootScopeHierarchy<'value, R> {
    /// The first step of a query, from the root.
    fn find_from_root(&self, key: &str) -> (r: Option<Vec<ValueType<'value>>>)
        ensures
            match root_lookup(*self.roots, key@) {
                Some(items) => r matches Some(v) && items_of(v@) == items,
                None => r is None,
            },
    {
        let root = self.roots;
        proof {
            reveal_strlit("*");
            assert("*"@ =~= star());
        }
        if str_equal(key, "*") {
            match root {
                Value::List(vs, _) => {
                    let mut out: Vec<ValueType<'value>> = Vec::new();
                    let mut k: usize = 0;
                    while k < vs.len()
                        invariant
                            k <= vs@.len(),
                            items_of(out@) == list_items(vs@).subrange(0, k as int),
                        decreases vs@.len() - k,
                    {
                        proof {
                            lemma_push_item(out@, ValueType::DataValue(&vs@[k as int]));
                        }
                        out.push(ValueType::DataValue(&vs[k]));
                        proof {
                            assert(list_items(vs@).subrange(0, k + 1) =~= list_items(vs@).subrange(0, k as int).push(
                                Item::Data(vs@[k as int]),
                            ));
                        }
                        k = k + 1;
                    }
                    proof {
                        assert(list_items(vs@).subrange(0, vs@.len() as int) =~= list_items(vs@));
                    }
                    Some(out)
                },
                Value::Mapping(es, _) => Some(entry_values(es)),
                _ => None,
            }
        } else {
            match root {
                Value::Mapping(es, _) => match find_value_key(es, key) {
                    Some(j) => {
                        let out = vec![ValueType::DataValue(&es[j].1)];
                        proof {
                            assert(items_of(out@) =~= seq![Item::Data(es@[j as int].1)]);
                        }
                        Some(out)
                    },
                    None => None,
                },
                _ => None,
            }
        }
    }

    /// Takes a step on one value, adding what it selects to `out`.
    fn step_on(
        &mut self,
        part: &'value Expr,
        top: ValueType<'value>,
        step: &Step<'_, 'value>,
        out: &mut Vec<ValueType<'value>>,
    ) -> (r: Result<(), EvaluationError<'value>>)
        requires
            *step matches Step::Index(i) ==> i32::MIN <= i <= i32::MAX,
        ensures
            final(self).scopes == old(self).scopes,
            *final(self).roots == *old(self).roots,
            ({
                let o = step_fn(*step)(item_of(top));
                &&& r is Ok ==> o.ok && items_of(final(out)@) == items_of(old(out)@) + o.items
                    && final(self).missing == (old(self).missing || o.reported)
                &&& (r matches Err(e) && !(e is IoError)) ==> !o.ok && final(self).missing == (old(self).missing
                    || o.reported)
                &&& !o.ok ==> r is Err
                &&& (r matches Err(e) && e is IoError) ==> o.reported
            }),
            reports_told(
                old(self).reporter,
                final(self).reporter,
                told_at((step_fn(*step)(item_of(top))).notes, *part),
                r,
            ),
    {
        proof {
            lemma_told_none::<'value, R>(self.reporter);
            lemma_told_at_one(true, item_of(top), *part);
            lemma_told_at_one(false, item_of(top), *part);
        }
        match step {
            Step::Index(i) => self.index_on(part, top, *i, out),
            Step::Key(k) => self.key_on(part, top, k, out),
            Step::Values(vs) => self.values_on(part, top, vs, out),
        }
    }

    /// Takes a step on each value of a stack, from the top down.
    fn step_stack(
        &mut self,
        part: &'value Expr,
        stack: &Vec<ValueType<'value>>,
        step: &Step<'_, 'value>,
    ) -> (r: Result<Vec<ValueType<'value>>, EvaluationError<'value>>)
        requires
            *step matches Step::Index(i) ==> i32::MIN <= i <= i32::MAX,
        ensures
            final(self).scopes == old(self).scopes,
            *final(self).roots == *old(self).roots,
            ({
                let o = fold_top(items_of(stack@), 0, step_fn(*step));
                &&& r matches Ok(v) ==> o.ok && items_of(v@) == o.items && final(self).missing == (
                old(self).missing || o.reported)
                &&& (r matches Err(e) && !(e is IoError)) ==> !o.ok && final(self).missing == (old(self).missing
                    || o.reported)
                &&& !o.ok ==> r is Err
                &&& (r matches Err(e) && e is IoError) ==> o.reported
            }),
            reports_told(
                old(self).reporter,
                final(self).reporter,
                told_at((fold_top(items_of(stack@), 0, step_fn(*step))).notes, *part),
                r,
            ),
    {
        proof {
            lemma_told_none::<'value, R>(self.reporter);
            lemma_told_at_empty(*part);
        }
        let ghost items = items_of(stack@);
        let ghost f = step_fn(*step);
        let mut out: Vec<ValueType<'value>> = Vec::new();
        let mut k: usize = stack.len();
        while k > 0
            invariant
                k <= stack@.len(),
                items == items_of(stack@),
                items.len() == stack@.len(),
                f == step_fn(*step),
                *step matches Step::Index(i) ==> i32::MIN <= i <= i32::MAX,
                self.scopes == old(self).scopes,
                *self.roots == *old(self).roots,
                fold_top(items, k as nat, f).ok,
                items_of(out@) == fold_top(items, k as nat, f).items,
                self.missing == (old(self).missing || fold_top(items, k as nat, f).reported),
                told_in_turn(old(self).reporter, self.reporter, told_at(fold_top(items, k as nat, f).notes, *part)),
            decreases k,
        {
            k = k - 1;
            let top = stack[k];
            proof {
                assert(items[k as int] == item_of(top));
            }
            let ghost pre = self.reporter;
            let ghost done = fold_top(items, (k + 1) as nat, f);
            let r = self.step_on(part, top, step, &mut out);
            proof {
                let this = f(items[k as int]);
                assert(fold_top(items, k as nat, f).notes == done.notes + this.notes);
                lemma_told_at_concat(done.notes, this.notes, *part);
                lemma_told_then(old(self).reporter, pre, self.reporter, told_at(done.notes, *part), told_at(this.notes, *part), r);
            }
            match r {
                Ok(_) => {},
                Err(e) => {
                    proof {
                        if !(e is IoError) {
                            lemma_fold_top_stops(items, k as nat, f);
                        } else {
                            lemma_fold_top_reported(items, k as nat, f);
                            lemma_fold_top_prefix(items, k as nat, f);
                            lemma_told_at_prefix(fold_top(items, 0, f).notes, fold_top(items, k as nat, f).notes, *part);
                            lemma_told_error_extends(
                                old(self).reporter,
                                self.reporter,
                                told_at(fold_top(items, k as nat, f).notes, *part),
                                told_at(fold_top(items, 0, f).notes, *part),
                                r,
                            );
                        }
                    }
                    return Err(e);
                },
            }
        }
        Ok(out)
    }
}

/// Once a step fails on the way down, the whole fold is that failure.
proof fn lemma_fold_top_stops(stack: Seq<Item>, k: nat, f: spec_fn(Item) -> LOut)
    requires
        k <= stack.len(),
        !fold_top(stack, k, f).ok,
    ensures
        fold_top(stack, 0, f) == fold_top(stack, k, f),
    decreases k,
{
    if k > 0 {
        lemma_fold_top_stops(stack, (k - 1) as nat, f);
    }
}

/// Once a step reports on the way down, the whole fold has reported.
proof fn lemma_fold_top_reported(stack: Seq<Item>, k: nat, f: spec_fn(Item) -> LOut)
    requires
        k <= stack.len(),
        fold_top(stack, k, f).reported,
    ensures
        fold_top(stack, 0, f).reported,
    decreases k,
{
    if k > 0 {
        lemma_fold_top_reported(stack, (k - 1) as nat, f);
    }
}

/// The values of a mapping, in order.
fn entry_values<'value>(es: &'value Vec<(String, Value)>) -> (r: Vec<ValueType<'value>>)
    ensures
        items_of(r@) == entry_items(es@),
{
    let mut out: Vec<ValueType<'value>> = Vec::new();
    let mut k: usize = 0;
    while k < es.len()
        invariant
            k <= es@.len(),
            items_of(out@) == entry_items(es@).subrange(0, k as int),
        decreases es@.len() - k,
    {
        proof {
            lemma_push_item(out@, ValueType::DataValue(&es@[k as int].1));
        }
        out.push(ValueType::DataValue(&es[k].1));
        proof {
            assert(entry_items(es@).subrange(0, k + 1) =~= entry_items(es@).subrange(0, k as int).push(
                Item::Data(es@[k as int].1),
            ));
        }
        k = k + 1;
    }
    proof {
        assert(entry_items(es@).subrange(0, es@.len() as int) =~= entry_items(es@));
    }
    out
}

/// The elements of a list, in order.
fn list_values<'value>(vs: &'value Vec<Value>) -> (r: Vec<ValueType<'value>>)
    ensures
        items_of(r@) == list_items(vs@),
{
    let mut out: Vec<ValueType<'value>> = Vec::new();
    let mut k: usize = 0;
    while k < vs.len()
        invariant
            k <= vs@.len(),
            items_of(out@) == list_items(vs@).subrange(0, k as int),
        decreases vs@.len() - k,
    {
        proof {
            lemma_push_item(out@, ValueType::DataValue(&vs@[k as int]));
        }
        out.push(ValueType::DataValue(&vs[k]));
        proof {
            assert(list_items(vs@).subrange(0, k + 1) =~= list_items(vs@).subrange(0, k as int).push(
                Item::Data(vs@[k as int]),
            ));
        }
        k = k + 1;
    }
    proof {
        assert(list_items(vs@).subrange(0, vs@.len() as int) =~= list_items(vs@));
    }
    out
}

/// Adds the values of `more` to `out`.
fn append_values<'value>(out: &mut Vec<ValueType<'value>>, more: Vec<ValueType<'value>>)
    ensures
        items_of(final(out)@) == items_of(old(out)@) + items_of(more@),
{
    let ghost start = out@;
    let mut k: usize = 0;
    while k < more.len()
        invariant
            k <= more@.len(),
            items_of(out@) == items_of(start) + items_of(more@).subrange(0, k as int),
        decreases more@.len() - k,
    {
        proof {
            lemma_push_item(out@, more@[k as int]);
            assert(items_of(more@).subrange(0, k + 1) =~= items_of(more@).subrange(0, k as int).push(
                item_of(more@[k as int]),
            ));
            assert((items_of(start) + items_of(more@).subrange(0, k as int)).push(item_of(more@[k as int]))
                =~= items_of(start) + items_of(more@).subrange(0, k + 1));
        }
        out.push(more[k]);
        k = k + 1;
    }
    proof {
        assert(items_of(more@).subrange(0, more@.len() as int) =~= items_of(more@));
    }
}

/// The entry of a mapping under the first case spelling of `key` that it
/// holds.
fn find_converted(es: &Vec<(String, Value)>, key: &str) -> (r: Option<usize>)
    ensures
        r matches Some(j) ==> convert_index(keyed(es@), key@, 0) >= 0 && j < es@.len() && j as int
            == find_first(keyed(es@), converted_key(convert_index(keyed(es@), key@, 0), key@)),
        r is None ==> convert_index(keyed(es@), key@, 0) == -1,
{
    let mut n: usize = 0;
    while n < 7
        invariant
            n <= 7,
            convert_index(keyed(es@), key@, 0) == convert_index(keyed(es@), key@, n as nat),
        decreases 7 - n,
    {
        let c = convert_key(n, key);
        match find_value_key(es, c.as_str()) {
            Some(j) => {
                return Some(j);
            },
            None => {},
        }
        n = n + 1;
    }
    None
}

impl<'value, R: EvalReporter<'value>> RootScopeHierarchy<'value, R> {
    /// An index step on one value.
    fn index_on(&mut self, part: &'value Expr, top: ValueType<'value>, i: i64, out: &mut Vec<ValueType<'value>>) -> (r:
        Result<(), EvaluationError<'value>>)
        requires
            i32::MIN <= i <= i32::MAX,
        ensures
            final(self).scopes == old(self).scopes,
            *final(self).roots == *old(self).roots,
            ({
                let o = index_one(item_of(top), i as int);
                &&& r is Ok ==> o.ok && items_of(final(out)@) == items_of(old(out)@) + o.items
                    && final(self).missing == (old(self).missing || o.reported)
                &&& r matches Err(e) ==> e is IoError
                &&& (r matches Err(e) && e is IoError) ==> o.reported
            }),
            reports_told(
                old(self).reporter,
                final(self).reporter,
                told_at((index_one(item_of(top), i as int)).notes, *part),
                r,
            ),
    {
        proof {
            lemma_told_none::<'value, R>(self.reporter);
            lemma_told_at_one(true, item_of(top), *part);
            lemma_told_at_one(false, item_of(top), *part);
        }
        match top {
            ValueType::DataValue(Value::List(list, _)) => {
                let len = list.len();
                let j: Option<usize> = if i < 0 {
                    let m: usize = (0 - i) as usize;
                    if m <= len {
                        Some(len - m)
                    } else {
                        None
                    }
                } else {
                    let u: usize = i as usize;
                    if u < len {
                        Some(u)
                    } else {
                        None
                    }
                };
                match j {
                    Some(j) => {
                        proof {
                            lemma_push_item(out@, ValueType::DataValue(&list@[j as int]));
                        }
                        out.push(ValueType::DataValue(&list[j]));
                        Ok(())
                    },
                    None => self.mismatch_value(top, part),
                }
            },
            _ => self.mismatch_value(top, part),
        }
    }

    /// A key step on one value.
    fn key_on(&mut self, part: &'value Expr, top: ValueType<'value>, key: &str, out: &mut Vec<ValueType<'value>>) -> (r:
        Result<(), EvaluationError<'value>>)
        ensures
            final(self).scopes == old(self).scopes,
            *final(self).roots == *old(self).roots,
            ({
                let o = key_one(item_of(top), key@);
                &&& r is Ok ==> o.ok && items_of(final(out)@) == items_of(old(out)@) + o.items
                    && final(self).missing == (old(self).missing || o.reported)
                &&& r matches Err(e) ==> e is IoError
                &&& (r matches Err(e) && e is IoError) ==> o.reported
            }),
            reports_told(
                old(self).reporter,
                final(self).reporter,
                told_at((key_one(item_of(top), key@)).notes, *part),
                r,
            ),
    {
        proof {
            lemma_told_none::<'value, R>(self.reporter);
            lemma_told_at_one(true, item_of(top), *part);
            lemma_told_at_one(false, item_of(top), *part);
        }
        proof {
            reveal_strlit("*");
            assert("*"@ =~= star());
        }
        let is_star = str_equal(key, "*");
        match top {
            ValueType::DataValue(Value::Mapping(es, _)) => {
                if is_star {
                    if es.len() == 0 {
                        self.missing_value(top, part)
                    } else {
                        append_values(out, entry_values(es));
                        Ok(())
                    }
                } else {
                    match find_value_key(es, key) {
                        Some(j) => {
                            proof {
                                lemma_push_item(out@, ValueType::DataValue(&es@[j as int].1));
                            }
                            out.push(ValueType::DataValue(&es[j].1));
                            Ok(())
                        },
                        None => match find_converted(es, key) {
                            Some(j) => {
                                proof {
                                    lemma_push_item(out@, ValueType::DataValue(&es@[j as int].1));
                                }
                                out.push(ValueType::DataValue(&es[j].1));
                                Ok(())
                            },
                            None => self.missing_value(top, part),
                        },
                    }
                }
            },
            ValueType::DataValue(Value::List(vs, _)) => {
                if is_star {
                    if vs.len() == 0 {
                        self.missing_value(top, part)
                    } else {
                        append_values(out, list_values(vs));
                        Ok(())
                    }
                } else {
                    self.mismatch_value(top, part)
                }
            },
            _ => {
                if is_star {
                    proof {
                        lemma_push_item(out@, top);
                    }
                    out.push(top);
                    Ok(())
                } else {
                    self.mismatch_value(top, part)
                }
            },
        }
    }

    /// Looks up a key in a mapping met on the stack.
    fn map_key_exec(
        &mut self,
        part: &'value Expr,
        top: ValueType<'value>,
        es: &'value Vec<(String, Value)>,
        key: &str,
        out: &mut Vec<ValueType<'value>>,
    ) -> (r: Result<(), EvaluationError<'value>>)
        ensures
            final(self).scopes == old(self).scopes,
            *final(self).roots == *old(self).roots,
            ({
                let o = map_key(item_of(top), keyed(es@), key@);
                &&& r is Ok ==> o.ok && items_of(final(out)@) == items_of(old(out)@) + o.items
                    && final(self).missing == (old(self).missing || o.reported)
                &&& r matches Err(e) ==> e is IoError
                &&& (r matches Err(e) && e is IoError) ==> o.reported
            }),
            reports_told(
                old(self).reporter,
                final(self).reporter,
                told_at((map_key(item_of(top), keyed(es@), key@)).notes, *part),
                r,
            ),
    {
        proof {
            lemma_told_none::<'value, R>(self.reporter);
            lemma_told_at_one(true, item_of(top), *part);
            lemma_told_at_one(false, item_of(top), *part);
        }
        match find_value_key(es, key) {
            Some(j) => {
                proof {
                    lemma_push_item(out@, ValueType::DataValue(&es@[j as int].1));
                }
                out.push(ValueType::DataValue(&es[j].1));
                Ok(())
            },
            None => self.missing_value(top, part),
        }
    }

    /// Uses a literal as a key into a mapping met on the stack.
    fn map_literal_exec(
        &mut self,
        part: &'value Expr,
        top: ValueType<'value>,
        es: &'value Vec<(String, Value)>,
        e: &'value Expr,
        out: &mut Vec<ValueType<'value>>,
    ) -> (r: Result<(), EvaluationError<'value>>)
        ensures
            final(self).scopes == old(self).scopes,
            *final(self).roots == *old(self).roots,
            ({
                let o = map_literal(item_of(top), keyed(es@), *e);
                &&& r is Ok ==> o.ok && items_of(final(out)@) == items_of(old(out)@) + o.items
                    && final(self).missing == (old(self).missing || o.reported)
                &&& (r matches Err(err) && !(err is IoError)) ==> !o.ok && final(self).missing == (old(self).missing
                    || o.reported)
                &&& !o.ok ==> r is Err
                &&& (r matches Err(err) && err is IoError) ==> o.reported
            }),
            reports_told(
                old(self).reporter,
                final(self).reporter,
                told_at((map_literal(item_of(top), keyed(es@), *e)).notes, *part),
                r,
            ),
        decreases e,
    {
        proof {
            lemma_told_none::<'value, R>(self.reporter);
            lemma_told_at_one(true, item_of(top), *part);
            lemma_told_at_one(false, item_of(top), *part);
            lemma_told_at_one(false, Item::Literal(*e), *part);
        }
        match e {
            Expr::String(s) => self.map_key_exec(part, top, es, s.value.as_str(), out),
            Expr::Regex(re) => {
                proof {
                    reveal_strlit("");
                    assert(""@ =~= Seq::<char>::empty());
                }
                match crate::matching::regex_is_match(re.value.as_str(), "") {
                    None => {
                        return Err(EvaluationError::ComputationError(to_owned_string("Could not compile the regular expression")));
                    },
                    Some(_) => {},
                }
                let ghost ks = keyed(es@);
                let ghost start = out@;
                let mut k: usize = 0;
                while k < es.len()
                    invariant
                        k <= es@.len(),
                        ks == keyed(es@),
                        ks.len() == es@.len(),
                        regex_keys(ks, re.value@, k as nat) is Some,
                        *e == Expr::Regex(*re),
                        regex_match_result(re.value@, Seq::empty()) is Some,
                        items_of(out@) == items_of(start) + regex_keys(ks, re.value@, k as nat).unwrap(),
                        self.reporter == old(self).reporter,
                        told_in_turn(old(self).reporter, self.reporter, Seq::<Told>::empty()),
                        told_at(Seq::<Note>::empty(), *part) == Seq::<Told>::empty(),
                    decreases es@.len() - k,
                {
                    let m = crate::matching::regex_is_match(re.value.as_str(), es[k].0.as_str());
                    proof {
                        assert(ks[k as int].0 == es@[k as int].0@);
                        assert(ks[k as int].1 == es@[k as int].1);
                    }
                    match m {
                        Some(true) => {
                            proof {
                                lemma_push_item(out@, ValueType::DataValue(&es@[k as int].1));
                            }
                            out.push(ValueType::DataValue(&es[k].1));
                        },
                        Some(false) => {},
                        None => {
                            proof {
                                assert(regex_keys(ks, re.value@, (k + 1) as nat) is None);
                                lemma_regex_keys_none(ks, re.value@, (k + 1) as nat);
                            }
                            return Err(EvaluationError::ComputationError(to_owned_string("Could not compile the regular expression")));
                        },
                    }
                    k = k + 1;
                }
                Ok(())
            },
            Expr::Array(a) => {
                let ghost ks = keyed(es@);
                let ghost xs = a.elements@;
                let ghost start = out@;
                let mut j: usize = 0;
                while j < a.elements.len()
                    invariant
                        j <= a.elements@.len(),
                        xs == a.elements@,
                        *e == Expr::Array(*a),
                        ks == keyed(es@),
                        self.scopes == old(self).scopes,
                        *self.roots == *old(self).roots,
                        map_literals(item_of(top), ks, xs.subrange(0, j as int)).ok,
                        items_of(out@) == items_of(start) + map_literals(item_of(top), ks, xs.subrange(0, j as int)).items,
                        self.missing == (old(self).missing || map_literals(item_of(top), ks, xs.subrange(0, j as int)).reported),
                        told_in_turn(
                            old(self).reporter,
                            self.reporter,
                            told_at(map_literals(item_of(top), ks, xs.subrange(0, j as int)).notes, *part),
                        ),
                    decreases a.elements@.len() - j,
                {
                    proof {
                        assert(decreases_to!(*e => (*e)->Array_0));
                        assert(decreases_to!((*e)->Array_0 => a.elements));
                        assert(decreases_to!(a.elements => a.elements@));
                        assert(decreases_to!(a.elements@ => a.elements@[j as int]));
                        let next = xs.subrange(0, j + 1);
                        assert(next.subrange(0, next.len() - 1) =~= xs.subrange(0, j as int));
                        assert(next[next.len() - 1] == xs[j as int]);
                    }
                    let ghost before = out@;
                    let ghost pre = self.reporter;
                    let ghost done = map_literals(item_of(top), ks, xs.subrange(0, j as int));
                    let r = self.map_literal_exec(part, top, es, &a.elements[j], out);
                    proof {
                        let this = map_literal(item_of(top), ks, xs[j as int]);
                        let next = xs.subrange(0, j + 1);
                        assert(map_literals(item_of(top), ks, next).notes == done.notes + this.notes);
                        lemma_told_at_concat(done.notes, this.notes, *part);
                        lemma_told_then(old(self).reporter, pre, self.reporter, told_at(done.notes, *part), told_at(this.notes, *part), r);
                    }
                    match r {
                        Ok(_) => {},
                        Err(err) => {
                            proof {
                                if !(err is IoError) {
                                    lemma_map_literals_stops(item_of(top), ks, xs, (j + 1) as nat);
                                } else {
                                    lemma_map_literals_reported(item_of(top), ks, xs, (j + 1) as nat);
                                    let next = xs.subrange(0, j + 1);
                                    lemma_map_literals_prefix(item_of(top), ks, xs, (j + 1) as nat);
                                    lemma_told_at_prefix(
                                        map_literals(item_of(top), ks, xs).notes,
                                        map_literals(item_of(top), ks, next).notes,
                                        *part,
                                    );
                                    lemma_told_error_extends(
                                        old(self).reporter,
                                        self.reporter,
                                        told_at(map_literals(item_of(top), ks, next).notes, *part),
                                        told_at(map_literals(item_of(top), ks, xs).notes, *part),
                                        r,
                                    );
                                }
                            }
                            return Err(err);
                        },
                    }
                    j = j + 1;
                }
                proof {
                    assert(xs.subrange(0, xs.len() as int) =~= xs);
                }
                Ok(())
            },
            _ => self.mismatch_value(ValueType::LiteralValue(e), part),
        }
    }
}

/// A pattern that fails on one key fails on all the keys after it too.
proof fn lemma_regex_keys_none(es: Seq<(Seq<char>, Value)>, pattern: Seq<char>, n: nat)
    requires
        n <= es.len(),
        regex_keys(es, pattern, n) is None,
    ensures
        regex_keys(es, pattern, es.len()) is None,
    decreases es.len() - n,
{
    if n < es.len() {
        lemma_regex_keys_none(es, pattern, n + 1);
    }
}

/// A literal that reports in a list makes the whole list report.
proof fn lemma_map_literals_reported(top: Item, es: Seq<(Seq<char>, Value)>, xs: Seq<Expr>, n: nat)
    requires
        n <= xs.len(),
        map_literals(top, es, xs.subrange(0, n as int)).reported,
    ensures
        map_literals(top, es, xs).reported,
    decreases xs.len() - n,
{
    if n < xs.len() {
        let next = xs.subrange(0, n as int + 1);
        assert(next.subrange(0, next.len() - 1) =~= xs.subrange(0, n as int));
        lemma_map_literals_reported(top, es, xs, n + 1);
    } else {
        assert(xs.subrange(0, n as int) =~= xs);
    }
}

/// A literal that fails in a list makes the whole list that failure.
proof fn lemma_map_literals_stops(top: Item, es: Seq<(Seq<char>, Value)>, xs: Seq<Expr>, n: nat)
    requires
        n <= xs.len(),
        !map_literals(top, es, xs.subrange(0, n as int)).ok,
    ensures
        map_literals(top, es, xs) == map_literals(top, es, xs.subrange(0, n as int)),
    decreases xs.len() - n,
{
    if n < xs.len() {
        let next = xs.subrange(0, n as int + 1);
        assert(next.subrange(0, next.len() - 1) =~= xs.subrange(0, n as int));
        lemma_map_literals_stops(top, es, xs, n + 1);
    } else {
        assert(xs.subrange(0, n as int) =~= xs);
    }
}

impl<'value, R: EvalReporter<'value>> RootScopeHierarchy<'value, R> {
    /// One value of a variable used as a key into a mapping met on the stack.
    fn var_value_exec(
        &mut self,
        part: &'value Expr,
        top: ValueType<'value>,
        es: &'value Vec<(String, Value)>,
        v: ValueType<'value>,
        out: &mut Vec<ValueType<'value>>,
    ) -> (r: Result<(), EvaluationError<'value>>)
        ensures
            final(self).scopes == old(self).scopes,
            *final(self).roots == *old(self).roots,
            ({
                let o = var_value(item_of(top), keyed(es@), item_of(v));
                &&& r is Ok ==> o.ok && items_of(final(out)@) == items_of(old(out)@) + o.items
                    && final(self).missing == (old(self).missing || o.reported)
                &&& (r matches Err(err) && !(err is IoError)) ==> !o.ok && final(self).missing == (old(self).missing
                    || o.reported)
                &&& !o.ok ==> r is Err
                &&& (r matches Err(err) && err is IoError) ==> o.reported
            }),
            reports_told(
                old(self).reporter,
                final(self).reporter,
                told_at((var_value(item_of(top), keyed(es@), item_of(v))).notes, *part),
                r,
            ),
    {
        proof {
            lemma_told_none::<'value, R>(self.reporter);
            lemma_told_at_one(true, item_of(top), *part);
            lemma_told_at_one(false, item_of(top), *part);
            lemma_told_at_one(false, item_of(v), *part);
        }
        match v {
            ValueType::DataValue(Value::String(s, _)) => self.map_key_exec(part, top, es, s.as_str(), out),
            ValueType::LiteralValue(e) => self.map_literal_exec(part, top, es, e, out),
            _ => self.mismatch_value(v, part),
        }
    }

    /// The values of a variable used as keys into one value of the stack.
    fn values_on(
        &mut self,
        part: &'value Expr,
        top: ValueType<'value>,
        values: &Vec<ValueType<'value>>,
        out: &mut Vec<ValueType<'value>>,
    ) -> (r: Result<(), EvaluationError<'value>>)
        ensures
            final(self).scopes == old(self).scopes,
            *final(self).roots == *old(self).roots,
            ({
                let o = var_one(item_of(top), items_of(values@));
                &&& r is Ok ==> o.ok && items_of(final(out)@) == items_of(old(out)@) + o.items
                    && final(self).missing == (old(self).missing || o.reported)
                &&& (r matches Err(err) && !(err is IoError)) ==> !o.ok && final(self).missing == (old(self).missing
                    || o.reported)
                &&& !o.ok ==> r is Err
                &&& (r matches Err(err) && err is IoError) ==> o.reported
            }),
            reports_told(
                old(self).reporter,
                final(self).reporter,
                told_at((var_one(item_of(top), items_of(values@))).notes, *part),
                r,
            ),
    {
        proof {
            lemma_told_none::<'value, R>(self.reporter);
            lemma_told_at_one(true, item_of(top), *part);
            lemma_told_at_one(false, item_of(top), *part);
        }
        match top {
            ValueType::DataValue(Value::Mapping(es, _)) => {
                let ghost ks = keyed(es@);
                let ghost vals = items_of(values@);
                let ghost f = var_value_fn(item_of(top), ks);
                let ghost start = out@;
                proof {
                    assert(var_one(item_of(top), vals) == fold_front(vals, vals.len(), f));
                }
                let mut j: usize = 0;
                while j < values.len()
                    invariant
                        j <= values@.len(),
                        vals == items_of(values@),
                        vals.len() == values@.len(),
                        ks == keyed(es@),
                        f == var_value_fn(item_of(top), ks),
                        var_one(item_of(top), vals) == fold_front(vals, vals.len(), f),
                        self.scopes == old(self).scopes,
                        *self.roots == *old(self).roots,
                        fold_front(vals, j as nat, f).ok,
                        items_of(out@) == items_of(start) + fold_front(vals, j as nat, f).items,
                        self.missing == (old(self).missing || fold_front(vals, j as nat, f).reported),
                        told_in_turn(old(self).reporter, self.reporter, told_at(fold_front(vals, j as nat, f).notes, *part)),
                    decreases values@.len() - j,
                {
                    let v = values[j];
                    proof {
                        assert(vals[j as int] == item_of(v));
                    }
                    let ghost pre = self.reporter;
                    let ghost done = fold_front(vals, j as nat, f);
                    let r = self.var_value_exec(part, top, es, v, out);
                    proof {
                        let this = f(vals[j as int]);
                        assert(this == var_value(item_of(top), ks, vals[j as int]));
                        assert(fold_front(vals, (j + 1) as nat, f).notes == done.notes + this.notes);
                        lemma_told_at_concat(done.notes, this.notes, *part);
                        lemma_told_then(old(self).reporter, pre, self.reporter, told_at(done.notes, *part), told_at(this.notes, *part), r);
                    }
                    match r {
                        Ok(_) => {},
                        Err(err) => {
                            proof {
                                if !(err is IoError) {
                                    assert(f(vals[j as int]) == var_value(item_of(top), ks, vals[j as int]));
                                    assert(!fold_front(vals, (j + 1) as nat, f).ok);
                                    lemma_fold_front_stops(vals, (j + 1) as nat, f);
                                } else {
                                    assert(f(vals[j as int]) == var_value(item_of(top), ks, vals[j as int]));
                                    lemma_fold_front_reported(vals, (j + 1) as nat, f);
                                    lemma_fold_front_prefix(vals, (j + 1) as nat, f);
                                    lemma_told_at_prefix(
                                        fold_front(vals, vals.len(), f).notes,
                                        fold_front(vals, (j + 1) as nat, f).notes,
                                        *part,
                                    );
                                    lemma_told_error_extends(
                                        old(self).reporter,
                                        self.reporter,
                                        told_at(fold_front(vals, (j + 1) as nat, f).notes, *part),
                                        told_at(fold_front(vals, vals.len(), f).notes, *part),
                                        r,
                                    );
                                }
                            }
                            return Err(err);
                        },
                    }
                    j = j + 1;
                }
                Ok(())
            },
            _ => self.missing_value(top, part),
        }
    }
}

/// A value that fails among the first `n` makes the whole fold that failure.
proof fn lemma_fold_front_stops(vs: Seq<Item>, n: nat, f: spec_fn(Item) -> LOut)
    requires
        n <= vs.len(),
        !fold_front(vs, n, f).ok,
    ensures
        fold_front(vs, vs.len(), f) == fold_front(vs, n, f),
    decreases vs.len() - n,
{
    if n < vs.len() {
        lemma_fold_front_stops(vs, n + 1, f);
    }
}

/// A value that reports among the first `n` makes the whole fold report.
proof fn lemma_fold_front_reported(vs: Seq<Item>, n: nat, f: spec_fn(Item) -> LOut)
    requires
        n <= vs.len(),
        fold_front(vs, n, f).reported,
    ensures
        fold_front(vs, vs.len(), f).reported,
    decreases vs.len() - n,
{
    if n < vs.len() {
        lemma_fold_front_reported(vs, n + 1, f);
    }
}

// ---------------------------------------------------------------------
// Queries and assignments, executable
// ---------------------------------------------------------------------

/// The values one literal or a query stands for.
pub open spec fn single_or_query_values<'v>(sq: SingleOrQuery<'v>) -> Seq<ValueType<'v>> {
    match sq {
        SingleOrQuery::Single(v) => seq![v],
        SingleOrQuery::Query(vs) => vs@,
    }
}

/// Whether an expression is a literal value all through.
pub fn check_value_literal(e: &Expr) -> (r: bool)
    ensures
        r == is_value_literal(*e),
    decreases e,
{
    match e {
        Expr::Array(a) => {
            let mut all = true;
            let mut j: usize = 0;
            while j < a.elements.len()
                invariant
                    j <= a.elements@.len(),
                    *e == Expr::Array(*a),
                    all == all_value_literals(a.elements@.subrange(0, j as int)),
                decreases a.elements@.len() - j,
            {
                proof {
                    assert(decreases_to!(*e => (*e)->Array_0));
                    assert(decreases_to!((*e)->Array_0 => a.elements));
                    assert(decreases_to!(a.elements => a.elements@));
                    assert(decreases_to!(a.elements@ => a.elements@[j as int]));
                    let next = a.elements@.subrange(0, j + 1);
                    assert(next.subrange(0, next.len() - 1) =~= a.elements@.subrange(0, j as int));
                }
                let each = check_value_literal(&a.elements[j]);
                all = all && each;
                j = j + 1;
            }
            proof {
                assert(a.elements@.subrange(0, a.elements@.len() as int) =~= a.elements@);
            }
            all
        },
        Expr::Mapping(m) => {
            let mut all = true;
            let mut j: usize = 0;
            while j < m.entries.len()
                invariant
                    j <= m.entries@.len(),
                    *e == Expr::Mapping(*m),
                    all == all_entry_literals(m.entries@.subrange(0, j as int)),
                decreases m.entries@.len() - j,
            {
                proof {
                    assert(decreases_to!(*e => (*e)->Mapping_0));
                    assert(decreases_to!((*e)->Mapping_0 => m.entries));
                    assert(decreases_to!(m.entries => m.entries@));
                    assert(decreases_to!(m.entries@ => m.entries@[j as int]));
                    assert(decreases_to!(m.entries@[j as int] => m.entries@[j as int].1));
                    let next = m.entries@.subrange(0, j + 1);
                    assert(next.subrange(0, next.len() - 1) =~= m.entries@.subrange(0, j as int));
                }
                let each = check_value_literal(&m.entries[j].1);
                all = all && each;
                j = j + 1;
            }
            proof {
                assert(m.entries@.subrange(0, m.entries@.len() as int) =~= m.entries@);
            }
            all
        },
        Expr::Null(_) | Expr::String(_) | Expr::Regex(_) | Expr::Char(_) | Expr::Bool(_) | Expr::Int(_)
        | Expr::Float(_) | Expr::RangeInt(_) | Expr::RangeFloat(_) => true,
        _ => false,
    }
}

impl<'value, R: EvalReporter<'value>> RootScopeHierarchy<'value, R> {
    /// Evaluates one part of a query on a stack.
    fn eval_part_exec(&mut self, part: &'value Expr, stack: Vec<ValueType<'value>>, fuel: usize) -> (r: Result<
        Vec<ValueType<'value>>,
        EvaluationError<'value>,
    >)
        ensures
            *final(self).roots == *old(self).roots,
            final(self).scopes@.len() == old(self).scopes@.len(),
            ({
                let o = eval_part(*old(self).roots, old(self).model(), *part, items_of(stack@), fuel as nat);
                &&& r matches Ok(v) ==> o.ok && items_of(v@) == o.items && final(self).model() == o.scopes
                    && final(self).missing == (old(self).missing || o.reported)
                &&& (r matches Err(e) && !(e is IoError)) ==> !o.ok && final(self).model() == o.scopes
                    && final(self).missing == (old(self).missing || o.reported)
                &&& !o.ok ==> r is Err
                &&& (r matches Err(e) && e is IoError) ==> o.reported
            }),
            reports_told(old(self).reporter, final(self).reporter, (eval_part(*old(self).roots, old(self).model(), *part, items_of(stack@), fuel as nat)).told, r),
        decreases fuel, part,
    {
        let ghost start = self.reporter;
        let ghost model0 = self.model();
        proof {
            lemma_told_none::<'value, R>(self.reporter);
            lemma_told_at_empty(*part);
            assert(Seq::<Told>::empty() + told_at(Seq::<Note>::empty(), *part) =~= Seq::<Told>::empty());
        }
        match part {
            Expr::String(s) => {
                if stack.len() == 0 {
                    match self.find_from_root(s.value.as_str()) {
                        Some(v) => Ok(v),
                        None => Err(
                            EvaluationError::ComputationError(
                                to_owned_string("Could not find any datafile that satisfies the query"),
                            ),
                        ),
                    }
                } else {
                    proof {
                        reveal_strlit("this");
                        assert("this"@ =~= this_name());
                    }
                    if str_equal(s.value.as_str(), "this") {
                        Ok(stack)
                    } else {
                        let parsed = crate::data::parse_i64(s.value.as_str());
                        match parsed {
                            Some(i) => {
                                if -2147483648 <= i && i <= 2147483647 {
                                    self.step_stack(part, &stack, &Step::Index(i))
                                } else {
                                    self.step_stack(part, &stack, &Step::Key(s.value.as_str()))
                                }
                            },
                            None => self.step_stack(part, &stack, &Step::Key(s.value.as_str())),
                        }
                    }
                }
            },
            Expr::VariableReference(s) => {
                let name = s.value.as_str();
                let ghost mut prior: Seq<Told> = Seq::empty();
                let values: Vec<ValueType<'value>> = match self.get_resolved_variable(name) {
                    Some(v) => v,
                    None => {
                        let (si, lexpr) = match self.get_variable_expression(name) {
                            Ok(found) => found,
                            Err(e) => {
                                return Err(e);
                            },
                        };
                        if fuel == 0 {
                            return Err(
                                EvaluationError::ComputationError(
                                    to_owned_string("Variables are defined in terms of each other"),
                                ),
                            );
                        }
                        let ghost a = eval_assign(*self.roots, model0, lexpr.value, (fuel - 1) as nat);
                        let ghost si_g = si;
                        let assigned = self.eval_assign_exec(&lexpr.value, fuel - 1);
                        let resolved = match assigned {
                            Ok(sq) => sq,
                            Err(e) => {
                                proof {
                                    if e is IoError && a.ok {
                                        let o = eval_part(*self.roots, model0, *part, items_of(stack@), fuel as nat);
                                        let more = if stack@.len() == 0 {
                                            Seq::<Told>::empty()
                                        } else {
                                            told_at(fold_top(items_of(stack@), 0, var_fn(a.items)).notes, *part)
                                        };
                                        assert(o.told == a.told + more);
                                        assert((a.told + more).take(a.told.len() as int) =~= a.told);
                                        lemma_told_error_extends(start, self.reporter, a.told, o.told, assigned);
                                    }
                                }
                                return Err(e);
                            },
                        };
                        let ghost mid = self.reporter;
                        let ghost sq_values = single_or_query_values(resolved);
                        let resolved = match resolved {
                            SingleOrQuery::Single(v) => {
                                let one = vec![v];
                                proof {
                                    assert(one@ =~= sq_values);
                                }
                                one
                            },
                            SingleOrQuery::Query(q) => q,
                        };
                        proof {
                            assert(resolved@ == sq_values);
                        }
                        self.add_variable_resolution(si, name, copy_values(&resolved));
                        proof {
                            prior = a.told;
                        }
                        resolved
                    },
                };
                let ghost cur = self.reporter;
                if stack.len() == 0 {
                    proof {
                        assert(prior + Seq::<Told>::empty() =~= prior);
                    }
                    Ok(values)
                } else {
                    let r = self.step_stack(part, &stack, &Step::Values(&values));
                    proof {
                        let more = told_at(fold_top(items_of(stack@), 0, step_fn(Step::Values(&values))).notes, *part);
                        lemma_told_then(start, cur, self.reporter, prior, more, r);
                    }
                    r
                }
            },
            _ => Err(EvaluationError::UnexpectedExpr(to_owned_string("Unexpected part of a query"), part)),
        }
    }

    /// Evaluates the parts of a query in order, stopping once nothing is
    /// selected.
    fn eval_query_exec(&mut self, parts: &'value Vec<Expr>, stack: Vec<ValueType<'value>>, fuel: usize) -> (r: Result<
        Vec<ValueType<'value>>,
        EvaluationError<'value>,
    >)
        ensures
            *final(self).roots == *old(self).roots,
            final(self).scopes@.len() == old(self).scopes@.len(),
            ({
                let o = eval_query(*old(self).roots, old(self).model(), parts@, items_of(stack@), fuel as nat);
                &&& r matches Ok(v) ==> o.ok && items_of(v@) == o.items && final(self).model() == o.scopes
                    && final(self).missing == (old(self).missing || o.reported)
                &&& (r matches Err(e) && !(e is IoError)) ==> !o.ok && final(self).model() == o.scopes
                    && final(self).missing == (old(self).missing || o.reported)
                &&& !o.ok ==> r is Err
                &&& (r matches Err(e) && e is IoError) ==> o.reported
            }),
            reports_told(old(self).reporter, final(self).reporter, (eval_query(*old(self).roots, old(self).model(), parts@, items_of(stack@), fuel as nat)).told, r),
        decreases fuel, parts@,
    {
        let ghost root = *self.roots;
        let ghost all = eval_query(root, self.model(), parts@, items_of(stack@), fuel as nat);
        let ghost start_missing = self.missing;
        let ghost stack0 = stack@;
        let ghost mut done_told: Seq<Told> = Seq::empty();
        let mut cur = stack;
        let mut i: usize = 0;
        proof {
            assert(parts@.subrange(0, parts@.len() as int) =~= parts@);
            lemma_told_none::<'value, R>(self.reporter);
            assert(done_told + all.told =~= all.told);
        }
        while i < parts.len()
            invariant
                i <= parts@.len(),
                *self.roots == root,
                root == *old(self).roots,
                self.scopes@.len() == old(self).scopes@.len(),
                cur@.len() > 0 || i == 0,
                all == eval_query(root, old(self).model(), parts@, items_of(stack0), fuel as nat),
                stack0 == stack@,
                ({
                    let rest = eval_query(root, self.model(), parts@.subrange(i as int, parts@.len() as int), items_of(cur@), fuel as nat);
                    &&& all.ok == rest.ok
                    &&& all.items == rest.items
                    &&& all.scopes == rest.scopes
                    &&& (start_missing || all.reported) == (self.missing || rest.reported)
                    &&& rest.reported ==> all.reported
                    &&& all.told == done_told + rest.told
                }),
                start_missing == old(self).missing,
                told_in_turn(old(self).reporter, self.reporter, done_told),
            decreases parts@.len() - i,
        {
            let ghost rest_parts = parts@.subrange(i as int, parts@.len() as int);
            proof {
                assert(rest_parts[0] == parts@[i as int]);
                assert(rest_parts.subrange(1, rest_parts.len() as int) =~= parts@.subrange(i + 1, parts@.len() as int));
                assert(decreases_to!(parts@ => parts@[i as int]));
            }
            let ghost cur_model = self.model();
            let ghost cur_stack = items_of(cur@);
            let ghost cur_missing = self.missing;
            let ghost pre = self.reporter;
            let next = self.eval_part_exec(&parts[i], cur, fuel);
            let ghost o = eval_part(root, cur_model, parts@[i as int], cur_stack, fuel as nat);
            let ghost rest = eval_query(root, cur_model, rest_parts, cur_stack, fuel as nat);
            proof {
                assert(rest_parts[0] == parts@[i as int]);
                assert(rest == (if !o.ok || o.items.len() == 0 {
                    o
                } else {
                    let tail = eval_query(root, o.scopes, parts@.subrange(i + 1, parts@.len() as int), o.items, fuel as nat);
                    QOut { reported: o.reported || tail.reported, told: o.told + tail.told, ..tail }
                }));
                lemma_told_then(old(self).reporter, pre, self.reporter, done_told, o.told, next);
                assert(rest.told.len() >= o.told.len() && rest.told.take(o.told.len() as int) == o.told) by {
                    if !(!o.ok || o.items.len() == 0) {
                        let tail = eval_query(root, o.scopes, parts@.subrange(i + 1, parts@.len() as int), o.items, fuel as nat);
                        assert((o.told + tail.told).take(o.told.len() as int) =~= o.told);
                    } else {
                        assert(o.told.take(o.told.len() as int) =~= o.told);
                    }
                }
                assert((done_told + rest.told).take((done_told + o.told).len() as int) =~= done_told + o.told);
            }
            match next {
                Ok(v) => {
                    cur = v;
                    proof {
                        if o.items.len() > 0 {
                            let tail = eval_query(root, o.scopes, parts@.subrange(i + 1, parts@.len() as int), o.items, fuel as nat);
                            assert(done_told + rest.told =~= (done_told + o.told) + tail.told);
                        } else {
                            assert(rest == o);
                            assert(done_told + rest.told =~= (done_told + o.told) + Seq::<Told>::empty());
                        }
                        done_told = done_told + o.told;
                    }
                },
                Err(e) => {
                    proof {
                        if !(e is IoError) {
                            assert(rest == o);
                        } else {
                            lemma_told_error_extends(old(self).reporter, self.reporter, done_told + o.told, all.told, next);
                        }
                    }
                    return Err(e);
                },
            }
            i = i + 1;
            if cur.len() == 0 {
                proof {
                    assert(rest == o);
                    assert(all.told =~= done_told);
                }
                return Ok(cur);
            }
        }
        proof {
            assert(all.told =~= done_told);
        }
        Ok(cur)
    }

    /// Evaluates the right side of a `let`.
    fn eval_assign_exec(&mut self, e: &'value Expr, fuel: usize) -> (r: Result<SingleOrQuery<'value>, EvaluationError<'value>>)
        ensures
            *final(self).roots == *old(self).roots,
            final(self).scopes@.len() == old(self).scopes@.len(),
            ({
                let o = eval_assign(*old(self).roots, old(self).model(), *e, fuel as nat);
                &&& r matches Ok(sq) ==> o.ok && items_of(single_or_query_values(sq)) == o.items
                    && final(self).model() == o.scopes && final(self).missing == (old(self).missing
                    || o.reported)
                &&& (r matches Err(err) && !(err is IoError)) ==> !o.ok && final(self).model() == o.scopes
                    && final(self).missing == (old(self).missing || o.reported)
                &&& !o.ok ==> r is Err
                &&& (r matches Err(err) && err is IoError) ==> o.reported
            }),
            reports_told(old(self).reporter, final(self).reporter, (eval_assign(*old(self).roots, old(self).model(), *e, fuel as nat)).told, r),
        decreases fuel, e,
    {
        let ghost start = self.reporter;
        let ghost model0 = self.model();
        proof {
            lemma_told_none::<'value, R>(self.reporter);
        }
        match e {
            Expr::Select(q) => {
                proof {
                    assert(decreases_to!(*e => (*e)->Select_0));
                    assert(decreases_to!((*e)->Select_0 => q.parts));
                    assert(decreases_to!(q.parts => q.parts@));
                }
                match self.eval_query_exec(&q.parts, Vec::new(), fuel) {
                    Ok(v) => {
                        proof {
                            assert(items_of(Seq::<ValueType<'value>>::empty()) =~= Seq::<Item>::empty());
                        }
                        Ok(SingleOrQuery::Query(v))
                    },
                    Err(err) => Err(err),
                }
            },
            Expr::BinaryOperation(b) => {
                if b.operator != BinaryOperator::Or {
                    return Err(
                        EvaluationError::UnexpectedExpr(
                            to_owned_string("When attempting extract assignment statements got unexpected Expr"),
                            e,
                        ),
                    );
                }
                let ghost lo = eval_assign(*self.roots, model0, b.lhs, fuel as nat);
                let l = self.eval_assign_exec(&b.lhs, fuel);
                let ghost mid = self.reporter;
                let ghost ro = eval_assign(*self.roots, lo.scopes, b.rhs, fuel as nat);
                match l {
                    Err(EvaluationError::IoError(err)) => {
                        proof {
                            assert((lo.told + ro.told).take(lo.told.len() as int) =~= lo.told);
                            lemma_told_error_extends(start, self.reporter, lo.told, lo.told + ro.told, l);
                        }
                        return Err(EvaluationError::IoError(err));
                    },
                    _ => {},
                }
                let rr = self.eval_assign_exec(&b.rhs, fuel);
                proof {
                    lemma_told_then(start, mid, self.reporter, lo.told, ro.told, rr);
                }
                match l {
                    Ok(x) => match rr {
                        Ok(_) => Ok(x),
                        Err(EvaluationError::IoError(err)) => Err(EvaluationError::IoError(err)),
                        Err(_) => Ok(x),
                    },
                    Err(_) => rr,
                }
            },
            Expr::Array(_) | Expr::Mapping(_) => {
                if check_value_literal(e) {
                    proof {
                        assert(items_of(seq![ValueType::LiteralValue(e)]) =~= seq![Item::Literal(*e)]);
                    }
                    Ok(SingleOrQuery::Single(ValueType::LiteralValue(e)))
                } else {
                    Err(EvaluationError::ComputationError(to_owned_string("Only literal values can be assigned in a list or key/value literal")))
                }
            },
            Expr::String(_) | Expr::Regex(_) | Expr::Char(_) | Expr::Bool(_) | Expr::Int(_) | Expr::Float(
                _,
            ) | Expr::RangeInt(_) | Expr::RangeFloat(_) => {
                proof {
                    assert(items_of(seq![ValueType::LiteralValue(e)]) =~= seq![Item::Literal(*e)]);
                }
                Ok(SingleOrQuery::Single(ValueType::LiteralValue(e)))
            },
            _ => Err(
                EvaluationError::UnexpectedExpr(
                    to_owned_string("When attempting extract assignment statements got unexpected Expr"),
                    e,
                ),
            ),
        }
    }
}

// ---------------------------------------------------------------------
// Evaluating queries, comparisons and unary checks
// ---------------------------------------------------------------------

/// The number of `let` definitions in the scopes.
pub open spec fn total_defs(scopes: Seq<ScopeModel>) -> nat
    decreases scopes.len(),
{
    if scopes.len() == 0 {
        0
    } else {
        total_defs(scopes.drop_last()) + scopes.last().defs.len()
    }
}

/// How deep variable resolutions may nest: as many as there are
/// definitions, which no chain of definitions that do not refer back to
/// themselves exceeds.
pub open spec fn fuel_of(scopes: Seq<ScopeModel>) -> nat {
    if total_defs(scopes) > usize::MAX {
        usize::MAX as nat
    } else {
        total_defs(scopes)
    }
}

/// A query expression on a stack: a dotted query part by part, a single
/// name or variable as one part; anything else fails.
pub open spec fn query_outcome(root: Value, scopes: Seq<ScopeModel>, e: Expr, stack: Seq<Item>, fuel: nat) -> QOut {
    match e {
        Expr::Select(q) => eval_query(root, scopes, q.parts@, stack, fuel),
        _ => eval_part(root, scopes, e, stack, fuel),
    }
}

/// What a comparison or unary check gives: whether it went through, its
/// outcome, the scopes after, and whether a value was reported.
pub struct BOut {
    pub ok: bool,
    pub result: bool,
    pub scopes: Seq<ScopeModel>,
    pub reported: bool,
    /// The values reported on the way, in order; the checks of a comparison
    /// are not among them.
    pub told: Seq<Told>,
}

pub open spec fn bfail(scopes: Seq<ScopeModel>, reported: bool, told: Seq<Told>) -> BOut {
    BOut { ok: false, result: false, scopes, reported, told }
}

/// One side of a comparison: a query is evaluated on the stack, anything
/// else is a literal.
pub open spec fn side_outcome(root: Value, scopes: Seq<ScopeModel>, e: Expr, stack: Seq<Item>, fuel: nat) -> (
    ItemSide,
    QOut,
) {
    match e {
        Expr::Select(q) => {
            let o = eval_query(root, scopes, q.parts@, stack, fuel);
            (ItemSide::Query(o.items), o)
        },
        _ => (
            ItemSide::Single(Item::Literal(e)),
            QOut { ok: true, items: Seq::empty(), scopes, reported: false, told: Seq::empty() },
        ),
    }
}

/// A comparison: the left side, then the right side, each a query on the
/// stack or a literal; queries must select data values only; the outcome
/// is `check_outcome`. Other expressions fail.
pub open spec fn binary_outcome(root: Value, scopes: Seq<ScopeModel>, e: Expr, stack: Seq<Item>, fuel: nat) -> BOut {
    match e {
        Expr::BinaryOperation(b) => if !is_comparison(b.operator) {
            bfail(scopes, false, Seq::empty())
        } else {
            let (ls, lo) = side_outcome(root, scopes, b.lhs, stack, fuel);
            if !lo.ok {
                bfail(lo.scopes, lo.reported, lo.told)
            } else {
                let (rs, ro) = side_outcome(root, lo.scopes, b.rhs, stack, fuel);
                if !ro.ok {
                    bfail(ro.scopes, lo.reported || ro.reported, lo.told + ro.told)
                } else if !crate::evaluation::well_shaped(ls) || !crate::evaluation::well_shaped(rs) {
                    bfail(ro.scopes, lo.reported || ro.reported, lo.told + ro.told)
                } else {
                    BOut {
                        ok: true,
                        result: check_outcome(b.operator, ls, rs),
                        scopes: ro.scopes,
                        reported: lo.reported || ro.reported,
                        told: lo.told + ro.told,
                    }
                }
            }
        },
        _ => bfail(scopes, false, Seq::empty()),
    }
}

/// The comparison `e` told the reporter, from `before` to `after`, the
/// values reported while selecting its two sides, in order, and then each
/// of its checks as `check_operator` makes them on what the sides stand
/// for, ending with the result `r`.
pub open spec fn comparison_told<'value, R: EvalReporter<'value>>(
    root: Value,
    scopes: Seq<ScopeModel>,
    e: Expr,
    stack: Seq<Item>,
    fuel: nat,
    before: R,
    after: R,
    r: Result<bool, EvaluationError<'value>>,
) -> bool {
    match e {
        Expr::BinaryOperation(b) => {
            let (ls, lo) = side_outcome(root, scopes, b.lhs, stack, fuel);
            let (rs, ro) = side_outcome(root, lo.scopes, b.rhs, stack, fuel);
            exists|mid: R, l: SingleOrQuery<'value>, rr: SingleOrQuery<'value>|
                crate::evaluation::side_of(l) == ls && crate::evaluation::side_of(rr) == rs
                    && told_in_turn(before, mid, lo.told + ro.told)
                    && #[trigger] crate::evaluation::checks_reported(
                    mid,
                    after,
                    crate::evaluation::check_steps(b.operator, l, rr),
                    e,
                    r,
                )
        },
        _ => false,
    }
}

/// What a comparison told the reporter, by its result: on success, the
/// reports of its sides and then its checks (`comparison_told`); on an
/// error other than the reporter's, the reports of its sides that were
/// made; on an error of the reporter, either a report of a side was
/// answered with it, or the sides' reports went through and a check was.
pub open spec fn binary_told<'value, R: EvalReporter<'value>>(
    root: Value,
    scopes: Seq<ScopeModel>,
    e: Expr,
    stack: Seq<Item>,
    fuel: nat,
    before: R,
    after: R,
    r: Result<bool, EvaluationError<'value>>,
) -> bool {
    let o = binary_outcome(root, scopes, e, stack, fuel);
    match r {
        Ok(_) => comparison_told(root, scopes, e, stack, fuel, before, after, r),
        Err(EvaluationError::IoError(_)) => reports_told(before, after, o.told, r) || comparison_told(
            root,
            scopes,
            e,
            stack,
            fuel,
            before,
            after,
            r,
        ),
        Err(_) => reports_told(before, after, o.told, r),
    }
}

/// What a comparison told does not depend on the outcome it reached.
proof fn lemma_comparison_told_any_result<'value, R: EvalReporter<'value>>(
    root: Value,
    scopes: Seq<ScopeModel>,
    e: Expr,
    stack: Seq<Item>,
    fuel: nat,
    before: R,
    after: R,
    b1: bool,
    b2: bool,
)
    requires
        comparison_told(root, scopes, e, stack, fuel, before, after, Ok::<bool, EvaluationError<'value>>(b1)),
    ensures
        comparison_told(root, scopes, e, stack, fuel, before, after, Ok::<bool, EvaluationError<'value>>(b2)),
{
    match e {
        Expr::BinaryOperation(b) => {
            let (ls, lo) = side_outcome(root, scopes, b.lhs, stack, fuel);
            let (rs, ro) = side_outcome(root, lo.scopes, b.rhs, stack, fuel);
            let (mid, l, rr) = choose|mid: R, l: SingleOrQuery<'value>, rr: SingleOrQuery<'value>|
                crate::evaluation::side_of(l) == ls && crate::evaluation::side_of(rr) == rs
                    && told_in_turn(before, mid, lo.told + ro.told)
                    && #[trigger] crate::evaluation::checks_reported(
                    mid,
                    after,
                    crate::evaluation::check_steps(b.operator, l, rr),
                    e,
                    Ok::<bool, EvaluationError<'value>>(b1),
                );
            assert(crate::evaluation::checks_reported(
                mid,
                after,
                crate::evaluation::check_steps(b.operator, l, rr),
                e,
                Ok::<bool, EvaluationError<'value>>(b2),
            ));
        },
        _ => {},
    }
}

/// `not` of a comparison.
pub open spec fn negated_comparison(e: Expr) -> bool {
    e matches Expr::UnaryOperation(u) && u.expr is BinaryOperation && u.operator == UnaryOperator::Not
}

/// A unary check: `not` of a comparison negates it; on a query, the check
/// of what it selects holds when the check holds and a value was reported
/// missing or of the wrong kind while selecting. Other forms fail.
pub open spec fn unary_eval(root: Value, scopes: Seq<ScopeModel>, e: Expr, stack: Seq<Item>, fuel: nat) -> BOut {
    match e {
        Expr::UnaryOperation(u) => match u.expr {
            Expr::BinaryOperation(_) => if u.operator == UnaryOperator::Not {
                let b = binary_outcome(root, scopes, u.expr, stack, fuel);
                BOut { result: !b.result, ..b }
            } else {
                bfail(scopes, false, Seq::empty())
            },
            Expr::Select(q) => {
                let o = eval_query(root, scopes, q.parts@, stack, fuel);
                if !o.ok {
                    bfail(o.scopes, o.reported, o.told)
                } else {
                    BOut {
                        ok: true,
                        result: unary_outcome(o.items, u.operator) && o.reported,
                        scopes: o.scopes,
                        reported: o.reported,
                        told: o.told,
                    }
                }
            },
            _ => bfail(scopes, false, Seq::empty()),
        },
        _ => bfail(scopes, false, Seq::empty()),
    }
}

impl<'value, R: EvalReporter<'value>> RootScopeHierarchy<'value, R> {
    /// The nesting allowed for variable resolutions.
    fn definitions_fuel(&self) -> (r: usize)
        ensures
            r == fuel_of(self.model()),
    {
        let ghost m = self.model();
        let mut acc: usize = 0;
        let mut i: usize = 0;
        while i < self.scopes.len()
            invariant
                i <= self.scopes@.len(),
                m == self.model(),
                m.len() == self.scopes@.len(),
                acc == fuel_of(m.subrange(0, i as int)),
            decreases self.scopes@.len() - i,
        {
            proof {
                let next = m.subrange(0, i + 1);
                assert(next.drop_last() =~= m.subrange(0, i as int));
                assert(next.last() == m[i as int]);
                assert(m[i as int] == self.scopes@[i as int].model());
                assert(m[i as int].defs.len() == self.scopes@[i as int].variable_definitions@.len());
            }
            let n = self.scopes[i].variable_definitions.len();
            acc = if acc > usize::MAX - n {
                usize::MAX
            } else {
                acc + n
            };
            i = i + 1;
        }
        proof {
            assert(m.subrange(0, m.len() as int) =~= m);
        }
        acc
    }

    /// Evaluates a query expression on a stack: a dotted query part by
    /// part, a name or a variable as one part. The reporter is told exactly
    /// the values missing or of the wrong kind that the evaluation meets, in
    /// order, each with the query part it was met in (`told` of the
    /// outcome); nothing is told where a key is found, under its own
    /// spelling or a case conversion of it. An error of the reporter comes
    /// back only as its answer to one of these reports.
    pub fn query(&mut self, expr: &'value Expr, stack: Vec<ValueType<'value>>) -> (r: Result<
        Vec<ValueType<'value>>,
        EvaluationError<'value>,
    >)
        ensures
            *final(self).roots == *old(self).roots,
            final(self).scopes@.len() == old(self).scopes@.len(),
            ({
                let o = query_outcome(*old(self).roots, old(self).model(), *expr, items_of(stack@), fuel_of(old(self).model()));
                &&& r matches Ok(v) ==> o.ok && items_of(v@) == o.items && final(self).model() == o.scopes
                    && final(self).missing == (old(self).missing || o.reported)
                &&& (r matches Err(e) && !(e is IoError)) ==> !o.ok && final(self).model() == o.scopes
                    && final(self).missing == (old(self).missing || o.reported)
                &&& !o.ok ==> r is Err
                &&& (r matches Err(e) && e is IoError) ==> o.reported
                &&& o.ok && !o.reported ==> r is Ok
            }),
            reports_told(
                old(self).reporter,
                final(self).reporter,
                query_outcome(*old(self).roots, old(self).model(), *expr, items_of(stack@), fuel_of(old(self).model())).told,
                r,
            ),
    {
        let fuel = self.definitions_fuel();
        match expr {
            Expr::Select(q) => self.eval_query_exec(&q.parts, stack, fuel),
            _ => self.eval_part_exec(expr, stack, fuel),
        }
    }

    /// Evaluates one side of a comparison.
    fn side_exec(&mut self, e: &'value Expr, stack: &Vec<ValueType<'value>>, fuel: usize) -> (r: Result<
        SingleOrQuery<'value>,
        EvaluationError<'value>,
    >)
        ensures
            *final(self).roots == *old(self).roots,
            final(self).scopes@.len() == old(self).scopes@.len(),
            ({
                let (side, o) = side_outcome(*old(self).roots, old(self).model(), *e, items_of(stack@), fuel as nat);
                &&& r matches Ok(sq) ==> o.ok && crate::evaluation::side_of(sq) == side && final(self).model()
                    == o.scopes && final(self).missing == (old(self).missing || o.reported)
                &&& (r matches Err(err) && !(err is IoError)) ==> !o.ok && final(self).model() == o.scopes
                    && final(self).missing == (old(self).missing || o.reported)
                &&& !o.ok ==> r is Err
                &&& (r matches Err(err) && err is IoError) ==> o.reported
            }),
            reports_told(
                old(self).reporter,
                final(self).reporter,
                side_outcome(*old(self).roots, old(self).model(), *e, items_of(stack@), fuel as nat).1.told,
                r,
            ),
    {
        proof {
            lemma_told_none::<'value, R>(self.reporter);
        }
        match e {
            Expr::Select(q) => match self.eval_query_exec(&q.parts, copy_values(stack), fuel) {
                Ok(v) => Ok(SingleOrQuery::Query(v)),
                Err(err) => Err(err),
            },
            _ => Ok(SingleOrQuery::Single(ValueType::LiteralValue(e))),
        }
    }

    /// Evaluates a comparison of queries and literals on a stack, each check
    /// reported with its outcome as `check_operator` reports it. An error of
    /// the reporter comes from a value reported while selecting a side, or
    /// from the report of one of the checks.
    pub fn binary_operation(&mut self, expr: &'value Expr, stack: Vec<ValueType<'value>>) -> (r: Result<
        bool,
        EvaluationError<'value>,
    >)
        ensures
            *final(self).roots == *old(self).roots,
            final(self).scopes@.len() == old(self).scopes@.len(),
            ({
                let o = binary_outcome(*old(self).roots, old(self).model(), *expr, items_of(stack@), fuel_of(old(self).model()));
                &&& r matches Ok(b) ==> o.ok && b == o.result && final(self).model() == o.scopes
                    && final(self).missing == (old(self).missing || o.reported)
                &&& (r matches Err(e) && !(e is IoError)) ==> !o.ok && final(self).model() == o.scopes
                    && final(self).missing == (old(self).missing || o.reported)
                &&& !o.ok ==> r is Err
            }),
            binary_told(
                *old(self).roots,
                old(self).model(),
                *expr,
                items_of(stack@),
                fuel_of(old(self).model()),
                old(self).reporter,
                final(self).reporter,
                r,
            ),
    {
        let fuel = self.definitions_fuel();
        self.binary_with_fuel(expr, stack, fuel)
    }

    fn binary_with_fuel(&mut self, expr: &'value Expr, stack: Vec<ValueType<'value>>, fuel: usize) -> (r: Result<
        bool,
        EvaluationError<'value>,
    >)
        ensures
            *final(self).roots == *old(self).roots,
            final(self).scopes@.len() == old(self).scopes@.len(),
            ({
                let o = binary_outcome(*old(self).roots, old(self).model(), *expr, items_of(stack@), fuel as nat);
                &&& r matches Ok(b) ==> o.ok && b == o.result && final(self).model() == o.scopes
                    && final(self).missing == (old(self).missing || o.reported)
                &&& (r matches Err(e) && !(e is IoError)) ==> !o.ok && final(self).model() == o.scopes
                    && final(self).missing == (old(self).missing || o.reported)
                &&& !o.ok ==> r is Err
            }),
            binary_told(
                *old(self).roots,
                old(self).model(),
                *expr,
                items_of(stack@),
                fuel as nat,
                old(self).reporter,
                final(self).reporter,
                r,
            ),
    {
        let ghost start = self.reporter;
        let ghost root = *self.roots;
        let ghost model0 = self.model();
        proof {
            lemma_told_none::<'value, R>(self.reporter);
        }
        match expr {
            Expr::BinaryOperation(b) => {
                let op = b.operator;
                let comparison = match op {
                    BinaryOperator::Equals | BinaryOperator::NotEquals | BinaryOperator::Greater
                    | BinaryOperator::GreaterThanEquals | BinaryOperator::Lesser
                    | BinaryOperator::LesserThanEquals | BinaryOperator::In | BinaryOperator::NotIn => true,
                    _ => false,
                };
                if !comparison {
                    return Err(EvaluationError::UnexpectedExpr(to_owned_string("Not a comparison"), expr));
                }
                let ghost stk = items_of(stack@);
                let ghost lo = side_outcome(root, model0, b.lhs, stk, fuel as nat).1;
                let ghost ro = side_outcome(root, lo.scopes, b.rhs, stk, fuel as nat).1;
                let ghost o = binary_outcome(root, model0, *expr, stk, fuel as nat);
                let left = self.side_exec(&b.lhs, &stack, fuel);
                let ghost m1 = self.reporter;
                let lhs = match left {
                    Ok(side) => side,
                    Err(e) => {
                        proof {
                            if e is IoError && lo.ok {
                                assert((lo.told + ro.told).take(lo.told.len() as int) =~= lo.told);
                                lemma_told_error_extends(start, self.reporter, lo.told, lo.told + ro.told, left);
                            }
                        }
                        return Err(e);
                    },
                };
                let right = self.side_exec(&b.rhs, &stack, fuel);
                proof {
                    lemma_told_then(start, m1, self.reporter, lo.told, ro.told, right);
                }
                let rhs = match right {
                    Ok(side) => side,
                    Err(e) => {
                        return Err(e);
                    },
                };
                if !side_well_shaped(&lhs) || !side_well_shaped(&rhs) {
                    return Err(
                        EvaluationError::ComputationError(
                            to_owned_string("A query in a comparison selected a literal"),
                        ),
                    );
                }
                let ghost mid = self.reporter;
                let ghost l = lhs;
                let ghost rr = rhs;
                let r = crate::evaluation::check_operator(op, expr, lhs, rhs, &mut self.reporter);
                proof {
                    assert(crate::evaluation::checks_reported(
                        mid,
                        self.reporter,
                        crate::evaluation::check_steps(b.operator, l, rr),
                        *expr,
                        r,
                    ));
                    assert(told_in_turn(start, mid, lo.told + ro.told));
                    assert(comparison_told(root, model0, *expr, stk, fuel as nat, start, self.reporter, r));
                }
                r
            },
            _ => Err(EvaluationError::UnexpectedExpr(to_owned_string("Not a comparison"), expr)),
        }
    }

    /// Evaluates a unary check on a stack.
    pub fn unary_operation(&mut self, expr: &'value Expr, stack: Vec<ValueType<'value>>) -> (r: Result<
        bool,
        EvaluationError<'value>,
    >)
        ensures
            *final(self).roots == *old(self).roots,
            final(self).scopes@.len() == old(self).scopes@.len(),
            ({
                let o = unary_eval(*old(self).roots, old(self).model(), *expr, items_of(stack@), fuel_of(old(self).model()));
                &&& r matches Ok(b) ==> o.ok && b == o.result && final(self).model() == o.scopes
                    && final(self).missing == (old(self).missing || o.reported)
                &&& (r matches Err(e) && !(e is IoError)) ==> !o.ok && final(self).model() == o.scopes
                &&& !o.ok ==> r is Err
            }),
            ({
                let o = unary_eval(*old(self).roots, old(self).model(), *expr, items_of(stack@), fuel_of(old(self).model()));
                if negated_comparison(*expr) {
                    binary_told(
                        *old(self).roots,
                        old(self).model(),
                        expr->UnaryOperation_0.expr,
                        items_of(stack@),
                        fuel_of(old(self).model()),
                        old(self).reporter,
                        final(self).reporter,
                        r,
                    )
                } else {
                    reports_told(old(self).reporter, final(self).reporter, o.told, r)
                }
            }),
    {
        proof {
            lemma_told_none::<'value, R>(self.reporter);
        }
        let fuel = self.definitions_fuel();
        match expr {
            Expr::UnaryOperation(u) => match &u.expr {
                Expr::BinaryOperation(_) => {
                    if u.operator == UnaryOperator::Not {
                        let ghost start = self.reporter;
                        let ghost model0 = self.model();
                        let ghost stk = items_of(stack@);
                        let inner = self.binary_with_fuel(&u.expr, stack, fuel);
                        match inner {
                            Ok(b) => {
                                proof {
                                    lemma_comparison_told_any_result(
                                        *self.roots,
                                        model0,
                                        u.expr,
                                        stk,
                                        fuel as nat,
                                        start,
                                        self.reporter,
                                        b,
                                        !b,
                                    );
                                }
                                Ok(!b)
                            },
                            Err(e) => Err(e),
                        }
                    } else {
                        Err(EvaluationError::UnexpectedExpr(to_owned_string("Unexpected unary check"), expr))
                    }
                },
                Expr::Select(q) => {
                    let outer = self.missing;
                    self.missing = false;
                    let values = self.eval_query_exec(&q.parts, stack, fuel);
                    let reported = self.missing;
                    self.missing = outer || reported;
                    match values {
                        Ok(v) => Ok(crate::evaluation::check_unary_operator(v, u.operator) && reported),
                        Err(e) => Err(e),
                    }
                },
                _ => Err(EvaluationError::UnexpectedExpr(to_owned_string("Unexpected unary check"), expr)),
            },
            _ => Err(EvaluationError::UnexpectedExpr(to_owned_string("Unexpected unary check"), expr)),
        }
    }
}

/// Whether a side of a comparison has the shape a comparison checks: a
/// query that selected data values only, or a literal.
fn side_well_shaped<'value>(side: &SingleOrQuery<'value>) -> (r: bool)
    ensures
        r == crate::evaluation::well_shaped(crate::evaluation::side_of(*side)),
{
    match side {
        SingleOrQuery::Single(ValueType::LiteralValue(_)) => true,
        SingleOrQuery::Single(ValueType::DataValue(_)) => false,
        SingleOrQuery::Query(vs) => {
            let mut i: usize = 0;
            while i < vs.len()
                invariant
                    i <= vs@.len(),
                    crate::evaluation::side_of(*side) == ItemSide::Query(items_of(vs@)),
                    forall|k: int| 0 <= k < i ==> (#[trigger] items_of(vs@)[k]) is Data,
                decreases vs@.len() - i,
            {
                match vs[i] {
                    ValueType::DataValue(_) => {},
                    ValueType::LiteralValue(_) => {
                        proof {
                            assert(!(items_of(vs@)[i as int] is Data));
                        }
                        return false;
                    },
                }
                i = i + 1;
            }
            true
        },
    }
}

// ---------------------------------------------------------------------
// Gathering the `let` definitions of an expression
// ---------------------------------------------------------------------

/// The `let` definitions an expression holds, in order: those of a file,
/// of the clauses of a rule, a `let` itself, those of a `when` condition and
/// its clauses, those of a filter. Any other expression among them makes
/// the gathering fail (`None`).
pub open spec fn let_exprs(e: Expr) -> Option<Seq<LetExpr>>
    decreases e,
{
    match e {
        Expr::File(f) => Some(f.assignments@),
        Expr::Rule(r) => lets_of(r.block.assignments@),
        Expr::Let(l) => Some(seq![*l]),
        Expr::When(w) => match let_exprs(w.when) {
            Some(a) => match lets_of(w.block.assignments@) {
                Some(b) => Some(a + b),
                None => None,
            },
            None => None,
        },
        Expr::Filter(b) => lets_of(b.assignments@),
        _ => None,
    }
}

pub open spec fn lets_of(xs: Seq<Expr>) -> Option<Seq<LetExpr>>
    decreases xs,
{
    if xs.len() == 0 {
        Some(Seq::empty())
    } else {
        match lets_of(xs.subrange(0, xs.len() - 1)) {
            Some(a) => match let_exprs(xs[xs.len() - 1]) {
                Some(b) => Some(a + b),
                None => None,
            },
            None => None,
        }
    }
}

/// The definitions after defining each of `lets` in order.
pub open spec fn define_all(defs: Seq<(Seq<char>, LetExpr)>, lets: Seq<LetExpr>) -> Seq<(Seq<char>, LetExpr)>
    decreases lets.len(),
{
    if lets.len() == 0 {
        defs
    } else {
        set_entry(define_all(defs, lets.drop_last()), lets.last().name@, lets.last())
    }
}

pub proof fn lemma_define_all_append(defs: Seq<(Seq<char>, LetExpr)>, a: Seq<LetExpr>, b: Seq<LetExpr>)
    ensures
        define_all(defs, a + b) == define_all(define_all(defs, a), b),
    decreases b.len(),
{
    if b.len() == 0 {
        assert(a + b =~= a);
    } else {
        assert((a + b).drop_last() =~= a + b.drop_last());
        assert((a + b).last() == b.last());
        lemma_define_all_append(defs, a, b.drop_last());
    }
}

/// Gathers the `let` definitions of an expression into `scope`, each under
/// its name, a later one replacing an earlier one of the same name.
pub fn extract_variables<'value>(expr: &'value Expr, scope: Scope<'value>) -> (r: Result<Scope<'value>, EvaluationError<'value>>)
    ensures
        let_exprs(*expr) is Some <==> r is Ok,
        r matches Ok(s) ==> s.model().defs == define_all(scope.model().defs, let_exprs(*expr).unwrap())
            && s.model().vars == scope.model().vars,
        r matches Err(e) ==> e is UnexpectedExpr,
    decreases expr,
{
    let mut sc = scope;
    let ghost d0 = sc.model().defs;
    let ghost v0 = sc.model().vars;
    match expr {
        Expr::File(f) => {
            let mut j: usize = 0;
            while j < f.assignments.len()
                invariant
                    j <= f.assignments@.len(),
                    sc.model().defs == define_all(d0, f.assignments@.subrange(0, j as int)),
                    sc.model().vars == v0,
                decreases f.assignments@.len() - j,
            {
                proof {
                    let next = f.assignments@.subrange(0, j + 1);
                    assert(next.drop_last() =~= f.assignments@.subrange(0, j as int));
                }
                sc.define(&f.assignments[j]);
                j = j + 1;
            }
            proof {
                assert(f.assignments@.subrange(0, f.assignments@.len() as int) =~= f.assignments@);
            }
            Ok(sc)
        },
        Expr::Rule(r) => extract_from_all(expr, &r.block.assignments, sc),
        Expr::Let(l) => {
            sc.define(l);
            proof {
                assert(seq![**l].drop_last() =~= Seq::<LetExpr>::empty());
                assert(let_exprs(*expr) == Some(seq![**l]));
                let one = seq![**l];
                assert(one.last() == **l);
                assert(define_all(d0, one.drop_last()) == d0);
                assert(define_all(d0, one) == set_entry(d0, l.name@, **l));
            }
            Ok(sc)
        },
        Expr::When(w) => {
            proof {
                assert(decreases_to!(*expr => (*expr)->When_0));
                assert(decreases_to!((*expr)->When_0 => w.when));
            }
            let sc = match extract_variables(&w.when, sc) {
                Ok(s) => s,
                Err(e) => {
                    return Err(e);
                },
            };
            let ghost d1 = sc.model().defs;
            let r = extract_from_all(expr, &w.block.assignments, sc);
            proof {
                if r is Ok {
                    lemma_define_all_append(d0, let_exprs(w.when).unwrap(), lets_of(w.block.assignments@).unwrap());
                }
            }
            r
        },
        Expr::Filter(b) => extract_from_all(expr, &b.assignments, sc),
        _ => Err(
            EvaluationError::UnexpectedExpr(
                to_owned_string("When attempting extract variable assignment statements got unexpected Expr"),
                expr,
            ),
        ),
    }
}

/// Gathers the `let` definitions of each of `xs` in turn, which stand
/// inside `expr`.
fn extract_from_all<'value>(expr: &'value Expr, xs: &'value Vec<Expr>, scope: Scope<'value>) -> (r: Result<
    Scope<'value>,
    EvaluationError<'value>,
>)
    requires
        forall|k: int| 0 <= k < xs@.len() ==> decreases_to!(*expr => #[trigger] xs@[k]),
    ensures
        lets_of(xs@) is Some <==> r is Ok,
        r matches Ok(s) ==> s.model().defs == define_all(scope.model().defs, lets_of(xs@).unwrap())
            && s.model().vars == scope.model().vars,
        r matches Err(e) ==> e is UnexpectedExpr,
    decreases expr, 0nat,
{
    let mut sc = scope;
    let ghost d0 = sc.model().defs;
    let ghost v0 = sc.model().vars;
    let mut j: usize = 0;
    while j < xs.len()
        invariant
            j <= xs@.len(),
            forall|k: int| 0 <= k < xs@.len() ==> decreases_to!(*expr => #[trigger] xs@[k]),
            lets_of(xs@.subrange(0, j as int)) is Some,
            sc.model().defs == define_all(d0, lets_of(xs@.subrange(0, j as int)).unwrap()),
            sc.model().vars == v0,
        decreases xs@.len() - j,
    {
        let ghost next = xs@.subrange(0, j + 1);
        proof {
            assert(next.subrange(0, next.len() - 1) =~= xs@.subrange(0, j as int));
            assert(next[next.len() - 1] == xs@[j as int]);
            assert(decreases_to!(*expr => xs@[j as int]));
        }
        let ghost before = sc.model().defs;
        sc = match extract_variables(&xs[j], sc) {
            Ok(s) => s,
            Err(e) => {
                proof {
                    lemma_lets_of_stops(xs@, (j + 1) as nat);
                }
                return Err(e);
            },
        };
        proof {
            lemma_define_all_append(
                d0,
                lets_of(xs@.subrange(0, j as int)).unwrap(),
                let_exprs(xs@[j as int]).unwrap(),
            );
        }
        j = j + 1;
    }
    proof {
        assert(xs@.subrange(0, xs@.len() as int) =~= xs@);
    }
    Ok(sc)
}

proof fn lemma_lets_of_stops(xs: Seq<Expr>, n: nat)
    requires
        n <= xs.len(),
        lets_of(xs.subrange(0, n as int)) is None,
    ensures
        lets_of(xs) is None,
    decreases xs.len() - n,
{
    if n < xs.len() {
        let next = xs.subrange(0, n as int + 1);
        assert(next.subrange(0, next.len() - 1) =~= xs.subrange(0, n as int));
        lemma_lets_of_stops(xs, n + 1);
    } else {
        assert(xs.subrange(0, n as int) =~= xs);
    }
}

impl<'value, R: EvalReporter<'value>> RootScopeHierarchy<'value, R> {
    /// Makes the `let` definitions of `expr` a new innermost scope.
    pub fn add_scope_of(&mut self, expr: &'value Expr) -> (r: Result<(), EvaluationError<'value>>)
        ensures
            let_exprs(*expr) is Some <==> r is Ok,
            r is Ok ==> final(self).model() == seq![
                ScopeModel { defs: define_all(Seq::empty(), let_exprs(*expr).unwrap()), vars: Seq::empty() },
            ] + old(self).model(),
            r is Err ==> final(self).model() == old(self).model(),
            *final(self).roots == *old(self).roots,
            final(self).missing == old(self).missing,
    {
        let fresh = Scope::new();
        proof {
            assert(fresh.model().defs =~= Seq::<(Seq<char>, LetExpr)>::empty());
            assert(fresh.model().vars =~= Seq::<(Seq<char>, Seq<Item>)>::empty());
        }
        match extract_variables(expr, fresh) {
            Ok(scope) => {
                self.add_scope(scope);
                Ok(())
            },
            Err(e) => Err(e),
        }
    }
}

} // verus!
