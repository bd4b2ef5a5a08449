//! Laws of the library: what holds of its functions across all inputs, or
//! across calls.
use vstd::prelude::*;
use std::cmp::Ordering;
use crate::assoc::{keys_unique, key_index, lemma_key_index};
use crate::exprs::{Expr, BinaryOperator, UnaryOperator, StringExpr};
use crate::parser::lexical::{spec_unary_comparison_operator, first_unary_keyword, unary_keyword, skip_ws, tag_at, spec_keyword_or_symbol, spec_kw_trailing, first_tag, spec_strip_tag, spec_ws_or_comment, spec_ws1, ws_end, is_ws, spec_binary_comparison_operator, comparison_symbol};
use crate::value::{Value, convert, convert_list, convert_entries, models, entry_models, lemma_models, lemma_entry_models};
use crate::value_order::{value_order, ord_of};
use crate::compare::{value_eq, values_eq, value_entries_found, text_order, value_eq_expr, all_found_in, any_equal, entries_found_in};
use crate::equality::{float_text_eq, expr_eq, exprs_eq, entries_found, lookup};
use crate::numeric::rat_order;
use crate::text::lex_order;
use crate::evaluation::{
    Item,
    unary_outcome,
    operator_value,
    operator_literal_with_value,
    operator_literal,
    operator_both_value,
};
use crate::data::{step, ReaderModel, DataEvent, fold_pairs, scalar_model, tag_view, ScalarStyle, yaml_scalar_of, YamlKind};
use crate::value::ValueModel;
use crate::types::Location;
use crate::query::{
    key_one,
    index_one,
    star,
    Note,
    ScopeModel,
    find_first,
    find_from,
    lemma_find_from,
    set_entry,
    cached_from,
    def_scope_from,
    eval_part,
    apply_values,
    QOut,
    this_name,
    Told,
    reports_told,
    told_step,
};
use crate::evaluation::{EvalReporter, EvaluationError, ValueType};

verus! {

/// The order read the other way round.
pub open spec fn reverse_order(o: Option<Ordering>) -> Option<Ordering> {
    match o {
        Some(Ordering::Less) => Some(Ordering::Greater),
        Some(Ordering::Greater) => Some(Ordering::Less),
        other => other,
    }
}

proof fn lemma_lex_order_antisymmetric(a: Seq<char>, b: Seq<char>)
    ensures
        lex_order(a, b) == -lex_order(b, a),
        -1 <= lex_order(a, b) <= 1,
    decreases a.len(),
{
    if a.len() > 0 && b.len() > 0 && a[0] == b[0] {
        lemma_lex_order_antisymmetric(a.drop_first(), b.drop_first());
    }
}

proof fn lemma_rat_order_antisymmetric(n1: int, e1: int, n2: int, e2: int)
    ensures
        rat_order(n1, e1, n2, e2) == -rat_order(n2, e2, n1, e1),
        -1 <= rat_order(n1, e1, n2, e2) <= 1,
{
}

proof fn lemma_float_text_eq_symmetric(t1: Seq<char>, t2: Seq<char>)
    ensures
        float_text_eq(t1, t2) == float_text_eq(t2, t1),
{
    match (crate::numeric::decimal_of_text(t1), crate::numeric::decimal_of_text(t2)) {
        (Some((n1, d1, e1)), Some((n2, d2, e2))) => {
            lemma_rat_order_antisymmetric(
                crate::parser::values::signed_value(n1, d1),
                e1,
                crate::parser::values::signed_value(n2, d2),
                e2,
            );
        },
        _ => {},
    }
}

/// Comparing two values the other way round gives the reverse order:
/// `a < b` exactly when `b > a`, values equal one way are equal the other,
/// and values unordered one way are unordered the other.
pub proof fn law_value_order_reverses(a: Value, b: Value)
    ensures
        value_order(b, a) == reverse_order(value_order(a, b)),
{
    match (a, b) {
        (Value::String(x, _), Value::String(y, _)) => lemma_lex_order_antisymmetric(x@, y@),
        (Value::Regex(x, _), Value::Regex(y, _)) => lemma_lex_order_antisymmetric(x@, y@),
        (Value::Float(x, _), Value::Float(y, _)) => {
            match (crate::numeric::decimal_of_text(x@), crate::numeric::decimal_of_text(y@)) {
                (Some((n1, d1, e1)), Some((n2, d2, e2))) => {
                    lemma_rat_order_antisymmetric(
                        crate::parser::values::signed_value(n1, d1),
                        e1,
                        crate::parser::values::signed_value(n2, d2),
                        e2,
                    );
                },
                _ => {},
            }
        },
        (Value::RangeFloat(x, _), Value::RangeFloat(y, _)) => {
            lemma_float_text_eq_symmetric(x.lower@, y.lower@);
            lemma_float_text_eq_symmetric(x.upper@, y.upper@);
        },
        _ => {},
    }
}

proof fn lemma_float_text_eq_reflexive(t: Seq<char>)
    requires
        crate::numeric::ordered_float(t),
    ensures
        float_text_eq(t, t),
{
}

/// Every float in the value denotes a number in the order: a decimal or an
/// infinity, no NaN.
pub open spec fn numbers_ordered(v: Value) -> bool
    decreases v,
{
    match v {
        Value::Float(t, _) => crate::numeric::ordered_float(t@),
        Value::RangeFloat(r, _) => crate::numeric::ordered_float(r.lower@) && crate::numeric::ordered_float(
            r.upper@,
        ),
        Value::List(vs, _) => forall|i: int| 0 <= i < vs@.len() ==> numbers_ordered(#[trigger] vs@[i]),
        Value::Mapping(es, _) => forall|i: int| 0 <= i < es@.len() ==> numbers_ordered(#[trigger] es@[i].1),
        _ => true,
    }
}

/// Every value of well-formed data equals itself: equality of values is
/// reflexive, floats and mappings included, wherever no float is NaN.
pub proof fn law_value_eq_reflexive(a: Value)
    requires
        a.wf(),
        numbers_ordered(a),
    ensures
        value_eq(a, a),
    decreases a, 0nat,
{
    match a {
        Value::List(x, _) => {
            assert forall|i: int| 0 <= i < x@.len() implies (#[trigger] x@[i]).wf() && numbers_ordered(x@[i]) by {}
            lemma_values_eq_reflexive(x@);
        },
        Value::Mapping(x, _) => {
            lemma_entries_found_reflexive(x@, 0);
            assert(x@.subrange(0, x@.len() as int) =~= x@);
        },
        Value::Float(t, _) => lemma_float_text_eq_reflexive(t@),
        Value::RangeFloat(r, _) => {
            lemma_float_text_eq_reflexive(r.lower@);
            lemma_float_text_eq_reflexive(r.upper@);
        },
        _ => {},
    }
}

proof fn lemma_values_eq_reflexive(x: Seq<Value>)
    requires
        forall|i: int| 0 <= i < x.len() ==> (#[trigger] x[i]).wf() && numbers_ordered(x[i]),
    ensures
        values_eq(x, x),
    decreases x, 0nat,
{
    if x.len() > 0 {
        let t = x.subrange(1, x.len() as int);
        assert(decreases_to!(x => x[0]));
        law_value_eq_reflexive(x[0]);
        assert forall|i: int| 0 <= i < t.len() implies (#[trigger] t[i]).wf() && numbers_ordered(t[i]) by {
            assert(t[i] == x[i + 1]);
        }
        lemma_values_eq_reflexive(t);
    }
}

proof fn lemma_entries_found_reflexive(y: Seq<(String, Value)>, k: nat)
    requires
        keys_unique(y),
        forall|i: int| 0 <= i < y.len() ==> (#[trigger] y[i]).1.wf() && numbers_ordered(y[i].1),
        k <= y.len(),
    ensures
        value_entries_found(y.subrange(k as int, y.len() as int), y),
    decreases y, y.len() - k,
{
    let s = y.subrange(k as int, y.len() as int);
    if k < y.len() {
        assert(s[0] == y[k as int]);
        lemma_key_index(y, y[k as int].0@);
        assert(key_index(y, y[k as int].0@) == k);
        assert(decreases_to!(y => y[k as int]));
        law_value_eq_reflexive(y[k as int].1);
        lemma_entries_found_reflexive(y, k + 1);
        assert(s.subrange(1, s.len() as int) =~= y.subrange(k as int + 1, y.len() as int));
    }
}

/// Each unary check and its negation answer opposite ways on the same
/// values: `NOT EXISTS` against `EXISTS`, `NOT EMPTY` against `EMPTY`, and
/// each `IS_NOT_...` against its `IS_...`.
pub proof fn law_unary_negations(values: Seq<Item>)
    ensures
        unary_outcome(values, UnaryOperator::NotExists) == !unary_outcome(values, UnaryOperator::Exists),
        unary_outcome(values, UnaryOperator::NotEmpty) == !unary_outcome(values, UnaryOperator::Empty),
        unary_outcome(values, UnaryOperator::IsNotString) == !unary_outcome(values, UnaryOperator::IsString),
        unary_outcome(values, UnaryOperator::IsNotList) == !unary_outcome(values, UnaryOperator::IsList),
        unary_outcome(values, UnaryOperator::IsNotMap) == !unary_outcome(values, UnaryOperator::IsMap),
        unary_outcome(values, UnaryOperator::IsNotInt) == !unary_outcome(values, UnaryOperator::IsInt),
        unary_outcome(values, UnaryOperator::IsNotFloat) == !unary_outcome(values, UnaryOperator::IsFloat),
        unary_outcome(values, UnaryOperator::IsNotBool) == !unary_outcome(values, UnaryOperator::IsBool),
        unary_outcome(values, UnaryOperator::IsNotRegex) == !unary_outcome(values, UnaryOperator::IsRegex),
{
}

/// `!=` answers the opposite of `==`, and `NOT IN` the opposite of `IN`,
/// whichever sides are literals and which are values.
pub proof fn law_negated_comparisons(v: Value, w: Value, l: Expr, m: Expr)
    ensures
        operator_value(BinaryOperator::NotEquals, v, l) == !operator_value(BinaryOperator::Equals, v, l),
        operator_value(BinaryOperator::NotIn, v, l) == !operator_value(BinaryOperator::In, v, l),
        operator_literal_with_value(BinaryOperator::NotEquals, l, v) == !operator_literal_with_value(
            BinaryOperator::Equals,
            l,
            v,
        ),
        operator_literal_with_value(BinaryOperator::NotIn, l, v) == !operator_literal_with_value(
            BinaryOperator::In,
            l,
            v,
        ),
        operator_literal(BinaryOperator::NotEquals, l, m) == !operator_literal(BinaryOperator::Equals, l, m),
        operator_literal(BinaryOperator::NotIn, l, m) == !operator_literal(BinaryOperator::In, l, m),
        operator_both_value(BinaryOperator::NotEquals, v, w) == !operator_both_value(BinaryOperator::Equals, v, w),
        operator_both_value(BinaryOperator::NotIn, v, w) == !operator_both_value(BinaryOperator::In, v, w),
{
}

/// Converting a literal to a value gives the same value whether or not
/// regular expressions are admitted, wherever the conversion that does not
/// admit them succeeds.
pub proof fn law_conversions_agree(e: Expr)
    ensures
        convert(e, false) is Some ==> convert(e, true) == convert(e, false),
    decreases e,
{
    match e {
        Expr::Mapping(m) => lemma_convert_entries_agree(m.entries@),
        Expr::Array(a) => lemma_convert_list_agree(a.elements@),
        _ => {},
    }
}

proof fn lemma_convert_list_agree(es: Seq<Expr>)
    ensures
        convert_list(es, false) is Some ==> convert_list(es, true) == convert_list(es, false),
    decreases es,
{
    if es.len() > 0 {
        lemma_convert_list_agree(es.subrange(0, es.len() - 1));
        law_conversions_agree(es[es.len() - 1]);
    }
}

proof fn lemma_convert_entries_agree(es: Seq<(String, Expr)>)
    ensures
        convert_entries(es, false) is Some ==> convert_entries(es, true) == convert_entries(es, false),
    decreases es,
{
    if es.len() > 0 {
        lemma_convert_entries_agree(es.subrange(0, es.len() - 1));
        assert(decreases_to!(es => es[es.len() - 1]));
        law_conversions_agree(es[es.len() - 1].1);
    }
}

/// Setting a key and then looking it up gives back what was set: what
/// scopes do with definitions and with resolved variables.
pub proof fn law_set_entry_read_back<X>(es: Seq<(Seq<char>, X)>, k: Seq<char>, v: X)
    ensures
        find_first(set_entry(es, k, v), k) >= 0,
        set_entry(es, k, v)[find_first(set_entry(es, k, v), k)].1 == v,
{
    let t = set_entry(es, k, v);
    lemma_find_from(es, k, 0);
    lemma_find_from(t, k, 0);
    let i = find_first(es, k);
    if i >= 0 {
        assert(t[i] == (k, v));
        assert(find_first(t, k) <= i);
        if find_first(t, k) < i {
            assert(t[find_first(t, k)] == es[find_first(t, k)]);
        }
        assert(find_first(t, k) == i);
    } else {
        assert(t[es.len() as int] == (k, v));
        assert(forall|j: int| 0 <= j < es.len() ==> t[j] == es[j]);
        assert(find_first(t, k) == es.len());
    }
}

/// Setting a key leaves every other key as it was.
pub proof fn law_set_entry_keeps_others<X>(es: Seq<(Seq<char>, X)>, k: Seq<char>, v: X, other: Seq<char>)
    requires
        other != k,
    ensures
        find_first(set_entry(es, k, v), other) >= 0 <==> find_first(es, other) >= 0,
        find_first(es, other) >= 0 ==> set_entry(es, k, v)[find_first(set_entry(es, k, v), other)] == es[find_first(
            es,
            other,
        )],
{
    let t = set_entry(es, k, v);
    lemma_find_from(es, k, 0);
    lemma_find_from(es, other, 0);
    lemma_find_from(t, other, 0);
    let j = find_first(es, other);
    let jt = find_first(t, other);
    if j >= 0 {
        assert(t[j].0 == other);
        assert(jt <= j);
        if jt < j {
            assert(t[jt] == es[jt]);
        }
    } else if jt >= 0 {
        assert(t[jt].0 == other);
        if jt < es.len() {
            assert(t[jt] == es[jt]);
        }
    }
}

/// Adding a scope and then leaving it brings the scopes back to what they
/// were.
pub proof fn law_add_then_drop_scope(scopes: Seq<ScopeModel>, s: ScopeModel)
    ensures
        (seq![s] + scopes).subrange(1, (seq![s] + scopes).len() as int) == scopes,
{
    assert((seq![s] + scopes).subrange(1, (seq![s] + scopes).len() as int) =~= scopes);
}

/// A variable already resolved in a scope is answered from there: the part
/// `%name` on an empty stack selects exactly those values and changes no
/// scope.
pub proof fn law_resolved_variable_is_reused(
    root: Value,
    scopes: Seq<ScopeModel>,
    name: StringExpr,
    fuel: nat,
)
    requires
        cached_from(scopes, name.value@, 0) is Some,
    ensures
        ({
            let o = eval_part(root, scopes, Expr::VariableReference(Box::new(name)), Seq::empty(), fuel);
            &&& o.ok
            &&& o.items == cached_from(scopes, name.value@, 0).unwrap()
            &&& o.scopes == scopes
            &&& !o.reported
        }),
{
}

/// Resolving a variable records what it resolved to in the scope that
/// defines it, where a later lookup finds it.
pub proof fn law_resolution_is_recorded(
    root: Value,
    scopes: Seq<ScopeModel>,
    name: StringExpr,
    fuel: nat,
)
    requires
        cached_from(scopes, name.value@, 0) is None,
    ensures
        ({
            let o = eval_part(root, scopes, Expr::VariableReference(Box::new(name)), Seq::empty(), fuel);
            let si = def_scope_from(scopes, name.value@, 0);
            o.ok ==> {
                &&& 0 <= si < o.scopes.len()
                &&& find_first(o.scopes[si].vars, name.value@) >= 0
                &&& o.scopes[si].vars[find_first(o.scopes[si].vars, name.value@)].1 == o.items
            }
        }),
{
    let o = eval_part(root, scopes, Expr::VariableReference(Box::new(name)), Seq::empty(), fuel);
    let si = def_scope_from(scopes, name.value@, 0);
    if o.ok {
        lemma_def_scope_range(scopes, name.value@, 0);
        let a = crate::query::eval_assign(
            root,
            scopes,
            crate::query::def_in(scopes[si], name.value@).value,
            (fuel - 1) as nat,
        );
        lemma_eval_assign_keeps_len(root, scopes, crate::query::def_in(scopes[si], name.value@).value, (fuel - 1) as nat);
        law_set_entry_read_back(a.scopes[si].vars, name.value@, a.items);
    }
}

proof fn lemma_def_scope_range(scopes: Seq<ScopeModel>, k: Seq<char>, i: nat)
    ensures
        def_scope_from(scopes, k, i) == -1 || (i <= def_scope_from(scopes, k, i) < scopes.len()),
    decreases scopes.len() - i,
{
    if i < scopes.len() && find_first(scopes[i as int].defs, k) < 0 {
        lemma_def_scope_range(scopes, k, i + 1);
    }
}

/// Evaluating never adds or removes a scope.
pub proof fn lemma_eval_assign_keeps_len(root: Value, scopes: Seq<ScopeModel>, e: Expr, fuel: nat)
    ensures
        crate::query::eval_assign(root, scopes, e, fuel).scopes.len() == scopes.len(),
    decreases fuel, e, 1nat,
{
    match e {
        Expr::Select(q) => lemma_eval_query_keeps_len(root, scopes, q.parts@, Seq::empty(), fuel),
        Expr::BinaryOperation(b) => {
            if b.operator == BinaryOperator::Or {
                lemma_eval_assign_keeps_len(root, scopes, b.lhs, fuel);
                let l = crate::query::eval_assign(root, scopes, b.lhs, fuel);
                lemma_eval_assign_keeps_len(root, l.scopes, b.rhs, fuel);
            }
        },
        _ => {},
    }
}

pub proof fn lemma_eval_query_keeps_len(
    root: Value,
    scopes: Seq<ScopeModel>,
    parts: Seq<Expr>,
    stack: Seq<Item>,
    fuel: nat,
)
    ensures
        crate::query::eval_query(root, scopes, parts, stack, fuel).scopes.len() == scopes.len(),
    decreases fuel, parts, 1nat,
{
    if parts.len() > 0 {
        lemma_eval_part_keeps_len(root, scopes, parts[0], stack, fuel);
        let o = eval_part(root, scopes, parts[0], stack, fuel);
        if o.ok && o.items.len() > 0 {
            lemma_eval_query_keeps_len(root, o.scopes, parts.subrange(1, parts.len() as int), o.items, fuel);
        }
    }
}

pub proof fn lemma_eval_part_keeps_len(
    root: Value,
    scopes: Seq<ScopeModel>,
    part: Expr,
    stack: Seq<Item>,
    fuel: nat,
)
    ensures
        eval_part(root, scopes, part, stack, fuel).scopes.len() == scopes.len(),
    decreases fuel, part, 1nat,
{
    match part {
        Expr::VariableReference(s) => {
            let name = s.value@;
            if cached_from(scopes, name, 0) is None {
                let si = def_scope_from(scopes, name, 0);
                lemma_def_scope_range(scopes, name, 0);
                if si >= 0 && fuel > 0 {
                    lemma_eval_assign_keeps_len(
                        root,
                        scopes,
                        crate::query::def_in(scopes[si], name).value,
                        (fuel - 1) as nat,
                    );
                }
            }
        },
        _ => {},
    }
}

/// A reporter that answers every report of a value with `Ok(())` never
/// makes a query fail with an error of the reporter: such an error comes
/// back only as the answer to a report.
pub proof fn law_reporter_errors_come_from_reports<'value, R: EvalReporter<'value>, T>(
    before: R,
    after: R,
    ts: Seq<Told>,
    r: Result<T, EvaluationError<'value>>,
)
    requires
        reports_told(before, after, ts, r),
        forall|a: R, b: R, u: ValueType<'value>, d: Seq<char>, e: Expr, x: Result<(), std::io::Error>|
            #[trigger] a.reports_missing(b, u, d, e, x) ==> x is Ok,
        forall|a: R, b: R, u: ValueType<'value>, d: Seq<char>, e: Expr, x: Result<(), std::io::Error>|
            #[trigger] a.reports_mismatch(b, u, d, e, x) ==> x is Ok,
    ensures
        !(r matches Err(e) && e is IoError),
{
    match r {
        Err(EvaluationError::IoError(err)) => {
            let (mid, n) = choose|mid: R, n: int|
                0 <= n < ts.len() && #[trigger] crate::query::told_in_turn(before, mid, ts.take(n))
                    && told_step(mid, after, ts[n], Err(err));
            assert(told_step(mid, after, ts[n], Err(err)));
        },
        _ => {},
    }
}

/// `this` on values met keeps them as they are.
pub proof fn law_this_keeps_the_stack(
    root: Value,
    scopes: Seq<ScopeModel>,
    this: StringExpr,
    stack: Seq<Item>,
    fuel: nat,
)
    requires
        this.value@ == this_name(),
        stack.len() > 0,
    ensures
        eval_part(root, scopes, Expr::String(Box::new(this)), stack, fuel) == (QOut {
            ok: true,
            items: stack,
            scopes,
            reported: false,
            told: Seq::empty(),
        }),
{
    assert(crate::query::told_at(Seq::empty(), Expr::String(Box::new(this))) =~= Seq::empty());
}

/// Only the end of a document adds to the documents read, and it adds the
/// value built last; every other event leaves them as they were.
pub proof fn law_documents_grow_only_at_document_end(m: ReaderModel, ev: DataEvent, loc: Location)
    ensures
        step(m, ev, loc).documents == (if ev is DocumentEnd {
            m.documents.push(m.stack.last())
        } else {
            m.documents
        }),
{
}

/// A mapping opened and closed at once leaves an empty mapping where it was
/// opened, and the containers as they were.
pub proof fn law_empty_mapping(m: ReaderModel, anchor: usize, tag: Option<(String, String)>, l1: Location, l2: Location)
    requires
        m.stack.len() <= usize::MAX,
    ensures
        step(step(m, DataEvent::MappingStart(anchor, tag), l1), DataEvent::MappingEnd, l2).stack == m.stack.push(
            ValueModel::Mapping(Seq::empty(), l1),
        ),
        step(step(m, DataEvent::MappingStart(anchor, tag), l1), DataEvent::MappingEnd, l2).containers
            == m.containers,
        step(step(m, DataEvent::MappingStart(anchor, tag), l1), DataEvent::MappingEnd, l2).documents
            == m.documents,
{
    let m1 = step(m, DataEvent::MappingStart(anchor, tag), l1);
    let i = m1.containers.last() as int;
    assert(i == m.stack.len());
    assert(m1.stack[i] == ValueModel::Mapping(Seq::<(Seq<char>, ValueModel)>::empty(), l1));
    assert(m1.stack.subrange(i + 1, m1.stack.len() as int).len() == 0);
    assert(m1.stack.subrange(0, i) =~= m.stack);
    assert(m1.containers.drop_last() =~= m.containers);
}

/// A list opened and closed at once, with no function tag, leaves an empty
/// list where it was opened, and the containers as they were.
pub proof fn law_empty_list(m: ReaderModel, anchor: usize, l1: Location, l2: Location)
    requires
        m.stack.len() <= usize::MAX,
        m.funcs.len() == 0 || m.funcs.last().0 != m.stack.len() - 1,
    ensures
        step(step(m, DataEvent::SequenceStart(anchor, None), l1), DataEvent::SequenceEnd, l2).stack == m.stack.push(
            ValueModel::List(Seq::empty(), l1),
        ),
        step(step(m, DataEvent::SequenceStart(anchor, None), l1), DataEvent::SequenceEnd, l2).containers
            == m.containers,
{
    let m1 = step(m, DataEvent::SequenceStart(anchor, None), l1);
    let i = m1.containers.last() as int;
    assert(i == m.stack.len());
    assert(m1.funcs == m.funcs);
    assert(m1.stack[i] == ValueModel::List(Seq::<ValueModel>::empty(), l1));
    assert(m1.stack.subrange(i + 1, m1.stack.len() as int) =~= Seq::<ValueModel>::empty());
    assert(Seq::<ValueModel>::empty() + Seq::<ValueModel>::empty() =~= Seq::<ValueModel>::empty());
    assert(m1.stack.subrange(0, i) =~= m.stack);
    assert(m1.containers.drop_last() =~= m.containers);
}

/// The reader's model after a run of events, each at its location.
pub open spec fn run(m: ReaderModel, evs: Seq<(DataEvent, Location)>) -> ReaderModel
    decreases evs.len(),
{
    if evs.len() == 0 {
        m
    } else {
        step(run(m, evs.drop_last()), evs.last().0, evs.last().1)
    }
}

/// One run of events and then another is the run of both.
pub proof fn lemma_run_concat(m: ReaderModel, a: Seq<(DataEvent, Location)>, b: Seq<(DataEvent, Location)>)
    ensures
        run(m, a + b) == run(run(m, a), b),
    decreases b.len(),
{
    if b.len() == 0 {
        assert(a + b =~= a);
    } else {
        lemma_run_concat(m, a, b.drop_last());
        assert((a + b).drop_last() =~= a + b.drop_last());
    }
}

/// The scalar values of a run of scalar events.
pub open spec fn scalar_values(evs: Seq<(DataEvent, Location)>) -> Seq<ValueModel> {
    Seq::new(
        evs.len(),
        |i: int|
            match evs[i].0 {
                DataEvent::Scalar(val, style, _, tag) => scalar_model(val@, style, tag_view(tag), evs[i].1),
                _ => ValueModel::Null(evs[i].1),
            },
    )
}

/// A run of scalar events puts their values, in order, above what the
/// stack held, and leaves the rest of the reader as it was.
pub proof fn law_scalar_run(m: ReaderModel, evs: Seq<(DataEvent, Location)>)
    requires
        forall|i: int| 0 <= i < evs.len() ==> (#[trigger] evs[i]).0 is Scalar,
    ensures
        run(m, evs).stack == m.stack + scalar_values(evs),
        run(m, evs).containers == m.containers,
        run(m, evs).documents == m.documents,
        run(m, evs).funcs == m.funcs,
    decreases evs.len(),
{
    if evs.len() == 0 {
        assert(m.stack + scalar_values(evs) =~= m.stack);
    } else {
        let init = evs.drop_last();
        assert forall|i: int| 0 <= i < init.len() implies (#[trigger] init[i]).0 is Scalar by {
            assert(init[i] == evs[i]);
        }
        law_scalar_run(m, init);
        assert(evs.last().0 is Scalar);
        assert(m.stack + scalar_values(evs) =~= (m.stack + scalar_values(init)).push(scalar_values(evs).last()));
    }
}

/// A mapping read as a whole: after it is opened, events that leave its
/// keys and values above it, and nothing else changed, close it into one
/// mapping of those pairs folded in order, where it was opened.
pub proof fn law_mapping_run(
    m: ReaderModel,
    anchor: usize,
    tag: Option<(String, String)>,
    l1: Location,
    inner: Seq<(DataEvent, Location)>,
    kv: Seq<ValueModel>,
    l2: Location,
)
    requires
        m.stack.len() <= usize::MAX,
        run(step(m, DataEvent::MappingStart(anchor, tag), l1), inner).stack == step(
            m,
            DataEvent::MappingStart(anchor, tag),
            l1,
        ).stack + kv,
        run(step(m, DataEvent::MappingStart(anchor, tag), l1), inner).containers == step(
            m,
            DataEvent::MappingStart(anchor, tag),
            l1,
        ).containers,
        run(step(m, DataEvent::MappingStart(anchor, tag), l1), inner).documents == m.documents,
    ensures
        ({
            let after = step(run(step(m, DataEvent::MappingStart(anchor, tag), l1), inner), DataEvent::MappingEnd, l2);
            &&& after.stack == m.stack.push(ValueModel::Mapping(fold_pairs(Seq::empty(), kv), l1))
            &&& after.containers == m.containers
            &&& after.documents == m.documents
        }),
{
    let m1 = step(m, DataEvent::MappingStart(anchor, tag), l1);
    let m2 = run(m1, inner);
    let i = m2.containers.last() as int;
    assert(i == m.stack.len());
    assert(m2.stack[i] == m1.stack[i]);
    assert(m1.stack[i] == ValueModel::Mapping(Seq::<(Seq<char>, ValueModel)>::empty(), l1));
    assert(m2.stack.subrange(i + 1, m2.stack.len() as int) =~= kv);
    assert(m2.stack.subrange(0, i) =~= m.stack);
    assert(m2.containers.drop_last() =~= m.containers);
}

/// A list read as a whole: after it is opened with no function tag, events
/// that leave its elements above it, and nothing else changed, close it
/// into one list of those elements in order, where it was opened.
pub proof fn law_list_run(
    m: ReaderModel,
    anchor: usize,
    l1: Location,
    inner: Seq<(DataEvent, Location)>,
    vs: Seq<ValueModel>,
    l2: Location,
)
    requires
        m.stack.len() <= usize::MAX,
        m.funcs.len() == 0 || m.funcs.last().0 != m.stack.len() - 1,
        run(step(m, DataEvent::SequenceStart(anchor, None), l1), inner).stack == step(
            m,
            DataEvent::SequenceStart(anchor, None),
            l1,
        ).stack + vs,
        run(step(m, DataEvent::SequenceStart(anchor, None), l1), inner).containers == step(
            m,
            DataEvent::SequenceStart(anchor, None),
            l1,
        ).containers,
        run(step(m, DataEvent::SequenceStart(anchor, None), l1), inner).funcs == m.funcs,
    ensures
        ({
            let after = step(run(step(m, DataEvent::SequenceStart(anchor, None), l1), inner), DataEvent::SequenceEnd, l2);
            &&& after.stack == m.stack.push(ValueModel::List(vs, l1))
            &&& after.containers == m.containers
        }),
{
    let m1 = step(m, DataEvent::SequenceStart(anchor, None), l1);
    let m2 = run(m1, inner);
    let i = m2.containers.last() as int;
    assert(i == m.stack.len());
    assert(m2.stack[i] == m1.stack[i]);
    assert(m1.stack[i] == ValueModel::List(Seq::<ValueModel>::empty(), l1));
    assert(m2.stack.subrange(i + 1, m2.stack.len() as int) =~= vs);
    assert(Seq::<ValueModel>::empty() + vs =~= vs);
    assert(m2.stack.subrange(0, i) =~= m.stack);
    assert(m2.containers.drop_last() =~= m.containers);
}

/// A literal of plain data: `null`, strings, booleans, integers, floats
/// that are not NaN, and lists and key/value literals (each key once) of
/// such.
pub open spec fn plain_literal(e: Expr) -> bool
    decreases e,
{
    match e {
        Expr::Array(a) => forall|i: int| 0 <= i < a.elements@.len() ==> plain_literal(#[trigger] a.elements@[i]),
        Expr::Mapping(m) => keys_unique(m.entries@) && forall|i: int|
            0 <= i < m.entries@.len() ==> plain_literal(#[trigger] m.entries@[i].1),
        Expr::Float(f) => crate::numeric::ordered_float(f.value@),
        Expr::Null(_) | Expr::String(_) | Expr::Bool(_) | Expr::Int(_) => true,
        _ => false,
    }
}

proof fn lemma_convert_list_items(es: Seq<Expr>, ms: Seq<ValueModel>, regex_ok: bool)
    requires
        convert_list(es, regex_ok) == Some(ms),
    ensures
        ms.len() == es.len(),
        forall|i: int| 0 <= i < es.len() ==> convert(#[trigger] es[i], regex_ok) == Some(ms[i]),
    decreases es.len(),
{
    if es.len() > 0 {
        let init = es.subrange(0, es.len() - 1);
        let ms0 = convert_list(init, regex_ok).unwrap();
        lemma_convert_list_items(init, ms0, regex_ok);
        assert forall|i: int| 0 <= i < es.len() implies convert(#[trigger] es[i], regex_ok) == Some(ms[i]) by {
            if i < es.len() - 1 {
                assert(init[i] == es[i]);
            }
        }
    }
}

proof fn lemma_convert_entries_items(es: Seq<(String, Expr)>, ms: Seq<(Seq<char>, ValueModel)>, regex_ok: bool)
    requires
        keys_unique(es),
        convert_entries(es, regex_ok) == Some(ms),
    ensures
        ms.len() == es.len(),
        forall|i: int| 0 <= i < es.len() ==> (#[trigger] ms[i]).0 == es[i].0@ && convert(es[i].1, regex_ok) == Some(ms[i].1),
    decreases es.len(),
{
    if es.len() > 0 {
        let n = es.len() - 1;
        let init = es.subrange(0, n);
        assert(keys_unique(init)) by {
            assert forall|i: int, j: int| 0 <= i < init.len() && 0 <= j < init.len() && i != j implies #[trigger] init[i].0@
                != #[trigger] init[j].0@ by {
                assert(init[i] == es[i] && init[j] == es[j]);
            }
        }
        let ms0 = convert_entries(init, regex_ok).unwrap();
        lemma_convert_entries_items(init, ms0, regex_ok);
        let k = es[n].0@;
        assert(!(exists|i: int| 0 <= i < ms0.len() && ms0[i].0 == k)) by {
            if exists|i: int| 0 <= i < ms0.len() && ms0[i].0 == k {
                let i = choose|i: int| 0 <= i < ms0.len() && ms0[i].0 == k;
                assert(init[i] == es[i]);
                assert(es[i].0@ != es[n].0@);
            }
        }
        let v = convert(es[n].1, regex_ok).unwrap();
        assert(ms == ms0.push((k, v)));
        assert forall|i: int| 0 <= i < es.len() implies (#[trigger] ms[i]).0 == es[i].0@ && convert(es[i].1, regex_ok)
            == Some(ms[i].1) by {
            if i < n {
                assert(init[i] == es[i]);
                assert(ms[i] == ms0[i]);
            }
        }
    }
}

proof fn lemma_any_equal_at(v: Value, es: Seq<Expr>, j: int)
    requires
        0 <= j < es.len(),
        value_eq_expr(v, es[j]),
    ensures
        any_equal(v, es),
    decreases es.len(),
{
    if j > 0 {
        let t = es.subrange(1, es.len() as int);
        assert(t[j - 1] == es[j]);
        lemma_any_equal_at(v, t, j - 1);
    }
}

proof fn lemma_all_found_pairwise(vs: Seq<Value>, es: Seq<Expr>, k: int)
    requires
        vs.len() == es.len(),
        0 <= k <= vs.len(),
        forall|i: int| 0 <= i < vs.len() ==> value_eq_expr(#[trigger] vs[i], es[i]),
    ensures
        all_found_in(vs.subrange(k, vs.len() as int), es),
    decreases vs.len() - k,
{
    let s = vs.subrange(k, vs.len() as int);
    if k < vs.len() {
        assert(s[0] == vs[k]);
        lemma_any_equal_at(vs[k], es, k);
        lemma_all_found_pairwise(vs, es, k + 1);
        assert(s.subrange(1, s.len() as int) =~= vs.subrange(k + 1, vs.len() as int));
    }
}

proof fn lemma_entries_found_pairwise(vs: Seq<(String, Value)>, es: Seq<(String, Expr)>, k: int)
    requires
        vs.len() == es.len(),
        keys_unique(es),
        0 <= k <= vs.len(),
        forall|i: int| 0 <= i < vs.len() ==> (#[trigger] vs[i]).0@ == es[i].0@ && value_eq_expr(vs[i].1, es[i].1),
    ensures
        entries_found_in(vs.subrange(k, vs.len() as int), es),
    decreases vs.len() - k,
{
    let s = vs.subrange(k, vs.len() as int);
    if k < vs.len() {
        assert(s[0] == vs[k]);
        lemma_key_index(es, vs[k].0@);
        assert(vs[k].0@ == es[k].0@);
        assert(key_index(es, vs[k].0@) == k);
        lemma_entries_found_pairwise(vs, es, k + 1);
        assert(s.subrange(1, s.len() as int) =~= vs.subrange(k + 1, vs.len() as int));
    }
}

/// The value a plain literal converts to equals that literal: a list
/// element by element, a key/value literal key by key, a float by the
/// number it denotes.
pub proof fn law_converted_value_equals_literal(e: Expr, v: Value)
    requires
        plain_literal(e),
        convert(e, false) == Some(v.model()),
    ensures
        value_eq_expr(v, e),
    decreases e,
{
    match e {
        Expr::Array(a) => {
            let els = a.elements@;
            let ms = convert_list(els, false).unwrap();
            lemma_convert_list_items(els, ms, false);
            match v {
                Value::List(vs, _) => {
                    lemma_models(vs@);
                    assert(models(vs@) == ms);
                    assert forall|i: int| 0 <= i < vs@.len() implies value_eq_expr(#[trigger] vs@[i], els[i]) by {
                        assert(models(vs@)[i] == vs@[i].model());
                        assert(decreases_to!(e => e->Array_0));
                        assert(decreases_to!(e->Array_0 => a.elements));
                        assert(decreases_to!(a.elements => a.elements@));
                        assert(decreases_to!(a.elements@ => a.elements@[i]));
                        law_converted_value_equals_literal(els[i], vs@[i]);
                    }
                    lemma_all_found_pairwise(vs@, els, 0);
                    assert(vs@.subrange(0, vs@.len() as int) =~= vs@);
                },
                _ => {},
            }
        },
        Expr::Mapping(m) => {
            let es = m.entries@;
            let ms = convert_entries(es, false).unwrap();
            lemma_convert_entries_items(es, ms, false);
            match v {
                Value::Mapping(ves, _) => {
                    lemma_entry_models(ves@);
                    assert(entry_models(ves@) == ms);
                    assert forall|i: int| 0 <= i < ves@.len() implies (#[trigger] ves@[i]).0@ == es[i].0@
                        && value_eq_expr(ves@[i].1, es[i].1) by {
                        assert(entry_models(ves@)[i] == (ves@[i].0@, ves@[i].1.model()));
                        assert(decreases_to!(e => e->Mapping_0));
                        assert(decreases_to!(e->Mapping_0 => m.entries));
                        assert(decreases_to!(m.entries => m.entries@));
                        assert(decreases_to!(m.entries@ => m.entries@[i]));
                        assert(decreases_to!(m.entries@[i] => m.entries@[i].1));
                        law_converted_value_equals_literal(es[i].1, ves@[i].1);
                    }
                    lemma_entries_found_pairwise(ves@, es, 0);
                    assert(ves@.subrange(0, ves@.len() as int) =~= ves@);
                },
                _ => {},
            }
        },
        Expr::Float(f) => {
            lemma_float_text_eq_reflexive(f.value@);
        },
        _ => {},
    }
}

/// Two values that differ at most in where they, and the values inside
/// them, were read.
pub open spec fn same_but_locations(a: Value, b: Value) -> bool
    decreases a,
{
    match (a, b) {
        (Value::BadValue(x, _), Value::BadValue(y, _)) => x@ == y@,
        (Value::Null(_), Value::Null(_)) => true,
        (Value::String(x, _), Value::String(y, _)) => x@ == y@,
        (Value::Regex(x, _), Value::Regex(y, _)) => x@ == y@,
        (Value::Bool(x, _), Value::Bool(y, _)) => x == y,
        (Value::Int(x, _), Value::Int(y, _)) => x == y,
        (Value::Float(x, _), Value::Float(y, _)) => x@ == y@,
        (Value::RangeInt(x, _), Value::RangeInt(y, _)) => x == y,
        (Value::RangeFloat(x, _), Value::RangeFloat(y, _)) => x.lower@ == y.lower@ && x.upper@ == y.upper@
            && x.inclusive == y.inclusive,
        (Value::Char(x, _), Value::Char(y, _)) => x == y,
        (Value::List(xs, _), Value::List(ys, _)) => xs@.len() == ys@.len() && forall|i: int|
            0 <= i < xs@.len() ==> same_but_locations(#[trigger] xs@[i], ys@[i]),
        (Value::Mapping(xs, _), Value::Mapping(ys, _)) => xs@.len() == ys@.len() && forall|i: int|
            0 <= i < xs@.len() ==> (#[trigger] xs@[i]).0@ == ys@[i].0@ && same_but_locations(xs@[i].1, ys@[i].1),
        _ => false,
    }
}

/// Two literals that differ at most in where they, and the literals inside
/// them, were written.
pub open spec fn same_literal_but_locations(a: Expr, b: Expr) -> bool
    decreases a,
{
    match (a, b) {
        (Expr::Null(_), Expr::Null(_)) => true,
        (Expr::String(x), Expr::String(y)) => x.value@ == y.value@,
        (Expr::Regex(x), Expr::Regex(y)) => x.value@ == y.value@,
        (Expr::Char(x), Expr::Char(y)) => x.value == y.value,
        (Expr::Bool(x), Expr::Bool(y)) => x.value == y.value,
        (Expr::Int(x), Expr::Int(y)) => x.value == y.value,
        (Expr::Float(x), Expr::Float(y)) => x.value@ == y.value@,
        (Expr::RangeInt(x), Expr::RangeInt(y)) => x.value == y.value,
        (Expr::RangeFloat(x), Expr::RangeFloat(y)) => x.value.lower@ == y.value.lower@ && x.value.upper@
            == y.value.upper@ && x.value.inclusive == y.value.inclusive,
        (Expr::Array(x), Expr::Array(y)) => x.elements@.len() == y.elements@.len() && forall|i: int|
            0 <= i < x.elements@.len() ==> same_literal_but_locations(#[trigger] x.elements@[i], y.elements@[i]),
        (Expr::Mapping(x), Expr::Mapping(y)) => x.entries@.len() == y.entries@.len() && forall|i: int|
            0 <= i < x.entries@.len() ==> (#[trigger] x.entries@[i]).0@ == y.entries@[i].0@
                && same_literal_but_locations(x.entries@[i].1, y.entries@[i].1),
        _ => false,
    }
}

proof fn lemma_key_index_same_keys<V, W>(a: Seq<(String, V)>, b: Seq<(String, W)>, k: Seq<char>)
    requires
        a.len() == b.len(),
        forall|i: int| 0 <= i < a.len() ==> (#[trigger] a[i]).0@ == b[i].0@,
    ensures
        key_index(a, k) == key_index(b, k),
    decreases a.len(),
{
    if a.len() > 0 {
        assert(a.last().0@ == b.last().0@);
        let a1 = a.drop_last();
        let b1 = b.drop_last();
        assert forall|i: int| 0 <= i < a1.len() implies (#[trigger] a1[i]).0@ == b1[i].0@ by {
            assert(a1[i] == a[i] && b1[i] == b[i]);
        }
        lemma_key_index_same_keys(a1, b1, k);
    }
}

proof fn lemma_any_equal_same(v1: Value, v2: Value, es1: Seq<Expr>, es2: Seq<Expr>)
    requires
        es1.len() == es2.len(),
        forall|j: int| 0 <= j < es1.len() ==> value_eq_expr(v1, #[trigger] es1[j]) == value_eq_expr(v2, es2[j]),
    ensures
        any_equal(v1, es1) == any_equal(v2, es2),
    decreases es1.len(),
{
    if es1.len() > 0 {
        let t1 = es1.subrange(1, es1.len() as int);
        let t2 = es2.subrange(1, es2.len() as int);
        assert forall|j: int| 0 <= j < t1.len() implies value_eq_expr(v1, #[trigger] t1[j]) == value_eq_expr(v2, t2[j]) by {
            assert(t1[j] == es1[j + 1] && t2[j] == es2[j + 1]);
        }
        lemma_any_equal_same(v1, v2, t1, t2);
        assert(value_eq_expr(v1, es1[0]) == value_eq_expr(v2, es2[0]));
    }
}

proof fn lemma_all_found_same(vs1: Seq<Value>, vs2: Seq<Value>, es1: Seq<Expr>, es2: Seq<Expr>)
    requires
        vs1.len() == vs2.len(),
        es1.len() == es2.len(),
        forall|i: int, j: int|
            0 <= i < vs1.len() && 0 <= j < es1.len() ==> value_eq_expr(#[trigger] vs1[i], #[trigger] es1[j])
                == value_eq_expr(vs2[i], es2[j]),
    ensures
        all_found_in(vs1, es1) == all_found_in(vs2, es2),
    decreases vs1.len(),
{
    if vs1.len() > 0 {
        let t1 = vs1.subrange(1, vs1.len() as int);
        let t2 = vs2.subrange(1, vs2.len() as int);
        assert forall|i: int, j: int| 0 <= i < t1.len() && 0 <= j < es1.len() implies value_eq_expr(
            #[trigger] t1[i],
            #[trigger] es1[j],
        ) == value_eq_expr(t2[i], es2[j]) by {
            assert(t1[i] == vs1[i + 1] && t2[i] == vs2[i + 1]);
        }
        lemma_all_found_same(t1, t2, es1, es2);
        assert forall|j: int| 0 <= j < es1.len() implies value_eq_expr(vs1[0], #[trigger] es1[j]) == value_eq_expr(
            vs2[0],
            es2[j],
        ) by {}
        lemma_any_equal_same(vs1[0], vs2[0], es1, es2);
    }
}

proof fn lemma_entries_found_same(
    vs1: Seq<(String, Value)>,
    vs2: Seq<(String, Value)>,
    es1: Seq<(String, Expr)>,
    es2: Seq<(String, Expr)>,
)
    requires
        vs1.len() == vs2.len(),
        es1.len() == es2.len(),
        forall|i: int| 0 <= i < vs1.len() ==> (#[trigger] vs1[i]).0@ == vs2[i].0@,
        forall|j: int| 0 <= j < es1.len() ==> (#[trigger] es1[j]).0@ == es2[j].0@,
        forall|i: int, j: int|
            0 <= i < vs1.len() && 0 <= j < es1.len() ==> value_eq_expr(#[trigger] vs1[i].1, #[trigger] es1[j].1)
                == value_eq_expr(vs2[i].1, es2[j].1),
    ensures
        entries_found_in(vs1, es1) == entries_found_in(vs2, es2),
    decreases vs1.len(),
{
    if vs1.len() > 0 {
        let t1 = vs1.subrange(1, vs1.len() as int);
        let t2 = vs2.subrange(1, vs2.len() as int);
        assert forall|i: int| 0 <= i < t1.len() implies (#[trigger] t1[i]).0@ == t2[i].0@ by {
            assert(t1[i] == vs1[i + 1] && t2[i] == vs2[i + 1]);
        }
        assert forall|i: int, j: int| 0 <= i < t1.len() && 0 <= j < es1.len() implies value_eq_expr(
            #[trigger] t1[i].1,
            #[trigger] es1[j].1,
        ) == value_eq_expr(t2[i].1, es2[j].1) by {
            assert(t1[i] == vs1[i + 1] && t2[i] == vs2[i + 1]);
        }
        lemma_entries_found_same(t1, t2, es1, es2);
        lemma_key_index_same_keys(es1, es2, vs1[0].0@);
        assert(vs1[0].0@ == vs2[0].0@);
        let k = key_index(es1, vs1[0].0@);
        if 0 <= k < es1.len() {
            assert(value_eq_expr(vs1[0].1, es1[k].1) == value_eq_expr(vs2[0].1, es2[k].1));
        }
    }
}

/// Equality of a value and a literal never depends on where either was
/// read or written: moving the values and the literals leaves the answer.
pub proof fn law_value_literal_eq_ignores_locations(v1: Value, v2: Value, e1: Expr, e2: Expr)
    requires
        same_but_locations(v1, v2),
        same_literal_but_locations(e1, e2),
    ensures
        value_eq_expr(v1, e1) == value_eq_expr(v2, e2),
    decreases e1,
{
    match (e1, e2) {
        (Expr::Array(a1), Expr::Array(a2)) => {
            match (v1, v2) {
                (Value::List(xs, _), Value::List(ys, _)) => {
                    let els1 = a1.elements@;
                    let els2 = a2.elements@;
                    assert forall|i: int, j: int| 0 <= i < xs@.len() && 0 <= j < els1.len() implies value_eq_expr(
                        #[trigger] xs@[i],
                        #[trigger] els1[j],
                    ) == value_eq_expr(ys@[i], els2[j]) by {
                        assert(same_but_locations(xs@[i], ys@[i]));
                        assert(same_literal_but_locations(els1[j], els2[j]));
                        assert(decreases_to!(e1 => e1->Array_0));
                        assert(decreases_to!(e1->Array_0 => a1.elements));
                        assert(decreases_to!(a1.elements => a1.elements@));
                        assert(decreases_to!(a1.elements@ => a1.elements@[j]));
                        law_value_literal_eq_ignores_locations(xs@[i], ys@[i], els1[j], els2[j]);
                    }
                    lemma_all_found_same(xs@, ys@, els1, els2);
                },
                _ => {},
            }
        },
        (Expr::Mapping(m1), Expr::Mapping(m2)) => {
            match (v1, v2) {
                (Value::Mapping(xs, _), Value::Mapping(ys, _)) => {
                    let es1 = m1.entries@;
                    let es2 = m2.entries@;
                    assert forall|i: int, j: int| 0 <= i < xs@.len() && 0 <= j < es1.len() implies value_eq_expr(
                        #[trigger] xs@[i].1,
                        #[trigger] es1[j].1,
                    ) == value_eq_expr(ys@[i].1, es2[j].1) by {
                        assert(same_but_locations(xs@[i].1, ys@[i].1));
                        assert(same_literal_but_locations(es1[j].1, es2[j].1));
                        assert(decreases_to!(e1 => e1->Mapping_0));
                        assert(decreases_to!(e1->Mapping_0 => m1.entries));
                        assert(decreases_to!(m1.entries => m1.entries@));
                        assert(decreases_to!(m1.entries@ => m1.entries@[j]));
                        assert(decreases_to!(m1.entries@[j] => m1.entries@[j].1));
                        law_value_literal_eq_ignores_locations(xs@[i].1, ys@[i].1, es1[j].1, es2[j].1);
                    }
                    assert forall|i: int| 0 <= i < xs@.len() implies (#[trigger] xs@[i]).0@ == ys@[i].0@ by {}
                    assert forall|j: int| 0 <= j < es1.len() implies (#[trigger] es1[j]).0@ == es2[j].0@ by {}
                    lemma_entries_found_same(xs@, ys@, es1, es2);
                },
                _ => {},
            }
        },
        _ => {},
    }
}

/// A literal whose key/value literals, at any depth, hold each key once.
pub open spec fn literal_keys_unique(e: Expr) -> bool
    decreases e,
{
    match e {
        Expr::Array(a) => forall|i: int|
            0 <= i < a.elements@.len() ==> literal_keys_unique(#[trigger] a.elements@[i]),
        Expr::Mapping(m) => keys_unique(m.entries@) && forall|i: int|
            0 <= i < m.entries@.len() ==> literal_keys_unique(#[trigger] m.entries@[i].1),
        Expr::Null(_) | Expr::String(_) | Expr::Regex(_) | Expr::Char(_) | Expr::Bool(_) | Expr::Int(_)
        | Expr::Float(_) | Expr::RangeInt(_) | Expr::RangeFloat(_) => true,
        _ => false,
    }
}

proof fn lemma_exprs_eq_pointwise(x: Seq<Expr>, y: Seq<Expr>)
    ensures
        exprs_eq(x, y) <==> (x.len() == y.len() && forall|i: int| 0 <= i < x.len() ==> expr_eq(#[trigger] x[i], y[i])),
    decreases x.len(),
{
    if x.len() > 0 && y.len() > 0 {
        let x1 = x.subrange(1, x.len() as int);
        let y1 = y.subrange(1, y.len() as int);
        lemma_exprs_eq_pointwise(x1, y1);
        if x.len() == y.len() && forall|i: int| 0 <= i < x.len() ==> expr_eq(#[trigger] x[i], y[i]) {
            assert forall|i: int| 0 <= i < x1.len() implies expr_eq(#[trigger] x1[i], y1[i]) by {
                assert(x1[i] == x[i + 1] && y1[i] == y[i + 1]);
            }
        }
        if exprs_eq(x, y) {
            assert forall|i: int| 0 <= i < x.len() implies expr_eq(#[trigger] x[i], y[i]) by {
                if i > 0 {
                    assert(x1[i - 1] == x[i] && y1[i - 1] == y[i]);
                }
            }
        }
    }
}

proof fn lemma_lookup_unique(es: Seq<(String, Expr)>, k: Seq<char>)
    requires
        keys_unique(es),
    ensures
        lookup(es, k) is Some <==> exists|i: int| 0 <= i < es.len() && (#[trigger] es[i]).0@ == k,
        forall|i: int| 0 <= i < es.len() && (#[trigger] es[i]).0@ == k ==> lookup(es, k) == Some(es[i].1),
    decreases es.len(),
{
    if es.len() > 0 {
        let t = es.drop_first();
        assert(keys_unique(t)) by {
            assert forall|i: int, j: int| 0 <= i < t.len() && 0 <= j < t.len() && i != j implies #[trigger] t[i].0@
                != #[trigger] t[j].0@ by {
                assert(t[i] == es[i + 1] && t[j] == es[j + 1]);
            }
        }
        lemma_lookup_unique(t, k);
        if exists|i: int| 0 <= i < es.len() && (#[trigger] es[i]).0@ == k {
            let i = choose|i: int| 0 <= i < es.len() && (#[trigger] es[i]).0@ == k;
            if i > 0 && es[0].0@ != k {
                assert(t[i - 1] == es[i]);
            }
        }
        if lookup(t, k) is Some && es[0].0@ != k {
            let j = choose|j: int| 0 <= j < t.len() && (#[trigger] t[j]).0@ == k;
            assert(t[j] == es[j + 1]);
        }
        assert forall|i: int| 0 <= i < es.len() && (#[trigger] es[i]).0@ == k implies lookup(es, k) == Some(es[i].1) by {
            if i > 0 {
                assert(es[0].0@ != es[i].0@);
                assert(t[i - 1] == es[i]);
            }
        }
    }
}

proof fn lemma_entries_found_pointwise(x: Seq<(String, Expr)>, y: Seq<(String, Expr)>)
    ensures
        entries_found(x, y) <==> forall|i: int|
            0 <= i < x.len() ==> (lookup(y, (#[trigger] x[i]).0@) matches Some(v) && expr_eq(x[i].1, v)),
    decreases x.len(),
{
    if x.len() > 0 {
        let t = x.subrange(1, x.len() as int);
        lemma_entries_found_pointwise(t, y);
        assert forall|i: int| 0 <= i < t.len() implies #[trigger] t[i] == x[i + 1] by {}
        if forall|i: int| 0 <= i < x.len() ==> (lookup(y, (#[trigger] x[i]).0@) matches Some(v) && expr_eq(x[i].1, v)) {
            assert forall|i: int| 0 <= i < t.len() implies (lookup(y, (#[trigger] t[i]).0@) matches Some(v) && expr_eq(t[i].1, v)) by {
                assert(t[i] == x[i + 1]);
            }
        }
        if entries_found(x, y) {
            assert forall|i: int| 0 <= i < x.len() implies (lookup(y, (#[trigger] x[i]).0@) matches Some(v) && expr_eq(x[i].1, v)) by {
                if i > 0 {
                    assert(t[i - 1] == x[i]);
                }
            }
        }
    }
}

/// Some entry has the key `k`.
pub open spec fn has_key(x: Seq<(String, Expr)>, k: Seq<char>) -> bool {
    exists|i: int| 0 <= i < x.len() && (#[trigger] x[i]).0@ == k
}

/// The keys of one key/value literal all occur in another with as many
/// entries, each key once: then the other's keys all occur in the first.
proof fn lemma_same_keys(x: Seq<(String, Expr)>, y: Seq<(String, Expr)>)
    requires
        keys_unique(x),
        keys_unique(y),
        x.len() == y.len(),
        forall|i: int| 0 <= i < x.len() ==> has_key(y, (#[trigger] x[i]).0@),
    ensures
        forall|j: int| 0 <= j < y.len() ==> has_key(x, (#[trigger] y[j]).0@),
{
    let kx = x.map_values(|e: (String, Expr)| e.0@);
    let ky = y.map_values(|e: (String, Expr)| e.0@);
    assert(kx.no_duplicates()) by {
        assert forall|i: int, j: int| 0 <= i < kx.len() && 0 <= j < kx.len() && i != j implies kx[i] != kx[j] by {
            assert(x[i].0@ != x[j].0@);
        }
    }
    assert(ky.no_duplicates()) by {
        assert forall|i: int, j: int| 0 <= i < ky.len() && 0 <= j < ky.len() && i != j implies ky[i] != ky[j] by {
            assert(y[i].0@ != y[j].0@);
        }
    }
    kx.unique_seq_to_set();
    ky.unique_seq_to_set();
    vstd::seq_lib::seq_to_set_is_finite(kx);
    vstd::seq_lib::seq_to_set_is_finite(ky);
    assert(kx.to_set().subset_of(ky.to_set())) by {
        assert forall|k: Seq<char>| kx.to_set().contains(k) implies ky.to_set().contains(k) by {
            let i = choose|i: int| 0 <= i < kx.len() && kx[i] == k;
            assert(x[i].0@ == k);
            assert(has_key(y, x[i].0@));
            let j = choose|j: int| 0 <= j < y.len() && (#[trigger] y[j]).0@ == x[i].0@;
            assert(ky[j] == k);
        }
    }
    vstd::set_lib::lemma_subset_equality(kx.to_set(), ky.to_set());
    assert forall|j: int| 0 <= j < y.len() implies has_key(x, (#[trigger] y[j]).0@) by {
        assert(ky[j] == y[j].0@);
        assert(ky.to_set().contains(ky[j]));
        assert(kx.to_set().contains(ky[j]));
        let i = choose|i: int| 0 <= i < kx.len() && kx[i] == ky[j];
        assert(x[i].0@ == y[j].0@);
    }
}

/// Entries found one way are found the other way, where each pair of
/// entries under one key compares the same both ways.
proof fn lemma_entries_found_swap(x: Seq<(String, Expr)>, y: Seq<(String, Expr)>)
    requires
        keys_unique(x),
        keys_unique(y),
        x.len() == y.len(),
        forall|i: int, j: int|
            0 <= i < x.len() && 0 <= j < y.len() && (#[trigger] x[i]).0@ == (#[trigger] y[j]).0@ ==> expr_eq(x[i].1, y[j].1)
                == expr_eq(y[j].1, x[i].1),
        entries_found(x, y),
    ensures
        entries_found(y, x),
{
    lemma_entries_found_pointwise(x, y);
    lemma_entries_found_pointwise(y, x);
    assert forall|i: int| 0 <= i < x.len() implies has_key(y, (#[trigger] x[i]).0@) by {
        lemma_lookup_unique(y, x[i].0@);
    }
    lemma_same_keys(x, y);
    assert forall|j: int| 0 <= j < y.len() implies (lookup(x, (#[trigger] y[j]).0@) matches Some(v) && expr_eq(y[j].1, v)) by {
        assert(has_key(x, y[j].0@));
        let i = choose|i: int| 0 <= i < x.len() && (#[trigger] x[i]).0@ == y[j].0@;
        lemma_lookup_unique(x, y[j].0@);
        lemma_lookup_unique(y, x[i].0@);
        assert(lookup(y, x[i].0@) == Some(y[j].1));
    }
}

/// Equality of literals is symmetric: `a == b` exactly when `b == a`,
/// wherever their key/value literals hold each key once.
pub proof fn law_literal_eq_symmetric(a: Expr, b: Expr)
    requires
        literal_keys_unique(a),
        literal_keys_unique(b),
    ensures
        expr_eq(a, b) == expr_eq(b, a),
    decreases a,
{
    match (a, b) {
        (Expr::Array(x), Expr::Array(y)) => {
            let xs = x.elements@;
            let ys = y.elements@;
            lemma_exprs_eq_pointwise(xs, ys);
            lemma_exprs_eq_pointwise(ys, xs);
            if xs.len() == ys.len() {
                assert forall|i: int| 0 <= i < xs.len() implies expr_eq(#[trigger] xs[i], ys[i]) == expr_eq(ys[i], xs[i]) by {
                    assert(decreases_to!(a => a->Array_0));
                    assert(decreases_to!(a->Array_0 => x.elements));
                    assert(decreases_to!(x.elements => x.elements@));
                    assert(decreases_to!(x.elements@ => x.elements@[i]));
                    assert(literal_keys_unique(xs[i]));
                    assert(literal_keys_unique(ys[i]));
                    law_literal_eq_symmetric(xs[i], ys[i]);
                }
            }
        },
        (Expr::Mapping(m1), Expr::Mapping(m2)) => {
            let x = m1.entries@;
            let y = m2.entries@;
            if x.len() == y.len() {
                // each pair of entries under one key compares the same both ways
                assert forall|i: int, j: int| 0 <= i < x.len() && 0 <= j < y.len() && (#[trigger] x[i]).0@
                    == (#[trigger] y[j]).0@ implies expr_eq(x[i].1, y[j].1) == expr_eq(y[j].1, x[i].1) by {
                    assert(decreases_to!(a => a->Mapping_0));
                    assert(decreases_to!(a->Mapping_0 => m1.entries));
                    assert(decreases_to!(m1.entries => m1.entries@));
                    assert(decreases_to!(m1.entries@ => m1.entries@[i]));
                    assert(decreases_to!(m1.entries@[i] => m1.entries@[i].1));
                    assert(literal_keys_unique(x[i].1));
                    assert(literal_keys_unique(y[j].1));
                    law_literal_eq_symmetric(x[i].1, y[j].1);
                }
                if entries_found(x, y) {
                    lemma_entries_found_swap(x, y);
                }
                if entries_found(y, x) {
                    assert forall|j: int, i: int| 0 <= j < y.len() && 0 <= i < x.len() && (#[trigger] y[j]).0@
                        == (#[trigger] x[i]).0@ implies expr_eq(y[j].1, x[i].1) == expr_eq(x[i].1, y[j].1) by {}
                    lemma_entries_found_swap(y, x);
                }
            }
        },
        (Expr::Float(f1), Expr::Float(f2)) => {
            lemma_float_text_eq_symmetric(f1.value@, f2.value@);
        },
        (Expr::RangeFloat(r1), Expr::RangeFloat(r2)) => {
            lemma_float_text_eq_symmetric(r1.value.upper@, r2.value.upper@);
            lemma_float_text_eq_symmetric(r1.value.lower@, r2.value.lower@);
        },
        _ => {},
    }
}

/// A plain literal equals itself.
pub proof fn law_literal_eq_reflexive(a: Expr)
    requires
        plain_literal(a),
    ensures
        expr_eq(a, a),
    decreases a,
{
    match a {
        Expr::Array(x) => {
            let xs = x.elements@;
            lemma_exprs_eq_pointwise(xs, xs);
            assert forall|i: int| 0 <= i < xs.len() implies expr_eq(#[trigger] xs[i], xs[i]) by {
                assert(decreases_to!(a => a->Array_0));
                assert(decreases_to!(a->Array_0 => x.elements));
                assert(decreases_to!(x.elements => x.elements@));
                assert(decreases_to!(x.elements@ => x.elements@[i]));
                law_literal_eq_reflexive(xs[i]);
            }
        },
        Expr::Mapping(m) => {
            let es = m.entries@;
            lemma_entries_found_pointwise(es, es);
            assert forall|i: int| 0 <= i < es.len() implies (lookup(es, (#[trigger] es[i]).0@) matches Some(v) && expr_eq(es[i].1, v)) by {
                lemma_lookup_unique(es, es[i].0@);
                assert(decreases_to!(a => a->Mapping_0));
                assert(decreases_to!(a->Mapping_0 => m.entries));
                assert(decreases_to!(m.entries => m.entries@));
                assert(decreases_to!(m.entries@ => m.entries@[i]));
                assert(decreases_to!(m.entries@[i] => m.entries@[i].1));
                law_literal_eq_reflexive(es[i].1);
            }
        },
        Expr::Float(f) => {
            lemma_float_text_eq_reflexive(f.value@);
        },
        _ => {},
    }
}

/// At the start of a text that begins with a keyword of a unary check (no
/// white space, no `not`), the check parsed is the first whose keyword is
/// found there.
proof fn lemma_unary_plain(s: Seq<char>)
    requires
        s.len() > 0,
        !is_ws(s[0]),
        s[0] != '#' && s[0] != '!' && s[0] != 'n' && s[0] != 'N',
    ensures
        first_unary_keyword(s, 0, 0) matches Some((i, _)) ==> spec_unary_comparison_operator(s, 0).1
            == unary_keyword(i).2,
{
    reveal_strlit("not");
    reveal_strlit("NOT");
    reveal_strlit("!");
    assert(skip_ws(s, 0) == 0);
    assert(seq!["not", "NOT"][0]@ == "not"@);
    assert(seq!["not", "NOT"][1]@ == "NOT"@);
    lemma_tag_differs(s, 0, "not"@, 0);
    lemma_tag_differs(s, 0, "NOT"@, 0);
    assert(first_tag(s, 0, seq!["not", "NOT"]) is None) by {
        reveal_with_fuel(first_tag, 3);
        assert(seq!["not", "NOT"].drop_first() =~= seq!["NOT"]);
        assert(seq!["NOT"].drop_first() =~= Seq::<&str>::empty());
        assert(seq!["NOT"][0]@ == "NOT"@);
    }
    lemma_tag_differs(s, 0, "!"@, 0);
}

/// A text does not hold `t` at `p` where one of its characters differs.
proof fn lemma_tag_differs(s: Seq<char>, p: int, t: Seq<char>, k: int)
    requires
        0 <= k < t.len(),
        0 <= p,
        p + k < s.len(),
        s[p + k] != t[k],
    ensures
        !tag_at(s, p, t),
{
    if p + t.len() <= s.len() {
        assert(s.subrange(p, p + t.len())[k] == s[p + k]);
    }
}

/// After `NOT ` or `not ` at the start, the check parsed is the negation of
/// the first whose keyword follows.
proof fn lemma_unary_after_not(s: Seq<char>, upper: bool)
    requires
        s.len() > 4,
        upper ==> s.subrange(0, 4) == "NOT "@,
        !upper ==> s.subrange(0, 4) == "not "@,
        !is_ws(s[4]),
        s[4] != '#',
    ensures
        first_unary_keyword(s, 4, 0) matches Some((i, _)) ==> spec_unary_comparison_operator(s, 0).1
            == unary_keyword(i).3,
{
    reveal_strlit("not");
    reveal_strlit("NOT");
    reveal_strlit("NOT ");
    reveal_strlit("not ");
    assert(s[0] == s.subrange(0, 4)[0]);
    assert(s[1] == s.subrange(0, 4)[1]);
    assert(s[2] == s.subrange(0, 4)[2]);
    assert(s[3] == s.subrange(0, 4)[3]);
    assert(skip_ws(s, 0) == 0);
    assert(seq!["not", "NOT"][0]@ == "not"@);
    assert(seq!["not", "NOT"][1]@ == "NOT"@);
    assert(seq!["not", "NOT"].drop_first() =~= seq!["NOT"]);
    assert(seq!["NOT"][0]@ == "NOT"@);
    if upper {
        lemma_tag_differs(s, 0, "not"@, 0);
        assert(s.subrange(0, 3) =~= "NOT"@);
        assert(first_tag(s, 0, seq!["not", "NOT"]) == Some(1int)) by {
            reveal_with_fuel(first_tag, 2);
        }
    } else {
        assert(s.subrange(0, 3) =~= "not"@);
        assert(first_tag(s, 0, seq!["not", "NOT"]) == Some(0int));
    }
    assert(ws_end(s, 4) == 4);
    assert(ws_end(s, 3) == 4);
    assert(skip_ws(s, 4) == 4);
    assert(spec_ws1(s, 3) == crate::parser::Outcome::Done(4int));
}

/// After `!` at the start, the check parsed is the negation of the first
/// whose keyword follows.
proof fn lemma_unary_after_bang(s: Seq<char>)
    requires
        s.len() > 1,
        s[0] == '!',
        !is_ws(s[1]),
        s[1] != '#',
    ensures
        first_unary_keyword(s, 1, 0) matches Some((i, _)) ==> spec_unary_comparison_operator(s, 0).1
            == unary_keyword(i).3,
{
    reveal_strlit("not");
    reveal_strlit("NOT");
    reveal_strlit("!");
    assert(skip_ws(s, 0) == 0);
    assert(seq!["not", "NOT"][0]@ == "not"@);
    assert(seq!["not", "NOT"][1]@ == "NOT"@);
    assert(seq!["not", "NOT"].drop_first() =~= seq!["NOT"]);
    assert(seq!["NOT"][0]@ == "NOT"@);
    assert(seq!["NOT"].drop_first() =~= Seq::<&str>::empty());
    lemma_tag_differs(s, 0, "not"@, 0);
    lemma_tag_differs(s, 0, "NOT"@, 0);
    assert(first_tag(s, 0, seq!["not", "NOT"]) is None) by {
        reveal_with_fuel(first_tag, 3);
    }
    assert(s.subrange(0, 1) =~= "!"@);
    assert(skip_ws(s, 1) == 1);
}

/// A text that begins with `EMPTY` or `empty` parses to the check `Empty`,
/// and to `NotEmpty` after `NOT `, `not ` or `!`, whatever follows.
pub proof fn law_empty_keyword(rest: Seq<char>)
    ensures
        spec_unary_comparison_operator("EMPTY"@ + rest, 0).1 == UnaryOperator::Empty,
        spec_unary_comparison_operator("NOT "@ + ("EMPTY"@ + rest), 0).1 == UnaryOperator::NotEmpty,
        spec_unary_comparison_operator("not "@ + ("EMPTY"@ + rest), 0).1 == UnaryOperator::NotEmpty,
        spec_unary_comparison_operator("!"@ + ("EMPTY"@ + rest), 0).1 == UnaryOperator::NotEmpty,
        spec_unary_comparison_operator("empty"@ + rest, 0).1 == UnaryOperator::Empty,
        spec_unary_comparison_operator("NOT "@ + ("empty"@ + rest), 0).1 == UnaryOperator::NotEmpty,
        spec_unary_comparison_operator("not "@ + ("empty"@ + rest), 0).1 == UnaryOperator::NotEmpty,
        spec_unary_comparison_operator("!"@ + ("empty"@ + rest), 0).1 == UnaryOperator::NotEmpty,
{
    reveal_strlit("!");
    reveal_strlit("EMPTY");
    reveal_strlit("EXISTS");
    reveal_strlit("IS_BOOL");
    reveal_strlit("IS_FLOAT");
    reveal_strlit("IS_INT");
    reveal_strlit("IS_LIST");
    reveal_strlit("IS_REGEX");
    reveal_strlit("IS_STRING");
    reveal_strlit("NOT ");
    reveal_strlit("empty");
    reveal_strlit("exists");
    reveal_strlit("is_bool");
    reveal_strlit("is_float");
    reveal_strlit("is_int");
    reveal_strlit("is_list");
    reveal_strlit("is_regex");
    reveal_strlit("is_string");
    reveal_strlit("not ");
    {
        let s = "EMPTY"@ + rest;
        let t = "EMPTY"@ + rest;
        assert(s[0] == 'E');
        assert(s[1] == 'M');
        assert(s[2] == 'P');
        assert(s[3] == 'T');
        assert(s[4] == 'Y');
        lemma_unary_plain(s);
        assert(s.subrange(0, 5) =~= "EMPTY"@);
        assert(first_unary_keyword(s, 0, 0) == Some((0int, 5int))) by {
            reveal_with_fuel(first_unary_keyword, 2);
        }
    }
    {
        let s = "NOT "@ + ("EMPTY"@ + rest);
        let t = "EMPTY"@ + rest;
        assert(s.subrange(4, s.len() as int) =~= t);
        assert(s.subrange(0, 4) =~= "NOT "@);
        assert(s[4] == 'E') by { assert(t[0] == "EMPTY"@[0]); }
        assert(s[5] == 'M') by { assert(t[1] == "EMPTY"@[1]); }
        assert(s[6] == 'P') by { assert(t[2] == "EMPTY"@[2]); }
        assert(s[7] == 'T') by { assert(t[3] == "EMPTY"@[3]); }
        assert(s[8] == 'Y') by { assert(t[4] == "EMPTY"@[4]); }
        lemma_unary_after_not(s, true);
        assert(s.subrange(4, 9) =~= "EMPTY"@);
        assert(first_unary_keyword(s, 4, 0) == Some((0int, 5int))) by {
            reveal_with_fuel(first_unary_keyword, 2);
        }
    }
    {
        let s = "not "@ + ("EMPTY"@ + rest);
        let t = "EMPTY"@ + rest;
        assert(s.subrange(4, s.len() as int) =~= t);
        assert(s.subrange(0, 4) =~= "not "@);
        assert(s[4] == 'E') by { assert(t[0] == "EMPTY"@[0]); }
        assert(s[5] == 'M') by { assert(t[1] == "EMPTY"@[1]); }
        assert(s[6] == 'P') by { assert(t[2] == "EMPTY"@[2]); }
        assert(s[7] == 'T') by { assert(t[3] == "EMPTY"@[3]); }
        assert(s[8] == 'Y') by { assert(t[4] == "EMPTY"@[4]); }
        lemma_unary_after_not(s, false);
        assert(s.subrange(4, 9) =~= "EMPTY"@);
        assert(first_unary_keyword(s, 4, 0) == Some((0int, 5int))) by {
            reveal_with_fuel(first_unary_keyword, 2);
        }
    }
    {
        let s = "!"@ + ("EMPTY"@ + rest);
        let t = "EMPTY"@ + rest;
        assert(s.subrange(1, s.len() as int) =~= t);
        assert(s.subrange(0, 1) =~= "!"@);
        assert(s[1] == 'E') by { assert(t[0] == "EMPTY"@[0]); }
        assert(s[2] == 'M') by { assert(t[1] == "EMPTY"@[1]); }
        assert(s[3] == 'P') by { assert(t[2] == "EMPTY"@[2]); }
        assert(s[4] == 'T') by { assert(t[3] == "EMPTY"@[3]); }
        assert(s[5] == 'Y') by { assert(t[4] == "EMPTY"@[4]); }
        lemma_unary_after_bang(s);
        assert(s.subrange(1, 6) =~= "EMPTY"@);
        assert(first_unary_keyword(s, 1, 0) == Some((0int, 5int))) by {
            reveal_with_fuel(first_unary_keyword, 2);
        }
    }
    {
        let s = "empty"@ + rest;
        let t = "empty"@ + rest;
        assert(s[0] == 'e');
        assert(s[1] == 'm');
        assert(s[2] == 'p');
        assert(s[3] == 't');
        assert(s[4] == 'y');
        lemma_unary_plain(s);
        lemma_tag_differs(s, 0, "EMPTY"@, 0);
        assert(s.subrange(0, 5) =~= "empty"@);
        assert(first_unary_keyword(s, 0, 0) == Some((0int, 5int))) by {
            reveal_with_fuel(first_unary_keyword, 2);
        }
    }
    {
        let s = "NOT "@ + ("empty"@ + rest);
        let t = "empty"@ + rest;
        assert(s.subrange(4, s.len() as int) =~= t);
        assert(s.subrange(0, 4) =~= "NOT "@);
        assert(s[4] == 'e') by { assert(t[0] == "empty"@[0]); }
        assert(s[5] == 'm') by { assert(t[1] == "empty"@[1]); }
        assert(s[6] == 'p') by { assert(t[2] == "empty"@[2]); }
        assert(s[7] == 't') by { assert(t[3] == "empty"@[3]); }
        assert(s[8] == 'y') by { assert(t[4] == "empty"@[4]); }
        lemma_unary_after_not(s, true);
        lemma_tag_differs(s, 4, "EMPTY"@, 0);
        assert(s.subrange(4, 9) =~= "empty"@);
        assert(first_unary_keyword(s, 4, 0) == Some((0int, 5int))) by {
            reveal_with_fuel(first_unary_keyword, 2);
        }
    }
    {
        let s = "not "@ + ("empty"@ + rest);
        let t = "empty"@ + rest;
        assert(s.subrange(4, s.len() as int) =~= t);
        assert(s.subrange(0, 4) =~= "not "@);
        assert(s[4] == 'e') by { assert(t[0] == "empty"@[0]); }
        assert(s[5] == 'm') by { assert(t[1] == "empty"@[1]); }
        assert(s[6] == 'p') by { assert(t[2] == "empty"@[2]); }
        assert(s[7] == 't') by { assert(t[3] == "empty"@[3]); }
        assert(s[8] == 'y') by { assert(t[4] == "empty"@[4]); }
        lemma_unary_after_not(s, false);
        lemma_tag_differs(s, 4, "EMPTY"@, 0);
        assert(s.subrange(4, 9) =~= "empty"@);
        assert(first_unary_keyword(s, 4, 0) == Some((0int, 5int))) by {
            reveal_with_fuel(first_unary_keyword, 2);
        }
    }
    {
        let s = "!"@ + ("empty"@ + rest);
        let t = "empty"@ + rest;
        assert(s.subrange(1, s.len() as int) =~= t);
        assert(s.subrange(0, 1) =~= "!"@);
        assert(s[1] == 'e') by { assert(t[0] == "empty"@[0]); }
        assert(s[2] == 'm') by { assert(t[1] == "empty"@[1]); }
        assert(s[3] == 'p') by { assert(t[2] == "empty"@[2]); }
        assert(s[4] == 't') by { assert(t[3] == "empty"@[3]); }
        assert(s[5] == 'y') by { assert(t[4] == "empty"@[4]); }
        lemma_unary_after_bang(s);
        lemma_tag_differs(s, 1, "EMPTY"@, 0);
        assert(s.subrange(1, 6) =~= "empty"@);
        assert(first_unary_keyword(s, 1, 0) == Some((0int, 5int))) by {
            reveal_with_fuel(first_unary_keyword, 2);
        }
    }
}

/// A text that begins with `EXISTS` or `exists` parses to the check `Exists`,
/// and to `NotExists` after `NOT `, `not ` or `!`, whatever follows.
pub proof fn law_exists_keyword(rest: Seq<char>)
    ensures
        spec_unary_comparison_operator("EXISTS"@ + rest, 0).1 == UnaryOperator::Exists,
        spec_unary_comparison_operator("NOT "@ + ("EXISTS"@ + rest), 0).1 == UnaryOperator::NotExists,
        spec_unary_comparison_operator("not "@ + ("EXISTS"@ + rest), 0).1 == UnaryOperator::NotExists,
        spec_unary_comparison_operator("!"@ + ("EXISTS"@ + rest), 0).1 == UnaryOperator::NotExists,
        spec_unary_comparison_operator("exists"@ + rest, 0).1 == UnaryOperator::Exists,
        spec_unary_comparison_operator("NOT "@ + ("exists"@ + rest), 0).1 == UnaryOperator::NotExists,
        spec_unary_comparison_operator("not "@ + ("exists"@ + rest), 0).1 == UnaryOperator::NotExists,
        spec_unary_comparison_operator("!"@ + ("exists"@ + rest), 0).1 == UnaryOperator::NotExists,
{
    reveal_strlit("!");
    reveal_strlit("EMPTY");
    reveal_strlit("EXISTS");
    reveal_strlit("IS_BOOL");
    reveal_strlit("IS_FLOAT");
    reveal_strlit("IS_INT");
    reveal_strlit("IS_LIST");
    reveal_strlit("IS_REGEX");
    reveal_strlit("IS_STRING");
    reveal_strlit("NOT ");
    reveal_strlit("empty");
    reveal_strlit("exists");
    reveal_strlit("is_bool");
    reveal_strlit("is_float");
    reveal_strlit("is_int");
    reveal_strlit("is_list");
    reveal_strlit("is_regex");
    reveal_strlit("is_string");
    reveal_strlit("not ");
    {
        let s = "EXISTS"@ + rest;
        let t = "EXISTS"@ + rest;
        assert(s[0] == 'E');
        assert(s[1] == 'X');
        assert(s[2] == 'I');
        assert(s[3] == 'S');
        assert(s[4] == 'T');
        assert(s[5] == 'S');
        lemma_unary_plain(s);
        lemma_tag_differs(s, 0, "EMPTY"@, 1);
        lemma_tag_differs(s, 0, "empty"@, 0);
        assert(s.subrange(0, 6) =~= "EXISTS"@);
        assert(first_unary_keyword(s, 0, 0) == Some((1int, 6int))) by {
            reveal_with_fuel(first_unary_keyword, 3);
        }
    }
    {
        let s = "NOT "@ + ("EXISTS"@ + rest);
        let t = "EXISTS"@ + rest;
        assert(s.subrange(4, s.len() as int) =~= t);
        assert(s.subrange(0, 4) =~= "NOT "@);
        assert(s[4] == 'E') by { assert(t[0] == "EXISTS"@[0]); }
        assert(s[5] == 'X') by { assert(t[1] == "EXISTS"@[1]); }
        assert(s[6] == 'I') by { assert(t[2] == "EXISTS"@[2]); }
        assert(s[7] == 'S') by { assert(t[3] == "EXISTS"@[3]); }
        assert(s[8] == 'T') by { assert(t[4] == "EXISTS"@[4]); }
        assert(s[9] == 'S') by { assert(t[5] == "EXISTS"@[5]); }
        lemma_unary_after_not(s, true);
        lemma_tag_differs(s, 4, "EMPTY"@, 1);
        lemma_tag_differs(s, 4, "empty"@, 0);
        assert(s.subrange(4, 10) =~= "EXISTS"@);
        assert(first_unary_keyword(s, 4, 0) == Some((1int, 6int))) by {
            reveal_with_fuel(first_unary_keyword, 3);
        }
    }
    {
        let s = "not "@ + ("EXISTS"@ + rest);
        let t = "EXISTS"@ + rest;
        assert(s.subrange(4, s.len() as int) =~= t);
        assert(s.subrange(0, 4) =~= "not "@);
        assert(s[4] == 'E') by { assert(t[0] == "EXISTS"@[0]); }
        assert(s[5] == 'X') by { assert(t[1] == "EXISTS"@[1]); }
        assert(s[6] == 'I') by { assert(t[2] == "EXISTS"@[2]); }
        assert(s[7] == 'S') by { assert(t[3] == "EXISTS"@[3]); }
        assert(s[8] == 'T') by { assert(t[4] == "EXISTS"@[4]); }
        assert(s[9] == 'S') by { assert(t[5] == "EXISTS"@[5]); }
        lemma_unary_after_not(s, false);
        lemma_tag_differs(s, 4, "EMPTY"@, 1);
        lemma_tag_differs(s, 4, "empty"@, 0);
        assert(s.subrange(4, 10) =~= "EXISTS"@);
        assert(first_unary_keyword(s, 4, 0) == Some((1int, 6int))) by {
            reveal_with_fuel(first_unary_keyword, 3);
        }
    }
    {
        let s = "!"@ + ("EXISTS"@ + rest);
        let t = "EXISTS"@ + rest;
        assert(s.subrange(1, s.len() as int) =~= t);
        assert(s.subrange(0, 1) =~= "!"@);
        assert(s[1] == 'E') by { assert(t[0] == "EXISTS"@[0]); }
        assert(s[2] == 'X') by { assert(t[1] == "EXISTS"@[1]); }
        assert(s[3] == 'I') by { assert(t[2] == "EXISTS"@[2]); }
        assert(s[4] == 'S') by { assert(t[3] == "EXISTS"@[3]); }
        assert(s[5] == 'T') by { assert(t[4] == "EXISTS"@[4]); }
        assert(s[6] == 'S') by { assert(t[5] == "EXISTS"@[5]); }
        lemma_unary_after_bang(s);
        lemma_tag_differs(s, 1, "EMPTY"@, 1);
        lemma_tag_differs(s, 1, "empty"@, 0);
        assert(s.subrange(1, 7) =~= "EXISTS"@);
        assert(first_unary_keyword(s, 1, 0) == Some((1int, 6int))) by {
            reveal_with_fuel(first_unary_keyword, 3);
        }
    }
    {
        let s = "exists"@ + rest;
        let t = "exists"@ + rest;
        assert(s[0] == 'e');
        assert(s[1] == 'x');
        assert(s[2] == 'i');
        assert(s[3] == 's');
        assert(s[4] == 't');
        assert(s[5] == 's');
        lemma_unary_plain(s);
        lemma_tag_differs(s, 0, "EMPTY"@, 0);
        lemma_tag_differs(s, 0, "empty"@, 1);
        lemma_tag_differs(s, 0, "EXISTS"@, 0);
        assert(s.subrange(0, 6) =~= "exists"@);
        assert(first_unary_keyword(s, 0, 0) == Some((1int, 6int))) by {
            reveal_with_fuel(first_unary_keyword, 3);
        }
    }
    {
        let s = "NOT "@ + ("exists"@ + rest);
        let t = "exists"@ + rest;
        assert(s.subrange(4, s.len() as int) =~= t);
        assert(s.subrange(0, 4) =~= "NOT "@);
        assert(s[4] == 'e') by { assert(t[0] == "exists"@[0]); }
        assert(s[5] == 'x') by { assert(t[1] == "exists"@[1]); }
        assert(s[6] == 'i') by { assert(t[2] == "exists"@[2]); }
        assert(s[7] == 's') by { assert(t[3] == "exists"@[3]); }
        assert(s[8] == 't') by { assert(t[4] == "exists"@[4]); }
        assert(s[9] == 's') by { assert(t[5] == "exists"@[5]); }
        lemma_unary_after_not(s, true);
        lemma_tag_differs(s, 4, "EMPTY"@, 0);
        lemma_tag_differs(s, 4, "empty"@, 1);
        lemma_tag_differs(s, 4, "EXISTS"@, 0);
        assert(s.subrange(4, 10) =~= "exists"@);
        assert(first_unary_keyword(s, 4, 0) == Some((1int, 6int))) by {
            reveal_with_fuel(first_unary_keyword, 3);
        }
    }
    {
        let s = "not "@ + ("exists"@ + rest);
        let t = "exists"@ + rest;
        assert(s.subrange(4, s.len() as int) =~= t);
        assert(s.subrange(0, 4) =~= "not "@);
        assert(s[4] == 'e') by { assert(t[0] == "exists"@[0]); }
        assert(s[5] == 'x') by { assert(t[1] == "exists"@[1]); }
        assert(s[6] == 'i') by { assert(t[2] == "exists"@[2]); }
        assert(s[7] == 's') by { assert(t[3] == "exists"@[3]); }
        assert(s[8] == 't') by { assert(t[4] == "exists"@[4]); }
        assert(s[9] == 's') by { assert(t[5] == "exists"@[5]); }
        lemma_unary_after_not(s, false);
        lemma_tag_differs(s, 4, "EMPTY"@, 0);
        lemma_tag_differs(s, 4, "empty"@, 1);
        lemma_tag_differs(s, 4, "EXISTS"@, 0);
        assert(s.subrange(4, 10) =~= "exists"@);
        assert(first_unary_keyword(s, 4, 0) == Some((1int, 6int))) by {
            reveal_with_fuel(first_unary_keyword, 3);
        }
    }
    {
        let s = "!"@ + ("exists"@ + rest);
        let t = "exists"@ + rest;
        assert(s.subrange(1, s.len() as int) =~= t);
        assert(s.subrange(0, 1) =~= "!"@);
        assert(s[1] == 'e') by { assert(t[0] == "exists"@[0]); }
        assert(s[2] == 'x') by { assert(t[1] == "exists"@[1]); }
        assert(s[3] == 'i') by { assert(t[2] == "exists"@[2]); }
        assert(s[4] == 's') by { assert(t[3] == "exists"@[3]); }
        assert(s[5] == 't') by { assert(t[4] == "exists"@[4]); }
        assert(s[6] == 's') by { assert(t[5] == "exists"@[5]); }
        lemma_unary_after_bang(s);
        lemma_tag_differs(s, 1, "EMPTY"@, 0);
        lemma_tag_differs(s, 1, "empty"@, 1);
        lemma_tag_differs(s, 1, "EXISTS"@, 0);
        assert(s.subrange(1, 7) =~= "exists"@);
        assert(first_unary_keyword(s, 1, 0) == Some((1int, 6int))) by {
            reveal_with_fuel(first_unary_keyword, 3);
        }
    }
}

/// A text that begins with `is_string` or `IS_STRING` parses to the check `IsString`,
/// and to `IsNotString` after `NOT `, `not ` or `!`, whatever follows.
pub proof fn law_string_keyword(rest: Seq<char>)
    ensures
        spec_unary_comparison_operator("is_string"@ + rest, 0).1 == UnaryOperator::IsString,
        spec_unary_comparison_operator("NOT "@ + ("is_string"@ + rest), 0).1 == UnaryOperator::IsNotString,
        spec_unary_comparison_operator("not "@ + ("is_string"@ + rest), 0).1 == UnaryOperator::IsNotString,
        spec_unary_comparison_operator("!"@ + ("is_string"@ + rest), 0).1 == UnaryOperator::IsNotString,
        spec_unary_comparison_operator("IS_STRING"@ + rest, 0).1 == UnaryOperator::IsString,
        spec_unary_comparison_operator("NOT "@ + ("IS_STRING"@ + rest), 0).1 == UnaryOperator::IsNotString,
        spec_unary_comparison_operator("not "@ + ("IS_STRING"@ + rest), 0).1 == UnaryOperator::IsNotString,
        spec_unary_comparison_operator("!"@ + ("IS_STRING"@ + rest), 0).1 == UnaryOperator::IsNotString,
{
    reveal_strlit("!");
    reveal_strlit("EMPTY");
    reveal_strlit("EXISTS");
    reveal_strlit("IS_BOOL");
    reveal_strlit("IS_FLOAT");
    reveal_strlit("IS_INT");
    reveal_strlit("IS_LIST");
    reveal_strlit("IS_REGEX");
    reveal_strlit("IS_STRING");
    reveal_strlit("NOT ");
    reveal_strlit("empty");
    reveal_strlit("exists");
    reveal_strlit("is_bool");
    reveal_strlit("is_float");
    reveal_strlit("is_int");
    reveal_strlit("is_list");
    reveal_strlit("is_regex");
    reveal_strlit("is_string");
    reveal_strlit("not ");
    {
        let s = "is_string"@ + rest;
        let t = "is_string"@ + rest;
        assert(s[0] == 'i');
        assert(s[1] == 's');
        assert(s[2] == '_');
        assert(s[3] == 's');
        assert(s[4] == 't');
        assert(s[5] == 'r');
        assert(s[6] == 'i');
        assert(s[7] == 'n');
        assert(s[8] == 'g');
        lemma_unary_plain(s);
        lemma_tag_differs(s, 0, "EMPTY"@, 0);
        lemma_tag_differs(s, 0, "empty"@, 0);
        lemma_tag_differs(s, 0, "EXISTS"@, 0);
        lemma_tag_differs(s, 0, "exists"@, 0);
        assert(s.subrange(0, 9) =~= "is_string"@);
        assert(first_unary_keyword(s, 0, 0) == Some((2int, 9int))) by {
            reveal_with_fuel(first_unary_keyword, 4);
        }
    }
    {
        let s = "NOT "@ + ("is_string"@ + rest);
        let t = "is_string"@ + rest;
        assert(s.subrange(4, s.len() as int) =~= t);
        assert(s.subrange(0, 4) =~= "NOT "@);
        assert(s[4] == 'i') by { assert(t[0] == "is_string"@[0]); }
        assert(s[5] == 's') by { assert(t[1] == "is_string"@[1]); }
        assert(s[6] == '_') by { assert(t[2] == "is_string"@[2]); }
        assert(s[7] == 's') by { assert(t[3] == "is_string"@[3]); }
        assert(s[8] == 't') by { assert(t[4] == "is_string"@[4]); }
        assert(s[9] == 'r') by { assert(t[5] == "is_string"@[5]); }
        assert(s[10] == 'i') by { assert(t[6] == "is_string"@[6]); }
        assert(s[11] == 'n') by { assert(t[7] == "is_string"@[7]); }
        assert(s[12] == 'g') by { assert(t[8] == "is_string"@[8]); }
        lemma_unary_after_not(s, true);
        lemma_tag_differs(s, 4, "EMPTY"@, 0);
        lemma_tag_differs(s, 4, "empty"@, 0);
        lemma_tag_differs(s, 4, "EXISTS"@, 0);
        lemma_tag_differs(s, 4, "exists"@, 0);
        assert(s.subrange(4, 13) =~= "is_string"@);
        assert(first_unary_keyword(s, 4, 0) == Some((2int, 9int))) by {
            reveal_with_fuel(first_unary_keyword, 4);
        }
    }
    {
        let s = "not "@ + ("is_string"@ + rest);
        let t = "is_string"@ + rest;
        assert(s.subrange(4, s.len() as int) =~= t);
        assert(s.subrange(0, 4) =~= "not "@);
        assert(s[4] == 'i') by { assert(t[0] == "is_string"@[0]); }
        assert(s[5] == 's') by { assert(t[1] == "is_string"@[1]); }
        assert(s[6] == '_') by { assert(t[2] == "is_string"@[2]); }
        assert(s[7] == 's') by { assert(t[3] == "is_string"@[3]); }
        assert(s[8] == 't') by { assert(t[4] == "is_string"@[4]); }
        assert(s[9] == 'r') by { assert(t[5] == "is_string"@[5]); }
        assert(s[10] == 'i') by { assert(t[6] == "is_string"@[6]); }
        assert(s[11] == 'n') by { assert(t[7] == "is_string"@[7]); }
        assert(s[12] == 'g') by { assert(t[8] == "is_string"@[8]); }
        lemma_unary_after_not(s, false);
        lemma_tag_differs(s, 4, "EMPTY"@, 0);
        lemma_tag_differs(s, 4, "empty"@, 0);
        lemma_tag_differs(s, 4, "EXISTS"@, 0);
        lemma_tag_differs(s, 4, "exists"@, 0);
        assert(s.subrange(4, 13) =~= "is_string"@);
        assert(first_unary_keyword(s, 4, 0) == Some((2int, 9int))) by {
            reveal_with_fuel(first_unary_keyword, 4);
        }
    }
    {
        let s = "!"@ + ("is_string"@ + rest);
        let t = "is_string"@ + rest;
        assert(s.subrange(1, s.len() as int) =~= t);
        assert(s.subrange(0, 1) =~= "!"@);
        assert(s[1] == 'i') by { assert(t[0] == "is_string"@[0]); }
        assert(s[2] == 's') by { assert(t[1] == "is_string"@[1]); }
        assert(s[3] == '_') by { assert(t[2] == "is_string"@[2]); }
        assert(s[4] == 's') by { assert(t[3] == "is_string"@[3]); }
        assert(s[5] == 't') by { assert(t[4] == "is_string"@[4]); }
        assert(s[6] == 'r') by { assert(t[5] == "is_string"@[5]); }
        assert(s[7] == 'i') by { assert(t[6] == "is_string"@[6]); }
        assert(s[8] == 'n') by { assert(t[7] == "is_string"@[7]); }
        assert(s[9] == 'g') by { assert(t[8] == "is_string"@[8]); }
        lemma_unary_after_bang(s);
        lemma_tag_differs(s, 1, "EMPTY"@, 0);
        lemma_tag_differs(s, 1, "empty"@, 0);
        lemma_tag_differs(s, 1, "EXISTS"@, 0);
        lemma_tag_differs(s, 1, "exists"@, 0);
        assert(s.subrange(1, 10) =~= "is_string"@);
        assert(first_unary_keyword(s, 1, 0) == Some((2int, 9int))) by {
            reveal_with_fuel(first_unary_keyword, 4);
        }
    }
    {
        let s = "IS_STRING"@ + rest;
        let t = "IS_STRING"@ + rest;
        assert(s[0] == 'I');
        assert(s[1] == 'S');
        assert(s[2] == '_');
        assert(s[3] == 'S');
        assert(s[4] == 'T');
        assert(s[5] == 'R');
        assert(s[6] == 'I');
        assert(s[7] == 'N');
        assert(s[8] == 'G');
        lemma_unary_plain(s);
        lemma_tag_differs(s, 0, "EMPTY"@, 0);
        lemma_tag_differs(s, 0, "empty"@, 0);
        lemma_tag_differs(s, 0, "EXISTS"@, 0);
        lemma_tag_differs(s, 0, "exists"@, 0);
        lemma_tag_differs(s, 0, "is_string"@, 0);
        assert(s.subrange(0, 9) =~= "IS_STRING"@);
        assert(first_unary_keyword(s, 0, 0) == Some((2int, 9int))) by {
            reveal_with_fuel(first_unary_keyword, 4);
        }
    }
    {
        let s = "NOT "@ + ("IS_STRING"@ + rest);
        let t = "IS_STRING"@ + rest;
        assert(s.subrange(4, s.len() as int) =~= t);
        assert(s.subrange(0, 4) =~= "NOT "@);
        assert(s[4] == 'I') by { assert(t[0] == "IS_STRING"@[0]); }
        assert(s[5] == 'S') by { assert(t[1] == "IS_STRING"@[1]); }
        assert(s[6] == '_') by { assert(t[2] == "IS_STRING"@[2]); }
        assert(s[7] == 'S') by { assert(t[3] == "IS_STRING"@[3]); }
        assert(s[8] == 'T') by { assert(t[4] == "IS_STRING"@[4]); }
        assert(s[9] == 'R') by { assert(t[5] == "IS_STRING"@[5]); }
        assert(s[10] == 'I') by { assert(t[6] == "IS_STRING"@[6]); }
        assert(s[11] == 'N') by { assert(t[7] == "IS_STRING"@[7]); }
        assert(s[12] == 'G') by { assert(t[8] == "IS_STRING"@[8]); }
        lemma_unary_after_not(s, true);
        lemma_tag_differs(s, 4, "EMPTY"@, 0);
        lemma_tag_differs(s, 4, "empty"@, 0);
        lemma_tag_differs(s, 4, "EXISTS"@, 0);
        lemma_tag_differs(s, 4, "exists"@, 0);
        lemma_tag_differs(s, 4, "is_string"@, 0);
        assert(s.subrange(4, 13) =~= "IS_STRING"@);
        assert(first_unary_keyword(s, 4, 0) == Some((2int, 9int))) by {
            reveal_with_fuel(first_unary_keyword, 4);
        }
    }
    {
        let s = "not "@ + ("IS_STRING"@ + rest);
        let t = "IS_STRING"@ + rest;
        assert(s.subrange(4, s.len() as int) =~= t);
        assert(s.subrange(0, 4) =~= "not "@);
        assert(s[4] == 'I') by { assert(t[0] == "IS_STRING"@[0]); }
        assert(s[5] == 'S') by { assert(t[1] == "IS_STRING"@[1]); }
        assert(s[6] == '_') by { assert(t[2] == "IS_STRING"@[2]); }
        assert(s[7] == 'S') by { assert(t[3] == "IS_STRING"@[3]); }
        assert(s[8] == 'T') by { assert(t[4] == "IS_STRING"@[4]); }
        assert(s[9] == 'R') by { assert(t[5] == "IS_STRING"@[5]); }
        assert(s[10] == 'I') by { assert(t[6] == "IS_STRING"@[6]); }
        assert(s[11] == 'N') by { assert(t[7] == "IS_STRING"@[7]); }
        assert(s[12] == 'G') by { assert(t[8] == "IS_STRING"@[8]); }
        lemma_unary_after_not(s, false);
        lemma_tag_differs(s, 4, "EMPTY"@, 0);
        lemma_tag_differs(s, 4, "empty"@, 0);
        lemma_tag_differs(s, 4, "EXISTS"@, 0);
        lemma_tag_differs(s, 4, "exists"@, 0);
        lemma_tag_differs(s, 4, "is_string"@, 0);
        assert(s.subrange(4, 13) =~= "IS_STRING"@);
        assert(first_unary_keyword(s, 4, 0) == Some((2int, 9int))) by {
            reveal_with_fuel(first_unary_keyword, 4);
        }
    }
    {
        let s = "!"@ + ("IS_STRING"@ + rest);
        let t = "IS_STRING"@ + rest;
        assert(s.subrange(1, s.len() as int) =~= t);
        assert(s.subrange(0, 1) =~= "!"@);
        assert(s[1] == 'I') by { assert(t[0] == "IS_STRING"@[0]); }
        assert(s[2] == 'S') by { assert(t[1] == "IS_STRING"@[1]); }
        assert(s[3] == '_') by { assert(t[2] == "IS_STRING"@[2]); }
        assert(s[4] == 'S') by { assert(t[3] == "IS_STRING"@[3]); }
        assert(s[5] == 'T') by { assert(t[4] == "IS_STRING"@[4]); }
        assert(s[6] == 'R') by { assert(t[5] == "IS_STRING"@[5]); }
        assert(s[7] == 'I') by { assert(t[6] == "IS_STRING"@[6]); }
        assert(s[8] == 'N') by { assert(t[7] == "IS_STRING"@[7]); }
        assert(s[9] == 'G') by { assert(t[8] == "IS_STRING"@[8]); }
        lemma_unary_after_bang(s);
        lemma_tag_differs(s, 1, "EMPTY"@, 0);
        lemma_tag_differs(s, 1, "empty"@, 0);
        lemma_tag_differs(s, 1, "EXISTS"@, 0);
        lemma_tag_differs(s, 1, "exists"@, 0);
        lemma_tag_differs(s, 1, "is_string"@, 0);
        assert(s.subrange(1, 10) =~= "IS_STRING"@);
        assert(first_unary_keyword(s, 1, 0) == Some((2int, 9int))) by {
            reveal_with_fuel(first_unary_keyword, 4);
        }
    }
}

/// A text that begins with `is_list` or `IS_LIST` parses to the check `IsList`,
/// and to `IsNotList` after `NOT `, `not ` or `!`, whatever follows.
pub proof fn law_list_keyword(rest: Seq<char>)
    ensures
        spec_unary_comparison_operator("is_list"@ + rest, 0).1 == UnaryOperator::IsList,
        spec_unary_comparison_operator("NOT "@ + ("is_list"@ + rest), 0).1 == UnaryOperator::IsNotList,
        spec_unary_comparison_operator("not "@ + ("is_list"@ + rest), 0).1 == UnaryOperator::IsNotList,
        spec_unary_comparison_operator("!"@ + ("is_list"@ + rest), 0).1 == UnaryOperator::IsNotList,
        spec_unary_comparison_operator("IS_LIST"@ + rest, 0).1 == UnaryOperator::IsList,
        spec_unary_comparison_operator("NOT "@ + ("IS_LIST"@ + rest), 0).1 == UnaryOperator::IsNotList,
        spec_unary_comparison_operator("not "@ + ("IS_LIST"@ + rest), 0).1 == UnaryOperator::IsNotList,
        spec_unary_comparison_operator("!"@ + ("IS_LIST"@ + rest), 0).1 == UnaryOperator::IsNotList,
{
    reveal_strlit("!");
    reveal_strlit("EMPTY");
    reveal_strlit("EXISTS");
    reveal_strlit("IS_BOOL");
    reveal_strlit("IS_FLOAT");
    reveal_strlit("IS_INT");
    reveal_strlit("IS_LIST");
    reveal_strlit("IS_REGEX");
    reveal_strlit("IS_STRING");
    reveal_strlit("NOT ");
    reveal_strlit("empty");
    reveal_strlit("exists");
    reveal_strlit("is_bool");
    reveal_strlit("is_float");
    reveal_strlit("is_int");
    reveal_strlit("is_list");
    reveal_strlit("is_regex");
    reveal_strlit("is_string");
    reveal_strlit("not ");
    {
        let s = "is_list"@ + rest;
        let t = "is_list"@ + rest;
        assert(s[0] == 'i');
        assert(s[1] == 's');
        assert(s[2] == '_');
        assert(s[3] == 'l');
        assert(s[4] == 'i');
        assert(s[5] == 's');
        assert(s[6] == 't');
        lemma_unary_plain(s);
        lemma_tag_differs(s, 0, "EMPTY"@, 0);
        lemma_tag_differs(s, 0, "empty"@, 0);
        lemma_tag_differs(s, 0, "EXISTS"@, 0);
        lemma_tag_differs(s, 0, "exists"@, 0);
        lemma_tag_differs(s, 0, "is_string"@, 3);
        lemma_tag_differs(s, 0, "IS_STRING"@, 0);
        assert(s.subrange(0, 7) =~= "is_list"@);
        assert(first_unary_keyword(s, 0, 0) == Some((3int, 7int))) by {
            reveal_with_fuel(first_unary_keyword, 5);
        }
    }
    {
        let s = "NOT "@ + ("is_list"@ + rest);
        let t = "is_list"@ + rest;
        assert(s.subrange(4, s.len() as int) =~= t);
        assert(s.subrange(0, 4) =~= "NOT "@);
        assert(s[4] == 'i') by { assert(t[0] == "is_list"@[0]); }
        assert(s[5] == 's') by { assert(t[1] == "is_list"@[1]); }
        assert(s[6] == '_') by { assert(t[2] == "is_list"@[2]); }
        assert(s[7] == 'l') by { assert(t[3] == "is_list"@[3]); }
        assert(s[8] == 'i') by { assert(t[4] == "is_list"@[4]); }
        assert(s[9] == 's') by { assert(t[5] == "is_list"@[5]); }
        assert(s[10] == 't') by { assert(t[6] == "is_list"@[6]); }
        lemma_unary_after_not(s, true);
        lemma_tag_differs(s, 4, "EMPTY"@, 0);
        lemma_tag_differs(s, 4, "empty"@, 0);
        lemma_tag_differs(s, 4, "EXISTS"@, 0);
        lemma_tag_differs(s, 4, "exists"@, 0);
        lemma_tag_differs(s, 4, "is_string"@, 3);
        lemma_tag_differs(s, 4, "IS_STRING"@, 0);
        assert(s.subrange(4, 11) =~= "is_list"@);
        assert(first_unary_keyword(s, 4, 0) == Some((3int, 7int))) by {
            reveal_with_fuel(first_unary_keyword, 5);
        }
    }
    {
        let s = "not "@ + ("is_list"@ + rest);
        let t = "is_list"@ + rest;
        assert(s.subrange(4, s.len() as int) =~= t);
        assert(s.subrange(0, 4) =~= "not "@);
        assert(s[4] == 'i') by { assert(t[0] == "is_list"@[0]); }
        assert(s[5] == 's') by { assert(t[1] == "is_list"@[1]); }
        assert(s[6] == '_') by { assert(t[2] == "is_list"@[2]); }
        assert(s[7] == 'l') by { assert(t[3] == "is_list"@[3]); }
        assert(s[8] == 'i') by { assert(t[4] == "is_list"@[4]); }
        assert(s[9] == 's') by { assert(t[5] == "is_list"@[5]); }
        assert(s[10] == 't') by { assert(t[6] == "is_list"@[6]); }
        lemma_unary_after_not(s, false);
        lemma_tag_differs(s, 4, "EMPTY"@, 0);
        lemma_tag_differs(s, 4, "empty"@, 0);
        lemma_tag_differs(s, 4, "EXISTS"@, 0);
        lemma_tag_differs(s, 4, "exists"@, 0);
        lemma_tag_differs(s, 4, "is_string"@, 3);
        lemma_tag_differs(s, 4, "IS_STRING"@, 0);
        assert(s.subrange(4, 11) =~= "is_list"@);
        assert(first_unary_keyword(s, 4, 0) == Some((3int, 7int))) by {
            reveal_with_fuel(first_unary_keyword, 5);
        }
    }
    {
        let s = "!"@ + ("is_list"@ + rest);
        let t = "is_list"@ + rest;
        assert(s.subrange(1, s.len() as int) =~= t);
        assert(s.subrange(0, 1) =~= "!"@);
        assert(s[1] == 'i') by { assert(t[0] == "is_list"@[0]); }
        assert(s[2] == 's') by { assert(t[1] == "is_list"@[1]); }
        assert(s[3] == '_') by { assert(t[2] == "is_list"@[2]); }
        assert(s[4] == 'l') by { assert(t[3] == "is_list"@[3]); }
        assert(s[5] == 'i') by { assert(t[4] == "is_list"@[4]); }
        assert(s[6] == 's') by { assert(t[5] == "is_list"@[5]); }
        assert(s[7] == 't') by { assert(t[6] == "is_list"@[6]); }
        lemma_unary_after_bang(s);
        lemma_tag_differs(s, 1, "EMPTY"@, 0);
        lemma_tag_differs(s, 1, "empty"@, 0);
        lemma_tag_differs(s, 1, "EXISTS"@, 0);
        lemma_tag_differs(s, 1, "exists"@, 0);
        lemma_tag_differs(s, 1, "is_string"@, 3);
        lemma_tag_differs(s, 1, "IS_STRING"@, 0);
        assert(s.subrange(1, 8) =~= "is_list"@);
        assert(first_unary_keyword(s, 1, 0) == Some((3int, 7int))) by {
            reveal_with_fuel(first_unary_keyword, 5);
        }
    }
    {
        let s = "IS_LIST"@ + rest;
        let t = "IS_LIST"@ + rest;
        assert(s[0] == 'I');
        assert(s[1] == 'S');
        assert(s[2] == '_');
        assert(s[3] == 'L');
        assert(s[4] == 'I');
        assert(s[5] == 'S');
        assert(s[6] == 'T');
        lemma_unary_plain(s);
        lemma_tag_differs(s, 0, "EMPTY"@, 0);
        lemma_tag_differs(s, 0, "empty"@, 0);
        lemma_tag_differs(s, 0, "EXISTS"@, 0);
        lemma_tag_differs(s, 0, "exists"@, 0);
        lemma_tag_differs(s, 0, "is_string"@, 0);
        lemma_tag_differs(s, 0, "IS_STRING"@, 3);
        lemma_tag_differs(s, 0, "is_list"@, 0);
        assert(s.subrange(0, 7) =~= "IS_LIST"@);
        assert(first_unary_keyword(s, 0, 0) == Some((3int, 7int))) by {
            reveal_with_fuel(first_unary_keyword, 5);
        }
    }
    {
        let s = "NOT "@ + ("IS_LIST"@ + rest);
        let t = "IS_LIST"@ + rest;
        assert(s.subrange(4, s.len() as int) =~= t);
        assert(s.subrange(0, 4) =~= "NOT "@);
        assert(s[4] == 'I') by { assert(t[0] == "IS_LIST"@[0]); }
        assert(s[5] == 'S') by { assert(t[1] == "IS_LIST"@[1]); }
        assert(s[6] == '_') by { assert(t[2] == "IS_LIST"@[2]); }
        assert(s[7] == 'L') by { assert(t[3] == "IS_LIST"@[3]); }
        assert(s[8] == 'I') by { assert(t[4] == "IS_LIST"@[4]); }
        assert(s[9] == 'S') by { assert(t[5] == "IS_LIST"@[5]); }
        assert(s[10] == 'T') by { assert(t[6] == "IS_LIST"@[6]); }
        lemma_unary_after_not(s, true);
        lemma_tag_differs(s, 4, "EMPTY"@, 0);
        lemma_tag_differs(s, 4, "empty"@, 0);
        lemma_tag_differs(s, 4, "EXISTS"@, 0);
        lemma_tag_differs(s, 4, "exists"@, 0);
        lemma_tag_differs(s, 4, "is_string"@, 0);
        lemma_tag_differs(s, 4, "IS_STRING"@, 3);
        lemma_tag_differs(s, 4, "is_list"@, 0);
        assert(s.subrange(4, 11) =~= "IS_LIST"@);
        assert(first_unary_keyword(s, 4, 0) == Some((3int, 7int))) by {
            reveal_with_fuel(first_unary_keyword, 5);
        }
    }
    {
        let s = "not "@ + ("IS_LIST"@ + rest);
        let t = "IS_LIST"@ + rest;
        assert(s.subrange(4, s.len() as int) =~= t);
        assert(s.subrange(0, 4) =~= "not "@);
        assert(s[4] == 'I') by { assert(t[0] == "IS_LIST"@[0]); }
        assert(s[5] == 'S') by { assert(t[1] == "IS_LIST"@[1]); }
        assert(s[6] == '_') by { assert(t[2] == "IS_LIST"@[2]); }
        assert(s[7] == 'L') by { assert(t[3] == "IS_LIST"@[3]); }
        assert(s[8] == 'I') by { assert(t[4] == "IS_LIST"@[4]); }
        assert(s[9] == 'S') by { assert(t[5] == "IS_LIST"@[5]); }
        assert(s[10] == 'T') by { assert(t[6] == "IS_LIST"@[6]); }
        lemma_unary_after_not(s, false);
        lemma_tag_differs(s, 4, "EMPTY"@, 0);
        lemma_tag_differs(s, 4, "empty"@, 0);
        lemma_tag_differs(s, 4, "EXISTS"@, 0);
        lemma_tag_differs(s, 4, "exists"@, 0);
        lemma_tag_differs(s, 4, "is_string"@, 0);
        lemma_tag_differs(s, 4, "IS_STRING"@, 3);
        lemma_tag_differs(s, 4, "is_list"@, 0);
        assert(s.subrange(4, 11) =~= "IS_LIST"@);
        assert(first_unary_keyword(s, 4, 0) == Some((3int, 7int))) by {
            reveal_with_fuel(first_unary_keyword, 5);
        }
    }
    {
        let s = "!"@ + ("IS_LIST"@ + rest);
        let t = "IS_LIST"@ + rest;
        assert(s.subrange(1, s.len() as int) =~= t);
        assert(s.subrange(0, 1) =~= "!"@);
        assert(s[1] == 'I') by { assert(t[0] == "IS_LIST"@[0]); }
        assert(s[2] == 'S') by { assert(t[1] == "IS_LIST"@[1]); }
        assert(s[3] == '_') by { assert(t[2] == "IS_LIST"@[2]); }
        assert(s[4] == 'L') by { assert(t[3] == "IS_LIST"@[3]); }
        assert(s[5] == 'I') by { assert(t[4] == "IS_LIST"@[4]); }
        assert(s[6] == 'S') by { assert(t[5] == "IS_LIST"@[5]); }
        assert(s[7] == 'T') by { assert(t[6] == "IS_LIST"@[6]); }
        lemma_unary_after_bang(s);
        lemma_tag_differs(s, 1, "EMPTY"@, 0);
        lemma_tag_differs(s, 1, "empty"@, 0);
        lemma_tag_differs(s, 1, "EXISTS"@, 0);
        lemma_tag_differs(s, 1, "exists"@, 0);
        lemma_tag_differs(s, 1, "is_string"@, 0);
        lemma_tag_differs(s, 1, "IS_STRING"@, 3);
        lemma_tag_differs(s, 1, "is_list"@, 0);
        assert(s.subrange(1, 8) =~= "IS_LIST"@);
        assert(first_unary_keyword(s, 1, 0) == Some((3int, 7int))) by {
            reveal_with_fuel(first_unary_keyword, 5);
        }
    }
}

/// A text that begins with `is_int` or `IS_INT` parses to the check `IsInt`,
/// and to `IsNotInt` after `NOT `, `not ` or `!`, whatever follows.
pub proof fn law_int_keyword(rest: Seq<char>)
    ensures
        spec_unary_comparison_operator("is_int"@ + rest, 0).1 == UnaryOperator::IsInt,
        spec_unary_comparison_operator("NOT "@ + ("is_int"@ + rest), 0).1 == UnaryOperator::IsNotInt,
        spec_unary_comparison_operator("not "@ + ("is_int"@ + rest), 0).1 == UnaryOperator::IsNotInt,
        spec_unary_comparison_operator("!"@ + ("is_int"@ + rest), 0).1 == UnaryOperator::IsNotInt,
        spec_unary_comparison_operator("IS_INT"@ + rest, 0).1 == UnaryOperator::IsInt,
        spec_unary_comparison_operator("NOT "@ + ("IS_INT"@ + rest), 0).1 == UnaryOperator::IsNotInt,
        spec_unary_comparison_operator("not "@ + ("IS_INT"@ + rest), 0).1 == UnaryOperator::IsNotInt,
        spec_unary_comparison_operator("!"@ + ("IS_INT"@ + rest), 0).1 == UnaryOperator::IsNotInt,
{
    reveal_strlit("!");
    reveal_strlit("EMPTY");
    reveal_strlit("EXISTS");
    reveal_strlit("IS_BOOL");
    reveal_strlit("IS_FLOAT");
    reveal_strlit("IS_INT");
    reveal_strlit("IS_LIST");
    reveal_strlit("IS_REGEX");
    reveal_strlit("IS_STRING");
    reveal_strlit("NOT ");
    reveal_strlit("empty");
    reveal_strlit("exists");
    reveal_strlit("is_bool");
    reveal_strlit("is_float");
    reveal_strlit("is_int");
    reveal_strlit("is_list");
    reveal_strlit("is_regex");
    reveal_strlit("is_string");
    reveal_strlit("not ");
    {
        let s = "is_int"@ + rest;
        let t = "is_int"@ + rest;
        assert(s[0] == 'i');
        assert(s[1] == 's');
        assert(s[2] == '_');
        assert(s[3] == 'i');
        assert(s[4] == 'n');
        assert(s[5] == 't');
        lemma_unary_plain(s);
        lemma_tag_differs(s, 0, "EMPTY"@, 0);
        lemma_tag_differs(s, 0, "empty"@, 0);
        lemma_tag_differs(s, 0, "EXISTS"@, 0);
        lemma_tag_differs(s, 0, "exists"@, 0);
        lemma_tag_differs(s, 0, "is_string"@, 3);
        lemma_tag_differs(s, 0, "IS_STRING"@, 0);
        lemma_tag_differs(s, 0, "is_list"@, 3);
        lemma_tag_differs(s, 0, "IS_LIST"@, 0);
        assert(s.subrange(0, 6) =~= "is_int"@);
        assert(first_unary_keyword(s, 0, 0) == Some((4int, 6int))) by {
            reveal_with_fuel(first_unary_keyword, 6);
        }
    }
    {
        let s = "NOT "@ + ("is_int"@ + rest);
        let t = "is_int"@ + rest;
        assert(s.subrange(4, s.len() as int) =~= t);
        assert(s.subrange(0, 4) =~= "NOT "@);
        assert(s[4] == 'i') by { assert(t[0] == "is_int"@[0]); }
        assert(s[5] == 's') by { assert(t[1] == "is_int"@[1]); }
        assert(s[6] == '_') by { assert(t[2] == "is_int"@[2]); }
        assert(s[7] == 'i') by { assert(t[3] == "is_int"@[3]); }
        assert(s[8] == 'n') by { assert(t[4] == "is_int"@[4]); }
        assert(s[9] == 't') by { assert(t[5] == "is_int"@[5]); }
        lemma_unary_after_not(s, true);
        lemma_tag_differs(s, 4, "EMPTY"@, 0);
        lemma_tag_differs(s, 4, "empty"@, 0);
        lemma_tag_differs(s, 4, "EXISTS"@, 0);
        lemma_tag_differs(s, 4, "exists"@, 0);
        lemma_tag_differs(s, 4, "is_string"@, 3);
        lemma_tag_differs(s, 4, "IS_STRING"@, 0);
        lemma_tag_differs(s, 4, "is_list"@, 3);
        lemma_tag_differs(s, 4, "IS_LIST"@, 0);
        assert(s.subrange(4, 10) =~= "is_int"@);
        assert(first_unary_keyword(s, 4, 0) == Some((4int, 6int))) by {
            reveal_with_fuel(first_unary_keyword, 6);
        }
    }
    {
        let s = "not "@ + ("is_int"@ + rest);
        let t = "is_int"@ + rest;
        assert(s.subrange(4, s.len() as int) =~= t);
        assert(s.subrange(0, 4) =~= "not "@);
        assert(s[4] == 'i') by { assert(t[0] == "is_int"@[0]); }
        assert(s[5] == 's') by { assert(t[1] == "is_int"@[1]); }
        assert(s[6] == '_') by { assert(t[2] == "is_int"@[2]); }
        assert(s[7] == 'i') by { assert(t[3] == "is_int"@[3]); }
        assert(s[8] == 'n') by { assert(t[4] == "is_int"@[4]); }
        assert(s[9] == 't') by { assert(t[5] == "is_int"@[5]); }
        lemma_unary_after_not(s, false);
        lemma_tag_differs(s, 4, "EMPTY"@, 0);
        lemma_tag_differs(s, 4, "empty"@, 0);
        lemma_tag_differs(s, 4, "EXISTS"@, 0);
        lemma_tag_differs(s, 4, "exists"@, 0);
        lemma_tag_differs(s, 4, "is_string"@, 3);
        lemma_tag_differs(s, 4, "IS_STRING"@, 0);
        lemma_tag_differs(s, 4, "is_list"@, 3);
        lemma_tag_differs(s, 4, "IS_LIST"@, 0);
        assert(s.subrange(4, 10) =~= "is_int"@);
        assert(first_unary_keyword(s, 4, 0) == Some((4int, 6int))) by {
            reveal_with_fuel(first_unary_keyword, 6);
        }
    }
    {
        let s = "!"@ + ("is_int"@ + rest);
        let t = "is_int"@ + rest;
        assert(s.subrange(1, s.len() as int) =~= t);
        assert(s.subrange(0, 1) =~= "!"@);
        assert(s[1] == 'i') by { assert(t[0] == "is_int"@[0]); }
        assert(s[2] == 's') by { assert(t[1] == "is_int"@[1]); }
        assert(s[3] == '_') by { assert(t[2] == "is_int"@[2]); }
        assert(s[4] == 'i') by { assert(t[3] == "is_int"@[3]); }
        assert(s[5] == 'n') by { assert(t[4] == "is_int"@[4]); }
        assert(s[6] == 't') by { assert(t[5] == "is_int"@[5]); }
        lemma_unary_after_bang(s);
        lemma_tag_differs(s, 1, "EMPTY"@, 0);
        lemma_tag_differs(s, 1, "empty"@, 0);
        lemma_tag_differs(s, 1, "EXISTS"@, 0);
        lemma_tag_differs(s, 1, "exists"@, 0);
        lemma_tag_differs(s, 1, "is_string"@, 3);
        lemma_tag_differs(s, 1, "IS_STRING"@, 0);
        lemma_tag_differs(s, 1, "is_list"@, 3);
        lemma_tag_differs(s, 1, "IS_LIST"@, 0);
        assert(s.subrange(1, 7) =~= "is_int"@);
        assert(first_unary_keyword(s, 1, 0) == Some((4int, 6int))) by {
            reveal_with_fuel(first_unary_keyword, 6);
        }
    }
    {
        let s = "IS_INT"@ + rest;
        let t = "IS_INT"@ + rest;
        assert(s[0] == 'I');
        assert(s[1] == 'S');
        assert(s[2] == '_');
        assert(s[3] == 'I');
        assert(s[4] == 'N');
        assert(s[5] == 'T');
        lemma_unary_plain(s);
        lemma_tag_differs(s, 0, "EMPTY"@, 0);
        lemma_tag_differs(s, 0, "empty"@, 0);
        lemma_tag_differs(s, 0, "EXISTS"@, 0);
        lemma_tag_differs(s, 0, "exists"@, 0);
        lemma_tag_differs(s, 0, "is_string"@, 0);
        lemma_tag_differs(s, 0, "IS_STRING"@, 3);
        lemma_tag_differs(s, 0, "is_list"@, 0);
        lemma_tag_differs(s, 0, "IS_LIST"@, 3);
        lemma_tag_differs(s, 0, "is_int"@, 0);
        assert(s.subrange(0, 6) =~= "IS_INT"@);
        assert(first_unary_keyword(s, 0, 0) == Some((4int, 6int))) by {
            reveal_with_fuel(first_unary_keyword, 6);
        }
    }
    {
        let s = "NOT "@ + ("IS_INT"@ + rest);
        let t = "IS_INT"@ + rest;
        assert(s.subrange(4, s.len() as int) =~= t);
        assert(s.subrange(0, 4) =~= "NOT "@);
        assert(s[4] == 'I') by { assert(t[0] == "IS_INT"@[0]); }
        assert(s[5] == 'S') by { assert(t[1] == "IS_INT"@[1]); }
        assert(s[6] == '_') by { assert(t[2] == "IS_INT"@[2]); }
        assert(s[7] == 'I') by { assert(t[3] == "IS_INT"@[3]); }
        assert(s[8] == 'N') by { assert(t[4] == "IS_INT"@[4]); }
        assert(s[9] == 'T') by { assert(t[5] == "IS_INT"@[5]); }
        lemma_unary_after_not(s, true);
        lemma_tag_differs(s, 4, "EMPTY"@, 0);
        lemma_tag_differs(s, 4, "empty"@, 0);
        lemma_tag_differs(s, 4, "EXISTS"@, 0);
        lemma_tag_differs(s, 4, "exists"@, 0);
        lemma_tag_differs(s, 4, "is_string"@, 0);
        lemma_tag_differs(s, 4, "IS_STRING"@, 3);
        lemma_tag_differs(s, 4, "is_list"@, 0);
        lemma_tag_differs(s, 4, "IS_LIST"@, 3);
        lemma_tag_differs(s, 4, "is_int"@, 0);
        assert(s.subrange(4, 10) =~= "IS_INT"@);
        assert(first_unary_keyword(s, 4, 0) == Some((4int, 6int))) by {
            reveal_with_fuel(first_unary_keyword, 6);
        }
    }
    {
        let s = "not "@ + ("IS_INT"@ + rest);
        let t = "IS_INT"@ + rest;
        assert(s.subrange(4, s.len() as int) =~= t);
        assert(s.subrange(0, 4) =~= "not "@);
        assert(s[4] == 'I') by { assert(t[0] == "IS_INT"@[0]); }
        assert(s[5] == 'S') by { assert(t[1] == "IS_INT"@[1]); }
        assert(s[6] == '_') by { assert(t[2] == "IS_INT"@[2]); }
        assert(s[7] == 'I') by { assert(t[3] == "IS_INT"@[3]); }
        assert(s[8] == 'N') by { assert(t[4] == "IS_INT"@[4]); }
        assert(s[9] == 'T') by { assert(t[5] == "IS_INT"@[5]); }
        lemma_unary_after_not(s, false);
        lemma_tag_differs(s, 4, "EMPTY"@, 0);
        lemma_tag_differs(s, 4, "empty"@, 0);
        lemma_tag_differs(s, 4, "EXISTS"@, 0);
        lemma_tag_differs(s, 4, "exists"@, 0);
        lemma_tag_differs(s, 4, "is_string"@, 0);
        lemma_tag_differs(s, 4, "IS_STRING"@, 3);
        lemma_tag_differs(s, 4, "is_list"@, 0);
        lemma_tag_differs(s, 4, "IS_LIST"@, 3);
        lemma_tag_differs(s, 4, "is_int"@, 0);
        assert(s.subrange(4, 10) =~= "IS_INT"@);
        assert(first_unary_keyword(s, 4, 0) == Some((4int, 6int))) by {
            reveal_with_fuel(first_unary_keyword, 6);
        }
    }
    {
        let s = "!"@ + ("IS_INT"@ + rest);
        let t = "IS_INT"@ + rest;
        assert(s.subrange(1, s.len() as int) =~= t);
        assert(s.subrange(0, 1) =~= "!"@);
        assert(s[1] == 'I') by { assert(t[0] == "IS_INT"@[0]); }
        assert(s[2] == 'S') by { assert(t[1] == "IS_INT"@[1]); }
        assert(s[3] == '_') by { assert(t[2] == "IS_INT"@[2]); }
        assert(s[4] == 'I') by { assert(t[3] == "IS_INT"@[3]); }
        assert(s[5] == 'N') by { assert(t[4] == "IS_INT"@[4]); }
        assert(s[6] == 'T') by { assert(t[5] == "IS_INT"@[5]); }
        lemma_unary_after_bang(s);
        lemma_tag_differs(s, 1, "EMPTY"@, 0);
        lemma_tag_differs(s, 1, "empty"@, 0);
        lemma_tag_differs(s, 1, "EXISTS"@, 0);
        lemma_tag_differs(s, 1, "exists"@, 0);
        lemma_tag_differs(s, 1, "is_string"@, 0);
        lemma_tag_differs(s, 1, "IS_STRING"@, 3);
        lemma_tag_differs(s, 1, "is_list"@, 0);
        lemma_tag_differs(s, 1, "IS_LIST"@, 3);
        lemma_tag_differs(s, 1, "is_int"@, 0);
        assert(s.subrange(1, 7) =~= "IS_INT"@);
        assert(first_unary_keyword(s, 1, 0) == Some((4int, 6int))) by {
            reveal_with_fuel(first_unary_keyword, 6);
        }
    }
}

/// A text that begins with `is_float` or `IS_FLOAT` parses to the check `IsFloat`,
/// and to `IsNotFloat` after `NOT `, `not ` or `!`, whatever follows.
pub proof fn law_float_keyword(rest: Seq<char>)
    ensures
        spec_unary_comparison_operator("is_float"@ + rest, 0).1 == UnaryOperator::IsFloat,
        spec_unary_comparison_operator("NOT "@ + ("is_float"@ + rest), 0).1 == UnaryOperator::IsNotFloat,
        spec_unary_comparison_operator("not "@ + ("is_float"@ + rest), 0).1 == UnaryOperator::IsNotFloat,
        spec_unary_comparison_operator("!"@ + ("is_float"@ + rest), 0).1 == UnaryOperator::IsNotFloat,
        spec_unary_comparison_operator("IS_FLOAT"@ + rest, 0).1 == UnaryOperator::IsFloat,
        spec_unary_comparison_operator("NOT "@ + ("IS_FLOAT"@ + rest), 0).1 == UnaryOperator::IsNotFloat,
        spec_unary_comparison_operator("not "@ + ("IS_FLOAT"@ + rest), 0).1 == UnaryOperator::IsNotFloat,
        spec_unary_comparison_operator("!"@ + ("IS_FLOAT"@ + rest), 0).1 == UnaryOperator::IsNotFloat,
{
    reveal_strlit("!");
    reveal_strlit("EMPTY");
    reveal_strlit("EXISTS");
    reveal_strlit("IS_BOOL");
    reveal_strlit("IS_FLOAT");
    reveal_strlit("IS_INT");
    reveal_strlit("IS_LIST");
    reveal_strlit("IS_REGEX");
    reveal_strlit("IS_STRING");
    reveal_strlit("NOT ");
    reveal_strlit("empty");
    reveal_strlit("exists");
    reveal_strlit("is_bool");
    reveal_strlit("is_float");
    reveal_strlit("is_int");
    reveal_strlit("is_list");
    reveal_strlit("is_regex");
    reveal_strlit("is_string");
    reveal_strlit("not ");
    {
        let s = "is_float"@ + rest;
        let t = "is_float"@ + rest;
        assert(s[0] == 'i');
        assert(s[1] == 's');
        assert(s[2] == '_');
        assert(s[3] == 'f');
        assert(s[4] == 'l');
        assert(s[5] == 'o');
        assert(s[6] == 'a');
        assert(s[7] == 't');
        lemma_unary_plain(s);
        lemma_tag_differs(s, 0, "EMPTY"@, 0);
        lemma_tag_differs(s, 0, "empty"@, 0);
        lemma_tag_differs(s, 0, "EXISTS"@, 0);
        lemma_tag_differs(s, 0, "exists"@, 0);
        lemma_tag_differs(s, 0, "is_string"@, 3);
        lemma_tag_differs(s, 0, "IS_STRING"@, 0);
        lemma_tag_differs(s, 0, "is_list"@, 3);
        lemma_tag_differs(s, 0, "IS_LIST"@, 0);
        lemma_tag_differs(s, 0, "is_int"@, 3);
        lemma_tag_differs(s, 0, "IS_INT"@, 0);
        assert(s.subrange(0, 8) =~= "is_float"@);
        assert(first_unary_keyword(s, 0, 0) == Some((5int, 8int))) by {
            reveal_with_fuel(first_unary_keyword, 7);
        }
    }
    {
        let s = "NOT "@ + ("is_float"@ + rest);
        let t = "is_float"@ + rest;
        assert(s.subrange(4, s.len() as int) =~= t);
        assert(s.subrange(0, 4) =~= "NOT "@);
        assert(s[4] == 'i') by { assert(t[0] == "is_float"@[0]); }
        assert(s[5] == 's') by { assert(t[1] == "is_float"@[1]); }
        assert(s[6] == '_') by { assert(t[2] == "is_float"@[2]); }
        assert(s[7] == 'f') by { assert(t[3] == "is_float"@[3]); }
        assert(s[8] == 'l') by { assert(t[4] == "is_float"@[4]); }
        assert(s[9] == 'o') by { assert(t[5] == "is_float"@[5]); }
        assert(s[10] == 'a') by { assert(t[6] == "is_float"@[6]); }
        assert(s[11] == 't') by { assert(t[7] == "is_float"@[7]); }
        lemma_unary_after_not(s, true);
        lemma_tag_differs(s, 4, "EMPTY"@, 0);
        lemma_tag_differs(s, 4, "empty"@, 0);
        lemma_tag_differs(s, 4, "EXISTS"@, 0);
        lemma_tag_differs(s, 4, "exists"@, 0);
        lemma_tag_differs(s, 4, "is_string"@, 3);
        lemma_tag_differs(s, 4, "IS_STRING"@, 0);
        lemma_tag_differs(s, 4, "is_list"@, 3);
        lemma_tag_differs(s, 4, "IS_LIST"@, 0);
        lemma_tag_differs(s, 4, "is_int"@, 3);
        lemma_tag_differs(s, 4, "IS_INT"@, 0);
        assert(s.subrange(4, 12) =~= "is_float"@);
        assert(first_unary_keyword(s, 4, 0) == Some((5int, 8int))) by {
            reveal_with_fuel(first_unary_keyword, 7);
        }
    }
    {
        let s = "not "@ + ("is_float"@ + rest);
        let t = "is_float"@ + rest;
        assert(s.subrange(4, s.len() as int) =~= t);
        assert(s.subrange(0, 4) =~= "not "@);
        assert(s[4] == 'i') by { assert(t[0] == "is_float"@[0]); }
        assert(s[5] == 's') by { assert(t[1] == "is_float"@[1]); }
        assert(s[6] == '_') by { assert(t[2] == "is_float"@[2]); }
        assert(s[7] == 'f') by { assert(t[3] == "is_float"@[3]); }
        assert(s[8] == 'l') by { assert(t[4] == "is_float"@[4]); }
        assert(s[9] == 'o') by { assert(t[5] == "is_float"@[5]); }
        assert(s[10] == 'a') by { assert(t[6] == "is_float"@[6]); }
        assert(s[11] == 't') by { assert(t[7] == "is_float"@[7]); }
        lemma_unary_after_not(s, false);
        lemma_tag_differs(s, 4, "EMPTY"@, 0);
        lemma_tag_differs(s, 4, "empty"@, 0);
        lemma_tag_differs(s, 4, "EXISTS"@, 0);
        lemma_tag_differs(s, 4, "exists"@, 0);
        lemma_tag_differs(s, 4, "is_string"@, 3);
        lemma_tag_differs(s, 4, "IS_STRING"@, 0);
        lemma_tag_differs(s, 4, "is_list"@, 3);
        lemma_tag_differs(s, 4, "IS_LIST"@, 0);
        lemma_tag_differs(s, 4, "is_int"@, 3);
        lemma_tag_differs(s, 4, "IS_INT"@, 0);
        assert(s.subrange(4, 12) =~= "is_float"@);
        assert(first_unary_keyword(s, 4, 0) == Some((5int, 8int))) by {
            reveal_with_fuel(first_unary_keyword, 7);
        }
    }
    {
        let s = "!"@ + ("is_float"@ + rest);
        let t = "is_float"@ + rest;
        assert(s.subrange(1, s.len() as int) =~= t);
        assert(s.subrange(0, 1) =~= "!"@);
        assert(s[1] == 'i') by { assert(t[0] == "is_float"@[0]); }
        assert(s[2] == 's') by { assert(t[1] == "is_float"@[1]); }
        assert(s[3] == '_') by { assert(t[2] == "is_float"@[2]); }
        assert(s[4] == 'f') by { assert(t[3] == "is_float"@[3]); }
        assert(s[5] == 'l') by { assert(t[4] == "is_float"@[4]); }
        assert(s[6] == 'o') by { assert(t[5] == "is_float"@[5]); }
        assert(s[7] == 'a') by { assert(t[6] == "is_float"@[6]); }
        assert(s[8] == 't') by { assert(t[7] == "is_float"@[7]); }
        lemma_unary_after_bang(s);
        lemma_tag_differs(s, 1, "EMPTY"@, 0);
        lemma_tag_differs(s, 1, "empty"@, 0);
        lemma_tag_differs(s, 1, "EXISTS"@, 0);
        lemma_tag_differs(s, 1, "exists"@, 0);
        lemma_tag_differs(s, 1, "is_string"@, 3);
        lemma_tag_differs(s, 1, "IS_STRING"@, 0);
        lemma_tag_differs(s, 1, "is_list"@, 3);
        lemma_tag_differs(s, 1, "IS_LIST"@, 0);
        lemma_tag_differs(s, 1, "is_int"@, 3);
        lemma_tag_differs(s, 1, "IS_INT"@, 0);
        assert(s.subrange(1, 9) =~= "is_float"@);
        assert(first_unary_keyword(s, 1, 0) == Some((5int, 8int))) by {
            reveal_with_fuel(first_unary_keyword, 7);
        }
    }
    {
        let s = "IS_FLOAT"@ + rest;
        let t = "IS_FLOAT"@ + rest;
        assert(s[0] == 'I');
        assert(s[1] == 'S');
        assert(s[2] == '_');
        assert(s[3] == 'F');
        assert(s[4] == 'L');
        assert(s[5] == 'O');
        assert(s[6] == 'A');
        assert(s[7] == 'T');
        lemma_unary_plain(s);
        lemma_tag_differs(s, 0, "EMPTY"@, 0);
        lemma_tag_differs(s, 0, "empty"@, 0);
        lemma_tag_differs(s, 0, "EXISTS"@, 0);
        lemma_tag_differs(s, 0, "exists"@, 0);
        lemma_tag_differs(s, 0, "is_string"@, 0);
        lemma_tag_differs(s, 0, "IS_STRING"@, 3);
        lemma_tag_differs(s, 0, "is_list"@, 0);
        lemma_tag_differs(s, 0, "IS_LIST"@, 3);
        lemma_tag_differs(s, 0, "is_int"@, 0);
        lemma_tag_differs(s, 0, "IS_INT"@, 3);
        lemma_tag_differs(s, 0, "is_float"@, 0);
        assert(s.subrange(0, 8) =~= "IS_FLOAT"@);
        assert(first_unary_keyword(s, 0, 0) == Some((5int, 8int))) by {
            reveal_with_fuel(first_unary_keyword, 7);
        }
    }
    {
        let s = "NOT "@ + ("IS_FLOAT"@ + rest);
        let t = "IS_FLOAT"@ + rest;
        assert(s.subrange(4, s.len() as int) =~= t);
        assert(s.subrange(0, 4) =~= "NOT "@);
        assert(s[4] == 'I') by { assert(t[0] == "IS_FLOAT"@[0]); }
        assert(s[5] == 'S') by { assert(t[1] == "IS_FLOAT"@[1]); }
        assert(s[6] == '_') by { assert(t[2] == "IS_FLOAT"@[2]); }
        assert(s[7] == 'F') by { assert(t[3] == "IS_FLOAT"@[3]); }
        assert(s[8] == 'L') by { assert(t[4] == "IS_FLOAT"@[4]); }
        assert(s[9] == 'O') by { assert(t[5] == "IS_FLOAT"@[5]); }
        assert(s[10] == 'A') by { assert(t[6] == "IS_FLOAT"@[6]); }
        assert(s[11] == 'T') by { assert(t[7] == "IS_FLOAT"@[7]); }
        lemma_unary_after_not(s, true);
        lemma_tag_differs(s, 4, "EMPTY"@, 0);
        lemma_tag_differs(s, 4, "empty"@, 0);
        lemma_tag_differs(s, 4, "EXISTS"@, 0);
        lemma_tag_differs(s, 4, "exists"@, 0);
        lemma_tag_differs(s, 4, "is_string"@, 0);
        lemma_tag_differs(s, 4, "IS_STRING"@, 3);
        lemma_tag_differs(s, 4, "is_list"@, 0);
        lemma_tag_differs(s, 4, "IS_LIST"@, 3);
        lemma_tag_differs(s, 4, "is_int"@, 0);
        lemma_tag_differs(s, 4, "IS_INT"@, 3);
        lemma_tag_differs(s, 4, "is_float"@, 0);
        assert(s.subrange(4, 12) =~= "IS_FLOAT"@);
        assert(first_unary_keyword(s, 4, 0) == Some((5int, 8int))) by {
            reveal_with_fuel(first_unary_keyword, 7);
        }
    }
    {
        let s = "not "@ + ("IS_FLOAT"@ + rest);
        let t = "IS_FLOAT"@ + rest;
        assert(s.subrange(4, s.len() as int) =~= t);
        assert(s.subrange(0, 4) =~= "not "@);
        assert(s[4] == 'I') by { assert(t[0] == "IS_FLOAT"@[0]); }
        assert(s[5] == 'S') by { assert(t[1] == "IS_FLOAT"@[1]); }
        assert(s[6] == '_') by { assert(t[2] == "IS_FLOAT"@[2]); }
        assert(s[7] == 'F') by { assert(t[3] == "IS_FLOAT"@[3]); }
        assert(s[8] == 'L') by { assert(t[4] == "IS_FLOAT"@[4]); }
        assert(s[9] == 'O') by { assert(t[5] == "IS_FLOAT"@[5]); }
        assert(s[10] == 'A') by { assert(t[6] == "IS_FLOAT"@[6]); }
        assert(s[11] == 'T') by { assert(t[7] == "IS_FLOAT"@[7]); }
        lemma_unary_after_not(s, false);
        lemma_tag_differs(s, 4, "EMPTY"@, 0);
        lemma_tag_differs(s, 4, "empty"@, 0);
        lemma_tag_differs(s, 4, "EXISTS"@, 0);
        lemma_tag_differs(s, 4, "exists"@, 0);
        lemma_tag_differs(s, 4, "is_string"@, 0);
        lemma_tag_differs(s, 4, "IS_STRING"@, 3);
        lemma_tag_differs(s, 4, "is_list"@, 0);
        lemma_tag_differs(s, 4, "IS_LIST"@, 3);
        lemma_tag_differs(s, 4, "is_int"@, 0);
        lemma_tag_differs(s, 4, "IS_INT"@, 3);
        lemma_tag_differs(s, 4, "is_float"@, 0);
        assert(s.subrange(4, 12) =~= "IS_FLOAT"@);
        assert(first_unary_keyword(s, 4, 0) == Some((5int, 8int))) by {
            reveal_with_fuel(first_unary_keyword, 7);
        }
    }
    {
        let s = "!"@ + ("IS_FLOAT"@ + rest);
        let t = "IS_FLOAT"@ + rest;
        assert(s.subrange(1, s.len() as int) =~= t);
        assert(s.subrange(0, 1) =~= "!"@);
        assert(s[1] == 'I') by { assert(t[0] == "IS_FLOAT"@[0]); }
        assert(s[2] == 'S') by { assert(t[1] == "IS_FLOAT"@[1]); }
        assert(s[3] == '_') by { assert(t[2] == "IS_FLOAT"@[2]); }
        assert(s[4] == 'F') by { assert(t[3] == "IS_FLOAT"@[3]); }
        assert(s[5] == 'L') by { assert(t[4] == "IS_FLOAT"@[4]); }
        assert(s[6] == 'O') by { assert(t[5] == "IS_FLOAT"@[5]); }
        assert(s[7] == 'A') by { assert(t[6] == "IS_FLOAT"@[6]); }
        assert(s[8] == 'T') by { assert(t[7] == "IS_FLOAT"@[7]); }
        lemma_unary_after_bang(s);
        lemma_tag_differs(s, 1, "EMPTY"@, 0);
        lemma_tag_differs(s, 1, "empty"@, 0);
        lemma_tag_differs(s, 1, "EXISTS"@, 0);
        lemma_tag_differs(s, 1, "exists"@, 0);
        lemma_tag_differs(s, 1, "is_string"@, 0);
        lemma_tag_differs(s, 1, "IS_STRING"@, 3);
        lemma_tag_differs(s, 1, "is_list"@, 0);
        lemma_tag_differs(s, 1, "IS_LIST"@, 3);
        lemma_tag_differs(s, 1, "is_int"@, 0);
        lemma_tag_differs(s, 1, "IS_INT"@, 3);
        lemma_tag_differs(s, 1, "is_float"@, 0);
        assert(s.subrange(1, 9) =~= "IS_FLOAT"@);
        assert(first_unary_keyword(s, 1, 0) == Some((5int, 8int))) by {
            reveal_with_fuel(first_unary_keyword, 7);
        }
    }
}

/// A text that begins with `is_bool` or `IS_BOOL` parses to the check `IsBool`,
/// and to `IsNotBool` after `NOT `, `not ` or `!`, whatever follows.
pub proof fn law_bool_keyword(rest: Seq<char>)
    ensures
        spec_unary_comparison_operator("is_bool"@ + rest, 0).1 == UnaryOperator::IsBool,
        spec_unary_comparison_operator("NOT "@ + ("is_bool"@ + rest), 0).1 == UnaryOperator::IsNotBool,
        spec_unary_comparison_operator("not "@ + ("is_bool"@ + rest), 0).1 == UnaryOperator::IsNotBool,
        spec_unary_comparison_operator("!"@ + ("is_bool"@ + rest), 0).1 == UnaryOperator::IsNotBool,
        spec_unary_comparison_operator("IS_BOOL"@ + rest, 0).1 == UnaryOperator::IsBool,
        spec_unary_comparison_operator("NOT "@ + ("IS_BOOL"@ + rest), 0).1 == UnaryOperator::IsNotBool,
        spec_unary_comparison_operator("not "@ + ("IS_BOOL"@ + rest), 0).1 == UnaryOperator::IsNotBool,
        spec_unary_comparison_operator("!"@ + ("IS_BOOL"@ + rest), 0).1 == UnaryOperator::IsNotBool,
{
    reveal_strlit("!");
    reveal_strlit("EMPTY");
    reveal_strlit("EXISTS");
    reveal_strlit("IS_BOOL");
    reveal_strlit("IS_FLOAT");
    reveal_strlit("IS_INT");
    reveal_strlit("IS_LIST");
    reveal_strlit("IS_REGEX");
    reveal_strlit("IS_STRING");
    reveal_strlit("NOT ");
    reveal_strlit("empty");
    reveal_strlit("exists");
    reveal_strlit("is_bool");
    reveal_strlit("is_float");
    reveal_strlit("is_int");
    reveal_strlit("is_list");
    reveal_strlit("is_regex");
    reveal_strlit("is_string");
    reveal_strlit("not ");
    {
        let s = "is_bool"@ + rest;
        let t = "is_bool"@ + rest;
        assert(s[0] == 'i');
        assert(s[1] == 's');
        assert(s[2] == '_');
        assert(s[3] == 'b');
        assert(s[4] == 'o');
        assert(s[5] == 'o');
        assert(s[6] == 'l');
        lemma_unary_plain(s);
        lemma_tag_differs(s, 0, "EMPTY"@, 0);
        lemma_tag_differs(s, 0, "empty"@, 0);
        lemma_tag_differs(s, 0, "EXISTS"@, 0);
        lemma_tag_differs(s, 0, "exists"@, 0);
        lemma_tag_differs(s, 0, "is_string"@, 3);
        lemma_tag_differs(s, 0, "IS_STRING"@, 0);
        lemma_tag_differs(s, 0, "is_list"@, 3);
        lemma_tag_differs(s, 0, "IS_LIST"@, 0);
        lemma_tag_differs(s, 0, "is_int"@, 3);
        lemma_tag_differs(s, 0, "IS_INT"@, 0);
        lemma_tag_differs(s, 0, "is_float"@, 3);
        lemma_tag_differs(s, 0, "IS_FLOAT"@, 0);
        assert(s.subrange(0, 7) =~= "is_bool"@);
        assert(first_unary_keyword(s, 0, 0) == Some((6int, 7int))) by {
            reveal_with_fuel(first_unary_keyword, 8);
        }
    }
    {
        let s = "NOT "@ + ("is_bool"@ + rest);
        let t = "is_bool"@ + rest;
        assert(s.subrange(4, s.len() as int) =~= t);
        assert(s.subrange(0, 4) =~= "NOT "@);
        assert(s[4] == 'i') by { assert(t[0] == "is_bool"@[0]); }
        assert(s[5] == 's') by { assert(t[1] == "is_bool"@[1]); }
        assert(s[6] == '_') by { assert(t[2] == "is_bool"@[2]); }
        assert(s[7] == 'b') by { assert(t[3] == "is_bool"@[3]); }
        assert(s[8] == 'o') by { assert(t[4] == "is_bool"@[4]); }
        assert(s[9] == 'o') by { assert(t[5] == "is_bool"@[5]); }
        assert(s[10] == 'l') by { assert(t[6] == "is_bool"@[6]); }
        lemma_unary_after_not(s, true);
        lemma_tag_differs(s, 4, "EMPTY"@, 0);
        lemma_tag_differs(s, 4, "empty"@, 0);
        lemma_tag_differs(s, 4, "EXISTS"@, 0);
        lemma_tag_differs(s, 4, "exists"@, 0);
        lemma_tag_differs(s, 4, "is_string"@, 3);
        lemma_tag_differs(s, 4, "IS_STRING"@, 0);
        lemma_tag_differs(s, 4, "is_list"@, 3);
        lemma_tag_differs(s, 4, "IS_LIST"@, 0);
        lemma_tag_differs(s, 4, "is_int"@, 3);
        lemma_tag_differs(s, 4, "IS_INT"@, 0);
        lemma_tag_differs(s, 4, "is_float"@, 3);
        lemma_tag_differs(s, 4, "IS_FLOAT"@, 0);
        assert(s.subrange(4, 11) =~= "is_bool"@);
        assert(first_unary_keyword(s, 4, 0) == Some((6int, 7int))) by {
            reveal_with_fuel(first_unary_keyword, 8);
        }
    }
    {
        let s = "not "@ + ("is_bool"@ + rest);
        let t = "is_bool"@ + rest;
        assert(s.subrange(4, s.len() as int) =~= t);
        assert(s.subrange(0, 4) =~= "not "@);
        assert(s[4] == 'i') by { assert(t[0] == "is_bool"@[0]); }
        assert(s[5] == 's') by { assert(t[1] == "is_bool"@[1]); }
        assert(s[6] == '_') by { assert(t[2] == "is_bool"@[2]); }
        assert(s[7] == 'b') by { assert(t[3] == "is_bool"@[3]); }
        assert(s[8] == 'o') by { assert(t[4] == "is_bool"@[4]); }
        assert(s[9] == 'o') by { assert(t[5] == "is_bool"@[5]); }
        assert(s[10] == 'l') by { assert(t[6] == "is_bool"@[6]); }
        lemma_unary_after_not(s, false);
        lemma_tag_differs(s, 4, "EMPTY"@, 0);
        lemma_tag_differs(s, 4, "empty"@, 0);
        lemma_tag_differs(s, 4, "EXISTS"@, 0);
        lemma_tag_differs(s, 4, "exists"@, 0);
        lemma_tag_differs(s, 4, "is_string"@, 3);
        lemma_tag_differs(s, 4, "IS_STRING"@, 0);
        lemma_tag_differs(s, 4, "is_list"@, 3);
        lemma_tag_differs(s, 4, "IS_LIST"@, 0);
        lemma_tag_differs(s, 4, "is_int"@, 3);
        lemma_tag_differs(s, 4, "IS_INT"@, 0);
        lemma_tag_differs(s, 4, "is_float"@, 3);
        lemma_tag_differs(s, 4, "IS_FLOAT"@, 0);
        assert(s.subrange(4, 11) =~= "is_bool"@);
        assert(first_unary_keyword(s, 4, 0) == Some((6int, 7int))) by {
            reveal_with_fuel(first_unary_keyword, 8);
        }
    }
    {
        let s = "!"@ + ("is_bool"@ + rest);
        let t = "is_bool"@ + rest;
        assert(s.subrange(1, s.len() as int) =~= t);
        assert(s.subrange(0, 1) =~= "!"@);
        assert(s[1] == 'i') by { assert(t[0] == "is_bool"@[0]); }
        assert(s[2] == 's') by { assert(t[1] == "is_bool"@[1]); }
        assert(s[3] == '_') by { assert(t[2] == "is_bool"@[2]); }
        assert(s[4] == 'b') by { assert(t[3] == "is_bool"@[3]); }
        assert(s[5] == 'o') by { assert(t[4] == "is_bool"@[4]); }
        assert(s[6] == 'o') by { assert(t[5] == "is_bool"@[5]); }
        assert(s[7] == 'l') by { assert(t[6] == "is_bool"@[6]); }
        lemma_unary_after_bang(s);
        lemma_tag_differs(s, 1, "EMPTY"@, 0);
        lemma_tag_differs(s, 1, "empty"@, 0);
        lemma_tag_differs(s, 1, "EXISTS"@, 0);
        lemma_tag_differs(s, 1, "exists"@, 0);
        lemma_tag_differs(s, 1, "is_string"@, 3);
        lemma_tag_differs(s, 1, "IS_STRING"@, 0);
        lemma_tag_differs(s, 1, "is_list"@, 3);
        lemma_tag_differs(s, 1, "IS_LIST"@, 0);
        lemma_tag_differs(s, 1, "is_int"@, 3);
        lemma_tag_differs(s, 1, "IS_INT"@, 0);
        lemma_tag_differs(s, 1, "is_float"@, 3);
        lemma_tag_differs(s, 1, "IS_FLOAT"@, 0);
        assert(s.subrange(1, 8) =~= "is_bool"@);
        assert(first_unary_keyword(s, 1, 0) == Some((6int, 7int))) by {
            reveal_with_fuel(first_unary_keyword, 8);
        }
    }
    {
        let s = "IS_BOOL"@ + rest;
        let t = "IS_BOOL"@ + rest;
        assert(s[0] == 'I');
        assert(s[1] == 'S');
        assert(s[2] == '_');
        assert(s[3] == 'B');
        assert(s[4] == 'O');
        assert(s[5] == 'O');
        assert(s[6] == 'L');
        lemma_unary_plain(s);
        lemma_tag_differs(s, 0, "EMPTY"@, 0);
        lemma_tag_differs(s, 0, "empty"@, 0);
        lemma_tag_differs(s, 0, "EXISTS"@, 0);
        lemma_tag_differs(s, 0, "exists"@, 0);
        lemma_tag_differs(s, 0, "is_string"@, 0);
        lemma_tag_differs(s, 0, "IS_STRING"@, 3);
        lemma_tag_differs(s, 0, "is_list"@, 0);
        lemma_tag_differs(s, 0, "IS_LIST"@, 3);
        lemma_tag_differs(s, 0, "is_int"@, 0);
        lemma_tag_differs(s, 0, "IS_INT"@, 3);
        lemma_tag_differs(s, 0, "is_float"@, 0);
        lemma_tag_differs(s, 0, "IS_FLOAT"@, 3);
        lemma_tag_differs(s, 0, "is_bool"@, 0);
        assert(s.subrange(0, 7) =~= "IS_BOOL"@);
        assert(first_unary_keyword(s, 0, 0) == Some((6int, 7int))) by {
            reveal_with_fuel(first_unary_keyword, 8);
        }
    }
    {
        let s = "NOT "@ + ("IS_BOOL"@ + rest);
        let t = "IS_BOOL"@ + rest;
        assert(s.subrange(4, s.len() as int) =~= t);
        assert(s.subrange(0, 4) =~= "NOT "@);
        assert(s[4] == 'I') by { assert(t[0] == "IS_BOOL"@[0]); }
        assert(s[5] == 'S') by { assert(t[1] == "IS_BOOL"@[1]); }
        assert(s[6] == '_') by { assert(t[2] == "IS_BOOL"@[2]); }
        assert(s[7] == 'B') by { assert(t[3] == "IS_BOOL"@[3]); }
        assert(s[8] == 'O') by { assert(t[4] == "IS_BOOL"@[4]); }
        assert(s[9] == 'O') by { assert(t[5] == "IS_BOOL"@[5]); }
        assert(s[10] == 'L') by { assert(t[6] == "IS_BOOL"@[6]); }
        lemma_unary_after_not(s, true);
        lemma_tag_differs(s, 4, "EMPTY"@, 0);
        lemma_tag_differs(s, 4, "empty"@, 0);
        lemma_tag_differs(s, 4, "EXISTS"@, 0);
        lemma_tag_differs(s, 4, "exists"@, 0);
        lemma_tag_differs(s, 4, "is_string"@, 0);
        lemma_tag_differs(s, 4, "IS_STRING"@, 3);
        lemma_tag_differs(s, 4, "is_list"@, 0);
        lemma_tag_differs(s, 4, "IS_LIST"@, 3);
        lemma_tag_differs(s, 4, "is_int"@, 0);
        lemma_tag_differs(s, 4, "IS_INT"@, 3);
        lemma_tag_differs(s, 4, "is_float"@, 0);
        lemma_tag_differs(s, 4, "IS_FLOAT"@, 3);
        lemma_tag_differs(s, 4, "is_bool"@, 0);
        assert(s.subrange(4, 11) =~= "IS_BOOL"@);
        assert(first_unary_keyword(s, 4, 0) == Some((6int, 7int))) by {
            reveal_with_fuel(first_unary_keyword, 8);
        }
    }
    {
        let s = "not "@ + ("IS_BOOL"@ + rest);
        let t = "IS_BOOL"@ + rest;
        assert(s.subrange(4, s.len() as int) =~= t);
        assert(s.subrange(0, 4) =~= "not "@);
        assert(s[4] == 'I') by { assert(t[0] == "IS_BOOL"@[0]); }
        assert(s[5] == 'S') by { assert(t[1] == "IS_BOOL"@[1]); }
        assert(s[6] == '_') by { assert(t[2] == "IS_BOOL"@[2]); }
        assert(s[7] == 'B') by { assert(t[3] == "IS_BOOL"@[3]); }
        assert(s[8] == 'O') by { assert(t[4] == "IS_BOOL"@[4]); }
        assert(s[9] == 'O') by { assert(t[5] == "IS_BOOL"@[5]); }
        assert(s[10] == 'L') by { assert(t[6] == "IS_BOOL"@[6]); }
        lemma_unary_after_not(s, false);
        lemma_tag_differs(s, 4, "EMPTY"@, 0);
        lemma_tag_differs(s, 4, "empty"@, 0);
        lemma_tag_differs(s, 4, "EXISTS"@, 0);
        lemma_tag_differs(s, 4, "exists"@, 0);
        lemma_tag_differs(s, 4, "is_string"@, 0);
        lemma_tag_differs(s, 4, "IS_STRING"@, 3);
        lemma_tag_differs(s, 4, "is_list"@, 0);
        lemma_tag_differs(s, 4, "IS_LIST"@, 3);
        lemma_tag_differs(s, 4, "is_int"@, 0);
        lemma_tag_differs(s, 4, "IS_INT"@, 3);
        lemma_tag_differs(s, 4, "is_float"@, 0);
        lemma_tag_differs(s, 4, "IS_FLOAT"@, 3);
        lemma_tag_differs(s, 4, "is_bool"@, 0);
        assert(s.subrange(4, 11) =~= "IS_BOOL"@);
        assert(first_unary_keyword(s, 4, 0) == Some((6int, 7int))) by {
            reveal_with_fuel(first_unary_keyword, 8);
        }
    }
    {
        let s = "!"@ + ("IS_BOOL"@ + rest);
        let t = "IS_BOOL"@ + rest;
        assert(s.subrange(1, s.len() as int) =~= t);
        assert(s.subrange(0, 1) =~= "!"@);
        assert(s[1] == 'I') by { assert(t[0] == "IS_BOOL"@[0]); }
        assert(s[2] == 'S') by { assert(t[1] == "IS_BOOL"@[1]); }
        assert(s[3] == '_') by { assert(t[2] == "IS_BOOL"@[2]); }
        assert(s[4] == 'B') by { assert(t[3] == "IS_BOOL"@[3]); }
        assert(s[5] == 'O') by { assert(t[4] == "IS_BOOL"@[4]); }
        assert(s[6] == 'O') by { assert(t[5] == "IS_BOOL"@[5]); }
        assert(s[7] == 'L') by { assert(t[6] == "IS_BOOL"@[6]); }
        lemma_unary_after_bang(s);
        lemma_tag_differs(s, 1, "EMPTY"@, 0);
        lemma_tag_differs(s, 1, "empty"@, 0);
        lemma_tag_differs(s, 1, "EXISTS"@, 0);
        lemma_tag_differs(s, 1, "exists"@, 0);
        lemma_tag_differs(s, 1, "is_string"@, 0);
        lemma_tag_differs(s, 1, "IS_STRING"@, 3);
        lemma_tag_differs(s, 1, "is_list"@, 0);
        lemma_tag_differs(s, 1, "IS_LIST"@, 3);
        lemma_tag_differs(s, 1, "is_int"@, 0);
        lemma_tag_differs(s, 1, "IS_INT"@, 3);
        lemma_tag_differs(s, 1, "is_float"@, 0);
        lemma_tag_differs(s, 1, "IS_FLOAT"@, 3);
        lemma_tag_differs(s, 1, "is_bool"@, 0);
        assert(s.subrange(1, 8) =~= "IS_BOOL"@);
        assert(first_unary_keyword(s, 1, 0) == Some((6int, 7int))) by {
            reveal_with_fuel(first_unary_keyword, 8);
        }
    }
}

/// A text that begins with `is_regex` or `IS_REGEX` parses to the check `IsRegex`,
/// and to `IsNotRegex` after `NOT `, `not ` or `!`, whatever follows.
pub proof fn law_regex_keyword(rest: Seq<char>)
    ensures
        spec_unary_comparison_operator("is_regex"@ + rest, 0).1 == UnaryOperator::IsRegex,
        spec_unary_comparison_operator("NOT "@ + ("is_regex"@ + rest), 0).1 == UnaryOperator::IsNotRegex,
        spec_unary_comparison_operator("not "@ + ("is_regex"@ + rest), 0).1 == UnaryOperator::IsNotRegex,
        spec_unary_comparison_operator("!"@ + ("is_regex"@ + rest), 0).1 == UnaryOperator::IsNotRegex,
        spec_unary_comparison_operator("IS_REGEX"@ + rest, 0).1 == UnaryOperator::IsRegex,
        spec_unary_comparison_operator("NOT "@ + ("IS_REGEX"@ + rest), 0).1 == UnaryOperator::IsNotRegex,
        spec_unary_comparison_operator("not "@ + ("IS_REGEX"@ + rest), 0).1 == UnaryOperator::IsNotRegex,
        spec_unary_comparison_operator("!"@ + ("IS_REGEX"@ + rest), 0).1 == UnaryOperator::IsNotRegex,
{
    reveal_strlit("!");
    reveal_strlit("EMPTY");
    reveal_strlit("EXISTS");
    reveal_strlit("IS_BOOL");
    reveal_strlit("IS_FLOAT");
    reveal_strlit("IS_INT");
    reveal_strlit("IS_LIST");
    reveal_strlit("IS_REGEX");
    reveal_strlit("IS_STRING");
    reveal_strlit("NOT ");
    reveal_strlit("empty");
    reveal_strlit("exists");
    reveal_strlit("is_bool");
    reveal_strlit("is_float");
    reveal_strlit("is_int");
    reveal_strlit("is_list");
    reveal_strlit("is_regex");
    reveal_strlit("is_string");
    reveal_strlit("not ");
    {
        let s = "is_regex"@ + rest;
        let t = "is_regex"@ + rest;
        assert(s[0] == 'i');
        assert(s[1] == 's');
        assert(s[2] == '_');
        assert(s[3] == 'r');
        assert(s[4] == 'e');
        assert(s[5] == 'g');
        assert(s[6] == 'e');
        assert(s[7] == 'x');
        lemma_unary_plain(s);
        lemma_tag_differs(s, 0, "EMPTY"@, 0);
        lemma_tag_differs(s, 0, "empty"@, 0);
        lemma_tag_differs(s, 0, "EXISTS"@, 0);
        lemma_tag_differs(s, 0, "exists"@, 0);
        lemma_tag_differs(s, 0, "is_string"@, 3);
        lemma_tag_differs(s, 0, "IS_STRING"@, 0);
        lemma_tag_differs(s, 0, "is_list"@, 3);
        lemma_tag_differs(s, 0, "IS_LIST"@, 0);
        lemma_tag_differs(s, 0, "is_int"@, 3);
        lemma_tag_differs(s, 0, "IS_INT"@, 0);
        lemma_tag_differs(s, 0, "is_float"@, 3);
        lemma_tag_differs(s, 0, "IS_FLOAT"@, 0);
        lemma_tag_differs(s, 0, "is_bool"@, 3);
        lemma_tag_differs(s, 0, "IS_BOOL"@, 0);
        assert(s.subrange(0, 8) =~= "is_regex"@);
        assert(first_unary_keyword(s, 0, 0) == Some((7int, 8int))) by {
            reveal_with_fuel(first_unary_keyword, 9);
        }
    }
    {
        let s = "NOT "@ + ("is_regex"@ + rest);
        let t = "is_regex"@ + rest;
        assert(s.subrange(4, s.len() as int) =~= t);
        assert(s.subrange(0, 4) =~= "NOT "@);
        assert(s[4] == 'i') by { assert(t[0] == "is_regex"@[0]); }
        assert(s[5] == 's') by { assert(t[1] == "is_regex"@[1]); }
        assert(s[6] == '_') by { assert(t[2] == "is_regex"@[2]); }
        assert(s[7] == 'r') by { assert(t[3] == "is_regex"@[3]); }
        assert(s[8] == 'e') by { assert(t[4] == "is_regex"@[4]); }
        assert(s[9] == 'g') by { assert(t[5] == "is_regex"@[5]); }
        assert(s[10] == 'e') by { assert(t[6] == "is_regex"@[6]); }
        assert(s[11] == 'x') by { assert(t[7] == "is_regex"@[7]); }
        lemma_unary_after_not(s, true);
        lemma_tag_differs(s, 4, "EMPTY"@, 0);
        lemma_tag_differs(s, 4, "empty"@, 0);
        lemma_tag_differs(s, 4, "EXISTS"@, 0);
        lemma_tag_differs(s, 4, "exists"@, 0);
        lemma_tag_differs(s, 4, "is_string"@, 3);
        lemma_tag_differs(s, 4, "IS_STRING"@, 0);
        lemma_tag_differs(s, 4, "is_list"@, 3);
        lemma_tag_differs(s, 4, "IS_LIST"@, 0);
        lemma_tag_differs(s, 4, "is_int"@, 3);
        lemma_tag_differs(s, 4, "IS_INT"@, 0);
        lemma_tag_differs(s, 4, "is_float"@, 3);
        lemma_tag_differs(s, 4, "IS_FLOAT"@, 0);
        lemma_tag_differs(s, 4, "is_bool"@, 3);
        lemma_tag_differs(s, 4, "IS_BOOL"@, 0);
        assert(s.subrange(4, 12) =~= "is_regex"@);
        assert(first_unary_keyword(s, 4, 0) == Some((7int, 8int))) by {
            reveal_with_fuel(first_unary_keyword, 9);
        }
    }
    {
        let s = "not "@ + ("is_regex"@ + rest);
        let t = "is_regex"@ + rest;
        assert(s.subrange(4, s.len() as int) =~= t);
        assert(s.subrange(0, 4) =~= "not "@);
        assert(s[4] == 'i') by { assert(t[0] == "is_regex"@[0]); }
        assert(s[5] == 's') by { assert(t[1] == "is_regex"@[1]); }
        assert(s[6] == '_') by { assert(t[2] == "is_regex"@[2]); }
        assert(s[7] == 'r') by { assert(t[3] == "is_regex"@[3]); }
        assert(s[8] == 'e') by { assert(t[4] == "is_regex"@[4]); }
        assert(s[9] == 'g') by { assert(t[5] == "is_regex"@[5]); }
        assert(s[10] == 'e') by { assert(t[6] == "is_regex"@[6]); }
        assert(s[11] == 'x') by { assert(t[7] == "is_regex"@[7]); }
        lemma_unary_after_not(s, false);
        lemma_tag_differs(s, 4, "EMPTY"@, 0);
        lemma_tag_differs(s, 4, "empty"@, 0);
        lemma_tag_differs(s, 4, "EXISTS"@, 0);
        lemma_tag_differs(s, 4, "exists"@, 0);
        lemma_tag_differs(s, 4, "is_string"@, 3);
        lemma_tag_differs(s, 4, "IS_STRING"@, 0);
        lemma_tag_differs(s, 4, "is_list"@, 3);
        lemma_tag_differs(s, 4, "IS_LIST"@, 0);
        lemma_tag_differs(s, 4, "is_int"@, 3);
        lemma_tag_differs(s, 4, "IS_INT"@, 0);
        lemma_tag_differs(s, 4, "is_float"@, 3);
        lemma_tag_differs(s, 4, "IS_FLOAT"@, 0);
        lemma_tag_differs(s, 4, "is_bool"@, 3);
        lemma_tag_differs(s, 4, "IS_BOOL"@, 0);
        assert(s.subrange(4, 12) =~= "is_regex"@);
        assert(first_unary_keyword(s, 4, 0) == Some((7int, 8int))) by {
            reveal_with_fuel(first_unary_keyword, 9);
        }
    }
    {
        let s = "!"@ + ("is_regex"@ + rest);
        let t = "is_regex"@ + rest;
        assert(s.subrange(1, s.len() as int) =~= t);
        assert(s.subrange(0, 1) =~= "!"@);
        assert(s[1] == 'i') by { assert(t[0] == "is_regex"@[0]); }
        assert(s[2] == 's') by { assert(t[1] == "is_regex"@[1]); }
        assert(s[3] == '_') by { assert(t[2] == "is_regex"@[2]); }
        assert(s[4] == 'r') by { assert(t[3] == "is_regex"@[3]); }
        assert(s[5] == 'e') by { assert(t[4] == "is_regex"@[4]); }
        assert(s[6] == 'g') by { assert(t[5] == "is_regex"@[5]); }
        assert(s[7] == 'e') by { assert(t[6] == "is_regex"@[6]); }
        assert(s[8] == 'x') by { assert(t[7] == "is_regex"@[7]); }
        lemma_unary_after_bang(s);
        lemma_tag_differs(s, 1, "EMPTY"@, 0);
        lemma_tag_differs(s, 1, "empty"@, 0);
        lemma_tag_differs(s, 1, "EXISTS"@, 0);
        lemma_tag_differs(s, 1, "exists"@, 0);
        lemma_tag_differs(s, 1, "is_string"@, 3);
        lemma_tag_differs(s, 1, "IS_STRING"@, 0);
        lemma_tag_differs(s, 1, "is_list"@, 3);
        lemma_tag_differs(s, 1, "IS_LIST"@, 0);
        lemma_tag_differs(s, 1, "is_int"@, 3);
        lemma_tag_differs(s, 1, "IS_INT"@, 0);
        lemma_tag_differs(s, 1, "is_float"@, 3);
        lemma_tag_differs(s, 1, "IS_FLOAT"@, 0);
        lemma_tag_differs(s, 1, "is_bool"@, 3);
        lemma_tag_differs(s, 1, "IS_BOOL"@, 0);
        assert(s.subrange(1, 9) =~= "is_regex"@);
        assert(first_unary_keyword(s, 1, 0) == Some((7int, 8int))) by {
            reveal_with_fuel(first_unary_keyword, 9);
        }
    }
    {
        let s = "IS_REGEX"@ + rest;
        let t = "IS_REGEX"@ + rest;
        assert(s[0] == 'I');
        assert(s[1] == 'S');
        assert(s[2] == '_');
        assert(s[3] == 'R');
        assert(s[4] == 'E');
        assert(s[5] == 'G');
        assert(s[6] == 'E');
        assert(s[7] == 'X');
        lemma_unary_plain(s);
        lemma_tag_differs(s, 0, "EMPTY"@, 0);
        lemma_tag_differs(s, 0, "empty"@, 0);
        lemma_tag_differs(s, 0, "EXISTS"@, 0);
        lemma_tag_differs(s, 0, "exists"@, 0);
        lemma_tag_differs(s, 0, "is_string"@, 0);
        lemma_tag_differs(s, 0, "IS_STRING"@, 3);
        lemma_tag_differs(s, 0, "is_list"@, 0);
        lemma_tag_differs(s, 0, "IS_LIST"@, 3);
        lemma_tag_differs(s, 0, "is_int"@, 0);
        lemma_tag_differs(s, 0, "IS_INT"@, 3);
        lemma_tag_differs(s, 0, "is_float"@, 0);
        lemma_tag_differs(s, 0, "IS_FLOAT"@, 3);
        lemma_tag_differs(s, 0, "is_bool"@, 0);
        lemma_tag_differs(s, 0, "IS_BOOL"@, 3);
        lemma_tag_differs(s, 0, "is_regex"@, 0);
        assert(s.subrange(0, 8) =~= "IS_REGEX"@);
        assert(first_unary_keyword(s, 0, 0) == Some((7int, 8int))) by {
            reveal_with_fuel(first_unary_keyword, 9);
        }
    }
    {
        let s = "NOT "@ + ("IS_REGEX"@ + rest);
        let t = "IS_REGEX"@ + rest;
        assert(s.subrange(4, s.len() as int) =~= t);
        assert(s.subrange(0, 4) =~= "NOT "@);
        assert(s[4] == 'I') by { assert(t[0] == "IS_REGEX"@[0]); }
        assert(s[5] == 'S') by { assert(t[1] == "IS_REGEX"@[1]); }
        assert(s[6] == '_') by { assert(t[2] == "IS_REGEX"@[2]); }
        assert(s[7] == 'R') by { assert(t[3] == "IS_REGEX"@[3]); }
        assert(s[8] == 'E') by { assert(t[4] == "IS_REGEX"@[4]); }
        assert(s[9] == 'G') by { assert(t[5] == "IS_REGEX"@[5]); }
        assert(s[10] == 'E') by { assert(t[6] == "IS_REGEX"@[6]); }
        assert(s[11] == 'X') by { assert(t[7] == "IS_REGEX"@[7]); }
        lemma_unary_after_not(s, true);
        lemma_tag_differs(s, 4, "EMPTY"@, 0);
        lemma_tag_differs(s, 4, "empty"@, 0);
        lemma_tag_differs(s, 4, "EXISTS"@, 0);
        lemma_tag_differs(s, 4, "exists"@, 0);
        lemma_tag_differs(s, 4, "is_string"@, 0);
        lemma_tag_differs(s, 4, "IS_STRING"@, 3);
        lemma_tag_differs(s, 4, "is_list"@, 0);
        lemma_tag_differs(s, 4, "IS_LIST"@, 3);
        lemma_tag_differs(s, 4, "is_int"@, 0);
        lemma_tag_differs(s, 4, "IS_INT"@, 3);
        lemma_tag_differs(s, 4, "is_float"@, 0);
        lemma_tag_differs(s, 4, "IS_FLOAT"@, 3);
        lemma_tag_differs(s, 4, "is_bool"@, 0);
        lemma_tag_differs(s, 4, "IS_BOOL"@, 3);
        lemma_tag_differs(s, 4, "is_regex"@, 0);
        assert(s.subrange(4, 12) =~= "IS_REGEX"@);
        assert(first_unary_keyword(s, 4, 0) == Some((7int, 8int))) by {
            reveal_with_fuel(first_unary_keyword, 9);
        }
    }
    {
        let s = "not "@ + ("IS_REGEX"@ + rest);
        let t = "IS_REGEX"@ + rest;
        assert(s.subrange(4, s.len() as int) =~= t);
        assert(s.subrange(0, 4) =~= "not "@);
        assert(s[4] == 'I') by { assert(t[0] == "IS_REGEX"@[0]); }
        assert(s[5] == 'S') by { assert(t[1] == "IS_REGEX"@[1]); }
        assert(s[6] == '_') by { assert(t[2] == "IS_REGEX"@[2]); }
        assert(s[7] == 'R') by { assert(t[3] == "IS_REGEX"@[3]); }
        assert(s[8] == 'E') by { assert(t[4] == "IS_REGEX"@[4]); }
        assert(s[9] == 'G') by { assert(t[5] == "IS_REGEX"@[5]); }
        assert(s[10] == 'E') by { assert(t[6] == "IS_REGEX"@[6]); }
        assert(s[11] == 'X') by { assert(t[7] == "IS_REGEX"@[7]); }
        lemma_unary_after_not(s, false);
        lemma_tag_differs(s, 4, "EMPTY"@, 0);
        lemma_tag_differs(s, 4, "empty"@, 0);
        lemma_tag_differs(s, 4, "EXISTS"@, 0);
        lemma_tag_differs(s, 4, "exists"@, 0);
        lemma_tag_differs(s, 4, "is_string"@, 0);
        lemma_tag_differs(s, 4, "IS_STRING"@, 3);
        lemma_tag_differs(s, 4, "is_list"@, 0);
        lemma_tag_differs(s, 4, "IS_LIST"@, 3);
        lemma_tag_differs(s, 4, "is_int"@, 0);
        lemma_tag_differs(s, 4, "IS_INT"@, 3);
        lemma_tag_differs(s, 4, "is_float"@, 0);
        lemma_tag_differs(s, 4, "IS_FLOAT"@, 3);
        lemma_tag_differs(s, 4, "is_bool"@, 0);
        lemma_tag_differs(s, 4, "IS_BOOL"@, 3);
        lemma_tag_differs(s, 4, "is_regex"@, 0);
        assert(s.subrange(4, 12) =~= "IS_REGEX"@);
        assert(first_unary_keyword(s, 4, 0) == Some((7int, 8int))) by {
            reveal_with_fuel(first_unary_keyword, 9);
        }
    }
    {
        let s = "!"@ + ("IS_REGEX"@ + rest);
        let t = "IS_REGEX"@ + rest;
        assert(s.subrange(1, s.len() as int) =~= t);
        assert(s.subrange(0, 1) =~= "!"@);
        assert(s[1] == 'I') by { assert(t[0] == "IS_REGEX"@[0]); }
        assert(s[2] == 'S') by { assert(t[1] == "IS_REGEX"@[1]); }
        assert(s[3] == '_') by { assert(t[2] == "IS_REGEX"@[2]); }
        assert(s[4] == 'R') by { assert(t[3] == "IS_REGEX"@[3]); }
        assert(s[5] == 'E') by { assert(t[4] == "IS_REGEX"@[4]); }
        assert(s[6] == 'G') by { assert(t[5] == "IS_REGEX"@[5]); }
        assert(s[7] == 'E') by { assert(t[6] == "IS_REGEX"@[6]); }
        assert(s[8] == 'X') by { assert(t[7] == "IS_REGEX"@[7]); }
        lemma_unary_after_bang(s);
        lemma_tag_differs(s, 1, "EMPTY"@, 0);
        lemma_tag_differs(s, 1, "empty"@, 0);
        lemma_tag_differs(s, 1, "EXISTS"@, 0);
        lemma_tag_differs(s, 1, "exists"@, 0);
        lemma_tag_differs(s, 1, "is_string"@, 0);
        lemma_tag_differs(s, 1, "IS_STRING"@, 3);
        lemma_tag_differs(s, 1, "is_list"@, 0);
        lemma_tag_differs(s, 1, "IS_LIST"@, 3);
        lemma_tag_differs(s, 1, "is_int"@, 0);
        lemma_tag_differs(s, 1, "IS_INT"@, 3);
        lemma_tag_differs(s, 1, "is_float"@, 0);
        lemma_tag_differs(s, 1, "IS_FLOAT"@, 3);
        lemma_tag_differs(s, 1, "is_bool"@, 0);
        lemma_tag_differs(s, 1, "IS_BOOL"@, 3);
        lemma_tag_differs(s, 1, "is_regex"@, 0);
        assert(s.subrange(1, 9) =~= "IS_REGEX"@);
        assert(first_unary_keyword(s, 1, 0) == Some((7int, 8int))) by {
            reveal_with_fuel(first_unary_keyword, 9);
        }
    }
}

/// The number a decimal `n * 10^e` is below the integer `k`.
pub open spec fn decimal_below_int(n: int, e: int, k: i64) -> bool {
    if e >= 0 {
        n * crate::numeric::pow10(e as nat) < k
    } else {
        n < k * crate::numeric::pow10((-e) as nat)
    }
}

/// The number a decimal `n * 10^e` is the integer `k`.
pub open spec fn decimal_is_int(n: int, e: int, k: i64) -> bool {
    if e >= 0 {
        n * crate::numeric::pow10(e as nat) == k
    } else {
        n == k * crate::numeric::pow10((-e) as nat)
    }
}

/// The smaller of two exponents.
pub open spec fn min_exponent(e1: int, e2: int) -> int {
    if e1 <= e2 {
        e1
    } else {
        e2
    }
}

/// `n * 10^e` written with the smaller exponent `m`: `n * 10^(e - m)`.
pub open spec fn scaled_to(n: int, e: int, m: int) -> int {
    n * crate::numeric::pow10((e - m) as nat)
}

/// The signed digits of a decimal text, as an integer.
pub open spec fn text_digits(t: Seq<char>) -> int {
    match crate::numeric::decimal_of_text(t) {
        Some((neg, ds, _)) => crate::parser::values::signed_value(neg, ds),
        None => 0,
    }
}

/// The exponent of a decimal text: it denotes `text_digits(t) * 10^e`.
pub open spec fn text_exponent(t: Seq<char>) -> int {
    match crate::numeric::decimal_of_text(t) {
        Some((_, _, e)) => e,
        None => 0,
    }
}

/// How a decimal text is ordered against an integer, in numbers.
proof fn lemma_text_vs_int_meaning(t: Seq<char>, k: i64)
    ensures
        crate::numeric::readable_decimal(t) ==> {
            &&& crate::compare::text_vs_int_order(t, k) < 0 <==> decimal_below_int(text_digits(t), text_exponent(t), k)
            &&& crate::compare::text_vs_int_order(t, k) == 0 <==> decimal_is_int(text_digits(t), text_exponent(t), k)
            &&& crate::compare::int_vs_text_order(k, t) == -crate::compare::text_vs_int_order(t, k)
        },
{
    if crate::numeric::readable_decimal(t) {
        if crate::numeric::infinity_sign(t) != 0 {
            crate::numeric::lemma_infinity_not_decimal(t);
        }
        assert(crate::numeric::pow10(0) == 1);
        let n = text_digits(t);
        let e = text_exponent(t);
        let c = crate::numeric::rat_order(n, e, k as int, 0);
        assert(crate::compare::text_order_int(t, k as int) == c);
        let kk = k as int;
        if e >= 0 {
            assert(min_exponent(e, 0) == 0);
            assert(c == (if n * crate::numeric::pow10(e as nat) < kk * crate::numeric::pow10(0) {
                -1int
            } else if n * crate::numeric::pow10(e as nat) == kk * crate::numeric::pow10(0) {
                0int
            } else {
                1int
            }));
            assert(kk * crate::numeric::pow10(0) == kk);
        } else {
            assert(c == (if n * crate::numeric::pow10(0) < kk * crate::numeric::pow10((0 - e) as nat) {
                -1int
            } else if n * crate::numeric::pow10(0) == kk * crate::numeric::pow10((0 - e) as nat) {
                0int
            } else {
                1int
            }));
            assert(n * crate::numeric::pow10(0) == n);
            assert((0 - e) as nat == (-e) as nat);
        }
    }
}

/// A float value and an integer literal are ordered as the numbers they
/// denote: a decimal value below the integer is `Less`, equal to it
/// `Equal`, above it `Greater`; the positive infinity is above every
/// integer and the negative one below; NaN is unordered.
pub proof fn law_float_value_vs_int_literal(t: String, l: Location, k: crate::exprs::IntExpr)
    ensures
        ({
            let o = crate::value_order::value_order_expr(Value::Float(t, l), Expr::Int(Box::new(k)));
            let n = text_digits(t@);
            let e = text_exponent(t@);
            &&& crate::numeric::readable_decimal(t@) ==> (o == Some(Ordering::Less) <==> decimal_below_int(n, e, k.value))
            &&& crate::numeric::readable_decimal(t@) ==> (o == Some(Ordering::Equal) <==> decimal_is_int(n, e, k.value))
            &&& crate::numeric::readable_decimal(t@) ==> (o == Some(Ordering::Greater) <==> !decimal_below_int(n, e, k.value)
                && !decimal_is_int(n, e, k.value))
            &&& crate::numeric::infinity_sign(t@) == 1 ==> o == Some(Ordering::Greater)
            &&& crate::numeric::infinity_sign(t@) == -1 ==> o == Some(Ordering::Less)
            &&& !crate::numeric::ordered_float(t@) ==> o is None
        }),
{
    if crate::numeric::infinity_sign(t@) != 0 {
        crate::numeric::lemma_infinity_not_decimal(t@);
    }
    assert(crate::numeric::pow10(0) == 1);
    lemma_text_vs_int_meaning(t@, k.value);
}

/// An integer value and a float literal are ordered as the numbers they
/// denote: the integer below a decimal literal is `Less`, equal to it
/// `Equal`, above it `Greater`; every integer is below the positive
/// infinity and above the negative one; a NaN literal is unordered.
pub proof fn law_int_value_vs_float_literal(i: i64, l: Location, f: crate::exprs::FloatExpr)
    ensures
        ({
            let o = crate::value_order::value_order_expr(Value::Int(i, l), Expr::Float(Box::new(f)));
            let t = f.value@;
            let n = text_digits(t);
            let e = text_exponent(t);
            &&& crate::numeric::readable_decimal(t) ==> (o == Some(Ordering::Greater) <==> decimal_below_int(n, e, i))
            &&& crate::numeric::readable_decimal(t) ==> (o == Some(Ordering::Equal) <==> decimal_is_int(n, e, i))
            &&& crate::numeric::readable_decimal(t) ==> (o == Some(Ordering::Less) <==> !decimal_below_int(n, e, i)
                && !decimal_is_int(n, e, i))
            &&& crate::numeric::infinity_sign(t) == 1 ==> o == Some(Ordering::Less)
            &&& crate::numeric::infinity_sign(t) == -1 ==> o == Some(Ordering::Greater)
            &&& !crate::numeric::ordered_float(t) ==> o is None
        }),
{
    if crate::numeric::infinity_sign(f.value@) != 0 {
        crate::numeric::lemma_infinity_not_decimal(f.value@);
    }
    assert(crate::numeric::pow10(0) == 1);
    lemma_text_vs_int_meaning(f.value@, i);
}

/// Two decimal floats are ordered as the numbers they denote, compared at
/// a common exponent.
pub proof fn law_float_value_vs_float_literal(t: String, l: Location, f: crate::exprs::FloatExpr)
    ensures
        ({
            let o = crate::value_order::value_order_expr(Value::Float(t, l), Expr::Float(Box::new(f)));
            let m = min_exponent(text_exponent(t@), text_exponent(f.value@));
            let a = scaled_to(text_digits(t@), text_exponent(t@), m);
            let b = scaled_to(text_digits(f.value@), text_exponent(f.value@), m);
            crate::numeric::readable_decimal(t@) && crate::numeric::readable_decimal(f.value@) ==> {
                &&& (o == Some(Ordering::Less) <==> a < b)
                &&& (o == Some(Ordering::Equal) <==> a == b)
                &&& (o == Some(Ordering::Greater) <==> a > b)
            }
        }),
{
    if crate::numeric::infinity_sign(t@) != 0 {
        crate::numeric::lemma_infinity_not_decimal(t@);
    }
    if crate::numeric::infinity_sign(f.value@) != 0 {
        crate::numeric::lemma_infinity_not_decimal(f.value@);
    }
}

/// Integers are ordered as numbers.
pub proof fn law_int_value_vs_int_literal(i: i64, l: Location, k: crate::exprs::IntExpr)
    ensures
        ({
            let o = crate::value_order::value_order_expr(Value::Int(i, l), Expr::Int(Box::new(k)));
            &&& (o == Some(Ordering::Less) <==> i < k.value)
            &&& (o == Some(Ordering::Equal) <==> i == k.value)
            &&& (o == Some(Ordering::Greater) <==> i > k.value)
        }),
{
}

/// `<`, `<=`, `>` and `>=` of a value (not a list) against a literal hold
/// exactly as the order of the two says; a list is compared element by
/// element, and an empty list satisfies none of them.
pub proof fn law_relations_follow_order(v: Value, e: Expr)
    ensures
        !(v is List) ==> {
            let o = crate::value_order::value_order_expr(v, e);
            &&& crate::value_order::value_rel_expr(v, e, crate::value_order::Relation::Lt) == (o == Some(Ordering::Less))
            &&& crate::value_order::value_rel_expr(v, e, crate::value_order::Relation::Le) == (o == Some(Ordering::Less)
                || o == Some(Ordering::Equal))
            &&& crate::value_order::value_rel_expr(v, e, crate::value_order::Relation::Gt) == (o == Some(
                Ordering::Greater,
            ))
            &&& crate::value_order::value_rel_expr(v, e, crate::value_order::Relation::Ge) == (o == Some(
                Ordering::Greater,
            ) || o == Some(Ordering::Equal))
        },
        v matches Value::List(vs, _) ==> forall|rel: crate::value_order::Relation|
            #[trigger] crate::value_order::value_rel_expr(v, e, rel) == (vs@.len() > 0 && forall|j: int|
                0 <= j < vs@.len() ==> crate::value_order::value_rel_expr(#[trigger] vs@[j], e, rel)),
{
    match v {
        Value::List(vs, _) => {
            assert forall|rel: crate::value_order::Relation| #[trigger] crate::value_order::value_rel_expr(v, e, rel) == (
            vs@.len() > 0 && forall|j: int| 0 <= j < vs@.len() ==> crate::value_order::value_rel_expr(#[trigger] vs@[j], e, rel)) by {
                crate::value_order::lemma_all_rel_expr(vs@, e, rel);
            }
        },
        _ => {},
    }
}

/// An integer equals an integer range literal exactly when it lies between
/// the bounds: never below the lower bound or above the upper one, on a
/// bound only where that bound is included (flags 1 for the lower bound, 2
/// for the upper one).
pub proof fn law_int_in_range_literal(x: i64, l: Location, re: crate::exprs::RangeIntExpr)
    ensures
        ({
            let r = re.value;
            let eq = value_eq_expr(Value::Int(x, l), Expr::RangeInt(Box::new(re)));
            &&& eq ==> r.lower <= x <= r.upper
            &&& r.inclusive == 3 ==> (eq <==> r.lower <= x <= r.upper)
            &&& r.inclusive == 1 ==> (eq <==> r.lower <= x < r.upper)
            &&& r.inclusive == 2 ==> (eq <==> r.lower < x <= r.upper)
            &&& r.inclusive == 0 ==> (eq <==> r.lower < x < r.upper)
        }),
{
    let i = re.value.inclusive;
    assert(i == 3 ==> (i & 1u8 != 0 && i & 2u8 != 0)) by (bit_vector);
    assert(i == 1 ==> (i & 1u8 != 0 && i & 2u8 == 0)) by (bit_vector);
    assert(i == 2 ==> (i & 1u8 == 0 && i & 2u8 != 0)) by (bit_vector);
    assert(i == 0 ==> (i & 1u8 == 0 && i & 2u8 == 0)) by (bit_vector);
}

/// A quoted or block scalar with no tag is read as the string of its text,
/// whatever the text looks like (`'80'` is the string `80`): it goes on the
/// stack and nothing else changes.
pub proof fn law_quoted_scalar_is_string(m: ReaderModel, val: String, style: ScalarStyle, anchor: usize, loc: Location)
    requires
        style != ScalarStyle::Plain,
    ensures
        step(m, DataEvent::Scalar(val, style, anchor, None), loc).stack == m.stack.push(
            ValueModel::String(val@, loc),
        ),
        step(m, DataEvent::Scalar(val, style, anchor, None), loc).containers == m.containers,
        step(m, DataEvent::Scalar(val, style, anchor, None), loc).documents == m.documents,
{
}

/// The value equals some literal of `rs`.
pub open spec fn equals_some(v: Value, rs: Seq<Expr>) -> bool {
    exists|j: int| 0 <= j < rs.len() && value_eq_expr(v, #[trigger] rs[j])
}

/// `IN` of a list in a list literal: they have as many elements, and each
/// element of the list equals some element of the literal. `NOT IN`
/// answers the opposite.
pub proof fn law_list_in_list_literal(l: Vec<Value>, loc: Location, a: crate::exprs::ArrayExpr)
    ensures
        crate::evaluation::operator_value(BinaryOperator::In, Value::List(l, loc), Expr::Array(Box::new(a))) <==> (
        l@.len() == a.elements@.len() && forall|i: int|
            0 <= i < l@.len() ==> equals_some(#[trigger] l@[i], a.elements@)),
        crate::evaluation::operator_value(BinaryOperator::NotIn, Value::List(l, loc), Expr::Array(Box::new(a)))
            == !crate::evaluation::operator_value(BinaryOperator::In, Value::List(l, loc), Expr::Array(Box::new(a))),
{
    let ls = l@;
    let rs = a.elements@;
    assert forall|i: int| 0 <= i < ls.len() implies #[trigger] equals_some(ls[i], rs) == crate::evaluation::value_in_exprs(ls[i], rs) by {
        if equals_some(ls[i], rs) {
            let j = choose|j: int| 0 <= j < rs.len() && value_eq_expr(ls[i], #[trigger] rs[j]);
            assert(value_eq_expr(ls[i], rs[j]));
        }
        if crate::evaluation::value_in_exprs(ls[i], rs) {
            let j = choose|j: int| 0 <= j < rs.len() && value_eq_expr(ls[i], #[trigger] rs[j]);
            assert(value_eq_expr(ls[i], rs[j]));
        }
    }
}

/// `IN` of a string in a string literal: the literal holds the string as a
/// run of its characters.
pub proof fn law_string_in_string_literal(x: String, loc: Location, y: StringExpr)
    ensures
        crate::evaluation::operator_value(BinaryOperator::In, Value::String(x, loc), Expr::String(Box::new(y))) <==> exists|k: int|
            0 <= k && k + x@.len() <= y.value@.len() && #[trigger] y.value@.subrange(k, k + x@.len()) == x@,
{
}

/// Nothing but a list in a list literal or a string in a string literal is
/// `IN` anything.
pub proof fn law_in_only_lists_and_strings(v: Value, e: Expr)
    requires
        !(v is List && e is Array),
        !(v is String && e is String),
    ensures
        !crate::evaluation::operator_value(BinaryOperator::In, v, e),
{
}

/// A comparison symbol at the start of a text parses to the comparison it
/// names, whatever follows: `==` equality, `!=` inequality, `>=` and `<=`
/// the inclusive orders, and `>` and `<` the strict ones where no `=` (or
/// doubled symbol) follows.
pub proof fn law_comparison_symbols(rest: Seq<char>)
    ensures
        spec_binary_comparison_operator("=="@ + rest, 0).1 == BinaryOperator::Equals,
        spec_binary_comparison_operator("!="@ + rest, 0).1 == BinaryOperator::NotEquals,
        spec_binary_comparison_operator(">="@ + rest, 0).1 == BinaryOperator::GreaterThanEquals,
        spec_binary_comparison_operator("<="@ + rest, 0).1 == BinaryOperator::LesserThanEquals,
        rest.len() == 0 || (rest[0] != '=' && rest[0] != '>') ==> spec_binary_comparison_operator(">"@ + rest, 0).1
            == BinaryOperator::Greater,
        rest.len() == 0 || (rest[0] != '=' && rest[0] != '<') ==> spec_binary_comparison_operator("<"@ + rest, 0).1
            == BinaryOperator::Lesser,
{
    reveal_strlit("==");
    reveal_strlit("!=");
    reveal_strlit(">=");
    reveal_strlit("<=");
    reveal_strlit(">");
    reveal_strlit("<");
    {
        let s = "=="@ + rest;
        assert(s[0] == '=' && s[1] == '=');
        assert(skip_ws(s, 0) == 0);
        assert(s.subrange(0, 2) =~= "=="@);
    }
    {
        let s = "!="@ + rest;
        assert(s[0] == '!' && s[1] == '=');
        assert(skip_ws(s, 0) == 0);
        lemma_tag_differs(s, 0, "=="@, 0);
        assert(s.subrange(0, 2) =~= "!="@);
    }
    {
        let s = ">="@ + rest;
        assert(s[0] == '>' && s[1] == '=');
        assert(skip_ws(s, 0) == 0);
        lemma_tag_differs(s, 0, "=="@, 0);
        lemma_tag_differs(s, 0, "!="@, 0);
        assert(s.subrange(0, 2) =~= ">="@);
    }
    {
        let s = "<="@ + rest;
        assert(s[0] == '<' && s[1] == '=');
        assert(skip_ws(s, 0) == 0);
        lemma_tag_differs(s, 0, "=="@, 0);
        lemma_tag_differs(s, 0, "!="@, 0);
        lemma_tag_differs(s, 0, ">="@, 0);
        lemma_tag_differs(s, 0, ">"@, 0);
        assert(s.subrange(0, 2) =~= "<="@);
    }
    if rest.len() == 0 || (rest[0] != '=' && rest[0] != '>') {
        let s = ">"@ + rest;
        assert(s[0] == '>');
        assert(skip_ws(s, 0) == 0);
        lemma_tag_differs(s, 0, "=="@, 0);
        lemma_tag_differs(s, 0, "!="@, 0);
        if rest.len() > 0 {
            assert(s[1] == rest[0]);
            lemma_tag_differs(s, 0, ">="@, 1);
        }
        assert(s.subrange(0, 1) =~= ">"@);
    }
    if rest.len() == 0 || (rest[0] != '=' && rest[0] != '<') {
        let s = "<"@ + rest;
        assert(s[0] == '<');
        assert(skip_ws(s, 0) == 0);
        lemma_tag_differs(s, 0, "=="@, 0);
        lemma_tag_differs(s, 0, "!="@, 0);
        lemma_tag_differs(s, 0, ">="@, 0);
        lemma_tag_differs(s, 0, ">"@, 0);
        if rest.len() > 0 {
            assert(s[1] == rest[0]);
            lemma_tag_differs(s, 0, "<="@, 1);
        }
        assert(s.subrange(0, 1) =~= "<"@);
    }
}

/// Scalars equal literals of their kind exactly when they are the same:
/// strings by their characters (or a regular expression that matches
/// them), booleans by value, and `null` equals `null`.
pub proof fn law_scalar_equality(l: Location, e: Expr)
    ensures
        forall|x: String| #[trigger] value_eq_expr(Value::String(x, l), e) == (e matches Expr::String(y) && y.value@ == x@)
            || (e matches Expr::Regex(re) && crate::matching::regex_match_result(re.value@, x@) == Some(true)),
        forall|x: bool| #[trigger] value_eq_expr(Value::Bool(x, l), e) == (e matches Expr::Bool(y) && y.value == x),
        value_eq_expr(Value::Null(l), e) == (e is Null),
{
}

/// An integer value equals an integer literal of the same value, an integer
/// range that holds it, and a float literal that denotes exactly that
/// integer; nothing else.
pub proof fn law_int_equality(x: i64, l: Location, e: Expr)
    ensures
        (e matches Expr::Int(k) ==> (value_eq_expr(Value::Int(x, l), e) <==> k.value == x)),
        (e matches Expr::Float(f) ==> (value_eq_expr(Value::Int(x, l), e) <==> crate::numeric::readable_decimal(f.value@)
            && decimal_is_int(text_digits(f.value@), text_exponent(f.value@), x))),
        !(e is Int || e is Float || e is RangeInt) ==> !value_eq_expr(Value::Int(x, l), e),
{
    match e {
        Expr::Float(f) => {
            lemma_text_vs_int_meaning(f.value@, x);
            if crate::numeric::infinity_sign(f.value@) != 0 {
                crate::numeric::lemma_infinity_not_decimal(f.value@);
            }
        },
        _ => {},
    }
}

/// Two decimal floats are equal exactly when they denote the same number.
pub proof fn law_float_equality(t: String, l: Location, f: crate::exprs::FloatExpr)
    requires
        crate::numeric::readable_decimal(t@),
        crate::numeric::readable_decimal(f.value@),
    ensures
        ({
            let m = min_exponent(text_exponent(t@), text_exponent(f.value@));
            value_eq_expr(Value::Float(t, l), Expr::Float(Box::new(f))) == (scaled_to(text_digits(t@), text_exponent(t@), m)
                == scaled_to(text_digits(f.value@), text_exponent(f.value@), m))
        }),
{
    if crate::numeric::infinity_sign(t@) != 0 {
        crate::numeric::lemma_infinity_not_decimal(t@);
    }
    if crate::numeric::infinity_sign(f.value@) != 0 {
        crate::numeric::lemma_infinity_not_decimal(f.value@);
    }
}

/// A list equals a list literal of the same length each of whose elements
/// it equals somewhere: every element of the list equals some element of
/// the literal.
pub proof fn law_list_equality(vs: Vec<Value>, l: Location, a: crate::exprs::ArrayExpr)
    ensures
        value_eq_expr(Value::List(vs, l), Expr::Array(Box::new(a))) <==> (vs@.len() == a.elements@.len() && forall|i: int|
            0 <= i < vs@.len() ==> equals_some(#[trigger] vs@[i], a.elements@)),
{
    let xs = vs@;
    let es = a.elements@;
    lemma_all_found_equals_some(xs, es);
}

proof fn lemma_all_found_equals_some(xs: Seq<Value>, es: Seq<Expr>)
    ensures
        all_found_in(xs, es) <==> forall|i: int| 0 <= i < xs.len() ==> equals_some(#[trigger] xs[i], es),
    decreases xs.len(),
{
    if xs.len() > 0 {
        let t = xs.subrange(1, xs.len() as int);
        lemma_all_found_equals_some(t, es);
        lemma_any_equal_some(xs[0], es);
        if forall|i: int| 0 <= i < xs.len() ==> equals_some(#[trigger] xs[i], es) {
            assert forall|i: int| 0 <= i < t.len() implies equals_some(#[trigger] t[i], es) by {
                assert(t[i] == xs[i + 1]);
            }
        }
        if all_found_in(xs, es) {
            assert forall|i: int| 0 <= i < xs.len() implies equals_some(#[trigger] xs[i], es) by {
                if i > 0 {
                    assert(t[i - 1] == xs[i]);
                }
            }
        }
    }
}

proof fn lemma_any_equal_some(v: Value, es: Seq<Expr>)
    ensures
        any_equal(v, es) == equals_some(v, es),
    decreases es.len(),
{
    if es.len() > 0 {
        let t = es.subrange(1, es.len() as int);
        lemma_any_equal_some(v, t);
        if equals_some(v, es) {
            let j = choose|j: int| 0 <= j < es.len() && value_eq_expr(v, #[trigger] es[j]);
            if j > 0 {
                assert(t[j - 1] == es[j]);
            }
        }
        if equals_some(v, t) {
            let j = choose|j: int| 0 <= j < t.len() && value_eq_expr(v, #[trigger] t[j]);
            assert(t[j] == es[j + 1]);
        }
    }
}

/// A value met is an integer: data or literal.
pub open spec fn item_is_int(v: Item) -> bool {
    v matches Item::Data(Value::Int(..)) || v matches Item::Literal(Expr::Int(_))
}

/// A value met is a string: data or literal.
pub open spec fn item_is_string(v: Item) -> bool {
    v matches Item::Data(Value::String(..)) || v matches Item::Literal(Expr::String(_))
}

/// A value met is a float: data or literal.
pub open spec fn item_is_float(v: Item) -> bool {
    v matches Item::Data(Value::Float(..)) || v matches Item::Literal(Expr::Float(_))
}

/// A value met is a bool: data or literal.
pub open spec fn item_is_bool(v: Item) -> bool {
    v matches Item::Data(Value::Bool(..)) || v matches Item::Literal(Expr::Bool(_))
}

/// A value met is a regex: data or literal.
pub open spec fn item_is_regex(v: Item) -> bool {
    v matches Item::Data(Value::Regex(..)) || v matches Item::Literal(Expr::Regex(_))
}

/// A value met is a list: data or literal.
pub open spec fn item_is_list(v: Item) -> bool {
    v matches Item::Data(Value::List(..)) || v matches Item::Literal(Expr::Array(_))
}

/// A value met is a map: data or literal.
pub open spec fn item_is_map(v: Item) -> bool {
    v matches Item::Data(Value::Mapping(..)) || v matches Item::Literal(Expr::Mapping(_))
}

/// What each unary check says of the values met: `EXISTS` that there are
/// some, `NOT EXISTS` that there are none, each `IS_...` that there are some
/// and all are of that kind, each `IS_NOT_...` the opposite.
pub proof fn law_unary_checks_mean(values: Seq<Item>)
    ensures
        crate::evaluation::unary_outcome(values, UnaryOperator::Exists) == (values.len() > 0),
        crate::evaluation::unary_outcome(values, UnaryOperator::NotExists) == (values.len() == 0),
        crate::evaluation::unary_outcome(values, UnaryOperator::IsString) == (values.len() > 0 && forall|i: int|
            0 <= i < values.len() ==> item_is_string(#[trigger] values[i])),
        crate::evaluation::unary_outcome(values, UnaryOperator::IsNotString) == !crate::evaluation::unary_outcome(values, UnaryOperator::IsString),
        crate::evaluation::unary_outcome(values, UnaryOperator::IsInt) == (values.len() > 0 && forall|i: int|
            0 <= i < values.len() ==> item_is_int(#[trigger] values[i])),
        crate::evaluation::unary_outcome(values, UnaryOperator::IsNotInt) == !crate::evaluation::unary_outcome(values, UnaryOperator::IsInt),
        crate::evaluation::unary_outcome(values, UnaryOperator::IsFloat) == (values.len() > 0 && forall|i: int|
            0 <= i < values.len() ==> item_is_float(#[trigger] values[i])),
        crate::evaluation::unary_outcome(values, UnaryOperator::IsNotFloat) == !crate::evaluation::unary_outcome(values, UnaryOperator::IsFloat),
        crate::evaluation::unary_outcome(values, UnaryOperator::IsBool) == (values.len() > 0 && forall|i: int|
            0 <= i < values.len() ==> item_is_bool(#[trigger] values[i])),
        crate::evaluation::unary_outcome(values, UnaryOperator::IsNotBool) == !crate::evaluation::unary_outcome(values, UnaryOperator::IsBool),
        crate::evaluation::unary_outcome(values, UnaryOperator::IsRegex) == (values.len() > 0 && forall|i: int|
            0 <= i < values.len() ==> item_is_regex(#[trigger] values[i])),
        crate::evaluation::unary_outcome(values, UnaryOperator::IsNotRegex) == !crate::evaluation::unary_outcome(values, UnaryOperator::IsRegex),
        crate::evaluation::unary_outcome(values, UnaryOperator::IsList) == (values.len() > 0 && forall|i: int|
            0 <= i < values.len() ==> item_is_list(#[trigger] values[i])),
        crate::evaluation::unary_outcome(values, UnaryOperator::IsNotList) == !crate::evaluation::unary_outcome(values, UnaryOperator::IsList),
        crate::evaluation::unary_outcome(values, UnaryOperator::IsMap) == (values.len() > 0 && forall|i: int|
            0 <= i < values.len() ==> item_is_map(#[trigger] values[i])),
        crate::evaluation::unary_outcome(values, UnaryOperator::IsNotMap) == !crate::evaluation::unary_outcome(values, UnaryOperator::IsMap),
{
    assert forall|i: int| 0 <= i < values.len() implies item_is_string(#[trigger] values[i]) == crate::evaluation::of_kind(values[i], crate::evaluation::Kind::String) by {}
    assert forall|i: int| 0 <= i < values.len() implies item_is_int(#[trigger] values[i]) == crate::evaluation::of_kind(values[i], crate::evaluation::Kind::Int) by {}
    assert forall|i: int| 0 <= i < values.len() implies item_is_float(#[trigger] values[i]) == crate::evaluation::of_kind(values[i], crate::evaluation::Kind::Float) by {}
    assert forall|i: int| 0 <= i < values.len() implies item_is_bool(#[trigger] values[i]) == crate::evaluation::of_kind(values[i], crate::evaluation::Kind::Bool) by {}
    assert forall|i: int| 0 <= i < values.len() implies item_is_regex(#[trigger] values[i]) == crate::evaluation::of_kind(values[i], crate::evaluation::Kind::Regex) by {}
    assert forall|i: int| 0 <= i < values.len() implies item_is_list(#[trigger] values[i]) == crate::evaluation::of_kind(values[i], crate::evaluation::Kind::List) by {}
    assert forall|i: int| 0 <= i < values.len() implies item_is_map(#[trigger] values[i]) == crate::evaluation::of_kind(values[i], crate::evaluation::Kind::Mapping) by {}
}

/// A value met is empty: an empty list, string or mapping, as data or as a
/// literal.
pub open spec fn item_is_empty(v: Item) -> bool {
    ||| v matches Item::Data(Value::List(l, _)) && l@.len() == 0
    ||| v matches Item::Data(Value::String(t, _)) && t@.len() == 0
    ||| v matches Item::Data(Value::Mapping(m, _)) && m@.len() == 0
    ||| v matches Item::Literal(Expr::String(t)) && t.value@.len() == 0
    ||| v matches Item::Literal(Expr::Array(a)) && a.elements@.len() == 0
    ||| v matches Item::Literal(Expr::Mapping(m)) && m.entries@.len() == 0
}

/// `EMPTY` holds where nothing was met or everything met is empty; `NOT
/// EMPTY` is its opposite.
pub proof fn law_empty_check_means(values: Seq<Item>)
    ensures
        crate::evaluation::unary_outcome(values, UnaryOperator::Empty) == (values.len() == 0 || forall|i: int|
            0 <= i < values.len() ==> item_is_empty(#[trigger] values[i])),
        crate::evaluation::unary_outcome(values, UnaryOperator::NotEmpty) == !crate::evaluation::unary_outcome(
            values,
            UnaryOperator::Empty,
        ),
{
    assert forall|i: int| 0 <= i < values.len() implies item_is_empty(#[trigger] values[i])
        == crate::evaluation::is_empty_value(values[i]) by {}
}

/// The comparisons of a clause mean what they say for a value met on the
/// left (not a list) and a literal on the right: `<` that the value is
/// ordered below, `<=` below or level, `>` above, `>=` above or level, `==`
/// that they are equal and `!=` that they are not.
pub proof fn law_clause_operators_mean(v: Value, e: Expr)
    requires
        !(v is List),
    ensures
        ({
            let o = crate::value_order::value_order_expr(v, e);
            &&& crate::evaluation::operator_value(BinaryOperator::Lesser, v, e) == (o == Some(Ordering::Less))
            &&& crate::evaluation::operator_value(BinaryOperator::LesserThanEquals, v, e) == (o == Some(Ordering::Less)
                || o == Some(Ordering::Equal))
            &&& crate::evaluation::operator_value(BinaryOperator::Greater, v, e) == (o == Some(Ordering::Greater))
            &&& crate::evaluation::operator_value(BinaryOperator::GreaterThanEquals, v, e) == (o == Some(
                Ordering::Greater,
            ) || o == Some(Ordering::Equal))
            &&& crate::evaluation::operator_value(BinaryOperator::Equals, v, e) == value_eq_expr(v, e)
            &&& crate::evaluation::operator_value(BinaryOperator::NotEquals, v, e) == !value_eq_expr(v, e)
        }),
{
    law_relations_follow_order(v, e);
}

/// `a` is a proper beginning of `b`.
pub open spec fn proper_prefix(a: Seq<char>, b: Seq<char>) -> bool {
    a.len() < b.len() && b.subrange(0, a.len() as int) == a
}

/// Strings are ordered character by character: a string that is a proper
/// beginning of another is below it, and otherwise the first differing
/// character decides.
pub proof fn law_string_order(x: String, l: Location, y: StringExpr)
    ensures
        ({
            let o = crate::value_order::value_order_expr(Value::String(x, l), Expr::String(Box::new(y)));
            let a = x@;
            let b = y.value@;
            &&& (a == b ==> o == Some(Ordering::Equal))
            &&& (proper_prefix(a, b) ==> o == Some(Ordering::Less))
            &&& (proper_prefix(b, a) ==> o == Some(Ordering::Greater))
            &&& forall|k: int|
                0 <= k < a.len() && k < b.len() && a.subrange(0, k) == b.subrange(0, k) && #[trigger] a[k] < b[k]
                    ==> o == Some(Ordering::Less)
            &&& forall|k: int|
                0 <= k < a.len() && k < b.len() && a.subrange(0, k) == b.subrange(0, k) && #[trigger] a[k] > b[k]
                    ==> o == Some(Ordering::Greater)
        }),
{
    lemma_lex_order_meaning(x@, y.value@);
}

proof fn lemma_lex_order_meaning(a: Seq<char>, b: Seq<char>)
    ensures
        a == b ==> lex_order(a, b) == 0,
        proper_prefix(a, b) ==> lex_order(a, b) == -1,
        proper_prefix(b, a) ==> lex_order(a, b) == 1,
        forall|k: int|
            0 <= k < a.len() && k < b.len() && a.subrange(0, k) == b.subrange(0, k) && #[trigger] a[k] < b[k]
                ==> lex_order(a, b) == -1,
        forall|k: int|
            0 <= k < a.len() && k < b.len() && a.subrange(0, k) == b.subrange(0, k) && #[trigger] a[k] > b[k]
                ==> lex_order(a, b) == 1,
    decreases a.len(),
{
    if a.len() > 0 && b.len() > 0 {
        let a1 = a.drop_first();
        let b1 = b.drop_first();
        lemma_lex_order_meaning(a1, b1);
        if a == b {
            assert(a1 == b1);
        }
        if a.len() < b.len() && b.subrange(0, a.len() as int) == a {
            assert(b[0] == b.subrange(0, a.len() as int)[0]);
            assert(b1.subrange(0, a1.len() as int) =~= b.subrange(0, a.len() as int).drop_first());
        }
        if b.len() < a.len() && a.subrange(0, b.len() as int) == b {
            assert(a[0] == a.subrange(0, b.len() as int)[0]);
            assert(a1.subrange(0, b1.len() as int) =~= a.subrange(0, b.len() as int).drop_first());
        }
        assert forall|k: int|
            0 <= k < a.len() && k < b.len() && a.subrange(0, k) == b.subrange(0, k) && #[trigger] a[k] < b[k] implies lex_order(a, b)
                == -1 by {
            if k > 0 {
                assert(a[0] == a.subrange(0, k)[0]);
                assert(b[0] == b.subrange(0, k)[0]);
                assert(a1.subrange(0, k - 1) =~= a.subrange(0, k).drop_first());
                assert(b1.subrange(0, k - 1) =~= b.subrange(0, k).drop_first());
                assert(a1[k - 1] == a[k] && b1[k - 1] == b[k]);
            }
        }
        assert forall|k: int|
            0 <= k < a.len() && k < b.len() && a.subrange(0, k) == b.subrange(0, k) && #[trigger] a[k] > b[k] implies lex_order(a, b)
                == 1 by {
            if k > 0 {
                assert(a[0] == a.subrange(0, k)[0]);
                assert(b[0] == b.subrange(0, k)[0]);
                assert(a1.subrange(0, k - 1) =~= a.subrange(0, k).drop_first());
                assert(b1.subrange(0, k - 1) =~= b.subrange(0, k).drop_first());
                assert(a1[k - 1] == a[k] && b1[k - 1] == b[k]);
            }
        }
    }
}

/// A scalar with a short-form function tag (`!Ref`, `!GetAtt`, `!Sub`, ...)
/// is read as a one-entry mapping from the function's long name (`Ref`,
/// `Fn::GetAtt`, `Fn::Sub`, ...) to the string of its text.
pub proof fn law_short_form_scalar_tags(
    m: ReaderModel,
    val: String,
    style: ScalarStyle,
    anchor: usize,
    handle: String,
    suffix: String,
    loc: Location,
)
    requires
        handle@ == "!"@,
    ensures
        suffix@ == "Ref"@ ==> step(m, DataEvent::Scalar(val, style, anchor, Some((handle, suffix))), loc).stack
            == m.stack.push(ValueModel::Mapping(seq![("Ref"@, ValueModel::String(val@, loc))], loc)),
        suffix@ == "GetAtt"@ ==> step(m, DataEvent::Scalar(val, style, anchor, Some((handle, suffix))), loc).stack
            == m.stack.push(ValueModel::Mapping(seq![("Fn::GetAtt"@, ValueModel::String(val@, loc))], loc)),
        suffix@ == "Base64"@ ==> step(m, DataEvent::Scalar(val, style, anchor, Some((handle, suffix))), loc).stack
            == m.stack.push(ValueModel::Mapping(seq![("Fn::Base64"@, ValueModel::String(val@, loc))], loc)),
        suffix@ == "Sub"@ ==> step(m, DataEvent::Scalar(val, style, anchor, Some((handle, suffix))), loc).stack
            == m.stack.push(ValueModel::Mapping(seq![("Fn::Sub"@, ValueModel::String(val@, loc))], loc)),
        suffix@ == "GetAZs"@ ==> step(m, DataEvent::Scalar(val, style, anchor, Some((handle, suffix))), loc).stack
            == m.stack.push(ValueModel::Mapping(seq![("Fn::GetAZs"@, ValueModel::String(val@, loc))], loc)),
        suffix@ == "ImportValue"@ ==> step(m, DataEvent::Scalar(val, style, anchor, Some((handle, suffix))), loc).stack
            == m.stack.push(ValueModel::Mapping(seq![("Fn::ImportValue"@, ValueModel::String(val@, loc))], loc)),
        suffix@ == "Condition"@ ==> step(m, DataEvent::Scalar(val, style, anchor, Some((handle, suffix))), loc).stack
            == m.stack.push(ValueModel::Mapping(seq![("Condition"@, ValueModel::String(val@, loc))], loc)),
        suffix@ == "RefAll"@ ==> step(m, DataEvent::Scalar(val, style, anchor, Some((handle, suffix))), loc).stack
            == m.stack.push(ValueModel::Mapping(seq![("Fn::RefAll"@, ValueModel::String(val@, loc))], loc)),
{
    reveal_strlit("!");
    reveal_strlit("!!");
    reveal_strlit("Ref");
    reveal_strlit("Ref");
    reveal_strlit("GetAtt");
    reveal_strlit("Fn::GetAtt");
    reveal_strlit("Base64");
    reveal_strlit("Fn::Base64");
    reveal_strlit("Sub");
    reveal_strlit("Fn::Sub");
    reveal_strlit("GetAZs");
    reveal_strlit("Fn::GetAZs");
    reveal_strlit("ImportValue");
    reveal_strlit("Fn::ImportValue");
    reveal_strlit("Condition");
    reveal_strlit("Condition");
    reveal_strlit("RefAll");
    reveal_strlit("Fn::RefAll");
    assert("!"@ != "!!"@) by {
        assert("!"@.len() != "!!"@.len());
    }
    assert(crate::data::long_form("Ref"@) == Some("Ref"@));
    assert("GetAtt"@ != "Ref"@) by { assert("GetAtt"@.len() != "Ref"@.len()); }
    assert(crate::data::long_form("GetAtt"@) == Some("Fn::GetAtt"@));
    assert("Base64"@ != "Ref"@) by { assert("Base64"@.len() != "Ref"@.len()); }
    assert("Base64"@ != "GetAtt"@) by { assert("Base64"@[0] != "GetAtt"@[0]); }
    assert(crate::data::long_form("Base64"@) == Some("Fn::Base64"@));
    assert("Sub"@ != "Ref"@) by { assert("Sub"@[0] != "Ref"@[0]); }
    assert("Sub"@ != "GetAtt"@) by { assert("Sub"@.len() != "GetAtt"@.len()); }
    assert("Sub"@ != "Base64"@) by { assert("Sub"@.len() != "Base64"@.len()); }
    assert(crate::data::long_form("Sub"@) == Some("Fn::Sub"@));
    assert("GetAZs"@ != "Ref"@) by { assert("GetAZs"@.len() != "Ref"@.len()); }
    assert("GetAZs"@ != "GetAtt"@) by { assert("GetAZs"@[4] != "GetAtt"@[4]); }
    assert("GetAZs"@ != "Base64"@) by { assert("GetAZs"@[0] != "Base64"@[0]); }
    assert("GetAZs"@ != "Sub"@) by { assert("GetAZs"@.len() != "Sub"@.len()); }
    assert(crate::data::long_form("GetAZs"@) == Some("Fn::GetAZs"@));
    assert("ImportValue"@ != "Ref"@) by { assert("ImportValue"@.len() != "Ref"@.len()); }
    assert("ImportValue"@ != "GetAtt"@) by { assert("ImportValue"@.len() != "GetAtt"@.len()); }
    assert("ImportValue"@ != "Base64"@) by { assert("ImportValue"@.len() != "Base64"@.len()); }
    assert("ImportValue"@ != "Sub"@) by { assert("ImportValue"@.len() != "Sub"@.len()); }
    assert("ImportValue"@ != "GetAZs"@) by { assert("ImportValue"@.len() != "GetAZs"@.len()); }
    assert(crate::data::long_form("ImportValue"@) == Some("Fn::ImportValue"@));
    assert("Condition"@ != "Ref"@) by { assert("Condition"@.len() != "Ref"@.len()); }
    assert("Condition"@ != "GetAtt"@) by { assert("Condition"@.len() != "GetAtt"@.len()); }
    assert("Condition"@ != "Base64"@) by { assert("Condition"@.len() != "Base64"@.len()); }
    assert("Condition"@ != "Sub"@) by { assert("Condition"@.len() != "Sub"@.len()); }
    assert("Condition"@ != "GetAZs"@) by { assert("Condition"@.len() != "GetAZs"@.len()); }
    assert("Condition"@ != "ImportValue"@) by { assert("Condition"@.len() != "ImportValue"@.len()); }
    assert(crate::data::long_form("Condition"@) == Some("Condition"@));
    assert("RefAll"@ != "Ref"@) by { assert("RefAll"@.len() != "Ref"@.len()); }
    assert("RefAll"@ != "GetAtt"@) by { assert("RefAll"@[0] != "GetAtt"@[0]); }
    assert("RefAll"@ != "Base64"@) by { assert("RefAll"@[0] != "Base64"@[0]); }
    assert("RefAll"@ != "Sub"@) by { assert("RefAll"@.len() != "Sub"@.len()); }
    assert("RefAll"@ != "GetAZs"@) by { assert("RefAll"@[0] != "GetAZs"@[0]); }
    assert("RefAll"@ != "ImportValue"@) by { assert("RefAll"@.len() != "ImportValue"@.len()); }
    assert("RefAll"@ != "Condition"@) by { assert("RefAll"@.len() != "Condition"@.len()); }
    assert(crate::data::long_form("RefAll"@) == Some("Fn::RefAll"@));
}

/// A key step on a mapping that holds the key selects the value under the
/// first entry with that key and reports nothing; `*` selects every value
/// of a non-empty mapping and every element of a non-empty list, and
/// reports an empty one as missing.
pub proof fn law_key_step(es: Vec<(String, Value)>, l: Location, key: Seq<char>, i: int)
    requires
        key != star(),
        0 <= i < es@.len(),
        es@[i].0@ == key,
        forall|j: int| 0 <= j < i ==> (#[trigger] es@[j]).0@ != key,
    ensures
        ({
            let o = key_one(Item::Data(Value::Mapping(es, l)), key);
            &&& o.ok
            &&& o.items == seq![Item::Data(es@[i].1)]
            &&& o.notes.len() == 0
        }),
{
    let ks = crate::query::keyed(es@);
    lemma_find_from(ks, key, 0);
    assert(ks[i].0 == key);
    if find_first(ks, key) != i {
        if find_first(ks, key) < i {
            let j = find_first(ks, key);
            assert(ks[j].0 == es@[j].0@);
        }
    }
}

/// `*` on a mapping or a list selects all its values in order, and an
/// empty one is reported missing, with nothing selected.
pub proof fn law_star_step(v: Value)
    ensures
        v matches Value::Mapping(es, _) ==> ({
            let o = key_one(Item::Data(v), star());
            &&& o.ok
            &&& (es@.len() > 0 ==> o.items == Seq::new(es@.len(), |k: int| Item::Data(es@[k].1)) && o.notes.len() == 0)
            &&& (es@.len() == 0 ==> o.items.len() == 0 && o.notes == seq![Note { missing: true, value: Item::Data(v) }])
        }),
        v matches Value::List(vs, _) ==> ({
            let o = key_one(Item::Data(v), star());
            &&& o.ok
            &&& (vs@.len() > 0 ==> o.items == Seq::new(vs@.len(), |k: int| Item::Data(vs@[k])) && o.notes.len() == 0)
            &&& (vs@.len() == 0 ==> o.items.len() == 0 && o.notes == seq![Note { missing: true, value: Item::Data(v) }])
        }),
{
    match v {
        Value::Mapping(es, _) => {
            assert(crate::query::entry_items(es@) =~= Seq::new(es@.len(), |k: int| Item::Data(es@[k].1)));
        },
        Value::List(vs, _) => {
            assert(crate::query::list_items(vs@) =~= Seq::new(vs@.len(), |k: int| Item::Data(vs@[k])));
        },
        _ => {},
    }
}

/// An index into a list selects the element at it, counted from the end
/// when negative; an index out of range, or an index into anything but a
/// list, selects nothing and reports the value as of the wrong kind.
pub proof fn law_index_step(v: Value, i: int)
    ensures
        v matches Value::List(vs, _) ==> ({
            let o = index_one(Item::Data(v), i);
            &&& o.ok
            &&& (0 <= i < vs@.len() ==> o.items == seq![Item::Data(vs@[i])] && o.notes.len() == 0)
            &&& (-vs@.len() <= i < 0 ==> o.items == seq![Item::Data(vs@[vs@.len() + i])] && o.notes.len() == 0)
            &&& (i >= vs@.len() || i < -vs@.len() ==> o.items.len() == 0 && o.notes == seq![
                Note { missing: false, value: Item::Data(v) },
            ])
        }),
        !(v is List) ==> index_one(Item::Data(v), i).notes == seq![Note { missing: false, value: Item::Data(v) }],
{
}

/// A plain scalar with no tag is read as YAML reads its text: an integer as
/// that integer, a boolean as that boolean, `null` as null, a string as
/// that string, a real as a float of its text where the text is a decimal,
/// an infinity or NaN, and anything else as the string of its text.
pub proof fn law_plain_scalar_reading(m: ReaderModel, val: String, anchor: usize, loc: Location)
    ensures
        ({
            let after = step(m, DataEvent::Scalar(val, ScalarStyle::Plain, anchor, None), loc).stack;
            let t = val@;
            &&& yaml_scalar_of(t) matches YamlKind::Integer(i) ==> after == m.stack.push(ValueModel::Int(i, loc))
            &&& yaml_scalar_of(t) matches YamlKind::Boolean(b) ==> after == m.stack.push(ValueModel::Bool(b, loc))
            &&& yaml_scalar_of(t) is Null ==> after == m.stack.push(ValueModel::Null(loc))
            &&& yaml_scalar_of(t) matches YamlKind::Str(x) ==> after == m.stack.push(ValueModel::String(x, loc))
            &&& yaml_scalar_of(t) is Other ==> after == m.stack.push(ValueModel::String(t, loc))
            &&& (yaml_scalar_of(t) is Real && crate::numeric::float_text(t)) ==> after == m.stack.push(
                ValueModel::Float(t, loc),
            )
        }),
{
}

/// The value of integer text: a single digit is itself, a digit written
/// after others multiplies what they give by ten and adds itself, and a
/// leading `-` negates (each while the value fits in an `i64`).
pub proof fn law_integer_text_value(s: Seq<char>, q: int, c: char)
    requires
        0 < q < s.len(),
        forall|k: int| 0 <= k <= q ==> #[trigger] crate::text::is_ascii_digit(s[k]),
        '0' <= c <= '9',
    ensures
        crate::parser::lexical::int_value(seq![c], 0, 1) == (c as int) - ('0' as int),
        10 * crate::parser::lexical::int_value(s, 0, q) + ((s[q] as int) - ('0' as int)) <= i64::MAX
            ==> crate::parser::lexical::int_value(s, 0, q + 1) == 10 * crate::parser::lexical::int_value(s, 0, q)
            + ((s[q] as int) - ('0' as int)),
        crate::parser::lexical::int_value(s, 0, q + 1) < i64::MAX ==> crate::parser::lexical::int_value(
            seq!['-'] + s,
            0,
            q + 2,
        ) == -crate::parser::lexical::int_value(s, 0, q + 1),
{
    let lex = crate::parser::lexical::digits_value(seq![c], 1, 1);
    assert(crate::parser::lexical::sign_end(seq![c], 0) == 0);
    assert(crate::parser::lexical::digits_value(seq![c], 0, 0) == 0);
    assert(crate::parser::lexical::sign_end(s, 0) == 0) by {
        assert(crate::text::is_ascii_digit(s[0]));
    }
    let t = seq!['-'] + s;
    assert(crate::parser::lexical::sign_end(t, 0) == 1);
    lemma_digits_value_shift(s, t, q + 1);
    let v = crate::parser::lexical::digits_value(s, 0, q);
    assert(v >= 0);
    assert(crate::text::is_ascii_digit(s[q]));
    assert(crate::text::digit_value(s[q]) >= 0);
    assert(crate::parser::lexical::digits_value(s, 0, q + 1) == v * 10 + crate::text::digit_value(s[q]));
}

/// Digits read after a one-character prefix give the same value.
proof fn lemma_digits_value_shift(s: Seq<char>, t: Seq<char>, n: int)
    requires
        t.len() == s.len() + 1,
        forall|k: int| 0 <= k < s.len() ==> t[k + 1] == s[k],
        0 <= n <= s.len(),
    ensures
        crate::parser::lexical::digits_value(t, 1, n + 1) == crate::parser::lexical::digits_value(s, 0, n),
    decreases n,
{
    if n > 0 {
        lemma_digits_value_shift(s, t, n - 1);
        assert(t[n] == s[n - 1]);
    }
}

} // verus!
