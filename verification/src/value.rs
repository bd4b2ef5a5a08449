//! Values read from data files, their mathematical model, and how literal
//! expressions of the language become values.
use vstd::prelude::*;
use crate::types::{Location, RangeType, LangError, ParseError};
use crate::exprs::Expr;
use crate::tree::{Tree, trees, entry_trees, lemma_trees_index, lemma_entry_trees_index};
use crate::assoc::{keys_unique, map_insert, insert_entry};
use crate::text::{to_owned_string, push_str};

verus! {

/// A value of a data file. Floats are held as their decimal text; a
/// key/value mapping holds its entries in insertion order, each key once.
#[derive(Debug)]
pub enum Value {
    BadValue(String, Location),
    Null(Location),
    String(String, Location),
    Regex(String, Location),
    Bool(bool, Location),
    Int(i64, Location),
    Float(String, Location),
    RangeInt(RangeType<i64>, Location),
    RangeFloat(RangeType<String>, Location),
    Char(char, Location),
    List(Vec<Value>, Location),
    Mapping(Vec<(String, Value)>, Location),
}

/// The outcome of a check.
#[derive(Debug, Clone, Copy, PartialEq, Eq, Structural)]
pub enum Status {
    PASS,
    FAIL,
    SKIP,
}

/// The mathematical model of a value: texts as character sequences, lists
/// and mappings as sequences.
pub enum ValueModel {
    BadValue(Seq<char>, Location),
    Null(Location),
    String(Seq<char>, Location),
    Regex(Seq<char>, Location),
    Bool(bool, Location),
    Int(i64, Location),
    Float(Seq<char>, Location),
    RangeInt(RangeType<i64>, Location),
    RangeFloat(RangeType<Seq<char>>, Location),
    Char(char, Location),
    List(Seq<ValueModel>, Location),
    Mapping(Seq<(Seq<char>, ValueModel)>, Location),
}

impl Value {
    pub open spec fn model(self) -> ValueModel
        decreases self,
    {
        match self {
            Value::BadValue(s, l) => ValueModel::BadValue(s@, l),
            Value::Null(l) => ValueModel::Null(l),
            Value::String(s, l) => ValueModel::String(s@, l),
            Value::Regex(s, l) => ValueModel::Regex(s@, l),
            Value::Bool(b, l) => ValueModel::Bool(b, l),
            Value::Int(i, l) => ValueModel::Int(i, l),
            Value::Float(t, l) => ValueModel::Float(t@, l),
            Value::RangeInt(r, l) => ValueModel::RangeInt(r, l),
            Value::RangeFloat(r, l) => ValueModel::RangeFloat(
                RangeType { upper: r.upper@, lower: r.lower@, inclusive: r.inclusive },
                l,
            ),
            Value::Char(c, l) => ValueModel::Char(c, l),
            Value::List(vs, l) => ValueModel::List(models(vs@), l),
            Value::Mapping(es, l) => ValueModel::Mapping(entry_models(es@), l),
        }
    }

    /// Where the value was read.
    pub open spec fn location_of(self) -> Location {
        match self {
            Value::BadValue(_, l) => l,
            Value::Null(l) => l,
            Value::String(_, l) => l,
            Value::Regex(_, l) => l,
            Value::Bool(_, l) => l,
            Value::Int(_, l) => l,
            Value::Float(_, l) => l,
            Value::RangeInt(_, l) => l,
            Value::RangeFloat(_, l) => l,
            Value::Char(_, l) => l,
            Value::List(_, l) => l,
            Value::Mapping(_, l) => l,
        }
    }

    /// Every mapping in the value has each key once.
    pub open spec fn wf(self) -> bool
        decreases self,
    {
        match self {
            Value::List(vs, _) => forall|i: int| 0 <= i < vs@.len() ==> (#[trigger] vs@[i]).wf(),
            Value::Mapping(es, _) => keys_unique(es@) && forall|i: int|
                0 <= i < es@.len() ==> (#[trigger] es@[i]).1.wf(),
            _ => true,
        }
    }
}

pub open spec fn models(vs: Seq<Value>) -> Seq<ValueModel>
    decreases vs,
{
    if vs.len() == 0 {
        Seq::empty()
    } else {
        seq![vs[0].model()] + models(vs.subrange(1, vs.len() as int))
    }
}

pub open spec fn entry_models(es: Seq<(String, Value)>) -> Seq<(Seq<char>, ValueModel)>
    decreases es,
{
    if es.len() == 0 {
        Seq::empty()
    } else {
        seq![(es[0].0@, es[0].1.model())] + entry_models(es.subrange(1, es.len() as int))
    }
}

/// An element of a sequence of values is smaller than the sequence.
pub proof fn lemma_elem_decreases(vs: Seq<Value>, i: usize)
    requires
        i < vs.len(),
    ensures
        decreases_to!(vs => vs[i as int]),
{
}

pub proof fn lemma_models(vs: Seq<Value>)
    ensures
        models(vs).len() == vs.len(),
        forall|i: int| 0 <= i < vs.len() ==> #[trigger] models(vs)[i] == vs[i].model(),
    decreases vs.len(),
{
    if vs.len() > 0 {
        let t = vs.subrange(1, vs.len() as int);
        lemma_models(t);
        assert forall|i: int| 0 <= i < vs.len() implies #[trigger] models(vs)[i] == vs[i].model() by {
            if i > 0 {
                assert(models(vs)[i] == models(t)[i - 1]);
                assert(t[i - 1] == vs[i]);
            }
        }
    }
}

pub proof fn lemma_entry_models(es: Seq<(String, Value)>)
    ensures
        entry_models(es).len() == es.len(),
        forall|i: int| 0 <= i < es.len() ==> #[trigger] entry_models(es)[i] == (es[i].0@, es[i].1.model()),
    decreases es.len(),
{
    if es.len() > 0 {
        let t = es.subrange(1, es.len() as int);
        lemma_entry_models(t);
        assert forall|i: int| 0 <= i < es.len() implies #[trigger] entry_models(es)[i] == (es[i].0@, es[i].1.model()) by {
            if i > 0 {
                assert(entry_models(es)[i] == entry_models(t)[i - 1]);
                assert(t[i - 1] == es[i]);
            }
        }
    }
}

// ---------------------------------------------------------------------
// Literal expressions as values
// ---------------------------------------------------------------------

/// The model entries after inserting `(k, v)`: an existing key gets the new
/// value in place, a new key goes last.
pub open spec fn insert_model(
    entries: Seq<(Seq<char>, ValueModel)>,
    k: Seq<char>,
    v: ValueModel,
) -> Seq<(Seq<char>, ValueModel)> {
    if exists|i: int| 0 <= i < entries.len() && entries[i].0 == k {
        let i = choose|i: int| 0 <= i < entries.len() && entries[i].0 == k;
        entries.update(i, (k, v))
    } else {
        entries.push((k, v))
    }
}

/// The value a literal expression stands for, if it is a literal;
/// `regex_ok` says whether regular expressions count as literals.
pub open spec fn convert(e: Expr, regex_ok: bool) -> Option<ValueModel>
    decreases e,
{
    match e {
        Expr::Mapping(m) => match convert_entries(m.entries@, regex_ok) {
            Some(es) => Some(ValueModel::Mapping(es, m.location)),
            None => None,
        },
        Expr::Array(a) => match convert_list(a.elements@, regex_ok) {
            Some(vs) => Some(ValueModel::List(vs, a.location)),
            None => None,
        },
        Expr::String(s) => Some(ValueModel::String(s.value@, s.location)),
        Expr::Regex(r) => if regex_ok {
            Some(ValueModel::Regex(r.value@, r.location))
        } else {
            None
        },
        Expr::Int(i) => Some(ValueModel::Int(i.value, i.location)),
        Expr::Float(f) => Some(ValueModel::Float(f.value@, f.location)),
        Expr::Bool(b) => Some(ValueModel::Bool(b.value, b.location)),
        Expr::Null(l) => Some(ValueModel::Null(*l)),
        Expr::RangeInt(r) => Some(ValueModel::RangeInt(r.value, r.location)),
        Expr::RangeFloat(r) => Some(
            ValueModel::RangeFloat(
                RangeType {
                    upper: r.value.upper@,
                    lower: r.value.lower@,
                    inclusive: r.value.inclusive,
                },
                r.location,
            ),
        ),
        _ => None,
    }
}

pub open spec fn convert_list(es: Seq<Expr>, regex_ok: bool) -> Option<Seq<ValueModel>>
    decreases es,
{
    if es.len() == 0 {
        Some(Seq::empty())
    } else {
        match (convert_list(es.subrange(0, es.len() - 1), regex_ok), convert(es[es.len() - 1], regex_ok)) {
            (Some(vs), Some(v)) => Some(vs.push(v)),
            _ => None,
        }
    }
}

pub open spec fn convert_entries(es: Seq<(String, Expr)>, regex_ok: bool) -> Option<
    Seq<(Seq<char>, ValueModel)>,
>
    decreases es,
{
    if es.len() == 0 {
        Some(Seq::empty())
    } else {
        match (
            convert_entries(es.subrange(0, es.len() - 1), regex_ok),
            convert(es[es.len() - 1].1, regex_ok),
        ) {
            (Some(vs), Some(v)) => Some(insert_model(vs, es[es.len() - 1].0@, v)),
            _ => None,
        }
    }
}

/// The value a literal tree stands for, as `convert` reads an expression.
pub open spec fn tree_value(t: Tree, regex_ok: bool) -> Option<ValueModel>
    decreases t,
{
    match t {
        Tree::Mapping(es, l) => match tree_entry_values(es, regex_ok) {
            Some(vs) => Some(ValueModel::Mapping(vs, l)),
            None => None,
        },
        Tree::Array(ts, l) => match tree_values(ts, regex_ok) {
            Some(vs) => Some(ValueModel::List(vs, l)),
            None => None,
        },
        Tree::String(v, l) => Some(ValueModel::String(v, l)),
        Tree::Regex(v, l) => if regex_ok {
            Some(ValueModel::Regex(v, l))
        } else {
            None
        },
        Tree::Int(i, l) => Some(ValueModel::Int(i, l)),
        Tree::Float(f, l) => Some(ValueModel::Float(f, l)),
        Tree::Bool(b, l) => Some(ValueModel::Bool(b, l)),
        Tree::Null(l) => Some(ValueModel::Null(l)),
        Tree::RangeInt(r, l) => Some(ValueModel::RangeInt(r, l)),
        Tree::RangeFloat(r, l) => Some(ValueModel::RangeFloat(r, l)),
        _ => None,
    }
}

pub open spec fn tree_values(ts: Seq<Tree>, regex_ok: bool) -> Option<Seq<ValueModel>>
    decreases ts,
{
    if ts.len() == 0 {
        Some(Seq::empty())
    } else {
        match (tree_values(ts.subrange(0, ts.len() - 1), regex_ok), tree_value(ts[ts.len() - 1], regex_ok)) {
            (Some(vs), Some(v)) => Some(vs.push(v)),
            _ => None,
        }
    }
}

pub open spec fn tree_entry_values(es: Seq<(Seq<char>, Tree)>, regex_ok: bool) -> Option<
    Seq<(Seq<char>, ValueModel)>,
>
    decreases es,
{
    if es.len() == 0 {
        Some(Seq::empty())
    } else {
        match (
            tree_entry_values(es.subrange(0, es.len() - 1), regex_ok),
            tree_value(es[es.len() - 1].1, regex_ok),
        ) {
            (Some(vs), Some(v)) => Some(insert_model(vs, es[es.len() - 1].0, v)),
            _ => None,
        }
    }
}

/// Converting an expression is converting its tree.
pub proof fn lemma_tree_value(e: Expr, regex_ok: bool)
    ensures
        convert(e, regex_ok) == tree_value(e.tree(), regex_ok),
    decreases e,
{
    match e {
        Expr::Array(a) => {
            assert(decreases_to!(e => e->Array_0));
            assert(decreases_to!(e->Array_0 => a.elements));
            assert(decreases_to!(a.elements => a.elements@));
            lemma_tree_values(a.elements@, regex_ok);
            assert(e.tree() == Tree::Array(trees(a.elements@), a.location));
        },
        Expr::Mapping(m) => {
            assert(decreases_to!(e => e->Mapping_0));
            assert(decreases_to!(e->Mapping_0 => m.entries));
            assert(decreases_to!(m.entries => m.entries@));
            lemma_tree_entry_values(m.entries@, regex_ok);
            assert(e.tree() == Tree::Mapping(entry_trees(m.entries@), m.location));
        },
        Expr::Rule(r) => assert(r.tree() is Rule),
        Expr::Let(l) => assert(l.tree() is Let),
        Expr::Select(q) => assert(q.tree() is Select),
        _ => {},
    }
}

pub proof fn lemma_tree_values(es: Seq<Expr>, regex_ok: bool)
    ensures
        convert_list(es, regex_ok) == tree_values(trees(es), regex_ok),
    decreases es,
{
    if es.len() > 0 {
        let n = es.len() - 1;
        lemma_tree_values(es.subrange(0, n), regex_ok);
        lemma_tree_value(es[n], regex_ok);
        assert(es.drop_last() =~= es.subrange(0, n));
        let ts = trees(es);
        lemma_trees_index(es.subrange(0, n));
        assert(ts == trees(es.subrange(0, n)).push(es[n].tree()));
        assert(ts.subrange(0, n) =~= trees(es.subrange(0, n)));
        assert(ts[n] == es[n].tree());
    }
}

pub proof fn lemma_tree_entry_values(es: Seq<(String, Expr)>, regex_ok: bool)
    ensures
        convert_entries(es, regex_ok) == tree_entry_values(entry_trees(es), regex_ok),
    decreases es,
{
    if es.len() > 0 {
        let n = es.len() - 1;
        lemma_tree_entry_values(es.subrange(0, n), regex_ok);
        assert(decreases_to!(es => es[n]));
        lemma_tree_value(es[n].1, regex_ok);
        assert(es.drop_last() =~= es.subrange(0, n));
        let ts = entry_trees(es);
        lemma_entry_trees_index(es.subrange(0, n));
        assert(ts == entry_trees(es.subrange(0, n)).push((es[n].0@, es[n].1.tree())));
        assert(ts.subrange(0, n) =~= entry_trees(es.subrange(0, n)));
        assert(ts[n] == (es[n].0@, es[n].1.tree()));
    }
}

pub proof fn lemma_insert_model(es: Seq<(String, Value)>, k: String, v: Value)
    requires
        keys_unique(es),
    ensures
        entry_models(insert_entry(es, k, v)) == insert_model(entry_models(es), k@, v.model()),
{
    lemma_entry_models(es);
    let ms = entry_models(es);
    let r = insert_entry(es, k, v);
    lemma_entry_models(r);
    if exists|i: int| 0 <= i < es.len() && es[i].0@ == k@ {
        let i = choose|i: int| 0 <= i < es.len() && es[i].0@ == k@;
        assert(ms[i].0 == k@);
        let j = choose|j: int| 0 <= j < ms.len() && ms[j].0 == k@;
        assert(ms[j] == (es[j].0@, es[j].1.model()));
        if i != j {
            assert(es[i].0@ != es[j].0@);
        }
        assert(entry_models(r) =~= ms.update(i, (k@, v.model())));
    } else {
        assert(!exists|j: int| 0 <= j < ms.len() && ms[j].0 == k@) by {
            assert forall|j: int| 0 <= j < ms.len() implies ms[j].0 != k@ by {
                assert(ms[j] == (es[j].0@, es[j].1.model()));
            }
        }
        assert(entry_models(r) =~= ms.push((k@, v.model())));
    }
}

proof fn lemma_convert_list_none(x: Seq<Expr>, y: Seq<Expr>, regex_ok: bool)
    requires
        convert_list(x, regex_ok) is None,
    ensures
        convert_list(x + y, regex_ok) is None,
    decreases y.len(),
{
    if y.len() == 0 {
        assert(x + y =~= x);
    } else {
        let y1 = y.subrange(0, y.len() - 1);
        lemma_convert_list_none(x, y1, regex_ok);
        assert((x + y).subrange(0, (x + y).len() - 1) =~= x + y1);
    }
}

proof fn lemma_convert_entries_none(x: Seq<(String, Expr)>, y: Seq<(String, Expr)>, regex_ok: bool)
    requires
        convert_entries(x, regex_ok) is None,
    ensures
        convert_entries(x + y, regex_ok) is None,
    decreases y.len(),
{
    if y.len() == 0 {
        assert(x + y =~= x);
    } else {
        let y1 = y.subrange(0, y.len() - 1);
        lemma_convert_entries_none(x, y1, regex_ok);
        assert((x + y).subrange(0, (x + y).len() - 1) =~= x + y1);
    }
}

/// The first expression, in reading order, that has no value: anything but
/// a key/value literal, a list, a string, an integer, a float, a boolean,
/// `null`, a range or (where `regex_ok`) a regular expression; key/value
/// literals and lists are searched in order.
pub open spec fn first_unconvertible(e: Expr, regex_ok: bool) -> Option<Expr>
    decreases e,
{
    match e {
        Expr::Mapping(m) => first_unconvertible_entries(m.entries@, regex_ok),
        Expr::Array(a) => first_unconvertible_list(a.elements@, regex_ok),
        Expr::Regex(_) => if regex_ok {
            None
        } else {
            Some(e)
        },
        Expr::String(_) | Expr::Int(_) | Expr::Float(_) | Expr::Bool(_) | Expr::Null(_)
        | Expr::RangeInt(_) | Expr::RangeFloat(_) => None,
        _ => Some(e),
    }
}

pub open spec fn first_unconvertible_list(es: Seq<Expr>, regex_ok: bool) -> Option<Expr>
    decreases es,
{
    if es.len() == 0 {
        None
    } else {
        match first_unconvertible_list(es.subrange(0, es.len() - 1), regex_ok) {
            Some(bad) => Some(bad),
            None => first_unconvertible(es[es.len() - 1], regex_ok),
        }
    }
}

pub open spec fn first_unconvertible_entries(es: Seq<(String, Expr)>, regex_ok: bool) -> Option<Expr>
    decreases es,
{
    if es.len() == 0 {
        None
    } else {
        match first_unconvertible_entries(es.subrange(0, es.len() - 1), regex_ok) {
            Some(bad) => Some(bad),
            None => first_unconvertible(es[es.len() - 1].1, regex_ok),
        }
    }
}

/// The error for an expression that has no value: `Unknown expression for
/// JSON <kind>`, located at that expression.
pub open spec fn is_unknown_expression_error(e: LangError, bad: Expr) -> bool {
    e matches LangError::ParseError(pe) && pe.location == bad.location_of() && pe.message@
        == "Unknown expression for JSON "@ + kind_name(bad)
}

proof fn lemma_unconvertible_list_some(x: Seq<Expr>, y: Seq<Expr>, regex_ok: bool)
    requires
        first_unconvertible_list(x, regex_ok) is Some,
    ensures
        first_unconvertible_list(x + y, regex_ok) == first_unconvertible_list(x, regex_ok),
    decreases y.len(),
{
    if y.len() == 0 {
        assert(x + y =~= x);
    } else {
        let y1 = y.subrange(0, y.len() - 1);
        lemma_unconvertible_list_some(x, y1, regex_ok);
        assert((x + y).subrange(0, (x + y).len() - 1) =~= x + y1);
    }
}

proof fn lemma_unconvertible_entries_some(
    x: Seq<(String, Expr)>,
    y: Seq<(String, Expr)>,
    regex_ok: bool,
)
    requires
        first_unconvertible_entries(x, regex_ok) is Some,
    ensures
        first_unconvertible_entries(x + y, regex_ok) == first_unconvertible_entries(x, regex_ok),
    decreases y.len(),
{
    if y.len() == 0 {
        assert(x + y =~= x);
    } else {
        let y1 = y.subrange(0, y.len() - 1);
        lemma_unconvertible_entries_some(x, y1, regex_ok);
        assert((x + y).subrange(0, (x + y).len() - 1) =~= x + y1);
    }
}

/// The name of an expression's variant, as error messages show it.
pub open spec fn kind_name(e: Expr) -> Seq<char> {
    match e {
        Expr::File(_) => "File"@,
        Expr::Rule(_) => "Rule"@,
        Expr::RuleClause(_) => "RuleClause"@,
        Expr::Let(_) => "Let"@,
        Expr::When(_) => "When"@,
        Expr::Block(_) => "Block"@,
        Expr::Select(_) => "Select"@,
        Expr::Filter(_) => "Filter"@,
        Expr::BinaryOperation(_) => "BinaryOperation"@,
        Expr::UnaryOperation(_) => "UnaryOperation"@,
        Expr::Array(_) => "Array"@,
        Expr::Mapping(_) => "Map"@,
        Expr::Null(_) => "Null"@,
        Expr::String(_) => "String"@,
        Expr::Regex(_) => "Regex"@,
        Expr::Bool(_) => "Bool"@,
        Expr::Int(_) => "Int"@,
        Expr::Float(_) => "Float"@,
        Expr::Char(_) => "Char"@,
        Expr::Variable(_) => "Variable"@,
        Expr::VariableReference(_) => "VariableReference"@,
        Expr::RangeInt(_) => "RangeInt"@,
        Expr::RangeFloat(_) => "RangeFloat"@,
    }
}

/// The name of an expression's variant.
fn expr_kind_name(e: &Expr) -> (r: &'static str)
    ensures
        r@ == kind_name(*e),
{
    match e {
        Expr::File(_) => "File",
        Expr::Rule(_) => "Rule",
        Expr::RuleClause(_) => "RuleClause",
        Expr::Let(_) => "Let",
        Expr::When(_) => "When",
        Expr::Block(_) => "Block",
        Expr::Select(_) => "Select",
        Expr::Filter(_) => "Filter",
        Expr::BinaryOperation(_) => "BinaryOperation",
        Expr::UnaryOperation(_) => "UnaryOperation",
        Expr::Array(_) => "Array",
        Expr::Mapping(_) => "Map",
        Expr::Null(_) => "Null",
        Expr::String(_) => "String",
        Expr::Regex(_) => "Regex",
        Expr::Bool(_) => "Bool",
        Expr::Int(_) => "Int",
        Expr::Float(_) => "Float",
        Expr::Char(_) => "Char",
        Expr::Variable(_) => "Variable",
        Expr::VariableReference(_) => "VariableReference",
        Expr::RangeInt(_) => "RangeInt",
        Expr::RangeFloat(_) => "RangeFloat",
    }
}

/// `Unknown expression for JSON <kind>`, located at the expression.
fn unknown_expression(e: &Expr) -> (r: LangError)
    ensures
        is_unknown_expression_error(r, *e),
{
    let mut msg = to_owned_string("Unknown expression for JSON ");
    push_str(&mut msg, expr_kind_name(e));
    LangError::ParseError(ParseError::new(*e.get_location(), msg))
}

impl Value {
    /// The value a literal expression stands for: a key/value literal, a
    /// list, a string, an integer, a float, a boolean, `null` or a range.
    /// Anything else, a regular expression included, is an error located
    /// at that expression. Keys written twice keep their first place and
    /// their last value.
    pub fn try_from(value: Expr) -> (r: Result<Value, LangError>)
        ensures
            r is Ok <==> convert(value, false) is Some,
            r matches Ok(v) ==> Some(v.model()) == convert(value, false) && v.wf(),
            r is Ok ==> first_unconvertible(value, false) is None,
            r matches Err(e) ==> first_unconvertible(value, false) matches Some(bad)
                && is_unknown_expression_error(e, bad),
        decreases value,
    {
        let ghost input = value;
        match value {
            Expr::Mapping(map) => {
                let ghost mb = map;
                let ghost m = *map;
                let map = *map;
                let location = map.location;
                let mut rest = map.entries;
                let ghost all = rest@;
                let ghost mut done: Seq<(String, Expr)> = Seq::empty();
                let mut index: Vec<(String, Value)> = Vec::new();
                proof {
                    lemma_entry_models(index@);
                    assert(done + rest@ =~= all);
                }
                while rest.len() > 0
                    invariant
                        done + rest@ == all,
                        all == m.entries@,
                        input == Expr::Mapping(mb),
                        input == value,
                        *mb == m,
                        keys_unique(index@),
                        forall|i: int| 0 <= i < index@.len() ==> (#[trigger] index@[i]).1.wf(),
                        convert_entries(done, false) == Some(entry_models(index@)),
                        first_unconvertible_entries(done, false) is None,
                    decreases rest@.len(),
                {
                    let ghost before = rest@;
                    let (key, each) = rest.remove(0);
                    let ghost pair = (key, each);
                    proof {
                        assert(pair == before[0]);
                        assert(all[done.len() as int] == pair);
                        let k = done.len() as int;
                        assert(decreases_to!(input => input->Mapping_0));
                        assert(decreases_to!(input->Mapping_0 => mb.entries));
                        assert(decreases_to!(m.entries => m.entries@));
                        assert(decreases_to!(m.entries@ => m.entries@[k]));
                        assert(decreases_to!(m.entries@[k] => m.entries@[k].1));
                        assert(decreases_to!(input => each));
                        assert(done.push(pair).subrange(0, done.len() as int) =~= done);
                    }
                    let converted = match Value::try_from(each) {
                        Ok(v) => v,
                        Err(e) => {
                            proof {
                                assert(done.push(pair) + rest@ =~= all);
                                lemma_convert_entries_none(done.push(pair), rest@, false);
                                lemma_unconvertible_entries_some(done.push(pair), rest@, false);
                            }
                            return Err(e);
                        },
                    };
                    proof {
                        crate::value::lemma_insert_model(index@, key, converted);
                    }
                    let ghost old_index = index@;
                    map_insert(&mut index, key, converted);
                    proof {
                        assert forall|i: int| 0 <= i < index@.len() implies (#[trigger] index@[i]).1.wf() by {
                            if i < old_index.len() && index@[i] == old_index[i] {
                            } else {
                                if i < old_index.len() {
                                    assert(index@ == insert_entry(old_index, pair.0, converted));
                                }
                            }
                        }
                        done = done.push(pair);
                        assert(done + rest@ =~= all);
                    }
                }
                proof {
                    assert(done =~= all);
                }
                Ok(Value::Mapping(index, location))
            },
            Expr::Array(array) => {
                let ghost ab = array;
                let ghost a = *array;
                let array = *array;
                let location = array.location;
                let mut rest = array.elements;
                let ghost all = rest@;
                let ghost mut done: Seq<Expr> = Seq::empty();
                let mut list: Vec<Value> = Vec::new();
                proof {
                    lemma_models(list@);
                    assert(done + rest@ =~= all);
                }
                while rest.len() > 0
                    invariant
                        done + rest@ == all,
                        all == a.elements@,
                        input == Expr::Array(ab),
                        input == value,
                        *ab == a,
                        forall|i: int| 0 <= i < list@.len() ==> (#[trigger] list@[i]).wf(),
                        convert_list(done, false) == Some(models(list@)),
                        first_unconvertible_list(done, false) is None,
                    decreases rest@.len(),
                {
                    let ghost before = rest@;
                    let each = rest.remove(0);
                    proof {
                        assert(each == before[0]);
                        let k = done.len() as int;
                        assert(all[k] == each);
                        assert(decreases_to!(input => input->Array_0));
                        assert(decreases_to!(input->Array_0 => ab.elements));
                        assert(decreases_to!(a.elements => a.elements@));
                        assert(decreases_to!(a.elements@ => a.elements@[k]));
                        assert(done.push(each).subrange(0, done.len() as int) =~= done);
                    }
                    let ghost each_copy = each;
                    let converted = match Value::try_from(each) {
                        Ok(v) => v,
                        Err(e) => {
                            proof {
                                assert(done.push(each_copy) + rest@ =~= all);
                                lemma_convert_list_none(done.push(each_copy), rest@, false);
                                lemma_unconvertible_list_some(done.push(each_copy), rest@, false);
                            }
                            return Err(e);
                        },
                    };
                    let ghost old_list = list@;
                    list.push(converted);
                    proof {
                        lemma_models(old_list);
                        lemma_models(list@);
                        assert(models(list@) =~= models(old_list).push(converted.model()));
                        done = done.push(each_copy);
                        assert(done + rest@ =~= all);
                    }
                }
                proof {
                    assert(done =~= all);
                }
                Ok(Value::List(list, location))
            },
            Expr::String(string) => {
                let string = *string;
                Ok(Value::String(string.value, string.location))
            },
            Expr::Int(i) => Ok(Value::Int(i.value, i.location)),
            Expr::Float(f) => {
                let f = *f;
                Ok(Value::Float(f.value, f.location))
            },
            Expr::Bool(b) => Ok(Value::Bool(b.value, b.location)),
            Expr::Null(n) => Ok(Value::Null(*n)),
            Expr::RangeInt(r) => {
                let r = *r;
                Ok(Value::RangeInt(r.value, r.location))
            },
            Expr::RangeFloat(r) => {
                let r = *r;
                Ok(Value::RangeFloat(r.value, r.location))
            },
            _ => Err(unknown_expression(&value)),
        }
    }
}

impl Value {
    /// The value a literal expression stands for, read from a borrowed
    /// expression: as `try_from`, and a regular expression becomes a regex
    /// value.
    pub fn try_from_ref(value: &Expr) -> (r: Result<Value, LangError>)
        ensures
            r is Ok <==> convert(*value, true) is Some,
            r matches Ok(v) ==> Some(v.model()) == convert(*value, true) && v.wf(),
            r is Ok ==> first_unconvertible(*value, true) is None,
            r matches Err(e) ==> first_unconvertible(*value, true) matches Some(bad)
                && is_unknown_expression_error(e, bad),
        decreases value,
    {
        match value {
            Expr::Mapping(map) => {
                let n = map.entries.len();
                let mut index: Vec<(String, Value)> = Vec::new();
                let mut i: usize = 0;
                proof {
                    lemma_entry_models(index@);
                    assert(map.entries@.subrange(0, 0) =~= Seq::<(String, Expr)>::empty());
                    assert(decreases_to!(*value => value->Mapping_0));
                    assert(decreases_to!(value->Mapping_0 => map.entries));
                    assert(decreases_to!(map.entries => map.entries@));
                }
                while i < n
                    invariant
                        n == map.entries@.len(),
                        i <= n,
                        decreases_to!(*value => map.entries@),
                        convert(*value, true) is None <==> convert_entries(map.entries@, true) is None,
                        first_unconvertible(*value, true) == first_unconvertible_entries(map.entries@, true),
                        keys_unique(index@),
                        forall|j: int| 0 <= j < index@.len() ==> (#[trigger] index@[j]).1.wf(),
                        convert_entries(map.entries@.subrange(0, i as int), true) == Some(
                            entry_models(index@),
                        ),
                        first_unconvertible_entries(map.entries@.subrange(0, i as int), true) is None,
                    decreases n - i,
                {
                    let ghost done = map.entries@.subrange(0, i as int);
                    proof {
                        assert(decreases_to!(map.entries@ => map.entries@[i as int]));
                        assert(decreases_to!(map.entries@[i as int] => map.entries@[i as int].1));
                        assert(map.entries@.subrange(0, i + 1).subrange(0, i as int) =~= done);
                    }
                    let converted = match Value::try_from_ref(&map.entries[i].1) {
                        Ok(v) => v,
                        Err(e) => {
                            proof {
                                assert(map.entries@.subrange(0, i + 1) + map.entries@.subrange(i + 1, n as int) =~= map.entries@);
                                lemma_convert_entries_none(
                                    map.entries@.subrange(0, i + 1),
                                    map.entries@.subrange(i + 1, n as int),
                                    true,
                                );
                                lemma_unconvertible_entries_some(
                                    map.entries@.subrange(0, i + 1),
                                    map.entries@.subrange(i + 1, n as int),
                                    true,
                                );
                                assert(map.entries@.subrange(0, n as int) =~= map.entries@);
                            }
                            return Err(e);
                        },
                    };
                    let key = map.entries[i].0.clone();
                    proof {
                        lemma_insert_model(index@, key, converted);
                    }
                    let ghost old_index = index@;
                    map_insert(&mut index, key, converted);
                    proof {
                        assert forall|j: int| 0 <= j < index@.len() implies (#[trigger] index@[j]).1.wf() by {
                            if j < old_index.len() && index@[j] == old_index[j] {
                            } else {
                                if j < old_index.len() {
                                    assert(index@ == insert_entry(old_index, key, converted));
                                }
                            }
                        }
                    }
                    i = i + 1;
                }
                proof {
                    assert(map.entries@.subrange(0, n as int) =~= map.entries@);
                }
                Ok(Value::Mapping(index, map.location))
            },
            Expr::Array(array) => {
                let n = array.elements.len();
                let mut list: Vec<Value> = Vec::new();
                let mut i: usize = 0;
                proof {
                    lemma_models(list@);
                    assert(array.elements@.subrange(0, 0) =~= Seq::<Expr>::empty());
                    assert(decreases_to!(*value => value->Array_0));
                    assert(decreases_to!(value->Array_0 => array.elements));
                    assert(decreases_to!(array.elements => array.elements@));
                }
                while i < n
                    invariant
                        n == array.elements@.len(),
                        i <= n,
                        decreases_to!(*value => array.elements@),
                        convert(*value, true) is None <==> convert_list(array.elements@, true) is None,
                        first_unconvertible(*value, true) == first_unconvertible_list(array.elements@, true),
                        forall|j: int| 0 <= j < list@.len() ==> (#[trigger] list@[j]).wf(),
                        convert_list(array.elements@.subrange(0, i as int), true) == Some(
                            models(list@),
                        ),
                        first_unconvertible_list(array.elements@.subrange(0, i as int), true) is None,
                    decreases n - i,
                {
                    proof {
                        assert(decreases_to!(array.elements@ => array.elements@[i as int]));
                        assert(array.elements@.subrange(0, i + 1).subrange(0, i as int) =~= array.elements@.subrange(0, i as int));
                    }
                    let converted = match Value::try_from_ref(&array.elements[i]) {
                        Ok(v) => v,
                        Err(e) => {
                            proof {
                                assert(array.elements@.subrange(0, i + 1) + array.elements@.subrange(i + 1, n as int) =~= array.elements@);
                                lemma_convert_list_none(
                                    array.elements@.subrange(0, i + 1),
                                    array.elements@.subrange(i + 1, n as int),
                                    true,
                                );
                                lemma_unconvertible_list_some(
                                    array.elements@.subrange(0, i + 1),
                                    array.elements@.subrange(i + 1, n as int),
                                    true,
                                );
                                assert(array.elements@.subrange(0, n as int) =~= array.elements@);
                            }
                            return Err(e);
                        },
                    };
                    let ghost old_list = list@;
                    list.push(converted);
                    proof {
                        lemma_models(old_list);
                        lemma_models(list@);
                        assert(models(list@) =~= models(old_list).push(converted.model()));
                    }
                    i = i + 1;
                }
                proof {
                    assert(array.elements@.subrange(0, n as int) =~= array.elements@);
                }
                Ok(Value::List(list, array.location))
            },
            Expr::String(string) => Ok(Value::String(string.value.clone(), string.location)),
            Expr::Regex(regex) => Ok(Value::Regex(regex.value.clone(), regex.location)),
            Expr::Int(i) => Ok(Value::Int(i.value, i.location)),
            Expr::Float(f) => Ok(Value::Float(f.value.clone(), f.location)),
            Expr::Bool(b) => Ok(Value::Bool(b.value, b.location)),
            Expr::Null(n) => Ok(Value::Null(**n)),
            Expr::RangeInt(r) => Ok(
                Value::RangeInt(
                    RangeType {
                        upper: r.value.upper,
                        lower: r.value.lower,
                        inclusive: r.value.inclusive,
                    },
                    r.location,
                ),
            ),
            Expr::RangeFloat(r) => Ok(
                Value::RangeFloat(
                    RangeType {
                        upper: r.value.upper.clone(),
                        lower: r.value.lower.clone(),
                        inclusive: r.value.inclusive,
                    },
                    r.location,
                ),
            ),
            _ => Err(unknown_expression(value)),
        }
    }
}

} // verus!
