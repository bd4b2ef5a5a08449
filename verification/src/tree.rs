//! The mathematical model of expression trees: texts as character
//! sequences, lists as sequences, and each structure flattened into one
//! variant.
use vstd::prelude::*;
use crate::assoc::{insert_entry, key_index, keys_unique, lemma_key_index};
use crate::types::{Location, RangeType};
use crate::exprs::{
    Expr,
    BinaryExpr,
    BinaryOperator,
    UnaryOperator,
    LetExpr,
    RuleExpr,
    BlockExpr,
    QueryExpr,
};

verus! {

pub enum Tree {
    /// Name, `let` assignments, rules.
    File(Seq<char>, Seq<Tree>, Seq<Tree>, Location),
    /// Name, `when` condition, parameters, block.
    Rule(Seq<char>, Option<Box<Tree>>, Option<Seq<Tree>>, Box<Tree>, Location),
    /// Name, parameters, message.
    RuleClause(Seq<char>, Option<Seq<Tree>>, Option<Seq<char>>, Location),
    /// Key, name, value.
    Let(Option<Seq<char>>, Seq<char>, Box<Tree>, Location),
    /// Condition, block.
    When(Box<Tree>, Box<Tree>, Location),
    /// Query, block, message.
    Block(Box<Tree>, Box<Tree>, Option<Seq<char>>, Location),
    /// Query parts.
    Select(Seq<Tree>, Location),
    /// A filter holding a block of clauses.
    Filter(Box<Tree>),
    /// The clauses of a block: assignments and the joined clause.
    Clauses(Seq<Tree>, Box<Tree>, Location),
    BinaryOperation(BinaryOperator, Box<Tree>, Box<Tree>, Option<Seq<char>>, Location),
    UnaryOperation(UnaryOperator, Box<Tree>, Option<Seq<char>>, Location),
    Array(Seq<Tree>, Location),
    Mapping(Seq<(Seq<char>, Tree)>, Location),
    Null(Location),
    String(Seq<char>, Location),
    Regex(Seq<char>, Location),
    Bool(bool, Location),
    Int(i64, Location),
    Float(Seq<char>, Location),
    Char(char, Location),
    Variable(Seq<char>, Location),
    VariableReference(Seq<char>, Location),
    RangeInt(RangeType<i64>, Location),
    RangeFloat(RangeType<Seq<char>>, Location),
}

pub open spec fn text_of(t: Option<String>) -> Option<Seq<char>> {
    match t {
        Some(s) => Some(s@),
        None => None,
    }
}

pub open spec fn opt_trees(ps: Option<Vec<Expr>>) -> Option<Seq<Tree>> {
    match ps {
        Some(ps) => Some(trees(ps@)),
        None => None,
    }
}

pub open spec fn opt_tree(e: Option<Expr>) -> Option<Tree> {
    match e {
        Some(x) => Some(x.tree()),
        None => None,
    }
}

impl Expr {
    pub open spec fn tree(self) -> Tree
        decreases self,
    {
        match self {
            Expr::File(f) => Tree::File(
                f.name@,
                let_trees(f.assignments@),
                rule_trees(f.rules@),
                f.location,
            ),
            Expr::Rule(r) => r.tree(),
            Expr::RuleClause(c) => Tree::RuleClause(
                c.name@,
                match c.parameters {
                    Some(ps) => Some(trees(ps@)),
                    None => None,
                },
                text_of(c.message),
                c.location,
            ),
            Expr::Let(l) => l.tree(),
            Expr::When(w) => Tree::When(
                Box::new(w.when.tree()),
                Box::new(w.block.tree()),
                w.location,
            ),
            Expr::Block(b) => Tree::Block(
                Box::new(b.select.tree()),
                Box::new(b.block.tree()),
                text_of(b.message),
                b.location,
            ),
            Expr::Select(q) => q.tree(),
            Expr::Filter(b) => Tree::Filter(Box::new(b.tree())),
            Expr::BinaryOperation(b) => Tree::BinaryOperation(
                b.operator,
                Box::new(b.lhs.tree()),
                Box::new(b.rhs.tree()),
                text_of(b.message),
                b.location,
            ),
            Expr::UnaryOperation(u) => Tree::UnaryOperation(
                u.operator,
                Box::new(u.expr.tree()),
                text_of(u.message),
                u.location,
            ),
            Expr::Array(a) => Tree::Array(trees(a.elements@), a.location),
            Expr::Mapping(m) => Tree::Mapping(entry_trees(m.entries@), m.location),
            Expr::Null(l) => Tree::Null(*l),
            Expr::String(s) => Tree::String(s.value@, s.location),
            Expr::Regex(s) => Tree::Regex(s.value@, s.location),
            Expr::Bool(b) => Tree::Bool(b.value, b.location),
            Expr::Int(i) => Tree::Int(i.value, i.location),
            Expr::Float(f) => Tree::Float(f.value@, f.location),
            Expr::Char(c) => Tree::Char(c.value, c.location),
            Expr::Variable(s) => Tree::Variable(s.value@, s.location),
            Expr::VariableReference(s) => Tree::VariableReference(s.value@, s.location),
            Expr::RangeInt(r) => Tree::RangeInt(r.value, r.location),
            Expr::RangeFloat(r) => Tree::RangeFloat(
                RangeType { upper: r.value.upper@, lower: r.value.lower@, inclusive: r.value.inclusive },
                r.location,
            ),
        }
    }
}

impl LetExpr {
    pub open spec fn tree(self) -> Tree
        decreases self,
    {
        Tree::Let(text_of(self.key), self.name@, Box::new(self.value.tree()), self.location)
    }
}

impl RuleExpr {
    pub open spec fn tree(self) -> Tree
        decreases self,
    {
        Tree::Rule(
            self.name@,
            match self.when {
                Some(w) => Some(Box::new(w.tree())),
                None => None,
            },
            match self.parameters {
                Some(ps) => Some(trees(ps@)),
                None => None,
            },
            Box::new(self.block.tree()),
            self.location,
        )
    }
}

impl BlockExpr {
    pub open spec fn tree(self) -> Tree
        decreases self,
    {
        Tree::Clauses(trees(self.assignments@), Box::new(self.clause.tree()), self.location)
    }
}

impl QueryExpr {
    pub open spec fn tree(self) -> Tree
        decreases self,
    {
        Tree::Select(trees(self.parts@), self.location)
    }
}

pub open spec fn trees(es: Seq<Expr>) -> Seq<Tree>
    decreases es,
{
    if es.len() == 0 {
        Seq::empty()
    } else {
        trees(es.drop_last()).push(es.last().tree())
    }
}

pub open spec fn let_trees(es: Seq<LetExpr>) -> Seq<Tree>
    decreases es,
{
    if es.len() == 0 {
        Seq::empty()
    } else {
        let_trees(es.drop_last()).push(es.last().tree())
    }
}

pub open spec fn rule_trees(es: Seq<RuleExpr>) -> Seq<Tree>
    decreases es,
{
    if es.len() == 0 {
        Seq::empty()
    } else {
        rule_trees(es.drop_last()).push(es.last().tree())
    }
}

pub open spec fn entry_trees(es: Seq<(String, Expr)>) -> Seq<(Seq<char>, Tree)>
    decreases es,
{
    if es.len() == 0 {
        Seq::empty()
    } else {
        entry_trees(es.drop_last()).push((es.last().0@, es.last().1.tree()))
    }
}

pub proof fn lemma_trees_push(es: Seq<Expr>, e: Expr)
    ensures
        trees(es.push(e)) == trees(es).push(e.tree()),
{
    assert(es.push(e).drop_last() =~= es);
}

pub proof fn lemma_let_trees_push(es: Seq<LetExpr>, e: LetExpr)
    ensures
        let_trees(es.push(e)) == let_trees(es).push(e.tree()),
{
    assert(es.push(e).drop_last() =~= es);
}

pub proof fn lemma_rule_trees_push(es: Seq<RuleExpr>, e: RuleExpr)
    ensures
        rule_trees(es.push(e)) == rule_trees(es).push(e.tree()),
{
    assert(es.push(e).drop_last() =~= es);
}

impl Tree {
    /// Where the tree starts.
    pub open spec fn location(self) -> Location {
        match self {
            Tree::File(_, _, _, l) => l,
            Tree::Rule(_, _, _, _, l) => l,
            Tree::RuleClause(_, _, _, l) => l,
            Tree::Let(_, _, _, l) => l,
            Tree::When(_, _, l) => l,
            Tree::Block(_, _, _, l) => l,
            Tree::Select(_, l) => l,
            Tree::Filter(b) => match *b {
                Tree::Clauses(_, _, l) => l,
                _ => Location { row: 0, column: 0 },
            },
            Tree::Clauses(_, _, l) => l,
            Tree::BinaryOperation(_, _, _, _, l) => l,
            Tree::UnaryOperation(_, _, _, l) => l,
            Tree::Array(_, l) => l,
            Tree::Mapping(_, l) => l,
            Tree::Null(l) => l,
            Tree::String(_, l) => l,
            Tree::Regex(_, l) => l,
            Tree::Bool(_, l) => l,
            Tree::Int(_, l) => l,
            Tree::Float(_, l) => l,
            Tree::Char(_, l) => l,
            Tree::Variable(_, l) => l,
            Tree::VariableReference(_, l) => l,
            Tree::RangeInt(_, l) => l,
            Tree::RangeFloat(_, l) => l,
        }
    }
}

pub proof fn lemma_tree_location(e: Expr)
    ensures
        e.tree().location() == e.location_of(),
{
    match e {
        Expr::Rule(r) => assert(r.tree().location() == r.location),
        Expr::Let(l) => assert(l.tree().location() == l.location),
        Expr::Select(q) => assert(q.tree().location() == q.location),
        Expr::Filter(b) => assert(b.tree() == Tree::Clauses(trees(b.assignments@), Box::new(b.clause.tree()), b.location)),
        _ => {},
    }
}

/// `t0 op (t1 op (... tn))`, each operation located where its left operand is.
pub open spec fn fold_trees(ts: Seq<Tree>, op: BinaryOperator) -> Tree
    decreases ts.len(),
{
    if ts.len() <= 1 {
        ts[0]
    } else {
        Tree::BinaryOperation(
            op,
            Box::new(ts[0]),
            Box::new(fold_trees(ts.drop_first(), op)),
            None,
            ts[0].location(),
        )
    }
}

pub proof fn lemma_trees_index(es: Seq<Expr>)
    ensures
        trees(es).len() == es.len(),
        forall|i: int| 0 <= i < es.len() ==> #[trigger] trees(es)[i] == es[i].tree(),
    decreases es.len(),
{
    if es.len() > 0 {
        lemma_trees_index(es.drop_last());
    }
}

pub proof fn lemma_fold_trees(es: Seq<Expr>, op: BinaryOperator, folded: Expr)
    requires
        es.len() > 0,
        folded == crate::parser::grammar::fold_ops(es, op),
    ensures
        folded.tree() == fold_trees(trees(es), op),
    decreases es.len(),
{
    lemma_trees_index(es);
    if es.len() > 1 {
        let rest = es.drop_first();
        lemma_fold_trees(rest, op, crate::parser::grammar::fold_ops(rest, op));
        lemma_trees_index(rest);
        assert(trees(es).drop_first() =~= trees(rest));
        lemma_tree_location(es[0]);
    }
}

/// The place of key `k` among the entries, the last one holding it, or -1.
pub open spec fn tree_key_index(es: Seq<(Seq<char>, Tree)>, k: Seq<char>) -> int
    decreases es.len(),
{
    if es.len() == 0 {
        -1
    } else if es.last().0 == k {
        es.len() - 1
    } else {
        tree_key_index(es.drop_last(), k)
    }
}

/// The entries after inserting `(k, v)`: an existing key gets the new value
/// in place, a new key goes last.
pub open spec fn insert_tree_entry(es: Seq<(Seq<char>, Tree)>, k: Seq<char>, v: Tree) -> Seq<(Seq<char>, Tree)> {
    let i = tree_key_index(es, k);
    if i >= 0 {
        es.update(i, (k, v))
    } else {
        es.push((k, v))
    }
}

pub proof fn lemma_entry_trees_index(es: Seq<(String, Expr)>)
    ensures
        entry_trees(es).len() == es.len(),
        forall|i: int| 0 <= i < es.len() ==> #[trigger] entry_trees(es)[i] == (es[i].0@, es[i].1.tree()),
    decreases es.len(),
{
    if es.len() > 0 {
        lemma_entry_trees_index(es.drop_last());
    }
}

proof fn lemma_tree_key_index(es: Seq<(String, Expr)>, k: Seq<char>)
    ensures
        tree_key_index(entry_trees(es), k) == key_index(es, k),
    decreases es.len(),
{
    if es.len() > 0 {
        lemma_tree_key_index(es.drop_last(), k);
        let t = entry_trees(es);
        assert(t == entry_trees(es.drop_last()).push((es.last().0@, es.last().1.tree())));
        assert(t.drop_last() =~= entry_trees(es.drop_last()));
        lemma_entry_trees_index(es);
        assert(t.last().0 == es.last().0@);
    }
}

/// Inserting into the entries and taking their trees is taking the trees
/// and inserting there.
pub proof fn lemma_insert_tree_entry(es: Seq<(String, Expr)>, k: String, v: Expr)
    requires
        keys_unique(es),
    ensures
        entry_trees(insert_entry(es, k, v)) == insert_tree_entry(entry_trees(es), k@, v.tree()),
{
    lemma_key_index(es, k@);
    lemma_tree_key_index(es, k@);
    lemma_entry_trees_index(es);
    let r = insert_entry(es, k, v);
    lemma_entry_trees_index(r);
    let i = key_index(es, k@);
    if i >= 0 {
        assert(exists|j: int| 0 <= j < es.len() && es[j].0@ == k@);
        let j = choose|j: int| 0 <= j < es.len() && es[j].0@ == k@;
        assert(j == i);
        assert(entry_trees(r) =~= entry_trees(es).update(i, (k@, v.tree())));
    } else {
        assert(!exists|j: int| 0 <= j < es.len() && es[j].0@ == k@);
        assert(entry_trees(r) =~= entry_trees(es).push((k@, v.tree())));
    }
}

} // verus!
