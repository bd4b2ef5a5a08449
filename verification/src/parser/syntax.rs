//! The grammar of rules files as spec functions. For a text and a start
//! position each function gives the outcome of reading one construct there
//! (where it ends, or where it gives up and whether an enclosing
//! alternative may try something else) and the tree it builds. The parsing
//! functions of `grammar` compute exactly these.
//!
//! Each function reads at least one character when it succeeds. The
//! definitions check this where a later part starts from where an earlier
//! part ended (`after`), which is what bounds their recursion; a parse never
//! reaches the other branch (`stuck`).
use vstd::prelude::*;
use crate::types::{Location, RangeType};
use crate::exprs::{BinaryOperator, UnaryOperator};
use crate::tree::{Tree, fold_trees, insert_tree_entry};
use crate::parser::{Outcome, loc_at};
use crate::parser::lexical::{
    skip_ws,
    tag_at,
    find_char,
    spec_name,
    spec_string,
    spec_int,
    int_value,
    spec_regex,
    spec_float,
    spec_bool,
    spec_variable_reference,
    spec_null,
    spec_ws1,
    spec_ws_char,
    spec_strip_char,
    spec_kw_trailing,
    spec_keyword_or_symbol,
    spec_anyone,
    spec_keys_or_indices,
    spec_binary_comparison_operator,
    spec_unary_comparison_operator,
    spec_here_doc,
    here_doc_text,
    spec_message_doc,
};
use crate::parser::values::{
    spec_scalar,
    spec_range,
    range_lower_start,
    range_lower_end,
    range_upper_start,
    range_upper_end,
    range_is_int,
    range_inclusive,
    spec_map_key,
    map_key_text,
};
use crate::parser::grammar::{FilterKind, SegmentKind, ClauseKind, ParameterKind, KeysOperand};

verus! {

// ---------------------------------------------------------------------
// Helpers
// ---------------------------------------------------------------------

/// Past white space and comments from `p`.
pub open spec fn ws(s: Seq<char>, p: int) -> int {
    let a = skip_ws(s, p);
    if p <= a <= s.len() {
        a
    } else {
        p
    }
}

/// Whether `q` is a position after `p` inside the text.
pub open spec fn after(s: Seq<char>, p: int, q: int) -> bool {
    p < q <= s.len()
}

pub open spec fn no_tree() -> Tree {
    Tree::Null(Location { row: 0, column: 0 })
}

/// An outcome that is not a success.
pub open spec fn fail(o: Outcome) -> (Outcome, Tree) {
    (o, no_tree())
}

/// Where a part of a construct would not have advanced: no parse gets here.
pub open spec fn stuck(p: int) -> (Outcome, Tree) {
    fail(Outcome::Failure(p))
}

/// An error becomes a failure: no other alternative is tried.
pub open spec fn cut_outcome(o: Outcome) -> Outcome {
    match o {
        Outcome::Error(q) => Outcome::Failure(q),
        _ => o,
    }
}

/// `or`, `OR` or `||`.
pub open spec fn or_keyword(s: Seq<char>, p: int) -> Outcome {
    spec_keyword_or_symbol(s, p, seq!["or", "OR"], "||"@)
}

/// `and`, `AND` or `&&`.
pub open spec fn and_keyword(s: Seq<char>, p: int) -> Outcome {
    spec_keyword_or_symbol(s, p, seq!["and", "AND"], "&&"@)
}

/// `not`, `NOT` or `!`.
pub open spec fn not_keyword(s: Seq<char>, p: int) -> Outcome {
    spec_keyword_or_symbol(s, p, seq!["not", "NOT"], "!"@)
}

// ---------------------------------------------------------------------
// Tokens and their trees
// ---------------------------------------------------------------------

pub open spec fn name_result(s: Seq<char>, a: int) -> (Outcome, Tree) {
    match spec_name(s, a) {
        Outcome::Done(q) => (Outcome::Done(q), Tree::String(s.subrange(a, q), loc_at(s, a))),
        o => fail(o),
    }
}

pub open spec fn string_result(s: Seq<char>, a: int) -> (Outcome, Tree) {
    match spec_string(s, a).0 {
        Outcome::Done(q) => (Outcome::Done(q), Tree::String(spec_string(s, a).1, loc_at(s, a))),
        o => fail(o),
    }
}

pub open spec fn int_result(s: Seq<char>, a: int) -> (Outcome, Tree) {
    match spec_int(s, a) {
        Outcome::Done(q) => (Outcome::Done(q), Tree::Int(int_value(s, a, q), loc_at(s, a))),
        o => fail(o),
    }
}

pub open spec fn var_ref_result(s: Seq<char>, a: int) -> (Outcome, Tree) {
    match spec_variable_reference(s, a) {
        Outcome::Done(q) => (
            Outcome::Done(q),
            Tree::VariableReference(s.subrange(a + 1, q), loc_at(s, a + 1)),
        ),
        o => fail(o),
    }
}

/// `*`.
pub open spec fn all_ref_result(s: Seq<char>, a: int) -> (Outcome, Tree) {
    if 0 <= a < s.len() && s[a] == '*' {
        (Outcome::Done(a + 1), Tree::String(seq!['*'], loc_at(s, a)))
    } else {
        fail(Outcome::Error(a))
    }
}

/// The tree of the scalar that `spec_scalar` reads from `p` to `q`.
pub open spec fn scalar_tree(s: Seq<char>, p: int, q: int) -> Tree {
    if spec_string(s, p).0 is Done {
        Tree::String(spec_string(s, p).1, loc_at(s, p))
    } else if spec_regex(s, p).0 is Done {
        Tree::Regex(spec_regex(s, p).1, loc_at(s, p + 1))
    } else if spec_float(s, p) is Done {
        Tree::Float(s.subrange(p, q), loc_at(s, p))
    } else if spec_int(s, p) is Done {
        Tree::Int(int_value(s, p, q), loc_at(s, p))
    } else {
        Tree::Bool(spec_bool(s, p).unwrap().1, loc_at(s, p))
    }
}

/// The tree of the range that `spec_range` reads from `p`.
pub open spec fn range_tree(s: Seq<char>, p: int) -> Tree {
    let a = range_lower_start(s, p);
    let b = range_lower_end(s, p);
    let c = range_upper_start(s, p);
    let d = range_upper_end(s, p);
    if range_is_int(s, p) {
        Tree::RangeInt(
            RangeType { lower: int_value(s, a, b), upper: int_value(s, c, d), inclusive: range_inclusive(s, p) },
            loc_at(s, p),
        )
    } else {
        Tree::RangeFloat(
            RangeType { lower: s.subrange(a, b), upper: s.subrange(c, d), inclusive: range_inclusive(s, p) },
            loc_at(s, p),
        )
    }
}

/// The optional message after a clause.
pub open spec fn syn_opt_message(s: Seq<char>, p: int) -> (Outcome, Option<Seq<char>>) {
    let a = ws(s, p);
    let (o, m) = match spec_here_doc(s, a) {
        Outcome::Done(q) => (Outcome::Done(q), Some(here_doc_text(s, a))),
        Outcome::Error(_) => match spec_message_doc(s, a) {
            Outcome::Done(q) => (Outcome::Done(q), Some(s.subrange(a + 2, q - 2))),
            Outcome::Error(_) => (Outcome::Done(a), None),
            o => (o, None),
        },
        o => (o, None),
    };
    match o {
        Outcome::Done(q) => (Outcome::Done(ws(s, q)), m),
        o => (o, None),
    }
}

/// Spaces and tabs from `p` on.
pub open spec fn spaces_end(s: Seq<char>, p: int) -> int
    decreases s.len() - p,
{
    if 0 <= p < s.len() && (s[p] == ' ' || s[p] == '\t') {
        spaces_end(s, p + 1)
    } else {
        p
    }
}

/// What may follow a rule clause written without a message.
pub open spec fn follows_clause(s: Seq<char>, q: int) -> Outcome {
    if or_keyword(s, q) is Done || and_keyword(s, q) is Done {
        Outcome::Done(q)
    } else if 0 <= q < s.len() && s[q] == '#' && find_char(s, q + 1, '\n') < s.len() {
        Outcome::Done(q)
    } else if 0 <= spaces_end(s, q) < s.len() && s[spaces_end(s, q)] == '\n' {
        Outcome::Done(q)
    } else if spec_ws_char(s, q, ')') is Done {
        Outcome::Done(q)
    } else {
        match spec_ws_char(s, q, '{') {
            Outcome::Done(_) => Outcome::Done(q),
            o => o,
        }
    }
}

/// A later segment of a query.
pub open spec fn syn_simple_segment(s: Seq<char>, p: int) -> (Outcome, Tree) {
    let a = ws(s, p);
    let r = match spec_name(s, a) {
        Outcome::Error(_) => match spec_variable_reference(s, a) {
            Outcome::Error(_) => match all_ref_result(s, a).0 {
                Outcome::Error(_) => match spec_string(s, a).0 {
                    Outcome::Error(_) => int_result(s, a),
                    _ => string_result(s, a),
                },
                _ => all_ref_result(s, a),
            },
            _ => var_ref_result(s, a),
        },
        _ => name_result(s, a),
    };
    match r.0 {
        Outcome::Done(q) => (Outcome::Done(ws(s, q)), r.1),
        o => fail(o),
    }
}

/// A variable name that starts a filter, and whether a `|` follows it.
pub open spec fn syn_var_block_name(s: Seq<char>, p: int) -> (Outcome, Seq<char>, bool) {
    match spec_name(s, p) {
        Outcome::Done(q) => match spec_strip_char(s, q, '|') {
            Outcome::Done(q2) => (Outcome::Done(q2), s.subrange(p, q), true),
            _ => match spec_ws_char(s, q, ']') {
                Outcome::Done(_) => (Outcome::Done(q), s.subrange(p, q), false),
                o => (o, Seq::empty(), false),
            },
        },
        o => (o, Seq::empty(), false),
    }
}

// ---------------------------------------------------------------------
// The recursive grammar
// ---------------------------------------------------------------------

/// `{ KEY : VALUE, ... }`.
pub open spec fn syn_map(s: Seq<char>, p: int) -> (Outcome, Tree)
    decreases s.len() - p, 8nat,
{
    let loc = loc_at(s, p);
    match spec_ws_char(s, p, '{') {
        Outcome::Done(q0) => if !after(s, p, q0) {
            stuck(p)
        } else {
            match spec_ws_char(s, q0, '}') {
                Outcome::Done(left) => (Outcome::Done(left), Tree::Mapping(Seq::empty(), loc)),
                _ => syn_map_entries(s, q0, Seq::empty(), loc),
            }
        },
        o => fail(o),
    }
}

/// The entries of a key/value literal from `span`, after those read into `acc`.
pub open spec fn syn_map_entries(
    s: Seq<char>,
    span: int,
    acc: Seq<(Seq<char>, Tree)>,
    loc: Location,
) -> (Outcome, Tree)
    decreases s.len() - span, 30nat,
{
    match spec_map_key(s, span) {
        Outcome::Done(k1) => match spec_ws_char(s, k1, ':') {
            Outcome::Done(k2) => if !after(s, span, k2) {
                stuck(span)
            } else {
                let (o, v) = syn_let_query_or_value(s, k2);
                match o {
                    Outcome::Done(left) => if !after(s, k2, left) {
                        stuck(k2)
                    } else {
                        let acc1 = insert_tree_entry(acc, map_key_text(s, span), v);
                        match spec_ws_char(s, left, ',') {
                            Outcome::Done(l2) => match spec_ws_char(s, l2, '}') {
                                Outcome::Done(l3) => (Outcome::Done(l3), Tree::Mapping(acc1, loc)),
                                _ => if !after(s, left, l2) {
                                    stuck(left)
                                } else {
                                    syn_map_entries(s, l2, acc1, loc)
                                },
                            },
                            Outcome::Error(_) => match cut_outcome(spec_ws_char(s, left, '}')) {
                                Outcome::Done(l3) => (Outcome::Done(l3), Tree::Mapping(acc1, loc)),
                                o2 => fail(o2),
                            },
                            o2 => fail(o2),
                        }
                    },
                    o => fail(o),
                }
            },
            o => fail(o),
        },
        o => fail(o),
    }
}

/// `[ VALUE, ... ]`.
pub open spec fn syn_array(s: Seq<char>, p: int) -> (Outcome, Tree)
    decreases s.len() - p, 8nat,
{
    let loc = loc_at(s, p);
    match spec_ws_char(s, p, '[') {
        Outcome::Done(q0) => if !after(s, p, q0) {
            stuck(p)
        } else {
            match spec_ws_char(s, q0, ']') {
                Outcome::Done(left) => (Outcome::Done(left), Tree::Array(Seq::empty(), loc)),
                _ => syn_array_elements(s, q0, Seq::empty(), loc),
            }
        },
        o => fail(o),
    }
}

/// The elements of a list literal from `span`, after those read into `acc`.
pub open spec fn syn_array_elements(s: Seq<char>, span: int, acc: Seq<Tree>, loc: Location) -> (
    Outcome,
    Tree,
)
    decreases s.len() - span, 30nat,
{
    let (o, v) = syn_let_query_or_value(s, span);
    match cut_outcome(o) {
        Outcome::Done(left) => if !after(s, span, left) {
            stuck(span)
        } else {
            let acc1 = acc.push(v);
            match spec_ws_char(s, left, ',') {
                Outcome::Done(l2) => match spec_ws_char(s, l2, ']') {
                    Outcome::Done(l3) => (Outcome::Done(l3), Tree::Array(acc1, loc)),
                    _ => if !after(s, left, l2) {
                        stuck(left)
                    } else {
                        syn_array_elements(s, l2, acc1, loc)
                    },
                },
                Outcome::Error(_) => match cut_outcome(spec_ws_char(s, left, ']')) {
                    Outcome::Done(l3) => (Outcome::Done(l3), Tree::Array(acc1, loc)),
                    o2 => fail(o2),
                },
                o2 => fail(o2),
            }
        },
        o2 => fail(o2),
    }
}

/// `VALUE ::= SCALAR | MAP | ARRAY | NULL | RANGE`, with white space and
/// comments around it.
pub open spec fn syn_value(s: Seq<char>, p: int) -> (Outcome, Tree)
    decreases s.len() - p, 9nat,
{
    let a = ws(s, p);
    let r = match spec_scalar(s, a) {
        Outcome::Done(q) => (Outcome::Done(q), scalar_tree(s, a, q)),
        Outcome::Error(_) => match syn_map(s, a).0 {
            Outcome::Error(_) => match syn_array(s, a).0 {
                Outcome::Error(_) => match spec_null(s, a) {
                    Outcome::Error(_) => (spec_range(s, a), range_tree(s, a)),
                    o => (o, Tree::Null(loc_at(s, a))),
                },
                _ => syn_array(s, a),
            },
            _ => syn_map(s, a),
        },
        o => fail(o),
    };
    match r.0 {
        Outcome::Done(q) => (Outcome::Done(ws(s, q)), r.1),
        o => fail(o),
    }
}

/// The inside of a filter that is not a key or an index: `name | clauses`,
/// `name`, or `clauses`; the variable and the filter block it holds.
pub open spec fn syn_var_block(s: Seq<char>, p: int) -> (Outcome, Tree, Option<Tree>)
    decreases s.len() - p, 23nat,
{
    let loc = loc_at(s, p);
    let (o, name, piped) = syn_var_block_name(s, p);
    match o {
        Outcome::Error(_) => {
            let (o2, b) = syn_block_inner(s, p);
            match o2 {
                Outcome::Done(q) => (Outcome::Done(q), Tree::Filter(Box::new(b)), None),
                o2 => (o2, no_tree(), None),
            }
        },
        Outcome::Done(q) => if !piped {
            (Outcome::Done(q), Tree::Variable(name, loc), None)
        } else if !after(s, p, q) {
            (Outcome::Failure(p), no_tree(), None)
        } else {
            let (o2, b) = syn_block_inner(s, q);
            match o2 {
                Outcome::Done(q2) => (
                    Outcome::Done(q2),
                    Tree::Variable(name, loc),
                    Some(Tree::Filter(Box::new(b))),
                ),
                o2 => (o2, no_tree(), None),
            }
        },
        o => (o, no_tree(), None),
    }
}

/// `[ ... ]` after a query segment.
pub open spec fn syn_filter_segment(filter: FilterKind, s: Seq<char>, p: int) -> (
    Outcome,
    Tree,
    Option<Tree>,
)
    decreases s.len() - p, 6nat,
{
    match spec_ws_char(s, p, '[') {
        Outcome::Done(q0) => if !after(s, p, q0) {
            (Outcome::Failure(p), no_tree(), None)
        } else {
            let a = ws(s, q0);
            let simple = match spec_string(s, a).0 {
                Outcome::Error(_) => match spec_int(s, a) {
                    Outcome::Error(_) => match all_ref_result(s, a).0 {
                        Outcome::Error(_) => var_ref_result(s, a),
                        _ => all_ref_result(s, a),
                    },
                    _ => int_result(s, a),
                },
                _ => string_result(s, a),
            };
            let (o1, e, f) = match simple.0 {
                Outcome::Done(q) => (Outcome::Done(q), simple.1, None),
                Outcome::Error(_) => match filter {
                    FilterKind::VarBlock => syn_var_block(s, a),
                    FilterKind::Assignment => {
                        let (o, b) = syn_block_inner(s, a);
                        match o {
                            Outcome::Done(q) => (Outcome::Done(q), Tree::Filter(Box::new(b)), None),
                            o => (o, no_tree(), None),
                        }
                    },
                },
                o => (o, no_tree(), None),
            };
            match o1 {
                Outcome::Done(q1) => match cut_outcome(spec_ws_char(s, ws(s, q1), ']')) {
                    Outcome::Done(q3) => (Outcome::Done(q3), e, f),
                    o => (o, no_tree(), None),
                },
                o => (o, no_tree(), None),
            }
        },
        o => (o, no_tree(), None),
    }
}

/// The segment itself: for the first, a name, a variable reference or a
/// string; for a later one, `.` and a simple segment.
pub open spec fn segment_start(segment: SegmentKind, s: Seq<char>, a: int) -> (Outcome, Tree) {
    match segment {
        SegmentKind::First => match spec_name(s, a) {
            Outcome::Error(_) => match spec_variable_reference(s, a) {
                Outcome::Error(_) => string_result(s, a),
                _ => var_ref_result(s, a),
            },
            _ => name_result(s, a),
        },
        SegmentKind::Dotted => if !(0 <= a < s.len() && s[a] == '.') {
            fail(Outcome::Error(a))
        } else {
            syn_simple_segment(s, a + 1)
        },
    }
}

/// One segment of a query with its optional filter: the trees it adds to
/// the query's parts.
pub open spec fn syn_query_segment(
    segment: SegmentKind,
    filter: FilterKind,
    s: Seq<char>,
    p: int,
) -> (Outcome, Seq<Tree>)
    decreases s.len() - p, 7nat,
{
    let a = ws(s, p);
    let start = segment_start(segment, s, a);
    match start.0 {
        Outcome::Done(q1) => if !after(s, a, q1) {
            (Outcome::Failure(a), Seq::empty())
        } else {
            let q2 = ws(s, q1);
            let (o3, f, fb) = syn_filter_segment(filter, s, q2);
            match o3 {
                Outcome::Done(q3) => (
                    Outcome::Done(q3),
                    match fb {
                        Some(b) => seq![start.1, f, b],
                        None => seq![start.1, f],
                    },
                ),
                Outcome::Error(_) => (Outcome::Done(q2), seq![start.1]),
                o => (o, Seq::empty()),
            }
        },
        o => (o, Seq::empty()),
    }
}

/// `QUERY ::= SEGMENT FILTER? ('.' SEGMENT FILTER?)*`.
pub open spec fn syn_query(filter: FilterKind, s: Seq<char>, p: int) -> (Outcome, Tree)
    decreases s.len() - p, 8nat,
{
    let (o, first) = syn_query_segment(SegmentKind::First, filter, s, p);
    match o {
        Outcome::Done(q) => if !after(s, p, q) {
            stuck(p)
        } else {
            syn_query_rest(filter, s, q, first, loc_at(s, p))
        },
        o => fail(o),
    }
}

/// The dotted segments of a query from `next`, after the parts in `acc`.
pub open spec fn syn_query_rest(
    filter: FilterKind,
    s: Seq<char>,
    next: int,
    acc: Seq<Tree>,
    loc: Location,
) -> (Outcome, Tree)
    decreases s.len() - next, 30nat,
{
    let (o, more) = syn_query_segment(SegmentKind::Dotted, filter, s, next);
    match o {
        Outcome::Done(q) => if !after(s, next, q) {
            stuck(next)
        } else {
            syn_query_rest(filter, s, q, acc + more, loc)
        },
        Outcome::Error(_) => (Outcome::Done(next), Tree::Select(acc, loc)),
        o => fail(o),
    }
}

/// A query whose filters may name a variable.
pub open spec fn syn_select(s: Seq<char>, p: int) -> (Outcome, Tree)
    decreases s.len() - p, 9nat,
{
    syn_query(FilterKind::VarBlock, s, p)
}

/// A query whose filters are clauses.
pub open spec fn syn_assignment_query(s: Seq<char>, p: int) -> (Outcome, Tree)
    decreases s.len() - p, 9nat,
{
    syn_query(FilterKind::Assignment, s, p)
}

/// What a `let` assigns: a value, `keys`/`indices` of a query, or a query.
pub open spec fn syn_let_query_or_value(s: Seq<char>, p: int) -> (Outcome, Tree)
    decreases s.len() - p, 10nat,
{
    let a = ws(s, p);
    let r = match syn_value(s, a).0 {
        Outcome::Error(_) => match syn_keys_unary(KeysOperand::AssignmentQuery, s, a).0 {
            Outcome::Error(_) => syn_assignment_query(s, a),
            _ => syn_keys_unary(KeysOperand::AssignmentQuery, s, a),
        },
        _ => syn_value(s, a),
    };
    match r.0 {
        Outcome::Done(q) => (Outcome::Done(ws(s, q)), r.1),
        o => fail(o),
    }
}

/// `let NAME = (QUERY | VALUE) (or (QUERY | VALUE))?`.
pub open spec fn syn_let(s: Seq<char>, p: int) -> (Outcome, Tree)
    decreases s.len() - p, 19nat,
{
    let loc = loc_at(s, p);
    let a = ws(s, p);
    if !tag_at(s, a, "let"@) {
        fail(Outcome::Error(a))
    } else {
        match spec_ws1(s, a + 3) {
            Outcome::Done(b) => {
                let b1 = ws(s, b);
                match spec_name(s, b1) {
                    Outcome::Done(c) => match cut_outcome(spec_strip_char(s, ws(s, c), '=')) {
                        Outcome::Done(d) => if !after(s, p, d) {
                            stuck(p)
                        } else {
                            let name = s.subrange(b1, c);
                            let (o1, assignment) = syn_let_query_or_value(s, d);
                            match o1 {
                                Outcome::Done(e) => {
                                    let alternative = match or_keyword(s, ws(s, e)) {
                                        Outcome::Done(f) => if !after(s, p, ws(s, f)) {
                                            stuck(p)
                                        } else {
                                            syn_let_query_or_value(s, ws(s, f))
                                        },
                                        _ => fail(Outcome::Error(e)),
                                    };
                                    match alternative.0 {
                                        Outcome::Done(g) => (
                                            Outcome::Done(g),
                                            Tree::Let(
                                                None,
                                                name,
                                                Box::new(
                                                    Tree::BinaryOperation(
                                                        BinaryOperator::Or,
                                                        Box::new(assignment),
                                                        Box::new(alternative.1),
                                                        None,
                                                        loc,
                                                    ),
                                                ),
                                                loc,
                                            ),
                                        ),
                                        Outcome::Error(_) => (
                                            Outcome::Done(e),
                                            Tree::Let(None, name, Box::new(assignment), loc),
                                        ),
                                        o => fail(o),
                                    }
                                },
                                o => fail(o),
                            }
                        },
                        o => fail(o),
                    },
                    o => fail(o),
                }
            },
            o => fail(o),
        }
    }
}

/// A value or a query, with white space and comments around it.
pub open spec fn syn_query_or_value(s: Seq<char>, p: int) -> (Outcome, Tree)
    decreases s.len() - p, 10nat,
{
    let a = ws(s, p);
    let r = match syn_value(s, a).0 {
        Outcome::Error(_) => syn_select(s, a),
        _ => syn_value(s, a),
    };
    match r.0 {
        Outcome::Done(q) => (Outcome::Done(ws(s, q)), r.1),
        o => fail(o),
    }
}

/// `lhs OP rhs MESSAGE?`.
pub open spec fn syn_binary_bool(s: Seq<char>, p: int) -> (Outcome, Tree)
    decreases s.len() - p, 13nat,
{
    let loc = loc_at(s, p);
    let (o1, lhs) = syn_query_or_value(s, p);
    match o1 {
        Outcome::Done(q1) => match spec_binary_comparison_operator(s, q1).0 {
            Outcome::Done(q2) => if !after(s, p, q2) {
                stuck(p)
            } else {
                let (o3, rhs) = syn_query_or_value(s, q2);
                match cut_outcome(o3) {
                    Outcome::Done(q3) => {
                        let (o4, m) = syn_opt_message(s, q3);
                        match o4 {
                            Outcome::Done(q4) => (
                                Outcome::Done(q4),
                                Tree::BinaryOperation(
                                    spec_binary_comparison_operator(s, q1).1,
                                    Box::new(lhs),
                                    Box::new(rhs),
                                    m,
                                    loc,
                                ),
                            ),
                            o => fail(o),
                        }
                    },
                    o => fail(o),
                }
            },
            o => fail(o),
        },
        o => fail(o),
    }
}

/// `keys` or `indices` applied to what follows.
pub open spec fn syn_keys_unary(operand: KeysOperand, s: Seq<char>, p: int) -> (Outcome, Tree)
    decreases s.len() - p, 1nat,
{
    let loc = loc_at(s, p);
    match spec_keys_or_indices(s, p).0 {
        Outcome::Done(q) => if !after(s, p, q) {
            stuck(p)
        } else {
            let (o2, e) = match operand {
                KeysOperand::QueryOrValue => syn_query_or_value(s, q),
                KeysOperand::AssignmentQuery => syn_assignment_query(s, q),
            };
            match o2 {
                Outcome::Done(q2) => (
                    Outcome::Done(q2),
                    Tree::UnaryOperation(spec_keys_or_indices(s, p).1, Box::new(e), None, loc),
                ),
                o => fail(o),
            }
        },
        o => fail(o),
    }
}

/// `operand OP MESSAGE?` where OP is a unary check.
pub open spec fn syn_unary_post(s: Seq<char>, p: int) -> (Outcome, Tree)
    decreases s.len() - p, 11nat,
{
    let loc = loc_at(s, p);
    let (o1, e) = syn_query_or_value(s, p);
    match o1 {
        Outcome::Done(q1) => match spec_unary_comparison_operator(s, q1).0 {
            Outcome::Done(q2) => {
                let (o3, m) = syn_opt_message(s, q2);
                match o3 {
                    Outcome::Done(q3) => (
                        Outcome::Done(q3),
                        Tree::UnaryOperation(
                            spec_unary_comparison_operator(s, q1).1,
                            Box::new(e),
                            m,
                            loc,
                        ),
                    ),
                    o => fail(o),
                }
            },
            o => fail(o),
        },
        o => fail(o),
    }
}

/// `keys`/`indices` of a query or value, or a unary check after one.
pub open spec fn syn_unary(s: Seq<char>, p: int) -> (Outcome, Tree)
    decreases s.len() - p, 12nat,
{
    match syn_keys_unary(KeysOperand::QueryOrValue, s, p).0 {
        Outcome::Error(_) => syn_unary_post(s, p),
        _ => syn_keys_unary(KeysOperand::QueryOrValue, s, p),
    }
}

/// The clauses of a block: `let` assignments and conjunctions.
pub open spec fn syn_block_inner(s: Seq<char>, p: int) -> (Outcome, Tree)
    decreases s.len() - p, 22nat,
{
    let loc = loc_at(s, p);
    let (o, e) = syn_let(s, p);
    match o {
        Outcome::Done(q) => if !after(s, p, q) {
            stuck(p)
        } else {
            syn_block_clauses(s, q, seq![e], Seq::empty(), loc)
        },
        Outcome::Error(_) => {
            let (o2, e2) = syn_and_conjunction(s, p);
            match o2 {
                Outcome::Done(q) => if !after(s, p, q) {
                    stuck(p)
                } else {
                    syn_block_clauses(s, q, Seq::empty(), seq![e2], loc)
                },
                o2 => fail(o2),
            }
        },
        o => fail(o),
    }
}

/// The clauses of a block from `next`, after the assignments and
/// conjunctions read so far.
pub open spec fn syn_block_clauses(
    s: Seq<char>,
    next: int,
    lets: Seq<Tree>,
    ands: Seq<Tree>,
    loc: Location,
) -> (Outcome, Tree)
    decreases s.len() - next, 30nat,
{
    let (o, e) = syn_let(s, next);
    match o {
        Outcome::Done(q) => if !after(s, next, q) {
            stuck(next)
        } else {
            syn_block_clauses(s, q, lets.push(e), ands, loc)
        },
        Outcome::Error(_) => {
            let (o2, e2) = syn_and_conjunction(s, next);
            match o2 {
                Outcome::Done(q) => if !after(s, next, q) {
                    stuck(next)
                } else {
                    syn_block_clauses(s, q, lets, ands.push(e2), loc)
                },
                Outcome::Error(x) => if ands.len() == 0 {
                    fail(Outcome::Failure(x))
                } else {
                    (
                        Outcome::Done(next),
                        Tree::Clauses(lets, Box::new(fold_trees(ands, BinaryOperator::And)), loc),
                    )
                },
                o2 => fail(o2),
            }
        },
        o => fail(o),
    }
}

/// A parameter of a rule clause, with an optional `or` alternative.
pub open spec fn syn_rule_parameter(s: Seq<char>, p: int) -> (Outcome, Tree)
    decreases s.len() - p, 11nat,
{
    let loc = loc_at(s, p);
    let (o, e) = syn_query_or_value(s, ws(s, p));
    match o {
        Outcome::Done(q) => match or_keyword(s, q) {
            Outcome::Done(q2) => if !after(s, p, q2) {
                stuck(p)
            } else {
                let (o2, alt) = syn_query_or_value(s, q2);
                match o2 {
                    Outcome::Done(q3) => (
                        Outcome::Done(q3),
                        Tree::BinaryOperation(BinaryOperator::Or, Box::new(e), Box::new(alt), None, loc),
                    ),
                    Outcome::Error(_) => (Outcome::Done(q), e),
                    o2 => fail(o2),
                }
            },
            _ => (Outcome::Done(q), e),
        },
        o => fail(o),
    }
}

/// `NAME PARAMETERS? MESSAGE?`: a clause that applies a named rule.
pub open spec fn syn_rule_clause(s: Seq<char>, p: int) -> (Outcome, Tree)
    decreases s.len() - p, 13nat,
{
    let loc = loc_at(s, p);
    let a = ws(s, p);
    match spec_name(s, a) {
        Outcome::Done(q) => if !after(s, p, ws(s, q)) {
            stuck(p)
        } else {
            let name = s.subrange(a, q);
            let (o2, ps) = syn_parameters(ParameterKind::RuleParameter, s, ws(s, q));
            match o2 {
                Outcome::Failure(x) => fail(Outcome::Failure(x)),
                _ => {
                    let q2 = match o2 {
                        Outcome::Done(q2) => q2,
                        _ => q,
                    };
                    let parameters = if o2 is Done {
                        Some(ps)
                    } else {
                        None
                    };
                    let c = ws(s, q2);
                    match spec_message_doc(s, c) {
                        Outcome::Failure(x) => fail(Outcome::Failure(x)),
                        om => {
                            let q3 = match om {
                                Outcome::Done(q3) => q3,
                                _ => q2,
                            };
                            let message = if om is Done {
                                Some(s.subrange(c + 2, q3 - 2))
                            } else {
                                None
                            };
                            let clause = Tree::RuleClause(name, parameters, message, loc);
                            if message is None && q3 < s.len() {
                                match follows_clause(s, q3) {
                                    Outcome::Done(_) => (Outcome::Done(q3), clause),
                                    o => fail(o),
                                }
                            } else {
                                (Outcome::Done(q3), clause)
                            }
                        },
                    }
                },
            }
        },
        o => fail(o),
    }
}

/// `( conjunctions )`.
pub open spec fn syn_group(s: Seq<char>, p: int) -> (Outcome, Tree)
    decreases s.len() - p, 13nat,
{
    match spec_strip_char(s, p, '(') {
        Outcome::Done(q1) => if !after(s, p, q1) {
            stuck(p)
        } else {
            let (o2, e) = syn_and_conjunction(s, q1);
            match o2 {
                Outcome::Done(q2) => match cut_outcome(spec_strip_char(s, q2, ')')) {
                    Outcome::Done(q3) => (Outcome::Done(q3), e),
                    o => fail(o),
                },
                o => fail(o),
            }
        },
        o => fail(o),
    }
}

/// An optional `any`/`anyone` prefix, then a clause of the given kind.
pub open spec fn syn_clause2(kind: ClauseKind, s: Seq<char>, p: int) -> (Outcome, Tree)
    decreases s.len() - p, 14nat,
{
    let loc = loc_at(s, p);
    let (q, any) = match spec_anyone(s, p).0 {
        Outcome::Done(q) => (q, Some(spec_anyone(s, p).1)),
        _ => (p, None),
    };
    if !(p <= q <= s.len()) {
        stuck(p)
    } else {
        let a = ws(s, q);
        let inner = match kind {
            ClauseKind::Rule => match syn_when_block(s, a).0 {
                Outcome::Error(_) => match syn_query_block(s, a).0 {
                    Outcome::Error(_) => match syn_binary_bool(s, a).0 {
                        Outcome::Error(_) => syn_unary(s, a),
                        _ => syn_binary_bool(s, a),
                    },
                    _ => syn_query_block(s, a),
                },
                _ => syn_when_block(s, a),
            },
            ClauseKind::WhenCondition => match syn_group(s, a).0 {
                Outcome::Error(_) => match syn_binary_bool(s, a).0 {
                    Outcome::Error(_) => syn_unary(s, a),
                    _ => syn_binary_bool(s, a),
                },
                _ => syn_group(s, a),
            },
        };
        let r = match inner.0 {
            Outcome::Done(q1) => (Outcome::Done(ws(s, q1)), inner.1),
            Outcome::Error(_) => syn_rule_clause(s, q),
            o => fail(o),
        };
        match r.0 {
            Outcome::Done(q2) => (
                Outcome::Done(q2),
                match any {
                    Some(op) => Tree::UnaryOperation(op, Box::new(r.1), None, loc),
                    None => r.1,
                },
            ),
            o => fail(o),
        }
    }
}

/// A clause of a rule block.
pub open spec fn syn_clause(s: Seq<char>, p: int) -> (Outcome, Tree)
    decreases s.len() - p, 15nat,
{
    syn_clause2(ClauseKind::Rule, s, p)
}

/// A clause of a `when` condition.
pub open spec fn syn_when_clause(s: Seq<char>, p: int) -> (Outcome, Tree)
    decreases s.len() - p, 15nat,
{
    syn_clause2(ClauseKind::WhenCondition, s, p)
}

/// One alternative of a disjunction of the given kind.
pub open spec fn syn_disjunct(kind: ClauseKind, s: Seq<char>, p: int) -> (Outcome, Tree)
    decreases s.len() - p, 16nat,
{
    match kind {
        ClauseKind::Rule => match syn_group(s, p).0 {
            Outcome::Error(_) => syn_clause(s, p),
            _ => syn_group(s, p),
        },
        ClauseKind::WhenCondition => syn_when_clause(s, p),
    }
}

/// Clauses joined by `or`.
pub open spec fn syn_disjunction2(kind: ClauseKind, s: Seq<char>, p: int) -> (Outcome, Tree)
    decreases s.len() - p, 17nat,
{
    let (o, e) = syn_disjunct(kind, s, p);
    match o {
        Outcome::Done(q) => if !after(s, p, q) {
            stuck(p)
        } else {
            syn_disjunction_rest(kind, s, q, seq![e])
        },
        o => fail(o),
    }
}

/// The alternatives of a disjunction from `next`, after those in `ors`.
pub open spec fn syn_disjunction_rest(kind: ClauseKind, s: Seq<char>, next: int, ors: Seq<Tree>) -> (
    Outcome,
    Tree,
)
    decreases s.len() - next, 30nat,
{
    match or_keyword(s, next) {
        Outcome::Done(span) => if !after(s, next, span) {
            stuck(next)
        } else {
            let (o, e) = syn_disjunct(kind, s, span);
            match cut_outcome(o) {
                Outcome::Done(span2) => if !after(s, span, span2) {
                    stuck(span)
                } else {
                    syn_disjunction_rest(kind, s, span2, ors.push(e))
                },
                o => fail(o),
            }
        },
        Outcome::Error(_) => (Outcome::Done(next), fold_trees(ors, BinaryOperator::Or)),
        o => fail(o),
    }
}

/// A disjunction of rule clauses.
pub open spec fn syn_disjunction(s: Seq<char>, p: int) -> (Outcome, Tree)
    decreases s.len() - p, 18nat,
{
    syn_disjunction2(ClauseKind::Rule, s, p)
}

/// A disjunction of the given kind, as the conjunction reads it.
pub open spec fn syn_conjunct(kind: ClauseKind, s: Seq<char>, p: int) -> (Outcome, Tree)
    decreases s.len() - p, 19nat,
{
    match kind {
        ClauseKind::Rule => syn_disjunction(s, p),
        ClauseKind::WhenCondition => syn_disjunction2(kind, s, p),
    }
}

/// An optional `not`, then disjunctions joined by `and` or by line ends.
pub open spec fn syn_and_conjunction2(kind: ClauseKind, s: Seq<char>, p: int) -> (Outcome, Tree)
    decreases s.len() - p, 20nat,
{
    let loc = loc_at(s, p);
    let (q0, negation) = match not_keyword(s, p) {
        Outcome::Done(q) => (q, Some(UnaryOperator::Not)),
        _ => (p, None),
    };
    if !(p <= q0 <= s.len()) {
        stuck(p)
    } else {
        let (o, e) = syn_conjunct(kind, s, q0);
        match o {
            Outcome::Done(q1) => if !after(s, p, q1) {
                stuck(p)
            } else {
                syn_conjunction_rest(kind, s, q1, seq![e], negation, loc)
            },
            o => fail(o),
        }
    }
}

/// The conjuncts from `next`, after those in `ands`; the whole negated
/// when it began with `not`.
pub open spec fn syn_conjunction_rest(
    kind: ClauseKind,
    s: Seq<char>,
    next: int,
    ands: Seq<Tree>,
    negation: Option<UnaryOperator>,
    loc: Location,
) -> (Outcome, Tree)
    decreases s.len() - next, 30nat,
{
    let a = match and_keyword(s, next) {
        Outcome::Done(q) => q,
        _ => next,
    };
    if !(next <= a <= s.len()) {
        stuck(next)
    } else {
        let (o, e) = syn_conjunct(kind, s, a);
        match o {
            Outcome::Done(span) => if !after(s, next, span) {
                stuck(next)
            } else {
                syn_conjunction_rest(kind, s, span, ands.push(e), negation, loc)
            },
            Outcome::Error(_) => {
                let joined = fold_trees(ands, BinaryOperator::And);
                (
                    Outcome::Done(next),
                    match negation {
                        Some(op) => Tree::UnaryOperation(op, Box::new(joined), None, loc),
                        None => joined,
                    },
                )
            },
            o => fail(o),
        }
    }
}

/// A conjunction of rule clauses.
pub open spec fn syn_and_conjunction(s: Seq<char>, p: int) -> (Outcome, Tree)
    decreases s.len() - p, 21nat,
{
    syn_and_conjunction2(ClauseKind::Rule, s, p)
}

/// `QUERY { clauses } MESSAGE?`.
pub open spec fn syn_query_block(s: Seq<char>, p: int) -> (Outcome, Tree)
    decreases s.len() - p, 13nat,
{
    let loc = loc_at(s, p);
    let (o1, query) = syn_select(s, p);
    match o1 {
        Outcome::Done(q1) => if !after(s, p, q1) {
            stuck(p)
        } else {
            let (o2, b) = syn_block(s, q1);
            match o2 {
                Outcome::Done(q2) => {
                    let (o3, m) = syn_opt_message(s, q2);
                    match o3 {
                        Outcome::Done(q3) => (
                            Outcome::Done(q3),
                            Tree::Block(Box::new(query), Box::new(b), m, loc),
                        ),
                        o => fail(o),
                    }
                },
                o => fail(o),
            }
        },
        o => fail(o),
    }
}

/// `{ clauses }`.
pub open spec fn syn_block(s: Seq<char>, p: int) -> (Outcome, Tree)
    decreases s.len() - p, 2nat,
{
    match spec_ws_char(s, p, '{') {
        Outcome::Done(q1) => if !after(s, p, q1) {
            stuck(p)
        } else {
            let (o2, b) = syn_block_inner(s, q1);
            match cut_outcome(o2) {
                Outcome::Done(q2) => match cut_outcome(spec_ws_char(s, q2, '}')) {
                    Outcome::Done(q3) => (Outcome::Done(q3), b),
                    o => fail(o),
                },
                o => fail(o),
            }
        },
        o => fail(o),
    }
}

/// `[ clauses ]` as a `when` condition.
pub open spec fn syn_when_cond_block(s: Seq<char>, p: int) -> (Outcome, Tree)
    decreases s.len() - p, 2nat,
{
    match spec_ws_char(s, p, '[') {
        Outcome::Done(q1) => if !after(s, p, q1) {
            stuck(p)
        } else {
            let (o2, b) = syn_block_inner(s, q1);
            match cut_outcome(o2) {
                Outcome::Done(q2) => match cut_outcome(spec_ws_char(s, q2, ']')) {
                    Outcome::Done(q3) => (Outcome::Done(q3), Tree::Filter(Box::new(b))),
                    o => fail(o),
                },
                o => fail(o),
            }
        },
        o => fail(o),
    }
}

/// Conjunctions of `when` clauses, with white space and comments around them.
pub open spec fn syn_when_cond(s: Seq<char>, p: int) -> (Outcome, Tree)
    decreases s.len() - p, 22nat,
{
    let (o, e) = syn_and_conjunction2(ClauseKind::WhenCondition, s, ws(s, p));
    match o {
        Outcome::Done(q) => (Outcome::Done(ws(s, q)), e),
        o => fail(o),
    }
}

/// `when CONDITION { clauses }`.
pub open spec fn syn_when_block(s: Seq<char>, p: int) -> (Outcome, Tree)
    decreases s.len() - p, 13nat,
{
    let loc = loc_at(s, p);
    match spec_kw_trailing(s, p, seq!["when", "WHEN"]) {
        Outcome::Done(q1) => if !after(s, p, q1) {
            stuck(p)
        } else {
            let c = match syn_when_cond_block(s, q1).0 {
                Outcome::Error(_) => syn_when_cond(s, q1),
                _ => syn_when_cond_block(s, q1),
            };
            match c.0 {
                Outcome::Done(q2) => if !after(s, p, q2) {
                    stuck(p)
                } else {
                    let (o3, b) = syn_block(s, q2);
                    match o3 {
                        Outcome::Done(q3) => (
                            Outcome::Done(q3),
                            Tree::When(Box::new(c.1), Box::new(b), loc),
                        ),
                        o => fail(o),
                    }
                },
                o => fail(o),
            }
        },
        o => fail(o),
    }
}

/// `( P, P, ... )`.
pub open spec fn syn_parameters(kind: ParameterKind, s: Seq<char>, p: int) -> (Outcome, Seq<Tree>)
    decreases s.len() - p, 2nat,
{
    match spec_ws_char(s, p, '(') {
        Outcome::Done(q0) => if !after(s, p, q0) {
            (Outcome::Failure(p), Seq::empty())
        } else {
            syn_parameter_list(kind, s, q0, Seq::empty())
        },
        o => (o, Seq::empty()),
    }
}

/// One parameter of the given kind.
pub open spec fn syn_parameter(kind: ParameterKind, s: Seq<char>, p: int) -> (Outcome, Tree)
    decreases s.len() - p, 12nat,
{
    match kind {
        ParameterKind::RuleParameter => syn_rule_parameter(s, p),
        ParameterKind::Name => name_result(s, ws(s, p)),
    }
}

/// The parameters from `span`, after those in `acc`.
pub open spec fn syn_parameter_list(kind: ParameterKind, s: Seq<char>, span: int, acc: Seq<Tree>) -> (
    Outcome,
    Seq<Tree>,
)
    decreases s.len() - span, 30nat,
{
    let (o, e) = syn_parameter(kind, s, span);
    match cut_outcome(o) {
        Outcome::Done(left) => if !after(s, span, left) {
            (Outcome::Failure(span), Seq::empty())
        } else {
            let acc1 = acc.push(e);
            match spec_ws_char(s, left, ',') {
                Outcome::Done(l2) => match spec_ws_char(s, l2, ')') {
                    Outcome::Done(l3) => (Outcome::Done(l3), acc1),
                    _ => if !after(s, left, l2) {
                        (Outcome::Failure(left), Seq::empty())
                    } else {
                        syn_parameter_list(kind, s, l2, acc1)
                    },
                },
                Outcome::Error(_) => match cut_outcome(spec_ws_char(s, left, ')')) {
                    Outcome::Done(l3) => (Outcome::Done(l3), acc1),
                    o2 => (o2, Seq::empty()),
                },
                o2 => (o2, Seq::empty()),
            }
        },
        o2 => (o2, Seq::empty()),
    }
}

/// `rule NAME PARAMETERS? (when CONDITION)? { clauses }`.
pub open spec fn syn_rule(s: Seq<char>, p: int) -> (Outcome, Tree) {
    let loc = loc_at(s, p);
    match spec_kw_trailing(s, p, seq!["rule"]) {
        Outcome::Done(q1) => {
            let a = ws(s, q1);
            match spec_name(s, a) {
                Outcome::Done(q2) => {
                    let name = s.subrange(a, q2);
                    let q3 = ws(s, q2);
                    let (o4, ps) = syn_parameters(ParameterKind::Name, s, q3);
                    match o4 {
                        Outcome::Failure(x) => fail(Outcome::Failure(x)),
                        _ => {
                            let q4 = match o4 {
                                Outcome::Done(q4) => q4,
                                _ => q3,
                            };
                            let parameters = if o4 is Done {
                                Some(ps)
                            } else {
                                None
                            };
                            let (o5, w) = syn_when_block(s, q4);
                            match o5 {
                                Outcome::Done(q5) => match w {
                                    Tree::When(c, b, _) => (
                                        Outcome::Done(q5),
                                        Tree::Rule(name, Some(c), parameters, b, loc),
                                    ),
                                    _ => fail(Outcome::Error(q4)),
                                },
                                Outcome::Error(_) => {
                                    let (o6, b) = syn_block(s, q4);
                                    match cut_outcome(o6) {
                                        Outcome::Done(q6) => (
                                            Outcome::Done(q6),
                                            Tree::Rule(name, None, parameters, Box::new(b), loc),
                                        ),
                                        o => fail(o),
                                    }
                                },
                                o => fail(o),
                            }
                        },
                    }
                },
                o => fail(o),
            }
        },
        o => fail(o),
    }
}

/// The `let` assignments and rules of a rules file from `span`, after those
/// read so far, up to the end of the text.
pub open spec fn syn_file_items(
    s: Seq<char>,
    span: int,
    lets: Seq<Tree>,
    rules: Seq<Tree>,
    name: Seq<char>,
) -> (Outcome, Tree)
    decreases s.len() - span,
{
    let a = ws(s, span);
    let parsed = match syn_let(s, a).0 {
        Outcome::Error(_) => syn_rule(s, a),
        _ => syn_let(s, a),
    };
    match parsed.0 {
        Outcome::Done(left) => if !after(s, span, ws(s, left)) {
            stuck(span)
        } else {
            match parsed.1 {
                Tree::Let(_, _, _, _) => syn_file_items(s, ws(s, left), lets.push(parsed.1), rules, name),
                Tree::Rule(_, _, _, _, _) => syn_file_items(s, ws(s, left), lets, rules.push(parsed.1), name),
                _ => syn_file_items(s, ws(s, left), lets, rules, name),
            }
        },
        Outcome::Error(_) => if span < s.len() {
            fail(Outcome::Failure(span))
        } else {
            (Outcome::Done(span), Tree::File(name, lets, rules, Location { row: 1, column: 1 }))
        },
        o => fail(o),
    }
}

/// A rules file named `name`: its `let` assignments and rules up to the end
/// of the text.
pub open spec fn syn_rules_file(s: Seq<char>, p: int, name: Seq<char>) -> (Outcome, Tree) {
    syn_file_items(s, p, Seq::empty(), Seq::empty(), name)
}

} // verus!
