//! The recursive part of the grammar: collections, queries, clauses,
//! blocks, rules and rules files. Each function reads at least one
//! character when it succeeds; where a construct contains another one, it
//! has read an opening token first, which is what bounds the recursion.
use vstd::prelude::*;
use crate::exprs::{
    Expr,
    BinaryOperator,
    UnaryOperator,
    MapExpr,
    ArrayExpr,
    StringExpr,
    QueryExpr,
    LetExpr,
    BinaryExpr,
    UnaryExpr,
    BlockExpr,
    BlockClauseExpr,
    WhenExpr,
    RuleClauseExpr,
    RuleExpr,
    FileExpr,
};
use crate::assoc::{map_insert, keys_unique};
use crate::tree::{Tree, trees, opt_trees, let_trees, rule_trees, lemma_let_trees_push, lemma_rule_trees_push, lemma_trees_push, lemma_fold_trees, fold_trees, text_of, opt_tree, entry_trees, lemma_insert_tree_entry, insert_tree_entry};
use crate::parser::syntax::{
    ws,
    after,
    no_tree,
    fail,
    stuck,
    cut_outcome,
    or_keyword,
    and_keyword,
    not_keyword,
    name_result,
    string_result,
    int_result,
    var_ref_result,
    all_ref_result,
    scalar_tree,
    range_tree,
    syn_opt_message,
    spaces_end,
    follows_clause,
    syn_simple_segment,
    syn_var_block_name,
    syn_map,
    syn_map_entries,
    syn_array,
    syn_array_elements,
    syn_value,
    syn_var_block,
    syn_filter_segment,
    syn_query_segment,
    segment_start,
    syn_query,
    syn_query_rest,
    syn_select,
    syn_assignment_query,
    syn_let_query_or_value,
    syn_let,
    syn_query_or_value,
    syn_binary_bool,
    syn_keys_unary,
    syn_unary_post,
    syn_unary,
    syn_block_inner,
    syn_block_clauses,
    syn_rule_parameter,
    syn_rule_clause,
    syn_group,
    syn_clause2,
    syn_clause,
    syn_when_clause,
    syn_disjunct,
    syn_disjunction2,
    syn_disjunction_rest,
    syn_disjunction,
    syn_conjunct,
    syn_and_conjunction2,
    syn_conjunction_rest,
    syn_and_conjunction,
    syn_query_block,
    syn_block,
    syn_when_cond_block,
    syn_when_cond,
    syn_when_block,
    syn_parameters,
    syn_parameter,
    syn_parameter_list,
    syn_rule,
    syn_file_items,
    syn_rules_file,
};
use crate::types::{Location, ParseError};
use crate::text::{str_equal, to_owned_string};
use crate::parser::{
    Span,
    ParseErr,
    PResult,
    ends_within,
    advances,
    has_outcome,
    Outcome,
    loc_at,
    error_at,
    failure_at,
    cut,
};
use crate::parser::lexical::{
    skip_ws,
    parse_name,
    var_name,
    parse_string,
    parse_int_value,
    parse_variable_reference,
    parse_all_reference,
    parse_null,
    zero_or_more_ws_or_comment,
    one_or_more_ws_or_comment,
    strip_char,
    char_at_is,
    find_char_exec,
    or_operator,
    and_operator,
    not,
    anyone,
    keys_or_indices,
    binary_comparison_operator,
    unary_comparison_operator,
    here_doc,
    message_doc,
    kw_trailing,
    tag_exec,
};
use crate::parser::values::{
    parse_scalar_value,
    parse_range,
    parse_map_key,
    map_key_text,
    parse_value_separator,
    parse_start_bracket,
    parse_end_bracket,
    parse_map_key_value_sep,
    parse_start_braces,
    parse_end_braces,
    parse_start_parenthesis,
    parse_end_parenthesis,
};

verus! {

/// Whether an expression is a value literal.
pub open spec fn is_value_expr(e: Expr) -> bool {
    ||| e is String
    ||| e is Regex
    ||| e is Float
    ||| e is Int
    ||| e is Bool
    ||| e is Mapping
    ||| e is Array
    ||| e is Null
    ||| e is RangeInt
    ||| e is RangeFloat
}

/// What a filter segment `[...]` of a query may hold besides a key, an
/// index, `*` or a variable reference.
pub enum FilterKind {
    /// `[ name | clauses ]`, `[ name ]` or `[ clauses ]`.
    VarBlock,
    /// `[ clauses ]`.
    Assignment,
}

/// Which segment of a query is read.
pub enum SegmentKind {
    /// The first segment: a name, a variable reference or a string.
    First,
    /// A later segment, after a `.`.
    Dotted,
}

/// Where a clause stands: in a rule block or in a `when` condition.
pub enum ClauseKind {
    Rule,
    WhenCondition,
}

/// What a parameter list holds.
pub enum ParameterKind {
    /// Queries or values, each with an optional `or` alternative.
    RuleParameter,
    /// Names.
    Name,
}

/// What follows `keys` or `indices`.
pub enum KeysOperand {
    QueryOrValue,
    AssignmentQuery,
}

// ---------------------------------------------------------------------
// Key/value literals
// ---------------------------------------------------------------------

/// `MAP ::= '{' (KEY ':' VALUE (',' KEY ':' VALUE)* ','?)? '}'`, with white
/// space and comments allowed between the parts. A key written twice keeps
/// its first place and its last value.
pub fn parse_map(s: &Span, p: usize) -> (r: PResult<Expr>)
    requires
        s.wf(),
        p <= s.chars@.len(),
    ensures
        has_outcome(r, s.chars@, syn_map(s.chars@, p as int).0),
        r matches Ok((_, e)) ==> e.tree() == syn_map(s.chars@, p as int).1,
        advances(r, s.chars@, p as int),
        r matches Ok((_, e)) ==> e matches Expr::Mapping(m) && keys_unique(m.entries@)
            && m.location == loc_at(s.chars@, p as int),
    decreases s.chars@.len() - p, 8nat,
{
    let ghost t = s.chars@;
    let location = s.location_at(p);
    let (q0, _) = parse_start_bracket(s, p)?;
    let mut map: Vec<(String, Expr)> = Vec::new();
    let mut span = q0;
    if let Ok((left, _)) = parse_end_bracket(s, span) {
        proof {
            assert(entry_trees(map@) =~= Seq::empty());
        }
        return Ok((left, Expr::Mapping(Box::new(MapExpr::new(map, location)))));
    }
    proof {
        assert(entry_trees(map@) =~= Seq::empty());
    }
    loop
        invariant
            s.wf(),
            t == s.chars@,
            p < span <= s.chars@.len(),
            keys_unique(map@),
            location == loc_at(s.chars@, p as int),
            syn_map(t, p as int) == syn_map_entries(t, span as int, entry_trees(map@), location),
        decreases s.chars@.len() - span,
    {
        let ghost span0 = span as int;
        let ghost acc0 = entry_trees(map@);
        let (k1, key) = parse_map_key(s, span)?;
        let (k2, _) = parse_map_key_value_sep(s, k1)?;
        let (left, value) = let_query_or_value(s, k2)?;
        span = left;
        match key {
            Expr::String(k) => {
                let k = *k;
                proof {
                    lemma_insert_tree_entry(map@, k.value, value);
                }
                map_insert(&mut map, k.value, value);
            },
            _ => {},
        }
        proof {
            assert(entry_trees(map@) == insert_tree_entry(acc0, map_key_text(t, span0), syn_let_query_or_value(t, k2 as int).1));
        }
        match parse_value_separator(s, span) {
            Ok((left, _)) => {
                span = left;
                if let Ok((left, _)) = parse_end_bracket(s, span) {
                    return Ok((left, Expr::Mapping(Box::new(MapExpr::new(map, location)))));
                }
            },
            Err(ParseErr::Error(_)) => {
                let (left, _) = cut(parse_end_bracket(s, span))?;
                return Ok((left, Expr::Mapping(Box::new(MapExpr::new(map, location)))));
            },
            Err(e) => return Err(e),
        }
    }
}

// ---------------------------------------------------------------------
// Lists
// ---------------------------------------------------------------------

/// `ARRAY ::= '[' (VALUE (',' VALUE)* ','?)? ']'`; an element that does not
/// read is a failure.
pub fn parse_array(s: &Span, p: usize) -> (r: PResult<Expr>)
    requires
        s.wf(),
        p <= s.chars@.len(),
    ensures
        has_outcome(r, s.chars@, syn_array(s.chars@, p as int).0),
        r matches Ok((_, e)) ==> e.tree() == syn_array(s.chars@, p as int).1,
        advances(r, s.chars@, p as int),
        r matches Ok((_, e)) ==> e matches Expr::Array(a) && a.location == loc_at(
            s.chars@,
            p as int,
        ),
    decreases s.chars@.len() - p, 8nat,
{
    let ghost t = s.chars@;
    let location = s.location_at(p);
    let (q0, _) = parse_start_braces(s, p)?;
    let mut collection: Vec<Expr> = Vec::new();
    let mut span = q0;
    if let Ok((left, _)) = parse_end_braces(s, span) {
        proof {
            assert(trees(collection@) =~= Seq::empty());
        }
        return Ok((left, Expr::Array(Box::new(ArrayExpr::new(collection, location)))));
    }
    proof {
        assert(trees(collection@) =~= Seq::empty());
    }
    loop
        invariant
            s.wf(),
            t == s.chars@,
            p < span <= s.chars@.len(),
            location == loc_at(s.chars@, p as int),
            syn_array(t, p as int) == syn_array_elements(t, span as int, trees(collection@), location),
        decreases s.chars@.len() - span,
    {
        let (left, value) = cut(let_query_or_value(s, span))?;
        proof {
            lemma_trees_push(collection@, value);
        }
        collection.push(value);
        span = left;
        match parse_value_separator(s, span) {
            Ok((left, _)) => {
                span = left;
                if let Ok((left, _)) = parse_end_braces(s, span) {
                    return Ok((left, Expr::Array(Box::new(ArrayExpr::new(collection, location)))));
                }
            },
            Err(ParseErr::Error(_)) => {
                let (left, _) = cut(parse_end_braces(s, span))?;
                return Ok((left, Expr::Array(Box::new(ArrayExpr::new(collection, location)))));
            },
            Err(e) => return Err(e),
        }
    }
}

// ---------------------------------------------------------------------
// Values
// ---------------------------------------------------------------------

/// `VALUE ::= SCALAR | MAP | ARRAY | NULL | RANGE`, with white space and
/// comments around it.
pub fn parse_value(s: &Span, p: usize) -> (r: PResult<Expr>)
    requires
        s.wf(),
        p <= s.chars@.len(),
    ensures
        has_outcome(r, s.chars@, syn_value(s.chars@, p as int).0),
        r matches Ok((_, e)) ==> e.tree() == syn_value(s.chars@, p as int).1,
        advances(r, s.chars@, p as int),
        r matches Ok((_, e)) ==> is_value_expr(e),
    decreases s.chars@.len() - p, 9nat,
{
    let a = zero_or_more_ws_or_comment(s, p);
    let (q, e) = match parse_scalar_value(s, a) {
        Err(ParseErr::Error(_)) => match parse_map(s, a) {
            Err(ParseErr::Error(_)) => match parse_array(s, a) {
                Err(ParseErr::Error(_)) => match parse_null(s, a) {
                    Err(ParseErr::Error(_)) => parse_range(s, a)?,
                    r => r?,
                },
                r => r?,
            },
            r => r?,
        },
        r => r?,
    };
    Ok((zero_or_more_ws_or_comment(s, q), e))
}

// ---------------------------------------------------------------------
// Queries
// ---------------------------------------------------------------------

/// A later segment of a query: a name, a variable reference, `*`, a string
/// or an index, with white space and comments around it.
pub fn parse_query_simple_segment(s: &Span, p: usize) -> (r: PResult<Expr>)
    requires
        s.wf(),
        p <= s.chars@.len(),
    ensures
        has_outcome(r, s.chars@, syn_simple_segment(s.chars@, p as int).0),
        r matches Ok((_, e)) ==> e.tree() == syn_simple_segment(s.chars@, p as int).1,
        advances(r, s.chars@, p as int),
{
    let a = zero_or_more_ws_or_comment(s, p);
    let (q, e) = match var_name(s, a) {
        Err(ParseErr::Error(_)) => match parse_variable_reference(s, a) {
            Err(ParseErr::Error(_)) => match parse_all_reference(s, a) {
                Err(ParseErr::Error(_)) => match parse_string(s, a) {
                    Err(ParseErr::Error(_)) => parse_int_value(s, a)?,
                    r => r?,
                },
                r => r?,
            },
            r => r?,
        },
        r => r?,
    };
    Ok((zero_or_more_ws_or_comment(s, q), e))
}

/// A variable name that starts a filter: followed by `|` (a block follows)
/// or by `]` (the filter is the variable alone, and the `]` is not read).
pub fn var_block_name(s: &Span, p: usize) -> (r: PResult<(String, bool)>)
    requires
        s.wf(),
        p <= s.chars@.len(),
    ensures
        has_outcome(r, s.chars@, syn_var_block_name(s.chars@, p as int).0),
        r matches Ok((_, (name, piped))) ==> name@ == syn_var_block_name(s.chars@, p as int).1 && piped == syn_var_block_name(s.chars@, p as int).2,
        advances(r, s.chars@, p as int),
        r is Err ==> r matches Err(ParseErr::Error(_)),
{
    let (q, name) = parse_name(s, p)?;
    match strip_char(s, q, '|') {
        Ok((q2, _)) => Ok((q2, (name, true))),
        Err(_) => {
            let _ = parse_end_braces(s, q)?;
            Ok((q, (name, false)))
        },
    }
}

/// The inside of a filter segment that is not a key or an index:
/// `name | clauses`, `name`, or `clauses`.
pub fn parse_var_block(s: &Span, p: usize) -> (r: PResult<(Expr, Option<Expr>)>)
    requires
        s.wf(),
        p <= s.chars@.len(),
    ensures
        has_outcome(r, s.chars@, syn_var_block(s.chars@, p as int).0),
        r matches Ok((_, (e, f))) ==> e.tree() == syn_var_block(s.chars@, p as int).1 && opt_tree(f) == syn_var_block(s.chars@, p as int).2,
        advances(r, s.chars@, p as int),
    decreases s.chars@.len() - p, 23nat,
{
    let location = s.location_at(p);
    match var_block_name(s, p) {
        Err(ParseErr::Error(_)) => {
            let (q, b) = parse_block_inner_expr(s, p)?;
            Ok((q, (Expr::Filter(Box::new(b)), None)))
        },
        Err(e) => Err(e),
        Ok((q, (variable, false))) => Ok(
            (q, (Expr::Variable(Box::new(StringExpr::new(variable, location))), None)),
        ),
        Ok((q, (variable, true))) => {
            let (q2, blk) = parse_block_inner_expr(s, q)?;
            Ok(
                (
                    q2,
                    (
                        Expr::Variable(Box::new(StringExpr::new(variable, location))),
                        Some(Expr::Filter(Box::new(blk))),
                    ),
                ),
            )
        },
    }
}

/// `[ ... ]` after a query segment: a key, an index, `*`, a variable
/// reference, or a filter; the closing `]` is required once `[` is read.
pub fn parse_query_filter_segment(filter: &FilterKind, s: &Span, p: usize) -> (r: PResult<
    (Expr, Option<Expr>),
>)
    requires
        s.wf(),
        p <= s.chars@.len(),
    ensures
        has_outcome(r, s.chars@, syn_filter_segment(*filter, s.chars@, p as int).0),
        r matches Ok((_, (e, f))) ==> e.tree() == syn_filter_segment(*filter, s.chars@, p as int).1 && opt_tree(f) == syn_filter_segment(*filter, s.chars@, p as int).2,
        advances(r, s.chars@, p as int),
    decreases s.chars@.len() - p, 6nat,
{
    let (q0, _) = parse_start_braces(s, p)?;
    let a = zero_or_more_ws_or_comment(s, q0);
    let simple = match parse_string(s, a) {
        Err(ParseErr::Error(_)) => match parse_int_value(s, a) {
            Err(ParseErr::Error(_)) => match parse_all_reference(s, a) {
                Err(ParseErr::Error(_)) => parse_variable_reference(s, a),
                r => r,
            },
            r => r,
        },
        r => r,
    };
    let (q1, expr) = match simple {
        Ok((q, e)) => (q, (e, None)),
        Err(ParseErr::Error(_)) => match filter {
            FilterKind::VarBlock => parse_var_block(s, a)?,
            FilterKind::Assignment => {
                let (q, b) = parse_block_inner_expr(s, a)?;
                (q, (Expr::Filter(Box::new(b)), None))
            },
        },
        Err(e) => return Err(e),
    };
    let q2 = zero_or_more_ws_or_comment(s, q1);
    let (q3, _) = cut(parse_end_braces(s, q2))?;
    Ok((q3, expr))
}

/// The segment itself, before its filter.
fn segment_start_exec(parser: &SegmentKind, s: &Span, a: usize) -> (r: PResult<Expr>)
    requires
        s.wf(),
        a <= s.chars@.len(),
    ensures
        has_outcome(r, s.chars@, segment_start(*parser, s.chars@, a as int).0),
        r matches Ok((q, e)) ==> a < q <= s.chars@.len() && e.tree() == segment_start(
            *parser,
            s.chars@,
            a as int,
        ).1,
{
    match parser {
        SegmentKind::First => match var_name(s, a) {
            Err(ParseErr::Error(_)) => match parse_variable_reference(s, a) {
                Err(ParseErr::Error(_)) => parse_string(s, a),
                r => r,
            },
            r => r,
        },
        SegmentKind::Dotted => {
            if !char_at_is(s, a, '.') {
                return Err(error_at(s, a, "Char"));
            }
            parse_query_simple_segment(s, a + 1)
        },
    }
}

/// One segment of a query with its optional filter; on success the segment,
/// the filter and the filter's block are appended to `segments`.
#[verifier::spinoff_prover]
#[verifier::rlimit(30)]
pub fn query_segment(
    parser: &SegmentKind,
    filter: &FilterKind,
    s: &Span,
    p: usize,
    segments: &mut Vec<Expr>,
) -> (r: PResult<()>)
    requires
        s.wf(),
        p <= s.chars@.len(),
    ensures
        has_outcome(r, s.chars@, syn_query_segment(*parser, *filter, s.chars@, p as int).0),
        r is Ok ==> trees(final(segments)@) == trees(old(segments)@) + syn_query_segment(*parser, *filter, s.chars@, p as int).1,
        advances(r, s.chars@, p as int),
        r is Ok ==> final(segments)@.len() > old(segments)@.len() && final(segments)@.subrange(
            0,
            old(segments)@.len() as int,
        ) == old(segments)@,
        r is Err ==> final(segments)@ == old(segments)@,
    decreases s.chars@.len() - p, 7nat,
{
    let ghost t = s.chars@;
    let a = zero_or_more_ws_or_comment(s, p);
    let (q1, start) = segment_start_exec(parser, s, a)?;
    let q2 = zero_or_more_ws_or_comment(s, q1);
    let ghost start_tree = start.tree();
    let ghost fs = syn_filter_segment(*filter, t, q2 as int);
    let ghost spec = syn_query_segment(*parser, *filter, t, p as int);
    proof {
        assert(spec == (match fs.0 {
            Outcome::Done(q3) => (
                Outcome::Done(q3),
                match fs.2 {
                    Some(b) => seq![start_tree, fs.1, b],
                    None => seq![start_tree, fs.1],
                },
            ),
            Outcome::Error(_) => (Outcome::Done(q2 as int), seq![start_tree]),
            o => (o, Seq::empty()),
        }));
    }
    let (q3, found) = match parse_query_filter_segment(filter, s, q2) {
        Ok((q, f)) => (q, Some(f)),
        Err(ParseErr::Error(_)) => (q2, None),
        Err(e) => return Err(e),
    };
    let ghost before = segments@;
    proof {
        lemma_trees_push(segments@, start);
    }
    segments.push(start);
    if let Some(f) = found {
        proof {
            lemma_trees_push(segments@, f.0);
        }
        segments.push(f.0);
        if let Some(expr) = f.1 {
            proof {
                lemma_trees_push(segments@, expr);
                assert(trees(segments@.push(expr)) =~= trees(before) + seq![start_tree, fs.1, expr.tree()]);
            }
            segments.push(expr);
        } else {
            proof {
                assert(trees(segments@) =~= trees(before) + seq![start_tree, fs.1]);
            }
        }
    } else {
        proof {
            assert(trees(segments@) =~= trees(before) + seq![start_tree]);
        }
    }
    proof {
        assert(segments@.subrange(0, before.len() as int) =~= before);
    }
    Ok((q3, ()))
}

/// `QUERY ::= SEGMENT FILTER? ('.' SEGMENT FILTER?)*`.
pub fn parse_query(filter: &FilterKind, s: &Span, p: usize) -> (r: PResult<Expr>)
    requires
        s.wf(),
        p <= s.chars@.len(),
    ensures
        has_outcome(r, s.chars@, syn_query(*filter, s.chars@, p as int).0),
        r matches Ok((_, e)) ==> e.tree() == syn_query(*filter, s.chars@, p as int).1,
        advances(r, s.chars@, p as int),
        r matches Ok((_, e)) ==> e matches Expr::Select(q) && q.parts@.len() > 0
            && q.location == loc_at(s.chars@, p as int),
    decreases s.chars@.len() - p, 8nat,
{
    let ghost t = s.chars@;
    let location = s.location_at(p);
    let mut segments: Vec<Expr> = Vec::new();
    proof {
        assert(trees(segments@) =~= Seq::empty());
    }
    let (q, _) = query_segment(&SegmentKind::First, filter, s, p, &mut segments)?;
    proof {
        assert(trees(segments@) =~= syn_query_segment(SegmentKind::First, *filter, t, p as int).1);
    }
    let mut next = q;
    loop
        invariant
            s.wf(),
            t == s.chars@,
            p < next <= s.chars@.len(),
            segments@.len() > 0,
            location == loc_at(s.chars@, p as int),
            syn_query(*filter, t, p as int) == syn_query_rest(*filter, t, next as int, trees(segments@), location),
        decreases s.chars@.len() - next,
    {
        match query_segment(&SegmentKind::Dotted, filter, s, next, &mut segments) {
            Ok((q, _)) => {
                next = q;
            },
            Err(ParseErr::Error(_)) => {
                let query = QueryExpr::new(segments, location);
                proof {
                    assert(query.tree() == Tree::Select(trees(query.parts@), location));
                }
                return Ok((next, Expr::Select(Box::new(query))));
            },
            Err(e) => return Err(e),
        }
    }
}

/// A query whose filters may name a variable for the values they select.
pub fn parse_select(s: &Span, p: usize) -> (r: PResult<Expr>)
    requires
        s.wf(),
        p <= s.chars@.len(),
    ensures
        has_outcome(r, s.chars@, syn_select(s.chars@, p as int).0),
        r matches Ok((_, e)) ==> e.tree() == syn_select(s.chars@, p as int).1,
        advances(r, s.chars@, p as int),
        r matches Ok((_, e)) ==> e matches Expr::Select(q) && q.parts@.len() > 0
            && q.location == loc_at(s.chars@, p as int),
    decreases s.chars@.len() - p, 9nat,
{
    parse_query(&FilterKind::VarBlock, s, p)
}

/// A query on the right of an assignment; its filters are clauses.
pub fn parse_assignment_query(s: &Span, p: usize) -> (r: PResult<Expr>)
    requires
        s.wf(),
        p <= s.chars@.len(),
    ensures
        has_outcome(r, s.chars@, syn_assignment_query(s.chars@, p as int).0),
        r matches Ok((_, e)) ==> e.tree() == syn_assignment_query(s.chars@, p as int).1,
        advances(r, s.chars@, p as int),
        r matches Ok((_, e)) ==> e matches Expr::Select(q) && q.parts@.len() > 0
            && q.location == loc_at(s.chars@, p as int),
    decreases s.chars@.len() - p, 9nat,
{
    parse_query(&FilterKind::Assignment, s, p)
}

/// What a `let` assigns: a value, `keys`/`indices` of a query, or a query.
pub fn let_query_or_value(s: &Span, p: usize) -> (r: PResult<Expr>)
    requires
        s.wf(),
        p <= s.chars@.len(),
    ensures
        has_outcome(r, s.chars@, syn_let_query_or_value(s.chars@, p as int).0),
        r matches Ok((_, e)) ==> e.tree() == syn_let_query_or_value(s.chars@, p as int).1,
        advances(r, s.chars@, p as int),
    decreases s.chars@.len() - p, 10nat,
{
    let a = zero_or_more_ws_or_comment(s, p);
    let (q, e) = match parse_value(s, a) {
        Err(ParseErr::Error(_)) => match keys_or_indices_unary_expr(
            &KeysOperand::AssignmentQuery,
            s,
            a,
        ) {
            Err(ParseErr::Error(_)) => parse_assignment_query(s, a)?,
            r => r?,
        },
        r => r?,
    };
    Ok((zero_or_more_ws_or_comment(s, q), e))
}

/// `LET ::= 'let' NAME '=' (QUERY | VALUE) ('or' (QUERY | VALUE))?`; once the
/// name is read, the `=` is required.
pub fn parse_let_expr(s: &Span, p: usize) -> (r: PResult<Expr>)
    requires
        s.wf(),
        p <= s.chars@.len(),
    ensures
        has_outcome(r, s.chars@, syn_let(s.chars@, p as int).0),
        r matches Ok((_, e)) ==> e.tree() == syn_let(s.chars@, p as int).1,
        advances(r, s.chars@, p as int),
        r matches Ok((_, e)) ==> e matches Expr::Let(l) && l.location == loc_at(
            s.chars@,
            p as int,
        ),
    decreases s.chars@.len() - p, 19nat,
{
    let location = s.location_at(p);
    let a = zero_or_more_ws_or_comment(s, p);
    if !tag_exec(s, a, "let") {
        return Err(error_at(s, a, "Tag"));
    }
    proof {
        reveal_strlit("let");
    }
    let (b, _) = one_or_more_ws_or_comment(s, a + 3)?;
    let b1 = zero_or_more_ws_or_comment(s, b);
    let (c, variable) = parse_name(s, b1)?;
    let c1 = zero_or_more_ws_or_comment(s, c);
    let (d, _) = cut(strip_char(s, c1, '='))?;
    let (e, assignment) = let_query_or_value(s, d)?;
    let or_at = zero_or_more_ws_or_comment(s, e);
    let alternative = match or_operator(s, or_at) {
        Ok((f, _)) => {
            let f1 = zero_or_more_ws_or_comment(s, f);
            match let_query_or_value(s, f1) {
                Ok((g, v)) => Some((g, v)),
                Err(ParseErr::Error(_)) => None,
                Err(err) => return Err(err),
            }
        },
        Err(_) => None,
    };
    let ghost name = variable@;
    let ghost first = assignment.tree();
    match alternative {
        Some((g, value)) => {
            let ghost second = value.tree();
            let either = Expr::BinaryOperation(
                Box::new(BinaryExpr::new(BinaryOperator::Or, assignment, value, location)),
            );
            proof {
                assert(either.tree() == Tree::BinaryOperation(
                    BinaryOperator::Or,
                    Box::new(first),
                    Box::new(second),
                    None,
                    location,
                ));
            }
            let l = LetExpr::new(variable, either, location);
            proof {
                assert(l.tree() == Tree::Let(None, name, Box::new(either.tree()), location));
            }
            Ok((g, Expr::Let(Box::new(l))))
        },
        None => {
            let l = LetExpr::new(variable, assignment, location);
            proof {
                assert(l.tree() == Tree::Let(None, name, Box::new(first), location));
            }
            Ok((e, Expr::Let(Box::new(l))))
        },
    }
}

/// A value or a query, with white space and comments around it.
pub fn query_or_value(s: &Span, p: usize) -> (r: PResult<Expr>)
    requires
        s.wf(),
        p <= s.chars@.len(),
    ensures
        has_outcome(r, s.chars@, syn_query_or_value(s.chars@, p as int).0),
        r matches Ok((_, e)) ==> e.tree() == syn_query_or_value(s.chars@, p as int).1,
        advances(r, s.chars@, p as int),
    decreases s.chars@.len() - p, 10nat,
{
    let ghost t = s.chars@;
    let a = zero_or_more_ws_or_comment(s, p);
    proof {
        assert(ws(t, p as int) == a);
    }
    let (q, e) = match parse_value(s, a) {
        Err(ParseErr::Error(_)) => {
            proof {
                assert(syn_value(t, a as int).0 is Error);
            }
            let r2 = parse_select(s, a);
            match r2 {
                Err(e) => {
                    proof {
                        assert(has_outcome(Err::<(usize, Expr), ParseErr>(e), t, syn_select(t, a as int).0));
                    }
                    return Err(e);
                },
                Ok(x) => x,
            }
        },
        r => r?,
    };
    Ok((zero_or_more_ws_or_comment(s, q), e))
}

/// The optional message after a clause: white space and comments, a
/// here-doc or a `<<...>>` message, then white space and comments.
fn opt_message(s: &Span, p: usize) -> (r: PResult<Option<String>>)
    requires
        s.wf(),
        p <= s.chars@.len(),
    ensures
        has_outcome(r, s.chars@, syn_opt_message(s.chars@, p as int).0),
        r matches Ok((_, m)) ==> text_of(m) == syn_opt_message(s.chars@, p as int).1,
        ends_within(r, s.chars@, p as int),
{
    let a = zero_or_more_ws_or_comment(s, p);
    let (q, msg) = match here_doc(s, a) {
        Ok((q, m)) => (q, Some(m)),
        Err(ParseErr::Error(_)) => match message_doc(s, a) {
            Ok((q, m)) => (q, Some(m)),
            Err(ParseErr::Error(_)) => (a, None),
            Err(e) => return Err(e),
        },
        Err(e) => return Err(e),
    };
    Ok((zero_or_more_ws_or_comment(s, q), msg))
}

/// `lhs OP rhs` with an optional message; once the operator is read, the
/// right-hand side is required.
pub fn parse_binary_bool_expr(s: &Span, p: usize) -> (r: PResult<Expr>)
    requires
        s.wf(),
        p <= s.chars@.len(),
    ensures
        has_outcome(r, s.chars@, syn_binary_bool(s.chars@, p as int).0),
        r matches Ok((_, e)) ==> e.tree() == syn_binary_bool(s.chars@, p as int).1,
        advances(r, s.chars@, p as int),
        r matches Ok((_, e)) ==> e matches Expr::BinaryOperation(b) && b.location == loc_at(
            s.chars@,
            p as int,
        ),
    decreases s.chars@.len() - p, 13nat,
{
    let location = s.location_at(p);
    let (q1, lhs) = query_or_value(s, p)?;
    let (q2, operator) = binary_comparison_operator(s, q1)?;
    let (q3, rhs) = cut(query_or_value(s, q2))?;
    let (q4, message) = opt_message(s, q3)?;
    Ok(
        (
            q4,
            Expr::BinaryOperation(
                Box::new(BinaryExpr::new_with_msg(operator, lhs, rhs, location, message)),
            ),
        ),
    )
}

/// `keys` or `indices` applied to what follows.
pub fn keys_or_indices_unary_expr(operand: &KeysOperand, s: &Span, p: usize) -> (r: PResult<Expr>)
    requires
        s.wf(),
        p <= s.chars@.len(),
    ensures
        has_outcome(r, s.chars@, syn_keys_unary(*operand, s.chars@, p as int).0),
        r matches Ok((_, e)) ==> e.tree() == syn_keys_unary(*operand, s.chars@, p as int).1,
        advances(r, s.chars@, p as int),
        r matches Ok((_, e)) ==> e matches Expr::UnaryOperation(u) && (u.operator
            == UnaryOperator::Keys || u.operator == UnaryOperator::Indices) && u.location == loc_at(
            s.chars@,
            p as int,
        ),
    decreases s.chars@.len() - p, 1nat,
{
    let location = s.location_at(p);
    let (q, op) = keys_or_indices(s, p)?;
    let (q2, expr) = match operand {
        KeysOperand::QueryOrValue => query_or_value(s, q)?,
        KeysOperand::AssignmentQuery => parse_assignment_query(s, q)?,
    };
    Ok((q2, Expr::UnaryOperation(Box::new(UnaryExpr::new(op, expr, location)))))
}

/// `operand OP` where OP is a unary check such as `exists` or `is_string`,
/// possibly negated, with an optional message.
pub fn unary_post_bool_expr(s: &Span, p: usize) -> (r: PResult<Expr>)
    requires
        s.wf(),
        p <= s.chars@.len(),
    ensures
        has_outcome(r, s.chars@, syn_unary_post(s.chars@, p as int).0),
        r matches Ok((_, e)) ==> e.tree() == syn_unary_post(s.chars@, p as int).1,
        advances(r, s.chars@, p as int),
        r matches Ok((_, e)) ==> e matches Expr::UnaryOperation(u) && u.location == loc_at(
            s.chars@,
            p as int,
        ),
    decreases s.chars@.len() - p, 11nat,
{
    let location = s.location_at(p);
    let (q1, expr) = query_or_value(s, p)?;
    let (q2, operator) = unary_comparison_operator(s, q1)?;
    let (q3, message) = opt_message(s, q2)?;
    Ok(
        (
            q3,
            Expr::UnaryOperation(
                Box::new(UnaryExpr::new_with_msg(operator, expr, location, message)),
            ),
        ),
    )
}

/// `keys`/`indices` of a query or value, or a unary check after one.
pub fn unary_expr(s: &Span, p: usize) -> (r: PResult<Expr>)
    requires
        s.wf(),
        p <= s.chars@.len(),
    ensures
        has_outcome(r, s.chars@, syn_unary(s.chars@, p as int).0),
        r matches Ok((_, e)) ==> e.tree() == syn_unary(s.chars@, p as int).1,
        advances(r, s.chars@, p as int),
        r matches Ok((_, e)) ==> e is UnaryOperation,
    decreases s.chars@.len() - p, 12nat,
{
    match keys_or_indices_unary_expr(&KeysOperand::QueryOrValue, s, p) {
        Err(ParseErr::Error(_)) => unary_post_bool_expr(s, p),
        r => r,
    }
}

pub fn parse_unary_bool_expr(s: &Span, p: usize) -> (r: PResult<Expr>)
    requires
        s.wf(),
        p <= s.chars@.len(),
    ensures
        has_outcome(r, s.chars@, syn_unary(s.chars@, p as int).0),
        r matches Ok((_, e)) ==> e.tree() == syn_unary(s.chars@, p as int).1,
        advances(r, s.chars@, p as int),
        r matches Ok((_, e)) ==> e is UnaryOperation,
    decreases s.chars@.len() - p, 13nat,
{
    unary_expr(s, p)
}

// ---------------------------------------------------------------------
// Conjunctions and disjunctions
// ---------------------------------------------------------------------

/// `e0 op (e1 op (... en))`, each operation located where its left operand is.
pub open spec fn fold_ops(es: Seq<Expr>, op: BinaryOperator) -> Expr
    decreases es.len(),
{
    if es.len() <= 1 {
        es[0]
    } else {
        Expr::BinaryOperation(
            Box::new(
                BinaryExpr {
                    operator: op,
                    lhs: es[0],
                    rhs: fold_ops(es.drop_first(), op),
                    message: None,
                    location: es[0].location_of(),
                },
            ),
        )
    }
}

proof fn lemma_fold_ops_last(x: Seq<Expr>, e: Expr, a: Expr, op: BinaryOperator)
    ensures
        fold_ops(x.push(e).push(a), op) == fold_ops(
            x.push(
                Expr::BinaryOperation(
                    Box::new(
                        BinaryExpr {
                            operator: op,
                            lhs: e,
                            rhs: a,
                            message: None,
                            location: e.location_of(),
                        },
                    ),
                ),
            ),
            op,
        ),
    decreases x.len(),
{
    let b = Expr::BinaryOperation(
        Box::new(
            BinaryExpr { operator: op, lhs: e, rhs: a, message: None, location: e.location_of() },
        ),
    );
    if x.len() == 0 {
        assert(x.push(e).push(a) =~= seq![e, a]);
        assert(x.push(b) =~= seq![b]);
        assert(seq![e, a].drop_first() =~= seq![a]);
        assert(fold_ops(seq![a], op) == a);
        assert(fold_ops(seq![b], op) == b);
        assert(fold_ops(seq![e, a], op) == b);
    } else {
        lemma_fold_ops_last(x.drop_first(), e, a, op);
        assert(x.push(e).push(a).drop_first() =~= x.drop_first().push(e).push(a));
        assert(x.push(b).drop_first() =~= x.drop_first().push(b));
        assert(x.push(e).push(a)[0] == x[0]);
        assert(x.push(b)[0] == x[0]);
    }
}

/// Joins the expressions with `op`, nesting to the right.
pub fn reduce_ands_ors(exprs: Vec<Expr>, op: BinaryOperator) -> (r: Expr)
    requires
        exprs@.len() > 0,
    ensures
        r == fold_ops(exprs@, op),
{
    let ghost all = exprs@;
    let mut rest = exprs;
    let mut acc = rest.pop().unwrap();
    proof {
        assert(rest@.push(acc) =~= all);
    }
    while rest.len() > 0
        invariant
            fold_ops(rest@.push(acc), op) == fold_ops(all, op),
        decreases rest@.len(),
    {
        let ghost before = rest@;
        let e = rest.pop().unwrap();
        proof {
            assert(before == rest@.push(e));
            lemma_fold_ops_last(rest@, e, acc, op);
        }
        let location = *e.get_location();
        acc = Expr::BinaryOperation(Box::new(BinaryExpr::new(op, e, acc, location)));
    }
    proof {
        assert(rest@.push(acc) =~= seq![acc]);
    }
    acc
}

/// The clauses of a block: `let` assignments and conjunctions, in any order;
/// a block with no conjunction is a failure.
pub fn parse_block_inner_expr(s: &Span, p: usize) -> (r: PResult<BlockExpr>)
    requires
        s.wf(),
        p <= s.chars@.len(),
    ensures
        has_outcome(r, s.chars@, syn_block_inner(s.chars@, p as int).0),
        r matches Ok((_, b)) ==> b.tree() == syn_block_inner(s.chars@, p as int).1,
        advances(r, s.chars@, p as int),
        r matches Ok((_, b)) ==> b.location == loc_at(s.chars@, p as int) && forall|i: int|
            0 <= i < b.assignments@.len() ==> #[trigger] b.assignments@[i] is Let,
    decreases s.chars@.len() - p, 22nat,
{
    let ghost t = s.chars@;
    let location = s.location_at(p);
    let mut assignments: Vec<Expr> = Vec::new();
    let mut ands: Vec<Expr> = Vec::new();
    proof {
        assert(trees(assignments@) =~= Seq::empty());
        assert(trees(ands@) =~= Seq::empty());
    }
    let q = match parse_let_expr(s, p) {
        Ok((q, e)) => {
            proof {
                lemma_trees_push(assignments@, e);
                assert(trees(assignments@).push(e.tree()) =~= seq![e.tree()]);
            }
            assignments.push(e);
            q
        },
        Err(ParseErr::Error(_)) => {
            let (q, e) = parse_and_conjunction(s, p)?;
            proof {
                lemma_trees_push(ands@, e);
                assert(trees(ands@).push(e.tree()) =~= seq![e.tree()]);
            }
            ands.push(e);
            q
        },
        Err(e) => return Err(e),
    };
    let mut next = q;
    loop
        invariant
            s.wf(),
            t == s.chars@,
            p < next <= s.chars@.len(),
            location == loc_at(s.chars@, p as int),
            forall|i: int| 0 <= i < assignments@.len() ==> #[trigger] assignments@[i] is Let,
            syn_block_inner(t, p as int) == syn_block_clauses(
                t,
                next as int,
                trees(assignments@),
                trees(ands@),
                location,
            ),
        decreases s.chars@.len() - next,
    {
        match parse_let_expr(s, next) {
            Ok((q, e)) => {
                proof {
                    lemma_trees_push(assignments@, e);
                }
                assignments.push(e);
                next = q;
            },
            Err(ParseErr::Error(_)) => match parse_and_conjunction(s, next) {
                Ok((q, e)) => {
                    proof {
                        lemma_trees_push(ands@, e);
                    }
                    ands.push(e);
                    next = q;
                },
                Err(ParseErr::Error(pe)) => {
                    if ands.len() == 0 {
                        return Err(
                            ParseErr::Failure(
                                ParseError::new(
                                    pe.location,
                                    to_owned_string("There are no conjunctions specified"),
                                ),
                            ),
                        );
                    }
                    let ghost joined = trees(ands@);
                    let ghost lets = trees(assignments@);
                    proof {
                        lemma_fold_trees(ands@, BinaryOperator::And, fold_ops(ands@, BinaryOperator::And));
                    }
                    let clause = reduce_ands_ors(ands, BinaryOperator::And);
                    let block = BlockExpr::new(assignments, clause, location);
                    proof {
                        assert(block.tree() == Tree::Clauses(
                            lets,
                            Box::new(fold_trees(joined, BinaryOperator::And)),
                            location,
                        ));
                    }
                    return Ok((next, block));
                },
                Err(e) => return Err(e),
            },
            Err(e) => return Err(e),
        }
    }
}

/// A parameter of a rule clause: a query or value, with an optional `or`
/// alternative.
pub fn parse_rule_parameter(s: &Span, p: usize) -> (r: PResult<Expr>)
    requires
        s.wf(),
        p <= s.chars@.len(),
    ensures
        has_outcome(r, s.chars@, syn_rule_parameter(s.chars@, p as int).0),
        r matches Ok((_, e)) ==> e.tree() == syn_rule_parameter(s.chars@, p as int).1,
        advances(r, s.chars@, p as int),
    decreases s.chars@.len() - p, 11nat,
{
    let location = s.location_at(p);
    let a = zero_or_more_ws_or_comment(s, p);
    let (q, expr) = query_or_value(s, a)?;
    match or_operator(s, q) {
        Ok((q2, _)) => match query_or_value(s, q2) {
            Ok((q3, alternative)) => Ok(
                (
                    q3,
                    Expr::BinaryOperation(
                        Box::new(BinaryExpr::new(BinaryOperator::Or, expr, alternative, location)),
                    ),
                ),
            ),
            Err(ParseErr::Error(_)) => Ok((q, expr)),
            Err(e) => Err(e),
        },
        Err(_) => Ok((q, expr)),
    }
}

/// Spaces and tabs from `p` on.
fn space0_end(s: &Span, p: usize) -> (r: usize)
    requires
        s.wf(),
        p <= s.chars@.len(),
    ensures
        r == spaces_end(s.chars@, p as int),
        p <= r <= s.chars@.len(),
{
    let mut i = p;
    while i < s.chars.len() && (s.chars[i] == ' ' || s.chars[i] == '\t')
        invariant
            p <= i <= s.chars@.len(),
            spaces_end(s.chars@, p as int) == spaces_end(s.chars@, i as int),
        decreases s.chars@.len() - i,
    {
        i = i + 1;
    }
    i
}

/// What may follow a rule clause written without a message: `or`, `and`,
/// a comment, the end of the line, `)` or `{`. Nothing is read.
fn clause_follows(s: &Span, q: usize) -> (r: PResult<()>)
    requires
        s.wf(),
        q <= s.chars@.len(),
    ensures
        has_outcome(r, s.chars@, follows_clause(s.chars@, q as int)),
        r matches Ok((q2, _)) ==> q2 == q,
        r is Err ==> r matches Err(ParseErr::Error(_)),
{
    if or_operator(s, q).is_ok() || and_operator(s, q).is_ok() {
        return Ok((q, ()));
    }
    if char_at_is(s, q, '#') && find_char_exec(s, q + 1, '\n') < s.chars.len() {
        return Ok((q, ()));
    }
    let sp = space0_end(s, q);
    if char_at_is(s, sp, '\n') {
        return Ok((q, ()));
    }
    if parse_end_parenthesis(s, q).is_ok() {
        return Ok((q, ()));
    }
    match parse_start_bracket(s, q) {
        Ok(_) => Ok((q, ())),
        Err(e) => Err(e),
    }
}

/// `NAME PARAMETERS? MESSAGE?`: a clause that applies a named rule.
pub fn parse_rule_clause_expr(s: &Span, p: usize) -> (r: PResult<Expr>)
    requires
        s.wf(),
        p <= s.chars@.len(),
    ensures
        has_outcome(r, s.chars@, syn_rule_clause(s.chars@, p as int).0),
        r matches Ok((_, e)) ==> e.tree() == syn_rule_clause(s.chars@, p as int).1,
        advances(r, s.chars@, p as int),
        r matches Ok((_, e)) ==> e matches Expr::RuleClause(c) && c.location == loc_at(
            s.chars@,
            p as int,
        ),
    decreases s.chars@.len() - p, 13nat,
{
    let location = s.location_at(p);
    let a = zero_or_more_ws_or_comment(s, p);
    let (q, name) = parse_name(s, a)?;
    let b = zero_or_more_ws_or_comment(s, q);
    let (q2, parameters) = match parse_parameters(&ParameterKind::RuleParameter, s, b) {
        Ok((q2, ps)) => (q2, Some(ps)),
        Err(ParseErr::Error(_)) => (q, None),
        Err(e) => return Err(e),
    };
    let c = zero_or_more_ws_or_comment(s, q2);
    let (q3, message) = match message_doc(s, c) {
        Ok((q3, m)) => (q3, Some(m)),
        Err(ParseErr::Error(_)) => (q2, None),
        Err(e) => return Err(e),
    };
    if message.is_none() && q3 < s.chars.len() {
        let _ = clause_follows(s, q3)?;
    }
    Ok((q3, Expr::RuleClause(Box::new(RuleClauseExpr::new(name, parameters, location, message)))))
}

/// `( conjunctions )`.
pub fn group_operations(s: &Span, p: usize) -> (r: PResult<Expr>)
    requires
        s.wf(),
        p <= s.chars@.len(),
    ensures
        has_outcome(r, s.chars@, syn_group(s.chars@, p as int).0),
        r matches Ok((_, e)) ==> e.tree() == syn_group(s.chars@, p as int).1,
        advances(r, s.chars@, p as int),
    decreases s.chars@.len() - p, 13nat,
{
    let (q1, _) = strip_char(s, p, '(')?;
    let (q2, expr) = parse_and_conjunction(s, q1)?;
    let (q3, _) = cut(strip_char(s, q2, ')'))?;
    Ok((q3, expr))
}

/// An optional `any`/`anyone` prefix, then a clause of the given kind.
#[verifier::spinoff_prover]
#[verifier::rlimit(30)]
pub fn parse_unary_binary_or_block_expr2(kind: &ClauseKind, s: &Span, p: usize) -> (r: PResult<
    Expr,
>)
    requires
        s.wf(),
        p <= s.chars@.len(),
    ensures
        has_outcome(r, s.chars@, syn_clause2(*kind, s.chars@, p as int).0),
        r matches Ok((_, e)) ==> e.tree() == syn_clause2(*kind, s.chars@, p as int).1,
        advances(r, s.chars@, p as int),
    decreases s.chars@.len() - p, 14nat,
{
    let location = s.location_at(p);
    let (q, any) = match anyone(s, p) {
        Ok((q, op)) => (q, Some(op)),
        Err(_) => (p, None),
    };
    let a = zero_or_more_ws_or_comment(s, q);
    let inner = match kind {
        ClauseKind::Rule => match parse_when_block_expr(s, a) {
            Err(ParseErr::Error(_)) => match parse_query_block_expr(s, a) {
                Err(ParseErr::Error(_)) => match parse_binary_bool_expr(s, a) {
                    Err(ParseErr::Error(_)) => parse_unary_bool_expr(s, a),
                    r => r,
                },
                r => r,
            },
            r => r,
        },
        ClauseKind::WhenCondition => match group_operations(s, a) {
            Err(ParseErr::Error(_)) => match parse_binary_bool_expr(s, a) {
                Err(ParseErr::Error(_)) => parse_unary_bool_expr(s, a),
                r => r,
            },
            r => r,
        },
    };
    let ghost t = s.chars@;
    let ghost inner_spec = match *kind {
        ClauseKind::Rule => match syn_when_block(t, a as int).0 {
            Outcome::Error(_) => match syn_query_block(t, a as int).0 {
                Outcome::Error(_) => match syn_binary_bool(t, a as int).0 {
                    Outcome::Error(_) => syn_unary(t, a as int),
                    _ => syn_binary_bool(t, a as int),
                },
                _ => syn_query_block(t, a as int),
            },
            _ => syn_when_block(t, a as int),
        },
        ClauseKind::WhenCondition => match syn_group(t, a as int).0 {
            Outcome::Error(_) => match syn_binary_bool(t, a as int).0 {
                Outcome::Error(_) => syn_unary(t, a as int),
                _ => syn_binary_bool(t, a as int),
            },
            _ => syn_group(t, a as int),
        },
    };
    proof {
        assert(has_outcome(inner, t, inner_spec.0));
        assert(inner matches Ok((_, e)) ==> e.tree() == inner_spec.1);
    }
    let (q2, expr) = match inner {
        Ok((q1, e)) => (zero_or_more_ws_or_comment(s, q1), e),
        Err(ParseErr::Error(_)) => parse_rule_clause_expr(s, q)?,
        Err(e) => return Err(e),
    };
    let ghost expr_tree = expr.tree();
    let expr = match any {
        Some(op) => {
            let u = UnaryExpr::new(op, expr, location);
            proof {
                assert(Expr::UnaryOperation(Box::new(u)).tree() == Tree::UnaryOperation(
                    op,
                    Box::new(expr_tree),
                    None,
                    location,
                ));
            }
            Expr::UnaryOperation(Box::new(u))
        },
        None => expr,
    };
    Ok((q2, expr))
}

/// A clause of a rule block: a `when` block, a query block, a comparison, a
/// unary check or a rule clause, optionally prefixed by `any`.
pub fn parse_unary_binary_or_block_expr(s: &Span, p: usize) -> (r: PResult<Expr>)
    requires
        s.wf(),
        p <= s.chars@.len(),
    ensures
        has_outcome(r, s.chars@, syn_clause(s.chars@, p as int).0),
        r matches Ok((_, e)) ==> e.tree() == syn_clause(s.chars@, p as int).1,
        advances(r, s.chars@, p as int),
    decreases s.chars@.len() - p, 15nat,
{
    parse_unary_binary_or_block_expr2(&ClauseKind::Rule, s, p)
}

/// A clause of a `when` condition.
pub fn parse_when_cond_expr(s: &Span, p: usize) -> (r: PResult<Expr>)
    requires
        s.wf(),
        p <= s.chars@.len(),
    ensures
        has_outcome(r, s.chars@, syn_when_clause(s.chars@, p as int).0),
        r matches Ok((_, e)) ==> e.tree() == syn_when_clause(s.chars@, p as int).1,
        advances(r, s.chars@, p as int),
    decreases s.chars@.len() - p, 15nat,
{
    parse_unary_binary_or_block_expr2(&ClauseKind::WhenCondition, s, p)
}

/// One alternative of a disjunction: a group or a rule clause, or a
/// `when` clause.
fn disjunct(kind: &ClauseKind, s: &Span, p: usize) -> (r: PResult<Expr>)
    requires
        s.wf(),
        p <= s.chars@.len(),
    ensures
        has_outcome(r, s.chars@, syn_disjunct(*kind, s.chars@, p as int).0),
        r matches Ok((_, e)) ==> e.tree() == syn_disjunct(*kind, s.chars@, p as int).1,
        advances(r, s.chars@, p as int),
    decreases s.chars@.len() - p, 16nat,
{
    match kind {
        ClauseKind::Rule => match group_operations(s, p) {
            Err(ParseErr::Error(_)) => parse_unary_binary_or_block_expr(s, p),
            r => r,
        },
        ClauseKind::WhenCondition => parse_when_cond_expr(s, p),
    }
}

/// Clauses joined by `or`; once `or` is read, another clause is required.
pub fn parse_disjunction_expr2(kind: &ClauseKind, s: &Span, p: usize) -> (r: PResult<Expr>)
    requires
        s.wf(),
        p <= s.chars@.len(),
    ensures
        has_outcome(r, s.chars@, syn_disjunction2(*kind, s.chars@, p as int).0),
        r matches Ok((_, e)) ==> e.tree() == syn_disjunction2(*kind, s.chars@, p as int).1,
        advances(r, s.chars@, p as int),
    decreases s.chars@.len() - p, 17nat,
{
    let ghost t = s.chars@;
    let (q, expr) = disjunct(kind, s, p)?;
    let mut ors: Vec<Expr> = Vec::new();
    proof {
        lemma_trees_push(ors@, expr);
        assert(trees(ors@).push(expr.tree()) =~= seq![expr.tree()]);
    }
    ors.push(expr);
    let mut next = q;
    loop
        invariant
            s.wf(),
            t == s.chars@,
            p < next <= s.chars@.len(),
            ors@.len() > 0,
            syn_disjunction2(*kind, t, p as int) == syn_disjunction_rest(*kind, t, next as int, trees(ors@)),
        decreases s.chars@.len() - next,
    {
        match or_operator(s, next) {
            Err(ParseErr::Error(_)) => {
                proof {
                    lemma_fold_trees(ors@, BinaryOperator::Or, fold_ops(ors@, BinaryOperator::Or));
                }
                return Ok((next, reduce_ands_ors(ors, BinaryOperator::Or)));
            },
            Ok((span, _)) => {
                let (span2, e) = cut(disjunct(kind, s, span))?;
                proof {
                    lemma_trees_push(ors@, e);
                }
                ors.push(e);
                next = span2;
            },
            Err(e) => return Err(e),
        }
    }
}

pub fn parse_disjunction_expr(s: &Span, p: usize) -> (r: PResult<Expr>)
    requires
        s.wf(),
        p <= s.chars@.len(),
    ensures
        has_outcome(r, s.chars@, syn_disjunction(s.chars@, p as int).0),
        r matches Ok((_, e)) ==> e.tree() == syn_disjunction(s.chars@, p as int).1,
        advances(r, s.chars@, p as int),
    decreases s.chars@.len() - p, 18nat,
{
    parse_disjunction_expr2(&ClauseKind::Rule, s, p)
}

/// One conjunct: a disjunction of the given kind.
fn conjunct(kind: &ClauseKind, s: &Span, p: usize) -> (r: PResult<Expr>)
    requires
        s.wf(),
        p <= s.chars@.len(),
    ensures
        has_outcome(r, s.chars@, syn_conjunct(*kind, s.chars@, p as int).0),
        r matches Ok((_, e)) ==> e.tree() == syn_conjunct(*kind, s.chars@, p as int).1,
        advances(r, s.chars@, p as int),
    decreases s.chars@.len() - p, 19nat,
{
    match kind {
        ClauseKind::Rule => parse_disjunction_expr(s, p),
        ClauseKind::WhenCondition => parse_disjunction_expr2(kind, s, p),
    }
}

/// An optional `not`, then disjunctions joined by `and` or by line ends.
pub fn parse_and_conjunction2(kind: &ClauseKind, s: &Span, p: usize) -> (r: PResult<Expr>)
    requires
        s.wf(),
        p <= s.chars@.len(),
    ensures
        has_outcome(r, s.chars@, syn_and_conjunction2(*kind, s.chars@, p as int).0),
        r matches Ok((_, e)) ==> e.tree() == syn_and_conjunction2(*kind, s.chars@, p as int).1,
        advances(r, s.chars@, p as int),
    decreases s.chars@.len() - p, 20nat,
{
    let ghost t = s.chars@;
    let location = s.location_at(p);
    let (q0, negation) = match not(s, p) {
        Ok((q, op)) => (q, Some(op)),
        Err(_) => (p, None),
    };
    let (q1, expr) = conjunct(kind, s, q0)?;
    let mut ands: Vec<Expr> = Vec::new();
    proof {
        lemma_trees_push(ands@, expr);
        assert(trees(ands@).push(expr.tree()) =~= seq![expr.tree()]);
    }
    ands.push(expr);
    let mut next = q1;
    loop
        invariant
            s.wf(),
            t == s.chars@,
            p < next <= s.chars@.len(),
            ands@.len() > 0,
            location == loc_at(t, p as int),
            syn_and_conjunction2(*kind, t, p as int) == syn_conjunction_rest(
                *kind,
                t,
                next as int,
                trees(ands@),
                negation,
                location,
            ),
        decreases s.chars@.len() - next,
    {
        let a = match and_operator(s, next) {
            Ok((q, _)) => q,
            Err(_) => next,
        };
        match conjunct(kind, s, a) {
            Err(ParseErr::Error(_)) => {
                proof {
                    lemma_fold_trees(ands@, BinaryOperator::And, fold_ops(ands@, BinaryOperator::And));
                }
                let ghost joined = fold_trees(trees(ands@), BinaryOperator::And);
                let and_expr = reduce_ands_ors(ands, BinaryOperator::And);
                let result = match negation {
                    Some(op) => {
                        let u = UnaryExpr::new(op, and_expr, location);
                        proof {
                            assert(Expr::UnaryOperation(Box::new(u)).tree() == Tree::UnaryOperation(
                                op,
                                Box::new(joined),
                                None,
                                location,
                            ));
                        }
                        Expr::UnaryOperation(Box::new(u))
                    },
                    None => and_expr,
                };
                return Ok((next, result));
            },
            Ok((span, e)) => {
                proof {
                    lemma_trees_push(ands@, e);
                }
                ands.push(e);
                next = span;
            },
            Err(e) => return Err(e),
        }
    }
}

pub fn parse_and_conjunction(s: &Span, p: usize) -> (r: PResult<Expr>)
    requires
        s.wf(),
        p <= s.chars@.len(),
    ensures
        has_outcome(r, s.chars@, syn_and_conjunction(s.chars@, p as int).0),
        r matches Ok((_, e)) ==> e.tree() == syn_and_conjunction(s.chars@, p as int).1,
        advances(r, s.chars@, p as int),
    decreases s.chars@.len() - p, 21nat,
{
    parse_and_conjunction2(&ClauseKind::Rule, s, p)
}

// ---------------------------------------------------------------------
// Blocks and `when`
// ---------------------------------------------------------------------

/// `QUERY '{' clauses '}' MESSAGE?`: clauses that apply to each value a
/// query selects.
#[verifier::spinoff_prover]
pub fn parse_query_block_expr(s: &Span, p: usize) -> (r: PResult<Expr>)
    requires
        s.wf(),
        p <= s.chars@.len(),
    ensures
        has_outcome(r, s.chars@, syn_query_block(s.chars@, p as int).0),
        r matches Ok((_, e)) ==> e.tree() == syn_query_block(s.chars@, p as int).1,
        advances(r, s.chars@, p as int),
        r matches Ok((_, e)) ==> e matches Expr::Block(b) && b.location == loc_at(
            s.chars@,
            p as int,
        ),
    decreases s.chars@.len() - p, 13nat,
{
    let ghost t = s.chars@;
    let location = s.location_at(p);
    let (q1, query) = parse_select(s, p)?;
    let ghost query_tree = query.tree();
    let query = match query {
        Expr::Select(q) => *q,
        _ => {
            proof {
                assert(false);
            }
            return Err(error_at(s, p, "Select"));
        },
    };
    proof {
        assert(query.tree() == query_tree);
    }
    let (q2, block) = parse_block(s, q1)?;
    let ghost block_tree = block.tree();
    let (q3, message) = opt_message(s, q2)?;
    let ghost m = text_of(message);
    let b = BlockClauseExpr::new_with_msg(query, block, location, message);
    proof {
        assert(Expr::Block(Box::new(b)).tree() == Tree::Block(
            Box::new(query_tree),
            Box::new(block_tree),
            m,
            location,
        ));
    }
    Ok((q3, Expr::Block(Box::new(b))))
}

/// `'{' clauses '}'`; once `{` is read, the clauses and `}` are required.
pub fn parse_block(s: &Span, p: usize) -> (r: PResult<BlockExpr>)
    requires
        s.wf(),
        p <= s.chars@.len(),
    ensures
        has_outcome(r, s.chars@, syn_block(s.chars@, p as int).0),
        r matches Ok((_, b)) ==> b.tree() == syn_block(s.chars@, p as int).1,
        advances(r, s.chars@, p as int),
    decreases s.chars@.len() - p, 2nat,
{
    let (q1, _) = parse_start_bracket(s, p)?;
    let (q2, block) = cut(parse_block_inner_expr(s, q1))?;
    let (q3, _) = cut(parse_end_bracket(s, q2))?;
    Ok((q3, block))
}

/// `'[' clauses ']'` as a `when` condition.
pub fn parse_when_cond_block_syntax(s: &Span, p: usize) -> (r: PResult<Expr>)
    requires
        s.wf(),
        p <= s.chars@.len(),
    ensures
        has_outcome(r, s.chars@, syn_when_cond_block(s.chars@, p as int).0),
        r matches Ok((_, e)) ==> e.tree() == syn_when_cond_block(s.chars@, p as int).1,
        advances(r, s.chars@, p as int),
        r matches Ok((_, e)) ==> e is Filter,
    decreases s.chars@.len() - p, 2nat,
{
    let (q1, _) = parse_start_braces(s, p)?;
    let (q2, block) = cut(parse_block_inner_expr(s, q1))?;
    let (q3, _) = cut(parse_end_braces(s, q2))?;
    Ok((q3, Expr::Filter(Box::new(block))))
}

/// Conjunctions of `when` clauses, with white space and comments around them.
pub fn parse_when_cond_syntax(s: &Span, p: usize) -> (r: PResult<Expr>)
    requires
        s.wf(),
        p <= s.chars@.len(),
    ensures
        has_outcome(r, s.chars@, syn_when_cond(s.chars@, p as int).0),
        r matches Ok((_, e)) ==> e.tree() == syn_when_cond(s.chars@, p as int).1,
        advances(r, s.chars@, p as int),
    decreases s.chars@.len() - p, 22nat,
{
    let a = zero_or_more_ws_or_comment(s, p);
    let (q, e) = parse_and_conjunction2(&ClauseKind::WhenCondition, s, a)?;
    Ok((zero_or_more_ws_or_comment(s, q), e))
}

/// `when CONDITION '{' clauses '}'`.
pub fn parse_when_block_expr(s: &Span, p: usize) -> (r: PResult<Expr>)
    requires
        s.wf(),
        p <= s.chars@.len(),
    ensures
        has_outcome(r, s.chars@, syn_when_block(s.chars@, p as int).0),
        r matches Ok((_, e)) ==> e.tree() == syn_when_block(s.chars@, p as int).1,
        advances(r, s.chars@, p as int),
        r matches Ok((_, e)) ==> e matches Expr::When(w) && w.location == loc_at(
            s.chars@,
            p as int,
        ),
    decreases s.chars@.len() - p, 13nat,
{
    let location = s.location_at(p);
    let (q1, _) = kw_trailing(s, p, &["when", "WHEN"])?;
    let (q2, expr) = match parse_when_cond_block_syntax(s, q1) {
        Err(ParseErr::Error(_)) => parse_when_cond_syntax(s, q1)?,
        r => r?,
    };
    let (q3, block) = parse_block(s, q2)?;
    Ok((q3, Expr::When(Box::new(WhenExpr::new(expr, block, location)))))
}

// ---------------------------------------------------------------------
// Rules and files
// ---------------------------------------------------------------------

/// One parameter: a rule parameter, or a name.
fn parameter(kind: &ParameterKind, s: &Span, p: usize) -> (r: PResult<Expr>)
    requires
        s.wf(),
        p <= s.chars@.len(),
    ensures
        has_outcome(r, s.chars@, syn_parameter(*kind, s.chars@, p as int).0),
        r matches Ok((_, e)) ==> e.tree() == syn_parameter(*kind, s.chars@, p as int).1,
        advances(r, s.chars@, p as int),
    decreases s.chars@.len() - p, 12nat,
{
    match kind {
        ParameterKind::RuleParameter => parse_rule_parameter(s, p),
        ParameterKind::Name => {
            let a = zero_or_more_ws_or_comment(s, p);
            var_name(s, a)
        },
    }
}

/// `'(' P (',' P)* ','? ')'`; once `(` is read, each parameter is required.
pub fn parse_parameters(kind: &ParameterKind, s: &Span, p: usize) -> (r: PResult<Vec<Expr>>)
    requires
        s.wf(),
        p <= s.chars@.len(),
    ensures
        has_outcome(r, s.chars@, syn_parameters(*kind, s.chars@, p as int).0),
        r matches Ok((_, v)) ==> trees(v@) == syn_parameters(*kind, s.chars@, p as int).1,
        advances(r, s.chars@, p as int),
        r matches Ok((_, names)) ==> names@.len() > 0,
    decreases s.chars@.len() - p, 2nat,
{
    let ghost t = s.chars@;
    let (q0, _) = parse_start_parenthesis(s, p)?;
    let mut names: Vec<Expr> = Vec::new();
    proof {
        assert(trees(names@) =~= Seq::empty());
    }
    let mut span = q0;
    loop
        invariant
            s.wf(),
            t == s.chars@,
            p < span <= s.chars@.len(),
            syn_parameters(*kind, t, p as int) == syn_parameter_list(*kind, t, span as int, trees(names@)),
        decreases s.chars@.len() - span,
    {
        let (left, name) = cut(parameter(kind, s, span))?;
        proof {
            lemma_trees_push(names@, name);
        }
        names.push(name);
        span = left;
        match parse_value_separator(s, span) {
            Ok((left, _)) => {
                if let Ok((left2, _)) = parse_end_parenthesis(s, left) {
                    return Ok((left2, names));
                }
                span = left;
            },
            Err(ParseErr::Error(_)) => {
                let (left, _) = cut(parse_end_parenthesis(s, span))?;
                return Ok((left, names));
            },
            Err(e) => return Err(e),
        }
    }
}

/// The parameter names of a rule.
pub fn parse_rule_parameter_names(s: &Span, p: usize) -> (r: PResult<Vec<Expr>>)
    requires
        s.wf(),
        p <= s.chars@.len(),
    ensures
        has_outcome(r, s.chars@, syn_parameters(ParameterKind::Name, s.chars@, p as int).0),
        r matches Ok((_, v)) ==> trees(v@) == syn_parameters(ParameterKind::Name, s.chars@, p as int).1,
        advances(r, s.chars@, p as int),
{
    parse_parameters(&ParameterKind::Name, s, p)
}

/// `rule NAME PARAMETERS? (when CONDITION)? '{' clauses '}'`.
#[verifier::spinoff_prover]
pub fn parse_rule_expr(s: &Span, p: usize) -> (r: PResult<Expr>)
    requires
        s.wf(),
        p <= s.chars@.len(),
    ensures
        has_outcome(r, s.chars@, syn_rule(s.chars@, p as int).0),
        r matches Ok((_, e)) ==> e.tree() == syn_rule(s.chars@, p as int).1,
        advances(r, s.chars@, p as int),
        r matches Ok((_, e)) ==> e matches Expr::Rule(rule) && rule.location == loc_at(
            s.chars@,
            p as int,
        ),
{
    let ghost t = s.chars@;
    let location = s.location_at(p);
    let keywords = ["rule"];
    proof {
        assert(keywords@ =~= seq!["rule"]);
    }
    let (q1, _) = kw_trailing(s, p, &keywords)?;
    let a = zero_or_more_ws_or_comment(s, q1);
    let (q2, name) = parse_name(s, a)?;
    let q3 = zero_or_more_ws_or_comment(s, q2);
    let (q4, parameters) = match parse_rule_parameter_names(s, q3) {
        Ok((q, ps)) => (q, Some(ps)),
        Err(ParseErr::Error(_)) => (q3, None),
        Err(e) => return Err(e),
    };
    let ghost params = opt_trees(parameters);
    let ghost name_text = name@;
    match parse_when_block_expr(s, q4) {
        Ok((q5, Expr::When(when))) => {
            let when = *when;
            let ghost cond = when.when.tree();
            let ghost body = when.block.tree();
            let rule = RuleExpr::new_with_when_parameters(
                name,
                Some(when.when),
                parameters,
                when.block,
                location,
            );
            proof {
                assert(rule.tree() == Tree::Rule(
                    name_text,
                    Some(Box::new(cond)),
                    params,
                    Box::new(body),
                    location,
                ));
            }
            Ok((q5, Expr::Rule(Box::new(rule))))
        },
        Ok(_) => {
            proof {
                assert(false);
            }
            Err(error_at(s, q4, "When"))
        },
        Err(ParseErr::Error(_)) => {
            let (q5, block) = cut(parse_block(s, q4))?;
            let ghost body = block.tree();
            let rule = RuleExpr::new_with_when_parameters(name, None, parameters, block, location);
            proof {
                assert(rule.tree() == Tree::Rule(name_text, None, params, Box::new(body), location));
            }
            Ok((q5, Expr::Rule(Box::new(rule))))
        },
        Err(e) => Err(e),
    }
}

/// A rules file: `let` assignments and rules, in any order, up to the end
/// of the text. Text that is neither is a failure where it starts.
#[verifier::spinoff_prover]
pub fn parse_rules_file(s: &Span, p: usize, name: &str) -> (r: PResult<Expr>)
    requires
        s.wf(),
        p <= s.chars@.len(),
    ensures
        has_outcome(r, s.chars@, syn_rules_file(s.chars@, p as int, name@).0),
        r matches Ok((_, e)) ==> e.tree() == syn_rules_file(s.chars@, p as int, name@).1,
        r matches Ok((q, e)) ==> q == s.chars@.len() && (e matches Expr::File(f) && f.name@
            == name@),
{
    let ghost t = s.chars@;
    let mut assignments: Vec<LetExpr> = Vec::new();
    let mut rules: Vec<RuleExpr> = Vec::new();
    let mut span = p;
    proof {
        assert(let_trees(assignments@) =~= Seq::empty());
        assert(rule_trees(rules@) =~= Seq::empty());
    }
    loop
        invariant
            s.wf(),
            t == s.chars@,
            p <= span <= s.chars@.len(),
            syn_rules_file(t, p as int, name@) == syn_file_items(
                t,
                span as int,
                let_trees(assignments@),
                rule_trees(rules@),
                name@,
            ),
        decreases s.chars@.len() - span,
    {
        let a = zero_or_more_ws_or_comment(s, span);
        let parsed = match parse_let_expr(s, a) {
            Err(ParseErr::Error(_)) => parse_rule_expr(s, a),
            r => r,
        };
        match parsed {
            Ok((left, Expr::Let(let_expr))) => {
                proof {
                    lemma_let_trees_push(assignments@, *let_expr);
                }
                assignments.push(*let_expr);
                span = zero_or_more_ws_or_comment(s, left);
            },
            Ok((left, Expr::Rule(rule))) => {
                proof {
                    lemma_rule_trees_push(rules@, *rule);
                }
                rules.push(*rule);
                span = zero_or_more_ws_or_comment(s, left);
            },
            Ok((left, _)) => {
                span = zero_or_more_ws_or_comment(s, left);
            },
            Err(ParseErr::Error(_)) => {
                if span < s.chars.len() {
                    return Err(
                        ParseErr::Failure(
                            ParseError::new(
                                s.location_at(span),
                                to_owned_string("EOF not detected"),
                            ),
                        ),
                    );
                }
                return Ok(
                    (
                        span,
                        Expr::File(
                            Box::new(FileExpr::new(to_owned_string(name), assignments, rules)),
                        ),
                    ),
                );
            },
            Err(e) => return Err(e),
        }
    }
}

} // verus!
