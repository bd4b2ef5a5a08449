//! Evaluating the comparisons of rules against data values: errors,
//! what a reporter is told, and the binary and unary operators.
use vstd::prelude::*;
use crate::types::{LangError, io_error_text};
use crate::exprs::{Expr, BinaryOperator, UnaryOperator};
use crate::value::Value;
use crate::compare::{value_eq_expr, value_equals_expr, value_eq, value_equals};
use crate::value_order::{value_rel_expr, value_rel_with_expr, Relation, value_rel, value_rel_with, literal_rel, literal_rel_with};
use crate::equality::{expr_eq, expr_equal};
use crate::text::{contains_text, text_contains, push_str};

verus! {

#[verifier::external_type_specification]
#[verifier::external_body]
pub struct ExScanError(yaml_rust::ScanError);

/// What can go wrong while evaluating.
#[derive(Debug)]
pub enum EvaluationError<'expr> {
    /// A rules file that does not parse.
    GuardFileParseError(LangError),
    /// A data file that does not parse.
    DataParseError(yaml_rust::ScanError),
    /// An expression that cannot be handled where it stands.
    UnexpectedExpr(String, &'expr Expr),
    /// A computation that cannot be done.
    ComputationError(String),
    /// A reporter that failed to write.
    IoError(std::io::Error),
    /// A query step that does not apply, with the values reached so far.
    QueryEvaluationError(String, Vec<ValueType<'expr>>),
}

/// The message of a YAML scan error as `yaml_rust::ScanError`'s `Display`
/// shows it (its reason, line and column); the type's fields are not seen
/// here, so nothing is promised of the text.
#[verifier::external_body]
fn scan_error_text(e: &yaml_rust::ScanError) -> (r: String) {
    format!("{}", e)
}

/// An expression as its derived `Debug` shows it; nothing is promised of
/// the text.
#[verifier::external_body]
fn expr_debug_text(e: &Expr) -> (r: String) {
    format!("{:?}", e)
}

/// Values met as their derived `Debug` shows them; nothing is promised of
/// the text.
#[verifier::external_body]
fn values_debug_text(v: &Vec<ValueType<'_>>) -> (r: String) {
    format!("{:?}", v)
}

impl<'expr> EvaluationError<'expr> {
    /// The error as it is shown to users: a parse error of the rules as
    /// `LangError` shows it, `Error <message>` for a computation, and
    /// `Error <message> Location <location>, Expr ...` or
    /// `QueryEval error <message> , ...` followed by the expression or the
    /// values as `Debug` shows them.
    pub fn to_display_string(&self) -> (r: String)
        ensures
            self matches EvaluationError::GuardFileParseError(LangError::ParseError(p)) ==> r@
                == p.display_text(),
            self matches EvaluationError::ComputationError(m) ==> r@ == "Error "@ + m@,
            self matches EvaluationError::UnexpectedExpr(m, e) ==> ("Error "@ + m@ + " Location "@
                + e.location_of().display_text() + ", Expr "@).is_prefix_of(r@),
            self matches EvaluationError::QueryEvaluationError(m, _) ==> ("QueryEval error "@ + m@
                + " , "@).is_prefix_of(r@),
    {
        match self {
            EvaluationError::GuardFileParseError(p) => p.to_display_string(),
            EvaluationError::DataParseError(p) => scan_error_text(p),
            EvaluationError::IoError(p) => io_error_text(p),
            EvaluationError::UnexpectedExpr(msg, expr) => {
                let mut out = String::new();
                push_str(&mut out, "Error ");
                push_str(&mut out, msg.as_str());
                push_str(&mut out, " Location ");
                let loc = expr.get_location().to_display_string();
                push_str(&mut out, loc.as_str());
                push_str(&mut out, ", Expr ");
                let ghost prefix = out@;
                let shown = expr_debug_text(expr);
                push_str(&mut out, shown.as_str());
                proof {
                    reveal_strlit("Error ");
                    reveal_strlit(" Location ");
                    reveal_strlit(", Expr ");
                    assert(out@.subrange(0, prefix.len() as int) =~= prefix);
                    assert(prefix =~= "Error "@ + msg@ + " Location "@ + expr.location_of().display_text()
                        + ", Expr "@);
                }
                out
            },
            EvaluationError::ComputationError(msg) => {
                let mut out = String::new();
                push_str(&mut out, "Error ");
                push_str(&mut out, msg.as_str());
                proof {
                    reveal_strlit("Error ");
                    assert(out@ =~= "Error "@ + msg@);
                }
                out
            },
            EvaluationError::QueryEvaluationError(msg, stack) => {
                let mut out = String::new();
                push_str(&mut out, "QueryEval error ");
                push_str(&mut out, msg.as_str());
                push_str(&mut out, " , ");
                let ghost prefix = out@;
                let shown = values_debug_text(stack);
                push_str(&mut out, shown.as_str());
                proof {
                    reveal_strlit("QueryEval error ");
                    reveal_strlit(" , ");
                    assert(out@.subrange(0, prefix.len() as int) =~= prefix);
                    assert(prefix =~= "QueryEval error "@ + msg@ + " , "@);
                }
                out
            },
        }
    }
}

/// A value met during evaluation: one of the data, or a literal of the rules.
#[derive(Debug, Clone, Copy)]
pub enum ValueType<'value> {
    DataValue(&'value Value),
    LiteralValue(&'value Expr),
}

#[derive(Debug, Clone, Copy)]
pub struct BinaryComparison<'v> {
    pub operator: BinaryOperator,
    pub lhs: ValueType<'v>,
    pub rhs: ValueType<'v>,
}

#[derive(Debug, Clone, Copy)]
pub struct UnaryComparison<'v> {
    pub operator: UnaryOperator,
    pub argument: ValueType<'v>,
}

#[derive(Debug, Clone, Copy)]
pub enum Comparison<'v> {
    Binary(BinaryComparison<'v>),
    Unary(UnaryComparison<'v>),
}

/// Told what evaluation finds: values missing where a query expected them,
/// values of the wrong kind to go on with, and the outcome of each check.
pub trait EvalReporter<'value>: Sized {
    /// Whether reporting a missing value can take the reporter from `self`
    /// to `after` with the answer `r`. A reporter that does not say promises
    /// nothing.
    open spec fn reports_missing(
        self,
        after: Self,
        until: ValueType<'value>,
        data_file_name: Seq<char>,
        expr: Expr,
        r: Result<(), std::io::Error>,
    ) -> bool {
        true
    }

    /// Whether reporting a value of the wrong kind can take the reporter
    /// from `self` to `after` with the answer `r`. A reporter that does not
    /// say promises nothing.
    open spec fn reports_mismatch(
        self,
        after: Self,
        until: ValueType<'value>,
        data_file_name: Seq<char>,
        expr: Expr,
        r: Result<(), std::io::Error>,
    ) -> bool {
        true
    }

    /// Whether reporting the outcome of a check can take the reporter from
    /// `self` to `after` with the answer `r`. A reporter that does not say
    /// promises nothing.
    open spec fn reports_evaluation(
        self,
        after: Self,
        status: crate::value::Status,
        comparison: Comparison<'value>,
        data_file: Seq<char>,
        expr: Expr,
        r: Result<(), std::io::Error>,
    ) -> bool {
        true
    }

    fn report_missing_value(
        &mut self,
        until: ValueType<'value>,
        data_file_name: &'value str,
        expr: &'value Expr,
    ) -> (r: Result<(), std::io::Error>)
        ensures
            old(self).reports_missing(*final(self), until, data_file_name@, *expr, r),
    ;

    fn report_mismatch_value_traversal(
        &mut self,
        until: ValueType<'value>,
        data_file_name: &'value str,
        expr: &'value Expr,
    ) -> (r: Result<(), std::io::Error>)
        ensures
            old(self).reports_mismatch(*final(self), until, data_file_name@, *expr, r),
    ;

    fn report_evaluation(
        &mut self,
        status: crate::value::Status,
        comparison: Comparison<'value>,
        data_file: &'value str,
        expr: &'value Expr,
    ) -> (r: Result<(), std::io::Error>)
        ensures
            old(self).reports_evaluation(*final(self), status, comparison, data_file@, *expr, r),
    ;
}

/// One literal, or the values a query selected.
#[derive(Debug)]
pub enum SingleOrQuery<'v> {
    Single(ValueType<'v>),
    Query(Vec<ValueType<'v>>),
}

/// What a value met during evaluation stands for, without the reference:
/// a data value or a literal of the rules.
pub enum Item {
    Data(Value),
    Literal(Expr),
}

pub open spec fn item_of(v: ValueType) -> Item {
    match v {
        ValueType::DataValue(d) => Item::Data(*d),
        ValueType::LiteralValue(e) => Item::Literal(*e),
    }
}

pub open spec fn items_of(s: Seq<ValueType>) -> Seq<Item> {
    s.map_values(|v: ValueType| item_of(v))
}

/// One side of a comparison by what it stands for.
pub enum ItemSide {
    Single(Item),
    Query(Seq<Item>),
}

pub open spec fn side_of(s: SingleOrQuery) -> ItemSide {
    match s {
        SingleOrQuery::Single(v) => ItemSide::Single(item_of(v)),
        SingleOrQuery::Query(vs) => ItemSide::Query(items_of(vs@)),
    }
}

// ---------------------------------------------------------------------
// Membership
// ---------------------------------------------------------------------

/// Each literal of `ls` equals some literal of `rs`.
pub open spec fn exprs_all_in(ls: Seq<Expr>, rs: Seq<Expr>) -> bool {
    exprs_prefix_in(ls, rs, ls.len() as int)
}

/// Each of the first `n` literals of `ls` equals some literal of `rs`.
pub open spec fn exprs_prefix_in(ls: Seq<Expr>, rs: Seq<Expr>, n: int) -> bool {
    forall|i: int| 0 <= i < n ==> #[trigger] expr_in_seq(ls[i], rs)
}

pub open spec fn expr_in_seq(e: Expr, rs: Seq<Expr>) -> bool {
    exists|j: int| 0 <= j < rs.len() && expr_eq(e, #[trigger] rs[j])
}

/// Each value of `ls` equals some literal of `rs`.
pub open spec fn values_all_in_exprs(ls: Seq<Value>, rs: Seq<Expr>) -> bool {
    values_prefix_in_exprs(ls, rs, ls.len() as int)
}

pub open spec fn values_prefix_in_exprs(ls: Seq<Value>, rs: Seq<Expr>, n: int) -> bool {
    forall|i: int| 0 <= i < n ==> #[trigger] value_in_exprs(ls[i], rs)
}

pub open spec fn value_in_exprs(v: Value, rs: Seq<Expr>) -> bool {
    exists|j: int| 0 <= j < rs.len() && value_eq_expr(v, #[trigger] rs[j])
}

/// Each literal of `ls` is equalled by some value of `rs`.
pub open spec fn exprs_all_in_values(ls: Seq<Expr>, rs: Seq<Value>) -> bool {
    exprs_prefix_in_values(ls, rs, ls.len() as int)
}

pub open spec fn exprs_prefix_in_values(ls: Seq<Expr>, rs: Seq<Value>, n: int) -> bool {
    forall|i: int| 0 <= i < n ==> #[trigger] expr_in_values(ls[i], rs)
}

pub open spec fn expr_in_values(e: Expr, rs: Seq<Value>) -> bool {
    exists|j: int| 0 <= j < rs.len() && value_eq_expr(#[trigger] rs[j], e)
}

/// Each value of `ls` equals some value of `rs`.
pub open spec fn values_all_in(ls: Seq<Value>, rs: Seq<Value>) -> bool {
    values_prefix_in(ls, rs, ls.len() as int)
}

pub open spec fn values_prefix_in(ls: Seq<Value>, rs: Seq<Value>, n: int) -> bool {
    forall|i: int| 0 <= i < n ==> #[trigger] value_in_values(ls[i], rs)
}

pub open spec fn value_in_values(v: Value, rs: Seq<Value>) -> bool {
    exists|j: int| 0 <= j < rs.len() && value_eq(v, #[trigger] rs[j])
}

/// `lhs in rhs` for two literals: a string in a string is a substring, a
/// list in a list has the same length and each element in the other.
pub open spec fn in_expr(lhs: Expr, rhs: Expr) -> bool {
    match (lhs, rhs) {
        (Expr::String(l), Expr::String(r)) => contains_text(r.value@, l.value@),
        (Expr::Array(l), Expr::Array(r)) => l.elements@.len() == r.elements@.len() && exprs_all_in(
            l.elements@,
            r.elements@,
        ),
        _ => false,
    }
}

/// Whether some literal of `es` equals `e`.
fn contains_expr(es: &Vec<Expr>, e: &Expr) -> (r: bool)
    ensures
        r == expr_in_seq(*e, es@),
{
    let mut j: usize = 0;
    while j < es.len()
        invariant
            j <= es@.len(),
            forall|q: int| 0 <= q < j ==> !expr_eq(*e, #[trigger] es@[q]),
        decreases es@.len() - j,
    {
        if expr_equal(e, &es[j]) {
            return true;
        }
        j = j + 1;
    }
    false
}

pub fn match_in_expr(lhs_literal: &Expr, rhs_literal: &Expr) -> (r: bool)
    ensures
        r == in_expr(*lhs_literal, *rhs_literal),
{
    match (lhs_literal, rhs_literal) {
        (Expr::String(lhs), Expr::String(rhs)) => text_contains(rhs.value.as_str(), lhs.value.as_str()),
        (Expr::Array(lhs), Expr::Array(rhs)) => {
            if lhs.elements.len() != rhs.elements.len() {
                return false;
            }
            let mut i: usize = 0;
            while i < lhs.elements.len()
                invariant
                    i <= lhs.elements@.len(),
                    in_expr(*lhs_literal, *rhs_literal) <==> (lhs.elements@.len() == rhs.elements@.len()
                        && exprs_all_in(lhs.elements@, rhs.elements@)),
                    lhs.elements@.len() == rhs.elements@.len(),
                    exprs_prefix_in(lhs.elements@, rhs.elements@, i as int),
                decreases lhs.elements@.len() - i,
            {
                let found = contains_expr(&rhs.elements, &lhs.elements[i]);
                proof {
                    assert(found == expr_in_seq(lhs.elements@[i as int], rhs.elements@));
                }
                if !found {
                    return false;
                }
                i = i + 1;
            }
            true
        },
        _ => false,
    }
}

/// `value in literal`: a string in a string is a substring, a list in a
/// list literal has the same length and each element equal to some element
/// of the literal.
pub open spec fn in_value(lhs: Value, rhs: Expr) -> bool {
    match (lhs, rhs) {
        (Value::String(l, _), Expr::String(r)) => contains_text(r.value@, l@),
        (Value::List(l, _), Expr::Array(r)) => l@.len() == r.elements@.len() && values_all_in_exprs(
            l@,
            r.elements@,
        ),
        _ => false,
    }
}

/// Whether some element of `es` equals the value.
fn any_element_equals(v: &Value, es: &Vec<Expr>) -> (r: bool)
    ensures
        r == value_in_exprs(*v, es@),
{
    let mut j: usize = 0;
    while j < es.len()
        invariant
            j <= es@.len(),
            forall|q: int| 0 <= q < j ==> !value_eq_expr(*v, #[trigger] es@[q]),
        decreases es@.len() - j,
    {
        if value_equals_expr(v, &es[j]) {
            return true;
        }
        j = j + 1;
    }
    false
}

pub fn match_in_value(lhs_literal: &Value, rhs_literal: &Expr) -> (r: bool)
    ensures
        r == in_value(*lhs_literal, *rhs_literal),
{
    match (lhs_literal, rhs_literal) {
        (Value::String(lhs, _), Expr::String(rhs)) => text_contains(rhs.value.as_str(), lhs.as_str()),
        (Value::List(lhs, _), Expr::Array(rhs)) => {
            if lhs.len() != rhs.elements.len() {
                return false;
            }
            let mut i: usize = 0;
            while i < lhs.len()
                invariant
                    i <= lhs@.len(),
                    in_value(*lhs_literal, *rhs_literal) <==> (lhs@.len() == rhs.elements@.len()
                        && values_all_in_exprs(lhs@, rhs.elements@)),
                    lhs@.len() == rhs.elements@.len(),
                    values_prefix_in_exprs(lhs@, rhs.elements@, i as int),
                decreases lhs@.len() - i,
            {
                if !any_element_equals(&lhs[i], &rhs.elements) {
                    return false;
                }
                i = i + 1;
            }
            true
        },
        _ => false,
    }
}

/// `literal in value`: a string in a data string is a substring, a list
/// literal in a data list has each element equal to some data element.
pub open spec fn in_literal_with_value(lhs: Expr, rhs: Value) -> bool {
    match (lhs, rhs) {
        (Expr::String(l), Value::String(r, _)) => contains_text(r@, l.value@),
        (Expr::Array(l), Value::List(r, _)) => exprs_all_in_values(l.elements@, r@),
        _ => false,
    }
}

/// Whether some value of `vs` equals the literal.
fn any_value_equals(vs: &Vec<Value>, e: &Expr) -> (r: bool)
    ensures
        r == expr_in_values(*e, vs@),
{
    let mut j: usize = 0;
    while j < vs.len()
        invariant
            j <= vs@.len(),
            forall|q: int| 0 <= q < j ==> !value_eq_expr(#[trigger] vs@[q], *e),
        decreases vs@.len() - j,
    {
        if value_equals_expr(&vs[j], e) {
            return true;
        }
        j = j + 1;
    }
    false
}

pub fn match_in_literal_with_value(lhs_literal: &Expr, rhs_literal: &Value) -> (r: bool)
    ensures
        r == in_literal_with_value(*lhs_literal, *rhs_literal),
{
    match (lhs_literal, rhs_literal) {
        (Expr::String(lhs), Value::String(rhs, _)) => text_contains(rhs.as_str(), lhs.value.as_str()),
        (Expr::Array(lhs), Value::List(rhs, _)) => {
            let mut i: usize = 0;
            while i < lhs.elements.len()
                invariant
                    i <= lhs.elements@.len(),
                    in_literal_with_value(*lhs_literal, *rhs_literal) <==> exprs_all_in_values(
                        lhs.elements@,
                        rhs@,
                    ),
                    exprs_prefix_in_values(lhs.elements@, rhs@, i as int),
                decreases lhs.elements@.len() - i,
            {
                if !any_value_equals(rhs, &lhs.elements[i]) {
                    return false;
                }
                i = i + 1;
            }
            true
        },
        _ => false,
    }
}

/// `value in value`: a string in a string is a substring, a list in a list
/// has each element equal to some element of the other.
pub open spec fn in_both_values(lhs: Value, rhs: Value) -> bool {
    match (lhs, rhs) {
        (Value::String(l, _), Value::String(r, _)) => contains_text(r@, l@),
        (Value::List(l, _), Value::List(r, _)) => values_all_in(l@, r@),
        _ => false,
    }
}

fn contains_value(vs: &Vec<Value>, v: &Value) -> (r: bool)
    ensures
        r == value_in_values(*v, vs@),
{
    let mut j: usize = 0;
    while j < vs.len()
        invariant
            j <= vs@.len(),
            forall|q: int| 0 <= q < j ==> !value_eq(*v, #[trigger] vs@[q]),
        decreases vs@.len() - j,
    {
        if value_equals(v, &vs[j]) {
            return true;
        }
        j = j + 1;
    }
    false
}

pub fn match_in_both_values(lhs_literal: &Value, rhs_literal: &Value) -> (r: bool)
    ensures
        r == in_both_values(*lhs_literal, *rhs_literal),
{
    match (lhs_literal, rhs_literal) {
        (Value::String(lhs, _), Value::String(rhs, _)) => text_contains(rhs.as_str(), lhs.as_str()),
        (Value::List(lhs, _), Value::List(rhs, _)) => {
            let mut i: usize = 0;
            while i < lhs.len()
                invariant
                    i <= lhs@.len(),
                    in_both_values(*lhs_literal, *rhs_literal) <==> values_all_in(lhs@, rhs@),
                    values_prefix_in(lhs@, rhs@, i as int),
                decreases lhs@.len() - i,
            {
                if !contains_value(rhs, &lhs[i]) {
                    return false;
                }
                i = i + 1;
            }
            true
        },
        _ => false,
    }
}

// ---------------------------------------------------------------------
// Binary operators
// ---------------------------------------------------------------------

/// The comparison operators.
pub open spec fn is_comparison(op: BinaryOperator) -> bool {
    match op {
        BinaryOperator::Equals
        | BinaryOperator::NotEquals
        | BinaryOperator::Greater
        | BinaryOperator::GreaterThanEquals
        | BinaryOperator::Lesser
        | BinaryOperator::LesserThanEquals
        | BinaryOperator::In
        | BinaryOperator::NotIn => true,
        _ => false,
    }
}

/// `literal OP value`, with the order relations written the way the
/// evaluator checks them: `<` as `value >= literal`, `<=` as
/// `value > literal`, `>` as `value <= literal`, `>=` as `value < literal`.
pub open spec fn operator_literal_with_value(op: BinaryOperator, lhs: Expr, rhs: Value) -> bool {
    match op {
        BinaryOperator::Lesser => value_rel_expr(rhs, lhs, Relation::Ge),
        BinaryOperator::LesserThanEquals => value_rel_expr(rhs, lhs, Relation::Gt),
        BinaryOperator::Greater => value_rel_expr(rhs, lhs, Relation::Le),
        BinaryOperator::GreaterThanEquals => value_rel_expr(rhs, lhs, Relation::Lt),
        BinaryOperator::Equals => value_eq_expr(rhs, lhs),
        BinaryOperator::NotEquals => !value_eq_expr(rhs, lhs),
        BinaryOperator::In => in_literal_with_value(lhs, rhs),
        BinaryOperator::NotIn => !in_literal_with_value(lhs, rhs),
        _ => false,
    }
}

pub fn match_operator_literal_with_value(op: BinaryOperator, lhs_literal: &Expr, rhs_literal: &Value) -> (r: bool)
    requires
        is_comparison(op),
    ensures
        r == operator_literal_with_value(op, *lhs_literal, *rhs_literal),
{
    match op {
        BinaryOperator::Lesser => value_rel_with_expr(rhs_literal, lhs_literal, &Relation::Ge),
        BinaryOperator::LesserThanEquals => value_rel_with_expr(rhs_literal, lhs_literal, &Relation::Gt),
        BinaryOperator::Greater => value_rel_with_expr(rhs_literal, lhs_literal, &Relation::Le),
        BinaryOperator::GreaterThanEquals => value_rel_with_expr(rhs_literal, lhs_literal, &Relation::Lt),
        BinaryOperator::Equals => value_equals_expr(rhs_literal, lhs_literal),
        BinaryOperator::NotEquals => !value_equals_expr(rhs_literal, lhs_literal),
        BinaryOperator::In => match_in_literal_with_value(lhs_literal, rhs_literal),
        BinaryOperator::NotIn => !match_in_literal_with_value(lhs_literal, rhs_literal),
        _ => false,
    }
}

/// `value OP literal`.
pub open spec fn operator_value(op: BinaryOperator, lhs: Value, rhs: Expr) -> bool {
    match op {
        BinaryOperator::Lesser => value_rel_expr(lhs, rhs, Relation::Lt),
        BinaryOperator::LesserThanEquals => value_rel_expr(lhs, rhs, Relation::Le),
        BinaryOperator::Greater => value_rel_expr(lhs, rhs, Relation::Gt),
        BinaryOperator::GreaterThanEquals => value_rel_expr(lhs, rhs, Relation::Ge),
        BinaryOperator::Equals => value_eq_expr(lhs, rhs),
        BinaryOperator::NotEquals => !value_eq_expr(lhs, rhs),
        BinaryOperator::In => in_value(lhs, rhs),
        BinaryOperator::NotIn => !in_value(lhs, rhs),
        _ => false,
    }
}

pub fn match_operator_value(op: BinaryOperator, lhs_literal: &Value, rhs_literal: &Expr) -> (r: bool)
    requires
        is_comparison(op),
    ensures
        r == operator_value(op, *lhs_literal, *rhs_literal),
{
    match op {
        BinaryOperator::Lesser => value_rel_with_expr(lhs_literal, rhs_literal, &Relation::Lt),
        BinaryOperator::LesserThanEquals => value_rel_with_expr(lhs_literal, rhs_literal, &Relation::Le),
        BinaryOperator::Greater => value_rel_with_expr(lhs_literal, rhs_literal, &Relation::Gt),
        BinaryOperator::GreaterThanEquals => value_rel_with_expr(lhs_literal, rhs_literal, &Relation::Ge),
        BinaryOperator::Equals => value_equals_expr(lhs_literal, rhs_literal),
        BinaryOperator::NotEquals => !value_equals_expr(lhs_literal, rhs_literal),
        BinaryOperator::In => match_in_value(lhs_literal, rhs_literal),
        BinaryOperator::NotIn => !match_in_value(lhs_literal, rhs_literal),
        _ => false,
    }
}

/// `literal OP literal`.
pub open spec fn operator_literal(op: BinaryOperator, lhs: Expr, rhs: Expr) -> bool {
    match op {
        BinaryOperator::Lesser => literal_rel(lhs, rhs, Relation::Lt),
        BinaryOperator::LesserThanEquals => literal_rel(lhs, rhs, Relation::Le),
        BinaryOperator::Greater => literal_rel(lhs, rhs, Relation::Gt),
        BinaryOperator::GreaterThanEquals => literal_rel(lhs, rhs, Relation::Ge),
        BinaryOperator::Equals => expr_eq(lhs, rhs),
        BinaryOperator::NotEquals => !expr_eq(lhs, rhs),
        BinaryOperator::In => in_expr(lhs, rhs),
        BinaryOperator::NotIn => !in_expr(lhs, rhs),
        _ => false,
    }
}

pub fn match_operator_literal(op: BinaryOperator, lhs_literal: &Expr, rhs_literal: &Expr) -> (r: bool)
    requires
        is_comparison(op),
    ensures
        r == operator_literal(op, *lhs_literal, *rhs_literal),
{
    match op {
        BinaryOperator::Lesser => literal_rel_with(lhs_literal, rhs_literal, &Relation::Lt),
        BinaryOperator::LesserThanEquals => literal_rel_with(lhs_literal, rhs_literal, &Relation::Le),
        BinaryOperator::Greater => literal_rel_with(lhs_literal, rhs_literal, &Relation::Gt),
        BinaryOperator::GreaterThanEquals => literal_rel_with(lhs_literal, rhs_literal, &Relation::Ge),
        BinaryOperator::Equals => expr_equal(lhs_literal, rhs_literal),
        BinaryOperator::NotEquals => !expr_equal(lhs_literal, rhs_literal),
        BinaryOperator::In => match_in_expr(lhs_literal, rhs_literal),
        BinaryOperator::NotIn => !match_in_expr(lhs_literal, rhs_literal),
        _ => false,
    }
}

/// `value OP value`.
pub open spec fn operator_both_value(op: BinaryOperator, lhs: Value, rhs: Value) -> bool {
    match op {
        BinaryOperator::Lesser => value_rel(lhs, rhs, Relation::Lt),
        BinaryOperator::LesserThanEquals => value_rel(lhs, rhs, Relation::Le),
        BinaryOperator::Greater => value_rel(lhs, rhs, Relation::Gt),
        BinaryOperator::GreaterThanEquals => value_rel(lhs, rhs, Relation::Ge),
        BinaryOperator::Equals => value_eq(lhs, rhs),
        BinaryOperator::NotEquals => !value_eq(lhs, rhs),
        BinaryOperator::In => in_both_values(lhs, rhs),
        BinaryOperator::NotIn => !in_both_values(lhs, rhs),
        _ => false,
    }
}

pub fn match_operator_both_value(op: BinaryOperator, lhs_literal: &Value, rhs_literal: &Value) -> (r: bool)
    requires
        is_comparison(op),
    ensures
        r == operator_both_value(op, *lhs_literal, *rhs_literal),
{
    match op {
        BinaryOperator::Lesser => value_rel_with(lhs_literal, rhs_literal, &Relation::Lt),
        BinaryOperator::LesserThanEquals => value_rel_with(lhs_literal, rhs_literal, &Relation::Le),
        BinaryOperator::Greater => value_rel_with(lhs_literal, rhs_literal, &Relation::Gt),
        BinaryOperator::GreaterThanEquals => value_rel_with(lhs_literal, rhs_literal, &Relation::Ge),
        BinaryOperator::Equals => value_equals(lhs_literal, rhs_literal),
        BinaryOperator::NotEquals => !value_equals(lhs_literal, rhs_literal),
        BinaryOperator::In => match_in_both_values(lhs_literal, rhs_literal),
        BinaryOperator::NotIn => !match_in_both_values(lhs_literal, rhs_literal),
        _ => false,
    }
}

// ---------------------------------------------------------------------
// Checking a comparison
// ---------------------------------------------------------------------

/// The data value an item stands for.
pub open spec fn item_data(it: Item) -> Value {
    match it {
        Item::Data(v) => v,
        Item::Literal(_) => Value::Null(crate::types::Location { row: 0, column: 0 }),
    }
}

/// The data value a query result stands for.
pub open spec fn data_of(v: ValueType) -> Value {
    item_data(item_of(v))
}

/// Whether every element is a data value.
pub open spec fn all_data(vs: Seq<ValueType>) -> bool {
    forall|i: int| 0 <= i < vs.len() ==> (#[trigger] vs[i]) is DataValue
}

/// Whether every item is a data value.
pub open spec fn all_data_items(vs: Seq<Item>) -> bool {
    forall|i: int| 0 <= i < vs.len() ==> (#[trigger] vs[i]) is Data
}

/// Whether the sides of a comparison have the shapes the evaluator builds:
/// a single side is a literal, a query side holds data values.
pub open spec fn well_shaped(side: ItemSide) -> bool {
    match side {
        ItemSide::Single(v) => v is Literal,
        ItemSide::Query(vs) => all_data_items(vs),
    }
}

/// The outcome of a comparison: a literal against a literal, a literal
/// against each value of a query, each value of a query against a literal,
/// or each value of one query against each value of the other, which must
/// each be in the other.
pub open spec fn check_outcome(op: BinaryOperator, lhs: ItemSide, rhs: ItemSide) -> bool {
    match (lhs, rhs) {
        (ItemSide::Single(Item::Literal(l)), ItemSide::Single(Item::Literal(r))) => operator_literal(
            op,
            l,
            r,
        ),
        (ItemSide::Single(Item::Literal(l)), ItemSide::Query(rs)) => forall|i: int|
            0 <= i < rs.len() ==> operator_literal_with_value(op, l, item_data(#[trigger] rs[i])),
        (ItemSide::Query(ls), ItemSide::Single(Item::Literal(r))) => forall|i: int|
            0 <= i < ls.len() ==> operator_value(op, item_data(#[trigger] ls[i]), r),
        (ItemSide::Query(ls), ItemSide::Query(rs)) => forall|i: int, j: int|
            0 <= i < ls.len() && 0 <= j < rs.len() ==> in_both_values(
                item_data(#[trigger] ls[i]),
                item_data(#[trigger] rs[j]),
            ),
        _ => false,
    }
}

proof fn lemma_items_of(vs: Seq<ValueType>)
    ensures
        items_of(vs).len() == vs.len(),
        forall|i: int| 0 <= i < vs.len() ==> #[trigger] items_of(vs)[i] == item_of(vs[i]),
        all_data(vs) <==> all_data_items(items_of(vs)),
{
    assert forall|i: int| 0 <= i < vs.len() implies #[trigger] items_of(vs)[i] == item_of(vs[i]) by {}
    if all_data_items(items_of(vs)) {
        assert forall|i: int| 0 <= i < vs.len() implies (#[trigger] vs[i]) is DataValue by {
            assert(items_of(vs)[i] is Data);
        }
    }
}

fn status_of(result: bool) -> (s: crate::value::Status)
    ensures
        s == (if result {
            crate::value::Status::PASS
        } else {
            crate::value::Status::FAIL
        }),
{
    if result {
        crate::value::Status::PASS
    } else {
        crate::value::Status::FAIL
    }
}

/// The status reported for an outcome.
pub open spec fn status_for(b: bool) -> crate::value::Status {
    if b {
        crate::value::Status::PASS
    } else {
        crate::value::Status::FAIL
    }
}

/// One reported check: its status and what was compared.
pub type CheckStep<'v> = (crate::value::Status, Comparison<'v>);

/// The reporter answered `Ok(())` at the `k`-th check, going from the `k`-th
/// state to the next.
pub open spec fn step_answered<'v, R: EvalReporter<'v>>(
    states: Seq<R>,
    steps: Seq<CheckStep<'v>>,
    k: int,
    expr: Expr,
) -> bool {
    states[k].reports_evaluation(states[k + 1], steps[k].0, steps[k].1, ""@, expr, Ok(()))
}

/// `states` are the reporter's states as it was told `steps` one after the
/// other, each answered with `Ok(())`.
pub open spec fn reporter_run<'v, R: EvalReporter<'v>>(
    states: Seq<R>,
    steps: Seq<CheckStep<'v>>,
    expr: Expr,
) -> bool {
    &&& states.len() == steps.len() + 1
    &&& forall|k: int| 0 <= k < steps.len() ==> #[trigger] step_answered(states, steps, k, expr)
}

/// The reporter went from `before` to `after` by being told `steps` in
/// order, with the data file `""` and the expression `expr`, and answered
/// each with `Ok(())`.
pub open spec fn reported_in_turn<'v, R: EvalReporter<'v>>(
    before: R,
    after: R,
    steps: Seq<CheckStep<'v>>,
    expr: Expr,
) -> bool {
    exists|states: Seq<R>|
        #[trigger] reporter_run(states, steps, expr) && states[0] == before && states[steps.len() as int]
            == after
}

/// What a run of checks told the reporter, by its result: on `Ok`, every
/// check of `steps` was told in order and answered `Ok(())`; on an error,
/// the checks before some `n` were, and the `n`-th was answered with that
/// very error. So where the reporter answers every check with `Ok(())` the
/// run succeeds, and a run with no checks always does.
pub open spec fn checks_reported<'v, R: EvalReporter<'v>>(
    before: R,
    after: R,
    steps: Seq<CheckStep<'v>>,
    expr: Expr,
    r: Result<bool, EvaluationError<'v>>,
) -> bool {
    match r {
        Ok(_) => reported_in_turn(before, after, steps, expr),
        Err(EvaluationError::IoError(e)) => exists|mid: R, n: int|
            0 <= n < steps.len() && #[trigger] reported_in_turn(before, mid, steps.take(n), expr)
                && mid.reports_evaluation(after, steps[n].0, steps[n].1, ""@, expr, Err(e)),
        Err(_) => false,
    }
}

/// The checks of a literal against each value of a query, each with the
/// outcome so far.
pub open spec fn literal_steps<'v>(
    op: BinaryOperator,
    literal: &'v Expr,
    rhs: Seq<ValueType<'v>>,
) -> Seq<CheckStep<'v>> {
    Seq::new(
        rhs.len(),
        |i: int|
            (
                status_for(
                    forall|k: int|
                        0 <= k < i + 1 ==> operator_literal_with_value(
                            op,
                            *literal,
                            data_of(#[trigger] rhs[k]),
                        ),
                ),
                Comparison::Binary(
                    BinaryComparison {
                        operator: op,
                        lhs: ValueType::LiteralValue(literal),
                        rhs: rhs[i],
                    },
                ),
            ),
    )
}

/// The checks of each value of a query against a literal, each with the
/// outcome so far.
pub open spec fn value_steps<'v>(
    op: BinaryOperator,
    lhs: Seq<ValueType<'v>>,
    literal: &'v Expr,
) -> Seq<CheckStep<'v>> {
    Seq::new(
        lhs.len(),
        |i: int|
            (
                status_for(
                    forall|k: int|
                        0 <= k < i + 1 ==> operator_value(op, data_of(#[trigger] lhs[k]), *literal),
                ),
                Comparison::Binary(
                    BinaryComparison {
                        operator: op,
                        lhs: lhs[i],
                        rhs: ValueType::LiteralValue(literal),
                    },
                ),
            ),
    )
}

/// The checks of the `i`-th value of one query against each value of the
/// other, each with the outcome so far.
pub open spec fn row_steps<'v>(
    op: BinaryOperator,
    lhs: Seq<ValueType<'v>>,
    rhs: Seq<ValueType<'v>>,
    i: int,
) -> Seq<CheckStep<'v>> {
    Seq::new(
        rhs.len(),
        |j: int|
            (
                status_for(
                    forall|k: int, l: int|
                        0 <= k < lhs.len() && 0 <= l < rhs.len() && (k < i || (k == i && l < j + 1))
                            ==> in_both_values(data_of(#[trigger] lhs[k]), data_of(#[trigger] rhs[l])),
                ),
                Comparison::Binary(BinaryComparison { operator: op, lhs: lhs[i], rhs: rhs[j] }),
            ),
    )
}

/// The checks of the first `n` values of one query against each value of
/// the other, row after row.
pub open spec fn both_steps<'v>(
    op: BinaryOperator,
    lhs: Seq<ValueType<'v>>,
    rhs: Seq<ValueType<'v>>,
    n: nat,
) -> Seq<CheckStep<'v>>
    decreases n,
{
    if n == 0 {
        Seq::empty()
    } else {
        both_steps(op, lhs, rhs, (n - 1) as nat) + row_steps(op, lhs, rhs, n - 1)
    }
}

/// The checks that a comparison reports, in order.
pub open spec fn check_steps<'v>(
    op: BinaryOperator,
    lhs: SingleOrQuery<'v>,
    rhs: SingleOrQuery<'v>,
) -> Seq<CheckStep<'v>> {
    match (lhs, rhs) {
        (
            SingleOrQuery::Single(ValueType::LiteralValue(l)),
            SingleOrQuery::Single(ValueType::LiteralValue(r)),
        ) => seq![
            (
                status_for(operator_literal(op, *l, *r)),
                Comparison::Binary(
                    BinaryComparison {
                        operator: op,
                        lhs: ValueType::LiteralValue(l),
                        rhs: ValueType::LiteralValue(r),
                    },
                ),
            ),
        ],
        (SingleOrQuery::Single(ValueType::LiteralValue(l)), SingleOrQuery::Query(rs)) => literal_steps(
            op,
            l,
            rs@,
        ),
        (SingleOrQuery::Query(ls), SingleOrQuery::Single(ValueType::LiteralValue(r))) => value_steps(
            op,
            ls@,
            r,
        ),
        (SingleOrQuery::Query(ls), SingleOrQuery::Query(rs)) => both_steps(
            op,
            ls@,
            rs@,
            ls@.len(),
        ),
        _ => Seq::empty(),
    }
}

/// Extending a run of answered checks by one more answered check.
proof fn lemma_run_push<'v, R: EvalReporter<'v>>(
    states: Seq<R>,
    steps: Seq<CheckStep<'v>>,
    next: R,
    step: CheckStep<'v>,
    expr: Expr,
)
    requires
        reporter_run(states, steps, expr),
        states[steps.len() as int].reports_evaluation(next, step.0, step.1, ""@, expr, Ok(())),
    ensures
        reporter_run(states.push(next), steps.push(step), expr),
{
    let s2 = states.push(next);
    let t2 = steps.push(step);
    assert forall|k: int| 0 <= k < t2.len() implies #[trigger] step_answered(s2, t2, k, expr) by {
        if k < steps.len() {
            assert(step_answered(states, steps, k, expr));
        }
    }
}

/// A run of no checks.
proof fn lemma_run_empty<'v, R: EvalReporter<'v>>(start: R, expr: Expr)
    ensures
        reporter_run(seq![start], Seq::<CheckStep<'v>>::empty(), expr),
        reported_in_turn(start, start, Seq::<CheckStep<'v>>::empty(), expr),
{
    assert(reporter_run(seq![start], Seq::<CheckStep<'v>>::empty(), expr));
}

/// Checks a literal against each value of a query, reporting each check
/// with the outcome so far.
pub fn check_literal_operator<'v, R: EvalReporter<'v>>(
    op: BinaryOperator,
    binop: &'v Expr,
    literal: &'v Expr,
    rhs: &Vec<ValueType<'v>>,
    reporter: &mut R,
) -> (r: Result<bool, EvaluationError<'v>>)
    requires
        is_comparison(op),
        all_data(rhs@),
    ensures
        r matches Ok(b) ==> b == forall|i: int|
            0 <= i < rhs@.len() ==> operator_literal_with_value(op, *literal, data_of(#[trigger] rhs@[i])),
        r matches Err(e) ==> e is IoError,
        checks_reported(*old(reporter), *final(reporter), literal_steps(op, literal, rhs@), *binop, r),
{
    let ghost start = *reporter;
    let ghost steps = literal_steps(op, literal, rhs@);
    let ghost mut states: Seq<R> = seq![start];
    proof {
        lemma_run_empty::<'v, R>(start, *binop);
        assert(steps.take(0) =~= Seq::<CheckStep<'v>>::empty());
    }
    let mut result = true;
    let mut i: usize = 0;
    while i < rhs.len()
        invariant
            i <= rhs@.len(),
            is_comparison(op),
            all_data(rhs@),
            result == forall|k: int|
                0 <= k < i ==> operator_literal_with_value(op, *literal, data_of(#[trigger] rhs@[k])),
            steps == literal_steps(op, literal, rhs@),
            states.len() == i + 1,
            states[0] == start,
            start == *old(reporter),
            states[i as int] == *reporter,
            reporter_run(states, steps.take(i as int), *binop),
        decreases rhs@.len() - i,
    {
        let each = rhs[i];
        let value = match each {
            ValueType::DataValue(v) => v,
            ValueType::LiteralValue(_) => {
                proof {
                    assert(rhs@[i as int] is DataValue);
                }
                return Ok(false);
            },
        };
        result = result && match_operator_literal_with_value(op, literal, value);
        proof {
            assert(data_of(rhs@[i as int]) == *value);
        }
        let status = status_of(result);
        proof {
            assert(steps[i as int] == (
                status,
                Comparison::Binary(
                    BinaryComparison { operator: op, lhs: ValueType::LiteralValue(literal), rhs: each },
                ),
            ));
        }
        let ghost pre = *reporter;
        let answer = reporter.report_evaluation(
            status,
            Comparison::Binary(
                BinaryComparison { operator: op, lhs: ValueType::LiteralValue(literal), rhs: each },
            ),
            "",
            binop,
        );
        proof {
            assert(pre.reports_evaluation(*reporter, steps[i as int].0, steps[i as int].1, ""@, *binop, answer));
        }
        match answer {
            Ok(u) => {
                proof {
                    assert(u == ());
                    assert(steps.take(i as int).len() == i);
                }
            },
            Err(e) => {
                proof {
                    assert(reported_in_turn(start, pre, steps.take(i as int), *binop));
                    assert(steps.take(i as int).len() == i);
                }
                return Err(EvaluationError::IoError(e));
            },
        }
        proof {
            lemma_run_push(states, steps.take(i as int), *reporter, steps[i as int], *binop);
            assert(steps.take(i as int).push(steps[i as int]) =~= steps.take(i + 1));
            states = states.push(*reporter);
        }
        i = i + 1;
    }
    proof {
        assert(steps.take(i as int) =~= steps);
        assert(reported_in_turn(start, *reporter, steps, *binop));
    }
    Ok(result)
}

/// Checks each value of a query against a literal.
fn check_values_operator<'v, R: EvalReporter<'v>>(
    op: BinaryOperator,
    binop: &'v Expr,
    lhs: &Vec<ValueType<'v>>,
    literal: &'v Expr,
    reporter: &mut R,
) -> (r: Result<bool, EvaluationError<'v>>)
    requires
        is_comparison(op),
        all_data(lhs@),
    ensures
        r matches Ok(b) ==> b == forall|i: int|
            0 <= i < lhs@.len() ==> operator_value(op, data_of(#[trigger] lhs@[i]), *literal),
        r matches Err(e) ==> e is IoError,
        checks_reported(*old(reporter), *final(reporter), value_steps(op, lhs@, literal), *binop, r),
{
    let ghost start = *reporter;
    let ghost steps = value_steps(op, lhs@, literal);
    let ghost mut states: Seq<R> = seq![start];
    proof {
        lemma_run_empty::<'v, R>(start, *binop);
        assert(steps.take(0) =~= Seq::<CheckStep<'v>>::empty());
    }
    let mut result = true;
    let mut i: usize = 0;
    while i < lhs.len()
        invariant
            i <= lhs@.len(),
            is_comparison(op),
            all_data(lhs@),
            result == forall|k: int| 0 <= k < i ==> operator_value(op, data_of(#[trigger] lhs@[k]), *literal),
            steps == value_steps(op, lhs@, literal),
            states.len() == i + 1,
            states[0] == start,
            start == *old(reporter),
            states[i as int] == *reporter,
            reporter_run(states, steps.take(i as int), *binop),
        decreases lhs@.len() - i,
    {
        let each = lhs[i];
        let value = match each {
            ValueType::DataValue(v) => v,
            ValueType::LiteralValue(_) => {
                proof {
                    assert(lhs@[i as int] is DataValue);
                }
                return Ok(false);
            },
        };
        result = result && match_operator_value(op, value, literal);
        proof {
            assert(data_of(lhs@[i as int]) == *value);
        }
        let status = status_of(result);
        proof {
            assert(steps[i as int] == (
                status,
                Comparison::Binary(
                    BinaryComparison { operator: op, lhs: each, rhs: ValueType::LiteralValue(literal) },
                ),
            ));
        }
        let ghost pre = *reporter;
        let answer = reporter.report_evaluation(
            status,
            Comparison::Binary(
                BinaryComparison { operator: op, lhs: each, rhs: ValueType::LiteralValue(literal) },
            ),
            "",
            binop,
        );
        match answer {
            Ok(u) => {
                proof {
                    assert(u == ());
                    assert(steps.take(i as int).len() == i);
                }
            },
            Err(e) => {
                proof {
                    assert(reported_in_turn(start, pre, steps.take(i as int), *binop));
                    assert(steps.take(i as int).len() == i);
                }
                return Err(EvaluationError::IoError(e));
            },
        }
        proof {
            lemma_run_push(states, steps.take(i as int), *reporter, steps[i as int], *binop);
            assert(steps.take(i as int).push(steps[i as int]) =~= steps.take(i + 1));
            states = states.push(*reporter);
        }
        i = i + 1;
    }
    proof {
        assert(steps.take(i as int) =~= steps);
        assert(reported_in_turn(start, *reporter, steps, *binop));
    }
    Ok(result)
}

/// Each run of whole rows is the beginning of every longer one.
proof fn lemma_both_prefix<'v>(
    op: BinaryOperator,
    lhs: Seq<ValueType<'v>>,
    rhs: Seq<ValueType<'v>>,
    m: nat,
    n: nat,
)
    requires
        m <= n,
    ensures
        both_steps(op, lhs, rhs, m).len() <= both_steps(op, lhs, rhs, n).len(),
        both_steps(op, lhs, rhs, n).take(both_steps(op, lhs, rhs, m).len() as int) == both_steps(
            op,
            lhs,
            rhs,
            m,
        ),
    decreases n,
{
    if m < n {
        lemma_both_prefix(op, lhs, rhs, m, (n - 1) as nat);
        let a = both_steps(op, lhs, rhs, (n - 1) as nat);
        let b = both_steps(op, lhs, rhs, n);
        let len = both_steps(op, lhs, rhs, m).len() as int;
        assert(b.take(len) =~= a.take(len));
    } else {
        let b = both_steps(op, lhs, rhs, n);
        assert(b.take(b.len() as int) =~= b);
    }
}

/// Checks that each value of one query is in each value of the other.
fn check_both_queries<'v, R: EvalReporter<'v>>(
    op: BinaryOperator,
    binop: &'v Expr,
    lhs: &Vec<ValueType<'v>>,
    rhs: &Vec<ValueType<'v>>,
    reporter: &mut R,
) -> (r: Result<bool, EvaluationError<'v>>)
    requires
        all_data(lhs@),
        all_data(rhs@),
    ensures
        r matches Ok(b) ==> b == forall|i: int, j: int|
            0 <= i < lhs@.len() && 0 <= j < rhs@.len() ==> in_both_values(
                data_of(#[trigger] lhs@[i]),
                data_of(#[trigger] rhs@[j]),
            ),
        r matches Err(e) ==> e is IoError,
        checks_reported(
            *old(reporter),
            *final(reporter),
            both_steps(op, lhs@, rhs@, lhs@.len()),
            *binop,
            r,
        ),
{
    let ghost start = *reporter;
    let ghost all = both_steps(op, lhs@, rhs@, lhs@.len());
    let ghost mut states: Seq<R> = seq![start];
    proof {
        lemma_run_empty::<'v, R>(start, *binop);
    }
    let mut result = true;
    let mut i: usize = 0;
    while i < lhs.len()
        invariant
            i <= lhs@.len(),
            all_data(lhs@),
            all_data(rhs@),
            result == forall|k: int, l: int|
                0 <= k < i && 0 <= l < rhs@.len() ==> in_both_values(
                    data_of(#[trigger] lhs@[k]),
                    data_of(#[trigger] rhs@[l]),
                ),
            all == both_steps(op, lhs@, rhs@, lhs@.len()),
            states.len() == both_steps(op, lhs@, rhs@, i as nat).len() + 1,
            states[0] == start,
            start == *old(reporter),
            states[both_steps(op, lhs@, rhs@, i as nat).len() as int] == *reporter,
            reporter_run(states, both_steps(op, lhs@, rhs@, i as nat), *binop),
        decreases lhs@.len() - i,
    {
        let each_lhs = lhs[i];
        let lhs_value = match each_lhs {
            ValueType::DataValue(v) => v,
            ValueType::LiteralValue(_) => {
                proof {
                    assert(lhs@[i as int] is DataValue);
                }
                return Ok(false);
            },
        };
        let ghost done = both_steps(op, lhs@, rhs@, i as nat);
        let ghost row = row_steps(op, lhs@, rhs@, i as int);
        proof {
            lemma_both_prefix(op, lhs@, rhs@, (i + 1) as nat, lhs@.len());
            assert(both_steps(op, lhs@, rhs@, (i + 1) as nat) == done + row);
            assert(row.take(0) =~= Seq::<CheckStep<'v>>::empty());
            assert(done + row.take(0) =~= done);
        }
        let mut j: usize = 0;
        while j < rhs.len()
            invariant
                i < lhs@.len(),
                j <= rhs@.len(),
                all_data(rhs@),
                data_of(lhs@[i as int]) == *lhs_value,
                each_lhs == lhs@[i as int],
                result == forall|k: int, l: int|
                    0 <= k < lhs@.len() && 0 <= l < rhs@.len() && (k < i || (k == i && l < j))
                        ==> in_both_values(data_of(#[trigger] lhs@[k]), data_of(#[trigger] rhs@[l])),
                done == both_steps(op, lhs@, rhs@, i as nat),
                row == row_steps(op, lhs@, rhs@, i as int),
                all == both_steps(op, lhs@, rhs@, lhs@.len()),
                all.take((done + row).len() as int) == done + row,
                (done + row).len() <= all.len(),
                states.len() == (done + row.take(j as int)).len() + 1,
                states[0] == start,
                start == *old(reporter),
                states[(done + row.take(j as int)).len() as int] == *reporter,
                reporter_run(states, done + row.take(j as int), *binop),
            decreases rhs@.len() - j,
        {
            let each = rhs[j];
            let value = match each {
                ValueType::DataValue(v) => v,
                ValueType::LiteralValue(_) => {
                    proof {
                        assert(rhs@[j as int] is DataValue);
                    }
                    return Ok(false);
                },
            };
            proof {
                assert(data_of(rhs@[j as int]) == *value);
            }
            result = result && match_in_both_values(lhs_value, value);
            let status = status_of(result);
            let ghost cur = done + row.take(j as int);
            let ghost n = cur.len() as int;
            proof {
                assert(row[j as int] == (
                    status,
                    Comparison::Binary(BinaryComparison { operator: op, lhs: each_lhs, rhs: each }),
                ));
                assert(all.take(n) =~= cur) by {
                    assert(all.take(n) =~= (done + row).take(n));
                    assert((done + row).take(n) =~= cur);
                }
                assert(all[n] == row[j as int]) by {
                    assert(all.take((done + row).len() as int)[n] == (done + row)[n]);
                }
            }
            let ghost pre = *reporter;
            let answer = reporter.report_evaluation(
                status,
                Comparison::Binary(BinaryComparison { operator: op, lhs: each_lhs, rhs: each }),
                "",
                binop,
            );
            match answer {
                Ok(u) => {
                    proof {
                        assert(u == ());
                    }
                },
                Err(e) => {
                    proof {
                        assert(reported_in_turn(start, pre, all.take(n), *binop));
                        assert(0 <= n < all.len());
                    }
                    return Err(EvaluationError::IoError(e));
                },
            }
            proof {
                lemma_run_push(states, cur, *reporter, row[j as int], *binop);
                assert(cur.push(row[j as int]) =~= done + row.take(j + 1));
                states = states.push(*reporter);
            }
            j = j + 1;
        }
        proof {
            assert(row.take(j as int) =~= row);
        }
        i = i + 1;
    }
    proof {
        assert(reported_in_turn(start, *reporter, all, *binop));
    }
    Ok(result)
}

/// Checks a comparison: a literal against a literal, a literal against each
/// value of a query, each value of a query against a literal, or each value
/// of one query against each value of the other; each check is reported
/// with the outcome so far, and the result is whether all of them hold.
pub fn check_operator<'v, R: EvalReporter<'v>>(
    op: BinaryOperator,
    binop: &'v Expr,
    lhs: SingleOrQuery<'v>,
    rhs: SingleOrQuery<'v>,
    reporter: &mut R,
) -> (r: Result<bool, EvaluationError<'v>>)
    requires
        is_comparison(op),
        well_shaped(side_of(lhs)),
        well_shaped(side_of(rhs)),
    ensures
        r matches Ok(b) ==> b == check_outcome(op, side_of(lhs), side_of(rhs)),
        r matches Err(e) ==> e is IoError,
        checks_reported(*old(reporter), *final(reporter), check_steps(op, lhs, rhs), *binop, r),
{
    let ghost start = *reporter;
    proof {
        if lhs is Query {
            lemma_items_of(lhs->Query_0@);
        }
        if rhs is Query {
            lemma_items_of(rhs->Query_0@);
        }
    }
    match lhs {
        SingleOrQuery::Single(ValueType::LiteralValue(l)) => match rhs {
            SingleOrQuery::Single(ValueType::LiteralValue(r)) => {
                let result = match_operator_literal(op, l, r);
                let status = status_of(result);
                let ghost steps = check_steps(op, lhs, rhs);
                let answer = reporter.report_evaluation(
                    status,
                    Comparison::Binary(
                        BinaryComparison {
                            operator: op,
                            lhs: ValueType::LiteralValue(l),
                            rhs: ValueType::LiteralValue(r),
                        },
                    ),
                    "",
                    binop,
                );
                proof {
                    lemma_run_empty::<'v, R>(start, *binop);
                    assert(steps.take(0) =~= Seq::<CheckStep<'v>>::empty());
                }
                match answer {
                    Ok(u) => {
                        proof {
                            assert(u == ());
                            lemma_run_push(seq![start], steps.take(0), *reporter, steps[0], *binop);
                            assert(steps.take(0).push(steps[0]) =~= steps);
                            assert(seq![start].push(*reporter)[1] == *reporter);
                            assert(reported_in_turn(start, *reporter, steps, *binop));
                        }
                        Ok(result)
                    },
                    Err(e) => {
                        proof {
                            assert(reported_in_turn(start, start, steps.take(0), *binop));
                        }
                        Err(EvaluationError::IoError(e))
                    },
                }
            },
            SingleOrQuery::Query(rs) => {
                let r = check_literal_operator(op, binop, l, &rs, reporter);
                proof {
                    let items = items_of(rs@);
                    assert forall|i: int| 0 <= i < rs@.len() implies data_of(#[trigger] rs@[i])
                        == item_data(items[i]) by {}
                    assert((forall|i: int|
                        0 <= i < rs@.len() ==> operator_literal_with_value(op, *l, data_of(#[trigger] rs@[i])))
                        == (forall|i: int|
                        0 <= i < items.len() ==> operator_literal_with_value(op, *l, item_data(#[trigger] items[i]))));
                }
                r
            },
            SingleOrQuery::Single(ValueType::DataValue(_)) => Ok(false),
        },
        SingleOrQuery::Query(ls) => match rhs {
            SingleOrQuery::Single(ValueType::LiteralValue(r)) => {
                let res = check_values_operator(op, binop, &ls, r, reporter);
                proof {
                    let items = items_of(ls@);
                    assert forall|i: int| 0 <= i < ls@.len() implies data_of(#[trigger] ls@[i])
                        == item_data(items[i]) by {}
                    assert((forall|i: int| 0 <= i < ls@.len() ==> operator_value(op, data_of(#[trigger] ls@[i]), *r))
                        == (forall|i: int|
                        0 <= i < items.len() ==> operator_value(op, item_data(#[trigger] items[i]), *r)));
                }
                res
            },
            SingleOrQuery::Query(rs) => {
                let res = check_both_queries(op, binop, &ls, &rs, reporter);
                proof {
                    let li = items_of(ls@);
                    let ri = items_of(rs@);
                    assert forall|i: int| 0 <= i < ls@.len() implies data_of(#[trigger] ls@[i])
                        == item_data(li[i]) by {}
                    assert forall|j: int| 0 <= j < rs@.len() implies data_of(#[trigger] rs@[j])
                        == item_data(ri[j]) by {}
                    assert((forall|i: int, j: int|
                        0 <= i < ls@.len() && 0 <= j < rs@.len() ==> in_both_values(
                            data_of(#[trigger] ls@[i]),
                            data_of(#[trigger] rs@[j]),
                        )) == (forall|i: int, j: int|
                        0 <= i < li.len() && 0 <= j < ri.len() ==> in_both_values(
                            item_data(#[trigger] li[i]),
                            item_data(#[trigger] ri[j]),
                        )));
                }
                res
            },
            SingleOrQuery::Single(ValueType::DataValue(_)) => Ok(false),
        },
        SingleOrQuery::Single(ValueType::DataValue(_)) => Ok(false),
    }
}

// ---------------------------------------------------------------------
// Unary operators
// ---------------------------------------------------------------------

/// Whether a value is empty: an empty list, string or mapping.
pub open spec fn is_empty_value(v: Item) -> bool {
    match v {
        Item::Data(Value::List(l, _)) => l@.len() == 0,
        Item::Data(Value::String(s, _)) => s@.len() == 0,
        Item::Data(Value::Mapping(m, _)) => m@.len() == 0,
        Item::Literal(Expr::String(s)) => s.value@.len() == 0,
        Item::Literal(Expr::Array(a)) => a.elements@.len() == 0,
        Item::Literal(Expr::Mapping(m)) => m.entries@.len() == 0,
        _ => false,
    }
}

/// Whether there is nothing, or only empty values.
pub open spec fn empty_outcome(vec: Seq<Item>) -> bool {
    vec.len() == 0 || forall|i: int| 0 <= i < vec.len() ==> is_empty_value(#[trigger] vec[i])
}

fn is_empty_value_exec(v: &ValueType) -> (r: bool)
    ensures
        r == is_empty_value(item_of(*v)),
{
    match v {
        ValueType::DataValue(Value::List(l, _)) => l.len() == 0,
        ValueType::DataValue(Value::String(s, _)) => s.as_str().unicode_len() == 0,
        ValueType::DataValue(Value::Mapping(m, _)) => m.len() == 0,
        ValueType::LiteralValue(Expr::String(s)) => s.value.as_str().unicode_len() == 0,
        ValueType::LiteralValue(Expr::Array(a)) => a.elements.len() == 0,
        ValueType::LiteralValue(Expr::Mapping(m)) => m.entries.len() == 0,
        _ => false,
    }
}

pub fn match_empty(vec: Vec<ValueType<'_>>) -> (r: bool)
    ensures
        r == empty_outcome(items_of(vec@)),
{
    proof {
        lemma_items_of(vec@);
    }
    let mut i: usize = 0;
    while i < vec.len()
        invariant
            i <= vec@.len(),
            forall|k: int| 0 <= k < i ==> is_empty_value(#[trigger] items_of(vec@)[k]),
        decreases vec@.len() - i,
    {
        proof {
            lemma_items_of(vec@);
        }
        if !is_empty_value_exec(&vec[i]) {
            proof {
                assert(!is_empty_value(items_of(vec@)[i as int]));
            }
            return false;
        }
        i = i + 1;
    }
    true
}

/// The kinds a unary check asks about.
#[derive(Debug, Clone, Copy, PartialEq, Eq, Structural)]
pub enum Kind {
    String,
    Float,
    Bool,
    Int,
    Regex,
    Null,
    RangeFloat,
    RangeInt,
    List,
    Mapping,
}

/// Whether a value is of a kind.
pub open spec fn of_kind(v: Item, kind: Kind) -> bool {
    match kind {
        Kind::String => match v {
            Item::Data(Value::String(..)) => true,
            Item::Literal(Expr::String(_)) => true,
            _ => false,
        },
        Kind::Float => match v {
            Item::Data(Value::Float(..)) => true,
            Item::Literal(Expr::Float(_)) => true,
            _ => false,
        },
        Kind::Bool => match v {
            Item::Data(Value::Bool(..)) => true,
            Item::Literal(Expr::Bool(_)) => true,
            _ => false,
        },
        Kind::Int => match v {
            Item::Data(Value::Int(..)) => true,
            Item::Literal(Expr::Int(_)) => true,
            _ => false,
        },
        Kind::Regex => match v {
            Item::Data(Value::Regex(..)) => true,
            Item::Literal(Expr::Regex(_)) => true,
            _ => false,
        },
        Kind::Null => match v {
            Item::Data(Value::Null(..)) => true,
            Item::Literal(Expr::Null(_)) => true,
            _ => false,
        },
        Kind::RangeFloat => match v {
            Item::Data(Value::RangeFloat(..)) => true,
            Item::Literal(Expr::RangeFloat(_)) => true,
            _ => false,
        },
        Kind::RangeInt => match v {
            Item::Data(Value::RangeInt(..)) => true,
            Item::Literal(Expr::RangeInt(_)) => true,
            _ => false,
        },
        Kind::List => match v {
            Item::Data(Value::List(..)) => true,
            Item::Literal(Expr::Array(_)) => true,
            _ => false,
        },
        Kind::Mapping => match v {
            Item::Data(Value::Mapping(..)) => true,
            Item::Literal(Expr::Mapping(_)) => true,
            _ => false,
        },
    }
}

fn of_kind_exec(v: &ValueType, kind: Kind) -> (r: bool)
    ensures
        r == of_kind(item_of(*v), kind),
{
    match kind {
        Kind::String => match v {
            ValueType::DataValue(Value::String(..)) => true,
            ValueType::LiteralValue(Expr::String(_)) => true,
            _ => false,
        },
        Kind::Float => match v {
            ValueType::DataValue(Value::Float(..)) => true,
            ValueType::LiteralValue(Expr::Float(_)) => true,
            _ => false,
        },
        Kind::Bool => match v {
            ValueType::DataValue(Value::Bool(..)) => true,
            ValueType::LiteralValue(Expr::Bool(_)) => true,
            _ => false,
        },
        Kind::Int => match v {
            ValueType::DataValue(Value::Int(..)) => true,
            ValueType::LiteralValue(Expr::Int(_)) => true,
            _ => false,
        },
        Kind::Regex => match v {
            ValueType::DataValue(Value::Regex(..)) => true,
            ValueType::LiteralValue(Expr::Regex(_)) => true,
            _ => false,
        },
        Kind::Null => match v {
            ValueType::DataValue(Value::Null(..)) => true,
            ValueType::LiteralValue(Expr::Null(_)) => true,
            _ => false,
        },
        Kind::RangeFloat => match v {
            ValueType::DataValue(Value::RangeFloat(..)) => true,
            ValueType::LiteralValue(Expr::RangeFloat(_)) => true,
            _ => false,
        },
        Kind::RangeInt => match v {
            ValueType::DataValue(Value::RangeInt(..)) => true,
            ValueType::LiteralValue(Expr::RangeInt(_)) => true,
            _ => false,
        },
        Kind::List => match v {
            ValueType::DataValue(Value::List(..)) => true,
            ValueType::LiteralValue(Expr::Array(_)) => true,
            _ => false,
        },
        Kind::Mapping => match v {
            ValueType::DataValue(Value::Mapping(..)) => true,
            ValueType::LiteralValue(Expr::Mapping(_)) => true,
            _ => false,
        },
    }
}

/// Whether there are values and all are of the kind.
pub open spec fn kind_outcome(vec: Seq<Item>, kind: Kind) -> bool {
    vec.len() > 0 && forall|i: int| 0 <= i < vec.len() ==> of_kind(#[trigger] vec[i], kind)
}

pub fn match_is_kind(vec: &Vec<ValueType<'_>>, kind: Kind) -> (r: bool)
    ensures
        r == kind_outcome(items_of(vec@), kind),
{
    proof {
        lemma_items_of(vec@);
    }
    if vec.len() == 0 {
        return false;
    }
    let mut i: usize = 0;
    while i < vec.len()
        invariant
            i <= vec@.len(),
            vec@.len() > 0,
            forall|k: int| 0 <= k < i ==> of_kind(#[trigger] items_of(vec@)[k], kind),
        decreases vec@.len() - i,
    {
        proof {
            lemma_items_of(vec@);
        }
        if !of_kind_exec(&vec[i], kind) {
            proof {
                assert(!of_kind(items_of(vec@)[i as int], kind));
            }
            return false;
        }
        i = i + 1;
    }
    true
}

pub fn match_is_string(vec: Vec<ValueType<'_>>) -> (r: bool)
    ensures
        r == kind_outcome(items_of(vec@), Kind::String),
{
    match_is_kind(&vec, Kind::String)
}

pub fn match_is_float(vec: Vec<ValueType<'_>>) -> (r: bool)
    ensures
        r == kind_outcome(items_of(vec@), Kind::Float),
{
    match_is_kind(&vec, Kind::Float)
}

pub fn match_is_bool(vec: Vec<ValueType<'_>>) -> (r: bool)
    ensures
        r == kind_outcome(items_of(vec@), Kind::Bool),
{
    match_is_kind(&vec, Kind::Bool)
}

pub fn match_is_int(vec: Vec<ValueType<'_>>) -> (r: bool)
    ensures
        r == kind_outcome(items_of(vec@), Kind::Int),
{
    match_is_kind(&vec, Kind::Int)
}

pub fn match_is_regex(vec: Vec<ValueType<'_>>) -> (r: bool)
    ensures
        r == kind_outcome(items_of(vec@), Kind::Regex),
{
    match_is_kind(&vec, Kind::Regex)
}

pub fn match_is_null(vec: Vec<ValueType<'_>>) -> (r: bool)
    ensures
        r == kind_outcome(items_of(vec@), Kind::Null),
{
    match_is_kind(&vec, Kind::Null)
}

pub fn match_is_range_float(vec: Vec<ValueType<'_>>) -> (r: bool)
    ensures
        r == kind_outcome(items_of(vec@), Kind::RangeFloat),
{
    match_is_kind(&vec, Kind::RangeFloat)
}

pub fn match_is_range_int(vec: Vec<ValueType<'_>>) -> (r: bool)
    ensures
        r == kind_outcome(items_of(vec@), Kind::RangeInt),
{
    match_is_kind(&vec, Kind::RangeInt)
}

pub fn match_is_list(vec: Vec<ValueType<'_>>) -> (r: bool)
    ensures
        r == kind_outcome(items_of(vec@), Kind::List),
{
    match_is_kind(&vec, Kind::List)
}

pub fn match_is_map(vec: Vec<ValueType<'_>>) -> (r: bool)
    ensures
        r == kind_outcome(items_of(vec@), Kind::Mapping),
{
    match_is_kind(&vec, Kind::Mapping)
}

/// What a unary check answers on the values of a query: `exists` whether
/// there are any, `empty` whether there are none or all are empty, the type
/// checks whether there are values and all are of the type, each with its
/// negation; other operators answer `false`.
pub open spec fn unary_outcome(vec: Seq<Item>, op: UnaryOperator) -> bool {
    match op {
        UnaryOperator::Exists => vec.len() > 0,
        UnaryOperator::Empty => empty_outcome(vec),
        UnaryOperator::NotExists => vec.len() == 0,
        UnaryOperator::NotEmpty => !empty_outcome(vec),
        UnaryOperator::IsString => kind_outcome(vec, Kind::String),
        UnaryOperator::IsList => kind_outcome(vec, Kind::List),
        UnaryOperator::IsMap => kind_outcome(vec, Kind::Mapping),
        UnaryOperator::IsInt => kind_outcome(vec, Kind::Int),
        UnaryOperator::IsFloat => kind_outcome(vec, Kind::Float),
        UnaryOperator::IsBool => kind_outcome(vec, Kind::Bool),
        UnaryOperator::IsRegex => kind_outcome(vec, Kind::Regex),
        UnaryOperator::IsNotString => !kind_outcome(vec, Kind::String),
        UnaryOperator::IsNotList => !kind_outcome(vec, Kind::List),
        UnaryOperator::IsNotMap => !kind_outcome(vec, Kind::Mapping),
        UnaryOperator::IsNotInt => !kind_outcome(vec, Kind::Int),
        UnaryOperator::IsNotFloat => !kind_outcome(vec, Kind::Float),
        UnaryOperator::IsNotBool => !kind_outcome(vec, Kind::Bool),
        UnaryOperator::IsNotRegex => !kind_outcome(vec, Kind::Regex),
        _ => false,
    }
}

pub fn check_unary_operator(vec: Vec<ValueType<'_>>, operation: UnaryOperator) -> (r: bool)
    ensures
        r == unary_outcome(items_of(vec@), operation),
{
    match operation {
        UnaryOperator::Exists => vec.len() > 0,
        UnaryOperator::Empty => match_empty(vec),
        UnaryOperator::NotExists => vec.len() == 0,
        UnaryOperator::NotEmpty => !match_empty(vec),
        UnaryOperator::IsString => match_is_string(vec),
        UnaryOperator::IsList => match_is_list(vec),
        UnaryOperator::IsMap => match_is_map(vec),
        UnaryOperator::IsInt => match_is_int(vec),
        UnaryOperator::IsFloat => match_is_float(vec),
        UnaryOperator::IsBool => match_is_bool(vec),
        UnaryOperator::IsRegex => match_is_regex(vec),
        UnaryOperator::IsNotString => !match_is_string(vec),
        UnaryOperator::IsNotList => !match_is_list(vec),
        UnaryOperator::IsNotMap => !match_is_map(vec),
        UnaryOperator::IsNotInt => !match_is_int(vec),
        UnaryOperator::IsNotFloat => !match_is_float(vec),
        UnaryOperator::IsNotBool => !match_is_bool(vec),
        UnaryOperator::IsNotRegex => !match_is_regex(vec),
        _ => false,
    }
}

} // verus!
