//! Visiting expressions: a visitor gets the expression and the node of its
//! variant, and by default hands every variant to `visit_any`.
use vstd::prelude::*;
use crate::exprs::{
    Expr,
    FileExpr,
    RuleExpr,
    RuleClauseExpr,
    LetExpr,
    WhenExpr,
    QueryExpr,
    BinaryExpr,
    UnaryExpr,
    ArrayExpr,
    MapExpr,
    StringExpr,
    RegexExpr,
    CharExpr,
    BoolExpr,
    IntExpr,
    FloatExpr,
    RangeIntExpr,
    RangeFloatExpr,
    BlockExpr,
    BlockClauseExpr,
};
use crate::types::Location;

verus! {

pub trait Visitor<'expr>: Sized {
    type Value;

    type Error;

    /// Whether `r` is an answer the visitor may give for the expression,
    /// in the method of its variant or in `visit_any`. A visitor that does
    /// not say promises nothing.
    open spec fn answers(self, expr: Expr, r: Result<Self::Value, Self::Error>) -> bool {
        true
    }

    fn visit_file(self, expr: &'expr Expr, _value: &'expr FileExpr) -> (r: Result<Self::Value, Self::Error>)
        ensures
            self.answers(*expr, r),
    {
        self.visit_any(expr)
    }

    fn visit_rule(self, expr: &'expr Expr, _value: &'expr RuleExpr) -> (r: Result<Self::Value, Self::Error>)
        ensures
            self.answers(*expr, r),
    {
        self.visit_any(expr)
    }

    fn visit_rule_clause(self, expr: &'expr Expr, _value: &'expr RuleClauseExpr) -> (r: Result<Self::Value, Self::Error>)
        ensures
            self.answers(*expr, r),
    {
        self.visit_any(expr)
    }

    fn visit_let(self, expr: &'expr Expr, _value: &'expr LetExpr) -> (r: Result<Self::Value, Self::Error>)
        ensures
            self.answers(*expr, r),
    {
        self.visit_any(expr)
    }

    fn visit_when(self, expr: &'expr Expr, _value: &'expr WhenExpr) -> (r: Result<Self::Value, Self::Error>)
        ensures
            self.answers(*expr, r),
    {
        self.visit_any(expr)
    }

    fn visit_select(self, expr: &'expr Expr, _value: &'expr QueryExpr) -> (r: Result<Self::Value, Self::Error>)
        ensures
            self.answers(*expr, r),
    {
        self.visit_any(expr)
    }

    fn visit_binary_operation(self, expr: &'expr Expr, _value: &'expr BinaryExpr) -> (r: Result<Self::Value, Self::Error>)
        ensures
            self.answers(*expr, r),
    {
        self.visit_any(expr)
    }

    fn visit_unary_operation(self, expr: &'expr Expr, _value: &'expr UnaryExpr) -> (r: Result<Self::Value, Self::Error>)
        ensures
            self.answers(*expr, r),
    {
        self.visit_any(expr)
    }

    fn visit_array(self, expr: &'expr Expr, _value: &'expr ArrayExpr) -> (r: Result<Self::Value, Self::Error>)
        ensures
            self.answers(*expr, r),
    {
        self.visit_any(expr)
    }

    fn visit_map(self, expr: &'expr Expr, _value: &'expr MapExpr) -> (r: Result<Self::Value, Self::Error>)
        ensures
            self.answers(*expr, r),
    {
        self.visit_any(expr)
    }

    fn visit_null(self, expr: &'expr Expr, _value: &'expr Location) -> (r: Result<Self::Value, Self::Error>)
        ensures
            self.answers(*expr, r),
    {
        self.visit_any(expr)
    }

    fn visit_string(self, expr: &'expr Expr, _value: &'expr StringExpr) -> (r: Result<Self::Value, Self::Error>)
        ensures
            self.answers(*expr, r),
    {
        self.visit_any(expr)
    }

    fn visit_regex(self, expr: &'expr Expr, _value: &'expr RegexExpr) -> (r: Result<Self::Value, Self::Error>)
        ensures
            self.answers(*expr, r),
    {
        self.visit_any(expr)
    }

    fn visit_char(self, expr: &'expr Expr, _value: &'expr CharExpr) -> (r: Result<Self::Value, Self::Error>)
        ensures
            self.answers(*expr, r),
    {
        self.visit_any(expr)
    }

    fn visit_bool(self, expr: &'expr Expr, _value: &'expr BoolExpr) -> (r: Result<Self::Value, Self::Error>)
        ensures
            self.answers(*expr, r),
    {
        self.visit_any(expr)
    }

    fn visit_int(self, expr: &'expr Expr, _value: &'expr IntExpr) -> (r: Result<Self::Value, Self::Error>)
        ensures
            self.answers(*expr, r),
    {
        self.visit_any(expr)
    }

    fn visit_float(self, expr: &'expr Expr, _value: &'expr FloatExpr) -> (r: Result<Self::Value, Self::Error>)
        ensures
            self.answers(*expr, r),
    {
        self.visit_any(expr)
    }

    fn visit_range_int(self, expr: &'expr Expr, _value: &'expr RangeIntExpr) -> (r: Result<Self::Value, Self::Error>)
        ensures
            self.answers(*expr, r),
    {
        self.visit_any(expr)
    }

    fn visit_range_float(self, expr: &'expr Expr, _value: &'expr RangeFloatExpr) -> (r: Result<Self::Value, Self::Error>)
        ensures
            self.answers(*expr, r),
    {
        self.visit_any(expr)
    }

    fn visit_filter(self, expr: &'expr Expr, _value: &'expr BlockExpr) -> (r: Result<Self::Value, Self::Error>)
        ensures
            self.answers(*expr, r),
    {
        self.visit_any(expr)
    }

    fn visit_variable(self, expr: &'expr Expr, _value: &'expr StringExpr) -> (r: Result<Self::Value, Self::Error>)
        ensures
            self.answers(*expr, r),
    {
        self.visit_any(expr)
    }

    fn visit_variable_reference(self, expr: &'expr Expr, _value: &'expr StringExpr) -> (r: Result<Self::Value, Self::Error>)
        ensures
            self.answers(*expr, r),
    {
        self.visit_any(expr)
    }

    fn visit_block(self, expr: &'expr Expr, _value: &'expr BlockClauseExpr) -> (r: Result<Self::Value, Self::Error>)
        ensures
            self.answers(*expr, r),
    {
        self.visit_any(expr)
    }

    fn visit_any(self, expr: &'expr Expr) -> (r: Result<Self::Value, Self::Error>)
        ensures
            self.answers(*expr, r),
    ;
}

impl Expr {
    /// Hands the expression and its node to the visitor method of its
    /// variant, and gives back what that method answers.
    pub fn accept<'expr, V: Visitor<'expr>>(&'expr self, visitor: V) -> (r: Result<V::Value, V::Error>)
        ensures
            visitor.answers(*self, r),
    {
        match self {
            Expr::File(value_expr) => visitor.visit_file(self, value_expr),
            Expr::Rule(value_expr) => visitor.visit_rule(self, value_expr),
            Expr::RuleClause(value_expr) => visitor.visit_rule_clause(self, value_expr),
            Expr::Let(value_expr) => visitor.visit_let(self, value_expr),
            Expr::When(value_expr) => visitor.visit_when(self, value_expr),
            Expr::Select(value_expr) => visitor.visit_select(self, value_expr),
            Expr::BinaryOperation(value_expr) => visitor.visit_binary_operation(self, value_expr),
            Expr::UnaryOperation(value_expr) => visitor.visit_unary_operation(self, value_expr),
            Expr::Array(value_expr) => visitor.visit_array(self, value_expr),
            Expr::Mapping(value_expr) => visitor.visit_map(self, value_expr),
            Expr::Null(value_expr) => visitor.visit_null(self, value_expr),
            Expr::String(value_expr) => visitor.visit_string(self, value_expr),
            Expr::Regex(value_expr) => visitor.visit_regex(self, value_expr),
            Expr::Char(value_expr) => visitor.visit_char(self, value_expr),
            Expr::Bool(value_expr) => visitor.visit_bool(self, value_expr),
            Expr::Int(value_expr) => visitor.visit_int(self, value_expr),
            Expr::Float(value_expr) => visitor.visit_float(self, value_expr),
            Expr::RangeInt(value_expr) => visitor.visit_range_int(self, value_expr),
            Expr::RangeFloat(value_expr) => visitor.visit_range_float(self, value_expr),
            Expr::Filter(value_expr) => visitor.visit_filter(self, value_expr),
            Expr::Variable(value_expr) => visitor.visit_variable(self, value_expr),
            Expr::VariableReference(value_expr) => visitor.visit_variable_reference(self, value_expr),
            Expr::Block(value_expr) => visitor.visit_block(self, value_expr),
        }
    }
}

} // verus!
