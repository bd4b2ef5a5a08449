//! The abstract syntax of Guard rule files.
use vstd::prelude::*;
use crate::types::{Location, RangeType};

verus! {

/// Expressions of the Guard language.
#[derive(Debug)]
pub enum Expr {
    /// A rules file: its `let` assignments and its rules.
    File(Box<FileExpr>),
    /// `rule <name> [when <conditions>] { clauses }`
    Rule(Box<RuleExpr>),
    /// A reference to a named rule inside a clause, with optional
    /// parameters and an optional custom message.
    RuleClause(Box<RuleClauseExpr>),
    /// `let <name> = <value or query>`
    Let(Box<LetExpr>),
    /// `when <conditions> { clauses }`
    When(Box<WhenExpr>),
    /// `<query> { clauses }`: the clauses are evaluated for every selected value.
    Block(Box<BlockClauseExpr>),
    /// A dotted query such as `Resources.*.Properties`.
    Select(Box<QueryExpr>),
    /// A filter inside a query, `[ clauses ]`.
    Filter(Box<BlockExpr>),
    BinaryOperation(Box<BinaryExpr>),
    UnaryOperation(Box<UnaryExpr>),
    /// A list literal whose elements may be queries.
    Array(Box<ArrayExpr>),
    /// A key/value literal whose values may be queries.
    Mapping(Box<MapExpr>),
    Null(Box<Location>),
    String(Box<StringExpr>),
    Regex(Box<RegexExpr>),
    Bool(Box<BoolExpr>),
    Int(Box<IntExpr>),
    /// A floating point literal, kept as the decimal text it was written as.
    Float(Box<FloatExpr>),
    Char(Box<CharExpr>),
    /// A variable captured inside a filter, `[ name | ... ]`.
    Variable(Box<StringExpr>),
    /// A reference to a variable, `%name`.
    VariableReference(Box<StringExpr>),
    RangeInt(Box<RangeIntExpr>),
    RangeFloat(Box<RangeFloatExpr>),
}

#[derive(Debug, Clone, Copy, PartialEq, Eq, Structural)]
pub enum BinaryOperator {
    Equals,
    NotEquals,
    Greater,
    GreaterThanEquals,
    Lesser,
    LesserThanEquals,
    In,
    NotIn,
    Add,
    Or,
    And,
}

#[derive(Debug, Clone, Copy, PartialEq, Eq, Structural)]
pub enum UnaryOperator {
    Exists,
    Empty,
    IsString,
    IsList,
    IsMap,
    IsInt,
    IsFloat,
    IsBool,
    IsRegex,
    NotExists,
    NotEmpty,
    IsNotString,
    IsNotList,
    IsNotMap,
    IsNotInt,
    IsNotFloat,
    IsNotBool,
    IsNotRegex,
    Not,
    Any,
    AnyOne,
    Keys,
    Indices,
}

#[derive(Debug)]
pub struct FileExpr {
    pub name: String,
    pub assignments: Vec<LetExpr>,
    pub rules: Vec<RuleExpr>,
    pub location: Location,
}

impl FileExpr {
    pub fn new(name: String, assignments: Vec<LetExpr>, rules: Vec<RuleExpr>) -> (r: Self)
        ensures
            r.name@ == name@,
            r.assignments@ == assignments@,
            r.rules@ == rules@,
            r.location == (Location { row: 1, column: 1 }),
    {
        FileExpr { name, assignments, rules, location: Location::new(1, 1) }
    }

    pub fn name(&self) -> (r: &str)
        ensures
            r@ == self.name@,
    {
        self.name.as_str()
    }

    pub fn assignments(&self) -> (r: &[LetExpr])
        ensures
            r@ == self.assignments@,
    {
        self.assignments.as_slice()
    }

    pub fn rules(&self) -> (r: &[RuleExpr])
        ensures
            r@ == self.rules@,
    {
        self.rules.as_slice()
    }
}

#[derive(Debug)]
pub struct RuleExpr {
    pub name: String,
    pub when: Option<Expr>,
    pub parameters: Option<Vec<Expr>>,
    pub block: BlockExpr,
    pub location: Location,
}

impl RuleExpr {
    pub fn new(name: String, block: BlockExpr, location: Location) -> (r: RuleExpr)
        ensures
            r.name@ == name@,
            r.when.is_none(),
            r.parameters.is_none(),
            r.block == block,
            r.location == location,
    {
        Self::new_with_when(name, None, block, location)
    }

    pub fn new_with_when(name: String, when: Option<Expr>, block: BlockExpr, location: Location) -> (r:
        RuleExpr)
        ensures
            r.name@ == name@,
            r.when == when,
            r.parameters.is_none(),
            r.block == block,
            r.location == location,
    {
        Self::new_with_when_parameters(name, when, None, block, location)
    }

    pub fn new_with_when_parameters(
        name: String,
        when: Option<Expr>,
        parameters: Option<Vec<Expr>>,
        block: BlockExpr,
        location: Location,
    ) -> (r: RuleExpr)
        ensures
            r.name@ == name@,
            r.when == when,
            r.parameters == parameters,
            r.block == block,
            r.location == location,
    {
        RuleExpr { name, when, parameters, block, location }
    }

    pub fn name(&self) -> (r: &str)
        ensures
            r@ == self.name@,
    {
        self.name.as_str()
    }

    pub fn when(&self) -> (r: Option<&Expr>)
        ensures
            r == match &self.when {
                Some(e) => Some(e),
                None => None::<&Expr>,
            },
    {
        match &self.when {
            Some(e) => Some(e),
            None => None,
        }
    }

    pub fn block(&self) -> (r: &BlockExpr)
        ensures
            *r == self.block,
    {
        &self.block
    }

    pub fn location(&self) -> (r: &Location)
        ensures
            *r == self.location,
    {
        &self.location
    }

    pub fn parameters(&self) -> (r: Option<&[Expr]>)
        ensures
            r is Some <==> self.parameters is Some,
            r matches Some(p) ==> p@ == self.parameters->0@,
    {
        match &self.parameters {
            Some(p) => Some(p.as_slice()),
            None => None,
        }
    }
}

#[derive(Debug)]
pub struct RuleClauseExpr {
    pub name: String,
    pub parameters: Option<Vec<Expr>>,
    pub message: Option<String>,
    pub location: Location,
}

impl RuleClauseExpr {
    pub fn new(
        name: String,
        parameters: Option<Vec<Expr>>,
        location: Location,
        message: Option<String>,
    ) -> (r: Self)
        ensures
            r.name@ == name@,
            r.parameters == parameters,
            r.location == location,
            r.message == message,
    {
        RuleClauseExpr { name, parameters, message, location }
    }

    pub fn name(&self) -> (r: &str)
        ensures
            r@ == self.name@,
    {
        self.name.as_str()
    }

    pub fn location(&self) -> (r: &Location)
        ensures
            *r == self.location,
    {
        &self.location
    }
}

#[derive(Debug)]
pub struct WhenExpr {
    pub when: Expr,
    pub block: BlockExpr,
    pub location: Location,
}

impl WhenExpr {
    pub fn new(when: Expr, block: BlockExpr, location: Location) -> (r: Self)
        ensures
            r.when == when,
            r.block == block,
            r.location == location,
    {
        WhenExpr { when, block, location }
    }

    pub fn when(&self) -> (r: &Expr)
        ensures
            *r == self.when,
    {
        &self.when
    }

    pub fn block(&self) -> (r: &BlockExpr)
        ensures
            *r == self.block,
    {
        &self.block
    }

    pub fn location(&self) -> (r: &Location)
        ensures
            *r == self.location,
    {
        &self.location
    }
}

#[derive(Debug)]
pub struct ArrayExpr {
    pub elements: Vec<Expr>,
    pub location: Location,
}

impl ArrayExpr {
    pub fn new(elements: Vec<Expr>, location: Location) -> (r: ArrayExpr)
        ensures
            r.elements@ == elements@,
            r.location == location,
    {
        ArrayExpr { elements, location }
    }

    pub fn element(&self) -> (r: &[Expr])
        ensures
            r@ == self.elements@,
    {
        self.elements.as_slice()
    }

    pub fn location(&self) -> (r: &Location)
        ensures
            *r == self.location,
    {
        &self.location
    }
}

#[derive(Debug)]
pub struct BlockExpr {
    pub assignments: Vec<Expr>,
    pub clause: Expr,
    pub location: Location,
}

impl BlockExpr {
    pub fn new(assignments: Vec<Expr>, clause: Expr, location: Location) -> (r: BlockExpr)
        ensures
            r.assignments@ == assignments@,
            r.clause == clause,
            r.location == location,
    {
        BlockExpr { assignments, clause, location }
    }

    pub fn assignments(&self) -> (r: &[Expr])
        ensures
            r@ == self.assignments@,
    {
        self.assignments.as_slice()
    }

    pub fn location(&self) -> (r: &Location)
        ensures
            *r == self.location,
    {
        &self.location
    }

    pub fn clause(&self) -> (r: &Expr)
        ensures
            *r == self.clause,
    {
        &self.clause
    }
}

#[derive(Debug)]
pub struct BlockClauseExpr {
    pub select: QueryExpr,
    pub block: BlockExpr,
    pub message: Option<String>,
    pub location: Location,
}

impl BlockClauseExpr {
    pub fn new(select: QueryExpr, block: BlockExpr, location: Location) -> (r: Self)
        ensures
            r.select == select,
            r.block == block,
            r.location == location,
            r.message.is_none(),
    {
        Self::new_with_msg(select, block, location, None)
    }

    pub fn new_with_msg(
        select: QueryExpr,
        block: BlockExpr,
        location: Location,
        message: Option<String>,
    ) -> (r: Self)
        ensures
            r.select == select,
            r.block == block,
            r.location == location,
            r.message == message,
    {
        BlockClauseExpr { select, block, location, message }
    }

    pub fn select(&self) -> (r: &QueryExpr)
        ensures
            *r == self.select,
    {
        &self.select
    }

    pub fn location(&self) -> (r: &Location)
        ensures
            *r == self.location,
    {
        &self.location
    }

    pub fn clause(&self) -> (r: &BlockExpr)
        ensures
            *r == self.block,
    {
        &self.block
    }
}

#[derive(Debug)]
pub struct LetExpr {
    pub key: Option<String>,
    pub name: String,
    pub value: Expr,
    pub location: Location,
}

impl LetExpr {
    pub fn new(name: String, value: Expr, location: Location) -> (r: LetExpr)
        ensures
            r.key.is_none(),
            r.name@ == name@,
            r.value == value,
            r.location == location,
    {
        Self::new_with_key(None, name, value, location)
    }

    pub fn new_with_key(key: Option<String>, name: String, value: Expr, location: Location) -> (r:
        LetExpr)
        ensures
            r.key == key,
            r.name@ == name@,
            r.value == value,
            r.location == location,
    {
        LetExpr { key, name, value, location }
    }

    pub fn value(&self) -> (r: &Expr)
        ensures
            *r == self.value,
    {
        &self.value
    }

    pub fn location(&self) -> (r: &Location)
        ensures
            *r == self.location,
    {
        &self.location
    }

    pub fn name(&self) -> (r: &str)
        ensures
            r@ == self.name@,
    {
        self.name.as_str()
    }
}

#[derive(Debug)]
pub struct QueryExpr {
    pub parts: Vec<Expr>,
    pub location: Location,
}

impl QueryExpr {
    pub fn new(parts: Vec<Expr>, location: Location) -> (r: QueryExpr)
        ensures
            r.parts@ == parts@,
            r.location == location,
    {
        QueryExpr { parts, location }
    }

    pub fn parts(&self) -> (r: &[Expr])
        ensures
            r@ == self.parts@,
    {
        self.parts.as_slice()
    }

    pub fn location(&self) -> (r: &Location)
        ensures
            *r == self.location,
    {
        &self.location
    }
}

#[derive(Debug)]
pub struct BinaryExpr {
    pub operator: BinaryOperator,
    pub lhs: Expr,
    pub rhs: Expr,
    pub message: Option<String>,
    pub location: Location,
}

impl BinaryExpr {
    pub fn new(operator: BinaryOperator, lhs: Expr, rhs: Expr, location: Location) -> (r: BinaryExpr)
        ensures
            r.operator == operator,
            r.lhs == lhs,
            r.rhs == rhs,
            r.location == location,
            r.message.is_none(),
    {
        Self::new_with_msg(operator, lhs, rhs, location, None)
    }

    pub fn new_with_msg(
        operator: BinaryOperator,
        lhs: Expr,
        rhs: Expr,
        location: Location,
        message: Option<String>,
    ) -> (r: BinaryExpr)
        ensures
            r.operator == operator,
            r.lhs == lhs,
            r.rhs == rhs,
            r.location == location,
            r.message == message,
    {
        BinaryExpr { lhs, rhs, operator, location, message }
    }

    pub fn lhs(&self) -> (r: &Expr)
        ensures
            *r == self.lhs,
    {
        &self.lhs
    }

    pub fn rhs(&self) -> (r: &Expr)
        ensures
            *r == self.rhs,
    {
        &self.rhs
    }

    pub fn location(&self) -> (r: &Location)
        ensures
            *r == self.location,
    {
        &self.location
    }
}

#[derive(Debug)]
pub struct UnaryExpr {
    pub operator: UnaryOperator,
    pub expr: Expr,
    pub message: Option<String>,
    pub location: Location,
}

impl UnaryExpr {
    pub fn new(operator: UnaryOperator, expr: Expr, location: Location) -> (r: Self)
        ensures
            r.operator == operator,
            r.expr == expr,
            r.location == location,
            r.message.is_none(),
    {
        Self::new_with_msg(operator, expr, location, None)
    }

    pub fn new_with_msg(
        operator: UnaryOperator,
        expr: Expr,
        location: Location,
        message: Option<String>,
    ) -> (r: Self)
        ensures
            r.operator == operator,
            r.expr == expr,
            r.location == location,
            r.message == message,
    {
        UnaryExpr { operator, expr, location, message }
    }

    pub fn op(&self) -> (r: UnaryOperator)
        ensures
            r == self.operator,
    {
        self.operator
    }

    pub fn expr(&self) -> (r: &Expr)
        ensures
            *r == self.expr,
    {
        &self.expr
    }
}

/// The entries of a key/value literal, in the order they were written.
/// A key occurs at most once: writing a key again replaces its value in
/// place.
#[derive(Debug)]
pub struct MapExpr {
    pub entries: Vec<(String, Expr)>,
    pub location: Location,
}

impl MapExpr {
    pub fn new(entries: Vec<(String, Expr)>, location: Location) -> (r: Self)
        requires
            crate::assoc::keys_unique(entries@),
        ensures
            r.entries@ == entries@,
            r.location == location,
    {
        MapExpr { entries, location }
    }

    pub fn entries(&self) -> (r: &[(String, Expr)])
        ensures
            r@ == self.entries@,
    {
        self.entries.as_slice()
    }

    pub fn location(&self) -> (r: &Location)
        ensures
            *r == self.location,
    {
        &self.location
    }
}

#[derive(Debug)]
pub struct StringExpr {
    pub value: String,
    pub location: Location,
}

impl StringExpr {
    pub fn new(value: String, location: Location) -> (r: Self)
        ensures
            r.value@ == value@,
            r.location == location,
    {
        StringExpr { value, location }
    }

    pub fn value(&self) -> (r: &str)
        ensures
            r@ == self.value@,
    {
        self.value.as_str()
    }

    pub fn location(&self) -> (r: &Location)
        ensures
            *r == self.location,
    {
        &self.location
    }
}

#[derive(Debug)]
pub struct RegexExpr {
    pub value: String,
    pub location: Location,
}

impl RegexExpr {
    pub fn new(value: String, location: Location) -> (r: Self)
        ensures
            r.value@ == value@,
            r.location == location,
    {
        RegexExpr { value, location }
    }

    pub fn value(&self) -> (r: &str)
        ensures
            r@ == self.value@,
    {
        self.value.as_str()
    }

    pub fn location(&self) -> (r: &Location)
        ensures
            *r == self.location,
    {
        &self.location
    }
}

#[derive(Debug)]
pub struct BoolExpr {
    pub value: bool,
    pub location: Location,
}

impl BoolExpr {
    pub fn new(value: bool, location: Location) -> (r: Self)
        ensures
            r.value == value,
            r.location == location,
    {
        BoolExpr { value, location }
    }

    pub fn value(&self) -> (r: bool)
        ensures
            r == self.value,
    {
        self.value
    }

    pub fn location(&self) -> (r: &Location)
        ensures
            *r == self.location,
    {
        &self.location
    }
}

#[derive(Debug)]
pub struct IntExpr {
    pub value: i64,
    pub location: Location,
}

impl IntExpr {
    pub fn new(value: i64, location: Location) -> (r: Self)
        ensures
            r.value == value,
            r.location == location,
    {
        IntExpr { value, location }
    }

    pub fn value(&self) -> (r: i64)
        ensures
            r == self.value,
    {
        self.value
    }

    pub fn location(&self) -> (r: &Location)
        ensures
            *r == self.location,
    {
        &self.location
    }
}

/// A floating point literal, held as the decimal text it was written as
/// (for example `10.5`, `.5`, `1e-3`).
#[derive(Debug)]
pub struct FloatExpr {
    pub value: String,
    pub location: Location,
}

impl FloatExpr {
    pub fn new(value: String, location: Location) -> (r: Self)
        ensures
            r.value@ == value@,
            r.location == location,
    {
        FloatExpr { value, location }
    }

    pub fn value(&self) -> (r: &str)
        ensures
            r@ == self.value@,
    {
        self.value.as_str()
    }

    pub fn location(&self) -> (r: &Location)
        ensures
            *r == self.location,
    {
        &self.location
    }
}

#[derive(Debug)]
pub struct CharExpr {
    pub value: char,
    pub location: Location,
}

impl CharExpr {
    pub fn new(value: char, location: Location) -> (r: Self)
        ensures
            r.value == value,
            r.location == location,
    {
        CharExpr { value, location }
    }

    pub fn value(&self) -> (r: char)
        ensures
            r == self.value,
    {
        self.value
    }

    pub fn location(&self) -> (r: &Location)
        ensures
            *r == self.location,
    {
        &self.location
    }
}

#[derive(Debug)]
pub struct RangeIntExpr {
    pub value: RangeType<i64>,
    pub location: Location,
}

impl RangeIntExpr {
    pub fn new(value: RangeType<i64>, location: Location) -> (r: Self)
        ensures
            r.value == value,
            r.location == location,
    {
        RangeIntExpr { value, location }
    }

    pub fn value(&self) -> (r: &RangeType<i64>)
        ensures
            *r == self.value,
    {
        &self.value
    }

    pub fn location(&self) -> (r: &Location)
        ensures
            *r == self.location,
    {
        &self.location
    }
}

/// A range over floating point numbers; its bounds are held as decimal text.
#[derive(Debug)]
pub struct RangeFloatExpr {
    pub value: RangeType<String>,
    pub location: Location,
}

impl RangeFloatExpr {
    pub fn new(value: RangeType<String>, location: Location) -> (r: Self)
        ensures
            r.value == value,
            r.location == location,
    {
        RangeFloatExpr { value, location }
    }

    pub fn value(&self) -> (r: &RangeType<String>)
        ensures
            *r == self.value,
    {
        &self.value
    }

    pub fn location(&self) -> (r: &Location)
        ensures
            *r == self.location,
    {
        &self.location
    }
}

impl Expr {
    /// Where the expression starts.
    pub open spec fn location_of(&self) -> Location {
        match self {
            Expr::File(e) => e.location,
            Expr::Rule(e) => e.location,
            Expr::RuleClause(e) => e.location,
            Expr::Let(e) => e.location,
            Expr::When(e) => e.location,
            Expr::Block(e) => e.location,
            Expr::Select(e) => e.location,
            Expr::Filter(e) => e.location,
            Expr::BinaryOperation(e) => e.location,
            Expr::UnaryOperation(e) => e.location,
            Expr::Array(e) => e.location,
            Expr::Mapping(e) => e.location,
            Expr::Null(l) => **l,
            Expr::String(e) => e.location,
            Expr::Regex(e) => e.location,
            Expr::Bool(e) => e.location,
            Expr::Int(e) => e.location,
            Expr::Float(e) => e.location,
            Expr::Char(e) => e.location,
            Expr::Variable(e) => e.location,
            Expr::VariableReference(e) => e.location,
            Expr::RangeInt(e) => e.location,
            Expr::RangeFloat(e) => e.location,
        }
    }

    pub fn get_location(&self) -> (r: &Location)
        ensures
            *r == self.location_of(),
    {
        match self {
            Expr::File(e) => &e.location,
            Expr::Rule(e) => &e.location,
            Expr::RuleClause(e) => &e.location,
            Expr::Let(e) => &e.location,
            Expr::When(e) => &e.location,
            Expr::Block(e) => &e.location,
            Expr::Select(e) => &e.location,
            Expr::Filter(e) => &e.location,
            Expr::BinaryOperation(e) => &e.location,
            Expr::UnaryOperation(e) => &e.location,
            Expr::Array(e) => &e.location,
            Expr::Mapping(e) => &e.location,
            Expr::Null(l) => &**l,
            Expr::String(e) => &e.location,
            Expr::Regex(e) => &e.location,
            Expr::Bool(e) => &e.location,
            Expr::Int(e) => &e.location,
            Expr::Float(e) => &e.location,
            Expr::Char(e) => &e.location,
            Expr::Variable(e) => &e.location,
            Expr::VariableReference(e) => &e.location,
            Expr::RangeInt(e) => &e.location,
            Expr::RangeFloat(e) => &e.location,
        }
    }
}

} // verus!
