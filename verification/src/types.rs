//! Locations, ranges and the language-level errors.
use vstd::prelude::*;
use crate::text::{push_str, usize_to_decimal, decimal_digits};

verus! {

/// Where an expression starts inside a Guard file: a 1-based line and a
/// 1-based column.
#[derive(Debug, PartialEq, Eq, Structural, Clone, Copy)]
pub struct Location {
    pub row: usize,
    pub column: usize,
}

impl Location {
    pub fn new(row: u32, column: usize) -> (r: Location)
        ensures
            r.row == row,
            r.column == column,
    {
        Location { row: row as usize, column }
    }

    pub fn row(&self) -> (r: usize)
        ensures
            r == self.row,
    {
        self.row
    }

    pub fn column(&self) -> (r: usize)
        ensures
            r == self.column,
    {
        self.column
    }

    /// The text `Line = <row>, Column = <column>`.
    pub open spec fn display_text(self) -> Seq<char> {
        "Line = "@ + decimal_digits(self.row as nat) + ", Column = "@ + decimal_digits(
            self.column as nat,
        )
    }

    /// The location as it is shown to users: `Line = <row>, Column = <column>`.
    pub fn to_display_string(&self) -> (r: String)
        ensures
            r@ == self.display_text(),
    {
        let mut s = String::new();
        push_str(&mut s, "Line = ");
        let row = usize_to_decimal(self.row);
        push_str(&mut s, row.as_str());
        push_str(&mut s, ", Column = ");
        let col = usize_to_decimal(self.column);
        push_str(&mut s, col.as_str());
        proof {
            reveal_strlit("Line = ");
            reveal_strlit(", Column = ");
            assert(s@ =~= self.display_text());
        }
        s
    }
}

/// A contiguous range of ordered values. `inclusive` holds
/// `LOWER_INCLUSIVE` when the lower bound belongs to the range and
/// `UPPER_INCLUSIVE` when the upper bound does; `r[1, 2)` is written with a
/// square bracket on the inclusive side and a round one on the exclusive
/// side.
#[derive(Debug, PartialEq, Eq, Clone)]
pub struct RangeType<T> {
    pub upper: T,
    pub lower: T,
    pub inclusive: u8,
}

pub const LOWER_INCLUSIVE: u8 = 1u8;

pub const UPPER_INCLUSIVE: u8 = 2u8;

/// Values with a total order that ranges can be built over.
pub trait Ordered: Sized {
    spec fn ord_le(&self, other: &Self) -> bool;

    spec fn ord_lt(&self, other: &Self) -> bool;

    fn less_eq(&self, other: &Self) -> (r: bool)
        ensures
            r == self.ord_le(other),
    ;

    fn less(&self, other: &Self) -> (r: bool)
        ensures
            r == self.ord_lt(other),
    ;
}

impl Ordered for i64 {
    open spec fn ord_le(&self, other: &Self) -> bool {
        *self <= *other
    }

    open spec fn ord_lt(&self, other: &Self) -> bool {
        *self < *other
    }

    fn less_eq(&self, other: &Self) -> (r: bool) {
        *self <= *other
    }

    fn less(&self, other: &Self) -> (r: bool) {
        *self < *other
    }
}

impl Ordered for char {
    open spec fn ord_le(&self, other: &Self) -> bool {
        *self <= *other
    }

    open spec fn ord_lt(&self, other: &Self) -> bool {
        *self < *other
    }

    fn less_eq(&self, other: &Self) -> (r: bool) {
        *self <= *other
    }

    fn less(&self, other: &Self) -> (r: bool) {
        *self < *other
    }
}

/// Whether a range's flags say its lower bound is included.
pub open spec fn lower_included(inclusive: u8) -> bool {
    inclusive & LOWER_INCLUSIVE != 0
}

/// Whether a range's flags say its upper bound is included.
pub open spec fn upper_included(inclusive: u8) -> bool {
    inclusive & UPPER_INCLUSIVE != 0
}

/// Membership of `x` in a range: above the lower bound (or on it, when the
/// lower bound is included) and below the upper bound (or on it, when the
/// upper bound is included).
pub open spec fn in_range<T: Ordered>(range: RangeType<T>, x: T) -> bool {
    &&& if lower_included(range.inclusive) {
        range.lower.ord_le(&x)
    } else {
        range.lower.ord_lt(&x)
    }
    &&& if upper_included(range.inclusive) {
        x.ord_le(&range.upper)
    } else {
        x.ord_lt(&range.upper)
    }
}

/// Whether `other` lies inside `range`.
pub fn is_within<T: Ordered>(range: &RangeType<T>, other: &T) -> (r: bool)
    ensures
        r == in_range(*range, *other),
{
    let lower = if (range.inclusive & LOWER_INCLUSIVE) > 0 {
        range.lower.less_eq(other)
    } else {
        range.lower.less(other)
    };
    let upper = if (range.inclusive & UPPER_INCLUSIVE) > 0 {
        other.less_eq(&range.upper)
    } else {
        other.less(&range.upper)
    };
    lower && upper
}

/// Types whose values can be tested for membership in a range of them.
pub trait WithinRange: Sized {
    fn is_within(&self, range: &RangeType<Self>) -> bool;
}

impl WithinRange for i64 {
    fn is_within(&self, range: &RangeType<i64>) -> (r: bool)
        ensures
            r == in_range(*range, *self),
    {
        is_within(range, self)
    }
}

impl WithinRange for char {
    fn is_within(&self, range: &RangeType<char>) -> (r: bool)
        ensures
            r == in_range(*range, *self),
    {
        is_within(range, self)
    }
}

/// A failure to parse Guard text: what went wrong, and where.
#[derive(Debug)]
pub struct ParseError {
    pub message: String,
    pub location: Location,
}

impl ParseError {
    pub fn new(location: Location, message: String) -> (r: ParseError)
        ensures
            r.location == location,
            r.message@ == message@,
    {
        ParseError { location, message }
    }

    /// The same error with its message replaced.
    pub fn message(self, msg: String) -> (r: ParseError)
        ensures
            r.message@ == msg@,
            r.location == self.location,
    {
        ParseError { message: msg, location: self.location }
    }

    /// The same error with its location replaced.
    pub fn location(self, location: Location) -> (r: ParseError)
        ensures
            r.message@ == self.message@,
            r.location == location,
    {
        ParseError { message: self.message, location }
    }

    pub fn get_message(&self) -> (r: &str)
        ensures
            r@ == self.message@,
    {
        self.message.as_str()
    }

    pub fn get_location(&self) -> (r: &Location)
        ensures
            *r == self.location,
    {
        &self.location
    }

    /// `Error parsing at <location>. Reason <message>`.
    pub open spec fn display_text(self) -> Seq<char> {
        "Error parsing at "@ + self.location.display_text() + ". Reason "@ + self.message@
    }

    /// The error as it is shown to users:
    /// `Error parsing at <location>. Reason <message>`.
    pub fn to_display_string(&self) -> (r: String)
        ensures
            r@ == self.display_text(),
    {
        let mut s = String::new();
        push_str(&mut s, "Error parsing at ");
        let loc = self.location.to_display_string();
        push_str(&mut s, loc.as_str());
        push_str(&mut s, ". Reason ");
        push_str(&mut s, self.message.as_str());
        s
    }
}

#[verifier::external_type_specification]
#[verifier::external_body]
pub struct ExIoError(std::io::Error);

/// Errors of the language: a parse error with its location and reason, or
/// an error from reading files.
#[derive(Debug)]
pub enum LangError {
    ParseError(ParseError),
    IoError(std::io::Error),
}

/// The message of an I/O error as `std::io::Error`'s `Display` shows it;
/// nothing is promised of the text, which comes from the system.
#[verifier::external_body]
pub(crate) fn io_error_text(e: &std::io::Error) -> (r: String) {
    format!("{}", e)
}

impl LangError {
    /// The error as it is shown to users: a parse error as
    /// `ParseError::to_display_string` shows it, an I/O error by its message.
    pub fn to_display_string(&self) -> (r: String)
        ensures
            self matches LangError::ParseError(p) ==> r@ == p.display_text(),
    {
        match self {
            LangError::ParseError(p) => p.to_display_string(),
            LangError::IoError(e) => io_error_text(e),
        }
    }
}

} // verus!
