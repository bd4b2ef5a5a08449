//! The parser of the Guard language, working on the characters of a rules
//! text. Every parsing function takes the text and a position and answers
//! the position after what it read and the expression read there, a
//! recoverable `Error` (another alternative may be tried) or a `Failure`
//! (the text is malformed where it was committed to a construct).
use vstd::prelude::*;
use crate::types::{Location, ParseError};
use crate::text::{chars_of, to_owned_string, push_str, push_char};

pub mod lexical;
pub mod values;
pub mod grammar;
pub mod syntax;

verus! {

/// Rules text being parsed, with the name of the file it came from.
pub struct Span {
    pub chars: Vec<char>,
    pub file: String,
}

impl Span {
    /// The text fits the machine: its length is below the largest `usize`.
    pub open spec fn wf(&self) -> bool {
        self.chars@.len() < usize::MAX
    }

    pub fn new_extra(text: &str, file: &str) -> (r: Span)
        requires
            text@.len() < usize::MAX,
        ensures
            r.wf(),
            r.chars@ == text@,
            r.file@ == file@,
    {
        Span { chars: chars_of(text), file: to_owned_string(file) }
    }

    /// The text from `pos` to the end.
    pub fn fragment(&self, pos: usize) -> (r: String)
        requires
            pos <= self.chars@.len(),
        ensures
            r@ == self.chars@.subrange(pos as int, self.chars@.len() as int),
    {
        crate::text::string_from_range(&self.chars, pos, self.chars.len())
    }

    /// The location of the character at `pos`.
    pub fn location_at(&self, pos: usize) -> (r: Location)
        requires
            self.wf(),
            pos <= self.chars@.len(),
        ensures
            r == loc_at(self.chars@, pos as int),
    {
        let mut row: usize = 1;
        let mut column: usize = 1;
        let mut i: usize = 0;
        while i < pos
            invariant
                0 <= i <= pos <= self.chars@.len(),
                self.chars@.len() < usize::MAX,
                row <= i + 1,
                column <= i + 1,
                row == line_of(self.chars@, i as int),
                column == column_of(self.chars@, i as int),
            decreases pos - i,
        {
            if self.chars[i] == '\n' {
                row = row + 1;
                column = 1;
            } else {
                column = column + 1;
            }
            i = i + 1;
        }
        Location { row, column }
    }
}

/// The text as a span of a file with no name.
pub fn from_str2(in_str: &str) -> (r: Span)
    requires
        in_str@.len() < usize::MAX,
    ensures
        r.wf(),
        r.chars@ == in_str@,
        r.file@ == Seq::<char>::empty(),
{
    let r = Span::new_extra(in_str, "");
    proof {
        reveal_strlit("");
    }
    r
}

/// The 1-based line of the character at `pos`.
pub open spec fn line_of(s: Seq<char>, pos: int) -> nat
    decreases pos,
{
    if pos <= 0 {
        1
    } else if s[pos - 1] == '\n' {
        line_of(s, pos - 1) + 1
    } else {
        line_of(s, pos - 1)
    }
}

/// The 1-based column of the character at `pos`.
pub open spec fn column_of(s: Seq<char>, pos: int) -> nat
    decreases pos,
{
    if pos <= 0 {
        1
    } else if s[pos - 1] == '\n' {
        1
    } else {
        column_of(s, pos - 1) + 1
    }
}

pub open spec fn loc_at(s: Seq<char>, pos: int) -> Location {
    Location { row: line_of(s, pos) as usize, column: column_of(s, pos) as usize }
}

/// Why a parse did not succeed: `Error` lets an enclosing alternative try
/// something else, `Failure` stops the parse.
#[derive(Debug)]
pub enum ParseErr {
    Error(ParseError),
    Failure(ParseError),
}

pub type PResult<T> = Result<(usize, T), ParseErr>;

/// The outcome of a parse in terms of positions: where it ended, or where
/// it gave up with an error or a failure.
pub enum Outcome {
    Done(int),
    Error(int),
    Failure(int),
}

impl Outcome {
    pub open spec fn is_done(self) -> bool {
        self is Done
    }
}

/// Whether a parse result has the given outcome on the text `s`: an
/// ending position, or an error or failure located at the given position.
pub open spec fn has_outcome<T>(r: PResult<T>, s: Seq<char>, o: Outcome) -> bool {
    match (r, o) {
        (Ok((p, _)), Outcome::Done(q)) => p == q,
        (Err(ParseErr::Error(e)), Outcome::Error(q)) => e.location == loc_at(s, q),
        (Err(ParseErr::Failure(e)), Outcome::Failure(q)) => e.location == loc_at(s, q),
        _ => false,
    }
}

/// Whether a parse result, if it is a success, ends within the text after
/// its start position.
pub open spec fn ends_within<T>(r: PResult<T>, s: Seq<char>, pos: int) -> bool {
    r matches Ok((p, _)) ==> pos <= p <= s.len()
}

/// Whether a parse result, if it is a success, has read at least one character.
pub open spec fn advances<T>(r: PResult<T>, s: Seq<char>, pos: int) -> bool {
    r matches Ok((p, _)) ==> pos < p <= s.len()
}

/// A recoverable error at `pos`, whose message names the file and what was
/// expected there.
pub fn error_at(s: &Span, pos: usize, expected: &str) -> (r: ParseErr)
    requires
        s.wf(),
        pos <= s.chars@.len(),
    ensures
        r matches ParseErr::Error(e) && e.location == loc_at(s.chars@, pos as int) && e.message@
            == "File "@ + s.file@ + ", error "@ + expected@,
{
    ParseErr::Error(ParseError::new(s.location_at(pos), file_message(s, expected)))
}

/// A failure at `pos`, whose message names the file and what was expected there.
pub fn failure_at(s: &Span, pos: usize, expected: &str) -> (r: ParseErr)
    requires
        s.wf(),
        pos <= s.chars@.len(),
    ensures
        r matches ParseErr::Failure(e) && e.location == loc_at(s.chars@, pos as int) && e.message@
            == "File "@ + s.file@ + ", error "@ + expected@,
{
    ParseErr::Failure(ParseError::new(s.location_at(pos), file_message(s, expected)))
}

/// `File <file>, error <expected>`.
pub fn file_message(s: &Span, expected: &str) -> (r: String)
    ensures
        r@ == "File "@ + s.file@ + ", error "@ + expected@,
{
    let mut m = String::new();
    push_str(&mut m, "File ");
    push_str(&mut m, s.file.as_str());
    push_str(&mut m, ", error ");
    push_str(&mut m, expected);
    m
}

/// The same failure kind with a context note appended to its message.
pub fn add_context(e: ParseErr, ctx: &str) -> (r: ParseErr)
    ensures
        (e is Error) == (r is Error),
        match (e, r) {
            (ParseErr::Error(a), ParseErr::Error(b)) => a.location == b.location && b.message@
                == a.message@ + seq![' '] + ctx@,
            (ParseErr::Failure(a), ParseErr::Failure(b)) => a.location == b.location && b.message@
                == a.message@ + seq![' '] + ctx@,
            _ => false,
        },
{
    match e {
        ParseErr::Error(pe) => {
            let mut m = to_owned_string(pe.get_message());
            push_char(&mut m, ' ');
            push_str(&mut m, ctx);
            ParseErr::Error(pe.message(m))
        },
        ParseErr::Failure(pe) => {
            let mut m = to_owned_string(pe.get_message());
            push_char(&mut m, ' ');
            push_str(&mut m, ctx);
            ParseErr::Failure(pe.message(m))
        },
    }
}

/// Turns a recoverable error into a failure; successes and failures are
/// kept as they are.
pub fn cut<T>(r: PResult<T>) -> (out: PResult<T>)
    ensures
        match r {
            Ok((p, v)) => out == Ok::<(usize, T), ParseErr>((p, v)),
            Err(ParseErr::Error(e)) => out matches Err(ParseErr::Failure(f)) && f == e,
            Err(ParseErr::Failure(e)) => out matches Err(ParseErr::Failure(f)) && f == e,
        },
{
    match r {
        Ok(v) => Ok(v),
        Err(ParseErr::Error(e)) => Err(ParseErr::Failure(e)),
        Err(ParseErr::Failure(e)) => Err(ParseErr::Failure(e)),
    }
}

} // verus!
