//! Located errors.

use crate::error::span::Span;
use crate::error::trace::TraceError;
use vstd::prelude::*;

verus! {

/// Where an error lies: at one position, or from one position to another,
/// each a line and a column.
#[derive(PartialEq, Eq, Debug, Clone, Copy)]
pub enum LineColLocation {
    Pos((usize, usize)),
    Span((usize, usize), (usize, usize)),
}

/// The ways in which binding fails.
#[derive(PartialEq, Eq, Debug, Clone, Copy)]
pub enum ErrorKind {
    /// An identifier is used as a value and no variable of that name is
    /// visible.
    UnresolvedVariable,
    /// A call's name spells no visible function, in any tense.
    UnresolvedFunction,
    /// A variable declaration has more names than values, or fewer.
    ArityMismatch,
    /// The binder does not handle a node of this shape.
    UnsupportedConstruct,
}

/// An error at a place in the source.
#[derive(PartialEq, Eq, Debug)]
pub struct Error {
    /// The kind of failure. `None` on an error that only gives the context
    /// of another, and on the errors of other stages.
    pub kind: Option<ErrorKind>,
    /// Where the error lies.
    pub location: LineColLocation,
    /// The source line that the location starts on.
    pub line: String,
    /// What went wrong.
    pub message: String,
}

/// What an error holds, as mathematical values.
pub struct ErrorView {
    pub kind: Option<ErrorKind>,
    pub location: LineColLocation,
    pub line: Seq<char>,
    pub message: Seq<char>,
}

impl View for Error {
    type V = ErrorView;

    open spec fn view(&self) -> ErrorView {
        ErrorView {
            kind: self.kind,
            location: self.location,
            line: self.line@,
            message: self.message@,
        }
    }
}

/// The error of the given kind that covers `span`.
pub open spec fn error_at(kind: Option<ErrorKind>, span: Span, message: Seq<char>) -> ErrorView {
    ErrorView {
        kind,
        location: LineColLocation::Span(span.start, span.end),
        line: span.line@,
        message,
    }
}

impl Error {
    /// An error of the given kind that covers `span`.
    pub fn new(kind: Option<ErrorKind>, span: &Span, message: String) -> (err: Self)
        ensures
            err@ == error_at(kind, *span, message@),
    {
        Error {
            kind,
            location: LineColLocation::Span(span.start, span.end),
            line: span.line.clone(),
            message,
        }
    }
}

impl TraceError for Error {
    fn from_span(span: Span, message: &str) -> (err: Self)
        ensures
            err@ == error_at(None, span, message@),
    {
        Error::new(None, &span, message.to_owned())
    }

    fn kind(&self) -> (kind: Option<ErrorKind>)
        ensures
            kind == self.kind,
    {
        self.kind
    }

    fn line_col(&self) -> (location: LineColLocation)
        ensures
            location == self.location,
    {
        self.location
    }

    fn line(&self) -> (line: &str)
        ensures
            line@ == self.line@,
    {
        self.line.as_str()
    }

    fn message(&self) -> (message: &str)
        ensures
            message@ == self.message@,
    {
        self.message.as_str()
    }
}

} // verus!
