use vstd::prelude::*;

use crate::text::decimal_text;

verus! {

/// A 1-based (line, column) pair attached to every token.
#[derive(Debug, Clone, Copy, PartialEq, Eq, Structural)]
pub struct Position {
    pub line: usize,
    pub col: usize,
}

/// What went wrong, by phase.
#[derive(Debug, Clone, Copy, PartialEq, Eq, Structural)]
pub enum ErrorKind {
    InvalidCharacter,
    UnterminatedString,
    BadIndent,
    UnexpectedToken,
    UnexpectedEnd,
    ExpectedContent,
    ExpectedKind,
    IllegalAssignmentTarget,
    UnknownIdentifier,
    CallNonFun,
    NotIndexable,
    TypeMismatch,
    TypeMutation,
    Redeclared,
    ReturnTypeMismatch,
    OperatorTypeError,
    ArityMismatch,
}

/// The name of an error kind.
pub open spec fn kind_text(k: ErrorKind) -> Seq<char> {
    match k {
        ErrorKind::InvalidCharacter => "InvalidCharacter"@,
        ErrorKind::UnterminatedString => "UnterminatedString"@,
        ErrorKind::BadIndent => "BadIndent"@,
        ErrorKind::UnexpectedToken => "UnexpectedToken"@,
        ErrorKind::UnexpectedEnd => "UnexpectedEnd"@,
        ErrorKind::ExpectedContent => "ExpectedContent"@,
        ErrorKind::ExpectedKind => "ExpectedKind"@,
        ErrorKind::IllegalAssignmentTarget => "IllegalAssignmentTarget"@,
        ErrorKind::UnknownIdentifier => "UnknownIdentifier"@,
        ErrorKind::CallNonFun => "CallNonFun"@,
        ErrorKind::NotIndexable => "NotIndexable"@,
        ErrorKind::TypeMismatch => "TypeMismatch"@,
        ErrorKind::TypeMutation => "TypeMutation"@,
        ErrorKind::Redeclared => "Redeclared"@,
        ErrorKind::ReturnTypeMismatch => "ReturnTypeMismatch"@,
        ErrorKind::OperatorTypeError => "OperatorTypeError"@,
        ErrorKind::ArityMismatch => "ArityMismatch"@,
    }
}

/// The one-line form of an error: `<kind>: <message>`, then
/// ` @ line L col C` when the position is known.
pub open spec fn describe_text(e: ParserError) -> Seq<char> {
    let head = kind_text(e.kind) + ": "@ + e.message@;
    match e.position {
        Some(p) => head + " @ line "@ + decimal_text(p.line as nat) + " col "@ + decimal_text(p.col as nat),
        None => head,
    }
}

/// An error value: its kind, a free-form message and, where known, the
/// position of the offending token.
#[derive(Debug, Clone)]
pub struct ParserError {
    pub kind: ErrorKind,
    pub message: String,
    pub position: Option<Position>,
}

impl ParserError {
    pub fn new(kind: ErrorKind, message: &str) -> (r: ParserError)
        ensures
            r.kind == kind,
            r.message@ == message@,
            r.position is None,
    {
        ParserError { kind, message: String::from_str(message), position: None }
    }

    pub fn new_pos(kind: ErrorKind, position: Position, message: &str) -> (r: ParserError)
        ensures
            r.kind == kind,
            r.message@ == message@,
            r.position == Some(position),
    {
        ParserError { kind, message: String::from_str(message), position: Some(position) }
    }

    /// The error as one line: `<kind>: <message> @ line L col C`.
    pub fn describe(&self) -> (r: String)
        ensures
            r@ == describe_text(*self),
    {
        let mut out = String::from_str(kind_name(self.kind));
        out.append(": ");
        out.append(self.message.as_str());
        match self.position {
            Some(p) => {
                out.append(" @ line ");
                let l = crate::text::decimal(p.line);
                out.append(l.as_str());
                out.append(" col ");
                let c = crate::text::decimal(p.col);
                out.append(c.as_str());
            },
            None => {},
        }
        out
    }
}

/// The name of an error kind.
pub fn kind_name(k: ErrorKind) -> (r: &'static str)
    ensures
        r@ == kind_text(k),
{
    match k {
        ErrorKind::InvalidCharacter => "InvalidCharacter",
        ErrorKind::UnterminatedString => "UnterminatedString",
        ErrorKind::BadIndent => "BadIndent",
        ErrorKind::UnexpectedToken => "UnexpectedToken",
        ErrorKind::UnexpectedEnd => "UnexpectedEnd",
        ErrorKind::ExpectedContent => "ExpectedContent",
        ErrorKind::ExpectedKind => "ExpectedKind",
        ErrorKind::IllegalAssignmentTarget => "IllegalAssignmentTarget",
        ErrorKind::UnknownIdentifier => "UnknownIdentifier",
        ErrorKind::CallNonFun => "CallNonFun",
        ErrorKind::NotIndexable => "NotIndexable",
        ErrorKind::TypeMismatch => "TypeMismatch",
        ErrorKind::TypeMutation => "TypeMutation",
        ErrorKind::Redeclared => "Redeclared",
        ErrorKind::ReturnTypeMismatch => "ReturnTypeMismatch",
        ErrorKind::OperatorTypeError => "OperatorTypeError",
        ErrorKind::ArityMismatch => "ArityMismatch",
    }
}

} // verus!
