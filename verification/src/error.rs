//! Interpreter failures.

use vstd::prelude::*;
use vstd::string::StringExecFns;

use crate::text::{cat, owned};

verus! {

/// A source position: the file and the byte span an expression came from.
#[derive(Clone, Copy, Debug, PartialEq, Eq)]
pub struct Location {
    pub file: u32,
    pub start: u32,
    pub end: u32,
}

impl Location {
    /// The position used where none is known.
    pub fn dummy() -> (r: Location)
        ensures
            r.file == 0 && r.start == 0 && r.end == 0,
    {
        Location { file: 0, start: 0, end: 0 }
    }
}

/// A failure encountered while interpreting a program.
///
/// `AssertionFailed` is the oracle's signal: a program's own `assert`s encode its expected
/// results, so a failed assertion means the program does not compute what the source claims.
#[derive(Debug)]
pub enum InterpretError {
    /// `assert`/`constrain` evaluated to false.
    AssertionFailed { location: Location, message: Option<String> },
    /// Checked integer arithmetic overflowed the operand type.
    Overflow(String),
    /// Integer or field division by zero.
    DivisionByZero,
    /// Runtime value outside the range its operation admits.
    ValueOutOfRange(String),
    /// Caller input that does not match the program.
    InvalidInput(String),
    /// Runtime type mismatch indicating an invalid program or interpreter bug.
    Type(String),
    /// A construct the interpreter does not handle.
    Unsupported(String),
    /// Interpreter invariant violated.
    Internal(String),
}

/// What an error says, with its texts as character sequences.
pub enum ErrorModel {
    AssertionFailed(Location, Option<Seq<char>>),
    Overflow(Seq<char>),
    DivisionByZero,
    ValueOutOfRange(Seq<char>),
    InvalidInput(Seq<char>),
    Type(Seq<char>),
    Unsupported(Seq<char>),
    Internal(Seq<char>),
}

impl InterpretError {
    /// What this error says.
    pub open spec fn model(&self) -> ErrorModel {
        match self {
            InterpretError::AssertionFailed { location, message } => ErrorModel::AssertionFailed(
                *location,
                match message {
                    Some(m) => Some(m@),
                    None => None,
                },
            ),
            InterpretError::Overflow(m) => ErrorModel::Overflow(m@),
            InterpretError::DivisionByZero => ErrorModel::DivisionByZero,
            InterpretError::ValueOutOfRange(m) => ErrorModel::ValueOutOfRange(m@),
            InterpretError::InvalidInput(m) => ErrorModel::InvalidInput(m@),
            InterpretError::Type(m) => ErrorModel::Type(m@),
            InterpretError::Unsupported(m) => ErrorModel::Unsupported(m@),
            InterpretError::Internal(m) => ErrorModel::Internal(m@),
        }
    }
}

/// The one-line message an error displays as.
pub open spec fn error_message(e: InterpretError) -> Seq<char> {
    match e {
        InterpretError::AssertionFailed { message, .. } => match message {
            Some(m) => "assertion failed: "@ + m@,
            None => "assertion failed"@,
        },
        InterpretError::Overflow(op) => "integer overflow in "@ + op@,
        InterpretError::DivisionByZero => "division by zero"@,
        InterpretError::ValueOutOfRange(m) => "value out of range: "@ + m@,
        InterpretError::InvalidInput(m) => "invalid input: "@ + m@,
        InterpretError::Type(m) => "type error: "@ + m@,
        InterpretError::Unsupported(m) => "unsupported construct: "@ + m@,
        InterpretError::Internal(m) => "internal interpreter error: "@ + m@,
    }
}

impl InterpretError {
    /// The message this error displays as.
    pub fn to_message(&self) -> (r: String)
        ensures
            r@ == error_message(*self),
    {
        match self {
            InterpretError::AssertionFailed { message, .. } => match message {
                Some(m) => cat("assertion failed: ", m.as_str()),
                None => owned("assertion failed"),
            },
            InterpretError::Overflow(op) => cat("integer overflow in ", op.as_str()),
            InterpretError::DivisionByZero => owned("division by zero"),
            InterpretError::ValueOutOfRange(m) => cat("value out of range: ", m.as_str()),
            InterpretError::InvalidInput(m) => cat("invalid input: ", m.as_str()),
            InterpretError::Type(m) => cat("type error: ", m.as_str()),
            InterpretError::Unsupported(m) => cat("unsupported construct: ", m.as_str()),
            InterpretError::Internal(m) => cat("internal interpreter error: ", m.as_str()),
        }
    }
}

} // verus!
