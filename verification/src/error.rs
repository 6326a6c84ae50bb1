//! The error taxonomy: parse errors and runtime errors, with their ghost
//! models.  A return signal is never represented here — control flow and
//! failure use different channels throughout (see `interpreter`).
use vstd::prelude::*;

verus! {

/// The ghost model of a runtime error.
pub ghost enum GErr {
    /// A name was read or assigned that no reachable scope defines.
    UndefinedVariable { name: Seq<char>, line: int },
    /// An operator was applied to operands of the wrong kind; carries the
    /// operator's lexeme.
    TypeError { operator: Seq<char>, line: int },
    /// Something other than a function was called.
    NotCallable { line: int },
    /// A call supplied the wrong number of arguments.
    ArityMismatch { expected: int, got: int, line: int },
    /// Integer division by zero.
    DivisionByZero { line: int },
    /// An arithmetic result fell outside the representable number range.
    Overflow { line: int },
    /// The step budget ran out: the program looped or recursed deeper
    /// than the interpreter's resource bound allows.
    ResourceExhausted,
}

/// A runtime error, produced by the interpreter instead of aborting; the
/// host decides how to report it.
#[derive(Debug)]
pub enum RuntimeError {
    UndefinedVariable { name: String, line: usize },
    TypeError { operator: String, line: usize },
    NotCallable { line: usize },
    ArityMismatch { expected: usize, got: usize, line: usize },
    DivisionByZero { line: usize },
    Overflow { line: usize },
    ResourceExhausted,
}

impl View for RuntimeError {
    type V = GErr;

    open spec fn view(&self) -> GErr {
        match self {
            RuntimeError::UndefinedVariable { name, line } => GErr::UndefinedVariable {
                name: name@,
                line: *line as int,
            },
            RuntimeError::TypeError { operator, line } => GErr::TypeError {
                operator: operator@,
                line: *line as int,
            },
            RuntimeError::NotCallable { line } => GErr::NotCallable { line: *line as int },
            RuntimeError::ArityMismatch { expected, got, line } => GErr::ArityMismatch {
                expected: *expected as int,
                got: *got as int,
                line: *line as int,
            },
            RuntimeError::DivisionByZero { line } => GErr::DivisionByZero { line: *line as int },
            RuntimeError::Overflow { line } => GErr::Overflow { line: *line as int },
            RuntimeError::ResourceExhausted => GErr::ResourceExhausted,
        }
    }
}

/// A parse failure: the source line of the offending token and what was
/// expected there.  Parsing aborts at the first such failure but returns
/// it as a value, so a host can report it and carry on.
#[derive(Debug)]
pub struct ParseError {
    pub line: usize,
    pub message: String,
}

} // verus!
