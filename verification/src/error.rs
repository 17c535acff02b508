//! Errors reported by the design pipeline.
use vstd::prelude::*;

verus! {

/// Error categories of the design pipeline.
#[derive(Debug, Clone, PartialEq, Eq)]
pub enum CadError {
    /// Input that breaks a modelling rule.
    Validation(String),
    /// A referenced item does not exist.
    NotFound(String),
    /// A parametric expression that cannot be read.
    InvalidExpression(String),
}

/// The category of an error, without its message.
#[derive(Debug, Clone, Copy, PartialEq, Eq, Structural)]
pub enum ErrorKind {
    Validation,
    NotFound,
    InvalidExpression,
}

/// An error as contracts speak of it: its category and message text.
pub struct Fault {
    pub kind: ErrorKind,
    pub message: Seq<char>,
}

pub open spec fn fault(kind: ErrorKind, message: Seq<char>) -> Fault {
    Fault { kind, message }
}

pub open spec fn fault_of(e: CadError) -> Fault {
    match e {
        CadError::Validation(m) => fault(ErrorKind::Validation, m@),
        CadError::NotFound(m) => fault(ErrorKind::NotFound, m@),
        CadError::InvalidExpression(m) => fault(ErrorKind::InvalidExpression, m@),
    }
}

/// A result with its error taken as a [`Fault`].
pub open spec fn result_view<T>(r: Result<T, CadError>) -> Result<T, Fault> {
    match r {
        Ok(t) => Ok(t),
        Err(e) => Err(fault_of(e)),
    }
}

/// A copy of an error.
pub fn copy_error(e: &CadError) -> (c: CadError)
    ensures
        fault_of(c) == fault_of(*e),
{
    match e {
        CadError::Validation(m) => CadError::Validation(m.clone()),
        CadError::NotFound(m) => CadError::NotFound(m.clone()),
        CadError::InvalidExpression(m) => CadError::InvalidExpression(m.clone()),
    }
}

} // verus!
