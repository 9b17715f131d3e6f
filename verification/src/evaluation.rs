//! Errors of expression evaluation.
use vstd::prelude::*;
use crate::errors::CoreError;

verus! {

/// Why an expression could not be evaluated.
#[derive(Debug, Clone, PartialEq, Eq)]
pub enum EvaluationError {
    MissingOperand(&'static str),
    DivisionByZero,
    TypeMismatch { expected: &'static str, actual: String },
    UnsupportedOperation(String),
    Core(CoreError),
}

impl From<CoreError> for EvaluationError {
    fn from(value: CoreError) -> (r: Self) {
        EvaluationError::Core(value)
    }
}

impl vstd::std_specs::convert::FromSpecImpl<CoreError> for EvaluationError {
    open spec fn obeys_from_spec() -> bool {
        true
    }

    open spec fn from_spec(value: CoreError) -> Self {
        EvaluationError::Core(value)
    }
}

} // verus!
