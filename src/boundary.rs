use vstd::prelude::*;

use crate::codec::{decode_term, encode_value, from_value, to_value};
use crate::term::Term;
use crate::value::Value;

verus! {

/// What a call across the boundary reports when it cannot complete; the
/// conversion's own error kinds do not pass beyond it.
#[derive(Debug, Clone, Copy, PartialEq, Eq, Structural)]
pub enum BoundaryError {
    /// The context term cannot be converted into a value.
    UnsupportedType,
    /// The expression engine failed to evaluate the expression.
    ExecutionError,
    /// The engine's result cannot be converted into a term.
    InvalidResult,
}

/// Reads the evaluation context of a call from its term.
pub fn decode_context(term: &Term) -> (r: Result<Value, BoundaryError>)
    ensures
        match decode_term(term@) {
            Ok(v) => r matches Ok(w) && w@ == v,
            Err(_) => r == Err::<Value, BoundaryError>(BoundaryError::UnsupportedType),
        },
{
    match to_value(term) {
        Ok(v) => Ok(v),
        Err(_) => Err(BoundaryError::UnsupportedType),
    }
}

/// Turns the engine's result into the term that the call returns.
pub fn encode_result(value: &Value) -> (r: Result<Term, BoundaryError>)
    ensures
        match encode_value(value@) {
            Ok(t) => r matches Ok(u) && u@ == t,
            Err(_) => r == Err::<Term, BoundaryError>(BoundaryError::InvalidResult),
        },
{
    match from_value(value) {
        Ok(t) => Ok(t),
        Err(_) => Err(BoundaryError::InvalidResult),
    }
}

} // verus!
