//! Error taxonomy: parse-time and evaluation-time failures.

use vstd::prelude::*;
use vstd::string::StringExecFns;

verus! {

/// A failure while handling one line of input.
///
/// `Parse` covers lexing and parsing failures (unmatched delimiter,
/// malformed numeric literal, malformed word-definition header); `Eval`
/// covers evaluation failures (stack underflow, operator type mismatch,
/// an `If` with no later `Forward`, a missing operand to `Do`). `Msg`
/// carries a free-form diagnostic for callers that want to attach one.
#[derive(Debug, Clone, PartialEq)]
pub enum ErrorType {
    Parse,
    Eval,
    Msg(String),
}

impl ErrorType {
    /// A one-line human-readable description of the error kind.
    pub fn message(&self) -> (r: String)
        ensures
            self is Parse ==> r@ == "Couldn't parse"@,
            self is Eval ==> r@ == "Couldn't eval"@,
            self matches ErrorType::Msg(m) ==> r@ == m@,
    {
        match self {
            ErrorType::Parse => String::from_str("Couldn't parse"),
            ErrorType::Eval => String::from_str("Couldn't eval"),
            ErrorType::Msg(m) => m.clone(),
        }
    }
}

} // verus!
