//! What a refused call answers with.

use vstd::prelude::*;

verus! {

/// The kind of a refusal, as the protocol names it.
#[derive(Debug, PartialEq, Eq)]
pub enum ErrorCode {
    /// The caller asked for something outside what it may touch.
    ForbiddenScope,
    /// The arguments do not make sense together.
    InvalidParams,
    /// The node itself could not do it.
    Internal,
    /// A kind that only one capability uses.
    Other(String),
}

/// A refusal: its kind, and what to tell the caller.
#[derive(Debug, PartialEq, Eq)]
pub struct WireError {
    pub code: ErrorCode,
    pub message: String,
}

impl WireError {
    /// A refusal of the given kind.
    pub fn new(code: ErrorCode, message: String) -> (out: WireError)
        ensures
            out.code == code,
            out.message == message,
    {
        WireError { code, message }
    }

    /// A refusal of arguments that do not make sense together.
    pub fn invalid_params(detail: &str) -> (out: WireError)
        ensures
            out.code is InvalidParams,
            out.message@ == detail@,
    {
        WireError { code: ErrorCode::InvalidParams, message: detail.to_owned() }
    }
}

} // verus!
