//! The error taxonomy of the codec.

use vstd::prelude::*;
use crate::code_pair::{CodePair, SpecPair};

verus! {

/// A structural or payload fault met while decoding or encoding a stream.
///
/// Every fault aborts the whole load or save; there is no partial-document
/// recovery.  Unknown sections are not errors: they are skipped.
#[derive(Debug, PartialEq)]
pub enum DxfError {
    /// The stream ended while a required marker was still expected.
    UnexpectedEndOfInput,
    /// A tagged value violated a structural expectation.  Carries the
    /// offending pair and a human-readable expectation.
    UnexpectedCodePair(CodePair, String),
    /// A code is not legal in the current context.
    UnexpectedCode(i32),
    /// A payload was malformed: bad hex data, or a value of the wrong type.
    ParseError(String),
}

/// Mathematical model of a `DxfError`.
#[verifier::ext_equal]
pub enum SpecError {
    UnexpectedEndOfInput,
    UnexpectedCodePair { pair: SpecPair, expected: Seq<char> },
    UnexpectedCode { code: int },
    ParseError { message: Seq<char> },
}

impl View for DxfError {
    type V = SpecError;

    open spec fn view(&self) -> SpecError {
        match self {
            DxfError::UnexpectedEndOfInput => SpecError::UnexpectedEndOfInput,
            DxfError::UnexpectedCodePair(p, m) => SpecError::UnexpectedCodePair {
                pair: p@,
                expected: m@,
            },
            DxfError::UnexpectedCode(c) => SpecError::UnexpectedCode { code: *c as int },
            DxfError::ParseError(m) => SpecError::ParseError { message: m@ },
        }
    }
}

impl DxfError {
    /// The short description of each error kind.
    pub open spec fn spec_description(&self) -> Seq<char> {
        match self {
            DxfError::UnexpectedEndOfInput => "unexpected end of input"@,
            DxfError::UnexpectedCodePair(_, _) => "unexpected code pair"@,
            DxfError::UnexpectedCode(_) => "unexpected code"@,
            DxfError::ParseError(_) => "malformed payload"@,
        }
    }

    /// A short description of the error, suitable for reporting.
    pub fn description(&self) -> (r: &'static str)
        ensures
            r@ == self.spec_description(),
    {
        match self {
            DxfError::UnexpectedEndOfInput => "unexpected end of input",
            DxfError::UnexpectedCodePair(_, _) => "unexpected code pair",
            DxfError::UnexpectedCode(_) => "unexpected code",
            DxfError::ParseError(_) => "malformed payload",
        }
    }
}

/// The result of a fallible codec operation.
pub type DxfResult<T> = Result<T, DxfError>;

} // verus!
