//! Tagged values: the atomic unit of the wire protocol.

use vstd::prelude::*;

verus! {

/// The typed payload of a tagged value.  The integer code of the pair decides
/// how the payload is interpreted.  Real-number payloads are outside the
/// document-level codec's concern and are carried as string text.
#[derive(Debug, PartialEq)]
pub enum CodePairValue {
    Str(String),
    Int(i32),
    Bool(bool),
}

/// Mathematical model of a `CodePairValue`.
#[verifier::ext_equal]
pub enum SpecValue {
    S { s: Seq<char> },
    I { i: int },
    B { b: bool },
}

impl View for CodePairValue {
    type V = SpecValue;

    open spec fn view(&self) -> SpecValue {
        match self {
            CodePairValue::Str(s) => SpecValue::S { s: s@ },
            CodePairValue::Int(i) => SpecValue::I { i: *i as int },
            CodePairValue::Bool(b) => SpecValue::B { b: *b },
        }
    }
}

impl Clone for CodePairValue {
    fn clone(&self) -> (r: Self)
        ensures
            r@ == self@,
    {
        match self {
            CodePairValue::Str(s) => CodePairValue::Str(s.clone()),
            CodePairValue::Int(i) => CodePairValue::Int(*i),
            CodePairValue::Bool(b) => CodePairValue::Bool(*b),
        }
    }
}

/// A tagged value: an integer code paired with a typed payload.
#[derive(Debug, PartialEq)]
pub struct CodePair {
    pub code: i32,
    pub value: CodePairValue,
}

/// Mathematical model of a `CodePair`.
#[verifier::ext_equal]
pub struct SpecPair {
    pub code: int,
    pub value: SpecValue,
}

impl View for CodePair {
    type V = SpecPair;

    open spec fn view(&self) -> SpecPair {
        SpecPair { code: self.code as int, value: self.value@ }
    }
}

impl Clone for CodePair {
    fn clone(&self) -> (r: Self)
        ensures
            r@ == self@,
    {
        CodePair { code: self.code, value: self.value.clone() }
    }
}

/// The model of a pair holding a string payload.
pub open spec fn spec_str_pair(code: int, s: Seq<char>) -> SpecPair {
    SpecPair { code, value: SpecValue::S { s } }
}

/// The model of a pair holding an integer payload.
pub open spec fn spec_int_pair(code: int, i: int) -> SpecPair {
    SpecPair { code, value: SpecValue::I { i } }
}

/// True of the code-0 marker pair carrying the given name.
pub open spec fn is_marker(p: SpecPair, name: Seq<char>) -> bool {
    p.code == 0 && p.value == (SpecValue::S { s: name })
}

/// The model of a sequence of pairs.
pub open spec fn pairs_view(ps: Seq<CodePair>) -> Seq<SpecPair> {
    ps.map_values(|p: CodePair| p@)
}

impl CodePair {
    /// Builds a pair with a string payload from a borrowed string slice.
    pub fn new_str(code: i32, val: &str) -> (r: CodePair)
        ensures
            r@ == spec_str_pair(code as int, val@),
    {
        CodePair { code, value: CodePairValue::Str(val.to_owned()) }
    }

    /// Builds a pair with a string payload from an owned string.
    pub fn new_string(code: i32, val: String) -> (r: CodePair)
        ensures
            r@ == spec_str_pair(code as int, val@),
    {
        CodePair { code, value: CodePairValue::Str(val) }
    }

    /// Builds a pair with an integer payload.
    pub fn new_i32(code: i32, val: i32) -> (r: CodePair)
        ensures
            r@ == spec_int_pair(code as int, val as int),
    {
        CodePair { code, value: CodePairValue::Int(val) }
    }

    /// Builds a pair with a boolean payload.
    pub fn new_bool(code: i32, val: bool) -> (r: CodePair)
        ensures
            r@ == (SpecPair { code: code as int, value: SpecValue::B { b: val } }),
    {
        CodePair { code, value: CodePairValue::Bool(val) }
    }
}

/// Relies on `str`'s `PartialEq`: two string slices are equal exactly when
/// their character sequences are equal.
#[verifier::external_body]
pub fn str_eq(a: &str, b: &str) -> (r: bool)
    ensures
        r == (a@ == b@),
{
    a == b
}

} // verus!
