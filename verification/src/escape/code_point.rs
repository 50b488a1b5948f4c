//! Code points: scalar values and unpaired surrogates.
use vstd::prelude::*;
use vstd::utf8::is_scalar;

use crate::escape::wide::DecodeUtf16Error;

verus! {

/// `char::from_u32` gives the character with the given scalar value, and
/// nothing for a surrogate or a value above 0x10FFFF.
pub assume_specification[ char::from_u32 ](i: u32) -> (r: Option<char>)
    ensures
        r == (if is_scalar(i) {
            Some(i as char)
        } else {
            None::<char>
        }),
;

/// Whether `value` lies in the range reserved for UTF-16 surrogates.
pub open spec fn is_surrogate(value: u32) -> bool {
    0xD800 <= value <= 0xDFFF
}

/// A position in the Unicode code space.
///
/// Unlike a `char`, a code point may be a surrogate: that is how a UTF-16
/// unit without its partner is carried to the place where it is escaped.
#[derive(Clone, Copy, Debug, PartialEq, Eq)]
pub struct CodePoint(pub u32);

impl CodePoint {
    /// The character at this code point, unless it is a surrogate or lies
    /// outside the code space.
    pub fn to_char(self) -> (r: Option<char>)
        ensures
            is_scalar(self.0) ==> r == Some(self.0 as char),
            !is_scalar(self.0) ==> r is None,
    {
        char::from_u32(self.0)
    }
}

impl From<char> for CodePoint {
    fn from(value: char) -> (r: CodePoint) {
        CodePoint(value as u32)
    }
}

impl vstd::std_specs::convert::FromSpecImpl<char> for CodePoint {
    open spec fn obeys_from_spec() -> bool {
        true
    }

    open spec fn from_spec(value: char) -> CodePoint {
        CodePoint(value as u32)
    }
}

impl From<DecodeUtf16Error> for CodePoint {
    fn from(value: DecodeUtf16Error) -> (r: CodePoint) {
        CodePoint(value.unpaired_surrogate() as u32)
    }
}

impl vstd::std_specs::convert::FromSpecImpl<DecodeUtf16Error> for CodePoint {
    open spec fn obeys_from_spec() -> bool {
        true
    }

    open spec fn from_spec(value: DecodeUtf16Error) -> CodePoint {
        CodePoint(value.code() as u32)
    }
}

impl From<CodePoint> for u32 {
    fn from(value: CodePoint) -> (r: u32) {
        value.0
    }
}

impl vstd::std_specs::convert::FromSpecImpl<CodePoint> for u32 {
    open spec fn obeys_from_spec() -> bool {
        true
    }

    open spec fn from_spec(value: CodePoint) -> u32 {
        value.0
    }
}

} // verus!
