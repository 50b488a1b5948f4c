//! Decoding of UTF-16 code units, paired or not.
use vstd::pervasive::unreached;
use vstd::prelude::*;

use crate::escape::code_point::is_surrogate;

verus! {

/// Whether `unit` is the first half of a surrogate pair.
pub open spec fn is_leading_surrogate(unit: u16) -> bool {
    0xD800 <= unit <= 0xDBFF
}

/// Whether `unit` is the second half of a surrogate pair.
pub open spec fn is_trailing_surrogate(unit: u16) -> bool {
    0xDC00 <= unit <= 0xDFFF
}

/// Whether `units` begins with a surrogate pair.
pub open spec fn begins_with_pair(units: Seq<u16>) -> bool {
    units.len() >= 2 && is_leading_surrogate(units[0]) && is_trailing_surrogate(units[1])
}

/// The scalar value that a surrogate pair encodes.
pub open spec fn pair_value(leading: u16, trailing: u16) -> u32 {
    (0x10000 + (leading - 0xD800) * 0x400 + (trailing - 0xDC00)) as u32
}

/// The code point that `units`, which is not empty, begins with: the value
/// of a surrogate pair, or else the first unit, be it a scalar value or a
/// surrogate without its partner.
pub open spec fn first_point(units: Seq<u16>) -> u32 {
    if begins_with_pair(units) {
        pair_value(units[0], units[1])
    } else {
        units[0] as u32
    }
}

/// The number of units that encode [`first_point`].
pub open spec fn first_width(units: Seq<u16>) -> int {
    if begins_with_pair(units) {
        2
    } else {
        1
    }
}

/// The code points that `units` encodes, with each unpaired surrogate as
/// a code point of its own.
pub open spec fn utf16_points(units: Seq<u16>) -> Seq<u32>
    decreases units.len(),
{
    if units.len() == 0 {
        seq![]
    } else {
        seq![first_point(units)] + utf16_points(units.skip(first_width(units)))
    }
}

/// The units that encode `point`, or that `point` is where it is a
/// surrogate.
pub open spec fn point_units(point: u32) -> Seq<u16> {
    if point < 0x10000 {
        seq![point as u16]
    } else {
        seq![
            (0xD800 + (point - 0x10000) / 0x400) as u16,
            (0xDC00 + (point - 0x10000) % 0x400) as u16,
        ]
    }
}

/// The units that encode `points`.
pub open spec fn utf16_units(points: Seq<u32>) -> Seq<u16>
    decreases points.len(),
{
    if points.len() == 0 {
        seq![]
    } else {
        point_units(points[0]) + utf16_units(points.drop_first())
    }
}

/// Decoding loses nothing, whether the units are well-formed or not: the
/// code points encode to the same units again.
pub proof fn lemma_utf16_units_of_points(units: Seq<u16>)
    ensures
        utf16_units(utf16_points(units)) == units,
    decreases units.len(),
{
    if units.len() > 0 {
        let width = first_width(units);
        let rest = units.skip(width);
        lemma_utf16_units_of_points(rest);
        assert(utf16_points(units).drop_first() =~= utf16_points(rest));
        assert(point_units(first_point(units)) =~= units.take(width));
        assert(units.take(width) + rest =~= units);
    }
}

/// A surrogate that was found without its partner.
#[derive(Clone, Copy, Debug, PartialEq, Eq)]
pub struct DecodeUtf16Error {
    code: u16,
}

impl DecodeUtf16Error {
    /// The surrogate, in specifications.
    pub closed spec fn code(self) -> u16 {
        self.code
    }

    /// The surrogate that has no partner.
    pub fn unpaired_surrogate(&self) -> (unit: u16)
        ensures
            unit == self.code(),
    {
        self.code
    }
}

/// Decodes the code point that begins at `at`, and tells how many units
/// encode it. A surrogate without its partner is an error that holds that
/// surrogate.
pub fn decode_utf16_at(units: &[u16], at: usize) -> (r: (Result<char, DecodeUtf16Error>, usize))
    requires
        at < units.len(),
    ensures
        r.1 == first_width(units@.skip(at as int)),
        at + r.1 <= units.len(),
        match r.0 {
            Ok(ch) => ch as u32 == first_point(units@.skip(at as int)),
            Err(error) => {
                &&& error.code() == first_point(units@.skip(at as int))
                &&& is_surrogate(error.code() as u32)
            },
        },
{
    let ghost rest = units@.skip(at as int);
    let unit = units[at];
    assert(unit == rest[0]);
    if unit < 0xD800 || 0xDFFF < unit {
        match char::from_u32(unit as u32) {
            Some(ch) => (Ok(ch), 1),
            None => unreached(),
        }
    } else if unit >= 0xDC00 || at + 1 == units.len() {
        (Err(DecodeUtf16Error { code: unit }), 1)
    } else {
        let next = units[at + 1];
        assert(next == rest[1]);
        if next < 0xDC00 || 0xDFFF < next {
            (Err(DecodeUtf16Error { code: unit }), 1)
        } else {
            let value: u32 = 0x10000 + ((unit - 0xD800) as u32) * 0x400 + ((next - 0xDC00) as u32);
            match char::from_u32(value) {
                Some(ch) => (Ok(ch), 2),
                None => unreached(),
            }
        }
    }
}

} // verus!
