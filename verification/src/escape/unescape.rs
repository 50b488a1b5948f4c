//! Reading escaped text back: what makes the escaped form lossless.
//!
//! Nothing here runs. The functions say how a reader takes escaped text
//! apart, and the lemmas show that it gets back the code points that were
//! escaped.
use vstd::prelude::*;
use vstd::utf8::char_u32_cast;
use vstd::utf8::decode_utf8;
use vstd::utf8::decode_utf8_encode_utf8;
use vstd::utf8::encode_utf8;
use vstd::utf8::is_scalar;
use vstd::utf8::valid_utf8;

use crate::END_ESCAPE;
use crate::escape::escape_form;
use crate::escape::escaped_points;
use crate::escape::escaped_text;
use crate::escape::EscapedCodePoint;
use crate::escape::hex_digit;
use crate::escape::hex_digits;
use crate::escape::printable;
use crate::escape::text_points;
use crate::escape::utf8::byte_points;
use crate::escape::utf8::lemma_byte_points_of_utf8;
use crate::escape::wide::lemma_utf16_units_of_points;
use crate::escape::wide::utf16_points;
use crate::escape::wide::utf16_units;
use crate::quote::quoted;
use crate::QUOTE;
use crate::START_ESCAPE;

verus! {

/// Whether `ch` is a digit or a lower-case letter up to `f`.
pub open spec fn is_hex_digit(ch: char) -> bool {
    '0' <= ch <= '9' || 'a' <= ch <= 'f'
}

/// The value of the hexadecimal digit `ch`.
pub open spec fn hex_value(ch: char) -> nat {
    if ch <= '9' {
        (ch as u32 - 0x30) as nat
    } else {
        (ch as u32 - 0x57) as nat
    }
}

/// The number of hexadecimal digits that `text` begins with.
pub open spec fn hex_run(text: Seq<char>) -> nat
    decreases text.len(),
{
    if text.len() > 0 && is_hex_digit(text[0]) {
        1 + hex_run(text.drop_first())
    } else {
        0
    }
}

/// The number that `digits` is in hexadecimal.
pub open spec fn hex_number(digits: Seq<char>) -> nat
    decreases digits.len(),
{
    if digits.len() == 0 {
        0
    } else {
        hex_number(digits.drop_last()) * 16 + hex_value(digits.last())
    }
}

/// The control character with the short name `name`, if there is one.
pub open spec fn named(name: char) -> Option<u32> {
    if name == 't' {
        Some(0x09)
    } else if name == 'n' {
        Some(0x0A)
    } else if name == 'r' {
        Some(0x0D)
    } else {
        None
    }
}

/// The code point that `text` begins with and the number of characters
/// that it takes up, or nothing where `text` does not begin with a
/// character that stands for itself, a doubled escape character or an
/// escape sequence.
pub open spec fn first_unit(text: Seq<char>) -> Option<(u32, int)> {
    if text.len() == 0 || text[0] == QUOTE {
        None
    } else if text[0] == END_ESCAPE {
        if text.len() >= 2 && text[1] == END_ESCAPE {
            Some((END_ESCAPE as u32, 2))
        } else {
            None
        }
    } else if text[0] != START_ESCAPE {
        Some((text[0] as u32, 1))
    } else if text.len() >= 2 && text[1] == START_ESCAPE {
        Some((START_ESCAPE as u32, 2))
    } else if text.len() >= 3 && text[1] == QUOTE && text[2] == END_ESCAPE {
        Some((QUOTE as u32, 3))
    } else if text.len() >= 4 && text[1] == '~' && text[2] == 'u' {
        let digits = hex_run(text.skip(3)) as int;
        let value = hex_number(text.subrange(3, 3 + digits));
        if digits >= 1 && text.len() > 3 + digits && text[3 + digits] == END_ESCAPE && value
            <= u32::MAX {
            Some((value as u32, 4 + digits))
        } else {
            None
        }
    } else if text.len() >= 4 && text[1] == '~' && text[3] == END_ESCAPE {
        match named(text[2]) {
            Some(point) => Some((point, 4)),
            None => None,
        }
    } else {
        None
    }
}

/// The code points that `text` is the escaped form of, or nothing where it
/// is the escaped form of none.
pub open spec fn unescaped(text: Seq<char>) -> Option<Seq<u32>>
    decreases text.len(),
{
    if text.len() == 0 {
        Some(seq![])
    } else {
        match first_unit(text) {
            Some((point, width)) => if 0 < width <= text.len() {
                match unescaped(text.skip(width)) {
                    Some(rest) => Some(seq![point] + rest),
                    None => None,
                }
            } else {
                None
            },
            None => None,
        }
    }
}

/// A number in hexadecimal is made of hexadecimal digits, at least one,
/// and they give the number back.
pub proof fn lemma_hex_digits(value: nat)
    ensures
        hex_digits(value).len() >= 1,
        forall|i: int|
            0 <= i < hex_digits(value).len() ==> is_hex_digit(#[trigger] hex_digits(value)[i]),
        hex_number(hex_digits(value)) == value,
    decreases value,
{
    let digits = hex_digits(value);
    let last = hex_digit(value % 16);
    assert(is_hex_digit(last) && hex_value(last) == value % 16) by {
        lemma_hex_digit(value % 16);
    }
    if value < 16 {
        assert(digits.drop_last() =~= Seq::<char>::empty());
        assert(hex_number(digits) == hex_number(digits.drop_last()) * 16 + hex_value(
            digits.last(),
        ));
    } else {
        lemma_hex_digits(value / 16);
        assert(digits.drop_last() =~= hex_digits(value / 16));
        assert(digits.last() == last);
    }
}

/// A digit below 16 is written as a hexadecimal digit of that value.
pub proof fn lemma_hex_digit(digit: nat)
    requires
        digit < 16,
    ensures
        is_hex_digit(hex_digit(digit)),
        hex_value(hex_digit(digit)) == digit,
{
}

/// Digits that are followed by something else are counted in full.
pub proof fn lemma_hex_run(digits: Seq<char>, rest: Seq<char>)
    requires
        forall|i: int| 0 <= i < digits.len() ==> is_hex_digit(#[trigger] digits[i]),
        rest.len() > 0,
        !is_hex_digit(rest[0]),
    ensures
        hex_run(digits + rest) == digits.len(),
    decreases digits.len(),
{
    if digits.len() == 0 {
        assert(digits + rest =~= rest);
    } else {
        lemma_hex_run(digits.drop_first(), rest);
        assert((digits + rest).drop_first() =~= digits.drop_first() + rest);
        assert((digits + rest)[0] == digits[0]);
    }
}

/// A reader finds what was escaped first at the beginning of the escaped
/// form, whatever follows.
pub proof fn lemma_first_unit(point: u32, rest: Seq<char>)
    ensures
        first_unit(escape_form(point).rendered() + rest) == Some(
            (point, escape_form(point).rendered().len() as int),
        ),
        escape_form(point).rendered().len() > 0,
{
    let form = escape_form(point);
    let text = form.rendered() + rest;
    reveal_strlit("t");
    reveal_strlit("n");
    reveal_strlit("r");
    match form {
        EscapedCodePoint::Hex(code_point) => {
            let digits = hex_digits(point as nat);
            let tail = seq![END_ESCAPE] + rest;
            lemma_hex_digits(point as nat);
            lemma_hex_run(digits, tail);
            assert(text.skip(3) =~= digits + tail);
            assert(text.subrange(3, 3 + digits.len() as int) =~= digits);
            assert(text[3 + digits.len() as int] == END_ESCAPE);
        },
        EscapedCodePoint::Literal { ch, escape } => {
            if !escape {
                assert(is_scalar(point));
            }
        },
        EscapedCodePoint::Quote => {},
        EscapedCodePoint::Sequence(name) => {
            assert(text[2] == name@[0]);
        },
    }
}

/// The escaped form is lossless: a reader gets back the code points that
/// were escaped, each of them, in their order.
pub proof fn lemma_unescaped_escaped(points: Seq<u32>)
    ensures
        unescaped(escaped_points(points)) == Some(points),
    decreases points.len(),
{
    if points.len() > 0 {
        let rest = escaped_points(points.drop_first());
        let first = escape_form(points[0]).rendered();
        lemma_first_unit(points[0], rest);
        lemma_unescaped_escaped(points.drop_first());
        assert((first + rest).skip(first.len() as int) =~= rest);
        assert(seq![points[0]] + points.drop_first() =~= points);
    }
}

/// What a code point is written as is made of printable characters.
pub proof fn lemma_rendered_is_printable(point: u32)
    ensures
        forall|i: int|
            0 <= i < escape_form(point).rendered().len() ==> printable(
                #[trigger] escape_form(point).rendered()[i] as u32,
            ),
{
    let text = escape_form(point).rendered();
    reveal_strlit("t");
    reveal_strlit("n");
    reveal_strlit("r");
    assert forall|i: int| 0 <= i < text.len() implies printable(#[trigger] text[i] as u32) by {
        match escape_form(point) {
            EscapedCodePoint::Hex(code_point) => {
                let digits = hex_digits(point as nat);
                lemma_hex_digits(point as nat);
                if 3 <= i < 3 + digits.len() {
                    assert(text[i] == digits[i - 3]);
                    assert(is_hex_digit(digits[i - 3]));
                }
            },
            EscapedCodePoint::Literal { ch, escape } => {
                if !escape {
                    assert(is_scalar(point));
                }
            },
            EscapedCodePoint::Quote => {},
            EscapedCodePoint::Sequence(name) => {},
        }
    }
}

/// Escaped text is made of printable characters only: it holds no control
/// character, and so no line break.
pub proof fn lemma_escaped_is_printable(points: Seq<u32>)
    ensures
        forall|i: int|
            0 <= i < escaped_points(points).len() ==> printable(
                #[trigger] escaped_points(points)[i] as u32,
            ),
    decreases points.len(),
{
    if points.len() > 0 {
        let first = escape_form(points[0]).rendered();
        let rest = escaped_points(points.drop_first());
        lemma_rendered_is_printable(points[0]);
        lemma_escaped_is_printable(points.drop_first());
        assert forall|i: int| 0 <= i < escaped_points(points).len() implies printable(
            #[trigger] escaped_points(points)[i] as u32,
        ) by {
            if i < first.len() {
                assert(escaped_points(points)[i] == first[i]);
            } else {
                assert(escaped_points(points)[i] == rest[i - first.len()]);
            }
        }
    }
}

/// The text between the quotes, or nothing where `text` is not quoted.
pub open spec fn unquoted(text: Seq<char>) -> Option<Seq<char>> {
    if text.len() >= 2 && text.first() == QUOTE && text.last() == QUOTE {
        Some(text.subrange(1, text.len() - 1))
    } else {
        None
    }
}

/// Taking the quotes off gives the body back.
pub proof fn lemma_unquoted_quoted(body: Seq<char>)
    ensures
        unquoted(quoted(body)) == Some(body),
{
    assert(quoted(body).subrange(1, quoted(body).len() - 1) =~= body);
}

/// Escaped text is lossless: a reader gets the characters back, and so
/// two texts with the same escaped form are the same text.
pub proof fn lemma_text_is_lossless(a: Seq<char>, b: Seq<char>)
    ensures
        unescaped(escaped_text(a)) == Some(text_points(a)),
        escaped_text(a) == escaped_text(b) ==> a == b,
{
    lemma_unescaped_escaped(text_points(a));
    lemma_unescaped_escaped(text_points(b));
    if text_points(a) == text_points(b) {
        assert(a.len() == text_points(a).len());
        assert(b.len() == text_points(b).len());
        assert forall|i: int| 0 <= i < a.len() implies a[i] == b[i] by {
            assert(text_points(a)[i] == a[i] as u32);
            assert(text_points(b)[i] == b[i] as u32);
            char_u32_cast(a[i], a[i] as u32);
            char_u32_cast(b[i], b[i] as u32);
        }
        assert(a =~= b);
    }
}

/// Escaped UTF-16 is lossless: a reader gets back the code points, each
/// unpaired surrogate among them as a code point of its own, and so two
/// sequences of units with the same escaped form are the same sequence.
pub proof fn lemma_utf16_is_lossless(a: Seq<u16>, b: Seq<u16>)
    ensures
        unescaped(escaped_points(utf16_points(a))) == Some(utf16_points(a)),
        utf16_units(utf16_points(a)) == a,
        escaped_points(utf16_points(a)) == escaped_points(utf16_points(b)) ==> a == b,
{
    lemma_unescaped_escaped(utf16_points(a));
    lemma_unescaped_escaped(utf16_points(b));
    lemma_utf16_units_of_points(a);
    lemma_utf16_units_of_points(b);
}

/// A reader of escaped bytes gets back their code points: the characters
/// of what was UTF-8, and each byte of an ill-formed sequence as a code
/// point of its own.
pub proof fn lemma_bytes_are_read_back(bytes: Seq<u8>)
    ensures
        unescaped(escaped_points(byte_points(bytes))) == Some(byte_points(bytes)),
{
    lemma_unescaped_escaped(byte_points(bytes));
}

/// Escaped UTF-8 is lossless: a reader gets the characters back, and so
/// two byte strings in UTF-8 with the same escaped form are the same.
///
/// This is not so among all byte strings: a byte that is not part of a
/// character is written like the character of the same value.
pub proof fn lemma_utf8_is_lossless(a: Seq<u8>, b: Seq<u8>)
    requires
        valid_utf8(a),
        valid_utf8(b),
    ensures
        byte_points(a) == text_points(decode_utf8(a)),
        encode_utf8(decode_utf8(a)) == a,
        escaped_points(byte_points(a)) == escaped_points(byte_points(b)) ==> a == b,
{
    lemma_byte_points_of_utf8(a);
    lemma_byte_points_of_utf8(b);
    decode_utf8_encode_utf8(a);
    decode_utf8_encode_utf8(b);
    lemma_text_is_lossless(decode_utf8(a), decode_utf8(b));
}

} // verus!
