//! Finding the well-formed and the ill-formed parts of a byte string.
use vstd::prelude::*;
use vstd::string::StringSliceAdditionalSpecFns;
use vstd::utf8::codepoint_width_2;
use vstd::utf8::codepoint_width_3;
use vstd::utf8::codepoint_width_4;
use vstd::utf8::decode_first_scalar;
use vstd::utf8::decode_utf8;
use vstd::utf8::encode_utf8;
use vstd::utf8::encode_utf8_decode_utf8;
use vstd::utf8::encode_utf8_first_scalar;
use vstd::utf8::encode_utf8_valid_utf8;
use vstd::utf8::is_char_boundary;
use vstd::utf8::is_continuation_byte;
use vstd::utf8::is_leading_byte_width_2;
use vstd::utf8::is_leading_byte_width_3;
use vstd::utf8::is_leading_byte_width_4;
use vstd::utf8::length_of_first_scalar;
use vstd::utf8::partial_valid_partial_invalid_utf8;
use vstd::utf8::partial_valid_utf8;
use vstd::utf8::partial_valid_utf8_extend;
use vstd::utf8::pop_first_scalar;
use vstd::utf8::valid_first_scalar;
use vstd::utf8::valid_utf8;

verus! {

/// The number of bytes in a sequence that begins with `first`, or 0 where
/// no well-formed sequence begins with it.
pub open spec fn sequence_width(first: u8) -> nat {
    if first < 0x80 {
        1
    } else if 0xC2 <= first <= 0xDF {
        2
    } else if 0xE0 <= first <= 0xEF {
        3
    } else if 0xF0 <= first <= 0xF4 {
        4
    } else {
        0
    }
}

/// Whether `second` can follow `first` in a well-formed sequence of more
/// than one byte. The bounds are narrower than those of a continuation
/// byte where the wider ones would admit a sequence that is longer than
/// needed, a surrogate, or a value above 0x10FFFF.
pub open spec fn second_byte_fits(first: u8, second: u8) -> bool {
    if first == 0xE0 {
        0xA0 <= second <= 0xBF
    } else if first == 0xED {
        0x80 <= second <= 0x9F
    } else if first == 0xF0 {
        0x90 <= second <= 0xBF
    } else if first == 0xF4 {
        0x80 <= second <= 0x8F
    } else {
        0x80 <= second <= 0xBF
    }
}

/// Whether `bytes` begins with a well-formed sequence, told from the
/// bytes' ranges alone.
pub open spec fn begins_well_formed(bytes: Seq<u8>) -> bool {
    let width = sequence_width(bytes[0]);
    &&& 1 <= width <= bytes.len()
    &&& width >= 2 ==> second_byte_fits(bytes[0], bytes[1])
    &&& width >= 3 ==> is_continuation_byte(bytes[2])
    &&& width >= 4 ==> is_continuation_byte(bytes[3])
}

/// The length of the ill-formed sequence that `bytes` begins with: its
/// first byte and as many of the next ones as could still continue a
/// well-formed sequence. `None` where the bytes end before the sequence
/// went wrong. This is for `bytes` that are not empty and do not begin
/// with a well-formed sequence.
pub open spec fn invalid_len(bytes: Seq<u8>) -> Option<nat> {
    if sequence_width(bytes[0]) == 0 {
        Some(1)
    } else if bytes.len() < 2 {
        None
    } else if !second_byte_fits(bytes[0], bytes[1]) {
        Some(1)
    } else if bytes.len() < 3 {
        None
    } else if !is_continuation_byte(bytes[2]) {
        Some(2)
    } else if bytes.len() < 4 {
        None
    } else {
        Some(3)
    }
}

proof fn lemma_two_bytes(first: u8, second: u8)
    by (bit_vector)
    requires
        is_leading_byte_width_2(first),
        is_continuation_byte(second),
    ensures
        codepoint_width_2(first, second) >= 0x80 <==> first >= 0xC2,
        codepoint_width_2(first, second) <= 0x7FF,
{
}

proof fn lemma_three_bytes(first: u8, second: u8, third: u8)
    by (bit_vector)
    requires
        is_leading_byte_width_3(first),
        is_continuation_byte(second),
        is_continuation_byte(third),
    ensures
        codepoint_width_3(first, second, third) >= 0x800 <==> !(first == 0xE0 && second < 0xA0),
        0xD800 <= codepoint_width_3(first, second, third) <= 0xDFFF <==> (first == 0xED && second
            >= 0xA0),
        codepoint_width_3(first, second, third) <= 0xFFFF,
{
}

proof fn lemma_four_bytes(first: u8, second: u8, third: u8, fourth: u8)
    by (bit_vector)
    requires
        is_leading_byte_width_4(first),
        is_continuation_byte(second),
        is_continuation_byte(third),
        is_continuation_byte(fourth),
    ensures
        0x10000 <= codepoint_width_4(first, second, third, fourth) <= 0x10FFFF <==> ((first == 0xF0
            && second >= 0x90) || (0xF1 <= first <= 0xF3) || (first == 0xF4 && second < 0x90)),
{
}

/// The ranges of the bytes tell whether a well-formed sequence begins.
pub proof fn lemma_begins_well_formed(bytes: Seq<u8>)
    requires
        bytes.len() > 0,
    ensures
        valid_first_scalar(bytes) <==> begins_well_formed(bytes),
        valid_first_scalar(bytes) ==> length_of_first_scalar(bytes) == sequence_width(bytes[0])
            && vstd::utf8::is_scalar(decode_first_scalar(bytes)),
{
    let first = bytes[0];
    if is_leading_byte_width_2(first) && bytes.len() >= 2 && is_continuation_byte(bytes[1]) {
        lemma_two_bytes(first, bytes[1]);
    }
    if is_leading_byte_width_3(first) && bytes.len() >= 3 && is_continuation_byte(bytes[1])
        && is_continuation_byte(bytes[2]) {
        lemma_three_bytes(first, bytes[1], bytes[2]);
    }
    if is_leading_byte_width_4(first) && bytes.len() >= 4 && is_continuation_byte(bytes[1])
        && is_continuation_byte(bytes[2]) && is_continuation_byte(bytes[3]) {
        lemma_four_bytes(first, bytes[1], bytes[2], bytes[3]);
    }
}

/// The length that [`invalid_len`] gives, as a machine integer.
pub open spec fn same_len(len: Option<usize>, of: Option<nat>) -> bool {
    match (len, of) {
        (Some(a), Some(b)) => a == b,
        (None, None) => true,
        _ => false,
    }
}

/// Looks at the sequence that begins at `at`: a well-formed one gives its
/// width, an ill-formed one the length by which to skip it.
pub fn sequence_at(bytes: &[u8], at: usize) -> (r: Result<usize, Option<usize>>)
    requires
        at < bytes.len(),
    ensures
        match r {
            Ok(width) => {
                &&& valid_first_scalar(bytes@.skip(at as int))
                &&& width == length_of_first_scalar(bytes@.skip(at as int))
                &&& at + width <= bytes.len()
            },
            Err(len) => {
                &&& !valid_first_scalar(bytes@.skip(at as int))
                &&& same_len(len, invalid_len(bytes@.skip(at as int)))
            },
        },
{
    let ghost rest = bytes@.skip(at as int);
    proof {
        lemma_begins_well_formed(rest);
    }
    let left = bytes.len() - at;
    let first = bytes[at];
    assert(first == rest[0]);
    if first < 0x80 {
        return Ok(1);
    }
    let width: usize = if 0xC2 <= first && first <= 0xDF {
        2
    } else if 0xE0 <= first && first <= 0xEF {
        3
    } else if 0xF0 <= first && first <= 0xF4 {
        4
    } else {
        return Err(Some(1));
    };
    if left < 2 {
        return Err(None);
    }
    let second = bytes[at + 1];
    assert(second == rest[1]);
    let fits = if first == 0xE0 {
        0xA0 <= second && second <= 0xBF
    } else if first == 0xED {
        0x80 <= second && second <= 0x9F
    } else if first == 0xF0 {
        0x90 <= second && second <= 0xBF
    } else if first == 0xF4 {
        0x80 <= second && second <= 0x8F
    } else {
        0x80 <= second && second <= 0xBF
    };
    if !fits {
        return Err(Some(1));
    }
    if width == 2 {
        return Ok(2);
    }
    if left < 3 {
        return Err(None);
    }
    let third = bytes[at + 2];
    assert(third == rest[2]);
    if !(0x80 <= third && third <= 0xBF) {
        return Err(Some(2));
    }
    if width == 3 {
        return Ok(3);
    }
    if left < 4 {
        return Err(None);
    }
    let fourth = bytes[at + 3];
    assert(fourth == rest[3]);
    if !(0x80 <= fourth && fourth <= 0xBF) {
        return Err(Some(3));
    }
    Ok(4)
}

/// Where and how a byte string stops being UTF-8.
#[derive(Clone, Copy, Debug, PartialEq, Eq)]
pub struct InvalidUtf8 {
    /// The length of the longest prefix that is UTF-8.
    pub valid_up_to: usize,
    /// The length of the ill-formed sequence after that prefix, or `None`
    /// where the bytes end in the middle of a sequence.
    pub error_len: Option<usize>,
}

/// Checks whether `bytes` is UTF-8, and tells where it stops being so.
pub fn validate(bytes: &[u8]) -> (r: Result<(), InvalidUtf8>)
    ensures
        r is Ok <==> valid_utf8(bytes@),
        r is Ok ==> valid_up_to(bytes@) == bytes.len(),
        r matches Err(e) ==> {
            &&& e.valid_up_to < bytes.len()
            &&& e.valid_up_to == valid_up_to(bytes@)
            &&& valid_utf8(bytes@.take(e.valid_up_to as int))
            &&& !valid_first_scalar(bytes@.skip(e.valid_up_to as int))
            &&& same_len(e.error_len, invalid_len(bytes@.skip(e.valid_up_to as int)))
        },
{
    let mut at: usize = 0;
    assert(bytes@.subrange(0, 0) =~= Seq::<u8>::empty());
    while at < bytes.len()
        invariant
            at <= bytes.len(),
            partial_valid_utf8(bytes@, at as int),
        decreases bytes.len() - at,
    {
        assert(bytes@.skip(at as int) == bytes@.subrange(at as int, bytes@.len() as int));
        match sequence_at(bytes, at) {
            Ok(width) => {
                proof {
                    partial_valid_utf8_extend(bytes@, at as int);
                }
                at += width;
            },
            Err(error_len) => {
                proof {
                    partial_valid_partial_invalid_utf8(bytes@, at as int);
                    lemma_valid_up_to(bytes@, at as int);
                }
                return Err(InvalidUtf8 { valid_up_to: at, error_len });
            },
        }
    }
    assert(bytes@.subrange(0, at as int) =~= bytes@);
    proof {
        lemma_valid_up_to(bytes@, at as int);
    }
    Ok(())
}

/// The error of `core::str::from_utf8`.
#[verifier::external_type_specification]
#[verifier::external_body]
pub struct ExUtf8Error(core::str::Utf8Error);

/// `core::str::from_utf8` succeeds exactly on UTF-8, and then gives the
/// same bytes as a string.
pub assume_specification[ core::str::from_utf8 ](v: &[u8]) -> (r: Result<
    &str,
    core::str::Utf8Error,
>)
    ensures
        r is Ok <==> valid_utf8(v@),
        r matches Ok(text) ==> text.spec_bytes() == v@,
;

/// Decodes the character whose sequence begins at `at`, and gives the
/// width of that sequence.
pub fn decode_char(bytes: &[u8], at: usize) -> (r: (char, usize))
    requires
        at < bytes.len(),
        valid_first_scalar(bytes@.skip(at as int)),
    ensures
        r.0 as u32 == decode_first_scalar(bytes@.skip(at as int)),
        r.1 == length_of_first_scalar(bytes@.skip(at as int)),
        at + r.1 <= bytes.len(),
{
    let ghost rest = bytes@.skip(at as int);
    proof {
        lemma_begins_well_formed(rest);
    }
    let first = bytes[at];
    assert(first == rest[0]);
    let (value, width): (u32, usize) = if first < 0x80 {
        ((first & 0x7F) as u32, 1)
    } else if first < 0xE0 {
        let second = bytes[at + 1];
        assert(second == rest[1]);
        ((((first & 0x1F) as u32) << 6) | ((second & 0x3F) as u32), 2)
    } else if first < 0xF0 {
        let second = bytes[at + 1];
        let third = bytes[at + 2];
        assert(second == rest[1] && third == rest[2]);
        (
            (((first & 0x0F) as u32) << 12) | (((second & 0x3F) as u32) << 6) | ((third
                & 0x3F) as u32),
            3,
        )
    } else {
        let second = bytes[at + 1];
        let third = bytes[at + 2];
        let fourth = bytes[at + 3];
        assert(second == rest[1] && third == rest[2] && fourth == rest[3]);
        (
            (((first & 0x07) as u32) << 18) | (((second & 0x3F) as u32) << 12) | (((third
                & 0x3F) as u32) << 6) | ((fourth & 0x3F) as u32),
            4,
        )
    };
    assert(value == decode_first_scalar(rest));
    match char::from_u32(value) {
        Some(ch) => (ch, width),
        None => vstd::pervasive::unreached(),
    }
}

/// The code points that `bytes` stands for: where a well-formed sequence
/// begins, the scalar value that it encodes; anywhere else a single byte,
/// taken as the code point of the same value.
pub open spec fn byte_points(bytes: Seq<u8>) -> Seq<u32>
    decreases bytes.len(),
{
    if bytes.len() == 0 {
        seq![]
    } else if valid_first_scalar(bytes) {
        seq![decode_first_scalar(bytes)] + byte_points(pop_first_scalar(bytes))
    } else {
        seq![bytes[0] as u32] + byte_points(bytes.skip(1))
    }
}

/// The number of bytes to skip where `bytes` does not begin with a
/// well-formed sequence: the ill-formed sequence, or all the bytes where
/// they end in the middle of a sequence.
pub open spec fn invalid_span(bytes: Seq<u8>) -> nat {
    match invalid_len(bytes) {
        Some(len) => len,
        None => bytes.len(),
    }
}

/// No well-formed sequence begins inside the span that is skipped as
/// ill-formed.
pub proof fn lemma_invalid_span(bytes: Seq<u8>)
    requires
        bytes.len() > 0,
        !valid_first_scalar(bytes),
    ensures
        1 <= invalid_span(bytes) <= bytes.len(),
        forall|j: int|
            0 <= j < invalid_span(bytes) ==> !valid_first_scalar(#[trigger] bytes.skip(j)),
{
    lemma_begins_well_formed(bytes);
    assert forall|j: int| 0 <= j < invalid_span(bytes) implies !valid_first_scalar(
        #[trigger] bytes.skip(j),
    ) by {
        if j == 0 {
            assert(bytes.skip(0) =~= bytes);
        } else {
            assert(bytes.skip(j)[0] == bytes[j]);
            assert(is_continuation_byte(bytes[j]));
            lemma_begins_well_formed(bytes.skip(j));
        }
    }
}

/// The code points of bytes that begin with UTF-8 are the characters of
/// that text, and then the code points of the bytes after it.
pub proof fn lemma_byte_points_valid(bytes: Seq<u8>, valid: int)
    requires
        0 <= valid <= bytes.len(),
        valid_utf8(bytes.take(valid)),
    ensures
        byte_points(bytes) == Seq::new(
            decode_utf8(bytes.take(valid)).len(),
            |i: int| decode_utf8(bytes.take(valid))[i] as u32,
        ) + byte_points(bytes.skip(valid)),
    decreases valid,
{
    let head = bytes.take(valid);
    let text = decode_utf8(head);
    let points = Seq::new(text.len(), |i: int| text[i] as u32);
    if valid == 0 {
        assert(bytes.skip(0) =~= bytes);
        assert(points + byte_points(bytes) =~= byte_points(bytes));
    } else {
        lemma_begins_well_formed(head);
        lemma_begins_well_formed(bytes);
        let width = length_of_first_scalar(head);
        assert(valid_first_scalar(bytes));
        assert(decode_first_scalar(bytes) == decode_first_scalar(head));
        let tail = pop_first_scalar(bytes);
        assert(tail.take(valid - width) =~= pop_first_scalar(head));
        assert(tail.skip(valid - width) =~= bytes.skip(valid));
        lemma_byte_points_valid(tail, valid - width);
        let rest = decode_utf8(pop_first_scalar(head));
        let first = decode_first_scalar(head);
        assert(text =~= seq![first as char] + rest);
        assert(points =~= seq![first] + Seq::new(rest.len(), |i: int| rest[i] as u32));
    }
}

/// The length of the longest prefix of `bytes` that is UTF-8.
pub open spec fn valid_up_to(bytes: Seq<u8>) -> int
    decreases bytes.len(),
{
    if bytes.len() > 0 && valid_first_scalar(bytes) {
        length_of_first_scalar(bytes) + valid_up_to(pop_first_scalar(bytes))
    } else {
        0
    }
}

/// A prefix that is UTF-8 and cannot be made longer is the longest one.
pub proof fn lemma_valid_up_to(bytes: Seq<u8>, valid: int)
    requires
        0 <= valid <= bytes.len(),
        valid_utf8(bytes.take(valid)),
        valid < bytes.len() ==> !valid_first_scalar(bytes.skip(valid)),
    ensures
        valid_up_to(bytes) == valid,
    decreases valid,
{
    let head = bytes.take(valid);
    if valid == 0 {
        assert(bytes.skip(0) =~= bytes);
    } else {
        lemma_begins_well_formed(head);
        lemma_begins_well_formed(bytes);
        let width = length_of_first_scalar(head);
        assert(valid_first_scalar(bytes));
        let tail = pop_first_scalar(bytes);
        assert(tail.take(valid - width) =~= pop_first_scalar(head));
        assert(tail.skip(valid - width) =~= bytes.skip(valid));
        lemma_valid_up_to(tail, valid - width);
    }
}

/// The code points of `bytes` where each byte is taken by itself, as the
/// code point of its value.
pub open spec fn single_bytes(bytes: Seq<u8>) -> Seq<u32> {
    Seq::new(bytes.len(), |i: int| bytes[i] as u32)
}

/// Where no well-formed sequence begins among the first `count` bytes,
/// these bytes are taken one by one.
pub proof fn lemma_byte_points_invalid(bytes: Seq<u8>, count: int)
    requires
        0 <= count <= bytes.len(),
        forall|j: int| 0 <= j < count ==> !valid_first_scalar(#[trigger] bytes.skip(j)),
    ensures
        byte_points(bytes) == single_bytes(bytes.take(count)) + byte_points(bytes.skip(count)),
    decreases count,
{
    if count == 0 {
        assert(bytes.skip(0) =~= bytes);
        assert(single_bytes(bytes.take(0)) + byte_points(bytes) =~= byte_points(bytes));
    } else {
        let rest = bytes.skip(1);
        assert(bytes.skip(0) =~= bytes);
        assert forall|j: int| 0 <= j < count - 1 implies !valid_first_scalar(
            #[trigger] rest.skip(j),
        ) by {
            assert(rest.skip(j) =~= bytes.skip(j + 1));
        }
        lemma_byte_points_invalid(rest, count - 1);
        assert(rest.skip(count - 1) =~= bytes.skip(count));
        assert(single_bytes(bytes.take(count)) =~= seq![bytes[0] as u32] + single_bytes(
            rest.take(count - 1),
        ));
    }
}

/// The code points of bytes in three parts: of the text that they begin
/// with, of the ill-formed sequence after it, and of what follows.
pub proof fn lemma_byte_points_parts(bytes: Seq<u8>, valid: int, invalid: int)
    requires
        0 <= valid <= bytes.len(),
        valid_utf8(bytes.take(valid)),
        valid == bytes.len() ==> invalid == 0,
        valid < bytes.len() ==> !valid_first_scalar(bytes.skip(valid)) && invalid == invalid_span(
            bytes.skip(valid),
        ),
    ensures
        0 <= invalid,
        valid + invalid <= bytes.len(),
        valid + invalid == 0 ==> bytes.len() == 0,
        byte_points(bytes) == Seq::new(
            decode_utf8(bytes.take(valid)).len(),
            |i: int| decode_utf8(bytes.take(valid))[i] as u32,
        ) + single_bytes(bytes.subrange(valid, valid + invalid)) + byte_points(
            bytes.skip(valid + invalid),
        ),
{
    let rest = bytes.skip(valid);
    lemma_byte_points_valid(bytes, valid);
    if valid < bytes.len() {
        lemma_invalid_span(rest);
    }
    lemma_byte_points_invalid(rest, invalid);
    assert(rest.take(invalid) =~= bytes.subrange(valid, valid + invalid));
    assert(rest.skip(invalid) =~= bytes.skip(valid + invalid));
}

/// The code points of UTF-8 are the characters that it encodes.
pub proof fn lemma_byte_points_of_utf8(bytes: Seq<u8>)
    requires
        valid_utf8(bytes),
    ensures
        byte_points(bytes) == Seq::new(
            decode_utf8(bytes).len(),
            |i: int| decode_utf8(bytes)[i] as u32,
        ),
{
    let all = bytes.len() as int;
    assert(bytes.take(all) =~= bytes);
    assert(bytes.skip(all) =~= Seq::<u8>::empty());
    lemma_byte_points_valid(bytes, all);
    let points = Seq::new(decode_utf8(bytes).len(), |i: int| decode_utf8(bytes)[i] as u32);
    assert(points + Seq::<u32>::empty() =~= points);
}

/// The encoding of two texts joined is the two encodings joined.
pub proof fn lemma_encode_concat(a: Seq<char>, b: Seq<char>)
    ensures
        encode_utf8(a + b) == encode_utf8(a) + encode_utf8(b),
    decreases a.len(),
{
    if a.len() == 0 {
        assert(a + b =~= b);
        assert(encode_utf8(a) + encode_utf8(b) =~= encode_utf8(b));
    } else {
        lemma_encode_concat(a.drop_first(), b);
        assert((a + b).drop_first() =~= a.drop_first() + b);
        assert(encode_utf8(a + b) =~= encode_utf8(a) + encode_utf8(b));
    }
}

/// The encoding of a text splits where the text does.
pub proof fn lemma_encode_split(text: Seq<char>, n: int)
    requires
        0 <= n <= text.len(),
    ensures
        encode_utf8(text) == encode_utf8(text.take(n)) + encode_utf8(text.skip(n)),
        encode_utf8(text).take(encode_utf8(text.take(n)).len() as int) == encode_utf8(text.take(n)),
        encode_utf8(text).skip(encode_utf8(text.take(n)).len() as int) == encode_utf8(text.skip(n)),
{
    assert(text =~= text.take(n) + text.skip(n));
    lemma_encode_concat(text.take(n), text.skip(n));
    let head = encode_utf8(text.take(n));
    let tail = encode_utf8(text.skip(n));
    assert((head + tail).take(head.len() as int) =~= head);
    assert((head + tail).skip(head.len() as int) =~= tail);
}

/// Texts with the same encoding are the same.
pub proof fn lemma_encode_injective(a: Seq<char>, b: Seq<char>)
    requires
        encode_utf8(a) == encode_utf8(b),
    ensures
        a == b,
{
    encode_utf8_decode_utf8(a);
    encode_utf8_decode_utf8(b);
}

/// The encoding of the first `n` characters of a text ends at a character
/// boundary of the text's encoding.
pub proof fn lemma_encode_boundary(text: Seq<char>, n: int)
    requires
        0 <= n <= text.len(),
    ensures
        is_char_boundary(encode_utf8(text), encode_utf8(text.take(n)).len() as int),
    decreases n,
{
    let bytes = encode_utf8(text);
    encode_utf8_valid_utf8(text);
    if n == 0 {
        assert(text.take(0) =~= Seq::<char>::empty());
    } else {
        let rest = text.drop_first();
        lemma_encode_boundary(rest, n - 1);
        encode_utf8_first_scalar(text);
        lemma_encode_split(text, n);
        assert(pop_first_scalar(bytes) =~= encode_utf8(rest));
        assert(text.take(n).drop_first() =~= rest.take(n - 1));
        assert(text.take(n)[0] == text[0]);
    }
}

/// The encoding of a text of one character is the encoding of the
/// character.
pub proof fn lemma_encode_one(ch: char)
    ensures
        encode_utf8(seq![ch]) == vstd::utf8::encode_scalar(ch as u32),
{
    reveal_with_fuel(encode_utf8, 2);
    assert(seq![ch].drop_first() =~= Seq::<char>::empty());
    assert(encode_utf8(seq![ch]) =~= vstd::utf8::encode_scalar(ch as u32));
}

/// An encoding has at least as many bytes as the text has characters.
pub proof fn lemma_encode_len(text: Seq<char>)
    ensures
        encode_utf8(text).len() >= text.len(),
    decreases text.len(),
{
    if text.len() > 0 {
        lemma_encode_len(text.drop_first());
    }
}

/// The part of `text` that begins after `from` bytes and ends after `to`
/// bytes, where these are the encoded lengths of its first `first` and its
/// first `end` characters.
pub(crate) fn str_between<'a>(
    text: &'a str,
    from: usize,
    to: usize,
    Ghost(first): Ghost<int>,
    Ghost(end): Ghost<int>,
) -> (part: &'a str)
    requires
        0 <= first <= end <= text@.len(),
        from == encode_utf8(text@.take(first)).len(),
        to == encode_utf8(text@.take(end)).len(),
    ensures
        part@ == text@.subrange(first, end),
{
    proof {
        lemma_encode_boundary(text@, first);
        lemma_encode_split(text@, first);
    }
    let (_, tail) = text.split_at(from);
    proof {
        assert(tail.spec_bytes() =~= encode_utf8(text@.skip(first)));
        lemma_encode_injective(tail@, text@.skip(first));
        assert(tail@.take(end - first) =~= text@.subrange(first, end));
        assert(text@.take(end) =~= text@.take(first) + text@.subrange(first, end));
        lemma_encode_concat(text@.take(first), text@.subrange(first, end));
        lemma_encode_boundary(tail@, end - first);
        lemma_encode_split(tail@, end - first);
    }
    let (part, _) = tail.split_at(to - from);
    proof {
        assert(part.spec_bytes() =~= encode_utf8(text@.subrange(first, end)));
        lemma_encode_injective(part@, text@.subrange(first, end));
    }
    part
}

} // verus!
