//! Quoting of values that can escape themselves.
use vstd::pervasive::unreached;
use vstd::prelude::*;
use vstd::slice::slice_subrange;
use vstd::string::StringSliceAdditionalSpecFns;
use vstd::utf8::decode_utf8;
use vstd::utf8::encode_utf8;
use vstd::utf8::encode_utf8_decode_utf8;
use vstd::utf8::encode_utf8_first_scalar;
use vstd::utf8::encode_utf8_valid_utf8;
use vstd::utf8::valid_first_scalar;

use crate::escape::escape_form;
use crate::escape::escaped_points;
use crate::escape::escaped_text;
use crate::escape::EscapedCodePoint;
use crate::escape::lemma_escaped_plain;
use crate::escape::lemma_escaped_point;
use crate::escape::lemma_escaped_points_concat;
use crate::escape::lemma_escaped_text_concat;
use crate::escape::lemma_escaped_text_parts;
use crate::escape::points_pieces;
use crate::escape::run_pieces;
use crate::escape::text_pieces;
use crate::escape::text_points;
use crate::escape::utf8::byte_points;
use crate::escape::utf8::decode_char;
use crate::escape::utf8::invalid_span;
use crate::escape::utf8::lemma_encode_concat;
use crate::escape::utf8::lemma_encode_len;
use crate::escape::utf8::lemma_encode_one;
use crate::escape::utf8::lemma_encode_split;
use crate::escape::utf8::lemma_byte_points_parts;
use crate::escape::utf8::single_bytes;
use crate::escape::utf8::str_between;
use crate::escape::utf8::valid_up_to;
use crate::escape::utf8::validate;
use crate::formatter::Error;
use crate::formatter::Formatter;
use crate::formatter::lemma_writes_next;
use crate::formatter::lemma_writes_nothing;
use crate::formatter::lemma_writes_then;
use crate::QUOTE;

verus! {

/// A value to be shown between quotes, with its content escaped.
#[derive(Debug)]
pub struct Display<T>(T);

impl<T> Display<T> {
    /// The value to be shown.
    pub closed spec fn value(self) -> T {
        self.0
    }
}

/// `body` between quotes.
pub open spec fn quoted(body: Seq<char>) -> Seq<char> {
    seq![QUOTE] + body + seq![QUOTE]
}

/// Values that can be quoted.
pub trait Quote {
    /// The escaped form of this value, without the surrounding quotes.
    spec fn escaped(&self) -> Seq<char>;

    /// The number of writes in which the escaped form reaches a formatter.
    spec fn pieces(&self) -> nat;

    /// Writes the escaped form of this value to `f`, without the
    /// surrounding quotes. This fails exactly if `f` has no room for all of
    /// it.
    fn escape(&self, f: &mut Formatter) -> (r: Result<(), Error>)
        ensures
            old(f).writes(self.escaped(), *final(f), r),
            r is Ok ==> final(f).pieces() == old(f).pieces() + self.pieces(),
    ;

    /// Prepares this value to be shown between quotes.
    fn quote(&self) -> (display: Display<&Self>)
        ensures
            display.value() == self,
    {
        Display(self)
    }
}

/// Writes the characters of `text` from the one that begins after `from`
/// bytes to the one that ends after `to` bytes, all of which are written as
/// they are, in one piece.
fn push_literal(
    text: &str,
    from: usize,
    to: usize,
    f: &mut Formatter,
    Ghost(first): Ghost<int>,
    Ghost(end): Ghost<int>,
) -> (r: Result<(), Error>)
    requires
        0 <= first <= end <= text@.len(),
        from == encode_utf8(text@.take(first)).len(),
        to == encode_utf8(text@.take(end)).len(),
        forall|i: int| first <= i < end ==> escape_form(#[trigger] text@[i] as u32).is_plain(),
    ensures
        old(f).writes(escaped_text(text@.subrange(first, end)), *final(f), r),
        final(f).pieces() == old(f).pieces() + if first < end {
            1nat
        } else {
            0nat
        },
{
    let ghost span = text@.subrange(first, end);
    proof {
        assert forall|i: int| 0 <= i < span.len() implies escape_form(
            #[trigger] span[i] as u32,
        ).is_plain() by {
            assert(span[i] == text@[first + i]);
        }
        lemma_escaped_plain(span);
    }
    if from != to {
        f.write_str(str_between(text, from, to, Ghost(first), Ghost(end)))
    } else {
        proof {
            assert(text@.take(end) =~= text@.take(first) + span);
            lemma_encode_concat(text@.take(first), span);
            lemma_encode_len(span);
            assert(span =~= Seq::<char>::empty());
            lemma_writes_nothing(*f);
        }
        Ok(())
    }
}

impl Quote for str {
    open spec fn escaped(&self) -> Seq<char> {
        escaped_text(self@)
    }

    open spec fn pieces(&self) -> nat {
        text_pieces(self@)
    }

    /// Runs of characters that are written as they are go to `f` in one
    /// piece each.
    fn escape(&self, f: &mut Formatter) -> (r: Result<(), Error>) {
        let bytes = self.as_bytes();
        let ghost text = self@;
        let ghost start = *old(f);
        // The characters before `index` have been looked at, those before
        // `escaped_index` have been written.
        let mut index: usize = 0;
        let mut escaped_index: usize = 0;
        let ghost mut seen: int = 0;
        let ghost mut done: int = 0;
        proof {
            lemma_writes_nothing(start);
            assert(text.take(0) =~= Seq::<char>::empty());
            assert(text_points(text.take(0)) =~= Seq::<u32>::empty());
            assert(text.skip(0) =~= text);
        }
        while index < bytes.len()
            invariant
                start == *old(f),
                text == self@,
                bytes@ == encode_utf8(text),
                0 <= done <= seen <= text.len(),
                index == encode_utf8(text.take(seen)).len(),
                escaped_index == encode_utf8(text.take(done)).len(),
                index <= bytes.len(),
                start.writes(escaped_text(text.take(done)), *f, Ok(())),
                forall|i: int|
                    done <= i < seen ==> escape_form(#[trigger] text[i] as u32).is_plain(),
                start.pieces() + text_pieces(text) == f.pieces() + run_pieces(
                    text.skip(seen),
                    done < seen,
                ) + if done < seen {
                    1nat
                } else {
                    0nat
                },
            decreases bytes.len() - index,
        {
            proof {
                lemma_encode_split(text, seen);
                if seen == text.len() {
                    assert(text.take(seen) =~= text);
                }
                encode_utf8_first_scalar(text.skip(seen));
                assert(text.take(seen + 1) =~= text.take(seen) + seq![text[seen]]);
                lemma_encode_concat(text.take(seen), seq![text[seen]]);
                lemma_encode_split(text, seen + 1);
                lemma_encode_one(text[seen]);
            }
            let (ch, width) = decode_char(bytes, index);
            proof {
                vstd::utf8::char_u32_cast(ch, ch as u32);
                vstd::utf8::char_u32_cast(text[seen], text[seen] as u32);
                assert(ch == text[seen]);
                assert(text.skip(seen).drop_first() =~= text.skip(seen + 1));
            }
            let form = EscapedCodePoint::from(ch);
            if !form.is_literal() {
                let ghost rest = escaped_text(text.skip(seen));
                let ghost one = seq![text[seen]];
                proof {
                    lemma_escaped_text_parts(text, done, seen);
                    lemma_escaped_text_parts(text, seen, seen + 1);
                    assert(text.subrange(seen, seen + 1) =~= one);
                    assert(text_points(one) =~= seq![ch as u32]);
                    lemma_escaped_point(ch as u32);
                }
                let ghost before = *f;
                let r = push_literal(self, escaped_index, index, f, Ghost(done), Ghost(seen));
                proof {
                    lemma_writes_next(
                        start,
                        before,
                        *f,
                        escaped_text(text.take(done)),
                        escaped_text(text.subrange(done, seen)),
                        rest,
                        r,
                    );
                }
                if r.is_err() {
                    return r;
                }
                let ghost before = *f;
                let r = form.format(f);
                proof {
                    lemma_writes_next(
                        start,
                        before,
                        *f,
                        escaped_text(text.take(seen)),
                        escaped_text(one),
                        escaped_text(text.skip(seen + 1)),
                        r,
                    );
                }
                if r.is_err() {
                    return r;
                }
                escaped_index = index + width;
                proof {
                    done = seen + 1;
                }
            }
            index += width;
            proof {
                seen = seen + 1;
            }
        }
        proof {
            lemma_encode_split(text, seen);
            lemma_encode_len(text.skip(seen));
            assert(text.take(seen) =~= text);
            lemma_escaped_text_parts(text, done, seen);
        }
        let ghost before = *f;
        let r = push_literal(self, escaped_index, index, f, Ghost(done), Ghost(seen));
        proof {
            lemma_writes_then(
                start,
                before,
                *f,
                escaped_text(text.take(done)),
                escaped_text(text.subrange(done, seen)),
                r,
            );
        }
        r
    }
}

impl Quote for char {
    open spec fn escaped(&self) -> Seq<char> {
        escaped_text(seq![*self])
    }

    open spec fn pieces(&self) -> nat {
        escape_form(*self as u32).pieces()
    }

    fn escape(&self, f: &mut Formatter) -> (r: Result<(), Error>) {
        proof {
            assert(text_points(seq![*self]) =~= seq![*self as u32]);
            lemma_escaped_point(*self as u32);
        }
        EscapedCodePoint::from(*self).format(f)
    }
}

/// The escaped forms of the characters of `text`, each escaped on its own,
/// one after another.
pub open spec fn escaped_one_by_one(text: Seq<char>) -> Seq<char>
    decreases text.len(),
{
    if text.len() == 0 {
        seq![]
    } else {
        text[0].escaped() + escaped_one_by_one(text.drop_first())
    }
}

/// Writing a text in runs changes nothing: its escaped form is that of
/// its characters, each escaped on its own.
pub proof fn lemma_runs_change_nothing(text: &str)
    ensures
        text.escaped() == escaped_one_by_one(text@),
{
    lemma_one_by_one(text@);
}

proof fn lemma_one_by_one(text: Seq<char>)
    ensures
        escaped_text(text) == escaped_one_by_one(text),
    decreases text.len(),
{
    if text.len() > 0 {
        lemma_one_by_one(text.drop_first());
        assert(text =~= seq![text[0]] + text.drop_first());
        lemma_escaped_text_concat(seq![text[0]], text.drop_first());
    }
}

/// The number of bytes to skip after the text that `bytes` begins with:
/// those of the ill-formed sequence there, or none at the end.
pub open spec fn invalid_after(bytes: Seq<u8>, valid: int) -> int {
    if valid < bytes.len() {
        invalid_span(bytes.skip(valid)) as int
    } else {
        0
    }
}

/// The number of writes that `bytes` takes: those of the text that it
/// begins with, written in runs, those of the bytes of the ill-formed
/// sequence after it, written one by one, and those of what follows.
#[verifier::opaque]
pub open spec fn bytes_pieces(bytes: Seq<u8>) -> nat
    decreases bytes.len(),
{
    let valid = valid_up_to(bytes);
    let invalid = invalid_after(bytes, valid);
    if 0 <= valid && 0 <= invalid && 0 < valid + invalid <= bytes.len() {
        text_pieces(decode_utf8(bytes.take(valid))) + points_pieces(
            single_bytes(bytes.subrange(valid, valid + invalid)),
        ) + bytes_pieces(bytes.skip(valid + invalid))
    } else {
        0
    }
}

/// Writes each of `bytes` as the code point of its value.
fn escape_single_bytes(bytes: &[u8], f: &mut Formatter) -> (r: Result<(), Error>)
    ensures
        old(f).writes(escaped_points(single_bytes(bytes@)), *final(f), r),
        r is Ok ==> final(f).pieces() == old(f).pieces() + points_pieces(single_bytes(bytes@)),
{
    let ghost start = *old(f);
    let ghost points = single_bytes(bytes@);
    let mut i: usize = 0;
    proof {
        lemma_writes_nothing(start);
        assert(points.take(0) =~= Seq::<u32>::empty());
        assert(points.skip(0) =~= points);
    }
    while i < bytes.len()
        invariant
            start == *old(f),
            points == single_bytes(bytes@),
            i <= bytes.len(),
            start.writes(escaped_points(points.take(i as int)), *f, Ok(())),
            start.pieces() + points_pieces(points) == f.pieces() + points_pieces(
                points.skip(i as int),
            ),
        decreases bytes.len() - i,
    {
        let byte = bytes[i];
        let ghost one = seq![byte as u32];
        proof {
            assert(points.take(i + 1) =~= points.take(i as int) + one);
            assert(points =~= points.take(i + 1) + points.skip(i + 1));
            lemma_escaped_points_concat(points.take(i as int), one);
            lemma_escaped_points_concat(points.take(i + 1), points.skip(i + 1));
            lemma_escaped_point(byte as u32);
            assert(points.skip(i as int)[0] == byte as u32);
            assert(points.skip(i as int).drop_first() =~= points.skip(i + 1));
        }
        let ghost before = *f;
        let r = EscapedCodePoint::from(byte).format(f);
        proof {
            lemma_writes_next(
                start,
                before,
                *f,
                escaped_points(points.take(i as int)),
                escaped_points(one),
                escaped_points(points.skip(i + 1)),
                r,
            );
        }
        if r.is_err() {
            return r;
        }
        i += 1;
    }
    proof {
        assert(points.take(i as int) =~= points);
        assert(points.skip(i as int) =~= Seq::<u32>::empty());
    }
    Ok(())
}

/// What one round of escaping bytes comes to: the text that `bytes` begins
/// with, the `invalid` bytes after it, and the rest, in their escaped forms
/// and in the number of their writes.
proof fn lemma_bytes_round(bytes: Seq<u8>, valid: int, invalid: int, text: Seq<char>)
    requires
        0 <= valid <= bytes.len(),
        0 < bytes.len(),
        encode_utf8(text) == bytes.take(valid),
        valid == valid_up_to(bytes),
        valid == bytes.len() ==> invalid == 0,
        valid < bytes.len() ==> !valid_first_scalar(bytes.skip(valid)) && invalid == invalid_span(
            bytes.skip(valid),
        ),
    ensures
        0 < valid + invalid <= bytes.len(),
        escaped_points(byte_points(bytes)) == escaped_text(text) + (escaped_points(
            single_bytes(bytes.subrange(valid, valid + invalid)),
        ) + escaped_points(byte_points(bytes.skip(valid + invalid)))),
        bytes_pieces(bytes) == text_pieces(text) + points_pieces(
            single_bytes(bytes.subrange(valid, valid + invalid)),
        ) + bytes_pieces(bytes.skip(valid + invalid)),
{
    reveal(bytes_pieces);
    encode_utf8_decode_utf8(text);
    encode_utf8_valid_utf8(text);
    lemma_byte_points_parts(bytes, valid, invalid);
    let singles = single_bytes(bytes.subrange(valid, valid + invalid));
    let rest = byte_points(bytes.skip(valid + invalid));
    assert(byte_points(bytes) == text_points(text) + singles + rest);
    lemma_escaped_points_concat(text_points(text) + singles, rest);
    lemma_escaped_points_concat(text_points(text), singles);
    assert(escaped_text(text) + escaped_points(singles) + escaped_points(rest) =~= escaped_text(
        text,
    ) + (escaped_points(singles) + escaped_points(rest)));
}

/// Splits off the text that `bytes` begins with and the ill-formed sequence
/// after it, and tells how many bytes the two take up.
fn leading_text(bytes: &[u8]) -> (r: (&str, &[u8], usize))
    requires
        bytes.len() > 0,
    ensures
        0 < r.2 <= bytes.len(),
        escaped_points(byte_points(bytes@)) == r.0.escaped() + (escaped_points(
            single_bytes(r.1@),
        ) + escaped_points(byte_points(bytes@.skip(r.2 as int)))),
        bytes_pieces(bytes@) == text_pieces(r.0@) + points_pieces(single_bytes(r.1@))
            + bytes_pieces(bytes@.skip(r.2 as int)),
{
    let (valid_length, invalid_length) = match validate(bytes) {
        Ok(()) => (bytes.len(), 0),
        Err(error) => (
            error.valid_up_to,
            match error.error_len {
                Some(length) => length,
                None => bytes.len() - error.valid_up_to,
            },
        ),
    };
    assert(bytes@.take(bytes@.len() as int) =~= bytes@);
    let valid = slice_subrange(bytes, 0, valid_length);
    assert(valid@ =~= bytes@.take(valid_length as int));
    let text = match core::str::from_utf8(valid) {
        Ok(text) => text,
        Err(_) => unreached(),
    };
    proof {
        lemma_bytes_round(bytes@, valid_length as int, invalid_length as int, text@);
    }
    let invalid = slice_subrange(bytes, valid_length, valid_length + invalid_length);
    (text, invalid, valid_length + invalid_length)
}

impl Quote for [u8] {
    open spec fn escaped(&self) -> Seq<char> {
        escaped_points(byte_points(self@))
    }

    open spec fn pieces(&self) -> nat {
        bytes_pieces(self@)
    }

    /// What is UTF-8 is escaped as text. Where the bytes stop being UTF-8,
    /// each byte of the ill-formed sequence is escaped as the code point of
    /// its value, and the search for text begins again after it.
    fn escape(&self, f: &mut Formatter) -> (r: Result<(), Error>) {
        let ghost start = *old(f);
        let ghost mut written = Seq::<char>::empty();
        let mut at: usize = 0;
        proof {
            lemma_writes_nothing(start);
            assert(self@.skip(0) =~= self@);
        }
        while at < self.len()
            invariant
                start == *old(f),
                at <= self.len(),
                start.writes(written, *f, Ok(())),
                self.escaped() == written + escaped_points(byte_points(self@.skip(at as int))),
                start.pieces() + bytes_pieces(self@) == f.pieces() + bytes_pieces(
                    self@.skip(at as int),
                ),
            decreases self.len() - at,
        {
            let string = slice_subrange(self, at, self.len());
            let (valid, invalid, length) = leading_text(string);
            let ghost text = valid.escaped();
            let ghost singles = escaped_points(single_bytes(invalid@));
            let ghost rest = escaped_points(byte_points(string@.skip(length as int)));
            proof {
                assert(string@ =~= self@.skip(at as int));
                assert(string@.skip(length as int) =~= self@.skip(at + length));
                assert(self.escaped() =~= written + text + (singles + rest));
                assert(self.escaped() =~= written + text + singles + rest);
            }
            let ghost before = *f;
            let r = valid.escape(f);
            proof {
                lemma_writes_next(start, before, *f, written, text, singles + rest, r);
            }
            if r.is_err() {
                return r;
            }
            let ghost between = *f;
            let r = escape_single_bytes(invalid, f);
            proof {
                lemma_writes_next(start, between, *f, written + text, singles, rest, r);
                written = written + text + singles;
            }
            if r.is_err() {
                return r;
            }
            at += length;
        }
        proof {
            assert(self@.skip(at as int) =~= Seq::<u8>::empty());
            assert(written + Seq::<char>::empty() =~= written);
            assert(bytes_pieces(Seq::<u8>::empty()) == 0) by {
                reveal(bytes_pieces);
            }
        }
        Ok(())
    }
}

impl<const N: usize> Quote for [u8; N] {
    open spec fn escaped(&self) -> Seq<char> {
        escaped_points(byte_points(self@))
    }

    open spec fn pieces(&self) -> nat {
        bytes_pieces(self@)
    }

    fn escape(&self, f: &mut Formatter) -> (r: Result<(), Error>) {
        self.as_slice().escape(f)
    }
}

impl Quote for String {
    open spec fn escaped(&self) -> Seq<char> {
        escaped_text(self@)
    }

    open spec fn pieces(&self) -> nat {
        text_pieces(self@)
    }

    fn escape(&self, f: &mut Formatter) -> (r: Result<(), Error>) {
        self.as_str().escape(f)
    }
}

impl Quote for Vec<u8> {
    open spec fn escaped(&self) -> Seq<char> {
        escaped_points(byte_points(self@))
    }

    open spec fn pieces(&self) -> nat {
        bytes_pieces(self@)
    }

    fn escape(&self, f: &mut Formatter) -> (r: Result<(), Error>) {
        self.as_slice().escape(f)
    }
}

impl<T: Quote + ?Sized> Display<&T> {
    /// Writes the value to `f` between quotes. This fails exactly if `f`
    /// has no room for all of it.
    pub fn fmt(&self, f: &mut Formatter) -> (r: Result<(), Error>)
        ensures
            old(f).writes(quoted(self.value().escaped()), *final(f), r),
            r is Ok ==> final(f).pieces() == old(f).pieces() + self.value().pieces() + 2,
    {
        let ghost start = *old(f);
        let ghost body = self.0.escaped();
        let ghost quote = seq![QUOTE];
        proof {
            lemma_writes_nothing(start);
        }
        let r = f.write_char(QUOTE);
        proof {
            lemma_writes_next(start, start, *f, seq![], quote, body + quote, r);
            assert(seq![] + quote =~= quote);
            assert(quote + (body + quote) =~= quoted(body));
        }
        if r.is_err() {
            return r;
        }
        let ghost before = *f;
        let r = self.0.escape(f);
        proof {
            lemma_writes_next(start, before, *f, quote, body, quote, r);
        }
        if r.is_err() {
            return r;
        }
        let ghost before = *f;
        let r = f.write_char(QUOTE);
        proof {
            lemma_writes_then(start, before, *f, quote + body, quote, r);
        }
        r
    }

    /// The value between quotes.
    pub fn to_string(&self) -> (s: String)
        ensures
            s@ == quoted(self.value().escaped()),
    {
        let mut f = Formatter::new();
        let _ = self.fmt(&mut f);
        assert(Seq::<char>::empty() + quoted(self.value().escaped()) =~= quoted(
            self.value().escaped(),
        ));
        f.into_string()
    }
}

} // verus!
