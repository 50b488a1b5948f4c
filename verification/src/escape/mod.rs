//! Which code points are escaped, and how.
use vstd::pervasive::unreached;
use vstd::prelude::*;
use vstd::std_specs::convert::FromSpec;
use vstd::utf8::char_is_scalar;
use vstd::utf8::char_u32_cast;
use vstd::utf8::is_scalar;

pub mod code_point;
pub mod tables;
pub mod unescape;
pub mod utf8;
pub mod wide;

use crate::END_ESCAPE;
use crate::escape::code_point::is_surrogate;
use crate::escape::code_point::CodePoint;
use crate::escape::tables::ends_before;
use crate::escape::tables::in_ranges;
use crate::escape::tables::ranges_ordered;
use crate::escape::tables::unprintable;
use crate::escape::tables::unprintable_ranges;
use crate::escape::wide::decode_utf16_at;
use crate::escape::wide::first_point;
use crate::escape::wide::utf16_points;
use crate::formatter::Error;
use crate::formatter::Formatter;
use crate::formatter::lemma_writes_failed;
use crate::formatter::lemma_writes_next;
use crate::formatter::lemma_writes_nothing;
use crate::formatter::lemma_writes_then;
use crate::QUOTE;
use crate::START_ESCAPE;

verus! {

/// Whether one of the ranges of `table` holds `code_point`.
///
/// The table is searched by bisection on the lower bounds: a code point
/// that is a lower bound starts a range; any other can only belong to the
/// range before the place where it would be inserted.
pub fn table_contains(table: &[(u32, u32)], code_point: CodePoint) -> (found: bool)
    requires
        ranges_ordered(table@),
    ensures
        found == in_ranges(table@, code_point.0),
{
    let value: u32 = code_point.0;
    let mut low: usize = 0;
    let mut high: usize = table.len();
    while low < high
        invariant
            low <= high <= table.len(),
            value == code_point.0,
            ranges_ordered(table@),
            forall|i: int| 0 <= i < low ==> (#[trigger] table@[i]).0 < value,
            forall|i: int| high <= i < table.len() ==> value < (#[trigger] table@[i]).0,
        decreases high - low,
    {
        let middle = low + (high - low) / 2;
        let start = table[middle].0;
        proof {
            let m = middle as int;
            assert forall|i: int| 0 <= i < m implies (#[trigger] table@[i]).0 < table@[m].0 by {
                assert(ends_before(table@, i, m));
            }
            assert forall|i: int| m < i < table.len() implies table@[m].0 < (
            #[trigger] table@[i]).0 by {
                assert(ends_before(table@, m, i));
            }
        }
        if start == value {
            assert(table@[middle as int].0 <= value <= table@[middle as int].1);
            return true;
        }
        if start < value {
            low = middle + 1;
        } else {
            high = middle;
        }
    }
    if low == 0 {
        false
    } else {
        let found = value <= table[low - 1].1;
        proof {
            if found {
                assert(table@[low - 1].0 <= value <= table@[low - 1].1);
            } else {
                assert forall|i: int| 0 <= i < table.len() implies !((#[trigger] table@[i]).0
                    <= value <= table@[i].1) by {
                    if i < low - 1 {
                        assert(ends_before(table@, i, low - 1));
                    }
                }
            }
        }
        found
    }
}

/// Whether the code point `value` is shown as it is, where nothing else
/// is special about it: the printable part of ASCII, and above ASCII
/// whatever the table of unprintable code points leaves out.
pub open spec fn printable(value: u32) -> bool {
    if value < 0x80 {
        0x20 <= value <= 0x7E
    } else {
        !in_ranges(unprintable_ranges(), value)
    }
}

/// Whether `ch` is printable. ASCII is decided without the table.
pub fn is_printable(ch: char) -> (r: bool)
    ensures
        r == printable(ch as u32),
{
    let value = ch as u32;
    if value < 0x80 {
        0x20 <= value && value <= 0x7E
    } else {
        !table_contains(unprintable(), CodePoint(value))
    }
}

/// How one code point is written.
#[derive(Clone, Copy, Debug, PartialEq, Eq)]
pub enum EscapedCodePoint {
    /// The code point in hexadecimal, between the escape characters.
    Hex(CodePoint),
    /// The character itself, written twice where it is one of the escape
    /// characters.
    Literal { ch: char, escape: bool },
    /// The quote character, between the escape characters.
    Quote,
    /// A short name for a control character, between the escape characters.
    Sequence(&'static str),
}

/// How the code point `value` is written. The first rule that applies
/// decides: the three named control characters, the quote, the two escape
/// characters, any other printable character, and hexadecimal for the rest.
/// A surrogate always falls under the last rule.
pub open spec fn escape_form(value: u32) -> EscapedCodePoint {
    if value == 0x09 {
        EscapedCodePoint::Sequence("t")
    } else if value == 0x0A {
        EscapedCodePoint::Sequence("n")
    } else if value == 0x0D {
        EscapedCodePoint::Sequence("r")
    } else if value == QUOTE as u32 {
        EscapedCodePoint::Quote
    } else if value == START_ESCAPE as u32 || value == END_ESCAPE as u32 {
        EscapedCodePoint::Literal { ch: value as char, escape: true }
    } else if is_scalar(value) && printable(value) {
        EscapedCodePoint::Literal { ch: value as char, escape: false }
    } else {
        EscapedCodePoint::Hex(CodePoint(value))
    }
}

/// The lower-case hexadecimal digit for `digit`, which is below 16.
pub open spec fn hex_digit(digit: nat) -> char {
    if digit < 10 {
        ((0x30 + digit) as u8) as char
    } else {
        ((0x57 + digit) as u8) as char
    }
}

/// `value` in lower-case hexadecimal, without leading zeros.
pub open spec fn hex_digits(value: nat) -> Seq<char>
    decreases value,
{
    if value < 16 {
        seq![hex_digit(value)]
    } else {
        hex_digits(value / 16).push(hex_digit(value % 16))
    }
}

fn hex_digit_of(digit: u32) -> (ch: char)
    requires
        digit < 16,
    ensures
        ch == hex_digit(digit as nat),
{
    if digit < 10 {
        (0x30 + digit as u8) as char
    } else {
        (0x57 + digit as u8) as char
    }
}

fn write_hex(f: &mut Formatter, value: u32) -> (r: Result<(), Error>)
    ensures
        old(f).writes(hex_digits(value as nat), *final(f), r),
        r is Ok ==> final(f).pieces() == old(f).pieces() + hex_digits(value as nat).len(),
    decreases value,
{
    let ghost last = seq![hex_digit((value % 16) as nat)];
    if value >= 16 {
        let r = write_hex(f, value / 16);
        if r.is_err() {
            proof {
                lemma_writes_failed(*old(f), *f, hex_digits((value / 16) as nat), last, r);
                assert(hex_digits(value as nat) == hex_digits((value / 16) as nat) + last);
            }
            return r;
        }
    }
    let ghost between = *f;
    let r = f.write_char(hex_digit_of(value % 16));
    proof {
        if value >= 16 {
            lemma_writes_then(*old(f), between, *f, hex_digits((value / 16) as nat), last, r);
            assert(hex_digits(value as nat) == hex_digits((value / 16) as nat) + last);
        } else {
            assert(hex_digits(value as nat) == last);
        }
    }
    r
}

impl EscapedCodePoint {
    /// Whether this is a character written once, as it is.
    pub open spec fn is_plain(self) -> bool {
        self matches EscapedCodePoint::Literal { escape, .. } && !escape
    }

    /// Whether this is a character written once, as it is.
    pub fn is_literal(&self) -> (r: bool)
        ensures
            r == self.is_plain(),
    {
        match self {
            EscapedCodePoint::Literal { escape, .. } => !*escape,
            _ => false,
        }
    }

    /// The number of writes that this form takes: one for each character,
    /// and one for the short name.
    pub open spec fn pieces(self) -> nat {
        match self {
            EscapedCodePoint::Literal { escape, .. } => if escape {
                2
            } else {
                1
            },
            EscapedCodePoint::Quote => 3,
            EscapedCodePoint::Sequence(_) => 4,
            EscapedCodePoint::Hex(code_point) => 4 + hex_digits(code_point.0 as nat).len(),
        }
    }

    /// The text that this form is written as.
    pub open spec fn rendered(self) -> Seq<char> {
        match self {
            EscapedCodePoint::Literal { ch, escape } => if escape {
                seq![ch, ch]
            } else {
                seq![ch]
            },
            EscapedCodePoint::Quote => seq![START_ESCAPE, QUOTE, END_ESCAPE],
            EscapedCodePoint::Sequence(name) => seq![START_ESCAPE, '~'] + name@ + seq![END_ESCAPE],
            EscapedCodePoint::Hex(code_point) => seq![START_ESCAPE, '~', 'u'] + hex_digits(
                code_point.0 as nat,
            ) + seq![END_ESCAPE],
        }
    }

    /// Writes this form to `f`.
    pub fn format(self, f: &mut Formatter) -> (r: Result<(), Error>)
        ensures
            old(f).writes(self.rendered(), *final(f), r),
            r is Ok ==> final(f).pieces() == old(f).pieces() + self.pieces(),
    {
        let ghost start = *old(f);
        let ghost all = self.rendered();
        proof {
            lemma_writes_nothing(start);
        }
        if let EscapedCodePoint::Literal { ch, escape } = self {
            let r = f.write_char(ch);
            if r.is_err() || !escape {
                proof {
                    lemma_writes_next(start, start, *f, seq![], seq![ch], seq![ch], r);
                    assert(all == if escape {
                        seq![] + seq![ch] + seq![ch]
                    } else {
                        seq![] + seq![ch]
                    });
                }
                return r;
            }
            let ghost between = *f;
            let r = f.write_char(ch);
            proof {
                lemma_writes_next(start, between, *f, seq![ch], seq![ch], seq![], r);
                assert(all == seq![ch] + seq![ch]);
            }
            return r;
        }
        // What stands between the escape characters.
        let ghost body = match self {
            EscapedCodePoint::Quote => seq![QUOTE],
            EscapedCodePoint::Sequence(name) => seq!['~'] + name@,
            EscapedCodePoint::Hex(code_point) => seq!['~', 'u'] + hex_digits(code_point.0 as nat),
            EscapedCodePoint::Literal { .. } => seq![],
        };
        let ghost open = seq![START_ESCAPE];
        let ghost close = seq![END_ESCAPE];
        assert(all == open + body + close);

        let r = f.write_char(START_ESCAPE);
        proof {
            lemma_writes_next(start, start, *f, seq![], open, body + close, r);
            assert(seq![] + open == open);
            assert(open + (body + close) == all);
        }
        if r.is_err() {
            return r;
        }
        let ghost opened = *f;
        let r = match self {
            EscapedCodePoint::Quote => f.write_char(QUOTE),
            EscapedCodePoint::Sequence(name) => {
                let r = f.write_char('~');
                if r.is_err() {
                    proof {
                        lemma_writes_failed(opened, *f, seq!['~'], name@, r);
                    }
                    r
                } else {
                    let ghost between = *f;
                    let r = f.write_str(name);
                    proof {
                        lemma_writes_then(opened, between, *f, seq!['~'], name@, r);
                    }
                    r
                }
            },
            EscapedCodePoint::Hex(code_point) => {
                let ghost digits = hex_digits(code_point.0 as nat);
                let r = f.write_char('~');
                if r.is_err() {
                    proof {
                        lemma_writes_failed(opened, *f, seq!['~'], seq!['u'] + digits, r);
                        assert(seq!['~'] + (seq!['u'] + digits) == body);
                    }
                    r
                } else {
                    let ghost between = *f;
                    let r = f.write_char('u');
                    proof {
                        lemma_writes_next(opened, between, *f, seq!['~'], seq!['u'], digits, r);
                        assert(seq!['~'] + seq!['u'] + digits == body);
                    }
                    if r.is_err() {
                        r
                    } else {
                        let ghost between = *f;
                        let r = write_hex(f, code_point.into());
                        proof {
                            lemma_writes_then(
                                opened,
                                between,
                                *f,
                                seq!['~'] + seq!['u'],
                                digits,
                                r,
                            );
                        }
                        r
                    }
                }
            },
            EscapedCodePoint::Literal { .. } => unreached(),
        };
        proof {
            lemma_writes_next(start, opened, *f, open, body, close, r);
        }
        if r.is_err() {
            return r;
        }
        let ghost between = *f;
        let r = f.write_char(END_ESCAPE);
        proof {
            lemma_writes_then(start, between, *f, open + body, close, r);
        }
        r
    }
}

/// The escaped form of a sequence of code points: the texts that the code
/// points are written as, one after another.
pub open spec fn escaped_points(points: Seq<u32>) -> Seq<char>
    decreases points.len(),
{
    if points.len() == 0 {
        seq![]
    } else {
        escape_form(points[0]).rendered() + escaped_points(points.drop_first())
    }
}

/// The number of writes that code points take which are written one by
/// one.
pub open spec fn points_pieces(points: Seq<u32>) -> nat
    decreases points.len(),
{
    if points.len() == 0 {
        0
    } else {
        escape_form(points[0]).pieces() + points_pieces(points.drop_first())
    }
}

/// The number of writes that the rest of a text takes which is written in
/// runs: one for each run of characters that are written as they are, and
/// for any other character those of its form. A run that began before the
/// rest, as `in_run` tells, is not counted again.
pub open spec fn run_pieces(text: Seq<char>, in_run: bool) -> nat
    decreases text.len(),
{
    if text.len() == 0 {
        0
    } else {
        let form = escape_form(text[0] as u32);
        if !form.is_plain() {
            form.pieces() + run_pieces(text.drop_first(), false)
        } else if in_run {
            run_pieces(text.drop_first(), true)
        } else {
            1 + run_pieces(text.drop_first(), true)
        }
    }
}

/// The number of writes that `text` takes which is written in runs.
pub open spec fn text_pieces(text: Seq<char>) -> nat {
    run_pieces(text, false)
}

/// The code points of the characters of `text`.
pub open spec fn text_points(text: Seq<char>) -> Seq<u32> {
    Seq::new(text.len(), |i: int| text[i] as u32)
}

/// The escaped form of `text`.
pub open spec fn escaped_text(text: Seq<char>) -> Seq<char> {
    escaped_points(text_points(text))
}

/// The escaped form of a single code point is the text that it is written
/// as.
pub proof fn lemma_escaped_point(point: u32)
    ensures
        escaped_points(seq![point]) == escape_form(point).rendered(),
{
    assert(seq![point].drop_first() =~= Seq::<u32>::empty());
    assert(escaped_points(seq![point]) =~= escape_form(point).rendered() + escaped_points(
        Seq::<u32>::empty(),
    ));
}

/// Escaping goes through the code points one by one: the escaped form of
/// two sequences joined is the two escaped forms joined.
pub proof fn lemma_escaped_points_concat(a: Seq<u32>, b: Seq<u32>)
    ensures
        escaped_points(a + b) == escaped_points(a) + escaped_points(b),
    decreases a.len(),
{
    if a.len() == 0 {
        assert(a + b =~= b);
        assert(escaped_points(a) + escaped_points(b) =~= escaped_points(b));
    } else {
        lemma_escaped_points_concat(a.drop_first(), b);
        assert((a + b).drop_first() =~= a.drop_first() + b);
        assert(escaped_points(a + b) =~= escaped_points(a) + escaped_points(b));
    }
}

/// The escaped form of a text in two parts is the two escaped forms
/// joined.
pub proof fn lemma_escaped_text_concat(a: Seq<char>, b: Seq<char>)
    ensures
        escaped_text(a + b) == escaped_text(a) + escaped_text(b),
{
    assert(text_points(a + b) =~= text_points(a) + text_points(b));
    lemma_escaped_points_concat(text_points(a), text_points(b));
}

/// The escaped form of a text in three parts.
pub proof fn lemma_escaped_text_parts(text: Seq<char>, first: int, end: int)
    requires
        0 <= first <= end <= text.len(),
    ensures
        escaped_text(text.take(end)) == escaped_text(text.take(first)) + escaped_text(
            text.subrange(first, end),
        ),
        escaped_text(text) == escaped_text(text.take(end)) + escaped_text(text.skip(end)),
{
    assert(text.take(end) =~= text.take(first) + text.subrange(first, end));
    lemma_escaped_text_concat(text.take(first), text.subrange(first, end));
    assert(text =~= text.take(end) + text.skip(end));
    lemma_escaped_text_concat(text.take(end), text.skip(end));
}

/// A text of characters that are all written as they are is its own
/// escaped form.
pub proof fn lemma_escaped_plain(text: Seq<char>)
    requires
        forall|i: int| 0 <= i < text.len() ==> escape_form(#[trigger] text[i] as u32).is_plain(),
    ensures
        escaped_text(text) == text,
    decreases text.len(),
{
    if text.len() == 0 {
        assert(escaped_text(text) =~= text);
    } else {
        let rest = text.drop_first();
        assert forall|i: int| 0 <= i < rest.len() implies escape_form(
            #[trigger] rest[i] as u32,
        ).is_plain() by {
            assert(rest[i] == text[i + 1]);
        }
        lemma_escaped_plain(rest);
        assert(text_points(text).drop_first() =~= text_points(rest));
        assert(text_points(text)[0] == text[0] as u32);
        char_u32_cast(text[0], text[0] as u32);
        assert(escape_form(text[0] as u32).is_plain());
        assert(escaped_text(text) =~= seq![text[0]] + rest);
        assert(seq![text[0]] + rest =~= text);
    }
}

impl From<char> for EscapedCodePoint {
    fn from(value: char) -> (r: EscapedCodePoint) {
        proof {
            char_is_scalar(value);
            char_u32_cast(value, value as u32);
        }
        if value == '\t' {
            EscapedCodePoint::Sequence("t")
        } else if value == '\n' {
            EscapedCodePoint::Sequence("n")
        } else if value == '\r' {
            EscapedCodePoint::Sequence("r")
        } else if value == QUOTE {
            EscapedCodePoint::Quote
        } else if value == END_ESCAPE || value == START_ESCAPE {
            EscapedCodePoint::Literal { ch: value, escape: true }
        } else if is_printable(value) {
            EscapedCodePoint::Literal { ch: value, escape: false }
        } else {
            EscapedCodePoint::Hex(value.into())
        }
    }
}

impl vstd::std_specs::convert::FromSpecImpl<char> for EscapedCodePoint {
    open spec fn obeys_from_spec() -> bool {
        true
    }

    open spec fn from_spec(value: char) -> EscapedCodePoint {
        escape_form(value as u32)
    }
}

impl From<u8> for EscapedCodePoint {
    fn from(value: u8) -> (r: EscapedCodePoint) {
        EscapedCodePoint::from(value as char)
    }
}

impl vstd::std_specs::convert::FromSpecImpl<u8> for EscapedCodePoint {
    open spec fn obeys_from_spec() -> bool {
        true
    }

    open spec fn from_spec(value: u8) -> EscapedCodePoint {
        escape_form(value as u32)
    }
}

impl From<CodePoint> for EscapedCodePoint {
    fn from(value: CodePoint) -> (r: EscapedCodePoint) {
        // A code point that is no character is a surrogate or lies outside
        // the code space: neither is printable.
        match value.to_char() {
            Some(ch) => EscapedCodePoint::from(ch),
            None => EscapedCodePoint::Hex(value),
        }
    }
}

impl vstd::std_specs::convert::FromSpecImpl<CodePoint> for EscapedCodePoint {
    open spec fn obeys_from_spec() -> bool {
        true
    }

    open spec fn from_spec(value: CodePoint) -> EscapedCodePoint {
        escape_form(value.0)
    }
}

/// Writing in runs never takes more writes than writing character by
/// character.
pub proof fn lemma_runs_save_writes(text: Seq<char>, in_run: bool)
    ensures
        run_pieces(text, in_run) <= points_pieces(text_points(text)),
    decreases text.len(),
{
    if text.len() > 0 {
        lemma_runs_save_writes(text.drop_first(), true);
        lemma_runs_save_writes(text.drop_first(), false);
        assert(text_points(text).drop_first() =~= text_points(text.drop_first()));
    }
}

/// A printable ASCII character other than the quote and the two escape
/// characters is written as it is, and nothing else is written for it.
pub proof fn lemma_ascii_is_kept(ch: char)
    requires
        0x20 <= ch as u32 <= 0x7E,
        ch != QUOTE,
        ch != START_ESCAPE,
        ch != END_ESCAPE,
    ensures
        escape_form(ch as u32) == (EscapedCodePoint::Literal { ch, escape: false }),
        escaped_text(seq![ch]) == seq![ch],
{
    char_u32_cast(ch, ch as u32);
    assert(text_points(seq![ch]) =~= seq![ch as u32]);
    lemma_escaped_point(ch as u32);
}

/// What can never be shown is written in hexadecimal: the ASCII control
/// characters without a short name, the surrogates, and what lies outside
/// the code space.
pub proof fn lemma_hex_for_the_rest(value: u32)
    requires
        value < 0x20 || value == 0x7F || is_surrogate(value) || value > 0x10FFFF,
        value != 0x09,
        value != 0x0A,
        value != 0x0D,
    ensures
        escape_form(value) == EscapedCodePoint::Hex(CodePoint(value)),
{
}

/// How a code point is written depends on its value alone: a character,
/// its code point and, for ASCII and Latin-1, its byte are classified
/// alike, however often.
pub proof fn lemma_forms_agree(ch: char, byte: u8)
    ensures
        <EscapedCodePoint as FromSpec<char>>::from_spec(ch) == escape_form(ch as u32),
        <EscapedCodePoint as FromSpec<CodePoint>>::from_spec(
            <CodePoint as FromSpec<char>>::from_spec(ch),
        ) == escape_form(ch as u32),
        ch as u32 == byte as u32 ==> <EscapedCodePoint as FromSpec<u8>>::from_spec(byte)
            == <EscapedCodePoint as FromSpec<char>>::from_spec(ch),
{
}

/// Writes the escaped form of the code points that `units` encodes to
/// `f`. A surrogate without its partner is written in hexadecimal, like
/// any other code point that cannot be shown.
pub fn utf16(units: &[u16], f: &mut Formatter) -> (r: Result<(), Error>)
    ensures
        old(f).writes(escaped_points(utf16_points(units@)), *final(f), r),
        r is Ok ==> final(f).pieces() == old(f).pieces() + points_pieces(utf16_points(units@)),
{
    let ghost start = *old(f);
    let ghost all = escaped_points(utf16_points(units@));
    let ghost mut written = Seq::<char>::empty();
    let mut at: usize = 0;
    proof {
        lemma_writes_nothing(start);
        assert(units@.skip(0) =~= units@);
    }
    while at < units.len()
        invariant
            start == *old(f),
            all == escaped_points(utf16_points(units@)),
            at <= units.len(),
            start.writes(written, *f, Ok(())),
            all == written + escaped_points(utf16_points(units@.skip(at as int))),
            start.pieces() + points_pieces(utf16_points(units@)) == f.pieces() + points_pieces(
                utf16_points(units@.skip(at as int)),
            ),
        decreases units.len() - at,
    {
        let ghost here = units@.skip(at as int);
        let (decoded, width) = decode_utf16_at(units, at);
        let form = match decoded {
            Ok(ch) => EscapedCodePoint::from(ch),
            Err(error) => EscapedCodePoint::from(CodePoint::from(error)),
        };
        let ghost rest = escaped_points(utf16_points(here.skip(width as int)));
        proof {
            assert(form == escape_form(first_point(here)));
            assert(utf16_points(here).drop_first() =~= utf16_points(here.skip(width as int)));
            lemma_escaped_points_concat(
                seq![first_point(here)],
                utf16_points(here.skip(width as int)),
            );
            lemma_escaped_point(first_point(here));
            assert(here.skip(width as int) =~= units@.skip(at + width));
            assert(all =~= written + form.rendered() + rest);
        }
        let ghost before = *f;
        let r = form.format(f);
        proof {
            lemma_writes_next(start, before, *f, written, form.rendered(), rest, r);
            written = written + form.rendered();
        }
        if r.is_err() {
            return r;
        }
        at += width;
    }
    proof {
        assert(units@.skip(at as int) =~= Seq::<u16>::empty());
        assert(written + Seq::<char>::empty() =~= written);
    }
    Ok(())
}

} // verus!
