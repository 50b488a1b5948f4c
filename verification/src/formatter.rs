//! The sink that escaped text is written to.
use vstd::prelude::*;
use vstd::string::StringExecFns;
use vstd::string::StrSliceExecFns;

use crate::escape::escaped_points;
use crate::escape::points_pieces;
use crate::escape::utf16;
use crate::escape::wide::utf16_points;

verus! {

/// `String::push` appends the given character to the end of the string.
pub assume_specification[ String::push ](s: &mut String, ch: char)
    ensures
        final(s)@ == old(s)@.push(ch),
;

/// The error returned when the sink refuses a write.
#[derive(Debug, PartialEq, Eq)]
pub struct Error;

/// The first `limit` characters of `text`, or all of it where there is no
/// limit or the text is within it.
pub open spec fn clip(text: Seq<char>, limit: Option<nat>) -> Seq<char> {
    match limit {
        Some(n) => if text.len() > n {
            text.take(n as int)
        } else {
            text
        },
        None => text,
    }
}

/// A sink for escaped text.
///
/// It keeps what was written to it in memory. A bounded formatter accepts
/// text up to its limit, counted in characters: a write that would pass the
/// limit fills the formatter and fails.
pub struct Formatter {
    text: String,
    room: Option<usize>,
    pieces: Ghost<nat>,
    refused: Ghost<nat>,
}

impl View for Formatter {
    type V = Seq<char>;

    /// The text accepted so far.
    closed spec fn view(&self) -> Seq<char> {
        self.text@
    }
}

impl Formatter {
    /// The number of characters that this formatter accepts in all, if it
    /// is bounded.
    pub closed spec fn limit(&self) -> Option<nat> {
        match self.room {
            Some(room) => Some(self.text@.len() + room as nat),
            None => None,
        }
    }

    /// The number of writes that this formatter has received, each of one
    /// character or of one string, accepted or not.
    pub closed spec fn pieces(&self) -> nat {
        self.pieces@
    }

    /// The number of writes that this formatter has refused.
    pub closed spec fn refused(&self) -> nat {
        self.refused@
    }

    /// Whether `more` can be written in full.
    pub open spec fn has_room_for(&self, more: Seq<char>) -> bool {
        match self.limit() {
            Some(n) => self@.len() + more.len() <= n,
            None => true,
        }
    }

    /// What writing `text` to `self` leads to: the formatter `after` and
    /// the result `r`. The limit stays; the text is appended as far as the
    /// limit allows; the write succeeds exactly if all of it was accepted;
    /// and where it fails, it stops at the first write that is refused.
    pub open spec fn writes(
        &self,
        text: Seq<char>,
        after: Formatter,
        r: Result<(), Error>,
    ) -> bool {
        &&& after.limit() == self.limit()
        &&& after@ == clip(self@ + text, self.limit())
        &&& r is Ok <==> self.has_room_for(text)
        &&& after.refused() == self.refused() + if r is Ok {
            0nat
        } else {
            1nat
        }
    }

    /// The text never passes the limit.
    pub proof fn lemma_within_limit(&self)
        ensures
            self.limit() matches Some(n) ==> self@.len() <= n,
    {
    }

    /// Creates an empty formatter without a limit.
    pub fn new() -> (f: Formatter)
        ensures
            f@ == Seq::<char>::empty(),
            f.limit() is None,
            f.pieces() == 0,
            f.refused() == 0,
    {
        Formatter { text: String::new(), room: None, pieces: Ghost(0), refused: Ghost(0) }
    }

    /// Creates an empty formatter that accepts at most `limit` characters.
    pub fn with_limit(limit: usize) -> (f: Formatter)
        ensures
            f@ == Seq::<char>::empty(),
            f.limit() == Some(limit as nat),
            f.pieces() == 0,
            f.refused() == 0,
    {
        Formatter { text: String::new(), room: Some(limit), pieces: Ghost(0), refused: Ghost(0) }
    }

    /// The text accepted so far.
    pub fn as_str(&self) -> (s: &str)
        ensures
            s@ == self@,
    {
        self.text.as_str()
    }

    /// Hands out the text accepted so far.
    pub fn into_string(self) -> (s: String)
        ensures
            s@ == self@,
    {
        self.text
    }

    /// Writes one character.
    pub fn write_char(&mut self, ch: char) -> (r: Result<(), Error>)
        ensures
            old(self).writes(seq![ch], *final(self), r),
            final(self).pieces() == old(self).pieces() + 1,
    {
        self.pieces = Ghost(self.pieces@ + 1);
        match self.room {
            None => {
                self.text.push(ch);
                assert(self@ =~= old(self)@ + seq![ch]);
                Ok(())
            },
            Some(room) => {
                if room == 0 {
                    self.refused = Ghost(self.refused@ + 1);
                    assert(self@ =~= (old(self)@ + seq![ch]).take(old(self)@.len() as int));
                    Err(Error)
                } else {
                    self.text.push(ch);
                    self.room = Some(room - 1);
                    assert(self@ =~= old(self)@ + seq![ch]);
                    Ok(())
                }
            },
        }
    }

    /// Writes a string.
    pub fn write_str(&mut self, s: &str) -> (r: Result<(), Error>)
        ensures
            old(self).writes(s@, *final(self), r),
            final(self).pieces() == old(self).pieces() + 1,
    {
        self.pieces = Ghost(self.pieces@ + 1);
        match self.room {
            None => {
                self.text.append(s);
                Ok(())
            },
            Some(room) => {
                let length = s.unicode_len();
                if length <= room {
                    self.text.append(s);
                    self.room = Some(room - length);
                    Ok(())
                } else {
                    let head = s.substring_char(0, room);
                    self.text.append(head);
                    self.room = Some(0);
                    self.refused = Ghost(self.refused@ + 1);
                    assert(self@ =~= (old(self)@ + s@).take((old(self)@.len() + room) as int));
                    Err(Error)
                }
            },
        }
    }

    /// Writes the escaped form of the text that `units` encodes in UTF-16.
    /// The units need not be well-formed: a surrogate without its partner
    /// is escaped.
    pub fn escape_utf16(&mut self, units: &[u16]) -> (r: Result<(), Error>)
        ensures
            old(self).writes(escaped_points(utf16_points(units@)), *final(self), r),
            r is Ok ==> final(self).pieces() == old(self).pieces() + points_pieces(
                utf16_points(units@),
            ),
    {
        utf16(units, self)
    }
}

/// Writing nothing changes nothing and succeeds.
pub proof fn lemma_writes_nothing(f: Formatter)
    ensures
        f.writes(Seq::<char>::empty(), f, Ok(())),
{
    f.lemma_within_limit();
    assert(f@ + Seq::<char>::empty() =~= f@);
}

/// Two writes in a row are one write of the two texts joined, as long as
/// the first succeeds.
pub proof fn lemma_writes_then(
    before: Formatter,
    between: Formatter,
    after: Formatter,
    first: Seq<char>,
    second: Seq<char>,
    r: Result<(), Error>,
)
    requires
        before.writes(first, between, Ok(())),
        between.writes(second, after, r),
    ensures
        before.writes(first + second, after, r),
{
    before.lemma_within_limit();
    assert((before@ + first) + second =~= before@ + (first + second));
}

/// One more write after a run of successful ones: in all, `done + piece`
/// was written; and if this write failed, so would have the write of
/// anything that was still to follow.
pub proof fn lemma_writes_next(
    before: Formatter,
    between: Formatter,
    after: Formatter,
    done: Seq<char>,
    piece: Seq<char>,
    rest: Seq<char>,
    r: Result<(), Error>,
)
    requires
        before.writes(done, between, Ok(())),
        between.writes(piece, after, r),
    ensures
        before.writes(done + piece, after, r),
        r is Err ==> before.writes(done + piece + rest, after, r),
{
    lemma_writes_then(before, between, after, done, piece, r);
    if r is Err {
        lemma_writes_failed(before, after, done + piece, rest, r);
    }
}

/// A write that failed is also the failed write of any longer text.
pub proof fn lemma_writes_failed(
    before: Formatter,
    after: Formatter,
    text: Seq<char>,
    more: Seq<char>,
    r: Result<(), Error>,
)
    requires
        before.writes(text, after, r),
        r is Err,
    ensures
        before.writes(text + more, after, r),
{
    let n = before.limit()->0;
    assert((before@ + (text + more)).take(n as int) =~= (before@ + text).take(n as int));
}

} // verus!
