//! Quoting of text for display to users.
//!
//! Text, raw bytes and UTF-16 code units are rendered as a single-line
//! literal between double quotes. Backslashes are never escaped, so native
//! paths stay readable; curly braces delimit escape sequences instead:
//!
//! | input                     | output               |
//! |---------------------------|----------------------|
//! | tab, newline, return      | `{~t}` `{~n}` `{~r}` |
//! | `"`                       | `{"}`                |
//! | `{` and `}`               | `{{` and `}}`        |
//! | any other printable char  | itself               |
//! | anything else             | `{~u` hex `}`        |
//!
//! Bytes that are not UTF-8 and surrogates without a partner are no
//! errors: they are escaped like any code point that cannot be shown.
//!
//! Every function that writes does so into a [`Formatter`], a sink in
//! memory that may be bounded; the only failure is a sink that is full.
//! What each function writes is stated over [`escape::escaped_points`],
//! the escaped form of a sequence of code points. That this form can be
//! read back is shown in [`escape::unescape`].
use vstd::prelude::*;

pub mod escape;
pub mod formatter;
pub mod quote;

pub use formatter::Error;
pub use formatter::Formatter;
pub use quote::Display;
pub use quote::Quote;

verus! {

/// The character that surrounds a quoted string.
pub const QUOTE: char = '"';

/// The character that opens an escape sequence.
pub const START_ESCAPE: char = '{';

/// The character that closes an escape sequence.
pub const END_ESCAPE: char = '}';

} // verus!
