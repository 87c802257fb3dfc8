//! Display widths from the `unicode-width` crate.

use vstd::prelude::*;
use unicode_width::UnicodeWidthChar;
use unicode_width::UnicodeWidthStr;

verus! {

/// The column width `unicode-width` looks up for a character at or above
/// U+00A0 (its UAX #11 table).
pub uninterp spec fn table_char_width(c: char) -> nat;

/// The column width `unicode-width` gives a whole string (UAX #11 widths with
/// its adjustments for emoji, variation selectors and other sequences).
pub uninterp spec fn str_width(s: Seq<char>) -> nat;

/// Width of one character, or `None` for a control character: what
/// `UnicodeWidthChar::width` returns.
pub open spec fn char_width(c: char) -> Option<nat> {
    if '\u{7f}' > c {
        if c >= ' ' {
            Some(1)
        } else {
            None
        }
    } else if '\u{a0}' > c {
        None
    } else {
        Some(table_char_width(c))
    }
}

/// `UnicodeWidthChar::width` of `unicode-width`.
///
/// Its source answers `Some(1)` below U+007F from the space up, `None` for the
/// other C0 and C1 controls and DEL, and a table lookup of at most 3 columns
/// from U+00A0 on; the table's values are left to the name `table_char_width`.
#[verifier::external_body]
pub(crate) fn char_display_width(c: char) -> (w: Option<usize>)
    ensures
        '\u{7f}' > c && c >= ' ' ==> w == Some(1usize),
        '\u{20}' > c ==> w.is_none(),
        '\u{7f}' <= c && '\u{a0}' > c ==> w.is_none(),
        c >= '\u{a0}' ==> w.is_some() && w.unwrap() as nat == table_char_width(c) && w.unwrap()
            <= 3,
{
    UnicodeWidthChar::width(c)
}

/// `UnicodeWidthStr::width` of `unicode-width`: the display width of a
/// string, named `str_width`; nothing more about it is stated.
#[verifier::external_body]
pub(crate) fn str_display_width(s: &str) -> (w: usize)
    ensures
        w as nat == str_width(s@),
{
    UnicodeWidthStr::width(s)
}

} // verus!
