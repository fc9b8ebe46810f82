//! Display widths, as the `unicode-width` crate measures them.

use unicode_width::{UnicodeWidthChar, UnicodeWidthStr};
use vstd::prelude::*;

verus! {

/// The column width that `UnicodeWidthStr::width` gives a string.
pub uninterp spec fn str_width(s: Seq<char>) -> usize;

/// The column width that `UnicodeWidthChar::width` gives a character
/// (`None` for a control character).
pub uninterp spec fn char_width(c: char) -> Option<usize>;

/// A printable ASCII character, U+0020 up to U+007E.
pub open spec fn is_printable_ascii(c: char) -> bool {
    ' ' <= c && c <= '~'
}

/// One of the symbols that the readout writes itself besides ASCII: the
/// ellipsis that ends a cut value, the icons that stand before labels, and
/// the dash and degree sign of missing values and temperatures.
pub open spec fn is_readout_symbol(c: char) -> bool {
    c == '\u{2026}' || c == '\u{2014}' || c == '\u{b0}' || c == '\u{2022}' || c == '\u{203a}'
        || c == '\u{25a3}' || c == '\u{25a7}' || c == '\u{25b9}' || c == '\u{25c7}' || c
        == '\u{25c8}' || c == '\u{25c9}' || c == '\u{25cc}' || c == '\u{25d0}' || c == '\u{25eb}'
        || c == '\u{25f7}' || c == '\u{f007}' || c == '\u{f017}' || c == '\u{f0a0}' || c
        == '\u{f0ac}' || c == '\u{f0c9}' || c == '\u{f108}' || c == '\u{f120}' || c == '\u{f128}'
        || c == '\u{f17c}' || c == '\u{f2c9}' || c == '\u{f2db}' || c == '\u{f538}'
}

/// A character one column wide that changes the width of no neighbour:
/// printable ASCII, the readout's symbols, and the letters of Latin-1
/// (all of U+00A1 to U+00FF but the soft hyphen), Latin Extended-A, the
/// basic Greek alphabet and the basic Cyrillic alphabet.
pub open spec fn is_one_column(c: char) -> bool {
    ||| is_printable_ascii(c)
    ||| is_readout_symbol(c)
    ||| ('\u{a1}' <= c && c <= '\u{ff}' && c != '\u{ad}')
    ||| ('\u{100}' <= c && c <= '\u{17f}')
    ||| ('\u{391}' <= c && c <= '\u{3a9}')
    ||| ('\u{3b1}' <= c && c <= '\u{3c9}')
    ||| ('\u{410}' <= c && c <= '\u{44f}')
}

/// A character two columns wide that changes the width of no neighbour: the
/// CJK ideographs (U+3400 to U+4DBF, U+4E00 to U+9FFF), hiragana, katakana,
/// Hangul syllables and the fullwidth forms U+FF01 to U+FF60.
pub open spec fn is_two_columns(c: char) -> bool {
    ||| ('\u{3400}' <= c && c <= '\u{4dbf}')
    ||| ('\u{4e00}' <= c && c <= '\u{9fff}')
    ||| ('\u{3041}' <= c && c <= '\u{3096}')
    ||| ('\u{30a1}' <= c && c <= '\u{30fa}')
    ||| ('\u{ac00}' <= c && c <= '\u{d7a3}')
    ||| ('\u{ff01}' <= c && c <= '\u{ff60}')
}

/// A character whose width is known here: one or two columns.
pub open spec fn is_simple(c: char) -> bool {
    is_one_column(c) || is_two_columns(c)
}

/// A control character: U+0000 to U+001F and U+007F to U+009F.
pub open spec fn is_control_char(c: char) -> bool {
    c < ' ' || ('\u{7f}' <= c && c < '\u{a0}')
}

/// A character that may change the width of a neighbour or be changed by
/// one, as unicode-width treats it: the zero width joiner, the variation
/// selectors U+FE01, U+FE0E and U+FE0F, regional indicators, emoji
/// modifiers, and the letters that start a ligature: the Hebrew lamed, the
/// Arabic alef group, Khmer consonants, the Buginese ya, Tifinagh
/// consonants, the Lisu tone letters mya na and jeu, the Old Turkic orkhon i
/// and the Kirat Rai vowel signs e and ai.
pub open spec fn is_joining_char(c: char) -> bool {
    ||| c == '\u{200d}'
    ||| c == '\u{fe01}'
    ||| c == '\u{fe0e}'
    ||| c == '\u{fe0f}'
    ||| ('\u{1f1e6}' <= c && c <= '\u{1f1ff}')
    ||| ('\u{1f3fb}' <= c && c <= '\u{1f3ff}')
    ||| c == '\u{5dc}'
    ||| ('\u{622}' <= c && c <= '\u{623}')
    ||| c == '\u{625}'
    ||| c == '\u{627}'
    ||| ('\u{671}' <= c && c <= '\u{673}')
    ||| c == '\u{675}'
    ||| ('\u{773}' <= c && c <= '\u{774}')
    ||| ('\u{870}' <= c && c <= '\u{882}')
    ||| ('\u{1780}' <= c && c <= '\u{17af}')
    ||| c == '\u{1a10}'
    ||| ('\u{2d31}' <= c && c <= '\u{2d65}')
    ||| c == '\u{2d6f}'
    ||| ('\u{a4fc}' <= c && c <= '\u{a4fd}')
    ||| c == '\u{10c03}'
    ||| ('\u{16d67}' <= c && c <= '\u{16d68}')
}

/// A character whose width simply adds up in a text: neither a control
/// character nor a joining one.
pub open spec fn is_plain(c: char) -> bool {
    !is_control_char(c) && !is_joining_char(c)
}

/// Every character of `s` is plain.
pub open spec fn all_plain(s: Seq<char>) -> bool {
    forall|i: int| 0 <= i < s.len() ==> is_plain(#[trigger] s[i])
}

/// The columns of a plain character: 1 or 2 for the characters whose width
/// is known here, otherwise what `UnicodeWidthChar::width` gives.
pub open spec fn char_cols(c: char) -> nat {
    if is_two_columns(c) {
        2
    } else if is_one_column(c) {
        1
    } else {
        match char_width(c) {
            Some(w) => w as nat,
            None => 0,
        }
    }
}

/// The columns of a plain text: the sum over its characters.
pub open spec fn cols(s: Seq<char>) -> nat
    decreases s.len(),
{
    if s.len() == 0 {
        0
    } else {
        cols(s.drop_last()) + char_cols(s.last())
    }
}

/// The columns that `s` takes: the sum of its characters' columns for a
/// plain text, otherwise what `UnicodeWidthStr::width` gives.
pub open spec fn text_columns(s: Seq<char>) -> nat {
    if all_plain(s) {
        cols(s)
    } else {
        str_width(s) as nat
    }
}

/// The columns that `c` takes, `None` for a control character: 1 or 2 for
/// the characters whose width is known here, otherwise what
/// `UnicodeWidthChar::width` gives.
pub open spec fn char_columns(c: char) -> Option<usize> {
    if is_simple(c) {
        Some(char_cols(c) as usize)
    } else if is_control_char(c) {
        None
    } else {
        char_width(c)
    }
}

/// Columns add up over a concatenation.
pub proof fn lemma_cols_add(a: Seq<char>, b: Seq<char>)
    ensures
        cols(a + b) == cols(a) + cols(b),
    decreases b.len(),
{
    if b.len() == 0 {
        assert(a + b =~= a);
    } else {
        lemma_cols_add(a, b.drop_last());
        assert((a + b).drop_last() =~= a + b.drop_last());
        assert((a + b).last() == b.last());
    }
}

/// `UnicodeWidthStr::width` (unicode-width 0.2): the display width of
/// `value`, named `str_width`. As its source shows (the crate's rule 2, and
/// `width_in_generic` with `lookup_width`), a text with no control and no
/// joining character is as wide as the sum of its characters' widths: every
/// other character has a table entry below 3, is an emoji presentation
/// character or is the Khmer sign beyyal U+17D8 (three columns), and none of
/// these changes a neighbour's width; printable ASCII counts one column, and
/// the Latin, Greek, Cyrillic and symbol characters of `is_one_column` have a
/// table entry of 1, the CJK, kana, Hangul and fullwidth ones of
/// `is_two_columns` an entry of 2. Nothing else about the width is stated
/// here.
#[verifier::external_body]
pub(crate) fn display_width(value: &str) -> (w: usize)
    ensures
        w == str_width(value@),
        all_plain(value@) ==> w == cols(value@),
{
    UnicodeWidthStr::width(value)
}

/// `UnicodeWidthChar::width` (unicode-width 0.2): the display width of `c`,
/// named `char_width`. As its source shows, U+0000 to U+001F and U+007F to
/// U+009F are control characters (`None`), every other character has a
/// width, and the characters of `is_one_column` and `is_two_columns` have
/// width 1 and 2.
#[verifier::external_body]
pub(crate) fn char_display_width(c: char) -> (w: Option<usize>)
    ensures
        w == char_width(c),
        is_simple(c) ==> w == Some(char_cols(c) as usize),
        is_control_char(c) ==> w is None,
        !is_control_char(c) ==> w is Some,
{
    c.width()
}

} // verus!
