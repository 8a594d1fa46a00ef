use vstd::prelude::*;

use crate::strings::{chars_of, string_from_char_range};
use vstd::string::StringExecFns;

verus! {

/// The display width in columns that `unicode_width` gives a whole text
/// (`UnicodeWidthStr::width`).
pub uninterp spec fn unicode_text_width(s: Seq<char>) -> usize;

/// The display width in columns that `unicode_width` gives one character
/// (`UnicodeWidthChar::width`; `None` for control characters).
pub uninterp spec fn unicode_char_width(c: char) -> Option<usize>;

/// Calls `UnicodeWidthStr::width`; the result is `unicode_text_width` of the text.
#[verifier::external_body]
fn text_width(text: &str) -> (w: usize)
    ensures
        w == unicode_text_width(text@),
{
    unicode_width::UnicodeWidthStr::width(text)
}

/// Calls `UnicodeWidthChar::width`; the result is `unicode_char_width` of the character.
#[verifier::external_body]
fn char_width(c: char) -> (w: Option<usize>)
    ensures
        w == unicode_char_width(c),
{
    unicode_width::UnicodeWidthChar::width(c)
}

/// Columns a character takes when fitting text: control characters take none.
pub open spec fn columns_of(c: char) -> int {
    match unicode_char_width(c) {
        Some(w) => w as int,
        None => 0,
    }
}

/// How many leading characters of `cs[i..]` fit, one by one, into `max` columns when
/// `used` are taken already: fitting stops at the first character that would overflow.
pub open spec fn fit_count(cs: Seq<char>, i: int, used: int, max: int) -> int
    decreases cs.len() - i,
{
    if i < 0 || i >= cs.len() {
        i
    } else if used + columns_of(cs[i]) > max {
        i
    } else {
        fit_count(cs, i + 1, used + columns_of(cs[i]), max)
    }
}

/// The longest prefix of `text` that fits into `max` columns, character by character.
pub open spec fn fit_spec(text: Seq<char>, max: int) -> Seq<char> {
    text.subrange(0, fit_count(text, 0, 0, max))
}

/// `text` cut to `max` columns: unchanged when it fits, else a fitting prefix, followed
/// by ".." when there are more than two columns.
pub open spec fn truncate_spec(text: Seq<char>, max: int) -> Seq<char> {
    if max == 0 {
        Seq::empty()
    } else if unicode_text_width(text) <= max {
        text
    } else if max <= 2 {
        fit_spec(text, max)
    } else {
        fit_spec(text, max - 2) + ".."@
    }
}

pub fn display_width(text: &str) -> (w: usize)
    ensures
        w == unicode_text_width(text@),
{
    text_width(text)
}

pub fn fit_to_width(text: &str, max_width: usize) -> (r: String)
    ensures
        r@ == fit_spec(text@, max_width as int),
{
    let cs = chars_of(text);
    let mut width: usize = 0;
    let mut i: usize = 0;
    while i < cs.len()
        invariant
            i <= cs@.len(),
            cs@ == text@,
            width <= max_width,
            fit_count(cs@, 0, 0, max_width as int) == fit_count(
                cs@,
                i as int,
                width as int,
                max_width as int,
            ),
        ensures
            i <= cs@.len(),
            fit_count(cs@, 0, 0, max_width as int) == i,
        decreases cs@.len() - i,
    {
        let char_width = match char_width(cs[i]) {
            Some(w) => w,
            None => 0,
        };
        if char_width > max_width - width {
            break;
        }
        width = width + char_width;
        i = i + 1;
    }
    string_from_char_range(cs.as_slice(), 0, i)
}

pub fn truncate_to_width(text: &str, max_width: usize) -> (r: String)
    ensures
        r@ == truncate_spec(text@, max_width as int),
{
    if max_width == 0 {
        return String::new();
    }
    if display_width(text) <= max_width {
        return String::from_str(text);
    }
    if max_width <= 2 {
        return fit_to_width(text, max_width);
    }
    let mut truncated = fit_to_width(text, max_width - 2);
    truncated.append("..");
    truncated
}

} // verus!
