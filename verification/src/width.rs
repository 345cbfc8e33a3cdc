//! Display width of text in terminal columns, from the `unicode-width` crate.
use unicode_width::UnicodeWidthStr;
use vstd::prelude::*;

verus! {

/// The number of terminal columns that `unicode-width` gives a string
/// (`UnicodeWidthStr::width`): it looks at characters in context (emoji
/// sequences, joiners, variation selectors), so it is not simply a sum over
/// the characters.
pub uninterp spec fn text_width(s: Seq<char>) -> usize;

/// Calls `UnicodeWidthStr::width` (unicode-width) on `s`. The contract claims
/// that the result depends on the characters of `s` alone ([`text_width`]),
/// that the empty string is 0 columns wide (the crate folds the characters
/// starting from 0), and that text made only of printable ASCII characters
/// (`' '` to `'~'`) is one column per character (the crate's rules give each
/// of them width 1 and no sequence rule applies to them). Nothing else about
/// the value is stated.
#[verifier::external_body]
pub(crate) fn str_width(s: &str) -> (w: usize)
    ensures
        w == text_width(s@),
        s@.len() == 0 ==> w == 0,
        (forall|i: int| 0 <= i < s@.len() ==> ' ' <= #[trigger] s@[i] <= '~') ==> w == s@.len(),
{
    s.width()
}

/// The width of the one-character string `c` (`c.to_string().width()`).
pub fn char_width(c: char) -> (w: usize)
    ensures
        w == text_width(seq![c]),
{
    let mut s = String::new();
    s.push(c);
    assert(s@ =~= seq![c]);
    str_width(s.as_str())
}

} // verus!
