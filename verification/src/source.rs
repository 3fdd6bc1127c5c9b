//! Where the initial text is broken into rows.

use vstd::prelude::*;

verus! {

/// The rows that `ratatui` makes of a string when it builds a `Text` from it:
/// for each line of the text, its characters.
pub uninterp spec fn raw_text_rows(text: Seq<char>) -> Seq<Seq<char>>;

/// The rows of a vector, each as a sequence of characters.
pub open spec fn rows_view(rows: Seq<Vec<char>>) -> Seq<Seq<char>> {
    rows.map_values(|r: Vec<char>| r@)
}

/// Calls `ratatui::text::Text::from` on the string and hands back, for each
/// line of the resulting text, the characters of its spans in order. Nothing
/// is proved of how the string is broken into lines: the contract only gives
/// the outcome its name, `raw_text_rows`.
#[verifier::external_body]
pub(crate) fn text_rows(text: String) -> (rows: Vec<Vec<char>>)
    ensures
        rows_view(rows@) == raw_text_rows(text@),
{
    ratatui::text::Text::from(text).lines.iter().map(|l| l.to_string().chars().collect()).collect()
}

} // verus!
