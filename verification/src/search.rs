//! Search matches in a line: whether a compiled search pattern matches, and
//! the byte ranges of its matches.

use vstd::prelude::*;
use crate::multi::utf8_len;
use crate::review::is_boundary;

verus! {

#[verifier::external_type_specification]
#[verifier::external_body]
pub struct ExRegex(regex::Regex);

/// The match ranges that a search over `text` may give: each within the
/// text, starting and ending where characters start (or the text ends), not
/// ending before it starts, and each starting no earlier than the previous
/// one ends.
pub open spec fn match_ranges_ok(text: Seq<char>, ranges: Seq<(usize, usize)>) -> bool {
    &&& forall|i: int|
        0 <= i < ranges.len() ==> {
            &&& (#[trigger] ranges[i]).0 <= ranges[i].1
            &&& ranges[i].1 <= utf8_len(text)
            &&& is_boundary(text, ranges[i].0 as nat)
            &&& is_boundary(text, ranges[i].1 as nat)
        }
    &&& forall|i: int, j: int| 0 <= i < j < ranges.len() ==> (#[trigger] ranges[i]).1 <= (#[trigger] ranges[j]).0
}

/// Whether a compiled regex matches somewhere in a text (`Regex::is_match`).
pub uninterp spec fn regex_matches(regex: regex::Regex, text: Seq<char>) -> bool;

/// The byte ranges of a compiled regex's matches in a text, in order
/// (`Regex::find_iter`).
pub uninterp spec fn regex_match_ranges(regex: regex::Regex, text: Seq<char>) -> Seq<(usize, usize)>;

/// `Regex::is_match`: whether the regex matches somewhere in `text`, which
/// depends on the regex and the text alone. Which texts a regex matches is
/// the regex crate's to decide and is only named here.
#[verifier::external_body]
fn regex_is_match(regex: &regex::Regex, text: &str) -> (r: bool)
    ensures
        r == regex_matches(*regex, text@),
{
    regex.is_match(text)
}

/// `Regex::find_iter`, each match taken as its byte range; the ranges depend
/// on the regex and the text alone. The crate documents the matches as
/// successive and non-overlapping, each with `start <= end` and both offsets
/// on character boundaries of the text, and `is_match` as true exactly when
/// there is a match; which ranges they are is the regex crate's to decide and
/// is only named here.
#[verifier::external_body]
fn regex_find_ranges(regex: &regex::Regex, text: &str) -> (r: Vec<(usize, usize)>)
    ensures
        r@ == regex_match_ranges(*regex, text@),
        match_ranges_ok(text@, r@),
        (r@.len() > 0) == regex_matches(*regex, text@),
{
    regex.find_iter(text).map(|m| (m.start(), m.end())).collect()
}

/// Whether the search pattern matches the line.
pub fn line_has_query(text: &str, regex: &regex::Regex) -> (r: bool)
    ensures
        r == regex_matches(*regex, text@),
{
    regex_is_match(regex, text)
}

/// The byte ranges of the pattern's matches in the line, in order.
pub fn match_ranges(text: &str, regex: &regex::Regex) -> (r: Vec<(usize, usize)>)
    ensures
        r@ == regex_match_ranges(*regex, text@),
        match_ranges_ok(text@, r@),
        (r@.len() > 0) == regex_matches(*regex, text@),
{
    regex_find_ranges(regex, text)
}

} // verus!
