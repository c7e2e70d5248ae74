//! Regular-expression matching through the `regex` crate.
//!
//! The patterns themselves are constants of the modules that use them; what a
//! pattern matches is the `regex` crate's business, so the results are named
//! here and the callers state their contracts over those names.
use vstd::prelude::*;

verus! {

/// What `Regex::new(pattern)` followed by `captures(text)` yields: `None` when
/// the pattern does not compile or does not match, otherwise the text of each
/// capture group (group 0 is the whole match), `None` for groups that did not
/// take part in the match.
pub uninterp spec fn regex_captures_of(pattern: Seq<char>, text: Seq<char>) -> Option<Seq<Option<Seq<char>>>>;

/// What `Regex::new(pattern)` followed by `captures_iter(text)` yields, for one
/// capture group: the group's text in each successive non-overlapping match
/// (empty when the pattern does not compile).
pub uninterp spec fn regex_group_matches_of(pattern: Seq<char>, text: Seq<char>, group: nat) -> Seq<Option<Seq<char>>>;

/// The views of optional strings.
pub open spec fn opt_views(v: Seq<Option<String>>) -> Seq<Option<Seq<char>>> {
    v.map_values(|o: Option<String>| opt_view(o))
}

pub open spec fn opt_view(o: Option<String>) -> Option<Seq<char>> {
    match o {
        Some(s) => Some(s@),
        None => None,
    }
}

/// Capture group `i` of a match, `None` when absent.
pub open spec fn group(caps: Seq<Option<Seq<char>>>, i: int) -> Option<Seq<char>> {
    if 0 <= i < caps.len() {
        caps[i]
    } else {
        None
    }
}

/// The capture groups of the first match of `pattern` in `text`
/// (`regex::Regex::new` then `Regex::captures`). The contract claims only that
/// the result is the one named by `regex_captures_of` for these arguments.
#[verifier::external_body]
pub(crate) fn regex_captures(pattern: &str, text: &str) -> (res: Option<Vec<Option<String>>>)
    ensures
        match res {
            Some(v) => regex_captures_of(pattern@, text@) == Some(opt_views(v@)),
            None => regex_captures_of(pattern@, text@) is None,
        },
{
    let re = regex::Regex::new(pattern).ok()?;
    let caps = re.captures(text)?;
    Some(caps.iter().map(|m| m.map(|m| m.as_str().to_string())).collect())
}

/// Group `group` of every successive match of `pattern` in `text`
/// (`regex::Regex::new` then `Regex::captures_iter`). The contract claims only
/// that the result is the one named by `regex_group_matches_of`.
#[verifier::external_body]
pub(crate) fn regex_group_matches(pattern: &str, text: &str, group: usize) -> (res: Vec<Option<String>>)
    ensures
        opt_views(res@) == regex_group_matches_of(pattern@, text@, group as nat),
{
    match regex::Regex::new(pattern) {
        Ok(re) => re
            .captures_iter(text)
            .map(|c| c.get(group).map(|m| m.as_str().to_string()))
            .collect(),
        Err(_) => Vec::new(),
    }
}

/// What `Regex::new(pattern)` followed by `Regex::replace(text, replacement)`
/// gives: `text` with the first match replaced (`$1` in the replacement is the
/// first group); `text` itself when the pattern does not compile.
pub uninterp spec fn regex_replace_of(pattern: Seq<char>, text: Seq<char>, replacement: Seq<char>) -> Seq<char>;

/// `regex::Regex::new` then `Regex::replace`. The contract claims only that
/// the result is the one named by `regex_replace_of`.
#[verifier::external_body]
pub(crate) fn regex_replace(pattern: &str, text: &str, replacement: &str) -> (res: String)
    ensures
        res@ == regex_replace_of(pattern@, text@, replacement@),
{
    match regex::Regex::new(pattern) {
        Ok(re) => re.replace(text, replacement).into_owned(),
        Err(_) => text.to_string(),
    }
}

/// Group `i` of a capture list.
pub fn get_group(caps: &Vec<Option<String>>, i: usize) -> (res: Option<String>)
    ensures
        opt_view(res) == group(opt_views(caps@), i as int),
{
    if i < caps.len() {
        match &caps[i] {
            Some(s) => Some(s.clone()),
            None => None,
        }
    } else {
        None
    }
}

} // verus!
