//! Regular expressions, as the `regex` crate matches them.
//!
//! What a pattern matches is not stated here: the result of a search is
//! named by a function of the pattern and the text, and the library's rules
//! are stated over that name.

use vstd::prelude::*;
use regex::Regex;

verus! {

/// What a search of a text with a pattern finds: the texts of all successive
/// matches, and the groups of the first match, if there is a match. Group 0
/// is the whole match; a group that took no part in the match is `None`.
#[derive(Clone, Debug, PartialEq, Eq)]
pub struct Found {
    pub matches: Vec<String>,
    pub groups: Option<Vec<Option<String>>>,
}

/// The model of a [`Found`].
pub struct FoundView {
    pub matches: Seq<Seq<char>>,
    pub groups: Option<Seq<Option<Seq<char>>>>,
}

/// The model of one group.
pub open spec fn group_view(g: Option<String>) -> Option<Seq<char>> {
    match g {
        Some(text) => Some(text@),
        None => None,
    }
}

/// The model of the groups of a match.
pub open spec fn groups_view(groups: Vec<Option<String>>) -> Seq<Option<Seq<char>>> {
    Seq::new(groups.len() as nat, |i: int| group_view(groups[i]))
}

impl DeepView for Found {
    type V = FoundView;

    open spec fn deep_view(&self) -> FoundView {
        FoundView {
            matches: self.matches.deep_view(),
            groups: match self.groups {
                Some(groups) => Some(groups_view(groups)),
                None => None,
            },
        }
    }
}

/// What the search of `text` with `pattern` finds, where `pattern` is a
/// valid regular expression.
pub uninterp spec fn regex_found(pattern: Seq<char>, text: Seq<char>) -> Option<FoundView>;

/// The model of what a search gives.
pub open spec fn found_view(r: Option<Found>) -> Option<FoundView> {
    match r {
        Some(found) => Some(found.deep_view()),
        None => None,
    }
}

/// Searches `text` with `pattern`.
///
/// Trusted: `Regex::new` of the regex crate and, where it accepts the
/// pattern, `Regex::find_iter`, of which the text of each match is kept, in
/// order, and `Regex::captures`, of which the text of each group is kept, in
/// order. The result depends on the pattern and the text alone, so it is
/// named and nothing more is claimed of it.
#[verifier::external_body]
pub(crate) fn search(pattern: &str, text: &str) -> (r: Option<Found>)
    ensures
        found_view(r) == regex_found(pattern@, text@),
{
    let re = match Regex::new(pattern) {
        Ok(re) => re,
        Err(_) => return None,
    };
    let matches = re.find_iter(text).map(|found| found.as_str().to_string()).collect();
    let groups = re.captures(text).map(|groups| {
        groups.iter().map(|group| group.map(|found| found.as_str().to_string())).collect()
    });
    Some(Found { matches, groups })
}

/// The texts of all successive matches of `pattern` in `text`, where
/// `pattern` is a valid regular expression.
pub open spec fn regex_matches(pattern: Seq<char>, text: Seq<char>) -> Option<Seq<Seq<char>>> {
    match regex_found(pattern, text) {
        Some(found) => Some(found.matches),
        None => None,
    }
}

/// The groups of the first match of `pattern` in `text`: the outer `None`
/// says that `pattern` is no valid regular expression, the inner one that
/// it matches nowhere.
pub open spec fn regex_captures(pattern: Seq<char>, text: Seq<char>) -> Option<
    Option<Seq<Option<Seq<char>>>>,
> {
    match regex_found(pattern, text) {
        Some(found) => Some(found.groups),
        None => None,
    }
}

/// The model of a list of matches.
pub open spec fn matches_view(r: Option<Vec<String>>) -> Option<Seq<Seq<char>>> {
    match r {
        Some(found) => Some(found.deep_view()),
        None => None,
    }
}

/// The model of what a search for groups gives.
pub open spec fn captures_view(r: Option<Option<Vec<Option<String>>>>) -> Option<
    Option<Seq<Option<Seq<char>>>>,
> {
    match r {
        Some(Some(groups)) => Some(Some(groups_view(groups))),
        Some(None) => Some(None),
        None => None,
    }
}

/// All successive matches of `pattern` in `text`; none where `pattern` is no
/// valid regular expression.
pub fn find_all(pattern: &str, text: &str) -> (r: Option<Vec<String>>)
    ensures
        matches_view(r) == regex_matches(pattern@, text@),
{
    match search(pattern, text) {
        Some(found) => Some(found.matches),
        None => None,
    }
}

/// The groups of the first match of `pattern` in `text`.
pub fn captures(pattern: &str, text: &str) -> (r: Option<Option<Vec<Option<String>>>>)
    ensures
        captures_view(r) == regex_captures(pattern@, text@),
{
    match search(pattern, text) {
        Some(found) => Some(found.groups),
        None => None,
    }
}

/// The group `i` of a match, where the match has such a group and the group
/// took part in it.
pub open spec fn group(groups: Seq<Option<Seq<char>>>, i: int) -> Option<Seq<char>> {
    if 0 <= i < groups.len() {
        groups[i]
    } else {
        None
    }
}

/// The group `i` of a match, where the match has such a group and the group
/// took part in it.
pub fn group_of(groups: &Vec<Option<String>>, i: usize) -> (r: Option<String>)
    ensures
        group_view(r) == group(groups_view(*groups), i as int),
{
    if i < groups.len() {
        match &groups[i] {
            Some(text) => Some(text.clone()),
            None => None,
        }
    } else {
        None
    }
}

} // verus!
