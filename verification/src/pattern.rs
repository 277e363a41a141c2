//! Regular expressions. The matching is the work of the `regex` crate; what
//! is stated of it here is believed, not proved.

use vstd::prelude::*;

verus! {

/// The text is a regular expression that can be compiled, with or without
/// regard to the case of letters.
pub uninterp spec fn regex_compiles(pattern: Seq<char>, insensitive: bool) -> bool;

/// The regular expression matches somewhere in the text.
pub uninterp spec fn regex_matches(pattern: Seq<char>, insensitive: bool, text: Seq<char>) -> bool;

/// The groups of the leftmost match of the regular expression in the text:
/// first the whole match, then the groups in the order of their opening
/// brackets, each with the part of the text it matched, if it took part in
/// the match; `None` where nothing matches.
pub uninterp spec fn regex_captures(pattern: Seq<char>, text: Seq<char>) -> Option<
    Seq<Option<Seq<char>>>,
>;

/// The views of the groups of a match.
pub open spec fn group_views(groups: Seq<Option<String>>) -> Seq<Option<Seq<char>>> {
    Seq::new(
        groups.len(),
        |i: int|
            match groups[i] {
                Some(text) => Some(text@),
                None => None,
            },
    )
}

/// What a search for the groups of a regular expression found.
pub enum Captured {
    /// The regular expression cannot be compiled.
    BadPattern,
    /// The regular expression matches nowhere in the text.
    NoMatch,
    /// The leftmost match and its groups.
    Groups(Vec<Option<String>>),
}

/// Matches a regular expression against each of some texts.
///
/// Trusted: `build` of `regex::RegexBuilder`, after `case_insensitive`, and
/// `is_match` of `regex::Regex`. Whether the expression compiles depends on
/// its text and on the flag alone; whether it matches, on these and on the
/// text searched. Nothing is said of which expressions compile or match.
#[verifier::external_body]
pub(crate) fn match_each(pattern: &str, insensitive: bool, texts: &Vec<String>) -> (r: Option<
    Vec<bool>,
>)
    ensures
        r is Some <==> regex_compiles(pattern@, insensitive),
        r is Some ==> r->Some_0@.len() == texts@.len(),
        r is Some ==> forall|i: int|
            0 <= i < texts@.len() ==> #[trigger] r->Some_0@[i] == regex_matches(
                pattern@,
                insensitive,
                texts@[i]@,
            ),
{
    match regex::RegexBuilder::new(pattern).case_insensitive(insensitive).build() {
        Ok(re) => Some(texts.iter().map(|text| re.is_match(text)).collect()),
        Err(_) => None,
    }
}

/// Searches a text for the leftmost match of a regular expression and hands
/// out its groups.
///
/// Trusted: `build` of `regex::RegexBuilder` and `captures` of
/// `regex::Regex`; the groups are those of `regex::Captures::iter`, the
/// whole match first. What is found depends on the expression and the text
/// alone.
#[verifier::external_body]
pub(crate) fn capture_groups(pattern: &str, text: &str) -> (r: Captured)
    ensures
        r is BadPattern <==> !regex_compiles(pattern@, false),
        r is NoMatch ==> regex_captures(pattern@, text@) is None,
        r is Groups ==> regex_captures(pattern@, text@) == Some(group_views(r->Groups_0@)),
{
    match regex::RegexBuilder::new(pattern).build() {
        Err(_) => Captured::BadPattern,
        Ok(re) => match re.captures(text) {
            None => Captured::NoMatch,
            Some(found) => Captured::Groups(
                found.iter().map(|group| group.map(|m| m.as_str().to_string())).collect(),
            ),
        },
    }
}

/// The groups of the leftmost match of a regular expression in a text, the
/// whole match first; `None` where nothing matches, and where the text of
/// the expression is none.
pub open spec fn captures_of(pattern: Seq<char>, text: Seq<char>) -> Option<
    Seq<Option<Seq<char>>>,
> {
    if regex_compiles(pattern, false) {
        regex_captures(pattern, text)
    } else {
        None
    }
}

/// Searches a text for the leftmost match of a regular expression and hands
/// out the whole match and its groups.
pub fn captures(pattern: &str, text: &str) -> (groups: Option<Vec<Option<String>>>)
    ensures
        match captures_of(pattern@, text@) {
            Some(found) => groups is Some && group_views(groups->Some_0@) == found,
            None => groups is None,
        },
{
    match capture_groups(pattern, text) {
        Captured::Groups(groups) => Some(groups),
        Captured::NoMatch => None,
        Captured::BadPattern => None,
    }
}

/// The part of the text that a group of a match matched, if the match has
/// such a group and it took part in the match.
pub open spec fn group_text(groups: Seq<Option<Seq<char>>>, i: int) -> Option<Seq<char>> {
    if 0 <= i < groups.len() {
        groups[i]
    } else {
        None
    }
}

/// The characters that a group of a match matched.
pub fn group_chars(groups: &Vec<Option<String>>, i: usize) -> (chars: Option<Vec<char>>)
    ensures
        match group_text(group_views(groups@), i as int) {
            Some(text) => chars is Some && chars->Some_0@ == text,
            None => chars is None,
        },
{
    if i >= groups.len() {
        return None;
    }
    assert(group_views(groups@)[i as int] == match groups@[i as int] {
        Some(text) => Some(text@),
        None => None,
    });
    match &groups[i] {
        Some(text) => Some(crate::text::chars_of(text.as_str())),
        None => None,
    }
}

} // verus!
