//! Regular expressions, as the `regex` crate reads and matches them.
//!
//! What an expression matches is not spelled out here: it is named, and
//! the functions that call the crate say that they return what is named.
//! The parsers are proved right with respect to these names.

use regex::Regex;
use vstd::prelude::*;

verus! {

/// The compiled expressions of the `regex` crate.
#[verifier::external_type_specification]
#[verifier::external_body]
pub struct ExRegex(Regex);

/// Whether `regex::Regex::new` accepts the pattern.
pub uninterp spec fn pattern_valid(pattern: Seq<char>) -> bool;

/// What `regex::Regex::as_str` gives for the expression: the pattern that
/// the expression was made of.
pub uninterp spec fn regex_source(re: Regex) -> Seq<char>;

/// What `regex::Regex::is_match` gives for the expression and the text.
pub uninterp spec fn regex_matches(re: Regex, text: Seq<char>) -> bool;

/// What `regex::Regex::captures` gives for the expression and the text:
/// nothing where there is no match, else the text of each group of the
/// leftmost match, the whole match being group nought, and nothing for a
/// group that took no part.
pub uninterp spec fn regex_groups(re: Regex, text: Seq<char>) -> Option<Seq<Option<Seq<char>>>>;

/// What `regex_syntax::is_word_character` gives for the character: whether
/// it is a word character, one that `\w` stands for in a pattern.
pub uninterp spec fn is_word(c: char) -> bool;

/// Calls `regex_syntax::is_word_character`: whether the character is a
/// word character by the rules of Unicode, that is a letter, a mark, a
/// decimal digit, a connector such as the underscore, or a joiner. The
/// call cannot fail, since the crate is built with its tables of word
/// characters.
#[verifier::external_body]
pub(crate) fn word_character(c: char) -> (b: bool)
    ensures
        b == is_word(c),
{
    regex_syntax::is_word_character(c)
}

/// The groups of a match with their texts as sequences of characters.
pub open spec fn groups_view(groups: Option<Vec<Option<String>>>) -> Option<Seq<Option<Seq<char>>>> {
    match groups {
        Some(list) => Some(
            Seq::new(
                list@.len(),
                |i: int|
                    match list@[i] {
                        Some(text) => Some(text@),
                        None => None,
                    },
            ),
        ),
        None => None,
    }
}

/// Calls `regex::Regex::new`. The crate refuses a pattern that it cannot
/// read or that would make too large a program; which patterns those are
/// is left to the crate. The expression that it makes of a pattern gives
/// the pattern back when asked for it with `as_str`.
#[verifier::external_body]
fn compile(pattern: &str) -> (r: Option<Regex>)
    ensures
        r is Some <==> pattern_valid(pattern@),
        r matches Some(re) ==> regex_source(re) == pattern@,
{
    Regex::new(pattern).ok()
}

/// Calls `regex::Regex::is_match`: whether the expression matches
/// somewhere in the text.
#[verifier::external_body]
fn is_match(re: &Regex, text: &str) -> (found: bool)
    ensures
        found == regex_matches(*re, text@),
{
    re.is_match(text)
}

/// Calls `regex::Regex::captures`: the groups of the leftmost match in
/// the text, each as the text it matched, if there is a match.
#[verifier::external_body]
fn captures(re: &Regex, text: &str) -> (groups: Option<Vec<Option<String>>>)
    ensures
        groups_view(groups) == regex_groups(*re, text@),
{
    re.captures(text).map(|c| (0..c.len()).map(|i| c.get(i).map(|m| m.as_str().to_string())).collect())
}

/// A compiled pattern.
pub struct Pattern {
    compiled: Regex,
}

impl Pattern {
    /// The pattern as it was written.
    pub closed spec fn source(&self) -> Seq<char> {
        regex_source(self.compiled)
    }

    /// Whether the pattern matches somewhere in `text`.
    pub closed spec fn matches(&self, text: Seq<char>) -> bool {
        regex_matches(self.compiled, text)
    }

    /// The groups of the leftmost match of the pattern in `text`.
    pub closed spec fn groups(&self, text: Seq<char>) -> Option<Seq<Option<Seq<char>>>> {
        regex_groups(self.compiled, text)
    }

    /// The pattern `source`, compiled, if the crate accepts it.
    pub fn new(source: &str) -> (r: Option<Self>)
        ensures
            r is Some <==> pattern_valid(source@),
            r matches Some(p) ==> p.source() == source@,
    {
        match compile(source) {
            Some(compiled) => Some(Pattern { compiled }),
            None => None,
        }
    }

    /// Whether the pattern matches somewhere in `text`.
    pub fn is_match(&self, text: &str) -> (found: bool)
        ensures
            found == self.matches(text@),
    {
        is_match(&self.compiled, text)
    }

    /// The groups of the leftmost match of the pattern in `text`.
    pub fn captures(&self, text: &str) -> (groups: Option<Vec<Option<String>>>)
        ensures
            groups_view(groups) == self.groups(text@),
    {
        captures(&self.compiled, text)
    }
}

/// The text of the group `i` of `groups`, where the group is there and
/// took part in the match.
pub open spec fn group_text(groups: Seq<Option<Seq<char>>>, i: int) -> Option<Seq<char>> {
    if 0 <= i < groups.len() {
        groups[i]
    } else {
        None
    }
}

/// The text of the group `i` of the match.
pub fn group(groups: &Vec<Option<String>>, i: usize) -> (r: Option<&String>)
    ensures
        match r {
            Some(text) => group_text(groups_view(Some(*groups))->0, i as int) == Some(text@),
            None => group_text(groups_view(Some(*groups))->0, i as int) is None,
        },
{
    if i < groups.len() {
        match &groups[i] {
            Some(text) => Some(text),
            None => None,
        }
    } else {
        None
    }
}

} // verus!
