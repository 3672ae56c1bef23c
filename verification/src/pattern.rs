//! The three textual patterns and the compiled matchers that find them.
//!
//! Matching is done by the `regex` crate. What it returns is not proved here:
//! it is named, and everything that is done with it is stated over the name.

use vstd::prelude::*;
use regex::Regex;
use crate::entry::EntryType;

verus! {

/// Finds `variable "name" {`: the keyword, whitespace, the quoted name,
/// optional whitespace and an opening brace.
pub const DEFINITION_PATTERN: &'static str = r#"variable\s+"([A-Za-z0-9_]+)"\s*\{"#;

/// Finds `var.name` anywhere in the text.
pub const USE_PATTERN: &'static str = r#"var\.([A-Za-z0-9_]+)"#;

/// Finds `name = value`, the value being the rest of the line.
pub const VALUE_PATTERN: &'static str = r#"([A-Za-z0-9_]+)\s+=\s+(.*)"#;

/// A compiled matcher of the `regex` crate. Nothing of what it holds is
/// visible here.
#[verifier::external_type_specification]
#[verifier::external_body]
pub struct ExRegex(Regex);

/// For a matcher that `Regex::new` built, the pattern text that it was built
/// from. Nothing is said of a matcher that was built in another way.
pub uninterp spec fn pattern_of(re: Regex) -> Seq<char>;

/// Whether `Regex::new` accepts the pattern text.
pub uninterp spec fn pattern_compiles(pattern: Seq<char>) -> bool;

/// What a matcher built by `Regex::new` from the pattern finds in the text:
/// one run of groups for each successive match, the matches from left to
/// right without overlap. In a run, the group at 0 is the whole match and the
/// others follow in the order of the pattern; a group that took no part in
/// the match is `None`.
pub uninterp spec fn captures_of(pattern: Seq<char>, text: Seq<char>) -> Seq<
    Seq<Option<Seq<char>>>,
>;

/// Calls `Regex::new`. Whether it succeeds depends on the pattern alone, and
/// the matcher that it returns was built from the pattern it was given.
#[verifier::external_body]
fn compile(pattern: &str) -> (result: Option<Regex>)
    ensures
        result.is_some() == pattern_compiles(pattern@),
        result matches Some(re) ==> pattern_of(re) == pattern@,
{
    Regex::new(pattern).ok()
}

/// Calls `Regex::captures_iter` and copies out what it yields: for each
/// match, in the order of the iterator, the text of every group.
#[verifier::external_body]
fn capture_groups(re: &Regex, text: &str) -> (found: Vec<Vec<Option<String>>>)
    ensures
        found.deep_view() == captures_of(pattern_of(*re), text@),
{
    re.captures_iter(text)
        .map(|caps| caps.iter().map(|group| group.map(|m| m.as_str().to_string())).collect())
        .collect()
}

impl EntryType {
    /// The pattern text that finds entries of this kind.
    pub open spec fn pattern_text(self) -> Seq<char> {
        match self {
            EntryType::Definition => DEFINITION_PATTERN@,
            EntryType::Use => USE_PATTERN@,
            EntryType::Value => VALUE_PATTERN@,
        }
    }

    /// The pattern that finds entries of this kind, as it is handed to the
    /// matcher.
    pub fn pattern(self) -> (text: &'static str)
        ensures
            text@ == self.pattern_text(),
    {
        match self {
            EntryType::Definition => DEFINITION_PATTERN,
            EntryType::Use => USE_PATTERN,
            EntryType::Value => VALUE_PATTERN,
        }
    }

    /// The compiled matcher for entries of this kind.
    pub fn regex<'a>(&self, matchers: &'a Matchers) -> (re: &'a Regex)
        ensures
            pattern_of(*re) == self.pattern_text(),
    {
        proof {
            use_type_invariant(matchers);
        }
        match self {
            EntryType::Definition => &matchers.definition,
            EntryType::Use => &matchers.usage,
            EntryType::Value => &matchers.value,
        }
    }
}

/// A pattern that the matcher refused to compile.
#[derive(Debug, PartialEq, Eq)]
pub struct InvalidPattern {
    pub entry_type: EntryType,
}

/// The compiled matchers, one for each kind of entry. They are built once and
/// only read afterwards.
pub struct Matchers {
    definition: Regex,
    usage: Regex,
    value: Regex,
}

impl Matchers {
    #[verifier::type_invariant]
    spec fn holds_its_patterns(&self) -> bool {
        &&& pattern_of(self.definition) == EntryType::Definition.pattern_text()
        &&& pattern_of(self.usage) == EntryType::Use.pattern_text()
        &&& pattern_of(self.value) == EntryType::Value.pattern_text()
    }

    /// Compiles the three patterns. Fails with the first kind, in the order
    /// definition, use, value, whose pattern does not compile.
    pub fn new() -> (result: Result<Matchers, InvalidPattern>)
        ensures
            result matches Err(e) ==> {
                &&& !pattern_compiles(e.entry_type.pattern_text())
                &&& e.entry_type == EntryType::Use ==> pattern_compiles(
                    EntryType::Definition.pattern_text(),
                )
                &&& e.entry_type == EntryType::Value ==> pattern_compiles(
                    EntryType::Definition.pattern_text(),
                ) && pattern_compiles(EntryType::Use.pattern_text())
            },
            result is Ok <==> {
                &&& pattern_compiles(EntryType::Definition.pattern_text())
                &&& pattern_compiles(EntryType::Use.pattern_text())
                &&& pattern_compiles(EntryType::Value.pattern_text())
            },
    {
        let definition = match compile(EntryType::Definition.pattern()) {
            Some(re) => re,
            None => { return Err(InvalidPattern { entry_type: EntryType::Definition }); },
        };
        let usage = match compile(EntryType::Use.pattern()) {
            Some(re) => re,
            None => { return Err(InvalidPattern { entry_type: EntryType::Use }); },
        };
        let value = match compile(EntryType::Value.pattern()) {
            Some(re) => re,
            None => { return Err(InvalidPattern { entry_type: EntryType::Value }); },
        };
        Ok(Matchers { definition, usage, value })
    }

    /// The groups of each match of the pattern of `entry_type` in `text`.
    pub fn captures_in(&self, entry_type: EntryType, text: &str) -> (found: Vec<
        Vec<Option<String>>,
    >)
        ensures
            found.deep_view() == captures_of(entry_type.pattern_text(), text@),
    {
        capture_groups(entry_type.regex(self), text)
    }
}

} // verus!
