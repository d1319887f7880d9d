//! The mapping table and its three lookups.

use crate::trusted::{is_match, parse_uri, regex_is_match, regex_replace, replace_first, uri_parse};
use axum::http::uri::InvalidUri;
use axum::http::Uri;
use regex::Regex;
use vstd::hash_map::StringHashMap;
use vstd::prelude::*;

verus! {

/// Why a lookup gave no target.
#[derive(Clone, Copy, Debug, PartialEq, Eq, Structural)]
pub enum MatchError {
    /// No exact entry and no pattern rule matched the input.
    NotFound,
    /// A pattern rule matched, but what its template produced is no URI.
    InvalidTarget,
}

/// The position of the first rule whose expression matches `key`.
pub open spec fn first_match(rules: Seq<(Regex, String)>, key: Seq<char>) -> Option<int>
    decreases rules.len(),
{
    if rules.len() == 0 {
        None
    } else if regex_is_match(rules[0].0, key) {
        Some(0)
    } else {
        match first_match(rules.skip(1), key) {
            Some(i) => Some(i + 1),
            None => None,
        }
    }
}

/// The outcome of an exact lookup of `key`.
pub open spec fn exact_outcome(table: Map<Seq<char>, Uri>, key: Seq<char>) -> Result<
    Uri,
    MatchError,
> {
    if table.contains_key(key) {
        Ok(table[key])
    } else {
        Err(MatchError::NotFound)
    }
}

/// The outcome of applying one rule that matched `key`: the URI that the
/// rule's template produces, or `InvalidTarget` where it produces none.
pub open spec fn rule_outcome(rule: (Regex, String), key: Seq<char>) -> Result<Uri, MatchError> {
    match uri_parse(regex_replace(rule.0, key, rule.1@)) {
        Some(uri) => Ok(uri),
        None => Err(MatchError::InvalidTarget),
    }
}

/// The outcome of a pattern lookup of `key`: that of the first rule that
/// matches, whatever later rules would give; `NotFound` where none matches.
pub open spec fn pattern_outcome(rules: Seq<(Regex, String)>, key: Seq<char>) -> Result<
    Uri,
    MatchError,
> {
    match first_match(rules, key) {
        Some(i) => rule_outcome(rules[i], key),
        None => Err(MatchError::NotFound),
    }
}

/// The outcome of a lookup of `key`: the exact entry where there is one,
/// else the outcome of the pattern lookup.
pub open spec fn outcome(
    table: Map<Seq<char>, Uri>,
    rules: Seq<(Regex, String)>,
    key: Seq<char>,
) -> Result<Uri, MatchError> {
    if table.contains_key(key) {
        Ok(table[key])
    } else {
        pattern_outcome(rules, key)
    }
}

/// `first_match` gives the least position whose rule matches.
pub proof fn lemma_first_match(rules: Seq<(Regex, String)>, key: Seq<char>)
    ensures
        match first_match(rules, key) {
            Some(i) => 0 <= i < rules.len() && regex_is_match(rules[i].0, key) && forall|j: int|
                0 <= j < i ==> !regex_is_match(#[trigger] rules[j].0, key),
            None => forall|j: int|
                0 <= j < rules.len() ==> !regex_is_match(#[trigger] rules[j].0, key),
        },
    decreases rules.len(),
{
    if rules.len() > 0 && !regex_is_match(rules[0].0, key) {
        let rest = rules.skip(1);
        lemma_first_match(rest, key);
        match first_match(rest, key) {
            Some(i) => {
                assert forall|j: int| 0 <= j < i + 1 implies !regex_is_match(
                    #[trigger] rules[j].0,
                    key,
                ) by {
                    if j > 0 {
                        assert(rest[j - 1] == rules[j]);
                    }
                }
                assert(rest[i] == rules[i + 1]);
            },
            None => {
                assert forall|j: int| 0 <= j < rules.len() implies !regex_is_match(
                    #[trigger] rules[j].0,
                    key,
                ) by {
                    if j > 0 {
                        assert(rest[j - 1] == rules[j]);
                    }
                }
            },
        }
    }
}

/// A position whose rule matches, with none matching before it, is the
/// first match.
pub proof fn lemma_first_match_is(rules: Seq<(Regex, String)>, key: Seq<char>, i: int)
    requires
        0 <= i < rules.len(),
        regex_is_match(rules[i].0, key),
        forall|j: int| 0 <= j < i ==> !regex_is_match(#[trigger] rules[j].0, key),
    ensures
        first_match(rules, key) == Some(i),
{
    lemma_first_match(rules, key);
}

/// An exact entry takes precedence: a key of the table resolves to its
/// exact target, whatever the pattern rules are and whether or not one of
/// them matches the key.
pub proof fn lemma_exact_takes_precedence(
    table: Map<Seq<char>, Uri>,
    rules: Seq<(Regex, String)>,
    key: Seq<char>,
)
    requires
        table.contains_key(key),
    ensures
        outcome(table, rules, key) == Ok::<Uri, MatchError>(table[key]),
{
}

/// The first rule that matches decides: rules are tried by ascending
/// position, and the outcome is that of the first whose expression matches,
/// be it a URI or `InvalidTarget`. Later rules are not tried.
pub proof fn lemma_first_rule_decides(rules: Seq<(Regex, String)>, key: Seq<char>, i: int)
    requires
        0 <= i < rules.len(),
        regex_is_match(rules[i].0, key),
        forall|j: int| 0 <= j < i ==> !regex_is_match(#[trigger] rules[j].0, key),
    ensures
        pattern_outcome(rules, key) == rule_outcome(rules[i], key),
        pattern_outcome(rules, key) != Err::<Uri, MatchError>(MatchError::NotFound),
        uri_parse(regex_replace(rules[i].0, key, rules[i].1@)) is None ==> pattern_outcome(
            rules,
            key,
        ) == Err::<Uri, MatchError>(MatchError::InvalidTarget),
{
    lemma_first_match_is(rules, key, i);
}

/// A key that is no exact entry and that no rule matches is not found.
pub proof fn lemma_no_match_is_not_found(
    table: Map<Seq<char>, Uri>,
    rules: Seq<(Regex, String)>,
    key: Seq<char>,
)
    requires
        !table.contains_key(key),
        forall|j: int| 0 <= j < rules.len() ==> !regex_is_match(#[trigger] rules[j].0, key),
    ensures
        outcome(table, rules, key) == Err::<Uri, MatchError>(MatchError::NotFound),
{
    lemma_first_match(rules, key);
}

/// The table of redirect targets: exact entries by key, and pattern rules
/// in the order in which they are tried.
pub struct UriMappings {
    /// The exact entries.
    pub standard: StringHashMap<Uri>,
    /// The pattern rules, each an expression and the template of its target.
    pub pattern: Vec<(Regex, String)>,
}

/// Turns the parse of a rule's replacement into the outcome of the lookup.
pub fn target_of(parsed: Result<Uri, InvalidUri>) -> (r: Result<Uri, MatchError>)
    ensures
        r == match parsed {
            Ok(uri) => Ok::<Uri, MatchError>(uri),
            Err(_) => Err::<Uri, MatchError>(MatchError::InvalidTarget),
        },
{
    match parsed {
        Ok(uri) => Ok(uri),
        Err(_) => Err(MatchError::InvalidTarget),
    }
}

impl UriMappings {
    /// A table of the given exact entries and pattern rules.
    pub fn new(standard: StringHashMap<Uri>, pattern: Vec<(Regex, String)>) -> (r: UriMappings)
        ensures
            r.standard == standard,
            r.pattern == pattern,
    {
        UriMappings { standard, pattern }
    }

    /// Looks `parameter` up among the exact entries.
    pub fn match_standard(&self, parameter: &str) -> (r: Result<Uri, MatchError>)
        ensures
            r == exact_outcome(self.standard@, parameter@),
    {
        match self.standard.get(parameter) {
            Some(uri) => Ok(uri.clone()),
            None => Err(MatchError::NotFound),
        }
    }

    /// Applies the first pattern rule that matches `parameter`.
    pub fn match_pattern(&self, parameter: &str) -> (r: Result<Uri, MatchError>)
        ensures
            r == pattern_outcome(self.pattern@, parameter@),
            forall|i: int|
                0 <= i < self.pattern@.len() && regex_is_match(
                    (#[trigger] self.pattern@[i]).0,
                    parameter@,
                ) && (forall|j: int|
                    0 <= j < i ==> !regex_is_match((#[trigger] self.pattern@[j]).0, parameter@))
                    ==> r == rule_outcome(self.pattern@[i], parameter@),
            (forall|i: int|
                0 <= i < self.pattern@.len() ==> !regex_is_match(
                    #[trigger] self.pattern@[i].0,
                    parameter@,
                )) ==> r == Err::<Uri, MatchError>(MatchError::NotFound),
            r == Err::<Uri, MatchError>(MatchError::InvalidTarget) ==> exists|i: int|
                0 <= i < self.pattern@.len() && regex_is_match(
                    #[trigger] self.pattern@[i].0,
                    parameter@,
                ),
    {
        proof {
            lemma_first_match(self.pattern@, parameter@);
        }
        let mut i: usize = 0;
        while i < self.pattern.len()
            invariant
                0 <= i <= self.pattern@.len(),
                forall|j: int|
                    0 <= j < i ==> !regex_is_match(#[trigger] self.pattern@[j].0, parameter@),
            decreases self.pattern@.len() - i,
        {
            let rule = &self.pattern[i];
            if is_match(&rule.0, parameter) {
                proof {
                    lemma_first_match_is(self.pattern@, parameter@, i as int);
                }
                let replacement = replace_first(&rule.0, parameter, rule.1.as_str());
                return target_of(parse_uri(replacement.as_str()));
            }
            i = i + 1;
        }
        Err(MatchError::NotFound)
    }

    /// Looks `parameter` up among the exact entries, then among the pattern
    /// rules. An exact entry wins over every pattern rule.
    pub fn match_anything(&self, parameter: &str) -> (r: Result<Uri, MatchError>)
        ensures
            r == outcome(self.standard@, self.pattern@, parameter@),
            self.standard@.contains_key(parameter@) ==> r == Ok::<Uri, MatchError>(
                self.standard@[parameter@],
            ),
            !self.standard@.contains_key(parameter@) && (forall|i: int|
                0 <= i < self.pattern@.len() ==> !regex_is_match(
                    #[trigger] self.pattern@[i].0,
                    parameter@,
                )) ==> r == Err::<Uri, MatchError>(MatchError::NotFound),
    {
        match self.match_standard(parameter) {
            Ok(standard) => Ok(standard),
            Err(_) => self.match_pattern(parameter),
        }
    }
}

} // verus!
