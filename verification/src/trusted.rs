//! The boundary to what this library does not verify: std's prefix test,
//! and the `substring`, `regex` and `http` crates. Here stand their types,
//! names for what their functions return, and the calls themselves. No
//! contract in this file is proved; every one is taken on trust.

use axum::http::uri::InvalidUri;
use axum::http::Uri;
use regex::Regex;
use std::str::FromStr;
use substring::Substring;
use vstd::prelude::*;

verus! {

/// The characters of `text` from position `start` up to, not including,
/// position `end`, both cut down to the length of `text`; empty where
/// `end <= start`.
pub open spec fn char_range(text: Seq<char>, start: int, end: int) -> Seq<char> {
    if end <= start {
        Seq::empty()
    } else {
        let len = text.len() as int;
        text.subrange(
            if start < len { start } else { len },
            if end < len { end } else { len },
        )
    }
}

/// `str::starts_with` of std, for a string pattern: whether the characters
/// of `prefix` are the first characters of `text`.
#[verifier::external_body]
pub(crate) fn starts_with(text: &str, prefix: &str) -> (b: bool)
    ensures
        b == prefix@.is_prefix_of(text@),
{
    text.starts_with(prefix)
}

/// `Substring::substring` of the `substring` crate: the slice of `text`
/// between two character positions, which the crate cuts down to the length
/// of `text`, and which is empty where `end <= start`.
#[verifier::external_body]
pub(crate) fn substring<'a>(text: &'a str, start: usize, end: usize) -> (r: &'a str)
    ensures
        r@ == char_range(text@, start as int, end as int),
{
    text.substring(start, end)
}

/// `regex::Regex`, a compiled regular expression.
#[verifier::external_type_specification]
#[verifier::external_body]
pub struct ExRegex(regex::Regex);

/// `regex::Error`, why a pattern did not compile.
#[verifier::external_type_specification]
#[verifier::external_body]
pub struct ExRegexError(regex::Error);

/// `http::Uri`, a parsed URI.
#[verifier::external_type_specification]
#[verifier::external_body]
pub struct ExUri(axum::http::Uri);

/// `http::uri::InvalidUri`, why a text is no URI.
#[verifier::external_type_specification]
#[verifier::external_body]
pub struct ExInvalidUri(axum::http::uri::InvalidUri);

/// The regular expression that `pattern` compiles to with the crate's
/// default options, if it compiles.
pub uninterp spec fn regex_compile(pattern: Seq<char>) -> Option<Regex>;

/// Whether `re` matches anywhere in `haystack`.
pub uninterp spec fn regex_is_match(re: Regex, haystack: Seq<char>) -> bool;

/// `haystack` with its leftmost match of `re` replaced by `template`, in
/// which `$N` and `$name` stand for the capture groups of that match.
pub uninterp spec fn regex_replace(re: Regex, haystack: Seq<char>, template: Seq<char>) -> Seq<
    char,
>;

/// The URI that `text` parses to, if it is one.
pub uninterp spec fn uri_parse(text: Seq<char>) -> Option<Uri>;

/// `Regex::new`: compiles `pattern`. The result is determined by the
/// pattern, and the empty pattern always compiles, as the crate documents.
#[verifier::external_body]
pub(crate) fn compile_regex(pattern: &str) -> (r: Result<Regex, regex::Error>)
    ensures
        match r {
            Ok(re) => regex_compile(pattern@) == Some(re),
            Err(_) => regex_compile(pattern@) is None,
        },
        pattern@.len() == 0 ==> r is Ok,
{
    Regex::new(pattern)
}

/// `Regex::is_match`: whether `re` matches anywhere in `haystack`. The
/// result is determined by the expression and the haystack.
#[verifier::external_body]
pub(crate) fn is_match(re: &Regex, haystack: &str) -> (b: bool)
    ensures
        b == regex_is_match(*re, haystack@),
{
    re.is_match(haystack)
}

/// `Regex::replace` with a string template: replaces the leftmost match.
/// The result is determined by the expression, the haystack and the
/// template.
#[verifier::external_body]
pub(crate) fn replace_first(re: &Regex, haystack: &str, template: &str) -> (r: String)
    ensures
        r@ == regex_replace(*re, haystack@, template@),
{
    re.replace(haystack, template).into_owned()
}

/// `Uri::from_str`: parses `text` as a URI. The result is determined by the
/// text.
#[verifier::external_body]
pub(crate) fn parse_uri(text: &str) -> (r: Result<Uri, InvalidUri>)
    ensures
        match r {
            Ok(uri) => uri_parse(text@) == Some(uri),
            Err(_) => uri_parse(text@) is None,
        },
{
    Uri::from_str(text)
}

/// `Clone` of `http::Uri`: the copy is the same URI.
pub assume_specification[ <Uri as Clone>::clone ](uri: &Uri) -> (r: Uri)
    ensures
        r == *uri,
;

} // verus!
