use axum::http::uri::InvalidUri;
use axum::http::Uri;
use regex::Regex;
use std::str::FromStr;
use urshort::uri_mappings::{target_of, MatchError, UriMappings};
use vstd::hash_map::StringHashMap;

fn table(entries: &[(&str, &str)]) -> StringHashMap<Uri> {
    let mut map: StringHashMap<Uri> = StringHashMap::new();
    for (key, uri) in entries {
        map.insert(key.to_string(), Uri::from_str(uri).unwrap());
    }
    map
}

fn rules(raw: &[(&str, &str)]) -> Vec<(Regex, String)> {
    raw.iter()
        .map(|(re, template)| (Regex::new(re).unwrap(), template.to_string()))
        .collect()
}

#[test]
fn redirect_standard_uris() -> Result<(), InvalidUri> {
    let mut standard: StringHashMap<Uri> = StringHashMap::new();
    standard.insert("test".to_string(), Uri::from_str("https://example.com")?);
    standard.insert("1/1".to_string(), Uri::from_str("https://example.com/1")?);
    standard.insert("3.14".to_string(), Uri::from_str("https://example.com/pi")?);
    let uri_mappings = UriMappings::new(standard, Vec::new());

    // No matches
    assert!(uri_mappings.match_standard("/invalid").is_err());

    // Standard matches
    assert_eq!(
        uri_mappings.match_standard("test").unwrap(),
        Uri::from_str("https://example.com")?
    );
    assert_eq!(
        uri_mappings.match_standard("1/1").unwrap(),
        Uri::from_str("https://example.com/1")?
    );
    assert_eq!(
        uri_mappings.match_standard("3.14").unwrap(),
        Uri::from_str("https://example.com/pi")?
    );

    Ok(())
}

#[test]
fn redirect_pattern_uris() -> Result<(), InvalidUri> {
    let pattern = vec![
        (
            Regex::new(r"(?P<last>[^,\s]+),\s+(?P<first>\S+)").unwrap(),
            "$first $last".to_string(),
        ),
        (
            Regex::new(r"^i(?P<index>\d+)$").unwrap(),
            "https://example.com/$index".to_string(),
        ),
    ];
    let uri_mappings = UriMappings::new(StringHashMap::new(), pattern);

    // Pattern is close, but does not match
    assert!(uri_mappings.match_pattern("i12.12").is_err());
    assert!(uri_mappings.match_pattern("i-1212").is_err());
    assert!(uri_mappings.match_pattern("i1212g").is_err());
    assert!(uri_mappings.match_pattern("-i1212g").is_err());

    // Pattern matches, but not URI
    assert!(uri_mappings.match_pattern("Solo, Jaina").is_err());

    // Pattern matches and is URI
    let result = uri_mappings.match_pattern("i1212");
    assert!(result.is_ok());
    assert_eq!(result.unwrap(), Uri::from_str("https://example.com/1212")?);

    Ok(())
}

#[test]
fn redirect_standard_and_pattern_uris() -> Result<(), InvalidUri> {
    let mut standard: StringHashMap<Uri> = StringHashMap::new();
    standard.insert("i".to_string(), Uri::from_str("https://example.com")?);
    standard.insert("i5".to_string(), Uri::from_str("https://example.com/five")?);
    standard.insert(
        "unrelated".to_string(),
        Uri::from_str("https://example.com/byebye")?,
    );
    let pattern = vec![
        (
            Regex::new(r"^(?P<index>\d+)$").unwrap(),
            "https://example.com/$index".to_string(),
        ),
        (
            Regex::new(r"^i(?P<index>\d+)$").unwrap(),
            "https://example.com/$index".to_string(),
        ),
    ];
    let uri_mappings = UriMappings::new(standard, pattern);

    // No match at all
    assert!(uri_mappings.match_anything("ithree").is_err());
    assert!(uri_mappings.match_anything("bad").is_err());

    // Standard matches are preferred over pattern matches
    let result = uri_mappings.match_anything("i5");
    assert!(result.is_ok());
    assert_eq!(result.unwrap(), Uri::from_str("https://example.com/five")?);

    // Pattern match used when no standard
    let result = uri_mappings.match_anything("i42");
    assert!(result.is_ok());
    assert_eq!(result.unwrap(), Uri::from_str("https://example.com/42")?);

    Ok(())
}

#[test]
fn new_keeps_what_it_is_given() {
    let mappings = UriMappings::new(
        table(&[("a", "https://example.com/a")]),
        rules(&[("^x$", "https://example.com/x")]),
    );
    assert_eq!(mappings.standard.len(), 1);
    assert_eq!(mappings.pattern.len(), 1);
    assert_eq!(mappings.pattern[0].0.as_str(), "^x$");
    assert_eq!(mappings.pattern[0].1, "https://example.com/x");
}

#[test]
fn exact_entry_wins_over_a_matching_pattern() {
    let mappings = UriMappings::new(
        table(&[("42", "https://example.com/exact")]),
        rules(&[(r"^(\d+)$", "https://example.com/$1")]),
    );
    assert_eq!(
        mappings.match_anything("42"),
        Ok(Uri::from_str("https://example.com/exact").unwrap())
    );
    assert_eq!(
        mappings.match_pattern("42"),
        Ok(Uri::from_str("https://example.com/42").unwrap())
    );
    assert_eq!(
        mappings.match_anything("43"),
        Ok(Uri::from_str("https://example.com/43").unwrap())
    );
}

#[test]
fn rules_are_tried_in_index_order() {
    let mappings = UriMappings::new(
        StringHashMap::new(),
        rules(&[
            (r"^(\d+)$", "https://example.com/$1"),
            (r"^i(\d+)$", "https://example.com/$1"),
        ]),
    );
    assert_eq!(
        mappings.match_anything("i42"),
        Ok(Uri::from_str("https://example.com/42").unwrap())
    );
    assert_eq!(mappings.match_anything("bad"), Err(MatchError::NotFound));
}

#[test]
fn first_matching_rule_is_the_one_applied() {
    let mappings = UriMappings::new(
        StringHashMap::new(),
        rules(&[
            ("^a.*$", "https://example.com/first"),
            ("^ab$", "https://example.com/second"),
            ("^.*b$", "https://example.com/third"),
        ]),
    );
    assert_eq!(
        mappings.match_pattern("ab"),
        Ok(Uri::from_str("https://example.com/first").unwrap())
    );
    assert_eq!(
        mappings.match_pattern("xb"),
        Ok(Uri::from_str("https://example.com/third").unwrap())
    );
}

#[test]
fn no_match_is_not_found() {
    let mappings = UriMappings::new(
        table(&[("k", "https://example.com/k")]),
        rules(&[(r"^i(\d+)$", "https://example.com/$1")]),
    );
    assert_eq!(mappings.match_standard("K"), Err(MatchError::NotFound));
    assert_eq!(mappings.match_standard(""), Err(MatchError::NotFound));
    assert_eq!(mappings.match_pattern("k"), Err(MatchError::NotFound));
    assert_eq!(mappings.match_anything("bad"), Err(MatchError::NotFound));
}

#[test]
fn empty_table_finds_nothing() {
    let mappings = UriMappings::new(StringHashMap::new(), Vec::new());
    assert_eq!(mappings.match_standard("a"), Err(MatchError::NotFound));
    assert_eq!(mappings.match_pattern("a"), Err(MatchError::NotFound));
    assert_eq!(mappings.match_anything("a"), Err(MatchError::NotFound));
    assert_eq!(mappings.match_anything(""), Err(MatchError::NotFound));
}

#[test]
fn invalid_target_is_distinct_from_not_found() {
    let mappings = UriMappings::new(
        StringHashMap::new(),
        rules(&[(r"(?P<last>[^,\s]+),\s+(?P<first>\S+)", "$first $last")]),
    );
    assert_eq!(
        mappings.match_pattern("Solo, Jaina"),
        Err(MatchError::InvalidTarget)
    );
    assert_eq!(
        mappings.match_anything("Solo, Jaina"),
        Err(MatchError::InvalidTarget)
    );
    assert_eq!(mappings.match_pattern("Solo"), Err(MatchError::NotFound));
    assert_ne!(MatchError::InvalidTarget, MatchError::NotFound);
}

#[test]
fn invalid_target_does_not_fall_through_to_later_rules() {
    let mappings = UriMappings::new(
        StringHashMap::new(),
        rules(&[("^a", "not a uri"), ("^a", "https://example.com/a")]),
    );
    assert_eq!(mappings.match_pattern("a"), Err(MatchError::InvalidTarget));
    assert_eq!(mappings.match_anything("a"), Err(MatchError::InvalidTarget));
}

#[test]
fn pattern_matches_anywhere_unless_anchored() {
    let mappings = UriMappings::new(
        StringHashMap::new(),
        rules(&[("b+", "X")]),
    );
    assert_eq!(
        mappings.match_pattern("abbbc"),
        Ok(Uri::from_str("aXc").unwrap())
    );
    assert_eq!(mappings.match_pattern("ac"), Err(MatchError::NotFound));
}

#[test]
fn only_the_leftmost_match_is_replaced() {
    let mappings = UriMappings::new(
        StringHashMap::new(),
        rules(&[(r"(\d)", "<$1>")]),
    );
    assert_eq!(
        mappings.match_pattern("a1b2"),
        Err(MatchError::InvalidTarget)
    );
    let mappings = UriMappings::new(StringHashMap::new(), rules(&[(r"(\d)", "n$1")]));
    assert_eq!(
        mappings.match_pattern("a1b2"),
        Ok(Uri::from_str("an1b2").unwrap())
    );
}

#[test]
fn numbered_and_named_groups_are_substituted() {
    let mappings = UriMappings::new(
        StringHashMap::new(),
        rules(&[(
            r"^(?P<user>[a-z]+)-(\d+)$",
            "https://example.com/${user}/$2",
        )]),
    );
    assert_eq!(
        mappings.match_pattern("bob-7"),
        Ok(Uri::from_str("https://example.com/bob/7").unwrap())
    );
}

#[test]
fn target_of_maps_the_parse() {
    let good = Uri::from_str("https://example.com/ok");
    assert_eq!(
        target_of(good),
        Ok(Uri::from_str("https://example.com/ok").unwrap())
    );
    assert_eq!(
        target_of(Uri::from_str("not a uri")),
        Err(MatchError::InvalidTarget)
    );
    assert_eq!(target_of(Uri::from_str("")), Err(MatchError::InvalidTarget));
}
