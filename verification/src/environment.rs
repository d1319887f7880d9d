//! Reading the configuration: from raw key/value pairs to the port, the
//! exact entries and the pattern rules.

pub mod pattern;
pub mod port;
pub mod standard;

pub use pattern::{
    extract_pattern_uris, pair_rules, parse_index, place_by_index, read_regex_entries,
    read_template_entries,
};
pub use port::extract_port_number;
pub use standard::{collect_table, extract_standard_uris, read_standard_entries};

use vstd::prelude::*;

verus! {

/// The raw pairs as texts: each key and value by its characters.
pub open spec fn pairs_view(pairs: Seq<(String, String)>) -> Seq<(Seq<char>, Seq<char>)> {
    Seq::new(pairs.len(), |i: int| (pairs[i].0@, pairs[i].1@))
}

} // verus!
