//! The exact entries: keys under a prefix, each with the URI it leads to.

use crate::environment::pairs_view;
use crate::trusted::{parse_uri, uri_parse};
use crate::text::{strip_prefix, without_prefix};
use crate::uri_mappings::{exact_outcome, MatchError};
use axum::http::Uri;
use vstd::hash_map::StringHashMap;
use vstd::prelude::*;

verus! {

/// The exact entry that one pair contributes: its key begins with `prefix`
/// and its value is a URI. The entry's key is what follows the prefix.
pub open spec fn standard_entry(pair: (Seq<char>, Seq<char>), prefix: Seq<char>) -> Option<
    (Seq<char>, Uri),
> {
    match (without_prefix(pair.0, prefix), uri_parse(pair.1)) {
        (Some(key), Some(uri)) => Some((key, uri)),
        _ => None,
    }
}

/// Whether a pair contributes an exact entry under `key`.
pub open spec fn contributes(
    pair: (Seq<char>, Seq<char>),
    prefix: Seq<char>,
    key: Seq<char>,
) -> bool {
    match standard_entry(pair, prefix) {
        Some(entry) => entry.0 == key,
        None => false,
    }
}

/// The exact entries that the pairs contribute, in the order of the pairs.
/// A pair under another key, or whose value is no URI, contributes nothing.
pub open spec fn standard_entries(pairs: Seq<(Seq<char>, Seq<char>)>, prefix: Seq<char>) -> Seq<
    (Seq<char>, Uri),
>
    decreases pairs.len(),
{
    if pairs.len() == 0 {
        Seq::empty()
    } else {
        let earlier = standard_entries(pairs.drop_last(), prefix);
        match standard_entry(pairs.last(), prefix) {
            Some(entry) => earlier.push(entry),
            None => earlier,
        }
    }
}

/// The table that a run of entries fills: each entry is written under its
/// key in turn, so that of two entries with one key the later stays.
pub open spec fn table_of(entries: Seq<(Seq<char>, Uri)>) -> Map<Seq<char>, Uri>
    decreases entries.len(),
{
    if entries.len() == 0 {
        Map::empty()
    } else {
        table_of(entries.drop_last()).insert(entries.last().0, entries.last().1)
    }
}

/// The entries as texts: each key by its characters.
pub open spec fn entries_view(entries: Seq<(String, Uri)>) -> Seq<(Seq<char>, Uri)> {
    Seq::new(entries.len(), |i: int| (entries[i].0@, entries[i].1))
}

/// A key is in the table exactly if some entry has it, and the table holds
/// under it the target of the last such entry.
pub proof fn lemma_table_of(entries: Seq<(Seq<char>, Uri)>, key: Seq<char>)
    ensures
        table_of(entries).contains_key(key) <==> exists|i: int|
            0 <= i < entries.len() && (#[trigger] entries[i]).0 == key,
        forall|i: int|
            0 <= i < entries.len() && (#[trigger] entries[i]).0 == key && (forall|j: int|
                i < j < entries.len() ==> (#[trigger] entries[j]).0 != key) ==> table_of(
                entries,
            )[key] == entries[i].1,
    decreases entries.len(),
{
    if entries.len() > 0 {
        let earlier = entries.drop_last();
        let last = entries.len() - 1;
        lemma_table_of(earlier, key);
        if entries[last].0 == key {
            assert(table_of(entries).contains_key(key));
        } else {
            if table_of(entries).contains_key(key) {
                let i = choose|i: int| 0 <= i < earlier.len() && (#[trigger] earlier[i]).0 == key;
                assert(entries[i] == earlier[i]);
            }
            if exists|i: int| 0 <= i < entries.len() && (#[trigger] entries[i]).0 == key {
                let i = choose|i: int| 0 <= i < entries.len() && (#[trigger] entries[i]).0 == key;
                assert(earlier[i] == entries[i]);
            }
        }
        assert forall|i: int|
            0 <= i < entries.len() && (#[trigger] entries[i]).0 == key && (forall|j: int|
                i < j < entries.len() ==> (#[trigger] entries[j]).0 != key) implies table_of(
            entries,
        )[key] == entries[i].1 by {
            if i < last {
                assert(entries[last].0 != key);
                assert(earlier[i] == entries[i]);
                assert forall|j: int| i < j < earlier.len() implies (#[trigger] earlier[j]).0
                    != key by {
                    assert(earlier[j] == entries[j]);
                }
            }
        }
    }
}

/// Last write wins: where two entries have one key and no entry after the
/// second has it, the table holds the target of the second.
pub proof fn lemma_last_write_wins(entries: Seq<(Seq<char>, Uri)>, first: int, second: int)
    requires
        0 <= first < second < entries.len(),
        entries[first].0 == entries[second].0,
        forall|j: int|
            second < j < entries.len() ==> (#[trigger] entries[j]).0 != entries[second].0,
    ensures
        table_of(entries).contains_key(entries[second].0),
        table_of(entries)[entries[second].0] == entries[second].1,
{
    lemma_table_of(entries, entries[second].0);
}

/// Fills a table with the given entries, in their order.
pub fn collect_table(entries: &Vec<(String, Uri)>) -> (table: StringHashMap<Uri>)
    ensures
        table@ == table_of(entries_view(entries@)),
{
    let ghost all = entries_view(entries@);
    let mut table: StringHashMap<Uri> = StringHashMap::new();
    let mut i: usize = 0;
    assert(all.take(0) =~= Seq::empty());
    while i < entries.len()
        invariant
            0 <= i <= entries@.len(),
            all == entries_view(entries@),
            table@ == table_of(all.take(i as int)),
        decreases entries@.len() - i,
    {
        let entry = &entries[i];
        proof {
            assert(all.take(i + 1).drop_last() =~= all.take(i as int));
            assert(all.take(i + 1).last() == (entry.0@, entry.1));
        }
        table.insert(entry.0.clone(), entry.1.clone());
        i = i + 1;
    }
    assert(all.take(entries@.len() as int) =~= all);
    table
}

/// Reads the exact entries that the pairs contribute under `prefix`.
pub fn read_standard_entries(env_vars: &Vec<(String, String)>, prefix: &str) -> (entries: Vec<
    (String, Uri),
>)
    ensures
        entries_view(entries@) == standard_entries(pairs_view(env_vars@), prefix@),
{
    let ghost pairs = pairs_view(env_vars@);
    let mut entries: Vec<(String, Uri)> = Vec::new();
    let mut i: usize = 0;
    assert(pairs.take(0) =~= Seq::empty());
    assert(entries_view(entries@) =~= Seq::empty());
    while i < env_vars.len()
        invariant
            0 <= i <= env_vars@.len(),
            pairs == pairs_view(env_vars@),
            entries_view(entries@) == standard_entries(pairs.take(i as int), prefix@),
        decreases env_vars@.len() - i,
    {
        let pair = &env_vars[i];
        let ghost before = entries_view(entries@);
        proof {
            assert(pairs.take(i + 1).drop_last() =~= pairs.take(i as int));
            assert(pairs.take(i + 1).last() == (pair.0@, pair.1@));
        }
        match strip_prefix(pair.0.as_str(), prefix) {
            Some(key) => {
                match parse_uri(pair.1.as_str()) {
                    Ok(uri) => {
                        entries.push((key, uri));
                        assert(entries_view(entries@) =~= before.push((key@, uri)));
                    },
                    Err(_) => {},
                }
            },
            None => {},
        }
        i = i + 1;
    }
    assert(pairs.take(env_vars@.len() as int) =~= pairs);
    entries
}

/// The exact entries that the pairs configure under `prefix`, by key. A
/// pair whose value is no URI is passed over; of two pairs with one key the
/// later stays.
pub fn extract_standard_uris(env_vars: &Vec<(String, String)>, prefix: &str) -> (table:
    StringHashMap<Uri>)
    ensures
        table@ == table_of(standard_entries(pairs_view(env_vars@), prefix@)),
{
    let entries = read_standard_entries(env_vars, prefix);
    collect_table(&entries)
}

/// The table of the pairs is the table of all but the last pair, with the
/// last pair's entry written over it where it contributes one.
proof fn lemma_table_step(pairs: Seq<(Seq<char>, Seq<char>)>, prefix: Seq<char>)
    requires
        pairs.len() > 0,
    ensures
        table_of(standard_entries(pairs, prefix)) == (match standard_entry(pairs.last(), prefix) {
            Some(entry) => table_of(standard_entries(pairs.drop_last(), prefix)).insert(
                entry.0,
                entry.1,
            ),
            None => table_of(standard_entries(pairs.drop_last(), prefix)),
        }),
{
    let entries = standard_entries(pairs.drop_last(), prefix);
    match standard_entry(pairs.last(), prefix) {
        Some(entry) => {
            assert(entries.push(entry).drop_last() =~= entries);
        },
        None => {},
    }
}

/// A key is in the table exactly if some pair contributes an entry under
/// it: pairs under another prefix, or whose value is no URI, leave no trace.
pub proof fn lemma_standard_keys(
    pairs: Seq<(Seq<char>, Seq<char>)>,
    prefix: Seq<char>,
    key: Seq<char>,
)
    ensures
        table_of(standard_entries(pairs, prefix)).contains_key(key) <==> exists|i: int|
            0 <= i < pairs.len() && #[trigger] contributes(pairs[i], prefix, key),
    decreases pairs.len(),
{
    if pairs.len() > 0 {
        let earlier = pairs.drop_last();
        let last = pairs.len() - 1;
        lemma_table_step(pairs, prefix);
        lemma_standard_keys(earlier, prefix, key);
        if contributes(pairs[last], prefix, key) {
        } else if table_of(standard_entries(earlier, prefix)).contains_key(key) {
            let i = choose|i: int|
                0 <= i < earlier.len() && #[trigger] contributes(earlier[i], prefix, key);
            assert(earlier[i] == pairs[i]);
            assert(contributes(pairs[i], prefix, key));
        } else if exists|i: int|
            0 <= i < pairs.len() && #[trigger] contributes(pairs[i], prefix, key) {
            let i = choose|i: int|
                0 <= i < pairs.len() && #[trigger] contributes(pairs[i], prefix, key);
            assert(earlier[i] == pairs[i]);
            assert(contributes(earlier[i], prefix, key));
        }
    }
}

/// Last write wins: under a key the table holds the target of the last
/// pair that contributes an entry under it, whatever earlier pairs held,
/// and that target is what a lookup of the key gives.
pub proof fn lemma_last_pair_wins(
    pairs: Seq<(Seq<char>, Seq<char>)>,
    prefix: Seq<char>,
    key: Seq<char>,
    last: int,
)
    requires
        0 <= last < pairs.len(),
        contributes(pairs[last], prefix, key),
        forall|j: int| last < j < pairs.len() ==> !#[trigger] contributes(pairs[j], prefix, key),
    ensures
        table_of(standard_entries(pairs, prefix)).contains_key(key),
        table_of(standard_entries(pairs, prefix))[key] == uri_parse(pairs[last].1)->0,
        exact_outcome(table_of(standard_entries(pairs, prefix)), key) == Ok::<Uri, MatchError>(
            uri_parse(pairs[last].1)->0,
        ),
    decreases pairs.len(),
{
    let earlier = pairs.drop_last();
    lemma_table_step(pairs, prefix);
    if last < pairs.len() - 1 {
        assert(!contributes(pairs[pairs.len() - 1], prefix, key));
        assert(earlier[last] == pairs[last]);
        assert forall|j: int| last < j < earlier.len() implies !#[trigger] contributes(
            earlier[j],
            prefix,
            key,
        ) by {
            assert(earlier[j] == pairs[j]);
            assert(!contributes(pairs[j], prefix, key));
        }
        lemma_last_pair_wins(earlier, prefix, key, last);
    }
}

} // verus!
