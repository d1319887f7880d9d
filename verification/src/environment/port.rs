//! The listening port.

use crate::environment::pairs_view;
use crate::text::{parse_unsigned, unsigned_decimal};
use vstd::prelude::*;

verus! {

/// The port that one pair configures: its key is exactly `name` and its
/// value is a decimal numeral that fits sixteen bits.
pub open spec fn port_of(pair: (Seq<char>, Seq<char>), name: Seq<char>) -> Option<u16> {
    if pair.0 == name {
        match unsigned_decimal(pair.1, 0xffff) {
            Some(v) => Some(v as u16),
            None => None,
        }
    } else {
        None
    }
}

/// The port of the first pair that configures one.
pub open spec fn first_port(pairs: Seq<(Seq<char>, Seq<char>)>, name: Seq<char>) -> Option<u16>
    decreases pairs.len(),
{
    if pairs.len() == 0 {
        None
    } else {
        match port_of(pairs[0], name) {
            Some(port) => Some(port),
            None => first_port(pairs.skip(1), name),
        }
    }
}

/// `first_port` is the port of the earliest pair that configures one: pairs
/// before it that are malformed or under another key do not count, and
/// pairs after it are not looked at.
pub proof fn lemma_first_port(pairs: Seq<(Seq<char>, Seq<char>)>, name: Seq<char>)
    ensures
        match first_port(pairs, name) {
            Some(port) => exists|i: int|
                0 <= i < pairs.len() && port_of(#[trigger] pairs[i], name) == Some(port)
                    && forall|j: int| 0 <= j < i ==> port_of(#[trigger] pairs[j], name) is None,
            None => forall|j: int| 0 <= j < pairs.len() ==> port_of(
                #[trigger] pairs[j],
                name,
            ) is None,
        },
    decreases pairs.len(),
{
    if pairs.len() > 0 && port_of(pairs[0], name) is None {
        let rest = pairs.skip(1);
        lemma_first_port(rest, name);
        match first_port(rest, name) {
            Some(port) => {
                let i = choose|i: int|
                    0 <= i < rest.len() && port_of(#[trigger] rest[i], name) == Some(port)
                        && forall|j: int| 0 <= j < i ==> port_of(#[trigger] rest[j], name) is None;
                assert(rest[i] == pairs[i + 1]);
                assert forall|j: int| 0 <= j < i + 1 implies port_of(
                    #[trigger] pairs[j],
                    name,
                ) is None by {
                    if j > 0 {
                        assert(rest[j - 1] == pairs[j]);
                    }
                }
                assert(port_of(pairs[i + 1], name) == Some(port));
            },
            None => {
                assert forall|j: int| 0 <= j < pairs.len() implies port_of(
                    #[trigger] pairs[j],
                    name,
                ) is None by {
                    if j > 0 {
                        assert(rest[j - 1] == pairs[j]);
                    }
                }
            },
        }
    } else if pairs.len() > 0 {
        assert(port_of(pairs[0], name) == first_port(pairs, name));
    }
}

/// The listening port that the pairs configure under the key `name`: the
/// first value under that key that is a port number. The caller falls back
/// to its default where there is none.
pub fn extract_port_number(env_vars: &Vec<(String, String)>, name: &str) -> (r: Option<u16>)
    ensures
        r == first_port(pairs_view(env_vars@), name@),
        match r {
            Some(port) => exists|i: int|
                0 <= i < env_vars@.len() && port_of(#[trigger] pairs_view(env_vars@)[i], name@)
                    == Some(port) && forall|j: int|
                    0 <= j < i ==> port_of(#[trigger] pairs_view(env_vars@)[j], name@) is None,
            None => forall|j: int|
                0 <= j < env_vars@.len() ==> port_of(
                    #[trigger] pairs_view(env_vars@)[j],
                    name@,
                ) is None,
        },
{
    let ghost pairs = pairs_view(env_vars@);
    let wanted: String = name.to_owned();
    let mut i: usize = 0;
    assert(pairs.skip(0) =~= pairs);
    while i < env_vars.len()
        invariant
            0 <= i <= env_vars@.len(),
            pairs == pairs_view(env_vars@),
            wanted@ == name@,
            first_port(pairs, name@) == first_port(pairs.skip(i as int), name@),
        decreases env_vars@.len() - i,
    {
        let pair = &env_vars[i];
        proof {
            assert(pairs.skip(i as int)[0] == (pair.0@, pair.1@));
            assert(pairs.skip(i as int).skip(1) =~= pairs.skip(i + 1));
        }
        if pair.0 == wanted {
            match parse_unsigned(pair.1.as_str(), 0xffff) {
                Some(v) => {
                    proof {
                        lemma_first_port(pairs, name@);
                    }
                    return Some(v as u16);
                },
                None => {},
            }
        }
        i = i + 1;
    }
    proof {
        lemma_first_port(pairs, name@);
    }
    None
}

} // verus!
