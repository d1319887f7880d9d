//! The pattern rules: expressions and templates, each declared under a
//! prefix with an index, paired by index.

use crate::environment::pairs_view;
use crate::trusted::{compile_regex, regex_compile, starts_with};
use crate::text::{parse_unsigned, strip_prefix, unsigned_decimal, without_prefix};
use regex::Regex;
use vstd::prelude::*;

verus! {

/// The index that a key declares under `prefix`: what follows the prefix,
/// read as a decimal numeral.
pub open spec fn index_under(key: Seq<char>, prefix: Seq<char>) -> Option<usize> {
    match without_prefix(key, prefix) {
        Some(rest) => match unsigned_decimal(rest, usize::MAX as nat) {
            Some(index) => Some(index as usize),
            None => None,
        },
        None => None,
    }
}

/// The template that one pair declares, with its index: the key begins with
/// `uri_prefix` and goes on with an index.
pub open spec fn template_entry(pair: (Seq<char>, Seq<char>), uri_prefix: Seq<char>) -> Option<
    (usize, Seq<char>),
> {
    match index_under(pair.0, uri_prefix) {
        Some(index) => Some((index, pair.1)),
        None => None,
    }
}

/// The expression that one pair declares, with its index: the key does not
/// begin with `uri_prefix`, begins with `regex_prefix` and goes on with an
/// index, and the value compiles.
pub open spec fn regex_entry(
    pair: (Seq<char>, Seq<char>),
    uri_prefix: Seq<char>,
    regex_prefix: Seq<char>,
) -> Option<(usize, Regex)> {
    if uri_prefix.is_prefix_of(pair.0) {
        None
    } else {
        match (index_under(pair.0, regex_prefix), regex_compile(pair.1)) {
            (Some(index), Some(re)) => Some((index, re)),
            _ => None,
        }
    }
}

/// The templates that the pairs declare, in the order of the pairs.
pub open spec fn template_entries(pairs: Seq<(Seq<char>, Seq<char>)>, uri_prefix: Seq<char>) -> Seq<
    (usize, Seq<char>),
>
    decreases pairs.len(),
{
    if pairs.len() == 0 {
        Seq::empty()
    } else {
        let earlier = template_entries(pairs.drop_last(), uri_prefix);
        match template_entry(pairs.last(), uri_prefix) {
            Some(entry) => earlier.push(entry),
            None => earlier,
        }
    }
}

/// The expressions that the pairs declare, in the order of the pairs.
pub open spec fn regex_entries(
    pairs: Seq<(Seq<char>, Seq<char>)>,
    uri_prefix: Seq<char>,
    regex_prefix: Seq<char>,
) -> Seq<(usize, Regex)>
    decreases pairs.len(),
{
    if pairs.len() == 0 {
        Seq::empty()
    } else {
        let earlier = regex_entries(pairs.drop_last(), uri_prefix, regex_prefix);
        match regex_entry(pairs.last(), uri_prefix, regex_prefix) {
            Some(entry) => earlier.push(entry),
            None => earlier,
        }
    }
}

/// What the entries leave at position `index`: the value of the last entry
/// that declares this index, if any does.
pub open spec fn slot<T>(entries: Seq<(usize, T)>, index: int) -> Option<T>
    decreases entries.len(),
{
    if entries.len() == 0 {
        None
    } else if entries.last().0 == index {
        Some(entries.last().1)
    } else {
        slot(entries.drop_last(), index)
    }
}

/// The positional sequence that the entries fill: as many slots as there
/// are entries, each entry written at its own index, later over earlier.
/// An entry whose index is past the end is left out.
pub open spec fn slots<T>(entries: Seq<(usize, T)>) -> Seq<Option<T>> {
    Seq::new(entries.len(), |index: int| slot(entries, index))
}

/// The template entries as texts.
pub open spec fn templates_view(entries: Seq<(usize, String)>) -> Seq<(usize, Seq<char>)> {
    Seq::new(entries.len(), |i: int| (entries[i].0, entries[i].1@))
}

/// The slots of templates as texts.
pub open spec fn template_slots_view(filled: Seq<Option<String>>) -> Seq<Option<Seq<char>>> {
    Seq::new(
        filled.len(),
        |i: int|
            match filled[i] {
                Some(text) => Some(text@),
                None => None,
            },
    )
}

/// The expression that stands in a slot which no entry filled: the empty
/// pattern, compiled.
pub open spec fn placeholder_regex() -> Regex {
    regex_compile(Seq::empty())->0
}

/// The rule at one position: the expression and the template of that slot,
/// with the placeholder expression or the empty template where the slot was
/// never filled.
pub open spec fn rule_of(re: Option<Regex>, template: Option<Seq<char>>) -> (Regex, Seq<char>) {
    (
        match re {
            Some(re) => re,
            None => placeholder_regex(),
        },
        match template {
            Some(text) => text,
            None => Seq::empty(),
        },
    )
}

/// The rules that two positional sequences give: expression and template
/// paired position by position, as far as the shorter of the two reaches.
pub open spec fn paired_rules(
    regexes: Seq<Option<Regex>>,
    templates: Seq<Option<Seq<char>>>,
) -> Seq<(Regex, Seq<char>)> {
    Seq::new(
        if regexes.len() <= templates.len() {
            regexes.len()
        } else {
            templates.len()
        },
        |i: int| rule_of(regexes[i], templates[i]),
    )
}

/// The rules as expression and template text.
pub open spec fn rules_view(rules: Seq<(Regex, String)>) -> Seq<(Regex, Seq<char>)> {
    Seq::new(rules.len(), |i: int| (rules[i].0, rules[i].1@))
}

/// The pattern rules that the pairs configure.
pub open spec fn pattern_rules(
    pairs: Seq<(Seq<char>, Seq<char>)>,
    uri_prefix: Seq<char>,
    regex_prefix: Seq<char>,
) -> Seq<(Regex, Seq<char>)> {
    paired_rules(
        slots(regex_entries(pairs, uri_prefix, regex_prefix)),
        slots(template_entries(pairs, uri_prefix)),
    )
}

/// Reads the index that `key` declares under `prefix`.
pub fn parse_index(key: &str, prefix: &str) -> (r: Option<usize>)
    ensures
        r == index_under(key@, prefix@),
{
    match strip_prefix(key, prefix) {
        Some(rest) => match parse_unsigned(rest.as_str(), usize::MAX as u64) {
            Some(index) => Some(index as usize),
            None => None,
        },
        None => None,
    }
}

/// Reads the templates that the pairs declare under `uri_prefix`.
pub fn read_template_entries(env_vars: &Vec<(String, String)>, uri_prefix: &str) -> (entries: Vec<
    (usize, String),
>)
    ensures
        templates_view(entries@) == template_entries(pairs_view(env_vars@), uri_prefix@),
{
    let ghost pairs = pairs_view(env_vars@);
    let mut entries: Vec<(usize, String)> = Vec::new();
    let mut i: usize = 0;
    assert(pairs.take(0) =~= Seq::empty());
    assert(templates_view(entries@) =~= Seq::empty());
    while i < env_vars.len()
        invariant
            0 <= i <= env_vars@.len(),
            pairs == pairs_view(env_vars@),
            templates_view(entries@) == template_entries(pairs.take(i as int), uri_prefix@),
        decreases env_vars@.len() - i,
    {
        let pair = &env_vars[i];
        let ghost before = templates_view(entries@);
        proof {
            assert(pairs.take(i + 1).drop_last() =~= pairs.take(i as int));
            assert(pairs.take(i + 1).last() == (pair.0@, pair.1@));
        }
        match parse_index(pair.0.as_str(), uri_prefix) {
            Some(index) => {
                let template = pair.1.clone();
                entries.push((index, template));
                assert(templates_view(entries@) =~= before.push((index, pair.1@)));
            },
            None => {},
        }
        i = i + 1;
    }
    assert(pairs.take(env_vars@.len() as int) =~= pairs);
    entries
}

/// Reads the expressions that the pairs declare under `regex_prefix`. A key
/// that begins with `uri_prefix` declares a template, not an expression.
pub fn read_regex_entries(
    env_vars: &Vec<(String, String)>,
    uri_prefix: &str,
    regex_prefix: &str,
) -> (entries: Vec<(usize, Regex)>)
    ensures
        entries@ == regex_entries(pairs_view(env_vars@), uri_prefix@, regex_prefix@),
{
    let ghost pairs = pairs_view(env_vars@);
    let mut entries: Vec<(usize, Regex)> = Vec::new();
    let mut i: usize = 0;
    assert(pairs.take(0) =~= Seq::empty());
    assert(entries@ =~= Seq::empty());
    while i < env_vars.len()
        invariant
            0 <= i <= env_vars@.len(),
            pairs == pairs_view(env_vars@),
            entries@ == regex_entries(pairs.take(i as int), uri_prefix@, regex_prefix@),
        decreases env_vars@.len() - i,
    {
        let pair = &env_vars[i];
        proof {
            assert(pairs.take(i + 1).drop_last() =~= pairs.take(i as int));
            assert(pairs.take(i + 1).last() == (pair.0@, pair.1@));
        }
        if !starts_with(pair.0.as_str(), uri_prefix) {
            match parse_index(pair.0.as_str(), regex_prefix) {
                Some(index) => {
                    match compile_regex(pair.1.as_str()) {
                        Ok(re) => {
                            entries.push((index, re));
                        },
                        Err(_) => {},
                    }
                },
                None => {},
            }
        }
        i = i + 1;
    }
    assert(pairs.take(env_vars@.len() as int) =~= pairs);
    entries
}

/// Writes each entry at its own index into a sequence of as many slots as
/// there are entries. Of two entries with one index the later stays; an
/// entry whose index is past the end is dropped.
pub fn place_by_index<T>(entries: Vec<(usize, T)>) -> (filled: Vec<Option<T>>)
    ensures
        filled@ == slots(entries@),
{
    let ghost all = entries@;
    let mut entries = entries;
    let n: usize = entries.len();
    let mut filled: Vec<Option<T>> = Vec::new();
    while filled.len() < n
        invariant
            filled@.len() <= n,
            forall|j: int| 0 <= j < filled@.len() ==> filled@[j] is None,
        decreases n - filled@.len(),
    {
        filled.push(None);
    }
    assert(entries@.take(n as int) =~= all);
    while entries.len() > 0
        invariant
            all.len() == n,
            filled@.len() == n,
            entries@ == all.take(entries@.len() as int),
            entries@.len() <= n,
            forall|j: int|
                0 <= j < n ==> slot(all, j) == (match #[trigger] filled@[j] {
                    Some(value) => Some(value),
                    None => slot(entries@, j),
                }),
        decreases entries@.len(),
    {
        let ghost before = entries@;
        let ghost filled_before = filled@;
        match entries.pop() {
            Some((index, value)) => {
                assert(entries@ =~= before.drop_last());
                assert(entries@ =~= all.take(entries@.len() as int));
                if index < n {
                    if filled[index].is_none() {
                        filled[index] = Some(value);
                    }
                }
                assert forall|j: int| 0 <= j < n implies slot(all, j) == (match #[trigger] filled@[j]
                {
                    Some(value) => Some(value),
                    None => slot(entries@, j),
                }) by {
                    assert(filled_before[j] is Some ==> filled@[j] == filled_before[j]);
                }
            },
            None => {},
        }
    }
    assert(filled@ =~= slots(all));
    filled
}

/// Pairs expressions with templates position by position, as far as the
/// shorter sequence reaches. A slot that was never filled gives the
/// placeholder expression, or the empty template.
pub fn pair_rules(regexes: Vec<Option<Regex>>, templates: Vec<Option<String>>) -> (rules: Vec<
    (Regex, String),
>)
    ensures
        rules_view(rules@) == paired_rules(regexes@, template_slots_view(templates@)),
{
    let ghost wanted = paired_rules(regexes@, template_slots_view(templates@));
    let ghost all_regexes = regexes@;
    let ghost all_templates = templates@;
    let mut regexes = regexes;
    let mut templates = templates;
    let n: usize = if regexes.len() <= templates.len() {
        regexes.len()
    } else {
        templates.len()
    };
    let mut rules: Vec<(Regex, String)> = Vec::new();
    let mut i: usize = 0;
    while i < n
        invariant
            0 <= i <= n,
            n == wanted.len(),
            wanted == paired_rules(all_regexes, template_slots_view(all_templates)),
            regexes@.len() == all_regexes.len(),
            templates@.len() == all_templates.len(),
            n <= regexes@.len(),
            n <= templates@.len(),
            forall|j: int| i <= j < regexes@.len() ==> regexes@[j] == all_regexes[j],
            forall|j: int| i <= j < templates@.len() ==> templates@[j] == all_templates[j],
            rules@.len() == i,
            forall|j: int| 0 <= j < i ==> (#[trigger] rules@[j]).0 == wanted[j].0 && rules@[j].1@
                == wanted[j].1,
        decreases n - i,
    {
        let re = match regexes[i].take() {
            Some(re) => re,
            None => {
                proof {
                    reveal_strlit("");
                }
                let compiled = compile_regex("");
                assert(""@ =~= Seq::<char>::empty());
                compiled.unwrap()
            },
        };
        let template = match templates[i].take() {
            Some(text) => text,
            None => String::new(),
        };
        rules.push((re, template));
        i = i + 1;
    }
    assert(rules_view(rules@) =~= wanted);
    rules
}

/// The pattern rules that the pairs configure: the expression declared
/// under `regex_prefix` with index `i` and the template declared under
/// `uri_prefix` with index `i` make rule `i`, whatever the order of the
/// pairs.
pub fn extract_pattern_uris(
    env_vars: &Vec<(String, String)>,
    uri_prefix: &str,
    regex_prefix: &str,
) -> (rules: Vec<(Regex, String)>)
    ensures
        rules_view(rules@) == pattern_rules(pairs_view(env_vars@), uri_prefix@, regex_prefix@),
{
    let templates = read_template_entries(env_vars, uri_prefix);
    let regexes = read_regex_entries(env_vars, uri_prefix, regex_prefix);
    proof {
        lemma_template_slots(templates@);
    }
    let template_slots = place_by_index(templates);
    let regex_slots = place_by_index(regexes);
    pair_rules(regex_slots, template_slots)
}

/// Placing commutes with reading the templates as texts.
proof fn lemma_template_slots(entries: Seq<(usize, String)>)
    ensures
        template_slots_view(slots(entries)) == slots(templates_view(entries)),
{
    assert forall|j: int| 0 <= j < entries.len() implies template_slots_view(slots(entries))[j]
        == slots(templates_view(entries))[j] by {
        lemma_template_slot(entries, j);
    }
    assert(template_slots_view(slots(entries)) =~= slots(templates_view(entries)));
}

proof fn lemma_template_slot(entries: Seq<(usize, String)>, index: int)
    ensures
        slot(templates_view(entries), index) == (match slot(entries, index) {
            Some(text) => Some(text@),
            None => None,
        }),
    decreases entries.len(),
{
    if entries.len() > 0 {
        assert(templates_view(entries).drop_last() =~= templates_view(entries.drop_last()));
        lemma_template_slot(entries.drop_last(), index);
    }
}

/// An entry that no later entry overwrites stays at its index.
pub proof fn lemma_slot_of_entry<T>(entries: Seq<(usize, T)>, k: int)
    requires
        0 <= k < entries.len(),
        forall|j: int| k < j < entries.len() ==> (#[trigger] entries[j]).0 != entries[k].0,
    ensures
        slot(entries, entries[k].0 as int) == Some(entries[k].1),
        entries[k].0 < entries.len() ==> slots(entries)[entries[k].0 as int] == Some(entries[k].1),
    decreases entries.len(),
{
    let last = entries.len() - 1;
    if k < last {
        let earlier = entries.drop_last();
        assert(entries[last].0 != entries[k].0);
        assert(earlier[k] == entries[k]);
        assert forall|j: int| k < j < earlier.len() implies (#[trigger] earlier[j]).0
            != earlier[k].0 by {
            assert(earlier[j] == entries[j]);
        }
        lemma_slot_of_entry(earlier, k);
    }
}

/// An index that no entry declares leaves its slot unfilled.
pub proof fn lemma_slot_unfilled<T>(entries: Seq<(usize, T)>, index: int)
    requires
        forall|j: int| 0 <= j < entries.len() ==> (#[trigger] entries[j]).0 != index,
    ensures
        slot(entries, index) is None,
    decreases entries.len(),
{
    if entries.len() > 0 {
        let earlier = entries.drop_last();
        assert(entries[entries.len() - 1].0 != index);
        assert forall|j: int| 0 <= j < earlier.len() implies (#[trigger] earlier[j]).0 != index by {
            assert(earlier[j] == entries[j]);
        }
        lemma_slot_unfilled(earlier, index);
    }
}

/// The entries with two neighbours exchanged.
pub open spec fn exchanged<T>(entries: Seq<(usize, T)>, k: int) -> Seq<(usize, T)> {
    entries.update(k, entries[k + 1]).update(k + 1, entries[k])
}

/// The order of arrival does not matter: exchanging two neighbouring
/// entries that declare different indices leaves every slot as it was.
pub proof fn lemma_slots_ignore_arrival_order<T>(entries: Seq<(usize, T)>, k: int)
    requires
        0 <= k,
        k + 1 < entries.len(),
        entries[k].0 != entries[k + 1].0,
    ensures
        slots(exchanged(entries, k)) == slots(entries),
{
    assert forall|index: int| 0 <= index < entries.len() implies slots(exchanged(entries, k))[index]
        == slots(entries)[index] by {
        lemma_slot_after_exchange(entries, k, index);
    }
    assert(slots(exchanged(entries, k)) =~= slots(entries));
}

proof fn lemma_slot_after_exchange<T>(entries: Seq<(usize, T)>, k: int, index: int)
    requires
        0 <= k,
        k + 1 < entries.len(),
        entries[k].0 != entries[k + 1].0,
    ensures
        slot(exchanged(entries, k), index) == slot(entries, index),
    decreases entries.len(),
{
    let swapped = exchanged(entries, k);
    let last = entries.len() - 1;
    if k + 1 < last {
        assert(swapped.last() == entries.last());
        assert(swapped.drop_last() =~= exchanged(entries.drop_last(), k));
        lemma_slot_after_exchange(entries.drop_last(), k, index);
    } else {
        let rest = entries.drop_last().drop_last();
        assert(swapped.drop_last().drop_last() =~= rest);
        assert(swapped.last() == entries[k]);
        assert(swapped.drop_last().last() == entries[k + 1]);
        assert(entries.last() == entries[k + 1]);
        assert(entries.drop_last().last() == entries[k]);
        assert(slot(swapped.drop_last(), index) == if entries[k + 1].0 == index {
            Some(entries[k + 1].1)
        } else {
            slot(rest, index)
        });
        assert(slot(entries.drop_last(), index) == if entries[k].0 == index {
            Some(entries[k].1)
        } else {
            slot(rest, index)
        });
    }
}

/// Whether a pair declares a template under the index `index`.
pub open spec fn declares_template(
    pair: (Seq<char>, Seq<char>),
    uri_prefix: Seq<char>,
    index: int,
) -> bool {
    match template_entry(pair, uri_prefix) {
        Some(entry) => entry.0 == index,
        None => false,
    }
}

/// Whether a pair declares an expression under the index `index`.
pub open spec fn declares_regex(
    pair: (Seq<char>, Seq<char>),
    uri_prefix: Seq<char>,
    regex_prefix: Seq<char>,
    index: int,
) -> bool {
    match regex_entry(pair, uri_prefix, regex_prefix) {
        Some(entry) => entry.0 == index,
        None => false,
    }
}

/// The template of a pair stands at the index that the pair declares,
/// wherever in the stream the pair arrives, unless a later pair declares
/// the same index.
pub proof fn lemma_template_at_declared_index(
    pairs: Seq<(Seq<char>, Seq<char>)>,
    uri_prefix: Seq<char>,
    k: int,
    index: int,
)
    requires
        0 <= k < pairs.len(),
        declares_template(pairs[k], uri_prefix, index),
        forall|j: int|
            k < j < pairs.len() ==> !#[trigger] declares_template(pairs[j], uri_prefix, index),
    ensures
        slot(template_entries(pairs, uri_prefix), index) == Some(pairs[k].1),
    decreases pairs.len(),
{
    let earlier = pairs.drop_last();
    let entries = template_entries(earlier, uri_prefix);
    match template_entry(pairs.last(), uri_prefix) {
        Some(entry) => {
            assert(entries.push(entry).drop_last() =~= entries);
            assert(entries.push(entry).last() == entry);
        },
        None => {},
    }
    if k < pairs.len() - 1 {
        assert(!declares_template(pairs[pairs.len() - 1], uri_prefix, index));
        assert(earlier[k] == pairs[k]);
        assert forall|j: int| k < j < earlier.len() implies !#[trigger] declares_template(
            earlier[j],
            uri_prefix,
            index,
        ) by {
            assert(earlier[j] == pairs[j]);
            assert(!declares_template(pairs[j], uri_prefix, index));
        }
        lemma_template_at_declared_index(earlier, uri_prefix, k, index);
    }
}

/// The expression of a pair stands at the index that the pair declares,
/// wherever in the stream the pair arrives, unless a later pair declares
/// the same index.
pub proof fn lemma_regex_at_declared_index(
    pairs: Seq<(Seq<char>, Seq<char>)>,
    uri_prefix: Seq<char>,
    regex_prefix: Seq<char>,
    k: int,
    index: int,
)
    requires
        0 <= k < pairs.len(),
        declares_regex(pairs[k], uri_prefix, regex_prefix, index),
        forall|j: int|
            k < j < pairs.len() ==> !#[trigger] declares_regex(
                pairs[j],
                uri_prefix,
                regex_prefix,
                index,
            ),
    ensures
        slot(regex_entries(pairs, uri_prefix, regex_prefix), index) == regex_compile(pairs[k].1),
    decreases pairs.len(),
{
    let earlier = pairs.drop_last();
    let entries = regex_entries(earlier, uri_prefix, regex_prefix);
    match regex_entry(pairs.last(), uri_prefix, regex_prefix) {
        Some(entry) => {
            assert(entries.push(entry).drop_last() =~= entries);
            assert(entries.push(entry).last() == entry);
        },
        None => {},
    }
    if k < pairs.len() - 1 {
        assert(!declares_regex(pairs[pairs.len() - 1], uri_prefix, regex_prefix, index));
        assert(earlier[k] == pairs[k]);
        assert forall|j: int| k < j < earlier.len() implies !#[trigger] declares_regex(
            earlier[j],
            uri_prefix,
            regex_prefix,
            index,
        ) by {
            assert(earlier[j] == pairs[j]);
            assert(!declares_regex(pairs[j], uri_prefix, regex_prefix, index));
        }
        lemma_regex_at_declared_index(earlier, uri_prefix, regex_prefix, k, index);
    }
}

/// Rule `index` is made of the expression and the template that were
/// declared under `index`, in whatever order the pairs arrived, as long as
/// `index` lies within both positional sequences.
pub proof fn lemma_rule_at_declared_index(
    pairs: Seq<(Seq<char>, Seq<char>)>,
    uri_prefix: Seq<char>,
    regex_prefix: Seq<char>,
    regex_at: int,
    template_at: int,
    index: int,
)
    requires
        0 <= regex_at < pairs.len(),
        0 <= template_at < pairs.len(),
        declares_regex(pairs[regex_at], uri_prefix, regex_prefix, index),
        declares_template(pairs[template_at], uri_prefix, index),
        forall|j: int|
            regex_at < j < pairs.len() ==> !#[trigger] declares_regex(
                pairs[j],
                uri_prefix,
                regex_prefix,
                index,
            ),
        forall|j: int|
            template_at < j < pairs.len() ==> !#[trigger] declares_template(
                pairs[j],
                uri_prefix,
                index,
            ),
        0 <= index < regex_entries(pairs, uri_prefix, regex_prefix).len(),
        index < template_entries(pairs, uri_prefix).len(),
    ensures
        index < pattern_rules(pairs, uri_prefix, regex_prefix).len(),
        pattern_rules(pairs, uri_prefix, regex_prefix)[index] == (
            regex_compile(pairs[regex_at].1)->0,
            pairs[template_at].1,
        ),
{
    lemma_regex_at_declared_index(pairs, uri_prefix, regex_prefix, regex_at, index);
    lemma_template_at_declared_index(pairs, uri_prefix, template_at, index);
}

} // verus!
