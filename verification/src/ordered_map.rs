//! The insertion-ordered maps that a definition table is kept in.
//!
//! The maps are `starlark_map::small_map::SmallMap`s keyed by name. The verifier does not see
//! inside them: what a map holds is named by `def_entries` and `range_entries`, and each
//! function of this module calls one method of the map and states, without proof, what that
//! method returns and what it does to the entries. Everything else in the crate is proved
//! from these statements.
//!
//! A lookup by key is stated for maps in which no key occurs twice. A map that is filled by
//! `insert` alone is such a map, and the tables of this crate are filled in no other way.

use starlark_map::small_map::SmallMap;
use vstd::prelude::*;

use crate::definitions::DefinitionStyle;
use crate::text::TextRange;

verus! {

/// `starlark_map::small_map::SmallMap`, of which nothing but the functions below is known.
#[verifier::external_type_specification]
#[verifier::external_body]
#[verifier::reject_recursive_types(K)]
#[verifier::reject_recursive_types(V)]
pub struct ExSmallMap<K, V>(SmallMap<K, V>);

/// The index of the first entry of `entries` whose key is `key`, or -1 where there is none.
pub open spec fn position<V>(entries: Seq<(Seq<char>, V)>, key: Seq<char>) -> int
    decreases entries.len(),
{
    if entries.len() == 0 {
        -1
    } else if position(entries.drop_last(), key) >= 0 {
        position(entries.drop_last(), key)
    } else if entries.last().0 == key {
        entries.len() - 1
    } else {
        -1
    }
}

/// No key occurs twice.
pub open spec fn distinct_keys<V>(entries: Seq<(Seq<char>, V)>) -> bool {
    forall|i: int, j: int|
        0 <= i < j < entries.len() ==> (#[trigger] entries[i]).0 != (#[trigger] entries[j]).0
}

/// `entries` with `value` under `key`: in the place of the entry that has the key, or at the
/// end where no entry has it.
pub open spec fn upsert<V>(entries: Seq<(Seq<char>, V)>, key: Seq<char>, value: V) -> Seq<
    (Seq<char>, V),
> {
    if position(entries, key) >= 0 {
        entries.update(position(entries, key), (key, value))
    } else {
        entries.push((key, value))
    }
}

pub proof fn lemma_position<V>(entries: Seq<(Seq<char>, V)>, key: Seq<char>)
    ensures
        -1 <= position(entries, key) < entries.len(),
        position(entries, key) >= 0 ==> entries[position(entries, key)].0 == key,
        forall|j: int| 0 <= j < position(entries, key) ==> (#[trigger] entries[j]).0 != key,
        position(entries, key) < 0 ==> forall|j: int|
            0 <= j < entries.len() ==> (#[trigger] entries[j]).0 != key,
    decreases entries.len(),
{
    if entries.len() > 0 {
        let front = entries.drop_last();
        lemma_position(front, key);
        assert forall|j: int| 0 <= j < entries.len() - 1 implies entries[j] == front[j] by {}
    }
}

pub proof fn lemma_upsert_keeps_keys_distinct<V>(
    entries: Seq<(Seq<char>, V)>,
    key: Seq<char>,
    value: V,
)
    requires
        distinct_keys(entries),
    ensures
        distinct_keys(upsert(entries, key, value)),
        position(upsert(entries, key, value), key) >= 0,
{
    lemma_position(entries, key);
    let after = upsert(entries, key, value);
    let p = position(entries, key);
    assert forall|i: int, j: int| 0 <= i < j < after.len() implies (#[trigger] after[i]).0 != (
    #[trigger] after[j]).0 by {
        if p >= 0 {
            assert(after[i].0 == entries[i].0);
            assert(after[j].0 == entries[j].0);
        } else if j < entries.len() {
            assert(after[i] == entries[i]);
            assert(after[j] == entries[j]);
        } else {
            assert(after[i] == entries[i]);
        }
    }
    lemma_position(after, key);
    if p >= 0 {
        assert(after[p].0 == key);
    } else {
        assert(after[entries.len() as int].0 == key);
    }
}

/// The entries of a table of definitions, in iteration order: each name with the range,
/// the style and the count recorded for it.
pub uninterp spec fn def_entries(m: SmallMap<String, (TextRange, DefinitionStyle, usize)>) -> Seq<
    (Seq<char>, (TextRange, DefinitionStyle, usize)),
>;

/// The entries of a map from names to ranges, in iteration order.
pub uninterp spec fn range_entries(m: SmallMap<String, TextRange>) -> Seq<(Seq<char>, TextRange)>;

/// `SmallMap::new`: the map without entries.
#[verifier::external_body]
pub(crate) fn defs_new() -> (m: SmallMap<String, (TextRange, DefinitionStyle, usize)>)
    ensures
        def_entries(m) == Seq::<(Seq<char>, (TextRange, DefinitionStyle, usize))>::empty(),
{
    SmallMap::new()
}

/// `SmallMap::clone`: a map with the same entries in the same order.
#[verifier::external_body]
pub(crate) fn defs_clone(m: &SmallMap<String, (TextRange, DefinitionStyle, usize)>) -> (r: SmallMap<
    String,
    (TextRange, DefinitionStyle, usize),
>)
    ensures
        def_entries(r) == def_entries(*m),
{
    m.clone()
}

/// `SmallMap::len`: the number of entries.
#[verifier::external_body]
pub(crate) fn defs_len(m: &SmallMap<String, (TextRange, DefinitionStyle, usize)>) -> (n: usize)
    ensures
        n == def_entries(*m).len(),
{
    m.len()
}

/// `SmallMap::get`: a reference to the value of the entry that has the key, or `None` where
/// no entry has it.
#[verifier::external_body]
pub(crate) fn defs_get<'a>(
    m: &'a SmallMap<String, (TextRange, DefinitionStyle, usize)>,
    key: &str,
) -> (r: Option<&'a (TextRange, DefinitionStyle, usize)>)
    requires
        distinct_keys(def_entries(*m)),
    ensures
        match r {
            Some(v) => position(def_entries(*m), key@) >= 0 && *v == def_entries(*m)[position(
                def_entries(*m),
                key@,
            )].1,
            None => position(def_entries(*m), key@) < 0,
        },
{
    m.get(key)
}

/// `SmallMap::get_index`: references to the key and the value of the entry at an index of
/// the iteration order, or `None` where the index is past the end.
#[verifier::external_body]
pub(crate) fn defs_get_index<'a>(
    m: &'a SmallMap<String, (TextRange, DefinitionStyle, usize)>,
    index: usize,
) -> (r: Option<(&'a String, &'a (TextRange, DefinitionStyle, usize))>)
    ensures
        match r {
            Some((k, v)) => index < def_entries(*m).len() && k@ == def_entries(*m)[index as int].0
                && *v == def_entries(*m)[index as int].1,
            None => index >= def_entries(*m).len(),
        },
{
    m.get_index(index)
}

/// `SmallMap::insert`: where an entry has the key, it keeps its place and its key, takes the
/// new value and the old value is returned; where none has it, the new entry goes to the
/// end and `None` is returned.
#[verifier::external_body]
pub(crate) fn defs_insert(
    m: &mut SmallMap<String, (TextRange, DefinitionStyle, usize)>,
    key: String,
    value: (TextRange, DefinitionStyle, usize),
) -> (r: Option<(TextRange, DefinitionStyle, usize)>)
    requires
        distinct_keys(def_entries(*old(m))),
    ensures
        def_entries(*final(m)) == upsert(def_entries(*old(m)), key@, value),
        match r {
            Some(v) => position(def_entries(*old(m)), key@) >= 0 && v == def_entries(
                *old(m),
            )[position(def_entries(*old(m)), key@)].1,
            None => position(def_entries(*old(m)), key@) < 0,
        },
{
    m.insert(key, value)
}

/// `SmallMap::new`: the map without entries.
#[verifier::external_body]
pub(crate) fn ranges_new() -> (m: SmallMap<String, TextRange>)
    ensures
        range_entries(m) == Seq::<(Seq<char>, TextRange)>::empty(),
{
    SmallMap::new()
}

/// `SmallMap::clone`: a map with the same entries in the same order.
#[verifier::external_body]
pub(crate) fn ranges_clone(m: &SmallMap<String, TextRange>) -> (r: SmallMap<String, TextRange>)
    ensures
        range_entries(r) == range_entries(*m),
{
    m.clone()
}

/// `SmallMap::len`: the number of entries.
#[verifier::external_body]
pub(crate) fn ranges_len(m: &SmallMap<String, TextRange>) -> (n: usize)
    ensures
        n == range_entries(*m).len(),
{
    m.len()
}

/// `SmallMap::contains_key`: whether an entry has the key.
#[verifier::external_body]
pub(crate) fn ranges_contains_key(m: &SmallMap<String, TextRange>, key: &str) -> (r: bool)
    requires
        distinct_keys(range_entries(*m)),
    ensures
        r == (position(range_entries(*m), key@) >= 0),
{
    m.contains_key(key)
}

/// `SmallMap::get_index`: references to the key and the value of the entry at an index of
/// the iteration order, or `None` where the index is past the end.
#[verifier::external_body]
pub(crate) fn ranges_get_index<'a>(m: &'a SmallMap<String, TextRange>, index: usize) -> (r: Option<
    (&'a String, &'a TextRange),
>)
    ensures
        match r {
            Some((k, v)) => index < range_entries(*m).len() && k@ == range_entries(
                *m,
            )[index as int].0 && *v == range_entries(*m)[index as int].1,
            None => index >= range_entries(*m).len(),
        },
{
    m.get_index(index)
}

/// `SmallMap::insert`: where an entry has the key, it keeps its place and its key, takes the
/// new value and the old value is returned; where none has it, the new entry goes to the
/// end and `None` is returned.
#[verifier::external_body]
pub(crate) fn ranges_insert(
    m: &mut SmallMap<String, TextRange>,
    key: String,
    value: TextRange,
) -> (r: Option<TextRange>)
    requires
        distinct_keys(range_entries(*old(m))),
    ensures
        range_entries(*final(m)) == upsert(range_entries(*old(m)), key@, value),
        match r {
            Some(v) => position(range_entries(*old(m)), key@) >= 0 && v == range_entries(
                *old(m),
            )[position(range_entries(*old(m)), key@)].1,
            None => position(range_entries(*old(m)), key@) < 0,
        },
{
    m.insert(key, value)
}

} // verus!
