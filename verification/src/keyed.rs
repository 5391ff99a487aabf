//! Lists of values under distinct string keys, read as mappings.

use vstd::prelude::*;

verus! {

/// Whether no key occurs twice in `entries`.
pub open spec fn spec_distinct<V>(entries: Seq<(Seq<char>, V)>) -> bool {
    forall|i: int, j: int|
        0 <= i < j < entries.len() ==> (#[trigger] entries[i]).0 != (#[trigger] entries[j]).0
}

/// Whether some entry of `entries` has the key `key`.
pub open spec fn spec_has_key<V>(entries: Seq<(Seq<char>, V)>, key: Seq<char>) -> bool {
    exists|i: int| 0 <= i < entries.len() && (#[trigger] entries[i]).0 == key
}

/// The position of an entry with the key `key`, where there is one.
pub open spec fn spec_index_of<V>(entries: Seq<(Seq<char>, V)>, key: Seq<char>) -> int {
    choose|i: int| 0 <= i < entries.len() && (#[trigger] entries[i]).0 == key
}

/// The mapping from each key of `entries` to its value.
pub open spec fn spec_mapping<V>(entries: Seq<(Seq<char>, V)>) -> Map<Seq<char>, V> {
    Map::new(
        |key: Seq<char>| spec_has_key(entries, key),
        |key: Seq<char>| entries[spec_index_of(entries, key)].1,
    )
}

/// Each entry is found in the mapping under its key.
pub proof fn lemma_mapping_at<V>(entries: Seq<(Seq<char>, V)>, i: int)
    requires
        spec_distinct(entries),
        0 <= i < entries.len(),
    ensures
        spec_mapping(entries).contains_key(entries[i].0),
        spec_mapping(entries)[entries[i].0] == entries[i].1,
        spec_index_of(entries, entries[i].0) == i,
{
    let key = entries[i].0;
    let at = spec_index_of(entries, key);
    assert(0 <= at < entries.len() && entries[at].0 == key);
    if at < i {
        assert(entries[at].0 != entries[i].0);
    } else if i < at {
        assert(entries[i].0 != entries[at].0);
    }
}

/// Appending an entry under a new key inserts it into the mapping.
pub proof fn lemma_mapping_push<V>(entries: Seq<(Seq<char>, V)>, key: Seq<char>, value: V)
    requires
        spec_distinct(entries),
        !spec_has_key(entries, key),
    ensures
        spec_distinct(entries.push((key, value))),
        spec_mapping(entries.push((key, value))) == spec_mapping(entries).insert(key, value),
{
    let longer = entries.push((key, value));
    assert(spec_distinct(longer)) by {
        assert forall|i: int, j: int| 0 <= i < j < longer.len() implies (#[trigger] longer[i]).0 != (
        #[trigger] longer[j]).0 by {
            if j < entries.len() {
                assert(entries[i].0 != entries[j].0);
            } else {
                assert(longer[i] == entries[i]);
            }
        }
    }
    assert forall|other: Seq<char>| #[trigger]
        spec_mapping(longer).contains_key(other) == spec_mapping(entries).insert(
            key,
            value,
        ).contains_key(other) by {
        if spec_has_key(entries, other) {
            let at = spec_index_of(entries, other);
            assert(longer[at].0 == other);
        }
        if spec_has_key(longer, other) {
            let at = spec_index_of(longer, other);
            if at < entries.len() {
                assert(entries[at].0 == other);
            }
        }
        assert(longer[entries.len() as int].0 == key);
    }
    assert forall|other: Seq<char>| #[trigger]
        spec_mapping(longer).contains_key(other) implies spec_mapping(longer)[other]
        == spec_mapping(entries).insert(key, value)[other] by {
        let at = spec_index_of(longer, other);
        assert(0 <= at < longer.len() && longer[at].0 == other);
        lemma_mapping_at(longer, at);
        if at < entries.len() {
            assert(entries[at].0 == other);
            lemma_mapping_at(entries, at);
        }
    }
    assert(spec_mapping(longer) =~= spec_mapping(entries).insert(key, value));
}

/// Replacing the value of an entry replaces it in the mapping.
pub proof fn lemma_mapping_update<V>(entries: Seq<(Seq<char>, V)>, i: int, value: V)
    requires
        spec_distinct(entries),
        0 <= i < entries.len(),
    ensures
        spec_distinct(entries.update(i, (entries[i].0, value))),
        spec_mapping(entries.update(i, (entries[i].0, value))) == spec_mapping(entries).insert(
            entries[i].0,
            value,
        ),
{
    let key = entries[i].0;
    let changed = entries.update(i, (key, value));
    assert(spec_distinct(changed)) by {
        assert forall|a: int, b: int| 0 <= a < b < changed.len() implies (#[trigger] changed[a]).0
            != (#[trigger] changed[b]).0 by {
            assert(changed[a].0 == entries[a].0);
            assert(changed[b].0 == entries[b].0);
            assert(entries[a].0 != entries[b].0);
        }
    }
    assert forall|other: Seq<char>| #[trigger]
        spec_mapping(changed).contains_key(other) == spec_mapping(entries).insert(
            key,
            value,
        ).contains_key(other) by {
        if spec_has_key(entries, other) {
            let at = spec_index_of(entries, other);
            assert(changed[at].0 == other);
        }
        if spec_has_key(changed, other) {
            let at = spec_index_of(changed, other);
            assert(entries[at].0 == other);
        }
        assert(changed[i].0 == key);
    }
    assert forall|other: Seq<char>| #[trigger]
        spec_mapping(changed).contains_key(other) implies spec_mapping(changed)[other]
        == spec_mapping(entries).insert(key, value)[other] by {
        let at = spec_index_of(changed, other);
        assert(0 <= at < changed.len() && changed[at].0 == other);
        lemma_mapping_at(changed, at);
        assert(entries[at].0 == other);
        lemma_mapping_at(entries, at);
    }
    assert(spec_mapping(changed) =~= spec_mapping(entries).insert(key, value));
}

/// Finds the first entry of `entries` whose key is `key`.
pub fn find<V>(entries: &Vec<(String, V)>, key: &String) -> (found: Option<usize>)
    ensures
        match found {
            Some(i) => {
                &&& i < entries.len()
                &&& entries[i as int].0@ == key@
                &&& forall|j: int| 0 <= j < i ==> (#[trigger] entries[j]).0@ != key@
            },
            None => forall|j: int| 0 <= j < entries.len() ==> (#[trigger] entries[j]).0@ != key@,
        },
{
    let mut i: usize = 0;
    while i < entries.len()
        invariant
            i <= entries.len(),
            forall|j: int| 0 <= j < i ==> (#[trigger] entries[j]).0@ != key@,
        decreases entries.len() - i,
    {
        if entries[i].0 == *key {
            return Some(i);
        }
        i += 1;
    }
    None
}

} // verus!
