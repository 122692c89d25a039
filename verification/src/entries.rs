use crate::json::{Json, JsonModel};
use vstd::prelude::*;

verus! {

/// Where `key` first occurs in `entries`; their length where it occurs nowhere.
pub open spec fn position(entries: Seq<(Seq<char>, JsonModel)>, key: Seq<char>) -> int
    decreases entries.len(),
{
    if entries.len() == 0 {
        0
    } else if entries[0].0 == key {
        0
    } else {
        1 + position(entries.drop_first(), key)
    }
}

/// Whether some entry has the key `key`.
pub open spec fn has_key(entries: Seq<(Seq<char>, JsonModel)>, key: Seq<char>) -> bool {
    position(entries, key) < entries.len()
}

/// The value under `key`, where there is one: that of the first such entry.
pub open spec fn lookup(entries: Seq<(Seq<char>, JsonModel)>, key: Seq<char>) -> Option<
    JsonModel,
> {
    if has_key(entries, key) {
        Some(entries[position(entries, key)].1)
    } else {
        None
    }
}

/// `entries` with `value` under `key`: in the place of the entry that had the
/// key, or at the end where none had it.
pub open spec fn insert(
    entries: Seq<(Seq<char>, JsonModel)>,
    key: Seq<char>,
    value: JsonModel,
) -> Seq<(Seq<char>, JsonModel)> {
    if has_key(entries, key) {
        entries.update(position(entries, key), (key, value))
    } else {
        entries.push((key, value))
    }
}

/// Whether no two entries share a key.
pub open spec fn distinct_keys(entries: Seq<(Seq<char>, JsonModel)>) -> bool {
    forall|i: int, j: int|
        0 <= i < j < entries.len() ==> (#[trigger] entries[i]).0 != (#[trigger] entries[j]).0
}

/// `position` is the least index that holds the key.
pub proof fn lemma_position(entries: Seq<(Seq<char>, JsonModel)>, key: Seq<char>)
    ensures
        0 <= position(entries, key) <= entries.len(),
        forall|j: int| 0 <= j < position(entries, key) ==> (#[trigger] entries[j]).0 != key,
        has_key(entries, key) ==> entries[position(entries, key)].0 == key,
    decreases entries.len(),
{
    if entries.len() > 0 && entries[0].0 != key {
        let rest = entries.drop_first();
        lemma_position(rest, key);
        assert forall|j: int| 0 <= j < position(entries, key) implies (#[trigger] entries[j]).0
            != key by {
            if j > 0 {
                assert(entries[j] == rest[j - 1]);
            }
        }
    }
}

/// An index that holds the key, with no earlier one that does, is `position`;
/// so is the length, where no index holds the key.
pub proof fn lemma_position_is(entries: Seq<(Seq<char>, JsonModel)>, key: Seq<char>, at: int)
    requires
        0 <= at <= entries.len(),
        forall|j: int| 0 <= j < at ==> (#[trigger] entries[j]).0 != key,
        at < entries.len() ==> entries[at].0 == key,
    ensures
        position(entries, key) == at,
{
    lemma_position(entries, key);
    let p = position(entries, key);
    if p < at {
        assert(entries[p].0 != key);
    } else if at < p {
        assert(entries[at].0 != key);
    }
}

/// Whether the value of every entry is well formed.
pub open spec fn values_well_formed(entries: Seq<(Seq<char>, JsonModel)>) -> bool {
    forall|i: int| 0 <= i < entries.len() ==> (#[trigger] entries[i]).1.well_formed()
}

/// After `insert`, the key holds the new value and every other key holds
/// what it held before.
pub proof fn lemma_insert_lookup(
    entries: Seq<(Seq<char>, JsonModel)>,
    key: Seq<char>,
    value: JsonModel,
    other: Seq<char>,
)
    ensures
        lookup(insert(entries, key, value), other) == if other == key {
            Some(value)
        } else {
            lookup(entries, other)
        },
{
    let after = insert(entries, key, value);
    let p = position(entries, key);
    let q = position(entries, other);
    lemma_position(entries, key);
    lemma_position(entries, other);
    if other == key {
        lemma_position_is(after, key, p);
    } else if q < entries.len() {
        assert(entries[q].0 == other);
        assert(q != p);
        lemma_position_is(after, other, q);
    } else {
        assert forall|j: int| 0 <= j < after.len() implies (#[trigger] after[j]).0 != other by {
            if j < entries.len() && j != p {
                assert(after[j] == entries[j]);
            }
        }
        lemma_position_is(after, other, after.len() as int);
    }
}

/// `insert` keeps every entry in its place, and each key with it.
pub proof fn lemma_insert_places(
    entries: Seq<(Seq<char>, JsonModel)>,
    key: Seq<char>,
    value: JsonModel,
)
    ensures
        insert(entries, key, value).len() >= entries.len(),
        forall|i: int|
            0 <= i < entries.len() ==> (#[trigger] insert(entries, key, value)[i]).0
                == entries[i].0,
{
    lemma_position(entries, key);
}

/// `insert` never makes a key occur twice.
pub proof fn lemma_insert_distinct(
    entries: Seq<(Seq<char>, JsonModel)>,
    key: Seq<char>,
    value: JsonModel,
)
    requires
        distinct_keys(entries),
    ensures
        distinct_keys(insert(entries, key, value)),
{
    let after = insert(entries, key, value);
    lemma_position(entries, key);
    lemma_insert_places(entries, key, value);
    assert forall|i: int, j: int| 0 <= i < j < after.len() implies (#[trigger] after[i]).0 != (
    #[trigger] after[j]).0 by {
        if j < entries.len() {
            assert(after[i].0 == entries[i].0);
            assert(after[j].0 == entries[j].0);
        } else {
            assert(after[i].0 == entries[i].0);
            assert(entries[i].0 != key);
        }
    }
}

/// `insert` of a well-formed value among well-formed values leaves all of
/// them well formed.
pub proof fn lemma_insert_well_formed(
    entries: Seq<(Seq<char>, JsonModel)>,
    key: Seq<char>,
    value: JsonModel,
)
    requires
        values_well_formed(entries),
        value.well_formed(),
    ensures
        values_well_formed(insert(entries, key, value)),
{
    let after = insert(entries, key, value);
    lemma_position(entries, key);
    assert forall|i: int| 0 <= i < after.len() implies (#[trigger] after[i]).1.well_formed() by {
        if i < entries.len() && i != position(entries, key) {
            assert(after[i] == entries[i]);
        }
    }
}

/// Puts `value` under `key`: in the place of the entry that had the key, or
/// at the end where none had it.
pub fn insert_entry(entries: &mut Vec<(String, Json)>, key: String, value: Json)
    ensures
        final(entries).deep_view() == insert(old(entries).deep_view(), key@, value@),
{
    let ghost before = entries.deep_view();
    let n = entries.len();
    let mut i: usize = 0;
    while i < n && entries[i].0 != key
        invariant
            i <= n,
            n == entries@.len(),
            before == entries.deep_view(),
            forall|j: int| 0 <= j < i ==> (#[trigger] before[j]).0 != key@,
        decreases n - i,
    {
        assert(before[i as int].0 == entries@[i as int].0@);
        i += 1;
    }
    proof {
        if i < n {
            assert(before[i as int].0 == entries@[i as int].0@);
        }
        lemma_position_is(before, key@, i as int);
    }
    if i < n {
        entries.set(i, (key, value));
        assert(entries.deep_view() =~= before.update(i as int, (key@, value@)));
    } else {
        entries.push((key, value));
        assert(entries.deep_view() =~= before.push((key@, value@)));
    }
}

} // verus!
