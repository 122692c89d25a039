use crate::entries::{
    distinct_keys, has_key, insert, insert_entry, lemma_insert_distinct, lemma_insert_lookup,
    lemma_insert_places, lemma_insert_well_formed, lemma_position_is, lookup, values_well_formed,
};
use crate::json::{entry_models, models, Json, JsonModel};
use vstd::prelude::*;
use vstd::string::*;

verus! {

/// The entries of an object; none for any other value.
pub open spec fn entries_of(value: JsonModel) -> Seq<(Seq<char>, JsonModel)> {
    match value {
        JsonModel::Object(entries) => entries,
        _ => Seq::empty(),
    }
}

/// `base` after each entry of `more` has been put into it, in order.
pub open spec fn insert_all(
    base: Seq<(Seq<char>, JsonModel)>,
    more: Seq<(Seq<char>, JsonModel)>,
) -> Seq<(Seq<char>, JsonModel)>
    decreases more.len(),
{
    if more.len() == 0 {
        base
    } else {
        insert(insert_all(base, more.drop_last()), more.last().0, more.last().1)
    }
}

/// The entries of all the objects among `values`, put one after the other
/// into one object: a key keeps the place of its first entry and has the
/// value of its last.
pub open spec fn merged_entries(values: Seq<JsonModel>) -> Seq<(Seq<char>, JsonModel)>
    decreases values.len(),
{
    if values.len() == 0 {
        Seq::empty()
    } else {
        insert_all(merged_entries(values.drop_last()), entries_of(values.last()))
    }
}

/// The object that unites the objects among `values`.
pub open spec fn merge(values: Seq<JsonModel>) -> JsonModel {
    JsonModel::Object(merged_entries(values))
}

/// Unites the objects among `vec` in one object. Where a key occurs again,
/// the later value takes the place of the earlier one; a key that is new
/// goes to the end. Values that are no objects are passed over.
pub fn merge_json_objects(vec: Vec<Json>) -> (merged: Json)
    ensures
        merged@ == merge(vec.deep_view()),
        all_well_formed(vec.deep_view()) ==> merged@.well_formed(),
{
    proof {
        lemma_merge_well_formed(vec.deep_view());
    }
    let ghost values = vec.deep_view();
    let mut merged: Vec<(String, Json)> = Vec::new();
    assert(values.take(0) =~= Seq::<JsonModel>::empty());
    for object in it: vec
        invariant
            models(it.seq()) =~= values,
            merged.deep_view() == merged_entries(values.take(it.index() as int)),
    {
        let ghost done = merged_entries(values.take(it.index() as int));
        let ghost more = entries_of(object@);
        proof {
            assert(values.take(it.index() + 1).drop_last() =~= values.take(it.index() as int));
            assert(values.take(it.index() + 1).last() == object@);
        }
        if let Json::Object(entries) = object {
            proof {
                Json::lemma_object_view(entries);
                assert(entries.deep_view() =~= entry_models(entries@));
                assert(more.take(0) =~= Seq::<(Seq<char>, JsonModel)>::empty());
            }
            for entry in jt: entries
                invariant
                    entry_models(jt.seq()) =~= more,
                    merged.deep_view() == insert_all(done, more.take(jt.index() as int)),
            {
                proof {
                    assert(more.take(jt.index() + 1).drop_last() =~= more.take(jt.index() as int));
                    assert(more.take(jt.index() + 1).last() == (entry.0@, entry.1@));
                }
                let (key, value) = entry;
                insert_entry(&mut merged, key, value);
            }
            assert(more.take(more.len() as int) =~= more);
        }
    }
    proof {
        assert(values.take(values.len() as int) =~= values);
        Json::lemma_object_view(merged);
    }
    Json::Object(merged)
}

/// `values` with every array among them replaced by its own items, and so
/// on inside those, until no array is left at the top.
pub open spec fn flattened(values: Seq<JsonModel>) -> Seq<JsonModel>
    decreases values,
{
    if values.len() == 0 {
        Seq::empty()
    } else {
        flattened(values.drop_last()) + (match values.last() {
            JsonModel::Array(items) => flattened(items),
            other => seq![other],
        })
    }
}

/// Appends to `out` the values of `values`, with every array among them
/// replaced by its flattened items.
fn flatten_into(values: &[Json], out: &mut Vec<Json>)
    ensures
        final(out).deep_view() == old(out).deep_view() + flattened(values.deep_view()),
    decreases values.deep_view(),
{
    let ghost before = out.deep_view();
    let ghost all = values.deep_view();
    let n = values.len();
    let mut i: usize = 0;
    assert(all.take(0) =~= Seq::<JsonModel>::empty());
    assert(before + Seq::<JsonModel>::empty() =~= before);
    while i < n
        invariant
            i <= n,
            n == values@.len(),
            all == values.deep_view(),
            out.deep_view() == before + flattened(all.take(i as int)),
        decreases n - i,
    {
        let ghost so_far = out.deep_view();
        proof {
            assert(all.take(i + 1).drop_last() =~= all.take(i as int));
            assert(all.take(i + 1).last() == values@[i as int]@);
        }
        match &values[i] {
            Json::Array(items) => {
                let inner = items.as_slice();
                proof {
                    Json::lemma_array_view(*items);
                    assert(inner.deep_view() =~= items.deep_view());
                    assert(all[i as int] == JsonModel::Array(inner.deep_view()));
                    assert(decreases_to!(all => all[i as int]));
                    assert(decreases_to!(all[i as int] => all[i as int]->Array_0));
                }
                flatten_into(inner, out);
                assert(out.deep_view() =~= before + flattened(all.take(i + 1)));
            },
            other => {
                out.push(other.clone());
                assert(out.deep_view() =~= so_far.push(other@));
                assert(out.deep_view() =~= before + flattened(all.take(i + 1)));
            },
        }
        i += 1;
    }
    assert(all.take(n as int) =~= all);
}

/// The values of `values` in order, with every array among them replaced by
/// its own items, however deep the arrays lie in one another.
pub fn flatten_json_array(values: &[Json]) -> (flat: Vec<Json>)
    ensures
        flat.deep_view() == flattened(values.deep_view()),
        no_arrays(flat.deep_view()),
        all_well_formed(values.deep_view()) ==> all_well_formed(flat.deep_view()),
{
    proof {
        lemma_flattened_flat(values.deep_view());
    }
    let mut flat: Vec<Json> = Vec::new();
    flatten_into(values, &mut flat);
    assert(flat.deep_view() =~= flattened(values.deep_view()));
    flat
}

/// Whether `value` is an object that holds the key `xt:param`.
pub open spec fn is_param(value: JsonModel) -> bool {
    value is Object && has_key(value->Object_0, "xt:param"@)
}

/// The only value of `value`, where `value` is an object of one entry and
/// that value is a parameter reference; `value` itself otherwise.
pub open spec fn extract_param(value: JsonModel) -> JsonModel {
    match value {
        JsonModel::Object(entries) => if entries.len() == 1 && is_param(entries[0].1) {
            entries[0].1
        } else {
            value
        },
        _ => value,
    }
}

/// Whether `entries` holds the key `key`.
pub fn contains_key(entries: &Vec<(String, Json)>, key: &str) -> (found: bool)
    ensures
        found == has_key(entries.deep_view(), key@),
{
    let ghost all = entries.deep_view();
    let wanted = String::from_str(key);
    let n = entries.len();
    let mut i: usize = 0;
    while i < n && entries[i].0 != wanted
        invariant
            i <= n,
            n == entries@.len(),
            all == entries.deep_view(),
            wanted@ == key@,
            forall|j: int| 0 <= j < i ==> (#[trigger] all[j]).0 != key@,
        decreases n - i,
    {
        assert(all[i as int].0 == entries@[i as int].0@);
        i += 1;
    }
    proof {
        if i < n {
            assert(all[i as int].0 == entries@[i as int].0@);
        }
        lemma_position_is(all, key@, i as int);
    }
    i < n
}

/// Unwraps a parameter reference: where `json_value` is an object of one
/// entry whose value is an object that holds the key `xt:param`, that inner
/// object; a copy of `json_value` otherwise.
pub fn extract_xt_param_value(json_value: &Json) -> (out: Json)
    ensures
        out@ == extract_param(json_value@),
{
    if let Json::Object(entries) = json_value {
        proof {
            Json::lemma_object_view(*entries);
        }
        if entries.len() == 1 {
            if let Json::Object(inner) = &entries[0].1 {
                proof {
                    Json::lemma_object_view(*inner);
                }
                if contains_key(inner, "xt:param") {
                    return entries[0].1.clone();
                }
            }
        }
    }
    json_value.clone()
}

/// The value of the last entry of `entries` that has the key `key`.
pub open spec fn last_value(entries: Seq<(Seq<char>, JsonModel)>, key: Seq<char>) -> Option<
    JsonModel,
>
    decreases entries.len(),
{
    if entries.len() == 0 {
        None
    } else if entries.last().0 == key {
        Some(entries.last().1)
    } else {
        last_value(entries.drop_last(), key)
    }
}

/// Whether no value of `values` is an array.
pub open spec fn no_arrays(values: Seq<JsonModel>) -> bool {
    forall|i: int| 0 <= i < values.len() ==> !((#[trigger] values[i]) is Array)
}

/// Whether every value of `values` is well formed.
pub open spec fn all_well_formed(values: Seq<JsonModel>) -> bool {
    forall|i: int| 0 <= i < values.len() ==> (#[trigger] values[i]).well_formed()
}

/// Later wins: after `insert_all`, a key holds the value of its last entry
/// in `more`, or what it held in `base` where `more` has no such entry.
pub proof fn lemma_insert_all_lookup(
    base: Seq<(Seq<char>, JsonModel)>,
    more: Seq<(Seq<char>, JsonModel)>,
    key: Seq<char>,
)
    ensures
        lookup(insert_all(base, more), key) == match last_value(more, key) {
            Some(value) => Some(value),
            None => lookup(base, key),
        },
    decreases more.len(),
{
    if more.len() > 0 {
        lemma_insert_all_lookup(base, more.drop_last(), key);
        lemma_insert_lookup(
            insert_all(base, more.drop_last()),
            more.last().0,
            more.last().1,
            key,
        );
    }
}

/// Earlier stays first: `insert_all` keeps every entry of `base` in its
/// place, and each key with it.
pub proof fn lemma_insert_all_places(
    base: Seq<(Seq<char>, JsonModel)>,
    more: Seq<(Seq<char>, JsonModel)>,
)
    ensures
        insert_all(base, more).len() >= base.len(),
        forall|i: int|
            0 <= i < base.len() ==> (#[trigger] insert_all(base, more)[i]).0 == base[i].0,
    decreases more.len(),
{
    if more.len() > 0 {
        let before = insert_all(base, more.drop_last());
        lemma_insert_all_places(base, more.drop_last());
        lemma_insert_places(before, more.last().0, more.last().1);
        assert forall|i: int| 0 <= i < base.len() implies (#[trigger] insert_all(base, more)[i]).0
            == base[i].0 by {
            assert(before[i].0 == base[i].0);
        }
    }
}

/// `insert_all` never makes a key occur twice, and keeps the values well
/// formed where they all were.
pub proof fn lemma_insert_all_sound(
    base: Seq<(Seq<char>, JsonModel)>,
    more: Seq<(Seq<char>, JsonModel)>,
)
    requires
        distinct_keys(base),
    ensures
        distinct_keys(insert_all(base, more)),
        values_well_formed(base) && values_well_formed(more) ==> values_well_formed(
            insert_all(base, more),
        ),
    decreases more.len(),
{
    if more.len() > 0 {
        let before = insert_all(base, more.drop_last());
        lemma_insert_all_sound(base, more.drop_last());
        lemma_insert_distinct(before, more.last().0, more.last().1);
        if values_well_formed(base) && values_well_formed(more) {
            assert forall|i: int| 0 <= i < more.drop_last().len() implies (
            #[trigger] more.drop_last()[i]).1.well_formed() by {
                assert(more.drop_last()[i] == more[i]);
            }
            lemma_insert_well_formed(before, more.last().0, more.last().1);
        }
    }
}

/// Entries with distinct keys, put one after the other into an empty object,
/// give those same entries.
pub proof fn lemma_insert_all_fresh(entries: Seq<(Seq<char>, JsonModel)>)
    requires
        distinct_keys(entries),
    ensures
        insert_all(Seq::empty(), entries) == entries,
    decreases entries.len(),
{
    if entries.len() == 0 {
        assert(entries =~= Seq::empty());
    } else {
        let front = entries.drop_last();
        assert forall|i: int, j: int| 0 <= i < j < front.len() implies (#[trigger] front[i]).0 != (
        #[trigger] front[j]).0 by {
            assert(front[i] == entries[i]);
            assert(front[j] == entries[j]);
        }
        lemma_insert_all_fresh(front);
        assert forall|j: int| 0 <= j < front.len() implies (#[trigger] front[j]).0
            != entries.last().0 by {
            assert(front[j] == entries[j]);
            assert(entries.last() == entries[entries.len() - 1]);
        }
        lemma_position_is(front, entries.last().0, front.len() as int);
        assert(front.push(entries.last()) =~= entries);
    }
}

/// The merged entries never hold a key twice, and their values are well
/// formed where the values merged were.
pub proof fn lemma_merge_well_formed(values: Seq<JsonModel>)
    ensures
        distinct_keys(merged_entries(values)),
        all_well_formed(values) ==> merge(values).well_formed(),
    decreases values.len(),
{
    if values.len() > 0 {
        let front = values.drop_last();
        lemma_merge_well_formed(front);
        lemma_insert_all_sound(merged_entries(front), entries_of(values.last()));
        if all_well_formed(values) {
            assert forall|i: int| 0 <= i < front.len() implies (
            #[trigger] front[i]).well_formed() by {
                assert(front[i] == values[i]);
            }
            assert(values.last().well_formed());
        }
    }
}

/// Merging is idempotent: the merge of a merged object alone is that object.
pub proof fn lemma_merge_idempotent(values: Seq<JsonModel>)
    ensures
        merge(seq![merge(values)]) == merge(values),
{
    let once = merge(values);
    lemma_merge_well_formed(values);
    lemma_insert_all_fresh(merged_entries(values));
    assert(seq![once].drop_last() =~= Seq::<JsonModel>::empty());
    assert(merged_entries(seq![once].drop_last()) =~= Seq::empty());
}

/// Merging two objects is a union in which the left one gives the order and
/// the right one overrides: the keys of `left` stay in their places, each
/// key that `right` holds has the value of its last entry there, and every
/// other key has the value it has in `left`.
pub proof fn lemma_merge_union(
    left: Seq<(Seq<char>, JsonModel)>,
    right: Seq<(Seq<char>, JsonModel)>,
    key: Seq<char>,
)
    requires
        distinct_keys(left),
    ensures
        merged_entries(seq![JsonModel::Object(left), JsonModel::Object(right)]) == insert_all(
            left,
            right,
        ),
        distinct_keys(insert_all(left, right)),
        insert_all(left, right).len() >= left.len(),
        forall|i: int|
            0 <= i < left.len() ==> (#[trigger] insert_all(left, right)[i]).0 == left[i].0,
        lookup(insert_all(left, right), key) == match last_value(right, key) {
            Some(value) => Some(value),
            None => lookup(left, key),
        },
{
    let both = seq![JsonModel::Object(left), JsonModel::Object(right)];
    let first = seq![JsonModel::Object(left)];
    assert(both.drop_last() =~= first);
    assert(first.drop_last() =~= Seq::<JsonModel>::empty());
    lemma_insert_all_fresh(left);
    assert(merged_entries(first.drop_last()) =~= Seq::empty());
    assert(merged_entries(first) == insert_all(Seq::empty(), left));
    assert(merged_entries(both) == insert_all(merged_entries(first), right));
    lemma_insert_all_sound(left, right);
    lemma_insert_all_places(left, right);
    lemma_insert_all_lookup(left, right, key);
}

/// Flattening goes through concatenation.
pub proof fn lemma_flattened_concat(front: Seq<JsonModel>, back: Seq<JsonModel>)
    ensures
        flattened(front + back) == flattened(front) + flattened(back),
    decreases back.len(),
{
    if back.len() == 0 {
        assert(front + back =~= front);
        assert(flattened(front) + flattened(back) =~= flattened(front));
    } else {
        lemma_flattened_concat(front, back.drop_last());
        assert((front + back).drop_last() =~= front + back.drop_last());
        assert((front + back).last() == back.last());
        let tail = match back.last() {
            JsonModel::Array(items) => flattened(items),
            other => seq![other],
        };
        assert(flattened(front + back) =~= flattened(front) + (flattened(back.drop_last())
            + tail));
    }
}

/// Flattening leaves no array at the top, and keeps the values well formed.
pub proof fn lemma_flattened_flat(values: Seq<JsonModel>)
    ensures
        no_arrays(flattened(values)),
        all_well_formed(values) ==> all_well_formed(flattened(values)),
    decreases values,
{
    if values.len() > 0 {
        let front = values.drop_last();
        lemma_flattened_flat(front);
        if all_well_formed(values) {
            assert forall|i: int| 0 <= i < front.len() implies (
            #[trigger] front[i]).well_formed() by {
                assert(front[i] == values[i]);
            }
            assert(values.last().well_formed());
        }
        match values.last() {
            JsonModel::Array(items) => {
                lemma_flattened_flat(items);
            },
            _ => {},
        }
    }
}

/// Values with no array among them are their own flattening.
pub proof fn lemma_flattened_of_flat(values: Seq<JsonModel>)
    requires
        no_arrays(values),
    ensures
        flattened(values) == values,
    decreases values.len(),
{
    if values.len() == 0 {
        assert(values =~= Seq::empty());
    } else {
        let front = values.drop_last();
        assert forall|i: int| 0 <= i < front.len() implies !((#[trigger] front[i]) is Array) by {
            assert(front[i] == values[i]);
        }
        lemma_flattened_of_flat(front);
        assert(!(values.last() is Array));
        assert(front + seq![values.last()] =~= values);
    }
}

/// Flattening is idempotent.
pub proof fn lemma_flatten_idempotent(values: Seq<JsonModel>)
    ensures
        flattened(flattened(values)) == flattened(values),
{
    lemma_flattened_flat(values);
    lemma_flattened_of_flat(flattened(values));
}

} // verus!
