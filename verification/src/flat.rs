//! Flat maps: the fields of an entity under one ordered map, as they are printed.
use vstd::prelude::*;
use vstd::string::*;

use crate::json::{to_value, value_str, value_view, Json, JsonView};

verus! {

/// The ordered map of the `indexmap` crate. Its contents are `flat_entries`.
#[verifier::external_type_specification]
#[verifier::external_body]
#[verifier::reject_recursive_types(K)]
#[verifier::reject_recursive_types(V)]
#[verifier::reject_recursive_types(S)]
pub struct ExIndexMap<K, V, S>(indexmap::IndexMap<K, V, S>);

/// The entries of an ordered map, in its order.
pub uninterp spec fn flat_entries(m: indexmap::IndexMap<String, serde_json::Value>) -> Seq<
    (Seq<char>, JsonView),
>;

/// The position of the first entry with the given key, at `from` or behind.
pub open spec fn key_position(
    entries: Seq<(Seq<char>, JsonView)>,
    key: Seq<char>,
    from: int,
) -> Option<int>
    decreases entries.len() - from,
{
    if from >= entries.len() {
        None
    } else if entries[from].0 == key {
        Some(from)
    } else {
        key_position(entries, key, from + 1)
    }
}

/// The entries after one more is put in: in the place of the entry with the same
/// key, or behind all others.
pub open spec fn with_entry(
    entries: Seq<(Seq<char>, JsonView)>,
    key: Seq<char>,
    value: JsonView,
) -> Seq<(Seq<char>, JsonView)> {
    match key_position(entries, key, 0) {
        Some(i) => entries.update(i, (key, value)),
        None => entries.push((key, value)),
    }
}

/// The entries after the first `n` fields are put in, one after another.
pub open spec fn with_fields(
    entries: Seq<(Seq<char>, JsonView)>,
    fields: Seq<(String, Json)>,
    n: nat,
) -> Seq<(Seq<char>, JsonView)>
    decreases n,
{
    if n == 0 || n > fields.len() {
        entries
    } else {
        with_entry(
            with_fields(entries, fields, (n - 1) as nat),
            fields[n - 1].0@,
            fields[n - 1].1@,
        )
    }
}

/// The contents of each map of a list.
pub open spec fn flat_views(
    maps: Seq<indexmap::IndexMap<String, serde_json::Value>>,
) -> Seq<Seq<(Seq<char>, JsonView)>> {
    maps.map_values(|m: indexmap::IndexMap<String, serde_json::Value>| flat_entries(m))
}

/// Calls `indexmap::IndexMap::new`, which makes an empty map.
#[verifier::external_body]
fn new_map() -> (r: indexmap::IndexMap<String, serde_json::Value>)
    ensures
        flat_entries(r) == Seq::<(Seq<char>, JsonView)>::empty(),
{
    indexmap::IndexMap::new()
}

/// Calls `indexmap::IndexMap::insert`: an entry with an equal key keeps its place
/// and gets the new value, else the new entry comes last.
#[verifier::external_body]
fn put(m: &mut indexmap::IndexMap<String, serde_json::Value>, key: String, value: serde_json::Value)
    ensures
        flat_entries(*final(m)) == with_entry(flat_entries(*old(m)), key@, value_view(value)),
{
    m.insert(key, value);
}

/// The text that `serde_yaml::to_string` writes for a list of ordered maps; `None`
/// where it reports an error.
pub uninterp spec fn yaml_written(maps: Seq<Seq<(Seq<char>, JsonView)>>) -> Option<Seq<char>>;

/// The text that `serde_json::to_string_pretty` writes for a list of ordered
/// maps.
pub uninterp spec fn pretty_maps_written(maps: Seq<Seq<(Seq<char>, JsonView)>>) -> Seq<char>;

/// Calls `serde_yaml::to_string` on a list of ordered maps.
#[verifier::external_body]
pub(crate) fn write_yaml(maps: &Vec<indexmap::IndexMap<String, serde_json::Value>>) -> (r: Option<
    String,
>)
    ensures
        match r {
            Some(text) => yaml_written(flat_views(maps@)) == Some(text@),
            None => yaml_written(flat_views(maps@)) is None,
        },
{
    serde_yaml::to_string(maps).ok()
}

/// Calls `serde_json::to_string_pretty` on a list of ordered maps, which succeeds
/// on every such list.
#[verifier::external_body]
pub(crate) fn write_pretty_maps(
    maps: &Vec<indexmap::IndexMap<String, serde_json::Value>>,
) -> (r: String)
    ensures
        r@ == pretty_maps_written(flat_views(maps@)),
{
    serde_json::to_string_pretty(maps).unwrap_or_default()
}

/// A map that holds one text.
pub(crate) fn map_of_text(key: &str, text: &str) -> (r: indexmap::IndexMap<
    String,
    serde_json::Value,
>)
    ensures
        flat_entries(r) == seq![(key@, JsonView::Str(text@))],
{
    let mut map = new_map();
    put(&mut map, key.to_owned(), value_str(text));
    assert(flat_entries(map) == seq![(key@, JsonView::Str(text@))]);
    map
}

/// Puts a text into a map.
pub(crate) fn put_text(
    map: &mut indexmap::IndexMap<String, serde_json::Value>,
    key: &str,
    text: &str,
)
    ensures
        flat_entries(*final(map)) == with_entry(
            flat_entries(*old(map)),
            key@,
            JsonView::Str(text@),
        ),
{
    put(map, key.to_owned(), value_str(text));
}

/// Puts fields into a map, one after another.
pub(crate) fn put_fields(
    map: &mut indexmap::IndexMap<String, serde_json::Value>,
    fields: &Vec<(String, Json)>,
)
    ensures
        flat_entries(*final(map)) == with_fields(
            flat_entries(*old(map)),
            fields@,
            fields@.len(),
        ),
{
    let n: usize = fields.len();
    let mut i: usize = 0;
    while i < n
        invariant
            i <= n,
            n == fields@.len(),
            flat_entries(*map) == with_fields(flat_entries(*old(map)), fields@, i as nat),
        decreases n - i,
    {
        put(map, fields[i].0.clone(), to_value(&fields[i].1));
        i = i + 1;
    }
}

/// Putting an entry in keeps the place and the value of the first entry, unless
/// it has the same key.
pub proof fn first_entry_stays(
    entries: Seq<(Seq<char>, JsonView)>,
    key: Seq<char>,
    value: JsonView,
)
    requires
        entries.len() > 0,
    ensures
        with_entry(entries, key, value).len() > 0,
        with_entry(entries, key, value)[0].0 == entries[0].0,
        key != entries[0].0 ==> with_entry(entries, key, value)[0] == entries[0],
{
    lemma_key_position(entries, key, 0);
}

/// A position that is found holds the key.
proof fn lemma_key_position(entries: Seq<(Seq<char>, JsonView)>, key: Seq<char>, from: int)
    requires
        0 <= from,
    ensures
        key_position(entries, key, from) matches Some(i) ==> from <= i < entries.len()
            && entries[i].0 == key,
    decreases entries.len() - from,
{
    if from < entries.len() && entries[from].0 != key {
        lemma_key_position(entries, key, from + 1);
    }
}

/// Whether no two entries have the same key.
pub open spec fn keys_differ(entries: Seq<(Seq<char>, JsonView)>) -> bool {
    forall|i: int, j: int|
        0 <= i < j < entries.len() ==> (#[trigger] entries[i]).0 != (#[trigger] entries[j]).0
}

/// What the position of a key says.
proof fn lemma_key_found(entries: Seq<(Seq<char>, JsonView)>, key: Seq<char>, from: int)
    requires
        0 <= from <= entries.len(),
    ensures
        match key_position(entries, key, from) {
            Some(i) => from <= i < entries.len() && entries[i].0 == key,
            None => forall|i: int| from <= i < entries.len() ==> (#[trigger] entries[i]).0 != key,
        },
    decreases entries.len() - from,
{
    if from < entries.len() && entries[from].0 != key {
        lemma_key_found(entries, key, from + 1);
    }
}

/// An entry that is put in is there, whatever its value; every entry of another key
/// stays as it is, where it is; and there is at most one more entry.
pub proof fn entry_is_put(entries: Seq<(Seq<char>, JsonView)>, key: Seq<char>, value: JsonView)
    ensures
        ({
            let all = with_entry(entries, key, value);
            &&& all.contains((key, value))
            &&& entries.len() <= all.len() <= entries.len() + 1
            &&& forall|i: int|
                0 <= i < entries.len() ==> (#[trigger] all[i]).0 == entries[i].0
            &&& keys_differ(entries) ==> keys_differ(all) && forall|i: int|
                0 <= i < entries.len() && entries[i].0 != key ==> #[trigger] all[i] == entries[i]
            &&& all.len() == entries.len() + 1 ==> all.last() == (key, value)
            &&& all.len() == entries.len() ==> exists|i: int|
                0 <= i < entries.len() && (#[trigger] entries[i]).0 == key
        }),
{
    let all = with_entry(entries, key, value);
    lemma_key_found(entries, key, 0);
    match key_position(entries, key, 0) {
        Some(i) => {
            assert(all[i] == (key, value));
            assert(entries[i].0 == key);
            assert forall|k: int| 0 <= k < entries.len() implies (#[trigger] all[k]).0
                == entries[k].0 by {}
            if keys_differ(entries) {
                assert forall|k: int, l: int| 0 <= k < l < all.len() implies (
                #[trigger] all[k]).0 != (#[trigger] all[l]).0 by {
                    assert(entries[k].0 != entries[l].0);
                }
            }
        },
        None => {
            assert(all[entries.len() as int] == (key, value));
        },
    }
}

/// Every field is in the map that fields are put into: of the fields of one key the
/// last one, whatever its value is. Every entry is such a field, or was there
/// before and has the key of none; an entry that was there before keeps its place.
pub proof fn fields_are_held(
    entries: Seq<(Seq<char>, JsonView)>,
    fields: Seq<(String, Json)>,
    n: nat,
)
    requires
        keys_differ(entries),
        n <= fields.len(),
    ensures
        ({
            let all = with_fields(entries, fields, n);
            &&& keys_differ(all)
            &&& forall|i: int|
                0 <= i < n && (forall|j: int| i < j < n ==> (#[trigger] fields[j]).0@ != fields[i].0@)
                    ==> all.contains(((#[trigger] fields[i]).0@, fields[i].1@))
            &&& forall|k: int|
                entries.len() <= k < all.len() ==> exists|i: int|
                    0 <= i < n && ((#[trigger] fields[i]).0@, fields[i].1@) == #[trigger] all[k]
            &&& entries.len() <= all.len()
            &&& forall|k: int|
                0 <= k < entries.len() ==> (#[trigger] all[k]).0 == entries[k].0 && (all[k]
                    == entries[k] || exists|i: int|
                    0 <= i < n && ((#[trigger] fields[i]).0@, fields[i].1@) == all[k])
            &&& forall|k: int|
                0 <= k < entries.len() && (forall|i: int|
                    0 <= i < n ==> (#[trigger] fields[i]).0@ != entries[k].0) ==> #[trigger] all[k]
                    == entries[k]
        }),
    decreases n,
{
    if n > 0 {
        let before = with_fields(entries, fields, (n - 1) as nat);
        let all = with_fields(entries, fields, n);
        let key = fields[n - 1].0@;
        let value = fields[n - 1].1@;
        fields_are_held(entries, fields, (n - 1) as nat);
        entry_is_put(before, key, value);
        lemma_key_found(before, key, 0);
        assert forall|i: int|
            0 <= i < n && (forall|j: int| i < j < n ==> (#[trigger] fields[j]).0@ != fields[i].0@)
            implies all.contains(((#[trigger] fields[i]).0@, fields[i].1@)) by {
            if i < n - 1 {
                assert(fields[n - 1].0@ != fields[i].0@);
                let held = (fields[i].0@, fields[i].1@);
                assert(before.contains(held));
                let k = before.index_of(held);
                assert(all[k] == before[k]);
            }
        }
        assert forall|k: int| entries.len() <= k < all.len() implies exists|i: int|
            0 <= i < n && ((#[trigger] fields[i]).0@, fields[i].1@) == #[trigger] all[k] by {
            if k < before.len() && all[k] == before[k] {
                let i = choose|i: int|
                    0 <= i < n - 1 && ((#[trigger] fields[i]).0@, fields[i].1@) == before[k];
                assert((fields[i].0@, fields[i].1@) == all[k]);
            } else {
                assert((fields[n - 1].0@, fields[n - 1].1@) == all[k]);
            }
        }
        assert forall|k: int| 0 <= k < entries.len() implies (#[trigger] all[k]).0 == entries[k].0
            && (all[k] == entries[k] || exists|i: int|
            0 <= i < n && ((#[trigger] fields[i]).0@, fields[i].1@) == all[k]) by {
            assert(before[k].0 == entries[k].0);
            if all[k] == before[k] {
                if before[k] != entries[k] {
                    let i = choose|i: int|
                        0 <= i < n - 1 && ((#[trigger] fields[i]).0@, fields[i].1@) == before[k];
                    assert((fields[i].0@, fields[i].1@) == all[k]);
                }
            } else {
                assert((fields[n - 1].0@, fields[n - 1].1@) == all[k]);
            }
        }
        assert forall|k: int|
            0 <= k < entries.len() && (forall|i: int|
                0 <= i < n ==> (#[trigger] fields[i]).0@ != entries[k].0) implies #[trigger] all[k]
            == entries[k] by {
            assert(fields[n - 1].0@ != entries[k].0);
            assert(before[k] == entries[k]);
        }
    }
}

/// The contents of maps are those of each map, in their order.
pub proof fn maps_are_kept(maps: Seq<indexmap::IndexMap<String, serde_json::Value>>, i: int)
    requires
        0 <= i < maps.len(),
    ensures
        flat_views(maps).len() == maps.len(),
        flat_views(maps)[i] == flat_entries(maps[i]),
{
}

} // verus!
