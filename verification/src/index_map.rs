//! The ordered map of connections, kept in an `indexmap::IndexMap` keyed by
//! the connection's UUID.
//!
//! The map is reached only through the trusted items below. Its contents are
//! named by `connection_entries`: the key/value pairs in the map's order,
//! each key taken by its characters. The spec functions with bodies state
//! what the `IndexMap` documentation says its operations do to that
//! sequence.

use vstd::prelude::*;
use indexmap::IndexMap;

use crate::connection_manager::Connection;

verus! {

#[verifier::external_type_specification]
#[verifier::external_body]
#[verifier::reject_recursive_types(K)]
#[verifier::reject_recursive_types(V)]
#[verifier::reject_recursive_types(S)]
pub struct ExIndexMap<K, V, S>(IndexMap<K, V, S>);

/// The key/value pairs that an `IndexMap` of connections holds, in its order.
pub uninterp spec fn connection_entries(m: IndexMap<String, Connection>) -> Seq<(Seq<char>, Connection)>;

/// No key occurs twice.
pub open spec fn keys_distinct<V>(e: Seq<(Seq<char>, V)>) -> bool {
    forall|i: int, j: int| 0 <= i < e.len() && 0 <= j < e.len() && i != j ==> e[i].0 != e[j].0
}

/// Some pair has key `k`.
pub open spec fn has_key<V>(e: Seq<(Seq<char>, V)>, k: Seq<char>) -> bool {
    exists|i: int| 0 <= i < e.len() && e[i].0 == k
}

/// The position of the pair with key `k` (meaningful where `has_key` holds
/// and the keys are distinct).
pub open spec fn key_index<V>(e: Seq<(Seq<char>, V)>, k: Seq<char>) -> int {
    choose|i: int| 0 <= i < e.len() && e[i].0 == k
}

/// What `insert` does: the value of an existing key is replaced in place,
/// a new key is appended last.
pub open spec fn insert_entry<V>(e: Seq<(Seq<char>, V)>, k: Seq<char>, v: V) -> Seq<(Seq<char>, V)> {
    if has_key(e, k) {
        e.update(key_index(e, k), (k, v))
    } else {
        e.push((k, v))
    }
}

/// What `extend` does: `insert` of each pair, in order.
pub open spec fn insert_all<V>(e: Seq<(Seq<char>, V)>, items: Seq<(Seq<char>, V)>) -> Seq<(Seq<char>, V)>
    decreases items.len(),
{
    if items.len() == 0 {
        e
    } else {
        insert_all(insert_entry(e, items[0].0, items[0].1), items.drop_first())
    }
}

/// `IndexMap::new`: an empty map.
#[verifier::external_body]
pub(crate) fn map_new() -> (m: IndexMap<String, Connection>)
    ensures
        connection_entries(m) == Seq::<(Seq<char>, Connection)>::empty(),
{
    IndexMap::new()
}

/// `IndexMap::len`: the number of pairs.
#[verifier::external_body]
pub(crate) fn map_len(m: &IndexMap<String, Connection>) -> (r: usize)
    ensures
        r == connection_entries(*m).len(),
{
    m.len()
}

/// `IndexMap::get_index`: the pair at `index`, if `index` is below the length.
#[verifier::external_body]
pub(crate) fn map_get_index(m: &IndexMap<String, Connection>, index: usize) -> (r: Option<(&String, &Connection)>)
    ensures
        r is Some <==> index < connection_entries(*m).len(),
        r matches Some((k, v)) ==> k@ == connection_entries(*m)[index as int].0
            && *v == connection_entries(*m)[index as int].1,
{
    m.get_index(index)
}

/// `IndexMap::get`: the value stored under `key`, if any.
#[verifier::external_body]
pub(crate) fn map_get<'a>(m: &'a IndexMap<String, Connection>, key: &str) -> (r: Option<&'a Connection>)
    ensures
        r is Some <==> has_key(connection_entries(*m), key@),
        r matches Some(v) ==> exists|i: int|
            0 <= i < connection_entries(*m).len() && connection_entries(*m)[i].0 == key@
                && connection_entries(*m)[i].1 == *v,
{
    m.get(key)
}

/// `IndexMap::get_index_of`: the position of `key`, if it is present.
#[verifier::external_body]
pub(crate) fn map_get_index_of(m: &IndexMap<String, Connection>, key: &str) -> (r: Option<usize>)
    ensures
        r is Some <==> has_key(connection_entries(*m), key@),
        r matches Some(i) ==> i < connection_entries(*m).len() && connection_entries(*m)[i as int].0 == key@,
{
    m.get_index_of(key)
}

/// `IndexMap::insert_full`: an existing key keeps its position and gets the
/// new value, whose old value comes back; a new key is appended last. The
/// position of the key is returned.
#[verifier::external_body]
pub(crate) fn map_insert_full(m: &mut IndexMap<String, Connection>, key: String, value: Connection) -> (r: (usize, Option<Connection>))
    ensures
        has_key(connection_entries(*old(m)), key@) ==> {
            &&& r.0 < connection_entries(*old(m)).len()
            &&& connection_entries(*old(m))[r.0 as int].0 == key@
            &&& r.1 == Some(connection_entries(*old(m))[r.0 as int].1)
            &&& connection_entries(*final(m)) == connection_entries(*old(m)).update(r.0 as int, (key@, value))
        },
        !has_key(connection_entries(*old(m)), key@) ==> {
            &&& r.0 == connection_entries(*old(m)).len()
            &&& r.1 is None
            &&& connection_entries(*final(m)) == connection_entries(*old(m)).push((key@, value))
        },
{
    m.insert_full(key, value)
}

/// `IndexMap::shift_remove_full`: removes the pair of `key`, shifting those
/// after it, and returns its position, key and value; `None` and no change
/// where the key is absent.
#[verifier::external_body]
pub(crate) fn map_shift_remove_full(m: &mut IndexMap<String, Connection>, key: &str) -> (r: Option<(usize, String, Connection)>)
    ensures
        r is Some <==> has_key(connection_entries(*old(m)), key@),
        r matches Some((i, k, v)) ==> {
            &&& i < connection_entries(*old(m)).len()
            &&& connection_entries(*old(m))[i as int].0 == key@
            &&& k@ == key@
            &&& v == connection_entries(*old(m))[i as int].1
            &&& connection_entries(*final(m)) == connection_entries(*old(m)).remove(i as int)
        },
        r is None ==> connection_entries(*final(m)) == connection_entries(*old(m)),
{
    m.shift_remove_full(key)
}

/// `Extend::extend` of `IndexMap`: `insert` of each pair, in order.
#[verifier::external_body]
pub(crate) fn map_extend(m: &mut IndexMap<String, Connection>, items: Vec<(String, Connection)>)
    ensures
        connection_entries(*final(m)) == insert_all(
            connection_entries(*old(m)),
            items@.map_values(|p: (String, Connection)| (p.0@, p.1)),
        ),
{
    m.extend(items)
}

} // verus!

verus! {

/// In a map with distinct keys, the only position of a key is `key_index`.
pub proof fn lemma_key_index_unique<V>(e: Seq<(Seq<char>, V)>, i: int)
    requires
        keys_distinct(e),
        0 <= i < e.len(),
    ensures
        has_key(e, e[i].0),
        key_index(e, e[i].0) == i,
{
    assert(has_key(e, e[i].0));
}

/// `insert_entry` keeps the keys distinct, keeps every key and adds the new one.
pub proof fn lemma_insert_entry<V>(e: Seq<(Seq<char>, V)>, k: Seq<char>, v: V)
    requires
        keys_distinct(e),
    ensures
        keys_distinct(insert_entry(e, k, v)),
        has_key(insert_entry(e, k, v), k),
        forall|x: Seq<char>| has_key(e, x) ==> has_key(insert_entry(e, k, v), x),
        forall|j: int| 0 <= j < insert_entry(e, k, v).len() ==>
            #[trigger] insert_entry(e, k, v)[j] == (k, v) || e.contains(insert_entry(e, k, v)[j]),
{
    let r = insert_entry(e, k, v);
    assert forall|x: Seq<char>| has_key(e, x) implies has_key(r, x) by {
        let i = choose|i: int| 0 <= i < e.len() && e[i].0 == x;
        assert(r[i].0 == x);
    }
    if has_key(e, k) {
        let ki = key_index(e, k);
        assert forall|j: int| 0 <= j < r.len() implies r[j] == (k, v) || e.contains(r[j]) by {
            if j != ki {
                assert(e[j] == r[j]);
            }
        }
        assert(r[ki].0 == k);
    } else {
        assert forall|j: int| 0 <= j < r.len() implies r[j] == (k, v) || e.contains(r[j]) by {
            if j < e.len() {
                assert(e[j] == r[j]);
            }
        }
        assert(r[e.len() as int].0 == k);
    }
}

/// `insert_all` keeps the keys distinct and every key of the map, adds every
/// key of `items`, and each of its pairs comes from the map or from `items`.
pub proof fn lemma_insert_all<V>(e: Seq<(Seq<char>, V)>, items: Seq<(Seq<char>, V)>)
    requires
        keys_distinct(e),
    ensures
        keys_distinct(insert_all(e, items)),
        forall|x: Seq<char>| has_key(e, x) ==> has_key(insert_all(e, items), x),
        forall|t: int| 0 <= t < items.len() ==> has_key(insert_all(e, items), #[trigger] items[t].0),
        forall|j: int| 0 <= j < insert_all(e, items).len() ==>
            e.contains(#[trigger] insert_all(e, items)[j]) || items.contains(insert_all(e, items)[j]),
    decreases items.len(),
{
    let r = insert_all(e, items);
    if items.len() > 0 {
        let e1 = insert_entry(e, items[0].0, items[0].1);
        let rest = items.drop_first();
        lemma_insert_entry(e, items[0].0, items[0].1);
        lemma_insert_all(e1, rest);
        assert(r == insert_all(e1, rest));
        assert forall|t: int| 0 <= t < items.len() implies has_key(r, #[trigger] items[t].0) by {
            if t > 0 {
                assert(rest[t - 1] == items[t]);
            }
        }
        assert forall|j: int| 0 <= j < r.len() implies e.contains(r[j]) || items.contains(r[j]) by {
            assert(r[j] == insert_all(e1, rest)[j]);
            if rest.contains(r[j]) {
                let t = choose|t: int| 0 <= t < rest.len() && rest[t] == r[j];
                assert(items[t + 1] == rest[t]);
            } else {
                let i1 = choose|i: int| 0 <= i < e1.len() && e1[i] == r[j];
                assert(e1[i1] == insert_entry(e, items[0].0, items[0].1)[i1]);
                if e1[i1] == (items[0].0, items[0].1) {
                    assert(items[0] == r[j]);
                }
            }
        }
    } else {
        assert forall|j: int| 0 <= j < r.len() implies e.contains(r[j]) || items.contains(r[j]) by {
            assert(e[j] == r[j]);
        }
    }
}

/// Extending a map by pairs of distinct keys leaves at least as many pairs
/// as were added.
pub proof fn lemma_insert_all_len<V>(e: Seq<(Seq<char>, V)>, items: Seq<(Seq<char>, V)>)
    requires
        keys_distinct(e),
        keys_distinct(items),
    ensures
        insert_all(e, items).len() >= items.len(),
{
    let r = insert_all(e, items);
    lemma_insert_all(e, items);
    let rk = r.map_values(|p: (Seq<char>, V)| p.0);
    let ik = items.map_values(|p: (Seq<char>, V)| p.0);
    assert(rk.no_duplicates());
    assert(ik.no_duplicates());
    rk.unique_seq_to_set();
    ik.unique_seq_to_set();
    assert forall|x: Seq<char>| ik.to_set().contains(x) implies rk.to_set().contains(x) by {
        let t = choose|t: int| 0 <= t < ik.len() && ik[t] == x;
        assert(has_key(r, items[t].0));
        let j = choose|j: int| 0 <= j < r.len() && r[j].0 == x;
        assert(rk[j] == x);
    }
    vstd::set_lib::lemma_len_subset(ik.to_set(), rk.to_set());
}

} // verus!

verus! {

/// Inserting pairs whose keys occur nowhere else appends them in order.
pub proof fn lemma_insert_all_fresh<V>(e: Seq<(Seq<char>, V)>, items: Seq<(Seq<char>, V)>)
    requires
        keys_distinct(e + items),
    ensures
        insert_all(e, items) == e + items,
    decreases items.len(),
{
    if items.len() == 0 {
        assert(e + items =~= e);
    } else {
        let all = e + items;
        assert(all[e.len() as int] == items[0]);
        assert forall|i: int| 0 <= i < e.len() implies e[i].0 != items[0].0 by {
            assert(all[i] == e[i]);
        }
        let e1 = e.push(items[0]);
        assert(insert_entry(e, items[0].0, items[0].1) == e1);
        assert(e1 + items.drop_first() =~= all);
        lemma_insert_all_fresh(e1, items.drop_first());
    }
}

} // verus!
