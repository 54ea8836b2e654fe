//! Insertion-ordered maps from names, as `indexmap::IndexMap` keeps them:
//! the entries in insertion order, each key at most once.

use vstd::prelude::*;

use crate::ir::{CommandView, EnumView, RawCommand, RawEnum};
use indexmap::IndexMap;

verus! {

#[verifier::external_type_specification]
#[verifier::external_body]
#[verifier::reject_recursive_types(K)]
#[verifier::reject_recursive_types(V)]
#[verifier::reject_recursive_types(S)]
pub struct ExIndexMap<K, V, S>(indexmap::IndexMap<K, V, S>);

/// The entries of a name → text map, in order.
pub uninterp spec fn text_entries(m: IndexMap<String, String>) -> Seq<(Seq<char>, Seq<char>)>;

/// Position of the first entry with key `k`.
pub open spec fn key_pos<V>(es: Seq<(Seq<char>, V)>, k: Seq<char>) -> Option<int>
    decreases es.len(),
{
    if es.len() == 0 {
        None
    } else if es.last().0 == k && key_pos(es.drop_last(), k) is None {
        Some(es.len() - 1)
    } else {
        key_pos(es.drop_last(), k)
    }
}

/// The value stored for key `k`.
pub open spec fn entry_value<V>(es: Seq<(Seq<char>, V)>, k: Seq<char>) -> Option<V> {
    match key_pos(es, k) {
        Some(p) => Some(es[p].1),
        None => None,
    }
}

/// `IndexMap::insert`: an existing key keeps its place and takes the new
/// value; a new key goes last.
pub open spec fn entry_insert<V>(es: Seq<(Seq<char>, V)>, k: Seq<char>, v: V) -> Seq<(Seq<char>, V)> {
    match key_pos(es, k) {
        Some(p) => es.update(p, (es[p].0, v)),
        None => es.push((k, v)),
    }
}

/// `i` is a position of `es`.
pub open spec fn has_index<V>(es: Seq<(Seq<char>, V)>, i: int) -> bool {
    0 <= i < es.len()
}

/// A found key sits at its position.
pub proof fn lemma_key_pos_found<V>(es: Seq<(Seq<char>, V)>, k: Seq<char>)
    ensures
        key_pos(es, k) matches Some(p) ==> 0 <= p < es.len() && es[p].0 == k,
    decreases es.len(),
{
    if es.len() > 0 {
        lemma_key_pos_found(es.drop_last(), k);
    }
}

/// A key without a position has no entry.
pub proof fn lemma_key_pos_absent<V>(es: Seq<(Seq<char>, V)>, k: Seq<char>)
    ensures
        key_pos(es, k) is None ==> forall|i: int| 0 <= i < es.len() ==> (#[trigger] es[i]).0 != k,
    decreases es.len(),
{
    if es.len() > 0 {
        lemma_key_pos_absent(es.drop_last(), k);
        if key_pos(es, k) is None {
            assert forall|i: int| 0 <= i < es.len() implies (#[trigger] es[i]).0 != k by {
                if i < es.len() - 1 {
                    assert(es[i] == es.drop_last()[i]);
                }
            }
        }
    }
}

/// Positions depend on the keys alone.
pub proof fn lemma_key_pos_same_keys<V, W>(a: Seq<(Seq<char>, V)>, b: Seq<(Seq<char>, W)>, k: Seq<char>)
    requires
        a.len() == b.len(),
        forall|i: int| 0 <= i < a.len() ==> #[trigger] a[i].0 == b[i].0,
    ensures
        key_pos(a, k) == key_pos(b, k),
    decreases a.len(),
{
    if a.len() > 0 {
        lemma_key_pos_same_keys(a.drop_last(), b.drop_last(), k);
    }
}

/// After an insert, the key holds the new value and every other key its
/// old one.
pub proof fn lemma_entry_insert_value<V>(es: Seq<(Seq<char>, V)>, k: Seq<char>, v: V, other: Seq<char>)
    ensures
        entry_value(entry_insert(es, k, v), other) == (if other == k {
            Some(v)
        } else {
            entry_value(es, other)
        }),
{
    lemma_key_pos_found(es, k);
    lemma_key_pos_found(es, other);
    match key_pos(es, k) {
        Some(p) => {
            let up = es.update(p, (es[p].0, v));
            lemma_key_pos_same_keys(up, es, other);
        },
        None => {
            assert(es.push((k, v)).drop_last() =~= es);
        },
    }
}

/// `IndexMap::new`: no entries.
#[verifier::external_body]
pub(crate) fn text_map_new() -> (r: IndexMap<String, String>)
    ensures
        text_entries(r) == Seq::<(Seq<char>, Seq<char>)>::empty(),
{
    IndexMap::new()
}

/// `IndexMap::insert`: an existing key keeps its place and takes the new
/// value; a new key goes last.
#[verifier::external_body]
pub(crate) fn text_map_insert(m: &mut IndexMap<String, String>, k: String, v: String)
    ensures
        text_entries(*final(m)) == entry_insert(text_entries(*old(m)), k@, v@),
{
    m.insert(k, v);
}

/// `IndexMap::get`: the value stored for the key, if any.
#[verifier::external_body]
pub(crate) fn text_map_get<'a>(m: &'a IndexMap<String, String>, k: &str) -> (r: Option<&'a String>)
    ensures
        match entry_value(text_entries(*m), k@) {
            Some(v) => r matches Some(s) && s@ == v,
            None => r is None,
        },
{
    m.get(k)
}

/// The entries of a command-name → command map, in order.
pub uninterp spec fn command_entries(m: IndexMap<String, RawCommand>) -> Seq<(Seq<char>, CommandView)>;

/// `IndexMap::new`: no entries.
#[verifier::external_body]
pub(crate) fn command_map_new() -> (r: IndexMap<String, RawCommand>)
    ensures
        command_entries(r) == Seq::<(Seq<char>, CommandView)>::empty(),
{
    IndexMap::new()
}

/// `IndexMap::len`: the number of entries.
#[verifier::external_body]
pub(crate) fn command_map_len(m: &IndexMap<String, RawCommand>) -> (r: usize)
    ensures
        r == command_entries(*m).len(),
{
    m.len()
}

/// `IndexMap::insert`: an existing key keeps its place and takes the new
/// value; a new key goes last.
#[verifier::external_body]
pub(crate) fn command_map_insert(m: &mut IndexMap<String, RawCommand>, k: String, v: RawCommand)
    ensures
        command_entries(*final(m)) == entry_insert(command_entries(*old(m)), k@, v@),
{
    m.insert(k, v);
}

/// `IndexMap::get`: the value stored for the key, if any.
#[verifier::external_body]
pub(crate) fn command_map_get<'a>(m: &'a IndexMap<String, RawCommand>, k: &str) -> (r: Option<&'a RawCommand>)
    ensures
        match entry_value(command_entries(*m), k@) {
            Some(v) => r matches Some(c) && c@ == v,
            None => r is None,
        },
{
    m.get(k)
}

/// `IndexMap::get_index`, keeping the value: the value at a position, if
/// there is one.
#[verifier::external_body]
pub(crate) fn command_map_value_at<'a>(m: &'a IndexMap<String, RawCommand>, i: usize) -> (r: Option<&'a RawCommand>)
    ensures
        match r {
            Some(v) => has_index(command_entries(*m), i as int) && v@ == command_entries(*m)[i as int].1,
            None => !has_index(command_entries(*m), i as int),
        },
{
    m.get_index(i).map(|e| e.1)
}

/// The entries of an enum-name → enum map, in order.
pub uninterp spec fn enum_entries(m: IndexMap<String, RawEnum>) -> Seq<(Seq<char>, EnumView)>;

/// `IndexMap::new`: no entries.
#[verifier::external_body]
pub(crate) fn enum_map_new() -> (r: IndexMap<String, RawEnum>)
    ensures
        enum_entries(r) == Seq::<(Seq<char>, EnumView)>::empty(),
{
    IndexMap::new()
}

/// `IndexMap::insert`: an existing key keeps its place and takes the new
/// value; a new key goes last.
#[verifier::external_body]
pub(crate) fn enum_map_insert(m: &mut IndexMap<String, RawEnum>, k: String, v: RawEnum)
    ensures
        enum_entries(*final(m)) == entry_insert(enum_entries(*old(m)), k@, v@),
{
    m.insert(k, v);
}

/// `IndexMap::contains_key`: whether the key has an entry.
#[verifier::external_body]
pub(crate) fn enum_map_contains(m: &IndexMap<String, RawEnum>, k: &str) -> (r: bool)
    ensures
        r == (entry_value(enum_entries(*m), k@) is Some),
{
    m.contains_key(k)
}

/// `IndexMap::into_values`, collected: the values in entry order.
#[verifier::external_body]
pub(crate) fn enum_map_into_values(m: IndexMap<String, RawEnum>) -> (r: Vec<RawEnum>)
    ensures
        r@.map_values(|e: RawEnum| e@) == enum_entries(m).map_values(|e: (Seq<char>, EnumView)| e.1),
{
    m.into_values().collect()
}

/// The entries of a group-name → position map, in order.
pub uninterp spec fn index_entries(m: IndexMap<String, usize>) -> Seq<(Seq<char>, usize)>;

/// `IndexMap::new`: no entries.
#[verifier::external_body]
pub(crate) fn index_map_new() -> (r: IndexMap<String, usize>)
    ensures
        index_entries(r) == Seq::<(Seq<char>, usize)>::empty(),
{
    IndexMap::new()
}

/// `IndexMap::insert`: an existing key keeps its place and takes the new
/// value; a new key goes last.
#[verifier::external_body]
pub(crate) fn index_map_insert(m: &mut IndexMap<String, usize>, k: String, v: usize)
    ensures
        index_entries(*final(m)) == entry_insert(index_entries(*old(m)), k@, v),
{
    m.insert(k, v);
}

/// `IndexMap::get`: the value stored for the key, if any.
#[verifier::external_body]
pub(crate) fn index_map_get(m: &IndexMap<String, usize>, k: &str) -> (r: Option<usize>)
    ensures
        r == entry_value(index_entries(*m), k@),
{
    m.get(k).copied()
}


/// The entries of a name → positions map, in order.
pub uninterp spec fn position_entries(m: IndexMap<String, Vec<usize>>) -> Seq<(Seq<char>, Seq<usize>)>;

/// `IndexMap::new`: no entries.
#[verifier::external_body]
pub(crate) fn positions_new() -> (r: IndexMap<String, Vec<usize>>)
    ensures
        position_entries(r) == Seq::<(Seq<char>, Seq<usize>)>::empty(),
{
    IndexMap::new()
}

/// `entry(k).or_default().push(i)`: the key's list (a new, empty one
/// last for a new key) gains `i` at its end.
#[verifier::external_body]
pub(crate) fn positions_add(m: &mut IndexMap<String, Vec<usize>>, k: String, i: usize)
    ensures
        position_entries(*final(m)) == entry_insert(
            position_entries(*old(m)),
            k@,
            match entry_value(position_entries(*old(m)), k@) {
                Some(v) => v.push(i),
                None => seq![i],
            },
        ),
{
    m.entry(k).or_default().push(i);
}

/// `IndexMap::get`: the list stored for the key, if any.
#[verifier::external_body]
pub(crate) fn positions_get<'a>(m: &'a IndexMap<String, Vec<usize>>, k: &str) -> (r: Option<&'a Vec<usize>>)
    ensures
        match entry_value(position_entries(*m), k@) {
            Some(v) => r matches Some(x) && x@ == v,
            None => r is None,
        },
{
    m.get(k)
}

} // verus!
