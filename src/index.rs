//! The insertion-ordered hash map of the `indexmap` crate: it finds the slot
//! of a query by its text, and keeps the entries of a lexc test set in the
//! order in which they were first defined.
use indexmap::IndexMap;
use std::hash::RandomState;
use vstd::prelude::*;

verus! {

#[verifier::external_type_specification]
#[verifier::external_body]
#[verifier::reject_recursive_types(K)]
#[verifier::reject_recursive_types(V)]
#[verifier::reject_recursive_types(S)]
pub struct ExIndexMap<K, V, S>(IndexMap<K, V, S>);

/// A map from query text to slot number.
pub type SlotMap = IndexMap<String, usize, RandomState>;

/// The entries of a slot map.
pub uninterp spec fn slot_entries(m: SlotMap) -> Map<Seq<char>, usize>;

/// Relies on `IndexMap::new`: a new map holds no entry.
#[verifier::external_body]
pub(crate) fn slots_new() -> (r: SlotMap)
    ensures
        slot_entries(r).dom() == Set::<Seq<char>>::empty(),
{
    IndexMap::new()
}

/// Relies on `IndexMap::insert`: after it `key` maps to `value` and the other
/// entries stay (keys are compared as `String`s, that is by their characters).
#[verifier::external_body]
pub(crate) fn slots_insert(m: &mut SlotMap, key: String, value: usize)
    ensures
        slot_entries(*final(m)) == slot_entries(*old(m)).insert(key@, value),
{
    m.insert(key, value);
}

/// Relies on `IndexMap::get`: the value stored for `key`, if any.
#[verifier::external_body]
pub(crate) fn slots_get(m: &SlotMap, key: &str) -> (r: Option<usize>)
    ensures
        r == (if slot_entries(*m).contains_key(key@) {
            Some(slot_entries(*m)[key@])
        } else {
            None::<usize>
        }),
{
    m.get(key).copied()
}

/// An ordered map from surface form to analysis.
pub type EntryMap = IndexMap<String, String, RandomState>;

/// The entries of an ordered map, in order.
pub uninterp spec fn entry_pairs(m: EntryMap) -> Seq<(Seq<char>, Seq<char>)>;

/// `entries` holds an entry for key `k`.
pub open spec fn has_key(entries: Seq<(Seq<char>, Seq<char>)>, k: Seq<char>) -> bool {
    exists|i: int| 0 <= i < entries.len() && #[trigger] entries[i].0 == k
}

/// `entries` after inserting `v` at key `k`: an entry for `k` keeps its place
/// and takes the new value; otherwise the entry goes last.
pub open spec fn keyed_insert(entries: Seq<(Seq<char>, Seq<char>)>, k: Seq<char>, v: Seq<char>) -> Seq<
    (Seq<char>, Seq<char>),
> {
    if has_key(entries, k) {
        entries.map_values(
            |p: (Seq<char>, Seq<char>)|
                if p.0 == k {
                    (k, v)
                } else {
                    p
                },
        )
    } else {
        entries.push((k, v))
    }
}

/// Views of pairs of strings.
pub open spec fn pair_views(v: Seq<(String, String)>) -> Seq<(Seq<char>, Seq<char>)> {
    v.map_values(|p: (String, String)| (p.0@, p.1@))
}

/// Relies on `IndexMap::new`: a new map holds no entry.
#[verifier::external_body]
pub(crate) fn entries_new() -> (r: EntryMap)
    ensures
        entry_pairs(r).len() == 0,
{
    IndexMap::new()
}

/// Relies on `IndexMap::insert`: an existing key keeps its place and takes
/// the new value; a new key goes last.
#[verifier::external_body]
pub(crate) fn entries_insert(m: &mut EntryMap, key: String, value: String)
    ensures
        entry_pairs(*final(m)) == keyed_insert(entry_pairs(*old(m)), key@, value@),
{
    m.insert(key, value);
}

/// Relies on `IndexMap::len`: the number of entries.
#[verifier::external_body]
pub(crate) fn entries_len(m: &EntryMap) -> (r: usize)
    ensures
        r == entry_pairs(*m).len(),
{
    m.len()
}

/// Relies on `IndexMap::iter`: the entries in order, copied.
#[verifier::external_body]
pub(crate) fn entries_list(m: &EntryMap) -> (r: Vec<(String, String)>)
    ensures
        pair_views(r@) == entry_pairs(*m),
{
    m.iter().map(|(k, v)| (k.clone(), v.clone())).collect()
}

/// A map from a pair of strings to a slot number.
pub type PairSlotMap = IndexMap<(String, String), usize, RandomState>;

/// The entries of a pair slot map.
pub uninterp spec fn pair_slot_entries(m: PairSlotMap) -> Map<(Seq<char>, Seq<char>), usize>;

/// Relies on `IndexMap::new`: a new map holds no entry.
#[verifier::external_body]
pub(crate) fn pair_slots_new() -> (r: PairSlotMap)
    ensures
        pair_slot_entries(r).dom() == Set::<(Seq<char>, Seq<char>)>::empty(),
{
    IndexMap::new()
}

/// Relies on `IndexMap::insert`: after it the pair maps to `value` and the
/// other entries stay (pairs are compared field by field, as `String`s).
#[verifier::external_body]
pub(crate) fn pair_slots_insert(m: &mut PairSlotMap, a: String, b: String, value: usize)
    ensures
        pair_slot_entries(*final(m)) == pair_slot_entries(*old(m)).insert((a@, b@), value),
{
    m.insert((a, b), value);
}

/// Relies on `IndexMap::get`: the value stored for the pair, if any.
#[verifier::external_body]
pub(crate) fn pair_slots_get(m: &PairSlotMap, a: &String, b: &String) -> (r: Option<usize>)
    ensures
        r == (if pair_slot_entries(*m).contains_key((a@, b@)) {
            Some(pair_slot_entries(*m)[(a@, b@)])
        } else {
            None::<usize>
        }),
{
    m.get(&(a.clone(), b.clone())).copied()
}

} // verus!
