//! Grouping positions by key, keys in the order first seen.
use crate::index::{
    pair_views, pair_slot_entries, pair_slots_get, pair_slots_insert, pair_slots_new, slot_entries, slots_get,
    slots_insert, slots_new,
};
use crate::text::views;
use vstd::prelude::*;

verus! {

/// Groups of positions, one per key.
pub type Groups = Seq<(Seq<char>, Seq<usize>)>;

/// Some group of `groups` has key `k`.
pub open spec fn has_group(groups: Groups, k: Seq<char>) -> bool {
    exists|j: int| 0 <= j < groups.len() && #[trigger] groups[j].0 == k
}

/// `groups` after position `i` with key `k`: added to the group of `k`, or
/// in a new group at the end.
pub open spec fn add_position(groups: Groups, k: Seq<char>, i: usize) -> Groups {
    if has_group(groups, k) {
        groups.map_values(
            |g: (Seq<char>, Seq<usize>)|
                if g.0 == k {
                    (g.0, g.1.push(i))
                } else {
                    g
                },
        )
    } else {
        groups.push((k, seq![i]))
    }
}

/// The positions of `keys` grouped by key, keys in the order first seen.
pub open spec fn key_groups(keys: Seq<Seq<char>>) -> Groups
    decreases keys.len(),
{
    if keys.len() == 0 {
        Seq::empty()
    } else {
        add_position(key_groups(keys.drop_last()), keys.last(), (keys.len() - 1) as usize)
    }
}

/// Every grouped position is a position of `keys`.
pub proof fn lemma_positions_bounded(keys: Seq<Seq<char>>)
    ensures
        forall|j: int, m: int|
            0 <= j < key_groups(keys).len() && 0 <= m < key_groups(keys)[j].1.len()
                ==> #[trigger] key_groups(keys)[j].1[m] < keys.len(),
    decreases keys.len(),
{
    if keys.len() > 0 {
        let prev = key_groups(keys.drop_last());
        lemma_positions_bounded(keys.drop_last());
        let cur = key_groups(keys);
        assert forall|j: int, m: int|
            0 <= j < cur.len() && 0 <= m < cur[j].1.len() implies #[trigger] cur[j].1[m]
                < keys.len() by {
            if j < prev.len() && m < prev[j].1.len() {
                assert(prev[j].1[m] < keys.len() - 1);
            }
        }
    }
}

pub open spec fn group_views(v: Seq<(String, Vec<usize>)>) -> Groups {
    v.map_values(|g: (String, Vec<usize>)| (g.0@, g.1@))
}

/// The positions of `keys` grouped by key, keys in the order first seen.
pub fn group_keys(keys: &Vec<String>) -> (r: Vec<(String, Vec<usize>)>)
    ensures
        group_views(r@) == key_groups(views(keys@)),
{
    let mut out: Vec<(String, Vec<usize>)> = Vec::new();
    let mut index = slots_new();
    let mut i: usize = 0;
    while i < keys.len()
        invariant
            i <= keys.len(),
            group_views(out@) == key_groups(views(keys@).subrange(0, i as int)),
            forall|j1: int, j2: int|
                0 <= j1 < out.len() && 0 <= j2 < out.len() && j1 != j2 ==> #[trigger] out@[j1].0@
                    != #[trigger] out@[j2].0@,
            forall|q: Seq<char>|
                #[trigger] slot_entries(index).contains_key(q) ==> slot_entries(index)[q] < out.len()
                    && out@[slot_entries(index)[q] as int].0@ == q,
            forall|j: int|
                0 <= j < out.len() ==> slot_entries(index).contains_key(#[trigger] out@[j].0@),
        decreases keys.len() - i,
    {
        let ghost prefix = views(keys@).subrange(0, i as int);
        let ghost next = views(keys@).subrange(0, i as int + 1);
        assert(next.drop_last() =~= prefix);
        assert(next.last() == keys@[i as int]@);
        let ghost before = out@;
        let ghost k = keys@[i as int]@;
        match slots_get(&index, keys[i].as_str()) {
            Some(j) => {
                out[j].1.push(i);
                assert(has_group(group_views(before), k)) by {
                    assert(group_views(before)[j as int].0 == k);
                }
                assert forall|m: int| 0 <= m < out.len() implies #[trigger] group_views(out@)[m]
                    == (if group_views(before)[m].0 == k {
                    (group_views(before)[m].0, group_views(before)[m].1.push(i))
                } else {
                    group_views(before)[m]
                }) by {
                    if m != j {
                        assert(before[m].0@ != before[j as int].0@);
                    }
                }
                assert(group_views(out@) =~= add_position(group_views(before), k, i));
            },
            None => {
                assert(!has_group(group_views(before), k)) by {
                    if has_group(group_views(before), k) {
                        let j = choose|j: int|
                            0 <= j < group_views(before).len() && #[trigger] group_views(before)[j].0
                                == k;
                        assert(slot_entries(index).contains_key(before[j].0@));
                    }
                }
                let mut positions: Vec<usize> = Vec::new();
                positions.push(i);
                let n = out.len();
                slots_insert(&mut index, keys[i].clone(), n);
                out.push((keys[i].clone(), positions));
                assert(group_views(out@) =~= group_views(before).push((k, seq![i])));
            },
        }
        i = i + 1;
    }
    assert(views(keys@).subrange(0, keys.len() as int) =~= views(keys@));
    out
}

/// Groups of positions, one per pair of keys.
pub type PairGroups = Seq<((Seq<char>, Seq<char>), Seq<usize>)>;

/// Some group of `groups` has key `k`.
pub open spec fn has_pair_group(groups: PairGroups, k: (Seq<char>, Seq<char>)) -> bool {
    exists|j: int| 0 <= j < groups.len() && #[trigger] groups[j].0 == k
}

/// `groups` after position `i` with key `k`.
pub open spec fn add_pair_position(groups: PairGroups, k: (Seq<char>, Seq<char>), i: usize) -> PairGroups {
    if has_pair_group(groups, k) {
        groups.map_values(
            |g: ((Seq<char>, Seq<char>), Seq<usize>)|
                if g.0 == k {
                    (g.0, g.1.push(i))
                } else {
                    g
                },
        )
    } else {
        groups.push((k, seq![i]))
    }
}

/// The positions of `keys` grouped by key, keys in the order first seen.
pub open spec fn pair_key_groups(keys: Seq<(Seq<char>, Seq<char>)>) -> PairGroups
    decreases keys.len(),
{
    if keys.len() == 0 {
        Seq::empty()
    } else {
        add_pair_position(pair_key_groups(keys.drop_last()), keys.last(), (keys.len() - 1) as usize)
    }
}

pub open spec fn pair_group_views(v: Seq<((String, String), Vec<usize>)>) -> PairGroups {
    v.map_values(|g: ((String, String), Vec<usize>)| ((g.0.0@, g.0.1@), g.1@))
}

/// Every grouped position is a position of `keys`.
pub proof fn lemma_pair_positions_bounded(keys: Seq<(Seq<char>, Seq<char>)>)
    ensures
        forall|j: int, m: int|
            0 <= j < pair_key_groups(keys).len() && 0 <= m < pair_key_groups(keys)[j].1.len()
                ==> #[trigger] pair_key_groups(keys)[j].1[m] < keys.len(),
    decreases keys.len(),
{
    if keys.len() > 0 {
        let prev = pair_key_groups(keys.drop_last());
        lemma_pair_positions_bounded(keys.drop_last());
        let cur = pair_key_groups(keys);
        assert forall|j: int, m: int|
            0 <= j < cur.len() && 0 <= m < cur[j].1.len() implies #[trigger] cur[j].1[m]
                < keys.len() by {
            if j < prev.len() && m < prev[j].1.len() {
                assert(prev[j].1[m] < keys.len() - 1);
            }
        }
    }
}

/// The positions of `keys` grouped by pair, pairs in the order first seen.
pub fn group_pairs(keys: &Vec<(String, String)>) -> (r: Vec<((String, String), Vec<usize>)>)
    ensures
        pair_group_views(r@) == pair_key_groups(pair_views(keys@)),
{
    let mut out: Vec<((String, String), Vec<usize>)> = Vec::new();
    let mut index = pair_slots_new();
    let mut i: usize = 0;
    while i < keys.len()
        invariant
            i <= keys.len(),
            pair_group_views(out@) == pair_key_groups(pair_views(keys@).subrange(0, i as int)),
            forall|j1: int, j2: int|
                0 <= j1 < out.len() && 0 <= j2 < out.len() && j1 != j2 ==> #[trigger] pair_group_views(out@)[j1].0
                    != #[trigger] pair_group_views(out@)[j2].0,
            forall|q: (Seq<char>, Seq<char>)|
                #[trigger] pair_slot_entries(index).contains_key(q) ==> pair_slot_entries(index)[q]
                    < out.len() && pair_group_views(out@)[pair_slot_entries(index)[q] as int].0 == q,
            forall|j: int|
                0 <= j < out.len() ==> pair_slot_entries(index).contains_key(
                    #[trigger] pair_group_views(out@)[j].0,
                ),
        decreases keys.len() - i,
    {
        let ghost prefix = pair_views(keys@).subrange(0, i as int);
        let ghost next = pair_views(keys@).subrange(0, i as int + 1);
        assert(next.drop_last() =~= prefix);
        let ghost k = (keys@[i as int].0@, keys@[i as int].1@);
        assert(next.last() == k);
        let ghost before = pair_group_views(out@);
        match pair_slots_get(&index, &keys[i].0, &keys[i].1) {
            Some(j) => {
                out[j].1.push(i);
                assert(has_pair_group(before, k)) by {
                    assert(before[j as int].0 == k);
                }
                assert forall|m: int| 0 <= m < out.len() implies #[trigger] pair_group_views(out@)[m]
                    == (if before[m].0 == k {
                    (before[m].0, before[m].1.push(i))
                } else {
                    before[m]
                }) by {
                    if m != j {
                        assert(before[m].0 != before[j as int].0);
                    }
                }
                assert(pair_group_views(out@) =~= add_pair_position(before, k, i));
            },
            None => {
                assert(!has_pair_group(before, k)) by {
                    if has_pair_group(before, k) {
                        let j = choose|j: int| 0 <= j < before.len() && #[trigger] before[j].0 == k;
                        assert(pair_slot_entries(index).contains_key(before[j].0));
                    }
                }
                let mut positions: Vec<usize> = Vec::new();
                positions.push(i);
                let n = out.len();
                pair_slots_insert(&mut index, keys[i].0.clone(), keys[i].1.clone(), n);
                out.push(((keys[i].0.clone(), keys[i].1.clone()), positions));
                assert(pair_group_views(out@) =~= before.push((k, seq![i])));
            },
        }
        i = i + 1;
    }
    assert(pair_views(keys@).subrange(0, keys.len() as int) =~= pair_views(keys@));
    out
}

} // verus!
