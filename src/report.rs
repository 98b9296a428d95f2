//! Counting for reports: each expected string of a case is one check, and
//! unexpected analyses count as one more failed check when they are not
//! tolerated.
use crate::types::{CaseResult, Direction};
use crate::codec::holds_string;
use crate::i18n::{t, text_of, Localizer};
use crate::yaml::{distinct, push_new, sort_strings, sorted_views};
use crate::group::{group_pairs, pair_group_views, pair_key_groups};
use crate::index::pair_views;
use crate::text::{chars_of, string_of_range, view_set, views};
use vstd::prelude::*;

verus! {

/// The layouts in which a report can be printed.
#[derive(Copy, Clone, Debug, Eq, PartialEq, Structural)]
pub enum OutputKind {
    Normal,
    Compact,
    Terse,
    Final,
}

/// The message key that names direction `d`.
pub open spec fn direction_key(d: Direction) -> Seq<char> {
    match d {
        Direction::Generate => seq![
            'd', 'i', 'r', 'e', 'c', 't', 'i', 'o', 'n', '-', 'g', 'e', 'n', 'e', 'r', 'a', 't', 'e',
        ],
        Direction::Analyze => seq![
            'd', 'i', 'r', 'e', 'c', 't', 'i', 'o', 'n', '-', 'a', 'n', 'a', 'l', 'y', 'z', 'e',
        ],
    }
}

/// The localized name of direction `dir`.
pub fn mode_label(localizer: &Localizer, dir: Direction) -> (r: String)
    ensures
        r@ == text_of(localizer.entries(), direction_key(dir)),
{
    proof {
        reveal_strlit("direction-generate");
        reveal_strlit("direction-analyze");
    }
    match dir {
        Direction::Generate => {
            assert("direction-generate"@ =~= direction_key(dir));
            t(localizer, "direction-generate")
        },
        Direction::Analyze => {
            assert("direction-analyze"@ =~= direction_key(dir));
            t(localizer, "direction-analyze")
        },
    }
}

/// A case with no expected string passes its single check when extra
/// analyses are tolerated for it, or else when it got no result.
pub open spec fn empty_expected_passes(c: CaseResult, ignore_extra_analyses: bool) -> bool {
    if c.direction == Direction::Analyze && ignore_extra_analyses {
        true
    } else {
        c.actual@.len() == 0
    }
}

/// The number of entries of `expected` that are in `actual`.
pub open spec fn hits(expected: Seq<Seq<char>>, actual: Set<Seq<char>>) -> nat
    decreases expected.len(),
{
    if expected.len() == 0 {
        0
    } else {
        hits(expected.drop_last(), actual) + (if actual.contains(expected.last()) {
            1nat
        } else {
            0nat
        })
    }
}

/// An analysis case got results that were not expected, and that is counted.
pub open spec fn extras_fail(c: CaseResult, ignore_extra_analyses: bool) -> bool {
    !ignore_extra_analyses && c.direction == Direction::Analyze && !view_set(c.actual@).subset_of(
        view_set(c.expected@),
    )
}

/// Passed, failed and total checks of one case.
pub open spec fn case_counts(c: CaseResult, ignore_extra_analyses: bool) -> (nat, nat, nat) {
    let extra: nat = if extras_fail(c, ignore_extra_analyses) {
        1
    } else {
        0
    };
    if c.expected@.len() == 0 {
        if empty_expected_passes(c, ignore_extra_analyses) {
            (1, extra, 1 + extra)
        } else {
            (0, 1 + extra, 1 + extra)
        }
    } else {
        let h = hits(views(c.expected@), view_set(c.actual@));
        (h, (c.expected@.len() - h) as nat + extra, c.expected@.len() + extra)
    }
}

/// Passed, failed and total checks over `cases`.
pub open spec fn expectation_counts(cases: Seq<CaseResult>, ignore_extra_analyses: bool) -> (
    nat,
    nat,
    nat,
)
    decreases cases.len(),
{
    if cases.len() == 0 {
        (0, 0, 0)
    } else {
        let prev = expectation_counts(cases.drop_last(), ignore_extra_analyses);
        let cur = case_counts(cases.last(), ignore_extra_analyses);
        (prev.0 + cur.0, prev.1 + cur.1, prev.2 + cur.2)
    }
}

proof fn lemma_hits_bound(expected: Seq<Seq<char>>, actual: Set<Seq<char>>)
    ensures
        hits(expected, actual) <= expected.len(),
    decreases expected.len(),
{
    if expected.len() > 0 {
        lemma_hits_bound(expected.drop_last(), actual);
    }
}

proof fn lemma_counts_add_up(cases: Seq<CaseResult>, ignore_extra_analyses: bool)
    ensures
        expectation_counts(cases, ignore_extra_analyses).0 + expectation_counts(
            cases,
            ignore_extra_analyses,
        ).1 == expectation_counts(cases, ignore_extra_analyses).2,
    decreases cases.len(),
{
    if cases.len() > 0 {
        lemma_counts_add_up(cases.drop_last(), ignore_extra_analyses);
        let c = cases.last();
        lemma_hits_bound(views(c.expected@), view_set(c.actual@));
    }
}

/// Whether a case with no expected string passes its single check.
pub fn is_pass_empty_expected(case: &CaseResult, ignore_extra_analyses: bool) -> (r: bool)
    ensures
        r == empty_expected_passes(*case, ignore_extra_analyses),
{
    if case.direction == Direction::Analyze && ignore_extra_analyses {
        true
    } else {
        case.actual.len() == 0
    }
}

/// Whether every actual string of `case` is expected.
fn actual_within_expected(case: &CaseResult) -> (r: bool)
    ensures
        r == view_set(case.actual@).subset_of(view_set(case.expected@)),
{
    let mut i: usize = 0;
    while i < case.actual.len()
        invariant
            i <= case.actual.len(),
            forall|k: int| 0 <= k < i ==> views(case.expected@).contains(#[trigger] case.actual@[k]@),
        decreases case.actual.len() - i,
    {
        if !holds_string(case.expected.as_slice(), &case.actual[i]) {
            assert(views(case.actual@)[i as int] == case.actual@[i as int]@);
            assert(view_set(case.actual@).contains(case.actual@[i as int]@));
            return false;
        }
        i = i + 1;
    }
    assert forall|x: Seq<char>| view_set(case.actual@).contains(x) implies view_set(
        case.expected@,
    ).contains(x) by {
        let k = choose|k: int| 0 <= k < views(case.actual@).len() && views(case.actual@)[k] == x;
        assert(case.actual@[k]@ == x);
    }
    true
}

/// The number of expected strings of `case` that are among its actual ones.
fn count_hits(case: &CaseResult) -> (r: usize)
    ensures
        r == hits(views(case.expected@), view_set(case.actual@)),
{
    let mut n: usize = 0;
    let mut i: usize = 0;
    while i < case.expected.len()
        invariant
            i <= case.expected.len(),
            n == hits(views(case.expected@).subrange(0, i as int), view_set(case.actual@)),
            n <= i,
        decreases case.expected.len() - i,
    {
        let ghost s1 = views(case.expected@).subrange(0, i as int + 1);
        assert(s1.drop_last() =~= views(case.expected@).subrange(0, i as int));
        assert(s1.last() == case.expected@[i as int]@);
        if holds_string(case.actual.as_slice(), &case.expected[i]) {
            n = n + 1;
        }
        i = i + 1;
    }
    assert(views(case.expected@).subrange(0, case.expected.len() as int) =~= views(
        case.expected@,
    ));
    n
}

/// Passed, failed and total checks over `cases`, or `None` when the total
/// does not fit in a `usize`.
pub fn calculate_counts(cases: &[CaseResult], ignore_extra_analyses: bool) -> (r: Option<
    (usize, usize, usize),
>)
    ensures
        r is Some <==> expectation_counts(cases@, ignore_extra_analyses).2 <= usize::MAX,
        r matches Some(t) ==> (t.0 as nat, t.1 as nat, t.2 as nat) == expectation_counts(
            cases@,
            ignore_extra_analyses,
        ),
{
    let mut passes: usize = 0;
    let mut fails: usize = 0;
    let mut checks: usize = 0;
    let mut i: usize = 0;
    while i < cases.len()
        invariant
            i <= cases.len(),
            (passes as nat, fails as nat, checks as nat) == expectation_counts(
                cases@.subrange(0, i as int),
                ignore_extra_analyses,
            ),
        decreases cases.len() - i,
    {
        let ghost s1 = cases@.subrange(0, i as int + 1);
        assert(s1.drop_last() =~= cases@.subrange(0, i as int));
        proof {
            lemma_counts_add_up(cases@.subrange(0, i as int), ignore_extra_analyses);
        }
        let case = &cases[i];
        let extra: usize = if !ignore_extra_analyses && case.direction == Direction::Analyze
            && !actual_within_expected(case) {
            1
        } else {
            0
        };
        let (p, f, t): (usize, usize, usize) = if case.expected.len() == 0 {
            if is_pass_empty_expected(case, ignore_extra_analyses) {
                (1, extra, 1 + extra)
            } else {
                (0, 1 + extra, 1 + extra)
            }
        } else {
            let h = count_hits(case);
            proof {
                lemma_hits_bound(views(case.expected@), view_set(case.actual@));
            }
            if case.expected.len() > usize::MAX - extra {
                proof {
                    lemma_counts_monotone(cases@, i as int + 1, ignore_extra_analyses);
                }
                return None;
            }
            (h, case.expected.len() - h + extra, case.expected.len() + extra)
        };
        if checks > usize::MAX - t {
            proof {
                lemma_counts_monotone(cases@, i as int + 1, ignore_extra_analyses);
            }
            return None;
        }
        passes = passes + p;
        fails = fails + f;
        checks = checks + t;
        i = i + 1;
    }
    assert(cases@.subrange(0, cases.len() as int) =~= cases@);
    Some((passes, fails, checks))
}

/// Checks only accumulate: a prefix has no more than the whole.
proof fn lemma_counts_monotone(cases: Seq<CaseResult>, i: int, ignore_extra_analyses: bool)
    requires
        0 <= i <= cases.len(),
    ensures
        expectation_counts(cases.subrange(0, i), ignore_extra_analyses).2 <= expectation_counts(
            cases,
            ignore_extra_analyses,
        ).2,
    decreases cases.len() - i,
{
    if i < cases.len() {
        lemma_counts_monotone(cases, i + 1, ignore_extra_analyses);
        let s1 = cases.subrange(0, i + 1);
        assert(s1.drop_last() =~= cases.subrange(0, i));
    } else {
        assert(cases.subrange(0, i) =~= cases);
    }
}

/// `name` holds `: ` at position `i`.
pub open spec fn colon_at(name: Seq<char>, i: int) -> bool {
    0 <= i && i + 2 <= name.len() && name[i] == ':' && name[i + 1] == ' '
}

/// The position of the first `: ` in `name`, if any.
#[verifier::opaque]
pub open spec fn first_colon(name: Seq<char>) -> Option<int> {
    if exists|i: int| #[trigger] colon_at(name, i) {
        Some(choose|i: int| #[trigger] colon_at(name, i) && forall|j: int| 0 <= j < i ==> !colon_at(name, j))
    } else {
        None
    }
}

/// The group of a case name `group: rest`, or the whole name.
pub open spec fn group_of(name: Seq<char>) -> Seq<char> {
    match first_colon(name) {
        Some(i) => name.subrange(0, i),
        None => name,
    }
}

/// The part of a case name after its group, or nothing.
pub open spec fn rest_of(name: Seq<char>) -> Seq<char> {
    match first_colon(name) {
        Some(i) => name.subrange(i + 2, name.len() as int),
        None => Seq::empty(),
    }
}

proof fn lemma_first_colon(t: Seq<char>, i: int)
    requires
        colon_at(t, i),
        forall|j: int| 0 <= j < i ==> !colon_at(t, j),
    ensures
        first_colon(t) == Some(i),
{
    reveal(first_colon);
    let k = choose|k: int| #[trigger] colon_at(t, k) && forall|j: int| 0 <= j < k ==> !colon_at(t, j);
    if k < i {
        assert(!colon_at(t, k));
    } else if k > i {
        assert(!colon_at(t, i));
    }
}

proof fn lemma_no_colon(t: Seq<char>)
    requires
        forall|j: int| 0 <= j < t.len() ==> !colon_at(t, j),
    ensures
        first_colon(t) is None,
{
    reveal(first_colon);
    if exists|j: int| #[trigger] colon_at(t, j) {
        let j = choose|j: int| #[trigger] colon_at(t, j);
        assert(j < t.len());
    }
}

/// Splits a case name `group: rest` at its first `: `.
pub fn parse_group(name: &str) -> (r: (String, String))
    ensures
        r.0@ == group_of(name@),
        r.1@ == rest_of(name@),
{
    let v = chars_of(name);
    let mut i: usize = 0;
    while i < v.len()
        invariant
            i <= v.len(),
            v@ == name@,
            forall|j: int| 0 <= j < i ==> !colon_at(v@, j),
        decreases v.len() - i,
    {
        if i + 1 < v.len() && v[i] == ':' && v[i + 1] == ' ' {
            proof {
                lemma_first_colon(v@, i as int);
            }
            return (string_of_range(&v, 0, i), string_of_range(&v, i + 2, v.len()));
        }
        i = i + 1;
    }
    proof {
        lemma_no_colon(v@);
    }
    let empty = string_of_range(&v, 0, 0);
    assert(empty@ =~= Seq::<char>::empty());
    let whole = string_of_range(&v, 0, v.len());
    assert(whole@ =~= v@);
    (whole, empty)
}

/// The tag under which a direction's cases are grouped.
pub open spec fn direction_tag(d: Direction) -> Seq<char> {
    match d {
        Direction::Analyze => seq!['a'],
        Direction::Generate => seq!['g'],
    }
}

/// The direction that a tag stands for.
pub open spec fn tag_direction(t: Seq<char>) -> Direction {
    if t == seq!['a'] {
        Direction::Analyze
    } else {
        Direction::Generate
    }
}

/// The block key of each case: its group and its direction.
pub open spec fn block_keys(entries: Seq<(String, Direction)>) -> Seq<(Seq<char>, Seq<char>)> {
    entries.map_values(|e: (String, Direction)| (group_of(e.0@), direction_tag(e.1)))
}

/// The cases of one group in one direction.
pub struct Block {
    pub group: String,
    pub direction: Direction,
    /// Positions of the cases, in order.
    pub positions: Vec<usize>,
}

/// The blocks of a report: cases grouped by the group of their name and
/// their direction, blocks in the order first seen.
pub fn report_blocks(entries: &Vec<(String, Direction)>) -> (r: Vec<Block>)
    ensures
        r.len() == pair_key_groups(block_keys(entries@)).len(),
        forall|k: int|
            0 <= k < r.len() ==> {
                let g = pair_key_groups(block_keys(entries@))[k];
                &&& (#[trigger] r@[k]).group@ == g.0.0
                &&& r@[k].direction == tag_direction(g.0.1)
                &&& r@[k].positions@ == g.1
            },
{
    let mut keys: Vec<(String, String)> = Vec::new();
    let mut i: usize = 0;
    while i < entries.len()
        invariant
            i <= entries.len(),
            pair_views(keys@) == block_keys(entries@).subrange(0, i as int),
        decreases entries.len() - i,
    {
        let (group, _) = parse_group(entries[i].0.as_str());
        proof {
            reveal_strlit("a");
            reveal_strlit("g");
        }
        let tag = match entries[i].1 {
            Direction::Analyze => String::from_str("a"),
            Direction::Generate => String::from_str("g"),
        };
        assert(tag@ =~= direction_tag(entries@[i as int].1));
        let ghost before = pair_views(keys@);
        keys.push((group, tag));
        assert(pair_views(keys@) =~= before.push((group_of(entries@[i as int].0@), direction_tag(entries@[i as int].1))));
        i = i + 1;
        assert(pair_views(keys@) =~= block_keys(entries@).subrange(0, i as int));
    }
    assert(block_keys(entries@).subrange(0, entries.len() as int) =~= block_keys(entries@));
    let groups = group_pairs(&keys);
    let ghost gv = pair_group_views(groups@);
    let mut out: Vec<Block> = Vec::new();
    let mut k: usize = 0;
    while k < groups.len()
        invariant
            k <= groups.len(),
            gv == pair_group_views(groups@),
            gv == pair_key_groups(block_keys(entries@)),
            out.len() == k,
            forall|j: int|
                0 <= j < k ==> {
                    &&& (#[trigger] out@[j]).group@ == gv[j].0.0
                    &&& out@[j].direction == tag_direction(gv[j].0.1)
                    &&& out@[j].positions@ == gv[j].1
                },
        decreases groups.len() - k,
    {
        let tag = chars_of(groups[k].0.1.as_str());
        let direction = if tag.len() == 1 && tag[0] == 'a' {
            assert(tag@ =~= seq!['a']);
            Direction::Analyze
        } else {
            assert(tag@ != seq!['a']);
            Direction::Generate
        };
        let mut positions: Vec<usize> = Vec::new();
        let mut m: usize = 0;
        while m < groups[k].1.len()
            invariant
                k < groups.len(),
                m <= groups@[k as int].1.len(),
                positions@ == groups@[k as int].1@.subrange(0, m as int),
            decreases groups@[k as int].1.len() - m,
        {
            positions.push(groups[k].1[m]);
            m = m + 1;
            assert(positions@ =~= groups@[k as int].1@.subrange(0, m as int));
        }
        assert(positions@ =~= groups@[k as int].1@);
        out.push(Block { group: groups[k].0.0.clone(), direction, positions });
        k = k + 1;
    }
    out
}

/// The actual strings of `actual` that are not in `expected`, in order.
pub open spec fn unexpected(actual: Seq<Seq<char>>, expected: Set<Seq<char>>) -> Seq<Seq<char>>
    decreases actual.len(),
{
    if actual.len() == 0 {
        Seq::empty()
    } else if expected.contains(actual.last()) {
        unexpected(actual.drop_last(), expected)
    } else {
        unexpected(actual.drop_last(), expected).push(actual.last())
    }
}

/// The results of `case` that were not expected, without repeats, in
/// ascending order.
pub fn extra_results(case: &CaseResult) -> (r: Vec<String>)
    ensures
        views(r@) == sorted_views(distinct(unexpected(views(case.actual@), view_set(case.expected@)))),
{
    let mut out: Vec<String> = Vec::new();
    let mut i: usize = 0;
    while i < case.actual.len()
        invariant
            i <= case.actual.len(),
            views(out@) == distinct(
                unexpected(views(case.actual@).subrange(0, i as int), view_set(case.expected@)),
            ),
        decreases case.actual.len() - i,
    {
        let ghost s1 = views(case.actual@).subrange(0, i as int + 1);
        assert(s1.drop_last() =~= views(case.actual@).subrange(0, i as int));
        assert(s1.last() == case.actual@[i as int]@);
        let ghost u0 = unexpected(views(case.actual@).subrange(0, i as int), view_set(case.expected@));
        if !holds_string(case.expected.as_slice(), &case.actual[i]) {
            assert(!view_set(case.expected@).contains(case.actual@[i as int]@));
            assert(unexpected(s1, view_set(case.expected@)) == u0.push(case.actual@[i as int]@));
            assert(u0.push(case.actual@[i as int]@).drop_last() =~= u0);
            push_new(&mut out, case.actual[i].clone());
        } else {
            assert(view_set(case.expected@).contains(case.actual@[i as int]@));
            assert(unexpected(s1, view_set(case.expected@)) == u0);
        }
        i = i + 1;
    }
    assert(views(case.actual@).subrange(0, case.actual.len() as int) =~= views(case.actual@));
    sort_strings(&mut out);
    out
}

} // verus!
