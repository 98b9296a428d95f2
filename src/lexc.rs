//! Test data embedded in lexc sources, in comment lines that start with
//! `!!€`:
//!
//! ```text
//! !!€gt-norm: verbs  # a header: transducer type, then test name
//! !!€ goarkam: goarkat+V+Ind+Prs+Sg1  ! a surface form and its analysis
//! ```
use crate::group::{group_keys, group_views, key_groups, Groups};
use crate::types::{Direction, TestCase};
use crate::index::{
    entries_insert, entries_len, entries_list, entries_new, entry_pairs, keyed_insert, pair_views,
    EntryMap,
};
use crate::text::{
    char_views, chars_of, find_char, first_of, split, split_chars, string_of, sub_chars, trim,
    trim_chars, upto_char, upto_char_in, views,
};
use vstd::prelude::*;

verus! {

/// The tests of one header of a lexc file.
#[derive(Debug)]
pub struct LexcTestSet {
    /// The transducer type, such as `gt-norm`.
    pub fst_type: String,
    pub test_name: String,
    /// Surface form to analysis, in the order first defined.
    pub tests: EntryMap,
}

/// A test set as plain values: type, name and entries.
pub type SetView = (Seq<char>, Seq<char>, Seq<(Seq<char>, Seq<char>)>);

pub open spec fn set_view(s: LexcTestSet) -> SetView {
    (s.fst_type@, s.test_name@, entry_pairs(s.tests))
}

pub open spec fn set_views(v: Seq<LexcTestSet>) -> Seq<SetView> {
    v.map_values(|s: LexcTestSet| set_view(s))
}

/// A trimmed line that carries test data.
pub open spec fn is_test_line(t: Seq<char>) -> bool {
    t.len() >= 3 && t[0] == '!' && t[1] == '!' && t[2] == '€'
}

/// The sets closed so far, with the one being filled.
pub type ParseState = (Seq<SetView>, Option<SetView>);

/// The sets closed so far, with `current` added when it holds tests.
pub open spec fn close(sets: Seq<SetView>, current: Option<SetView>) -> Seq<SetView> {
    match current {
        Some(cur) => if cur.2.len() > 0 {
            sets.push(cur)
        } else {
            sets
        },
        None => sets,
    }
}

/// The state after one line.
pub open spec fn lexc_step(st: ParseState, line: Seq<char>) -> ParseState {
    let t = trim(line);
    if !is_test_line(t) {
        st
    } else {
        let rest = t.subrange(3, t.len() as int);
        if rest.len() > 0 && rest[0] == ' ' {
            match st.1 {
                None => st,
                Some(cur) => {
                    let tl = trim(rest);
                    match first_of(tl, ':') {
                        None => st,
                        Some(c) => {
                            let surface = trim(tl.subrange(0, c));
                            let analysis = trim(upto_char(tl.subrange(c + 1, tl.len() as int), '!'));
                            (st.0, Some((cur.0, cur.1, keyed_insert(cur.2, surface, analysis))))
                        },
                    }
                },
            }
        } else {
            let sets = close(st.0, st.1);
            let header = upto_char(rest, '#');
            match first_of(header, ':') {
                None => (sets, None),
                Some(c) => (
                    sets,
                    Some(
                        (
                            trim(header.subrange(0, c)),
                            trim(header.subrange(c + 1, header.len() as int)),
                            Seq::empty(),
                        ),
                    ),
                ),
            }
        }
    }
}

/// The state after `lines`.
pub open spec fn lexc_fold(lines: Seq<Seq<char>>) -> ParseState
    decreases lines.len(),
{
    if lines.len() == 0 {
        (Seq::empty(), None)
    } else {
        lexc_step(lexc_fold(lines.drop_last()), lines.last())
    }
}

/// The test sets of a lexc source: those with at least one test, in order.
pub open spec fn lexc_sets(content: Seq<char>) -> Seq<SetView> {
    let st = lexc_fold(split(content, '\n'));
    close(st.0, st.1)
}

/// Closes `current` into `sets` when it holds tests.
fn close_set(sets: &mut Vec<LexcTestSet>, current: Option<LexcTestSet>)
    ensures
        set_views(final(sets)@) == close(
            set_views(old(sets)@),
            match current {
                Some(c) => Some(set_view(c)),
                None => None,
            },
        ),
{
    match current {
        Some(c) => {
            if entries_len(&c.tests) > 0 {
                let ghost before = sets@;
                sets.push(c);
                assert(set_views(sets@) =~= set_views(before).push(set_view(c)));
            }
        },
        None => {},
    }
}

/// The view of an optional test set.
pub open spec fn opt_set_view(s: Option<LexcTestSet>) -> Option<SetView> {
    match s {
        Some(c) => Some(set_view(c)),
        None => None,
    }
}

/// The state after one more line.
fn step(sets: &mut Vec<LexcTestSet>, current: Option<LexcTestSet>, line: &Vec<char>) -> (r: Option<
    LexcTestSet,
>)
    ensures
        (set_views(final(sets)@), opt_set_view(r)) == lexc_step(
            (set_views(old(sets)@), opt_set_view(current)),
            line@,
        ),
{
    let t = trim_chars(line);
    if !(t.len() >= 3 && t[0] == '!' && t[1] == '!' && t[2] == '€') {
        return current;
    }
    let rest = sub_chars(&t, 3, t.len());
    if rest.len() > 0 && rest[0] == ' ' {
        match current {
            None => None,
            Some(cur) => {
                let tl = trim_chars(&rest);
                match find_char(&tl, ':') {
                    None => Some(cur),
                    Some(c) => {
                        let surface = trim_chars(&sub_chars(&tl, 0, c));
                        let after = sub_chars(&tl, c + 1, tl.len());
                        let analysis = trim_chars(&upto_char_in(&after, '!'));
                        let mut cur = cur;
                        entries_insert(
                            &mut cur.tests,
                            string_of(surface.as_slice()),
                            string_of(analysis.as_slice()),
                        );
                        Some(cur)
                    },
                }
            },
        }
    } else {
        close_set(sets, current);
        let header = upto_char_in(&rest, '#');
        match find_char(&header, ':') {
            None => None,
            Some(c) => {
                let fst_type = trim_chars(&sub_chars(&header, 0, c));
                let test_name = trim_chars(&sub_chars(&header, c + 1, header.len()));
                let tests = entries_new();
                let r = LexcTestSet {
                    fst_type: string_of(fst_type.as_slice()),
                    test_name: string_of(test_name.as_slice()),
                    tests,
                };
                assert(entry_pairs(r.tests) =~= Seq::<(Seq<char>, Seq<char>)>::empty());
                Some(r)
            },
        }
    }
}

/// The test sets of a lexc source, in order; sets without tests are left out.
pub fn parse_lexc_test_data(content: &str) -> (r: Vec<LexcTestSet>)
    ensures
        set_views(r@) == lexc_sets(content@),
{
    let chars = chars_of(content);
    let lines = split_chars(&chars, '\n');
    let mut sets: Vec<LexcTestSet> = Vec::new();
    let mut current: Option<LexcTestSet> = None;
    let mut i: usize = 0;
    while i < lines.len()
        invariant
            i <= lines.len(),
            (set_views(sets@), opt_set_view(current)) == lexc_fold(
                char_views(lines@).subrange(0, i as int),
            ),
        decreases lines.len() - i,
    {
        let ghost s1 = char_views(lines@).subrange(0, i as int + 1);
        assert(s1.drop_last() =~= char_views(lines@).subrange(0, i as int));
        assert(s1.last() == lines@[i as int]@);
        current = step(&mut sets, current, &lines[i]);
        i = i + 1;
    }
    assert(char_views(lines@).subrange(0, lines.len() as int) =~= split(content@, '\n'));
    close_set(&mut sets, current);
    sets
}

/// A test case as plain values: name, direction, input, expected strings.
pub type CaseView = (Seq<char>, Direction, Seq<char>, Seq<Seq<char>>);

pub open spec fn case_view(c: TestCase) -> CaseView {
    (c.name@, c.direction, c.input@, views(c.expect@))
}

pub open spec fn case_views(v: Seq<TestCase>) -> Seq<CaseView> {
    v.map_values(|c: TestCase| case_view(c))
}

/// `a: b`, the name of a case in group `a`.
pub open spec fn case_name(a: Seq<char>, b: Seq<char>) -> Seq<char> {
    a + seq![':', ' '] + b
}

/// `name (type)`, the group of a test set.
pub open spec fn group_name(test_name: Seq<char>, fst_type: Seq<char>) -> Seq<char> {
    test_name + seq![' ', '('] + fst_type + seq![')']
}

/// One generation case per analysis, expecting all its surface forms, in
/// the order the analyses are first seen.
pub open spec fn generation_cases(g: Seq<char>, entries: Seq<(Seq<char>, Seq<char>)>, groups: Groups) -> Seq<
    CaseView,
> {
    groups.map_values(
        |gr: (Seq<char>, Seq<usize>)|
            (
                case_name(g, gr.0),
                Direction::Generate,
                gr.0,
                gr.1.map_values(|p: usize| entries[p as int].0),
            ),
    )
}

/// One analysis case per surface form, expecting its analysis.
pub open spec fn analysis_cases(g: Seq<char>, entries: Seq<(Seq<char>, Seq<char>)>) -> Seq<CaseView> {
    entries.map_values(
        |e: (Seq<char>, Seq<char>)| (case_name(g, e.0), Direction::Analyze, e.0, seq![e.1]),
    )
}

/// The cases of a test set of transducer type `fst_type`.
pub open spec fn set_cases(set: SetView, fst_type: Seq<char>) -> Seq<CaseView> {
    let g = group_name(set.1, fst_type);
    let analyses = set.2.map_values(|e: (Seq<char>, Seq<char>)| e.1);
    generation_cases(g, set.2, key_groups(analyses)) + analysis_cases(g, set.2)
}

/// `a: b`.
pub(crate) fn make_case_name(a: &str, b: &str) -> (r: String)
    ensures
        r@ == case_name(a@, b@),
{
    proof {
        reveal_strlit(": ");
    }
    let mut s = String::from_str(a);
    s.append(": ");
    s.append(b);
    assert(s@ =~= case_name(a@, b@));
    s
}

/// The cases that the test set `set` of transducer type `fst_type` gives:
/// generation cases first, then analysis cases.
pub fn lexc_cases(set: &LexcTestSet, fst_type: &str) -> (r: Vec<TestCase>)
    ensures
        case_views(r@) == set_cases(set_view(*set), fst_type@),
        forall|i: int| 0 <= i < r.len() ==> (#[trigger] r@[i]).expect_not@.len() == 0,
{
    proof {
        reveal_strlit(" (");
        reveal_strlit(")");
    }
    let mut g = String::from_str(set.test_name.as_str());
    g.append(" (");
    g.append(fst_type);
    g.append(")");
    assert(g@ =~= group_name(set.test_name@, fst_type@));
    let pairs = entries_list(&set.tests);
    let ghost entries = entry_pairs(set.tests);
    let mut analyses: Vec<String> = Vec::new();
    let mut i: usize = 0;
    while i < pairs.len()
        invariant
            i <= pairs.len(),
            pair_views(pairs@) == entries,
            views(analyses@) == entries.subrange(0, i as int).map_values(
                |e: (Seq<char>, Seq<char>)| e.1,
            ),
        decreases pairs.len() - i,
    {
        assert(entries[i as int] == (pairs@[i as int].0@, pairs@[i as int].1@));
        let ghost before = analyses@;
        analyses.push(pairs[i].1.clone());
        assert(views(analyses@) == views(before).push(pairs@[i as int].1@));
        i = i + 1;
        assert(views(analyses@) =~= entries.subrange(0, i as int).map_values(
            |e: (Seq<char>, Seq<char>)| e.1,
        ));
    }
    assert(entries.subrange(0, pairs.len() as int) =~= entries);
    let groups = group_keys(&analyses);
    let ghost gv = group_views(groups@);
    let ghost expected = set_cases(set_view(*set), fst_type@);
    let mut out: Vec<TestCase> = Vec::new();
    let mut k: usize = 0;
    while k < groups.len()
        invariant
            k <= groups.len(),
            pair_views(pairs@) == entries,
            gv == group_views(groups@),
            gv == key_groups(entries.map_values(|e: (Seq<char>, Seq<char>)| e.1)),
            case_views(out@) == generation_cases(g@, entries, gv).subrange(0, k as int),
            forall|j: int| 0 <= j < out.len() ==> (#[trigger] out@[j]).expect_not@.len() == 0,
        decreases groups.len() - k,
    {
        let positions = &groups[k].1;
        let mut surfaces: Vec<String> = Vec::new();
        let mut m: usize = 0;
        while m < positions.len()
            invariant
                m <= positions.len(),
                pair_views(pairs@) == entries,
                *positions == groups@[k as int].1,
                k < groups.len(),
                gv == group_views(groups@),
                gv == key_groups(entries.map_values(|e: (Seq<char>, Seq<char>)| e.1)),
                views(surfaces@) == positions@.subrange(0, m as int).map_values(
                    |p: usize| entries[p as int].0,
                ),
            decreases positions.len() - m,
        {
            let p = positions[m];
            assert(p < pairs.len()) by {
                crate::group::lemma_positions_bounded(
                    entries.map_values(|e: (Seq<char>, Seq<char>)| e.1),
                );
                assert(gv[k as int].1[m as int] == p);
            }
            assert(entries[p as int] == (pairs@[p as int].0@, pairs@[p as int].1@));
            let ghost before = surfaces@;
            surfaces.push(pairs[p].0.clone());
            assert(views(surfaces@) == views(before).push(entries[p as int].0));
            m = m + 1;
            assert(views(surfaces@) =~= positions@.subrange(0, m as int).map_values(
                |p: usize| entries[p as int].0,
            ));
        }
        assert(positions@.subrange(0, positions.len() as int) =~= positions@);
        let case = TestCase {
            name: make_case_name(g.as_str(), groups[k].0.as_str()),
            direction: Direction::Generate,
            input: groups[k].0.clone(),
            expect: surfaces,
            expect_not: Vec::new(),
        };
        assert(gv[k as int] == (groups@[k as int].0@, groups@[k as int].1@));
        assert(case_view(case) == generation_cases(g@, entries, gv)[k as int]);
        let ghost before = out@;
        out.push(case);
        assert(case_views(out@) == case_views(before).push(case_view(case)));
        k = k + 1;
        assert(case_views(out@) =~= generation_cases(g@, entries, gv).subrange(0, k as int));
    }
    let ghost gen_count = out.len();
    let mut j: usize = 0;
    while j < pairs.len()
        invariant
            j <= pairs.len(),
            pair_views(pairs@) == entries,
            gen_count == gv.len(),
            out.len() == gen_count + j,
            case_views(out@) == generation_cases(g@, entries, gv) + analysis_cases(g@, entries).subrange(
                0,
                j as int,
            ),
            forall|q: int| 0 <= q < out.len() ==> (#[trigger] out@[q]).expect_not@.len() == 0,
        decreases pairs.len() - j,
    {
        let mut expect: Vec<String> = Vec::new();
        expect.push(pairs[j].1.clone());
        let case = TestCase {
            name: make_case_name(g.as_str(), pairs[j].0.as_str()),
            direction: Direction::Analyze,
            input: pairs[j].0.clone(),
            expect,
            expect_not: Vec::new(),
        };
        assert(entries[j as int] == (pairs@[j as int].0@, pairs@[j as int].1@));
        assert(views(case.expect@) =~= seq![entries[j as int].1]);
        assert(case_view(case) == analysis_cases(g@, entries)[j as int]);
        let ghost before = out@;
        out.push(case);
        assert(case_views(out@) == case_views(before).push(case_view(case)));
        j = j + 1;
        assert(case_views(out@) =~= generation_cases(g@, entries, gv) + analysis_cases(
            g@,
            entries,
        ).subrange(0, j as int));
    }
    assert(analysis_cases(g@, entries).subrange(0, pairs.len() as int) =~= analysis_cases(
        g@,
        entries,
    ));
    out
}

} // verus!
