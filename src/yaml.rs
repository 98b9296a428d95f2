//! Test cases from the `Tests` section of a YAML test file: groups of
//! `lexical form: expected surface forms`. A surface form written `~form`
//! must not be generated, and must not analyze at all.
use crate::codec::holds_string;
use crate::config::OneOrMany;
use crate::group::{group_pairs, lemma_pair_positions_bounded, pair_group_views, pair_key_groups};
use crate::index::pair_views;
use crate::lexc::{case_name, make_case_name};
use crate::text::{trim, trimmed, views};
use crate::types::{Direction, TestCase};
use vstd::prelude::*;

verus! {

/// A test case as plain values: name, direction, input, expected strings,
/// strings that must not come out.
pub type FullCase = (Seq<char>, Direction, Seq<char>, Seq<Seq<char>>, Seq<Seq<char>>);

pub open spec fn full_view(c: TestCase) -> FullCase {
    (c.name@, c.direction, c.input@, views(c.expect@), views(c.expect_not@))
}

pub open spec fn full_views(v: Seq<TestCase>) -> Seq<FullCase> {
    v.map_values(|c: TestCase| full_view(c))
}

/// The expected strings of an entry, trimmed.
pub open spec fn expect_of(e: OneOrMany) -> Seq<Seq<char>> {
    match e {
        OneOrMany::One(s) => seq![trim(s@)],
        OneOrMany::Many(v) => views(v@).map_values(|x: Seq<char>| trim(x)),
    }
}

/// A negative expectation, written `~form`.
pub open spec fn is_negative(s: Seq<char>) -> bool {
    s.len() > 0 && s[0] == '~'
}

/// The positive expectations of `es`, in order.
pub open spec fn positives(es: Seq<Seq<char>>) -> Seq<Seq<char>>
    decreases es.len(),
{
    if es.len() == 0 {
        Seq::empty()
    } else if is_negative(es.last()) {
        positives(es.drop_last())
    } else {
        positives(es.drop_last()).push(es.last())
    }
}

/// The forms of the negative expectations of `es`, without their `~`.
pub open spec fn negatives(es: Seq<Seq<char>>) -> Seq<Seq<char>>
    decreases es.len(),
{
    if es.len() == 0 {
        Seq::empty()
    } else if is_negative(es.last()) {
        negatives(es.drop_last()).push(es.last().drop_first())
    } else {
        negatives(es.drop_last())
    }
}

/// `Analysis (negative): form`.
pub open spec fn negative_name(form: Seq<char>) -> Seq<char> {
    seq![
        'A',
        'n',
        'a',
        'l',
        'y',
        's',
        'i',
        's',
        ' ',
        '(',
        'n',
        'e',
        'g',
        'a',
        't',
        'i',
        'v',
        'e',
        ')',
        ':',
        ' ',
    ] + form
}

/// The case that negative form `n` gives.
pub open spec fn negative_case(n: Seq<char>) -> FullCase {
    (negative_name(n), Direction::Analyze, n, Seq::<Seq<char>>::empty(), Seq::<Seq<char>>::empty())
}

/// The cases of one entry of group `g`: its generation case, then one
/// analysis case per negative form, which must analyze to nothing.
pub open spec fn entry_cases(g: Seq<char>, lex: Seq<char>, es: Seq<Seq<char>>) -> Seq<FullCase> {
    seq![(case_name(g, lex), Direction::Generate, lex, positives(es), negatives(es))]
        + negatives(es).map_values(
        |n: Seq<char>| negative_case(n),
    )
}

/// What an entry contributes to the analysis cases: each positive surface
/// form, keyed with its group, analyzes to the lexical form.
pub type Triple = ((Seq<char>, Seq<char>), Seq<char>);

pub open spec fn entry_triples(g: Seq<char>, lex: Seq<char>, es: Seq<Seq<char>>) -> Seq<Triple> {
    positives(es).map_values(|s: Seq<char>| ((s, g), lex))
}

/// The cases of the entries of group `g`, in order.
pub open spec fn group_cases(g: Seq<char>, entries: Seq<(String, OneOrMany)>) -> Seq<FullCase>
    decreases entries.len(),
{
    if entries.len() == 0 {
        Seq::empty()
    } else {
        group_cases(g, entries.drop_last()) + entry_cases(
            g,
            trim(entries.last().0@),
            expect_of(entries.last().1),
        )
    }
}

pub open spec fn group_triples(g: Seq<char>, entries: Seq<(String, OneOrMany)>) -> Seq<Triple>
    decreases entries.len(),
{
    if entries.len() == 0 {
        Seq::empty()
    } else {
        group_triples(g, entries.drop_last()) + entry_triples(
            g,
            trim(entries.last().0@),
            expect_of(entries.last().1),
        )
    }
}

/// The generation and negative cases of all groups, in order.
pub open spec fn head_cases(tests: Seq<(String, Vec<(String, OneOrMany)>)>) -> Seq<FullCase>
    decreases tests.len(),
{
    if tests.len() == 0 {
        Seq::empty()
    } else {
        head_cases(tests.drop_last()) + group_cases(trim(tests.last().0@), tests.last().1@)
    }
}

pub open spec fn all_triples(tests: Seq<(String, Vec<(String, OneOrMany)>)>) -> Seq<Triple>
    decreases tests.len(),
{
    if tests.len() == 0 {
        Seq::empty()
    } else {
        all_triples(tests.drop_last()) + group_triples(trim(tests.last().0@), tests.last().1@)
    }
}

/// The strings of `s` without repeats, each where it first occurs.
pub open spec fn distinct(s: Seq<Seq<char>>) -> Seq<Seq<char>>
    decreases s.len(),
{
    if s.len() == 0 {
        Seq::empty()
    } else if distinct(s.drop_last()).contains(s.last()) {
        distinct(s.drop_last())
    } else {
        distinct(s.drop_last()).push(s.last())
    }
}

/// The strings of `s` in ascending order, as `slice::sort` leaves them.
pub uninterp spec fn sorted_views(s: Seq<Seq<char>>) -> Seq<Seq<char>>;

/// One analysis case per surface form and group: the form analyzes to the
/// lexical forms it was given for, without repeats, in ascending order.
pub open spec fn analysis_cases(triples: Seq<Triple>) -> Seq<FullCase> {
    pair_key_groups(triples.map_values(|t: Triple| t.0)).map_values(
        |gr: ((Seq<char>, Seq<char>), Seq<usize>)|
            (
                case_name(gr.0.1, gr.0.0),
                Direction::Analyze,
                gr.0.0,
                sorted_views(distinct(gr.1.map_values(|p: usize| triples[p as int].1))),
                Seq::<Seq<char>>::empty(),
            ),
    )
}

/// The cases of a `Tests` section.
pub open spec fn yaml_cases(tests: Seq<(String, Vec<(String, OneOrMany)>)>) -> Seq<FullCase> {
    head_cases(tests) + analysis_cases(all_triples(tests))
}

/// Relies on `slice::sort`: the strings in ascending order.
#[verifier::external_body]
pub(crate) fn sort_strings(v: &mut Vec<String>)
    ensures
        views(final(v)@) == sorted_views(views(old(v)@)),
{
    v.sort();
}

/// Adds `item` at the end of `list` unless an equal string is there.
pub(crate) fn push_new(list: &mut Vec<String>, item: String)
    ensures
        views(final(list)@) == (if views(old(list)@).contains(item@) {
            views(old(list)@)
        } else {
            views(old(list)@).push(item@)
        }),
{
    if !holds_string(list.as_slice(), &item) {
        let ghost before = list@;
        list.push(item);
        assert(views(list@) =~= views(before).push(item@));
    }
}

/// The expected strings of an entry, trimmed.
fn expect_list(e: &OneOrMany) -> (r: Vec<String>)
    ensures
        views(r@) == expect_of(*e),
{
    match e {
        OneOrMany::One(s) => {
            let mut r: Vec<String> = Vec::new();
            r.push(trimmed(s.as_str()));
            assert(views(r@) =~= seq![trim(s@)]);
            r
        },
        OneOrMany::Many(v) => {
            let mut r: Vec<String> = Vec::new();
            let mut i: usize = 0;
            while i < v.len()
                invariant
                    i <= v.len(),
                    views(r@) == views(v@).map_values(|x: Seq<char>| trim(x)).subrange(0, i as int),
                decreases v.len() - i,
            {
                let ghost before = r@;
                let t = trimmed(v[i].as_str());
                r.push(t);
                assert(views(r@) =~= views(before).push(trim(v@[i as int]@)));
                assert(views(v@).map_values(|x: Seq<char>| trim(x))[i as int] == trim(v@[i as int]@));
                i = i + 1;
                assert(views(r@) =~= views(v@).map_values(|x: Seq<char>| trim(x)).subrange(0, i as int));
            }
            assert(views(v@).map_values(|x: Seq<char>| trim(x)).subrange(0, v.len() as int) =~= views(
                v@,
            ).map_values(|x: Seq<char>| trim(x)));
            r
        },
    }
}

/// The positive expectations of `es`, and the forms of its negative ones.
fn split_expectations(es: &Vec<String>) -> (r: (Vec<String>, Vec<String>))
    ensures
        views(r.0@) == positives(views(es@)),
        views(r.1@) == negatives(views(es@)),
{
    let mut pos: Vec<String> = Vec::new();
    let mut neg: Vec<String> = Vec::new();
    let mut i: usize = 0;
    while i < es.len()
        invariant
            i <= es.len(),
            views(pos@) == positives(views(es@).subrange(0, i as int)),
            views(neg@) == negatives(views(es@).subrange(0, i as int)),
        decreases es.len() - i,
    {
        let ghost s1 = views(es@).subrange(0, i as int + 1);
        assert(s1.drop_last() =~= views(es@).subrange(0, i as int));
        assert(s1.last() == es@[i as int]@);
        let chars = crate::text::chars_of(es[i].as_str());
        let ghost pb = pos@;
        let ghost nb = neg@;
        if chars.len() > 0 && chars[0] == '~' {
            let form = crate::text::string_of_range(&chars, 1, chars.len());
            assert(form@ =~= es@[i as int]@.drop_first());
            neg.push(form);
            assert(views(neg@) =~= views(nb).push(es@[i as int]@.drop_first()));
        } else {
            pos.push(es[i].clone());
            assert(views(pos@) =~= views(pb).push(es@[i as int]@));
        }
        i = i + 1;
    }
    assert(views(es@).subrange(0, es.len() as int) =~= views(es@));
    (pos, neg)
}

/// `Analysis (negative): form`.
fn make_negative_name(form: &str) -> (r: String)
    ensures
        r@ == negative_name(form@),
{
    proof {
        reveal_strlit("Analysis (negative): ");
    }
    let mut s = String::from_str("Analysis (negative): ");
    s.append(form);
    assert(s@ =~= negative_name(form@));
    s
}

/// Appends the cases and triples of one entry.
fn add_entry(
    cases: &mut Vec<TestCase>,
    keys: &mut Vec<(String, String)>,
    lexicals: &mut Vec<String>,
    g: &String,
    lex: &String,
    expected: &OneOrMany,
)
    requires
        pair_views(old(keys)@).len() == views(old(lexicals)@).len(),
    ensures
        full_views(final(cases)@) == full_views(old(cases)@) + entry_cases(g@, lex@, expect_of(*expected)),
        pair_views(final(keys)@) == pair_views(old(keys)@) + entry_triples(
            g@,
            lex@,
            expect_of(*expected),
        ).map_values(|t: Triple| t.0),
        views(final(lexicals)@) == views(old(lexicals)@) + entry_triples(
            g@,
            lex@,
            expect_of(*expected),
        ).map_values(|t: Triple| t.1),
{
    let es = expect_list(expected);
    let (pos, neg) = split_expectations(&es);
    let ghost esv = expect_of(*expected);
    let ghost cases0 = full_views(cases@);
    let name = make_case_name(g.as_str(), lex.as_str());
    let mut expect: Vec<String> = Vec::new();
    let mut k: usize = 0;
    while k < pos.len()
        invariant
            k <= pos.len(),
            expect@ == pos@.subrange(0, k as int),
        decreases pos.len() - k,
    {
        expect.push(pos[k].clone());
        k = k + 1;
        assert(expect@ =~= pos@.subrange(0, k as int));
    }
    assert(expect@ =~= pos@);
    let mut expect_not: Vec<String> = Vec::new();
    let mut k: usize = 0;
    while k < neg.len()
        invariant
            k <= neg.len(),
            expect_not@ == neg@.subrange(0, k as int),
        decreases neg.len() - k,
    {
        expect_not.push(neg[k].clone());
        k = k + 1;
        assert(expect_not@ =~= neg@.subrange(0, k as int));
    }
    assert(expect_not@ =~= neg@);
    let case = TestCase {
        name,
        direction: Direction::Generate,
        input: lex.clone(),
        expect,
        expect_not,
    };
    cases.push(case);
    assert(full_views(cases@) =~= cases0 + seq![
        (case_name(g@, lex@), Direction::Generate, lex@, positives(esv), negatives(esv)),
    ]);
    let ghost cases1 = full_views(cases@);
    let mut j: usize = 0;
    while j < neg.len()
        invariant
            j <= neg.len(),
            views(neg@) == negatives(esv),
            full_views(cases@) == cases1 + negatives(esv).map_values(
                |n: Seq<char>| negative_case(n),
            ).subrange(0, j as int),
        decreases neg.len() - j,
    {
        let ghost before = full_views(cases@);
        let c = TestCase {
            name: make_negative_name(neg[j].as_str()),
            direction: Direction::Analyze,
            input: neg[j].clone(),
            expect: Vec::new(),
            expect_not: Vec::new(),
        };
        assert(views(c.expect@) =~= Seq::<Seq<char>>::empty());
        assert(views(c.expect_not@) =~= Seq::<Seq<char>>::empty());
        cases.push(c);
        assert(full_views(cases@) =~= before.push(full_view(c)));
        j = j + 1;
        assert(full_views(cases@) =~= cases1 + negatives(esv).map_values(
            |n: Seq<char>| negative_case(n),
        ).subrange(0, j as int));
    }
    assert(negatives(esv).map_values(
        |n: Seq<char>| negative_case(n),
    ).subrange(0, neg.len() as int) =~= negatives(esv).map_values(
        |n: Seq<char>| negative_case(n),
    ));
    assert(full_views(cases@) =~= cases0 + entry_cases(g@, lex@, esv));
    let ghost keys0 = pair_views(keys@);
    let ghost lex0 = views(lexicals@);
    let mut m: usize = 0;
    while m < pos.len()
        invariant
            m <= pos.len(),
            views(pos@) == positives(esv),
            pair_views(keys@) == keys0 + entry_triples(g@, lex@, esv).map_values(
                |t: Triple| t.0,
            ).subrange(0, m as int),
            views(lexicals@) == lex0 + entry_triples(g@, lex@, esv).map_values(
                |t: Triple| t.1,
            ).subrange(0, m as int),
        decreases pos.len() - m,
    {
        let ghost kb = pair_views(keys@);
        let ghost lb = views(lexicals@);
        keys.push((pos[m].clone(), g.clone()));
        lexicals.push(lex.clone());
        assert(pair_views(keys@) =~= kb.push((pos@[m as int]@, g@)));
        assert(views(lexicals@) =~= lb.push(lex@));
        m = m + 1;
        assert(pair_views(keys@) =~= keys0 + entry_triples(g@, lex@, esv).map_values(
            |t: Triple| t.0,
        ).subrange(0, m as int));
        assert(views(lexicals@) =~= lex0 + entry_triples(g@, lex@, esv).map_values(
            |t: Triple| t.1,
        ).subrange(0, m as int));
    }
    assert(entry_triples(g@, lex@, esv).map_values(|t: Triple| t.0).subrange(0, pos.len() as int)
        =~= entry_triples(g@, lex@, esv).map_values(|t: Triple| t.0));
    assert(entry_triples(g@, lex@, esv).map_values(|t: Triple| t.1).subrange(0, pos.len() as int)
        =~= entry_triples(g@, lex@, esv).map_values(|t: Triple| t.1));
}

/// The cases of a `Tests` section: for each group (trimmed) and each entry
/// (lexical form trimmed, expectations trimmed), a generation case named
/// `group: lexical` and one analysis case per negative form; then one
/// analysis case per surface form and group, named `group: surface`.
pub fn cases_from_tests(tests: &Vec<(String, Vec<(String, OneOrMany)>)>) -> (r: Vec<TestCase>)
    ensures
        full_views(r@) == yaml_cases(tests@),
{
    let mut cases: Vec<TestCase> = Vec::new();
    let mut keys: Vec<(String, String)> = Vec::new();
    let mut lexicals: Vec<String> = Vec::new();
    let mut gi: usize = 0;
    while gi < tests.len()
        invariant
            gi <= tests.len(),
            keys.len() == lexicals.len(),
            full_views(cases@) == head_cases(tests@.subrange(0, gi as int)),
            pair_views(keys@) == all_triples(tests@.subrange(0, gi as int)).map_values(
                |t: Triple| t.0,
            ),
            views(lexicals@) == all_triples(tests@.subrange(0, gi as int)).map_values(
                |t: Triple| t.1,
            ),
        decreases tests.len() - gi,
    {
        let ghost t1 = tests@.subrange(0, gi as int + 1);
        assert(t1.drop_last() =~= tests@.subrange(0, gi as int));
        let g = trimmed(tests[gi].0.as_str());
        let entries = &tests[gi].1;
        let ghost cases0 = full_views(cases@);
        let ghost keys0 = pair_views(keys@);
        let ghost lex0 = views(lexicals@);
        let mut ei: usize = 0;
        while ei < entries.len()
            invariant
                gi < tests.len(),
                keys.len() == lexicals.len(),
                ei <= entries.len(),
                *entries == tests@[gi as int].1,
                g@ == trim(tests@[gi as int].0@),
                full_views(cases@) == cases0 + group_cases(g@, entries@.subrange(0, ei as int)),
                pair_views(keys@) == keys0 + group_triples(g@, entries@.subrange(0, ei as int)).map_values(
                    |t: Triple| t.0,
                ),
                views(lexicals@) == lex0 + group_triples(g@, entries@.subrange(0, ei as int)).map_values(
                    |t: Triple| t.1,
                ),
            decreases entries.len() - ei,
        {
            let ghost e1 = entries@.subrange(0, ei as int + 1);
            assert(e1.drop_last() =~= entries@.subrange(0, ei as int));
            let lex = trimmed(entries[ei].0.as_str());
            let ghost et = entry_triples(g@, lex@, expect_of(entries@[ei as int].1));
            let ghost gt = group_triples(g@, entries@.subrange(0, ei as int));
            assert(pair_views(keys@).len() == views(lexicals@).len());
            add_entry(&mut cases, &mut keys, &mut lexicals, &g, &lex, &entries[ei].1);
            assert(keys@.len() == pair_views(keys@).len());
            assert(lexicals@.len() == views(lexicals@).len());
            assert((gt + et).map_values(|t: Triple| t.0) =~= gt.map_values(|t: Triple| t.0)
                + et.map_values(|t: Triple| t.0));
            assert((gt + et).map_values(|t: Triple| t.1) =~= gt.map_values(|t: Triple| t.1)
                + et.map_values(|t: Triple| t.1));
            ei = ei + 1;
            assert(full_views(cases@) =~= cases0 + group_cases(g@, entries@.subrange(0, ei as int)));
            assert(pair_views(keys@) =~= keys0 + group_triples(g@, entries@.subrange(0, ei as int)).map_values(
                |t: Triple| t.0,
            ));
            assert(views(lexicals@) =~= lex0 + group_triples(g@, entries@.subrange(0, ei as int)).map_values(
                |t: Triple| t.1,
            ));
        }
        assert(entries@.subrange(0, entries.len() as int) =~= entries@);
        let ghost at = all_triples(tests@.subrange(0, gi as int));
        let ghost gt = group_triples(g@, entries@);
        assert((at + gt).map_values(|t: Triple| t.0) =~= at.map_values(|t: Triple| t.0)
            + gt.map_values(|t: Triple| t.0));
        assert((at + gt).map_values(|t: Triple| t.1) =~= at.map_values(|t: Triple| t.1)
            + gt.map_values(|t: Triple| t.1));
        gi = gi + 1;
        assert(full_views(cases@) =~= head_cases(tests@.subrange(0, gi as int)));
        assert(pair_views(keys@) =~= all_triples(tests@.subrange(0, gi as int)).map_values(
            |t: Triple| t.0,
        ));
        assert(views(lexicals@) =~= all_triples(tests@.subrange(0, gi as int)).map_values(
            |t: Triple| t.1,
        ));
    }
    assert(tests@.subrange(0, tests.len() as int) =~= tests@);
    let ghost triples = all_triples(tests@);
    let ghost head = full_views(cases@);
    let groups = group_pairs(&keys);
    let ghost gv = pair_group_views(groups@);
    proof {
        lemma_pair_positions_bounded(triples.map_values(|t: Triple| t.0));
    }
    let mut k: usize = 0;
    while k < groups.len()
        invariant
            k <= groups.len(),
            gv == pair_group_views(groups@),
            gv == pair_key_groups(triples.map_values(|t: Triple| t.0)),
            views(lexicals@) == triples.map_values(|t: Triple| t.1),
            lexicals.len() == triples.len(),
            forall|j: int, m: int|
                0 <= j < gv.len() && 0 <= m < gv[j].1.len() ==> #[trigger] gv[j].1[m] < triples.len(),
            full_views(cases@) == head + analysis_cases(triples).subrange(0, k as int),
        decreases groups.len() - k,
    {
        let positions = &groups[k].1;
        let mut analyses: Vec<String> = Vec::new();
        let mut m: usize = 0;
        while m < positions.len()
            invariant
                m <= positions.len(),
                k < groups.len(),
                gv == pair_group_views(groups@),
                *positions == groups@[k as int].1,
                views(lexicals@) == triples.map_values(|t: Triple| t.1),
                lexicals.len() == triples.len(),
                forall|j: int, q: int|
                    0 <= j < gv.len() && 0 <= q < gv[j].1.len() ==> #[trigger] gv[j].1[q] < triples.len(),
                views(analyses@) == distinct(
                    positions@.subrange(0, m as int).map_values(|p: usize| triples[p as int].1),
                ),
            decreases positions.len() - m,
        {
            let p = positions[m];
            assert(gv[k as int].1[m as int] == p);
            let ghost s1 = positions@.subrange(0, m as int + 1).map_values(
                |p: usize| triples[p as int].1,
            );
            assert(s1.drop_last() =~= positions@.subrange(0, m as int).map_values(
                |p: usize| triples[p as int].1,
            ));
            assert(p < triples.len());
            assert(views(lexicals@)[p as int] == lexicals@[p as int]@);
            assert(triples.map_values(|t: Triple| t.1)[p as int] == triples[p as int].1);
            assert(s1.last() == triples[p as int].1);
            assert(s1.last() == lexicals@[p as int]@);
            push_new(&mut analyses, lexicals[p].clone());
            m = m + 1;
        }
        assert(positions@.subrange(0, positions.len() as int) =~= positions@);
        sort_strings(&mut analyses);
        let surface = &groups[k].0.0;
        let group = &groups[k].0.1;
        let c = TestCase {
            name: make_case_name(group.as_str(), surface.as_str()),
            direction: Direction::Analyze,
            input: surface.clone(),
            expect: analyses,
            expect_not: Vec::new(),
        };
        assert(views(c.expect_not@) =~= Seq::<Seq<char>>::empty());
        assert(gv[k as int] == ((surface@, group@), positions@));
        assert(full_view(c) == analysis_cases(triples)[k as int]);
        let ghost before = full_views(cases@);
        cases.push(c);
        assert(full_views(cases@) =~= before.push(full_view(c)));
        k = k + 1;
        assert(full_views(cases@) =~= head + analysis_cases(triples).subrange(0, k as int));
    }
    assert(analysis_cases(triples).subrange(0, groups.len() as int) =~= analysis_cases(triples));
    cases
}

} // verus!
