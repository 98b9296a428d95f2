//! The comparison engine: runs the cases of a set of suites through a
//! backend, one batch per direction, and turns the results into verdicts.
use crate::codec::{copy_strings, holds_string};
use crate::report::{calculate_counts, expectation_counts};
use crate::text::{view_set, views};
use crate::types::{
    error_text, uses_subset, verdict, CaseResult, Direction, LookupError, Summary, TestCase,
    TestSuite,
};
use vstd::prelude::*;

verus! {

/// Something that looks up batches of queries. Each answer holds one result
/// list per input, in input order.
pub trait Backend {
    fn analyze_batch(&self, inputs: &[String]) -> Result<Vec<Vec<String>>, LookupError>;

    fn generate_batch(&self, inputs: &[String]) -> Result<Vec<Vec<String>>, LookupError>;

    fn validate(&self) -> Result<(), LookupError>;
}

/// Whether `a` and `b` hold the same strings, ignoring order and repeats.
pub fn set_eq(a: &[String], b: &[String]) -> (r: bool)
    ensures
        r == (view_set(a@) == view_set(b@)),
{
    let ab = all_within(a, b);
    let ba = all_within(b, a);
    if ab && ba {
        assert(view_set(a@) =~= view_set(b@));
    }
    ab && ba
}

/// Whether every string of `inner` is also in `outer`.
fn all_within(inner: &[String], outer: &[String]) -> (r: bool)
    ensures
        r == view_set(inner@).subset_of(view_set(outer@)),
{
    let mut i: usize = 0;
    while i < inner.len()
        invariant
            i <= inner.len(),
            forall|k: int| 0 <= k < i ==> views(outer@).contains(#[trigger] inner@[k]@),
        decreases inner.len() - i,
    {
        if !holds_string(outer, &inner[i]) {
            assert(views(inner@)[i as int] == inner@[i as int]@);
            assert(view_set(inner@).contains(inner@[i as int]@));
            return false;
        }
        i = i + 1;
    }
    assert forall|x: Seq<char>| view_set(inner@).contains(x) implies view_set(outer@).contains(x) by {
        let k = choose|k: int| 0 <= k < views(inner@).len() && views(inner@)[k] == x;
        assert(inner@[k]@ == x);
    }
    true
}

/// Whether every expected string is among the actual ones.
pub fn expected_subset_of_actual(actual: &[String], expected: &[String]) -> (r: bool)
    ensures
        r == view_set(expected@).subset_of(view_set(actual@)),
{
    all_within(expected, actual)
}

/// The number of cases before `i` that go in direction `d`: the position of
/// case `i` in the batch of its direction.
pub open spec fn rank(cases: Seq<TestCase>, i: int, d: Direction) -> nat
    decreases i,
{
    if i <= 0 {
        0
    } else {
        rank(cases, i - 1, d) + (if cases[i - 1].direction == d {
            1nat
        } else {
            0nat
        })
    }
}

/// What a failed batch leaves in the error field of its cases.
pub open spec fn batch_error_text(d: Direction, e: LookupError) -> Seq<char> {
    match d {
        Direction::Analyze => seq![
            'B',
            'a',
            't',
            'c',
            'h',
            ' ',
            'a',
            'n',
            'a',
            'l',
            'y',
            'z',
            'e',
            ' ',
            'e',
            'r',
            'r',
            'o',
            'r',
            ':',
            ' ',
        ] + error_text(e),
        Direction::Generate => seq![
            'B',
            'a',
            't',
            'c',
            'h',
            ' ',
            'g',
            'e',
            'n',
            'e',
            'r',
            'a',
            't',
            'e',
            ' ',
            'e',
            'r',
            'r',
            'o',
            'r',
            ':',
            ' ',
        ] + error_text(e),
    }
}

/// The error of a case for which the batch gave no result list.
pub open spec fn not_processed_text() -> Seq<char> {
    seq!['N', 'o', 't', ' ', 'p', 'r', 'o', 'c', 'e', 's', 's', 'e', 'd']
}

/// `r` is the verdict on case `c`, at position `k` of a batch that gave `outcome`.
pub open spec fn judged(
    r: CaseResult,
    c: TestCase,
    outcome: Result<Vec<Vec<String>>, LookupError>,
    k: int,
    ignore_extra_analyses: bool,
) -> bool {
    &&& r.name@ == c.name@
    &&& r.direction == c.direction
    &&& r.input@ == c.input@
    &&& views(r.expected@) == views(c.expect@)
    &&& match outcome {
        Ok(rs) => if k < rs.len() {
            &&& views(r.actual@) == views(rs@[k]@)
            &&& r.error is None
            &&& r.passed == verdict(
                c.expect@,
                rs@[k]@,
                uses_subset(c.direction, ignore_extra_analyses),
            )
        } else {
            &&& r.actual@.len() == 0
            &&& r.error is Some
            &&& r.error->0@ == not_processed_text()
            &&& !r.passed
        },
        Err(e) => {
            &&& r.actual@.len() == 0
            &&& r.error is Some
            &&& r.error->0@ == batch_error_text(c.direction, e)
            &&& !r.passed
        },
    }
}

/// Each verdict of `rs` is judged on the case at its position, from the
/// outcome of that case's direction.
pub open spec fn all_judged(
    rs: Seq<CaseResult>,
    cases: Seq<TestCase>,
    analyzed: Result<Vec<Vec<String>>, LookupError>,
    generated: Result<Vec<Vec<String>>, LookupError>,
    ignore_extra_analyses: bool,
) -> bool {
    &&& rs.len() == cases.len()
    &&& forall|i: int|
        0 <= i < rs.len() ==> judged(
            #[trigger] rs[i],
            cases[i],
            outcome_of(cases[i].direction, analyzed, generated),
            rank(cases, i, cases[i].direction) as int,
            ignore_extra_analyses,
        )
}

/// The outcome that applies to direction `d`.
pub open spec fn outcome_of(
    d: Direction,
    analyzed: Result<Vec<Vec<String>>, LookupError>,
    generated: Result<Vec<Vec<String>>, LookupError>,
) -> Result<Vec<Vec<String>>, LookupError> {
    if d == Direction::Analyze {
        analyzed
    } else {
        generated
    }
}

/// The number of passed verdicts in `rs`.
pub open spec fn count_passed(rs: Seq<CaseResult>) -> nat
    decreases rs.len(),
{
    if rs.len() == 0 {
        0
    } else {
        count_passed(rs.drop_last()) + (if rs.last().passed {
            1nat
        } else {
            0nat
        })
    }
}

/// All cases of `suites`, suite after suite.
pub open spec fn all_cases(suites: Seq<TestSuite>) -> Seq<TestCase>
    decreases suites.len(),
{
    if suites.len() == 0 {
        Seq::empty()
    } else {
        all_cases(suites.drop_last()) + suites.last().cases@
    }
}

/// A copy of a case.
fn copy_case(c: &TestCase) -> (r: TestCase)
    ensures
        r.name@ == c.name@,
        r.direction == c.direction,
        r.input@ == c.input@,
        r.expect@ == c.expect@,
        r.expect_not@ == c.expect_not@,
{
    TestCase {
        name: c.name.clone(),
        direction: c.direction,
        input: c.input.clone(),
        expect: copy_strings(&c.expect),
        expect_not: copy_strings(&c.expect_not),
    }
}

/// The verdict on case `c` from the result list it got.
fn verdict_from(c: &TestCase, actual: &Vec<String>, ignore_extra_analyses: bool) -> (r: CaseResult)
    ensures
        r.name@ == c.name@,
        r.direction == c.direction,
        r.input@ == c.input@,
        views(r.expected@) == views(c.expect@),
        views(r.actual@) == views(actual@),
        r.error is None,
        r.passed == verdict(c.expect@, actual@, uses_subset(c.direction, ignore_extra_analyses)),
{
    let passed = if c.direction == Direction::Analyze && ignore_extra_analyses {
        expected_subset_of_actual(actual.as_slice(), c.expect.as_slice())
    } else {
        set_eq(actual.as_slice(), c.expect.as_slice())
    };
    CaseResult {
        name: c.name.clone(),
        direction: c.direction,
        input: c.input.clone(),
        expected: copy_strings(&c.expect),
        actual: copy_strings(actual),
        error: None,
        passed,
    }
}

/// A failed verdict on case `c` with the error `error`.
fn failed_with(c: &TestCase, error: String) -> (r: CaseResult)
    ensures
        r.name@ == c.name@,
        r.direction == c.direction,
        r.input@ == c.input@,
        views(r.expected@) == views(c.expect@),
        r.actual@.len() == 0,
        r.error == Some(error),
        !r.passed,
{
    CaseResult {
        name: c.name.clone(),
        direction: c.direction,
        input: c.input.clone(),
        expected: copy_strings(&c.expect),
        actual: Vec::new(),
        error: Some(error),
        passed: false,
    }
}

/// The error text that a failed batch in direction `d` gives its cases.
fn batch_error(d: Direction, e: &LookupError) -> (r: String)
    ensures
        r@ == batch_error_text(d, *e),
{
    let detail = e.describe();
    let mut s = match d {
        Direction::Analyze => {
            proof {
                reveal_strlit("Batch analyze error: ");
            }
            String::from_str("Batch analyze error: ")
        },
        Direction::Generate => {
            proof {
                reveal_strlit("Batch generate error: ");
            }
            String::from_str("Batch generate error: ")
        },
    };
    s.append(detail.as_str());
    s
}

/// The verdict on each case, given what the analyze batch and the generate
/// batch gave. The batch of a direction holds the inputs of the cases in that
/// direction, in case order.
pub fn judge_cases(
    cases: &Vec<TestCase>,
    analyzed: &Result<Vec<Vec<String>>, LookupError>,
    generated: &Result<Vec<Vec<String>>, LookupError>,
    ignore_extra_analyses: bool,
) -> (r: Vec<CaseResult>)
    ensures
        r.len() == cases.len(),
        forall|i: int|
            0 <= i < r.len() ==> judged(
                #[trigger] r@[i],
                cases@[i],
                outcome_of(cases@[i].direction, *analyzed, *generated),
                rank(cases@, i, cases@[i].direction) as int,
                ignore_extra_analyses,
            ),
{
    let mut out: Vec<CaseResult> = Vec::new();
    let mut ka: usize = 0;
    let mut kg: usize = 0;
    let mut i: usize = 0;
    while i < cases.len()
        invariant
            i <= cases.len(),
            out.len() == i,
            ka == rank(cases@, i as int, Direction::Analyze),
            kg == rank(cases@, i as int, Direction::Generate),
            ka + kg == i,
            forall|j: int|
                0 <= j < i ==> judged(
                    #[trigger] out@[j],
                    cases@[j],
                    outcome_of(cases@[j].direction, *analyzed, *generated),
                    rank(cases@, j, cases@[j].direction) as int,
                    ignore_extra_analyses,
                ),
        decreases cases.len() - i,
    {
        let c = &cases[i];
        let (outcome, k) = if c.direction == Direction::Analyze {
            (analyzed, ka)
        } else {
            (generated, kg)
        };
        let result = match outcome {
            Ok(rs) => {
                if k < rs.len() {
                    verdict_from(c, &rs[k], ignore_extra_analyses)
                } else {
                    proof {
                        reveal_strlit("Not processed");
                    }
                    let msg = String::from_str("Not processed");
                    assert(msg@ =~= not_processed_text());
                    failed_with(c, msg)
                }
            },
            Err(e) => failed_with(c, batch_error(c.direction, e)),
        };
        assert(k == rank(cases@, i as int, c.direction));
        assert(judged(
            result,
            cases@[i as int],
            outcome_of(cases@[i as int].direction, *analyzed, *generated),
            k as int,
            ignore_extra_analyses,
        ));
        let ghost before = out@;
        out.push(result);
        assert(forall|j: int| 0 <= j < i ==> out@[j] == before[j]);
        if c.direction == Direction::Analyze {
            ka = ka + 1;
        } else {
            kg = kg + 1;
        }
        i = i + 1;
    }
    out
}

/// Counts the passed verdicts of `results`.
fn passed_count(results: &Vec<CaseResult>) -> (r: usize)
    ensures
        r == count_passed(results@),
        r <= results.len(),
{
    let mut n: usize = 0;
    let mut i: usize = 0;
    while i < results.len()
        invariant
            i <= results.len(),
            n == count_passed(results@.subrange(0, i as int)),
            n <= i,
        decreases results.len() - i,
    {
        let ghost s1 = results@.subrange(0, i as int + 1);
        assert(s1.drop_last() =~= results@.subrange(0, i as int));
        if results[i].passed {
            n = n + 1;
        }
        i = i + 1;
    }
    assert(results@.subrange(0, results.len() as int) =~= results@);
    n
}

/// The summary of a list of verdicts: counted by case, and by single
/// expectation when that count fits in a `usize` (else those counts are 0).
pub fn summarize(results: Vec<CaseResult>, ignore_extra_analyses: bool) -> (r: Summary)
    ensures
        r.cases@ == results@,
        r.total == results.len(),
        r.passed == count_passed(results@),
        r.failed == r.total - r.passed,
        expectation_counts(results@, ignore_extra_analyses).2 <= usize::MAX ==> (
        r.passed_expectations as nat,
        r.failed_expectations as nat,
        r.total_expectations as nat,
        ) == expectation_counts(results@, ignore_extra_analyses),
        expectation_counts(results@, ignore_extra_analyses).2 > usize::MAX ==> r.total_expectations
            == 0 && r.passed_expectations == 0 && r.failed_expectations == 0,
{
    let passed = passed_count(&results);
    let (pe, fe, te) = match calculate_counts(results.as_slice(), ignore_extra_analyses) {
        Some(t) => t,
        None => (0, 0, 0),
    };
    Summary {
        total: results.len(),
        passed,
        failed: results.len() - passed,
        cases: results,
        total_expectations: te,
        passed_expectations: pe,
        failed_expectations: fe,
    }
}

/// The inputs of the cases in direction `d`, in case order.
pub open spec fn inputs_in(cases: Seq<TestCase>, d: Direction) -> Seq<Seq<char>>
    decreases cases.len(),
{
    if cases.len() == 0 {
        Seq::empty()
    } else if cases.last().direction == d {
        inputs_in(cases.drop_last(), d).push(cases.last().input@)
    } else {
        inputs_in(cases.drop_last(), d)
    }
}

proof fn lemma_inputs_len(cases: Seq<TestCase>, d: Direction)
    ensures
        inputs_in(cases, d).len() == rank(cases, cases.len() as int, d),
    decreases cases.len(),
{
    if cases.len() > 0 {
        lemma_inputs_len(cases.drop_last(), d);
        assert(forall|j: int| 0 <= j < cases.len() - 1 ==> cases.drop_last()[j] == cases[j]);
        lemma_rank_agree(cases.drop_last(), cases, cases.len() - 1, d);
    }
}

/// Ranks up to `i` depend on the first `i` directions only.
proof fn lemma_rank_agree(a: Seq<TestCase>, b: Seq<TestCase>, i: int, d: Direction)
    requires
        0 <= i <= a.len(),
        i <= b.len(),
        forall|j: int| 0 <= j < i ==> (#[trigger] a[j]).direction == b[j].direction,
    ensures
        rank(a, i, d) == rank(b, i, d),
    decreases i,
{
    if i > 0 {
        lemma_rank_agree(a, b, i - 1, d);
    }
}

/// The inputs of the cases that go in direction `d`, in case order: the
/// batch of that direction.
pub fn inputs_of(cases: &Vec<TestCase>, d: Direction) -> (r: Vec<String>)
    ensures
        views(r@) == inputs_in(cases@, d),
        r.len() == rank(cases@, cases.len() as int, d),
{
    let mut out: Vec<String> = Vec::new();
    let mut i: usize = 0;
    while i < cases.len()
        invariant
            i <= cases.len(),
            views(out@) == inputs_in(cases@.subrange(0, i as int), d),
        decreases cases.len() - i,
    {
        let ghost s1 = cases@.subrange(0, i as int + 1);
        assert(s1.drop_last() =~= cases@.subrange(0, i as int));
        let ghost before = out@;
        if cases[i].direction == d {
            out.push(cases[i].input.clone());
            assert(views(out@) =~= views(before).push(cases@[i as int].input@));
        }
        i = i + 1;
    }
    assert(cases@.subrange(0, cases.len() as int) =~= cases@);
    proof {
        lemma_inputs_len(cases@, d);
    }
    out
}

/// The cases of `suites`, suite after suite.
pub fn collect_cases(suites: &[TestSuite]) -> (r: Vec<TestCase>)
    ensures
        r.len() == all_cases(suites@).len(),
        forall|j: int|
            0 <= j < r.len() ==> {
                let c = all_cases(suites@)[j];
                &&& (#[trigger] r@[j]).name@ == c.name@
                &&& r@[j].direction == c.direction
                &&& r@[j].input@ == c.input@
                &&& r@[j].expect@ == c.expect@
            },
{
    let mut cases: Vec<TestCase> = Vec::new();
    let mut s: usize = 0;
    while s < suites.len()
        invariant
            s <= suites.len(),
            cases.len() == all_cases(suites@.subrange(0, s as int)).len(),
            forall|j: int|
                0 <= j < cases.len() ==> {
                    let c = all_cases(suites@.subrange(0, s as int))[j];
                    &&& (#[trigger] cases@[j]).name@ == c.name@
                    &&& cases@[j].direction == c.direction
                    &&& cases@[j].input@ == c.input@
                    &&& cases@[j].expect@ == c.expect@
                },
        decreases suites.len() - s,
    {
        let ghost prefix = suites@.subrange(0, s as int);
        let ghost next = suites@.subrange(0, s as int + 1);
        assert(next.drop_last() =~= prefix);
        let suite = &suites[s];
        let mut k: usize = 0;
        let ghost base = cases.len();
        while k < suite.cases.len()
            invariant
                k <= suite.cases.len(),
                base == all_cases(prefix).len(),
                cases.len() == base + k,
                forall|j: int|
                    0 <= j < cases.len() ==> {
                        let c = (all_cases(prefix) + suite.cases@)[j];
                        &&& (#[trigger] cases@[j]).name@ == c.name@
                        &&& cases@[j].direction == c.direction
                        &&& cases@[j].input@ == c.input@
                        &&& cases@[j].expect@ == c.expect@
                    },
            decreases suite.cases.len() - k,
        {
            cases.push(copy_case(&suite.cases[k]));
            k = k + 1;
        }
        assert(all_cases(next) == all_cases(prefix) + suite.cases@);
        assert(suite.cases@.subrange(0, k as int) =~= suite.cases@);
        s = s + 1;
    }
    assert(suites@.subrange(0, suites.len() as int) =~= suites@);
    cases
}

/// Runs every case of `suites` through `backend`: one analyze batch and one
/// generate batch, each holding the inputs of its cases in order. A failed
/// batch fails each of its cases with the error; the other batch is not
/// affected.
pub fn run_suites<B: Backend>(backend: &B, suites: &[TestSuite], ignore_extra_analyses: bool) -> (r:
    Summary)
    ensures
        r.total == all_cases(suites@).len(),
        r.cases.len() == r.total,
        r.passed == count_passed(r.cases@),
        r.failed == r.total - r.passed,
        expectation_counts(r.cases@, ignore_extra_analyses).2 <= usize::MAX ==> (
        r.passed_expectations as nat,
        r.failed_expectations as nat,
        r.total_expectations as nat,
        ) == expectation_counts(r.cases@, ignore_extra_analyses),
        exists|analyzed: Result<Vec<Vec<String>>, LookupError>, generated: Result<Vec<Vec<String>>, LookupError>|
            #[trigger] all_judged(r.cases@, all_cases(suites@), analyzed, generated, ignore_extra_analyses),
{
    let cases = collect_cases(suites);
    let n_analyze = inputs_of(&cases, Direction::Analyze);
    let analyzed = if n_analyze.len() == 0 {
        Ok(Vec::new())
    } else {
        backend.analyze_batch(n_analyze.as_slice())
    };
    let n_generate = inputs_of(&cases, Direction::Generate);
    let generated = if n_generate.len() == 0 {
        Ok(Vec::new())
    } else {
        backend.generate_batch(n_generate.as_slice())
    };
    let results = judge_cases(&cases, &analyzed, &generated, ignore_extra_analyses);
    proof {
        lemma_rank_same_cases(cases@, all_cases(suites@));
    }
    let r = summarize(results, ignore_extra_analyses);
    assert forall|i: int| 0 <= i < r.cases.len() implies #[trigger] judged(
        #[trigger] r.cases@[i],
        all_cases(suites@)[i],
        outcome_of(all_cases(suites@)[i].direction, analyzed, generated),
        rank(all_cases(suites@), i, all_cases(suites@)[i].direction) as int,
        ignore_extra_analyses,
    ) by {
        assert(judged(
            results@[i],
            cases@[i],
            outcome_of(cases@[i].direction, analyzed, generated),
            rank(cases@, i, cases@[i].direction) as int,
            ignore_extra_analyses,
        ));
        assert(rank(cases@, i, cases@[i].direction) == rank(all_cases(suites@), i, all_cases(suites@)[i].direction));
    }
    assert(all_judged(r.cases@, all_cases(suites@), analyzed, generated, ignore_extra_analyses));
    r
}

/// A batch that fails fails each of its cases with a non-empty error and no
/// result, and leaves the verdicts on the cases of the other direction to
/// that direction's own outcome.
pub proof fn lemma_failed_batch_isolated(
    rs: Seq<CaseResult>,
    cases: Seq<TestCase>,
    analyzed: Result<Vec<Vec<String>>, LookupError>,
    generated: Result<Vec<Vec<String>>, LookupError>,
    other: Result<Vec<Vec<String>>, LookupError>,
    ignore_extra_analyses: bool,
    i: int,
)
    requires
        all_judged(rs, cases, analyzed, generated, ignore_extra_analyses),
        0 <= i < rs.len(),
    ensures
        outcome_of(cases[i].direction, analyzed, generated) is Err ==> {
            &&& !rs[i].passed
            &&& rs[i].actual@.len() == 0
            &&& rs[i].error is Some
            &&& rs[i].error->0@.len() > 0
        },
        cases[i].direction == Direction::Generate ==> judged(
            rs[i],
            cases[i],
            outcome_of(cases[i].direction, other, generated),
            rank(cases, i, cases[i].direction) as int,
            ignore_extra_analyses,
        ),
        cases[i].direction == Direction::Analyze ==> judged(
            rs[i],
            cases[i],
            outcome_of(cases[i].direction, analyzed, other),
            rank(cases, i, cases[i].direction) as int,
            ignore_extra_analyses,
        ),
{
    assert(judged(
        rs[i],
        cases[i],
        outcome_of(cases[i].direction, analyzed, generated),
        rank(cases, i, cases[i].direction) as int,
        ignore_extra_analyses,
    ));
}

/// Ranks depend on directions alone.
proof fn lemma_rank_same_cases(a: Seq<TestCase>, b: Seq<TestCase>)
    requires
        a.len() == b.len(),
        forall|j: int| 0 <= j < a.len() ==> (#[trigger] a[j]).direction == b[j].direction,
    ensures
        forall|i: int, d: Direction| 0 <= i <= a.len() ==> #[trigger] rank(a, i, d) == rank(b, i, d),
{
    assert forall|i: int, d: Direction| 0 <= i <= a.len() implies #[trigger] rank(a, i, d) == rank(b, i, d) by {
        lemma_rank_same_upto(a, b, i, d);
    }
}

proof fn lemma_rank_same_upto(a: Seq<TestCase>, b: Seq<TestCase>, i: int, d: Direction)
    requires
        0 <= i <= a.len() == b.len(),
        forall|j: int| 0 <= j < a.len() ==> (#[trigger] a[j]).direction == b[j].direction,
    ensures
        rank(a, i, d) == rank(b, i, d),
    decreases i,
{
    if i > 0 {
        lemma_rank_same_upto(a, b, i - 1, d);
        assert(a[i - 1].direction == b[i - 1].direction);
    }
}

} // verus!
