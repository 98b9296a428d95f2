//! The records that flow through a run: test cases in, verdicts out.
use crate::text::view_set;
use vstd::prelude::*;

verus! {

/// Whether a query goes from surface to lexical form or the other way.
#[derive(Debug, Clone, Copy, PartialEq, Eq, Structural, PartialOrd, Ord, Hash)]
pub enum Direction {
    /// Surface form to lexical analyses.
    Analyze,
    /// Lexical form to surface forms.
    Generate,
}

/// One expectation: what `input` should give in `direction`.
#[derive(Debug, Clone)]
pub struct TestCase {
    pub name: String,
    pub direction: Direction,
    pub input: String,
    pub expect: Vec<String>,
    pub expect_not: Vec<String>,
}

/// A named list of test cases.
#[derive(Debug, Clone)]
pub struct TestSuite {
    pub name: String,
    pub cases: Vec<TestCase>,
}

/// The verdict on one test case.
#[derive(Debug, Clone)]
pub struct CaseResult {
    pub name: String,
    pub direction: Direction,
    pub input: String,
    pub expected: Vec<String>,
    pub actual: Vec<String>,
    pub error: Option<String>,
    pub passed: bool,
}

/// Counts over a run, with the verdict on each case in order.
#[derive(Debug, Clone)]
pub struct Summary {
    /// Number of test cases.
    pub total: usize,
    /// Number of cases that passed.
    pub passed: usize,
    /// Number of cases that failed.
    pub failed: usize,
    pub cases: Vec<CaseResult>,
    /// Number of single expectations checked.
    pub total_expectations: usize,
    /// Number of single expectations met.
    pub passed_expectations: usize,
    /// Number of single expectations not met.
    pub failed_expectations: usize,
}

impl Default for Summary {
    fn default() -> (r: Summary)
        ensures
            r.total == 0 && r.passed == 0 && r.failed == 0 && r.cases.len() == 0,
            r.total_expectations == 0 && r.passed_expectations == 0 && r.failed_expectations == 0,
    {
        Summary {
            total: 0,
            passed: 0,
            failed: 0,
            cases: Vec::new(),
            total_expectations: 0,
            passed_expectations: 0,
            failed_expectations: 0,
        }
    }
}

/// Why a batch of lookups failed.
#[derive(Debug, Clone)]
pub enum LookupError {
    /// The lookup command could not be started.
    Startup(String),
    /// Writing to or reading from the tool failed.
    Io(String),
    /// The tool did not answer in time.
    Timeout(String),
    /// No transducer is configured for the direction.
    NotConfigured(Direction),
    /// The tool ran but reported failure.
    Failed(String),
}

/// The description of an error, as a run reports it.
pub open spec fn error_text(e: LookupError) -> Seq<char> {
    match e {
        LookupError::Startup(d) => seq!['s', 't', 'a', 'r', 't', 'u', 'p', ':', ' '] + d@,
        LookupError::Io(d) => seq!['i', '/', 'o', ':', ' '] + d@,
        LookupError::Timeout(d) => seq!['t', 'i', 'm', 'e', 'o', 'u', 't', ':', ' '] + d@,
        LookupError::NotConfigured(Direction::Analyze) => seq![
            'n',
            'o',
            ' ',
            'a',
            'n',
            'a',
            'l',
            'y',
            'z',
            'e',
            'r',
        ],
        LookupError::NotConfigured(Direction::Generate) => seq![
            'n',
            'o',
            ' ',
            'g',
            'e',
            'n',
            'e',
            'r',
            'a',
            't',
            'o',
            'r',
        ],
        LookupError::Failed(d) => seq!['f', 'a', 'i', 'l', 'e', 'd', ':', ' '] + d@,
    }
}

/// A string made of `prefix` followed by `rest`.
fn joined(prefix: &str, rest: &str) -> (r: String)
    ensures
        r@ == prefix@ + rest@,
{
    let mut s = String::from_str(prefix);
    s.append(rest);
    s
}

impl LookupError {
    /// The description of the error.
    pub fn describe(&self) -> (r: String)
        ensures
            r@ == error_text(*self),
    {
        match self {
            LookupError::Startup(d) => {
                proof {
                    reveal_strlit("startup: ");
                }
                joined("startup: ", d.as_str())
            },
            LookupError::Io(d) => {
                proof {
                    reveal_strlit("i/o: ");
                }
                joined("i/o: ", d.as_str())
            },
            LookupError::Timeout(d) => {
                proof {
                    reveal_strlit("timeout: ");
                }
                joined("timeout: ", d.as_str())
            },
            LookupError::NotConfigured(Direction::Analyze) => {
                proof {
                    reveal_strlit("no analyzer");
                }
                String::from_str("no analyzer")
            },
            LookupError::NotConfigured(Direction::Generate) => {
                proof {
                    reveal_strlit("no generator");
                }
                String::from_str("no generator")
            },
            LookupError::Failed(d) => {
                proof {
                    reveal_strlit("failed: ");
                }
                joined("failed: ", d.as_str())
            },
        }
    }
}

/// The verdict of the comparison: with `subset`, every expected string is
/// among the actual ones; otherwise the two sets are equal.
pub open spec fn verdict(expected: Seq<String>, actual: Seq<String>, subset: bool) -> bool {
    if subset {
        view_set(expected).subset_of(view_set(actual))
    } else {
        view_set(actual) == view_set(expected)
    }
}

/// Comparing in `dir`: extra analyses are tolerated only when analyzing and
/// `ignore_extra_analyses` is on.
pub open spec fn uses_subset(dir: Direction, ignore_extra_analyses: bool) -> bool {
    dir == Direction::Analyze && ignore_extra_analyses
}

} // verus!
