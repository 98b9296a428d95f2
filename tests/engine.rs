use morph_test2::backend::{batch_from_run, ExternalBackend, DEFAULT_TIMEOUT_SECS};
use morph_test2::codec::decode_output;
use morph_test2::dispatch::{chunk_bounds, chunk_size, merge_chunks};
use morph_test2::engine::{expected_subset_of_actual, run_suites, set_eq, Backend};
use morph_test2::pool::{capacity_for, may_reuse, pool_capacity, Liveness};
use morph_test2::report::{calculate_counts, extra_results, is_pass_empty_expected};
use morph_test2::types::{CaseResult, Direction, LookupError, TestCase, TestSuite};

fn strings(v: &[&str]) -> Vec<String> {
    v.iter().map(|s| s.to_string()).collect()
}

fn case(name: &str, direction: Direction, input: &str, expect: &[&str]) -> TestCase {
    TestCase {
        name: name.into(),
        direction,
        input: input.into(),
        expect: strings(expect),
        expect_not: vec![],
    }
}

/// Answers each batch from one fixed block of tool output.
struct ToolOutput {
    analyze: Result<String, LookupError>,
    generate: Result<String, LookupError>,
}

impl Backend for ToolOutput {
    fn analyze_batch(&self, inputs: &[String]) -> Result<Vec<Vec<String>>, LookupError> {
        match &self.analyze {
            Ok(text) => Ok(decode_output(text, inputs)),
            Err(e) => Err(e.clone()),
        }
    }

    fn generate_batch(&self, inputs: &[String]) -> Result<Vec<Vec<String>>, LookupError> {
        match &self.generate {
            Ok(text) => Ok(decode_output(text, inputs)),
            Err(e) => Err(e.clone()),
        }
    }

    fn validate(&self) -> Result<(), LookupError> {
        Ok(())
    }
}

#[test]
fn end_to_end_mixed_order_output() {
    let suite = TestSuite {
        name: "verbs".into(),
        cases: vec![
            case("v: bar+V", Direction::Generate, "bar+V", &["b1"]),
            case("v: baz+V", Direction::Generate, "baz+V", &["b2", "b3"]),
        ],
    };
    let backend = ToolOutput {
        analyze: Ok(String::new()),
        generate: Ok("baz+V\tb3\nbar+V\tb1\nbaz+V\tb2\n".into()),
    };
    let summary = run_suites(&backend, &[suite], false);
    assert_eq!(summary.total, 2);
    assert_eq!(summary.passed, 2);
    assert_eq!(summary.failed, 0);
    assert_eq!(summary.cases[0].input, "bar+V");
    assert_eq!(summary.cases[1].input, "baz+V");
}

#[test]
fn no_result_marker_passes_empty_expectation() {
    let suite = TestSuite {
        name: "s".into(),
        cases: vec![case("g: a", Direction::Analyze, "a", &[])],
    };
    let backend = ToolOutput {
        analyze: Ok("a\t+inf\n".into()),
        generate: Ok(String::new()),
    };
    let summary = run_suites(&backend, &[suite], false);
    assert_eq!(summary.passed, 1);
    assert!(summary.cases[0].actual.is_empty());
    assert!(summary.cases[0].error.is_none());
}

#[test]
fn summary_counts_expectations() {
    let suite = TestSuite {
        name: "s".into(),
        cases: vec![
            case("g: l", Direction::Generate, "l", &["a", "b"]),
            case("g: w", Direction::Analyze, "w", &["x"]),
        ],
    };
    let backend = ToolOutput {
        analyze: Ok("w\tx\nw\ty\n".into()),
        generate: Ok("l\ta\n".into()),
    };
    let summary = run_suites(&backend, &[suite], false);
    assert_eq!(summary.total_expectations, 4);
    assert_eq!(summary.passed_expectations, 2);
    assert_eq!(summary.failed_expectations, 2);
}

#[test]
fn comparison_policies() {
    let expected = strings(&["X", "Y"]);
    let more = strings(&["X", "Y", "Z"]);
    let fewer = strings(&["X"]);
    assert!(!set_eq(&more, &expected));
    assert!(expected_subset_of_actual(&more, &expected));
    assert!(!set_eq(&fewer, &expected));
    assert!(!expected_subset_of_actual(&fewer, &expected));
    assert!(set_eq(&strings(&["Y", "X", "X"]), &expected));
}

#[test]
fn extra_analyses_fail_only_without_ignore() {
    let suite = TestSuite {
        name: "s".into(),
        cases: vec![case("g: w", Direction::Analyze, "w", &["X", "Y"])],
    };
    let backend = ToolOutput {
        analyze: Ok("w\tX\nw\tY\nw\tZ\n".into()),
        generate: Ok(String::new()),
    };
    let strict = run_suites(&backend, &[suite.clone()], false);
    assert_eq!(strict.failed, 1);
    let lenient = run_suites(&backend, &[suite], true);
    assert_eq!(lenient.passed, 1);
}

#[test]
fn generate_ignores_the_subset_option() {
    let suite = TestSuite {
        name: "s".into(),
        cases: vec![case("g: l", Direction::Generate, "l", &["X"])],
    };
    let backend = ToolOutput {
        analyze: Ok(String::new()),
        generate: Ok("l\tX\nl\tZ\n".into()),
    };
    let summary = run_suites(&backend, &[suite], true);
    assert_eq!(summary.failed, 1);
}

#[test]
fn failed_batch_fails_its_cases_only() {
    let suite = TestSuite {
        name: "s".into(),
        cases: vec![
            case("a: w", Direction::Analyze, "w", &["X"]),
            case("g: l", Direction::Generate, "l", &["w"]),
        ],
    };
    let backend = ToolOutput {
        analyze: Err(LookupError::Timeout("30 s".into())),
        generate: Ok("l\tw\n".into()),
    };
    let summary = run_suites(&backend, &[suite], false);
    assert_eq!(summary.total, 2);
    assert_eq!(summary.passed, 1);
    assert_eq!(summary.failed, 1);
    let a = &summary.cases[0];
    assert!(!a.passed);
    assert!(a.actual.is_empty());
    assert_eq!(a.error.as_deref(), Some("Batch analyze error: timeout: 30 s"));
    let g = &summary.cases[1];
    assert!(g.passed);
    assert!(g.error.is_none());
}

#[test]
fn generate_batch_error_text() {
    let suite = TestSuite {
        name: "s".into(),
        cases: vec![case("g: l", Direction::Generate, "l", &["w"])],
    };
    let backend = ToolOutput {
        analyze: Ok(String::new()),
        generate: Err(LookupError::NotConfigured(Direction::Generate)),
    };
    let summary = run_suites(&backend, &[suite], false);
    assert_eq!(
        summary.cases[0].error.as_deref(),
        Some("Batch generate error: no generator")
    );
}

struct ShortBackend;

impl Backend for ShortBackend {
    fn analyze_batch(&self, _inputs: &[String]) -> Result<Vec<Vec<String>>, LookupError> {
        Ok(vec![])
    }

    fn generate_batch(&self, _inputs: &[String]) -> Result<Vec<Vec<String>>, LookupError> {
        Ok(vec![])
    }

    fn validate(&self) -> Result<(), LookupError> {
        Ok(())
    }
}

#[test]
fn missing_answers_are_not_processed() {
    let suite = TestSuite {
        name: "s".into(),
        cases: vec![case("a: w", Direction::Analyze, "w", &[])],
    };
    let summary = run_suites(&ShortBackend, &[suite], false);
    assert_eq!(summary.failed, 1);
    assert_eq!(summary.cases[0].error.as_deref(), Some("Not processed"));
    assert_eq!(summary.cases[0].name, "a: w");
}

#[test]
fn cases_keep_suite_order() {
    let s1 = TestSuite {
        name: "one".into(),
        cases: vec![
            case("a", Direction::Analyze, "x", &[]),
            case("b", Direction::Generate, "y", &[]),
        ],
    };
    let s2 = TestSuite {
        name: "two".into(),
        cases: vec![case("c", Direction::Analyze, "z", &[])],
    };
    let summary = run_suites(&ShortBackend, &[s1, s2], false);
    let names: Vec<&str> = summary.cases.iter().map(|c| c.name.as_str()).collect();
    assert_eq!(names, vec!["a", "b", "c"]);
}

#[test]
fn no_cases_no_batches() {
    let summary = run_suites(&ShortBackend, &[], false);
    assert_eq!(summary.total, 0);
    assert_eq!(summary.passed, 0);
    assert_eq!(summary.failed, 0);
}

#[test]
fn chunks_cover_batch_in_order() {
    assert_eq!(chunk_size(5, 2), 2);
    assert_eq!(chunk_size(3, 8), 1);
    assert_eq!(chunk_size(0, 4), 1);
    assert_eq!(chunk_bounds(5, 2), vec![(0, 2), (2, 4), (4, 5)]);
    assert_eq!(chunk_bounds(4, 4), vec![(0, 1), (1, 2), (2, 3), (3, 4)]);
    assert_eq!(chunk_bounds(0, 3), vec![]);
    assert_eq!(chunk_bounds(2, 1), vec![(0, 2)]);
}

#[test]
fn merged_chunks_restore_batch_order() {
    let queries = strings(&["q0", "q1", "q2", "q3", "q4"]);
    let answers: Vec<Vec<String>> = queries.iter().map(|q| vec![format!("{q}!")]).collect();
    let parts: Vec<Result<Vec<Vec<String>>, LookupError>> = chunk_bounds(queries.len(), 3)
        .into_iter()
        .map(|(a, b)| Ok(answers[a..b].to_vec()))
        .collect();
    assert_eq!(merge_chunks(parts).unwrap(), answers);
}

#[test]
fn merge_fails_fast_with_first_error() {
    let parts: Vec<Result<Vec<Vec<String>>, LookupError>> = vec![
        Ok(vec![strings(&["a"])]),
        Err(LookupError::Timeout("first".into())),
        Err(LookupError::Io("second".into())),
    ];
    match merge_chunks(parts) {
        Err(LookupError::Timeout(m)) => assert_eq!(m, "first"),
        _ => panic!("expected the first error"),
    }
    assert_eq!(merge_chunks(vec![]).unwrap(), Vec::<Vec<String>>::new());
}

#[test]
fn dead_workers_are_not_reused() {
    assert!(may_reuse(Liveness::Running));
    assert!(!may_reuse(Liveness::Exited));
    assert!(!may_reuse(Liveness::Unknown));
    assert!(pool_capacity() >= 1);
    assert_eq!(capacity_for(0), 1);
    assert_eq!(capacity_for(1), 1);
    assert_eq!(capacity_for(8), 8);
}

fn result(direction: Direction, expected: &[&str], actual: &[&str]) -> CaseResult {
    CaseResult {
        name: "n".into(),
        direction,
        input: "i".into(),
        expected: strings(expected),
        actual: strings(actual),
        error: None,
        passed: false,
    }
}

#[test]
fn expectation_counts() {
    let cases = vec![
        result(Direction::Generate, &["a", "b"], &["a"]),
        result(Direction::Analyze, &["x"], &["x", "y"]),
        result(Direction::Analyze, &[], &[]),
        result(Direction::Generate, &[], &["z"]),
    ];
    assert_eq!(calculate_counts(&cases, false), Some((3, 3, 6)));
    assert_eq!(calculate_counts(&cases, true), Some((3, 2, 5)));
    assert_eq!(calculate_counts(&[], true), Some((0, 0, 0)));
}

#[test]
fn empty_expectation_passes() {
    assert!(is_pass_empty_expected(&result(Direction::Analyze, &[], &["a"]), true));
    assert!(!is_pass_empty_expected(&result(Direction::Analyze, &[], &["a"]), false));
    assert!(is_pass_empty_expected(&result(Direction::Generate, &[], &[]), true));
}

#[test]
fn one_shot_backend_configuration() {
    let b = ExternalBackend {
        lookup_cmd: "flookup".into(),
        generator_fst: Some("gen.foma".into()),
        analyzer_fst: None,
        timeout_secs: None,
        quiet: true,
    };
    assert_eq!(b.transducer_for(Direction::Generate).unwrap(), "gen.foma");
    assert!(matches!(
        b.transducer_for(Direction::Analyze),
        Err(LookupError::NotConfigured(Direction::Analyze))
    ));
    assert_eq!(b.timeout_or_default(), DEFAULT_TIMEOUT_SECS);
    assert_eq!(DEFAULT_TIMEOUT_SECS, 30);
}

#[test]
fn finished_run_is_decoded_or_failed() {
    let inputs = strings(&["a"]);
    assert_eq!(
        batch_from_run(true, "a\tb\n", "", &inputs).unwrap(),
        vec![strings(&["b"])]
    );
    match batch_from_run(false, "", "bad transducer", &inputs) {
        Err(LookupError::Failed(m)) => assert_eq!(m, "bad transducer"),
        _ => panic!("expected a failure"),
    }
}

#[test]
fn error_descriptions() {
    assert_eq!(LookupError::Startup("x".into()).describe(), "startup: x");
    assert_eq!(LookupError::Io("x".into()).describe(), "i/o: x");
    assert_eq!(LookupError::Failed("x".into()).describe(), "failed: x");
    assert_eq!(
        LookupError::NotConfigured(Direction::Analyze).describe(),
        "no analyzer"
    );
}

#[test]
fn extra_results_are_sorted_and_distinct() {
    let case = result(Direction::Analyze, &["x"], &["z", "x", "y", "z"]);
    assert_eq!(extra_results(&case), strings(&["y", "z"]));
}
