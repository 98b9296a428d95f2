use morph_test2::config::OneOrMany;
use morph_test2::group::{group_keys, group_pairs};
use morph_test2::lexc::{lexc_cases, parse_lexc_test_data};
use morph_test2::report::{parse_group, report_blocks};
use morph_test2::select::{select_blocks, TestSelection};
use morph_test2::engine::{run_suites, Backend};
use morph_test2::types::{Direction, LookupError, TestCase, TestSuite};
use morph_test2::yaml::cases_from_tests;

fn strings(v: &[&str]) -> Vec<String> {
    v.iter().map(|s| s.to_string()).collect()
}

const LEXC: &str = "LEXICON Root\n\
!!€gt-norm: verbs # regular\n\
!!€ goarkam: goarkat+V+Ind+Prs+Sg1 ! first person\n\
!!€ goarkat: goarkat+V+Inf\n\
!!€ goarkan: goarkat+V+Ind+Prs+Sg1\n\
!!€gt-norm: empty\n\
!!€gt-desc: nouns\n\
  !!€ beana: beana+N+Sg+Nom\n\
!!€ goarkam: goarkat+V+Ind+Prs+Sg3\n";

#[test]
fn lexc_sets_are_parsed() {
    let sets = parse_lexc_test_data(LEXC);
    assert_eq!(sets.len(), 2);
    assert_eq!(sets[0].fst_type, "gt-norm");
    assert_eq!(sets[0].test_name, "verbs");
    let first: Vec<(&str, &str)> = sets[0].tests.iter().map(|(k, v)| (k.as_str(), v.as_str())).collect();
    assert_eq!(
        first,
        vec![
            ("goarkam", "goarkat+V+Ind+Prs+Sg1"),
            ("goarkat", "goarkat+V+Inf"),
            ("goarkan", "goarkat+V+Ind+Prs+Sg1"),
        ]
    );
    assert_eq!(sets[1].fst_type, "gt-desc");
    let second: Vec<(&str, &str)> = sets[1].tests.iter().map(|(k, v)| (k.as_str(), v.as_str())).collect();
    assert_eq!(
        second,
        vec![("beana", "beana+N+Sg+Nom"), ("goarkam", "goarkat+V+Ind+Prs+Sg3")]
    );
}

#[test]
fn lexc_entries_before_a_header_are_dropped() {
    assert!(parse_lexc_test_data("!!€ a: b\n!!€x\n").is_empty());
    assert!(parse_lexc_test_data("").is_empty());
}

#[test]
fn lexc_redefined_surface_keeps_its_place() {
    let sets = parse_lexc_test_data("!!€t: n\n!!€ a: x\n!!€ b: y\n!!€ a: z\n");
    let pairs: Vec<(&str, &str)> = sets[0].tests.iter().map(|(k, v)| (k.as_str(), v.as_str())).collect();
    assert_eq!(pairs, vec![("a", "z"), ("b", "y")]);
}

fn summary(c: &TestCase) -> (String, Direction, String, Vec<String>) {
    (c.name.clone(), c.direction, c.input.clone(), c.expect.clone())
}

#[test]
fn lexc_cases_group_surfaces_by_analysis() {
    let sets = parse_lexc_test_data(LEXC);
    let cases: Vec<_> = lexc_cases(&sets[0], "gt-norm").iter().map(summary).collect();
    let g = "verbs (gt-norm)";
    assert_eq!(
        cases,
        vec![
            (format!("{g}: goarkat+V+Ind+Prs+Sg1"), Direction::Generate, "goarkat+V+Ind+Prs+Sg1".to_string(), strings(&["goarkam", "goarkan"])),
            (format!("{g}: goarkat+V+Inf"), Direction::Generate, "goarkat+V+Inf".to_string(), strings(&["goarkat"])),
            (format!("{g}: goarkam"), Direction::Analyze, "goarkam".to_string(), strings(&["goarkat+V+Ind+Prs+Sg1"])),
            (format!("{g}: goarkat"), Direction::Analyze, "goarkat".to_string(), strings(&["goarkat+V+Inf"])),
            (format!("{g}: goarkan"), Direction::Analyze, "goarkan".to_string(), strings(&["goarkat+V+Ind+Prs+Sg1"])),
        ]
    );
}

#[test]
fn keys_group_in_first_seen_order() {
    let groups = group_keys(&strings(&["b", "a", "b", "c", "a"]));
    assert_eq!(
        groups,
        vec![
            ("b".to_string(), vec![0, 2]),
            ("a".to_string(), vec![1, 4]),
            ("c".to_string(), vec![3]),
        ]
    );
    let pairs = vec![
        ("x".to_string(), "g".to_string()),
        ("x".to_string(), "h".to_string()),
        ("x".to_string(), "g".to_string()),
    ];
    assert_eq!(
        group_pairs(&pairs),
        vec![
            (("x".to_string(), "g".to_string()), vec![0, 2]),
            (("x".to_string(), "h".to_string()), vec![1]),
        ]
    );
}

struct MockGen;

impl Backend for MockGen {
    fn analyze_batch(&self, inputs: &[String]) -> Result<Vec<Vec<String>>, LookupError> {
        Ok(inputs
            .iter()
            .map(|input| match input.as_str() {
                "gæljoejidie" => vec!["gæljodh+V+TV+Ind+Prs+Pl2".into()],
                "bar" => vec!["foo+V".into()],
                "baz" => vec!["foo+V".into()],
                _ => vec![],
            })
            .collect())
    }

    fn generate_batch(&self, inputs: &[String]) -> Result<Vec<Vec<String>>, LookupError> {
        Ok(inputs
            .iter()
            .map(|input| match input.as_str() {
                "gæljodh+V+TV+Ind+Prs+Pl2" => vec!["gæljoejidie".into()],
                "foo+V" => vec!["bar".into(), "baz".into()],
                _ => vec![],
            })
            .collect())
    }

    fn validate(&self) -> Result<(), LookupError> {
        Ok(())
    }
}

#[test]
fn trims_spaces_in_yaml_keys_and_values() {
    let tests = vec![(
        "Verb - sample".to_string(),
        vec![
            (
                "gæljodh+V+TV+Ind+Prs+Pl2   ".to_string(),
                OneOrMany::One("   gæljoejidie ".to_string()),
            ),
            (
                "foo+V".to_string(),
                OneOrMany::Many(strings(&["bar  ", "  baz"])),
            ),
        ],
    )];
    let suite = TestSuite {
        name: "suite.yaml".to_string(),
        cases: cases_from_tests(&tests),
    };
    let c1 = suite.cases.iter().find(|c| c.input.starts_with("gæljodh+")).unwrap();
    assert_eq!(c1.input, "gæljodh+V+TV+Ind+Prs+Pl2");
    assert_eq!(c1.expect, vec!["gæljoejidie"]);
    let c2 = suite.cases.iter().find(|c| c.input == "foo+V").unwrap();
    assert_eq!(c2.expect, vec!["bar", "baz"]);
    let summary = run_suites(&MockGen, &[suite.clone()], true);
    assert_eq!(summary.failed, 0);
}

#[test]
fn yaml_cases_with_negatives_and_inverted_analyses() {
    let tests = vec![
        (
            " g ".to_string(),
            vec![
                ("l1".to_string(), OneOrMany::Many(strings(&["s1", "~bad", "s2"]))),
                ("l0".to_string(), OneOrMany::One("s1".to_string())),
            ],
        ),
        ("h".to_string(), vec![("l2".to_string(), OneOrMany::One("s1".to_string()))]),
    ];
    let cases = cases_from_tests(&tests);
    let views: Vec<_> = cases.iter().map(summary).collect();
    assert_eq!(
        views,
        vec![
            ("g: l1".to_string(), Direction::Generate, "l1".to_string(), strings(&["s1", "s2"])),
            ("Analysis (negative): bad".to_string(), Direction::Analyze, "bad".to_string(), vec![]),
            ("g: l0".to_string(), Direction::Generate, "l0".to_string(), strings(&["s1"])),
            ("h: l2".to_string(), Direction::Generate, "l2".to_string(), strings(&["s1"])),
            ("g: s1".to_string(), Direction::Analyze, "s1".to_string(), strings(&["l0", "l1"])),
            ("g: s2".to_string(), Direction::Analyze, "s2".to_string(), strings(&["l1"])),
            ("h: s1".to_string(), Direction::Analyze, "s1".to_string(), strings(&["l2"])),
        ]
    );
    assert_eq!(cases[0].expect_not, strings(&["bad"]));
}

#[test]
fn case_names_split_at_first_colon() {
    assert_eq!(parse_group("Verbs: a: b"), ("Verbs".to_string(), "a: b".to_string()));
    assert_eq!(parse_group("plain"), ("plain".to_string(), String::new()));
    assert_eq!(parse_group("x:y"), ("x:y".to_string(), String::new()));
}

#[test]
fn report_blocks_by_group_and_direction() {
    let entries = vec![
        ("g: a".to_string(), Direction::Generate),
        ("g: b".to_string(), Direction::Analyze),
        ("h: c".to_string(), Direction::Generate),
        ("g: d".to_string(), Direction::Generate),
    ];
    let blocks: Vec<(String, Direction, Vec<usize>)> = report_blocks(&entries)
        .into_iter()
        .map(|b| (b.group, b.direction, b.positions))
        .collect();
    assert_eq!(
        blocks,
        vec![
            ("g".to_string(), Direction::Generate, vec![0, 3]),
            ("g".to_string(), Direction::Analyze, vec![1]),
            ("h".to_string(), Direction::Generate, vec![2]),
        ]
    );
}

fn selected(wanted: &str) -> String {
    let titles = strings(&["Verbs (Generation)", "Verbs (Analysis)", "Nouns (Generation)"]);
    let groups = strings(&["Verbs", "Verbs", "Nouns"]);
    match select_blocks(wanted, &titles, &groups) {
        TestSelection::List => "list".to_string(),
        TestSelection::Blocks(v) => format!("{v:?}"),
        TestSelection::BadNumber(n) => format!("bad {n}"),
        TestSelection::NotFound => "none".to_string(),
    }
}

#[test]
fn test_selectors() {
    assert_eq!(selected("0"), "list");
    assert_eq!(selected(" NULL "), "list");
    assert_eq!(selected("Liste"), "list");
    assert_eq!(selected("2"), "[1]");
    assert_eq!(selected("+3"), "[2]");
    assert_eq!(selected("4"), "bad 4");
    assert_eq!(selected("00"), "bad 0");
    assert_eq!(selected("Verbs (Analysis)"), "[1]");
    assert_eq!(selected("Verbs"), "[0, 1]");
    assert_eq!(selected("Adjectives"), "none");
    assert_eq!(selected("99999999999999999999999"), "none");
}
