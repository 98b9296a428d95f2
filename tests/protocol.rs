use morph_test2::codec::{decode_output, encode_queries, parse_line, LineEntry};
use morph_test2::reader::{BatchReader, ReadEvent, ReadStep, Wait};
use morph_test2::text::trimmed;
use morph_test2::types::LookupError;

fn strings(v: &[&str]) -> Vec<String> {
    v.iter().map(|s| s.to_string()).collect()
}

fn sorted(mut v: Vec<String>) -> Vec<String> {
    v.sort();
    v
}

#[test]
fn no_result_marker_gives_empty_set() {
    let r = decode_output("a\t+inf", &strings(&["a"]));
    assert_eq!(r.len(), 1);
    assert!(r[0].is_empty());
}

#[test]
fn duplicate_lines_collapse() {
    let r = decode_output("a\tx\na\tx\n", &strings(&["a"]));
    assert_eq!(r, vec![vec!["x".to_string()]]);
}

#[test]
fn interleaved_output_is_regrouped_by_query() {
    let r = decode_output(
        "baz+V\tb3\nbar+V\tb1\nbaz+V\tb2\n",
        &strings(&["bar+V", "baz+V"]),
    );
    assert_eq!(r.len(), 2);
    assert_eq!(sorted(r[0].clone()), strings(&["b1"]));
    assert_eq!(sorted(r[1].clone()), strings(&["b2", "b3"]));
}

#[test]
fn duplicate_queries_each_get_the_results() {
    let r = decode_output("a\tx\n", &strings(&["a", " a "]));
    assert_eq!(r, vec![strings(&["x"]), strings(&["x"])]);
}

#[test]
fn lines_for_unknown_queries_are_dropped() {
    let r = decode_output("zzz\tx\na\ty\n", &strings(&["a"]));
    assert_eq!(r, vec![strings(&["y"])]);
}

#[test]
fn comment_without_tab_is_ignored() {
    assert!(matches!(parse_line("# a comment"), LineEntry::Ignored));
    assert!(matches!(parse_line("!warning"), LineEntry::Ignored));
    assert!(matches!(parse_line("   "), LineEntry::Ignored));
    assert!(matches!(parse_line("lonely"), LineEntry::Ignored));
}

#[test]
fn hash_line_with_tab_is_data() {
    match parse_line("#x\t#y") {
        LineEntry::Found(q, r) => {
            assert_eq!(q, "#x");
            assert_eq!(r, "#y");
        }
        _ => panic!("expected a result"),
    }
}

#[test]
fn failure_echo_adds_nothing() {
    match parse_line("abc\tabc\t+?") {
        LineEntry::Echo(q) => assert_eq!(q, "abc"),
        _ => panic!("expected an echo"),
    }
    match parse_line("abc\tabd\t+?") {
        LineEntry::Found(_, r) => assert_eq!(r, "abd"),
        _ => panic!("expected a result"),
    }
}

#[test]
fn at_sign_and_empty_results_add_nothing() {
    assert!(matches!(parse_line("q\t@"), LineEntry::Echo(_)));
    assert!(matches!(parse_line("q\t \tx"), LineEntry::Echo(_)));
    assert!(matches!(parse_line("q\t+inf\t0"), LineEntry::Echo(_)));
}

#[test]
fn columns_are_trimmed() {
    match parse_line("  q  \t  r  \t0.5") {
        LineEntry::Found(q, r) => {
            assert_eq!(q, "q");
            assert_eq!(r, "r");
        }
        _ => panic!("expected a result"),
    }
}

#[test]
fn queries_are_trimmed_and_newline_terminated() {
    assert_eq!(encode_queries(&strings(&[" a ", "b\t"])), "a\nb\n");
    assert_eq!(encode_queries(&[]), "");
}

#[test]
fn trimming_matches_std() {
    assert_eq!(trimmed("  x y \u{3000}"), "x y");
    assert_eq!(trimmed(""), "");
}

#[test]
fn reader_drains_once_all_queries_are_echoed() {
    let mut reader = BatchReader::new(&strings(&["bar+V", "baz+V"]));
    assert_eq!(reader.next_wait(), Wait::Idle);
    assert!(matches!(reader.step(ReadEvent::Line("baz+V\tb3".into())), ReadStep::More));
    assert_eq!(reader.next_wait(), Wait::Idle);
    assert!(matches!(reader.step(ReadEvent::Line("bar+V\tb1".into())), ReadStep::More));
    assert_eq!(reader.next_wait(), Wait::Drain);
    assert!(matches!(reader.step(ReadEvent::Line("baz+V\tb2".into())), ReadStep::More));
    assert!(matches!(reader.step(ReadEvent::Idle), ReadStep::Done));
    let r = reader.results();
    assert_eq!(sorted(r[0].clone()), strings(&["b1"]));
    assert_eq!(sorted(r[1].clone()), strings(&["b2", "b3"]));
}

#[test]
fn reader_counts_no_result_marker_as_echo() {
    let mut reader = BatchReader::new(&strings(&["a"]));
    assert!(matches!(reader.step(ReadEvent::Line("a\t+inf".into())), ReadStep::More));
    assert_eq!(reader.next_wait(), Wait::Drain);
    assert!(reader.results()[0].is_empty());
}

#[test]
fn reader_deadline_is_a_timeout() {
    let mut reader = BatchReader::new(&strings(&["a"]));
    match reader.step(ReadEvent::Deadline) {
        ReadStep::Fail(LookupError::Timeout(m)) => assert!(!m.is_empty()),
        _ => panic!("expected a timeout"),
    }
}

#[test]
fn reader_read_error_is_io() {
    let mut reader = BatchReader::new(&strings(&["a"]));
    match reader.step(ReadEvent::Failed("broken pipe".into())) {
        ReadStep::Fail(LookupError::Io(m)) => assert_eq!(m, "broken pipe"),
        _ => panic!("expected an i/o error"),
    }
}

#[test]
fn endless_output_without_echo_times_out() {
    let mut reader = BatchReader::new(&strings(&["a"]));
    for _ in 0..500 {
        assert!(matches!(reader.step(ReadEvent::Line("# still busy".into())), ReadStep::More));
        assert!(matches!(reader.step(ReadEvent::Line("b\tx".into())), ReadStep::More));
    }
    assert_eq!(reader.next_wait(), Wait::Idle);
    assert!(matches!(reader.step(ReadEvent::Deadline), ReadStep::Fail(LookupError::Timeout(_))));
}

#[test]
fn reader_eof_ends_read() {
    let mut reader = BatchReader::new(&strings(&["a"]));
    assert!(matches!(reader.step(ReadEvent::Eof), ReadStep::Done));
    assert_eq!(reader.results(), vec![Vec::<String>::new()]);
}

#[test]
fn line_order_does_not_change_results() {
    let queries = strings(&["bar+V", "baz+V"]);
    let a = decode_output("baz+V\tb3\nbar+V\tb1\nbaz+V\tb2\n", &queries);
    let b = decode_output("bar+V\tb1\nbaz+V\tb2\nbaz+V\tb3\n", &queries);
    assert_eq!(a.len(), b.len());
    for i in 0..a.len() {
        assert_eq!(sorted(a[i].clone()), sorted(b[i].clone()));
    }
}
