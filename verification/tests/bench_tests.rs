use tantivy_cli::bench::BenchPass;
use tantivy_cli::bench::fetch_header;
use tantivy_cli::bench::search_header;
use tantivy_cli::numfmt::parse_u64;

fn queries(texts: &[&str]) -> Vec<String> {
    texts.iter().map(|t| t.to_string()).collect()
}

/// Drives a full search pass, handing every query the given hit count.
fn run_search_pass(texts: &[&str], num_repeat: usize, count: u64) -> Vec<String> {
    let mut pass = BenchPass::new(queries(texts), num_repeat);
    let mut rows = Vec::new();
    while !pass.is_done() {
        let _query = pass.current_query().clone();
        pass.begin_search();
        rows.push(pass.finish_search(count));
    }
    rows
}

/// Drives a full fetch pass.
fn run_fetch_pass(texts: &[&str], num_repeat: usize) -> Vec<String> {
    let mut pass = BenchPass::new(queries(texts), num_repeat);
    let mut rows = Vec::new();
    while !pass.is_done() {
        let _query = pass.current_query().clone();
        pass.begin_fetch();
        rows.push(pass.finish_fetch());
    }
    rows
}

#[test]
fn headers_are_exact() {
    assert_eq!(search_header(), "query\tnum_terms\tnum hits\ttime in microsecs");
    assert_eq!(fetch_header(), "query\ttime in microsecs");
}

#[test]
fn zero_repeats_emit_no_rows() {
    assert_eq!(run_search_pass(&["title:foo", "body:bar"], 0, 3).len(), 0);
    assert_eq!(run_fetch_pass(&["title:foo", "body:bar"], 0).len(), 0);
}

#[test]
fn empty_query_list_emits_no_rows() {
    assert_eq!(run_search_pass(&[], 5, 3).len(), 0);
    assert_eq!(run_fetch_pass(&[], 5).len(), 0);
}

#[test]
fn rows_come_in_repetition_major_order() {
    let rows = run_search_pass(&["q0", "q1", "q2"], 2, 9);
    assert_eq!(rows.len(), 6);
    let expected = ["q0", "q1", "q2", "q0", "q1", "q2"];
    for (row, want) in rows.iter().zip(expected.iter()) {
        let mut parts = row.split('\t');
        assert_eq!(parts.next(), Some(*want));
        assert_eq!(parts.next(), Some("9"));
        let micros = parts.next().expect("third column");
        assert!(parse_u64(micros).is_some());
        assert_eq!(parts.next(), None);
    }
}

#[test]
fn fetch_rows_have_query_and_time_only() {
    let rows = run_fetch_pass(&["q0", "q1"], 3);
    assert_eq!(rows.len(), 6);
    for row in &rows {
        let mut parts = row.split('\t');
        let q = parts.next().expect("query column");
        assert!(q == "q0" || q == "q1");
        let micros = parts.next().expect("time column");
        assert!(parse_u64(micros).is_some());
        assert_eq!(parts.next(), None);
    }
}

#[test]
fn elapsed_values_parse_as_non_negative_integers() {
    // a measured no-op reports zero or a small positive microsecond count
    let rows = run_search_pass(&["q"], 1, 0);
    let micros_text = rows[0].split('\t').nth(2).expect("time column");
    let micros = parse_u64(micros_text).expect("a non-negative integer");
    assert!(micros < 1_000_000);
}

#[test]
fn search_error_carries_query_text() {
    let pass = BenchPass::new(queries(&["title:oops"]), 1);
    let report = pass.search_error("syntax error");
    assert!(report.contains("title:oops"));
    assert!(report.contains("syntax error"));
    assert_eq!(report, "Failed while searching query \"title:oops\".\n\nsyntax error");
}

#[test]
fn fetch_error_carries_query_text() {
    let pass = BenchPass::new(queries(&["body:oops"]), 1);
    let report = pass.fetch_error("missing doc");
    assert!(report.contains("body:oops"));
    assert_eq!(report, "Failed while retrieving document for query \"body:oops\".\nmissing doc");
}

#[test]
fn zero_hit_scenario_reports_zero_counts() {
    // two queries, one repetition, no matching documents
    let rows = run_search_pass(&["title:foo", "body:bar"], 1, 0);
    assert_eq!(rows.len(), 2);
    assert!(rows[0].starts_with("title:foo\t0\t"));
    assert!(rows[1].starts_with("body:bar\t0\t"));
    let fetch_rows = run_fetch_pass(&["title:foo", "body:bar"], 1);
    assert_eq!(fetch_rows.len(), 2);
    assert!(fetch_rows[0].starts_with("title:foo\t"));
    assert!(fetch_rows[1].starts_with("body:bar\t"));
    for row in &fetch_rows {
        let micros = row.split('\t').nth(1).expect("time column");
        // no materialisation happened, so the cost is near zero
        assert!(parse_u64(micros).expect("integer") < 1_000_000);
    }
}
