use tantivy_cli::lines::split_lines;

#[test]
fn splits_on_newlines() {
    assert_eq!(split_lines("title:foo\nbody:bar"), vec!["title:foo", "body:bar"]);
}

#[test]
fn trailing_newline_adds_no_empty_line() {
    assert_eq!(split_lines("title:foo\nbody:bar\n"), vec!["title:foo", "body:bar"]);
}

#[test]
fn empty_text_has_no_lines() {
    assert_eq!(split_lines(""), Vec::<String>::new());
}

#[test]
fn lone_newline_is_one_empty_line() {
    assert_eq!(split_lines("\n"), vec![""]);
}

#[test]
fn blank_lines_between_queries_are_kept() {
    assert_eq!(split_lines("a\n\nb\n"), vec!["a", "", "b"]);
}

#[test]
fn carriage_return_before_newline_is_stripped() {
    assert_eq!(split_lines("a\r\nb\r\n"), vec!["a", "b"]);
}

#[test]
fn carriage_return_elsewhere_is_kept() {
    assert_eq!(split_lines("a\rb\nc\r"), vec!["a\rb", "c\r"]);
}
