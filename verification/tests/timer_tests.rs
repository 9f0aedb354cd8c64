use tantivy_cli::timer::TimerTree;

#[test]
fn empty_tree_reports_zero() {
    let t = TimerTree::default();
    assert_eq!(t.total_time(), 0);
    assert_eq!(t.span_count(), 0);
    assert_eq!(t.open_spans(), 0);
}

#[test]
fn single_span_measures_delta() {
    let mut t = TimerTree::default();
    t.open_at(String::from("search"), 1_000);
    assert_eq!(t.open_spans(), 1);
    t.close_at(1_750);
    assert_eq!(t.open_spans(), 0);
    assert_eq!(t.total_time(), 750);
}

#[test]
fn nested_child_within_parent() {
    let mut t = TimerTree::default();
    t.open_at(String::from("outer"), 100);
    t.open_at(String::from("inner"), 150);
    t.close_at(180);
    t.close_at(200);
    assert_eq!(t.span_count(), 2);
    assert_eq!(t.total_time(), 100);
    assert_eq!(t.elapsed[1], Some(30));
    assert_eq!(t.parent[0], None);
    assert_eq!(t.parent[1], Some(0));
    // the root's total covers the child's duration and is non-negative
    assert!(t.total_time() >= t.elapsed[1].unwrap());
}

#[test]
fn sibling_after_nested_closure() {
    // closing a child leaves the parent open and able to accept another
    let mut t = TimerTree::default();
    t.open_at(String::from("parent"), 0);
    t.open_at(String::from("first"), 10);
    t.close_at(20);
    assert_eq!(t.open_spans(), 1);
    t.open_at(String::from("second"), 30);
    t.close_at(45);
    t.close_at(50);
    assert_eq!(t.parent[1], Some(0));
    assert_eq!(t.parent[2], Some(0));
    assert_eq!(t.elapsed[1], Some(10));
    assert_eq!(t.elapsed[2], Some(15));
    assert_eq!(t.total_time(), 50);
}

#[test]
fn strict_nesting_chain_totals_cover_inner_spans() {
    let mut t = TimerTree::default();
    t.open_at(String::from("a"), 0);
    t.open_at(String::from("b"), 5);
    t.open_at(String::from("c"), 7);
    t.close_at(9);
    t.close_at(12);
    t.close_at(20);
    assert_eq!(t.elapsed[0], Some(20));
    assert_eq!(t.elapsed[1], Some(7));
    assert_eq!(t.elapsed[2], Some(2));
    assert!(t.elapsed[0] >= t.elapsed[1]);
    assert!(t.elapsed[1] >= t.elapsed[2]);
}

#[test]
fn backwards_clock_is_clamped() {
    let mut t = TimerTree::default();
    t.open_at(String::from("span"), 500);
    t.close_at(400);
    // the reading moved backwards; the duration is clamped to zero
    assert_eq!(t.total_time(), 0);
}

#[test]
fn wall_clock_spans_are_non_negative() {
    let mut t = TimerTree::default();
    t.open(String::from("noop"));
    t.close();
    // a no-op measured operation reports zero or a small positive count
    let total = t.total_time();
    assert!(total < 1_000_000);
}
