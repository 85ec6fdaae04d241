use concurrency::metrics::cmap::CmapMetrics;

fn sorted_lines(text: &str) -> Vec<String> {
    let mut lines: Vec<String> = text.lines().map(|l| l.to_string()).collect();
    lines.sort();
    lines
}

#[test]
fn new_counters_list_nothing() {
    assert_eq!(CmapMetrics::new().render(), "");
    assert_eq!(CmapMetrics::default().render(), "");
}

#[test]
fn first_increment_creates_the_counter_at_one() {
    let mut metrics = CmapMetrics::new();
    assert_eq!(metrics.inc("req.page.1".to_string()), Ok(()));
    assert_eq!(metrics.render(), "req.page.1: 1\n");
}

#[test]
fn increments_of_one_key_add_up() {
    let mut metrics = CmapMetrics::new();
    for _ in 0..1000 {
        assert_eq!(metrics.inc("call.thread.worker.0".to_string()), Ok(()));
    }
    assert_eq!(metrics.render(), "call.thread.worker.0: 1000\n");
}

#[test]
fn increments_of_distinct_keys_do_not_interfere() {
    let mut metrics = CmapMetrics::new();
    for round in 0..30 {
        metrics.inc("a".to_string()).unwrap();
        if round % 2 == 0 {
            metrics.inc("b".to_string()).unwrap();
        }
        if round % 3 == 0 {
            metrics.inc("c".to_string()).unwrap();
        }
    }
    assert_eq!(sorted_lines(&metrics.render()), vec!["a: 30", "b: 15", "c: 10"]);
}

#[test]
fn order_of_increments_does_not_matter() {
    let mut one = CmapMetrics::new();
    one.inc("x".to_string()).unwrap();
    one.inc("y".to_string()).unwrap();
    one.inc("x".to_string()).unwrap();
    let mut other = CmapMetrics::new();
    other.inc("y".to_string()).unwrap();
    other.inc("x".to_string()).unwrap();
    other.inc("x".to_string()).unwrap();
    assert_eq!(sorted_lines(&one.render()), sorted_lines(&other.render()));
    assert_eq!(sorted_lines(&one.render()), vec!["x: 2", "y: 1"]);
}

#[test]
fn every_line_ends_with_a_line_feed() {
    let mut metrics = CmapMetrics::new();
    metrics.inc("a".to_string()).unwrap();
    metrics.inc("b".to_string()).unwrap();
    let text = metrics.render();
    assert_eq!(text.len(), "a: 1\nb: 1\n".len());
    assert!(text.ends_with('\n'));
    assert!(text == "a: 1\nb: 1\n" || text == "b: 1\na: 1\n");
}
