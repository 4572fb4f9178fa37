use tcrelay::metrics::Metrics;

#[test]
fn incremented() {
    let mut m = Metrics::new();

    for _ in 0..102 {
        m.trace_request()
    }
    for _ in 0..111 {
        m.trace_hit()
    }
    for _ in 0..120 {
        m.trace_miss()
    }
    for _ in 0..105 {
        m.trace_cache()
    }
    for _ in 0..101 {
        m.trace_delete()
    }
    for _ in 0..115 {
        m.trace_404()
    }

    assert_eq!(
        m.output(),
        "requests 102\nhits 111\nmisses 120\ncached 105\ndeletes 101\nnot_found 115\n"
    );
}

#[test]
fn fresh_counters_render_zero() {
    let m = Metrics::new();
    assert_eq!(
        m.output(),
        "requests 0\nhits 0\nmisses 0\ncached 0\ndeletes 0\nnot_found 0\n"
    );
}

#[test]
fn output_contains_counter_lines() {
    let mut m = Metrics::new();
    for _ in 0..7 {
        m.trace_hit()
    }
    let text = m.output();
    assert!(text.contains("hits 7"));
    assert!(text.contains("requests 0"));
}
