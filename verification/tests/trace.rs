use asteria::devtools::trace::{format_chrome_trace, TraceRecorder};

#[test]
fn trace_recorder_drops_oldest_when_full() {
    let mut r: TraceRecorder<u32> = TraceRecorder::new();
    assert_eq!(r.max_events, 2048);
    r.max_events = 3;
    for e in 0..5 {
        r.record(e);
    }
    assert_eq!(r.events, vec![2, 3, 4]);
    assert_eq!(r.dropped_events, 2);
    r.clear();
    assert!(r.events.is_empty());
    assert_eq!(r.dropped_events, 0);
}

#[test]
fn chrome_trace_format() {
    assert_eq!(format_chrome_trace(&[]), "");
    let doc = format_chrome_trace(&[("Parse", "B", 10, 1), ("Parse", "E", 250, 1)]);
    assert_eq!(
        doc,
        "[\n  {\"name\": \"Parse\", \"cat\": \"engine\", \"ph\": \"B\", \"ts\": 10, \"pid\": 1, \"tid\": 1},\n  {\"name\": \"Parse\", \"cat\": \"engine\", \"ph\": \"E\", \"ts\": 250, \"pid\": 1, \"tid\": 1}\n]\n"
    );
}
