//! Parsing the probe engine's JSON output, and the emit/parse round trip.
use wachy::events::{TraceCumulative, TraceInfo, TraceInfoMode};
use wachy::parse::emit_trace;
use wachy::trace_structs::TraceStack;

#[test]
fn parses_lines_output() {
    let info = TraceStack::parse(r#"{"time": 5, "lines": {"42": [100, 2]}}"#, 7).unwrap();
    assert_eq!(info.counter, 7);
    assert_eq!(info.time, 5);
    match info.traces {
        TraceInfoMode::Lines(lines) => {
            assert_eq!(lines.len(), 1);
            assert_eq!(lines[0].0, 42);
            assert_eq!(lines[0].1.duration, 100);
            assert_eq!(lines[0].1.count, 2);
        }
        _ => panic!("expected line data"),
    }
}

#[test]
fn parses_several_lines_in_order() {
    let text = r#"{"time": 12, "lines": {"50": [1, 2], "42": [3, 4]}}"#;
    let info = TraceStack::parse(text, 0).unwrap();
    match info.traces {
        TraceInfoMode::Lines(lines) => {
            assert_eq!(lines.len(), 2);
            assert_eq!(lines[0].0, 50);
            assert_eq!(lines[1].0, 42);
        }
        _ => panic!("expected line data"),
    }
}

#[test]
fn parses_empty_lines_object() {
    let info = TraceStack::parse(r#"{"time": 1, "lines": {}}"#, 3).unwrap();
    match info.traces {
        TraceInfoMode::Lines(lines) => assert!(lines.is_empty()),
        _ => panic!("expected line data"),
    }
}

#[test]
fn parses_histogram_with_raw_newlines() {
    // The engine prints the histogram across several lines; the reader hands
    // the whole buffer over and the raw newlines are escaped before parsing.
    let text = "{\"time\": 2, \"histogram\": \"[0]  3 |@@|\n[1]  1 |@ |\"}";
    let info = TraceStack::parse(text, 1).unwrap();
    assert_eq!(info.time, 2);
    match info.traces {
        TraceInfoMode::Histogram(h) => {
            assert_eq!(h, "[0]  3 |@@|\n[1]  1 |@ |");
        }
        _ => panic!("expected a histogram"),
    }
}

#[test]
fn parses_breakdown_output() {
    let text = r#"{"time": 9, "breakdown": {"last_frame": [10, 1], "0": [5, 1], "1": [3, 2]}}"#;
    let info = TraceStack::parse(text, 4).unwrap();
    match info.traces {
        TraceInfoMode::Breakdown { last_frame_trace, breakdown_traces } => {
            assert_eq!(last_frame_trace.duration, 10);
            assert_eq!(last_frame_trace.count, 1);
            assert_eq!(breakdown_traces.len(), 2);
            assert_eq!(breakdown_traces[0].duration, 5);
            assert_eq!(breakdown_traces[1].count, 2);
        }
        _ => panic!("expected a breakdown"),
    }
}

#[test]
fn rejects_malformed_output() {
    let err = TraceStack::parse("Attaching 3 probes...", 0).unwrap_err();
    assert_eq!(err.message(), "Failed to parse bpftrace output");
}

#[test]
fn rejects_line_number_out_of_range() {
    assert!(TraceStack::parse(r#"{"time": 1, "lines": {"99999999999": [1, 1]}}"#, 0).is_err());
}

#[test]
fn rejects_truncated_object() {
    assert!(TraceStack::parse(r#"{"time": 1, "lines": {"42": [1, 1]}"#, 0).is_err());
}

#[test]
fn lines_round_trip_is_lossless() {
    let info = TraceInfo {
        counter: 3,
        time: 17,
        traces: TraceInfoMode::Lines(vec![
            (42, TraceCumulative { duration: 12345, count: 9 }),
            (50, TraceCumulative { duration: 1, count: 0 }),
        ]),
    };
    let text = emit_trace(&info);
    let back = TraceStack::parse(&text, 3).unwrap();
    assert_eq!(back.counter, 3);
    assert_eq!(back.time, 17);
    match back.traces {
        TraceInfoMode::Lines(lines) => {
            assert_eq!(lines, vec![
                (42, TraceCumulative { duration: 12345, count: 9 }),
                (50, TraceCumulative { duration: 1, count: 0 }),
            ]);
        }
        _ => panic!("expected line data"),
    }
}

#[test]
fn breakdown_round_trip_is_lossless() {
    let info = TraceInfo {
        counter: 0,
        time: 2,
        traces: TraceInfoMode::Breakdown {
            last_frame_trace: TraceCumulative { duration: 100, count: 10 },
            breakdown_traces: vec![
                TraceCumulative { duration: 60, count: 5 },
                TraceCumulative { duration: 40, count: 5 },
            ],
        },
    };
    let text = emit_trace(&info);
    assert_eq!(
        text,
        r#"{"time": 2, "breakdown": {"last_frame": [100, 10], "0": [60, 5], "1": [40, 5]}}"#
    );
    let back = TraceStack::parse(&text, 0).unwrap();
    match back.traces {
        TraceInfoMode::Breakdown { last_frame_trace, breakdown_traces } => {
            assert_eq!(last_frame_trace, TraceCumulative { duration: 100, count: 10 });
            assert_eq!(breakdown_traces.len(), 2);
            assert_eq!(breakdown_traces[0], TraceCumulative { duration: 60, count: 5 });
            assert_eq!(breakdown_traces[1], TraceCumulative { duration: 40, count: 5 });
        }
        _ => panic!("expected a breakdown"),
    }
}

#[test]
fn histogram_round_trip_keeps_text() {
    let info = TraceInfo {
        counter: 0,
        time: 4,
        traces: TraceInfoMode::Histogram("[0]  3 |@@|\n[1]  1 |@ |".to_string()),
    };
    let text = emit_trace(&info);
    let back = TraceStack::parse(&text, 0).unwrap();
    match back.traces {
        TraceInfoMode::Histogram(h) => assert_eq!(h, "[0]  3 |@@|\n[1]  1 |@ |"),
        _ => panic!("expected a histogram"),
    }
}
