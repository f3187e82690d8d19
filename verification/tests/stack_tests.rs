//! The trace stack: frame discipline, the generation counter, and the
//! designate/remove round trip.
use wachy::program::FunctionName;
use wachy::trace_structs::{CallInstruction, FrameInfo, TraceMode, TraceStack};

fn frame(name: &str, line: u32) -> FrameInfo {
    FrameInfo::new(
        FunctionName::new(name.to_string()),
        "src.c".to_string(),
        line,
        Vec::new(),
        Vec::new(),
    )
}

fn stack() -> TraceStack {
    TraceStack::new("/bin/prog".to_string(), frame("foo", 42))
}

#[test]
fn pop_refuses_the_last_frame() {
    let mut s = stack();
    assert!(s.pop().is_none());
    assert!(s.is_counter_current(0));
    s.push(frame("bar", 7));
    assert_eq!(s.get_current_function().0, "bar");
    let new_top = s.pop().unwrap();
    assert_eq!(new_top.get_source_line(), 42);
    assert_eq!(s.get_current_function().0, "foo");
    // Still one frame: the next pop refuses again.
    assert!(s.pop().is_none());
}

#[test]
fn counter_grows_with_every_program_change() {
    let mut s = stack();
    assert!(s.is_counter_current(0));
    s.push(frame("bar", 7));
    assert!(s.is_counter_current(1));
    s.pop().unwrap();
    assert!(s.is_counter_current(2));
    s.set_mode(TraceMode::Histogram);
    assert!(s.is_counter_current(3));
    assert!(!s.is_counter_current(2));
    let (_, counter) = s.get_bpftrace_expr();
    assert_eq!(counter, 3);
}

#[test]
fn add_then_remove_callsite_restores_the_program() {
    let mut s = stack();
    let (before, c0) = s.get_bpftrace_expr();
    // A manual call site may be designated on any line.
    s.add_callsite(50, CallInstruction::manual(4, 10));
    assert!(s.is_counter_current(c0));
    let (with_site, _) = s.get_bpftrace_expr();
    assert_ne!(before, with_site);
    assert!(s.remove_callsite(50));
    // The program is the starting one again; the counter grew by one net.
    let (after, c2) = s.get_bpftrace_expr();
    assert_eq!(before, after);
    assert_eq!(c2, c0 + 1);
}

#[test]
fn removing_an_untraced_line_changes_nothing() {
    let mut s = stack();
    let (before, c0) = s.get_bpftrace_expr();
    assert!(!s.remove_callsite(99));
    let (after, c1) = s.get_bpftrace_expr();
    assert_eq!(before, after);
    assert_eq!(c0, c1);
}

#[test]
fn manual_callsite_probes_both_offsets() {
    let mut s = stack();
    s.add_callsite(50, CallInstruction::manual(4, 10));
    let (expr, _) = s.get_bpftrace_expr();
    assert!(expr.contains("uprobe:/bin/prog:foo+4 "));
    assert!(expr.contains("uprobe:/bin/prog:foo+14 "));
}

#[test]
fn breakdown_functions_are_kept_in_selection_order() {
    let mut s = stack();
    s.add_breakdown_function(FunctionName::new("alpha".to_string()));
    s.add_breakdown_function(FunctionName::new("beta".to_string()));
    // Remembering a breakdown function changes the program only on the next
    // respawn: the counter stays.
    assert!(s.is_counter_current(0));
    let fns = s.get_breakdown_functions();
    assert_eq!(fns.len(), 2);
    assert_eq!(fns[0].0, "alpha");
    assert_eq!(fns[1].0, "beta");
}

#[test]
fn callsite_queries_on_the_top_frame() {
    let ci = CallInstruction::unknown(8, 5);
    let inlined = CallInstruction::function(12, 5, FunctionName::new("inl".to_string()));
    let f = FrameInfo::new(
        FunctionName::new("foo".to_string()),
        "src.c".to_string(),
        42,
        vec![wachy::trace_structs::LineCallsites { line: 50, callsites: vec![ci.clone()] }],
        vec![inlined.clone()],
    );
    let s = TraceStack::new("/bin/prog".to_string(), f);
    let on50 = s.get_callsites(50);
    assert_eq!(on50.len(), 1);
    assert!(on50[0].same_as(&ci));
    assert!(s.get_callsites(51).is_empty());
    let unattached = s.get_unattached_callsites();
    assert_eq!(unattached.len(), 1);
    assert!(unattached[0].same_as(&inlined));
}

#[test]
fn frame_line_queries() {
    let ci = CallInstruction::unknown(8, 5);
    let f = FrameInfo::new(
        FunctionName::new("foo".to_string()),
        "src.c".to_string(),
        42,
        vec![
            wachy::trace_structs::LineCallsites { line: 50, callsites: vec![ci.clone()] },
            wachy::trace_structs::LineCallsites { line: 61, callsites: vec![ci] },
        ],
        Vec::new(),
    );
    assert_eq!(f.called_lines(), vec![50, 61]);
    assert_eq!(f.max_line(), 61);
    assert_eq!(f.get_source_line(), 42);
    assert_eq!(f.get_source_file(), "src.c");
    let empty = frame("foo", 42);
    assert_eq!(empty.max_line(), 42);
}
