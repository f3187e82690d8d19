//! The synthesized bpftrace programs, checked against concrete states.
use wachy::program::FunctionName;
use wachy::trace_structs::{
    CallInstruction, FilterChange, FrameInfo, LineCallsites, TraceMode, TraceStack,
};

fn frame(name: &str, file: &str, line: u32) -> FrameInfo {
    FrameInfo::new(
        FunctionName::new(name.to_string()),
        file.to_string(),
        line,
        Vec::new(),
        Vec::new(),
    )
}

fn single_frame_stack() -> TraceStack {
    TraceStack::new("/bin/prog".to_string(), frame("foo", "foo.c", 42))
}

#[test]
fn line_mode_single_frame() {
    let stack = single_frame_stack();
    let (expr, counter) = stack.get_bpftrace_expr();
    assert_eq!(counter, 0);
    assert!(expr.starts_with(
        "BEGIN { @start_time = nsecs; @depth[-1] = 0; @matched_retfilters[-1] = 0; }"
    ));
    assert!(expr.contains(
        "uprobe:/bin/prog:foo /@depth[tid] == 0/ { @start42[tid] = nsecs; @depth[tid] = 1; }"
    ));
    assert!(expr.contains("uretprobe:/bin/prog:foo /@depth[tid] == 1/ { @duration_tmp42[tid] += (nsecs - @start42[tid]); $duration = @duration_tmp42[tid]; @count_tmp42[tid] += 1; delete(@start42[tid]); @depth[tid] = 0; if (@matched_retfilters[tid] == 0) { @duration42 += @duration_tmp42[tid]; @count42 += @count_tmp42[tid]; } delete(@duration_tmp42[tid]); delete(@count_tmp42[tid]); delete(@matched_retfilters[tid]); }"));
    assert!(expr.contains("interval:s:1 { printf(\"{\\\"time\\\": %d, \\\"lines\\\": {\", (nsecs - @start_time) / 1000000000); printf(\"\\\"42\\\": [%lld, %lld]\", @duration42, @count42); printf(\"}}\\n\"); }"));
}

#[test]
fn line_mode_traced_callsite() {
    let ci = CallInstruction::function(0x40, 5, FunctionName::new("bar".to_string()));
    let frame_info = FrameInfo::new(
        FunctionName::new("foo".to_string()),
        "foo.c".to_string(),
        42,
        vec![LineCallsites { line: 50, callsites: vec![ci.clone()] }],
        Vec::new(),
    );
    let mut stack = TraceStack::new("/bin/prog".to_string(), frame_info);
    stack.add_callsite(50, ci);
    let (expr, counter) = stack.get_bpftrace_expr();
    // Designating a call site does not invalidate existing data.
    assert_eq!(counter, 0);
    assert!(expr.contains(
        "uprobe:/bin/prog:foo+64 /@depth[tid] == 1/ { @start50[tid] = nsecs; }"
    ));
    assert!(expr.contains("uprobe:/bin/prog:foo+69 /@depth[tid] == 1 && @start50[tid]/ { @duration_tmp50[tid] += (nsecs - @start50[tid]); @count_tmp50[tid] += 1; delete(@start50[tid]); }"));
    assert!(expr.contains(r#"printf("\"50\": [%lld, %lld], ", @duration50, @count50)"#));
    assert!(expr.contains(r#"printf("\"42\": [%lld, %lld]", @duration42, @count42)"#));
}

#[test]
fn line_mode_nested_frames() {
    let mut stack = single_frame_stack();
    stack.push(frame("bar", "bar.c", 7));
    let (expr, counter) = stack.get_bpftrace_expr();
    assert_eq!(counter, 1);
    assert!(expr.contains("uprobe:/bin/prog:foo /@depth[tid] == 0/ { @depth[tid] = 1; @start_frame0[tid] = nsecs; }"));
    assert!(expr.contains("uretprobe:/bin/prog:foo /@depth[tid] == 1/ { @depth[tid] = 0; $duration = nsecs - @start_frame0[tid]; "));
    assert!(expr.contains(
        "uprobe:/bin/prog:bar /@depth[tid] == 1/ { @start7[tid] = nsecs; @depth[tid] = 2; }"
    ));
    // The commit sits in the first return probe: the outermost frame's.
    let commit_at = expr.find("if (@matched_retfilters[tid] == 0)").unwrap();
    let bar_ret_at = expr.find("uretprobe:/bin/prog:bar").unwrap();
    assert!(commit_at < bar_ret_at);
}

#[test]
fn entry_filter_guards_body() {
    let mut stack = single_frame_stack();
    match stack.begin_set_filter("arg0 == 5".to_string(), false) {
        FilterChange::Pending { prev } => {
            assert!(prev.is_none());
            stack.finish_set_filter(prev, false, true);
        }
        FilterChange::Cleared => panic!("a non-empty filter is validated first"),
    }
    let (expr, counter) = stack.get_bpftrace_expr();
    assert_eq!(counter, 1);
    assert!(expr.contains("uprobe:/bin/prog:foo /@depth[tid] == 0/ { if (arg0 == 5) { @start42[tid] = nsecs; @depth[tid] = 1; } }"));
}

#[test]
fn failed_filter_validation_restores_previous() {
    let mut stack = single_frame_stack();
    let (before, _) = stack.get_bpftrace_expr();
    match stack.begin_set_filter("nonsense(".to_string(), false) {
        FilterChange::Pending { prev } => {
            // The dry-compile failed: restore and do not bump.
            stack.finish_set_filter(prev, false, false);
        }
        FilterChange::Cleared => panic!("a non-empty filter is validated first"),
    }
    let (after, counter) = stack.get_bpftrace_expr();
    assert_eq!(counter, 0);
    assert_eq!(before, after);
}

#[test]
fn clearing_filter_restores_synthesis() {
    let mut stack = single_frame_stack();
    let (before, _) = stack.get_bpftrace_expr();
    match stack.begin_set_filter("arg0 == 5".to_string(), false) {
        FilterChange::Pending { prev } => stack.finish_set_filter(prev, false, true),
        FilterChange::Cleared => panic!("a non-empty filter is validated first"),
    }
    match stack.begin_set_filter(String::new(), false) {
        FilterChange::Cleared => {}
        FilterChange::Pending { .. } => panic!("the empty filter clears at once"),
    }
    assert!(stack.get_current_filter(false).is_none());
    let (after, counter) = stack.get_bpftrace_expr();
    assert_eq!(counter, 2);
    assert_eq!(before, after);
    assert!(!after.contains("if (arg0 == 5)"));
}

#[test]
fn histogram_mode_program() {
    let mut stack = single_frame_stack();
    stack.set_mode(TraceMode::Histogram);
    let (expr, counter) = stack.get_bpftrace_expr();
    assert_eq!(counter, 1);
    assert!(expr.contains("@duration_tmp[tid] = nsecs - @start42[tid]"));
    assert!(expr.contains("if (@matched_retfilters[tid] == 0 && @duration_tmp[tid]) { @histogram = hist(@duration_tmp[tid]); }"));
    assert!(expr.contains(r#"printf("{\"time\": %d, \"histogram\": \"", (nsecs - @start_time) / 1000000000); print(@histogram); printf("\"}\n");"#));
}

#[test]
fn breakdown_mode_program() {
    let mut stack = single_frame_stack();
    stack.set_mode(TraceMode::Breakdown);
    stack.add_breakdown_function(FunctionName::new("alpha".to_string()));
    stack.add_breakdown_function(FunctionName::new("beta".to_string()));
    let (expr, _) = stack.get_bpftrace_expr();
    assert!(expr.contains(
        "uprobe:/bin/prog:alpha /@depth[tid] == 1/ { @start_breakdown0[tid] = nsecs; }"
    ));
    assert!(expr.contains("uretprobe:/bin/prog:beta /@depth[tid] == 1 && @start_breakdown1[tid]/ { @duration_breakdown_tmp1[tid] += (nsecs - @start_breakdown1[tid]); @count_breakdown_tmp1[tid] += 1; delete(@start_breakdown1[tid]); }"));
    assert!(expr.contains(r#"printf("\"last_frame\": [%lld, %lld], ", @duration, @count)"#));
    assert!(expr.contains(r#"printf("\"0\": [%lld, %lld], ", @duration_breakdown0, @count_breakdown0)"#));
    assert!(expr.contains(r#"printf("\"1\": [%lld, %lld]", @duration_breakdown1, @count_breakdown1)"#));
}

#[test]
fn synthesis_is_deterministic() {
    let a = single_frame_stack().get_bpftrace_expr();
    let b = single_frame_stack().get_bpftrace_expr();
    assert_eq!(a.0, b.0);
    assert_eq!(a.1, b.1);
}
