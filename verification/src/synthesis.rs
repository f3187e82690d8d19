//! Translation of the trace-stack state into a bpftrace program. The emitted
//! text is a pure function of the program path and the stack snapshot, pinned
//! down by the spec functions below.
//!
//! Approach:
//! 1. `@depth` is maintained on function entry and exit so that only the
//!    probes that follow the trace stack fire.
//! 2. Source line numbers are used in variable naming to identify traces.
//! 3. In line mode, results are stored as cumulative duration and count.
//! 4. The current thread's data is stored in `_tmp` variables; only after
//!    every return filter matched is it moved to the global variables that
//!    the interval printer outputs.
use vstd::prelude::*;

use crate::compiler::{
    s_compile_program, s_join, BlockType, Block, BpftraceProgram, Expression, SBlock, SBlockType,
    SExpr,
};
use crate::strutil;
use crate::strutil::spec_dec;
use crate::trace_structs::{FrameInfo, SFrame, STraceStack, TraceMode, TraceStack};

verus! {

/// The guard that keeps a probe on the right trace-stack level.
pub open spec fn s_depth_cond(d: int) -> Seq<char> {
    "@depth[tid] == "@ + spec_dec(d as nat)
}

/// A user filter folded around the given raw statements. An entry filter
/// guards the whole body; a return filter leaves the body unconditional and
/// counts its own matches.
pub open spec fn s_user_filter(
    filter: Option<Seq<char>>,
    is_ret_filter: bool,
    exprs: Seq<Seq<char>>,
) -> Seq<SExpr> {
    match filter {
        None => exprs.map_values(|e: Seq<char>| SExpr::Raw(e)),
        Some(f) => if is_ret_filter {
            exprs.map_values(|e: Seq<char>| SExpr::Raw(e)).push(
                SExpr::If(f, seq!["@matched_retfilters[tid] += 1"@]),
            )
        } else {
            seq![SExpr::If(f, exprs)]
        },
    }
}

/// The opening block: remember the start time and seed the per-thread maps.
pub open spec fn s_begin_block() -> SBlock {
    SBlock {
        btype: SBlockType::Begin,
        filter: None,
        exprs: seq![
            SExpr::Raw("@start_time = nsecs"@),
            SExpr::Raw("@depth[-1] = 0"@),
            SExpr::Raw("@matched_retfilters[-1] = 0"@),
        ],
    }
}

/// Entry block of the non-top frame at stack index `i`.
pub open spec fn s_frame_entry_block(frame: SFrame, i: int) -> SBlock {
    SBlock {
        btype: SBlockType::Uprobe(frame.function),
        filter: Some(s_depth_cond(i)),
        exprs: s_user_filter(
            frame.filter,
            false,
            seq![
                "@depth[tid] = "@ + spec_dec((i + 1) as nat),
                "@start_frame"@ + spec_dec(i as nat) + "[tid] = nsecs"@,
            ],
        ),
    }
}

/// Exit block of the non-top frame at stack index `i`; the frame at index 0
/// holds the first return probe and so also carries the commit statements.
pub open spec fn s_frame_exit_block(frame: SFrame, i: int, commit: Seq<SExpr>) -> SBlock {
    SBlock {
        btype: SBlockType::Uretprobe(frame.function),
        filter: Some(s_depth_cond(i + 1)),
        exprs: s_user_filter(
            frame.ret_filter,
            true,
            seq![
                "@depth[tid] = "@ + spec_dec(i as nat),
                "$duration = nsecs - @start_frame"@ + spec_dec(i as nat) + "[tid]"@,
            ],
        ) + if i == 0 {
            commit
        } else {
            Seq::<SExpr>::empty()
        },
    }
}

/// The entry/exit block pairs of all non-top frames, in stack order.
pub open spec fn s_mid_blocks(frames: Seq<SFrame>, commit: Seq<SExpr>) -> Seq<SBlock> {
    Seq::new(
        2 * (frames.len() - 1) as nat,
        |k: int|
            if k % 2 == 0 {
                s_frame_entry_block(frames[k / 2], k / 2)
            } else {
                s_frame_exit_block(frames[(k - 1) / 2], (k - 1) / 2, commit)
            },
    )
}

/// Entry block of the top frame.
pub open spec fn s_top_entry_block(frame: SFrame, depth: int) -> SBlock {
    SBlock {
        btype: SBlockType::Uprobe(frame.function),
        filter: Some(s_depth_cond(depth)),
        exprs: s_user_filter(
            frame.filter,
            false,
            seq![
                "@start"@ + spec_dec(frame.source_line as nat) + "[tid] = nsecs"@,
                "@depth[tid] = "@ + spec_dec((depth + 1) as nat),
            ],
        ),
    }
}

/// The traced lines of the top frame followed by its own source line: the
/// keys under which line-mode results are accumulated and printed.
pub open spec fn s_lines(frame: SFrame) -> Seq<u32> {
    frame.traced.map_values(|t: (u32, crate::trace_structs::SCallInstruction)| t.0).push(
        frame.source_line,
    )
}

/// How many frames carry a return filter.
pub open spec fn s_num_retfilters(frames: Seq<SFrame>) -> int
    decreases frames.len(),
{
    if frames.len() == 0 {
        0
    } else {
        (if frames.last().ret_filter is Some {
            1int
        } else {
            0int
        }) + s_num_retfilters(frames.drop_last())
    }
}

/// The commit guard: every return filter on the stack matched.
pub open spec fn s_commit_cond(nrf: int) -> Seq<char> {
    "@matched_retfilters[tid] == "@ + spec_dec(nrf as nat)
}

/// The commit statements for line mode: move the per-thread `_tmp` counters
/// of every line into the printed globals, then clear them.
pub open spec fn s_commit_line(lines: Seq<u32>, nrf: int) -> Seq<SExpr> {
    seq![
        SExpr::If(
            s_commit_cond(nrf),
            lines.map_values(
                |line: u32|
                    "@duration"@ + spec_dec(line as nat) + " += @duration_tmp"@ + spec_dec(
                        line as nat,
                    ) + "[tid]; @count"@ + spec_dec(line as nat) + " += @count_tmp"@ + spec_dec(
                        line as nat,
                    ) + "[tid]"@,
            ),
        ),
    ] + lines.map_values(
        |line: u32|
            SExpr::Raw(
                "delete(@duration_tmp"@ + spec_dec(line as nat) + "[tid]); delete(@count_tmp"@
                    + spec_dec(line as nat) + "[tid])"@,
            ),
    ) + seq![SExpr::Raw("delete(@matched_retfilters[tid])"@)]
}

/// The commit statements for histogram mode. The duration is also required
/// to be non-zero, since the return probe may not have run.
pub open spec fn s_commit_histogram(nrf: int) -> Seq<SExpr> {
    seq![
        SExpr::If(
            s_commit_cond(nrf) + " && @duration_tmp[tid]"@,
            seq!["@histogram = hist(@duration_tmp[tid])"@],
        ),
        SExpr::Raw("delete(@duration_tmp[tid])"@),
        SExpr::Raw("delete(@matched_retfilters[tid])"@),
    ]
}

/// The commit statements for breakdown mode.
pub open spec fn s_commit_breakdown(nb: int, nrf: int) -> Seq<SExpr> {
    seq![
        SExpr::If(
            s_commit_cond(nrf),
            Seq::new(
                nb as nat,
                |i: int|
                    "@duration_breakdown"@ + spec_dec(i as nat) + " += @duration_breakdown_tmp"@
                        + spec_dec(i as nat) + "[tid]; @count_breakdown"@ + spec_dec(i as nat)
                        + " += @count_breakdown_tmp"@ + spec_dec(i as nat) + "[tid]"@,
            ).push("@duration += @duration_tmp[tid]; @count += @count_tmp[tid]"@),
        ),
    ] + Seq::new(
        nb as nat,
        |i: int|
            SExpr::Raw(
                "delete(@duration_breakdown_tmp"@ + spec_dec(i as nat)
                    + "[tid]); delete(@count_breakdown_tmp"@ + spec_dec(i as nat) + "[tid])"@,
            ),
    ) + seq![
        SExpr::Raw(
            "delete(@matched_retfilters[tid]); delete(@duration_tmp[tid]); delete(@count_tmp[tid])"@,
        ),
    ]
}

/// The commit statements of the current mode.
pub open spec fn s_commit_exprs(st: STraceStack) -> Seq<SExpr> {
    let nrf = s_num_retfilters(st.frames);
    match st.mode {
        TraceMode::Line => s_commit_line(s_lines(st.frames.last()), nrf),
        TraceMode::Histogram => s_commit_histogram(nrf),
        TraceMode::Breakdown => s_commit_breakdown(st.breakdown.len() as int, nrf),
    }
}

/// Return block of the top frame in line mode.
pub open spec fn s_line_ret_block(frame: SFrame, depth: int, commit: Seq<SExpr>) -> SBlock {
    let line = spec_dec(frame.source_line as nat);
    SBlock {
        btype: SBlockType::Uretprobe(frame.function),
        filter: Some(s_depth_cond(depth + 1)),
        exprs: s_user_filter(
            frame.ret_filter,
            true,
            seq![
                "@duration_tmp"@ + line + "[tid] += (nsecs - @start"@ + line + "[tid])"@,
                "$duration = @duration_tmp"@ + line + "[tid]"@,
                "@count_tmp"@ + line + "[tid] += 1"@,
                "delete(@start"@ + line + "[tid])"@,
                "@depth[tid] = "@ + spec_dec(depth as nat),
            ],
        ) + commit,
    }
}

/// The pair of offset probes that time one traced call site.
pub open spec fn s_callsite_blocks(frame: SFrame, depth: int) -> Seq<SBlock> {
    Seq::new(
        2 * frame.traced.len(),
        |k: int|
            {
                let t = frame.traced[k / 2];
                let line = spec_dec(t.0 as nat);
                if k % 2 == 0 {
                    SBlock {
                        btype: SBlockType::UprobeOffset(frame.function, t.1.relative_ip as int),
                        filter: Some(s_depth_cond(depth + 1)),
                        exprs: seq![SExpr::Raw("@start"@ + line + "[tid] = nsecs"@)],
                    }
                } else {
                    // The end probe only fires if the start probe ran.
                    SBlock {
                        btype: SBlockType::UprobeOffset(
                            frame.function,
                            t.1.relative_ip + t.1.length,
                        ),
                        filter: Some(
                            s_depth_cond(depth + 1) + " && @start"@ + line + "[tid]"@,
                        ),
                        exprs: seq![
                            SExpr::Raw(
                                "@duration_tmp"@ + line + "[tid] += (nsecs - @start"@ + line
                                    + "[tid])"@,
                            ),
                            SExpr::Raw("@count_tmp"@ + line + "[tid] += 1"@),
                            SExpr::Raw("delete(@start"@ + line + "[tid])"@),
                        ],
                    }
                }
            },
    )
}

/// The interval printer of line mode: one JSON object per second.
pub open spec fn s_line_interval_block(lines: Seq<u32>) -> SBlock {
    SBlock {
        btype: SBlockType::Interval(1),
        filter: None,
        exprs: seq![
            SExpr::Printf(
                "{\"time\": %d, \"lines\": {"@,
                seq!["(nsecs - @start_time) / 1000000000"@],
            ),
        ] + Seq::new(
            lines.len(),
            |i: int|
                SExpr::Printf(
                    "\""@ + spec_dec(lines[i] as nat) + "\": [%lld, %lld]"@ + if i
                        != lines.len() - 1 {
                        ", "@
                    } else {
                        Seq::<char>::empty()
                    },
                    seq![
                        "@duration"@ + spec_dec(lines[i] as nat),
                        "@count"@ + spec_dec(lines[i] as nat),
                    ],
                ),
        ) + seq![SExpr::Printf("}}\\n"@, Seq::<Seq<char>>::empty())],
    }
}

/// Return block of the top frame in histogram mode.
pub open spec fn s_histogram_ret_block(frame: SFrame, depth: int, commit: Seq<SExpr>) -> SBlock {
    let line = spec_dec(frame.source_line as nat);
    SBlock {
        btype: SBlockType::Uretprobe(frame.function),
        filter: Some(s_depth_cond(depth + 1)),
        exprs: s_user_filter(
            frame.ret_filter,
            true,
            seq![
                "@duration_tmp[tid] = nsecs - @start"@ + line + "[tid]"@,
                "$duration = @duration_tmp[tid]"@,
                "delete(@start"@ + line + "[tid])"@,
                "@depth[tid] = "@ + spec_dec(depth as nat),
            ],
        ) + commit,
    }
}

/// The interval printer of histogram mode.
pub open spec fn s_histogram_interval_block() -> SBlock {
    SBlock {
        btype: SBlockType::Interval(1),
        filter: None,
        exprs: seq![
            SExpr::Printf(
                "{\"time\": %d, \"histogram\": \""@,
                seq!["(nsecs - @start_time) / 1000000000"@],
            ),
            SExpr::Print("@histogram"@),
            SExpr::Printf("\"}\\n"@, Seq::<Seq<char>>::empty()),
        ],
    }
}

/// Return block of the top frame in breakdown mode. Accumulation uses `+=`
/// because intermediate frames may run several times before the commit.
pub open spec fn s_breakdown_ret_block(frame: SFrame, depth: int, commit: Seq<SExpr>) -> SBlock {
    let line = spec_dec(frame.source_line as nat);
    SBlock {
        btype: SBlockType::Uretprobe(frame.function),
        filter: Some(s_depth_cond(depth + 1)),
        exprs: s_user_filter(
            frame.ret_filter,
            true,
            seq![
                "@duration_tmp[tid] += (nsecs - @start"@ + line + "[tid])"@,
                "$duration = @duration_tmp[tid]"@,
                "@count_tmp[tid] += 1"@,
                "delete(@start"@ + line + "[tid])"@,
                "@depth[tid] = "@ + spec_dec(depth as nat),
            ],
        ) + commit,
    }
}

/// The entry/exit probes that time one breakdown function. If the function
/// recurses, only the outermost pair is counted, so times are best-effort.
pub open spec fn s_breakdown_blocks(breakdown: Seq<Seq<char>>, depth: int) -> Seq<SBlock> {
    Seq::new(
        2 * breakdown.len(),
        |k: int|
            {
                let i = k / 2;
                let istr = spec_dec(i as nat);
                if k % 2 == 0 {
                    SBlock {
                        btype: SBlockType::Uprobe(breakdown[i]),
                        filter: Some(s_depth_cond(depth + 1)),
                        exprs: seq![
                            SExpr::Raw("@start_breakdown"@ + istr + "[tid] = nsecs"@),
                        ],
                    }
                } else {
                    SBlock {
                        btype: SBlockType::Uretprobe(breakdown[i]),
                        filter: Some(
                            s_depth_cond(depth + 1) + " && @start_breakdown"@ + istr + "[tid]"@,
                        ),
                        exprs: seq![
                            SExpr::Raw(
                                "@duration_breakdown_tmp"@ + istr
                                    + "[tid] += (nsecs - @start_breakdown"@ + istr + "[tid])"@,
                            ),
                            SExpr::Raw("@count_breakdown_tmp"@ + istr + "[tid] += 1"@),
                            SExpr::Raw("delete(@start_breakdown"@ + istr + "[tid])"@),
                        ],
                    }
                }
            },
    )
}

/// The interval printer of breakdown mode.
pub open spec fn s_breakdown_interval_block(nb: int) -> SBlock {
    SBlock {
        btype: SBlockType::Interval(1),
        filter: None,
        exprs: seq![
            SExpr::Printf(
                "{\"time\": %d, \"breakdown\": {"@,
                seq!["(nsecs - @start_time) / 1000000000"@],
            ),
            SExpr::Printf(
                "\"last_frame\": [%lld, %lld]"@ + if nb > 0 {
                    ", "@
                } else {
                    Seq::<char>::empty()
                },
                seq!["@duration"@, "@count"@],
            ),
        ] + Seq::new(
            nb as nat,
            |i: int|
                SExpr::Printf(
                    "\""@ + spec_dec(i as nat) + "\": [%lld, %lld]"@ + if i != nb - 1 {
                        ", "@
                    } else {
                        Seq::<char>::empty()
                    },
                    seq![
                        "@duration_breakdown"@ + spec_dec(i as nat),
                        "@count_breakdown"@ + spec_dec(i as nat),
                    ],
                ),
        ) + seq![SExpr::Printf("}}\\n"@, Seq::<Seq<char>>::empty())],
    }
}

/// The mode-dependent tail of the program. When the stack has a single frame
/// its return probe is the program's first and carries the commit.
pub open spec fn s_mode_blocks(st: STraceStack, commit: Seq<SExpr>) -> Seq<SBlock> {
    let top = st.frames.last();
    let depth = st.frames.len() - 1;
    let ret_commit = if st.frames.len() == 1 {
        commit
    } else {
        Seq::<SExpr>::empty()
    };
    match st.mode {
        TraceMode::Line => seq![s_line_ret_block(top, depth, ret_commit)] + s_callsite_blocks(
            top,
            depth,
        ) + seq![s_line_interval_block(s_lines(top))],
        TraceMode::Histogram => seq![
            s_histogram_ret_block(top, depth, ret_commit),
            s_histogram_interval_block(),
        ],
        TraceMode::Breakdown => seq![s_breakdown_ret_block(top, depth, ret_commit)]
            + s_breakdown_blocks(st.breakdown, depth) + seq![
            s_breakdown_interval_block(st.breakdown.len() as int),
        ],
    }
}

/// All blocks of the program for the given state.
pub open spec fn s_blocks(st: STraceStack) -> Seq<SBlock> {
    let commit = s_commit_exprs(st);
    seq![s_begin_block()] + s_mid_blocks(st.frames, commit) + seq![
        s_top_entry_block(st.frames.last(), st.frames.len() - 1),
    ] + s_mode_blocks(st, commit)
}

/// The synthesized program text for the given state: a pure function of the
/// program path and the stack snapshot, with no other inputs.
pub open spec fn s_bpftrace_expr(path: Seq<char>, st: STraceStack) -> Seq<char> {
    s_compile_program(s_blocks(st), path)
}

/// An owned copy of a string slice.
fn lit(s: &str) -> (r: String)
    ensures
        r@ == s@,
{
    s.to_owned()
}

/// Decimal rendering of a `usize`.
fn dec_usize(n: usize) -> (r: String)
    ensures
        r@ == spec_dec(n as nat),
{
    strutil::dec_u64(n as u64)
}

/// Decimal rendering of a `u32`.
fn dec_u32(n: u32) -> (r: String)
    ensures
        r@ == spec_dec(n as nat),
{
    strutil::dec_u64(n as u64)
}

/// `a` then `b`.
fn cat2(a: &str, b: &str) -> (r: String)
    ensures
        r@ == a@ + b@,
{
    let mut r = lit(a);
    r.append(b);
    r
}

/// `a` then `b` then `c`.
fn cat3(a: &str, b: &str, c: &str) -> (r: String)
    ensures
        r@ == a@ + b@ + c@,
{
    let mut r = lit(a);
    r.append(b);
    r.append(c);
    r
}

/// `a` through `e`, concatenated.
fn cat5(a: &str, b: &str, c: &str, d: &str, e: &str) -> (r: String)
    ensures
        r@ == a@ + b@ + c@ + d@ + e@,
{
    let mut r = lit(a);
    r.append(b);
    r.append(c);
    r.append(d);
    r.append(e);
    r
}

/// The depth guard for stack level `d`.
fn depth_cond(d: usize) -> (r: String)
    ensures
        r@ == s_depth_cond(d as int),
{
    let n = dec_usize(d);
    cat2("@depth[tid] == ", n.as_str())
}

/// Each statement as a raw expression.
fn raws(exprs: Vec<String>) -> (r: Vec<Expression>)
    ensures
        r@.map_values(|e: Expression| e@) == exprs.deep_view().map_values(
            |e: Seq<char>| SExpr::Raw(e),
        ),
{
    let ghost want = exprs.deep_view().map_values(|e: Seq<char>| SExpr::Raw(e));
    let mut r: Vec<Expression> = Vec::new();
    let mut i: usize = 0;
    let mut rest = exprs;
    proof {
        assert(r@.map_values(|e: Expression| e@) =~= want.take(0));
    }
    while i < rest.len()
        invariant
            i <= rest@.len(),
            want == rest.deep_view().map_values(|e: Seq<char>| SExpr::Raw(e)),
            want.len() == rest@.len(),
            r@.map_values(|e: Expression| e@) == want.take(i as int),
        decreases rest@.len() - i,
    {
        let ghost r0 = r@;
        let s = rest[i].clone();
        r.push(Expression::RawExpr(s));
        proof {
            assert(rest.deep_view()[i as int] == rest@[i as int]@);
            assert(r@ == r0.push(r@.last()));
            assert(r@.last()@ == want[i as int]);
            assert(r0.map_values(|e: Expression| e@).len() == r0.len());
            assert forall|k: int| 0 <= k < i implies r@.map_values(|e: Expression| e@)[k]
                == want[k] by {
                assert(r@[k] == r0[k]);
                assert(r0.map_values(|e: Expression| e@)[k] == r0[k]@);
                assert(r0.map_values(|e: Expression| e@)[k] == want.take(i as int)[k]);
            }
            assert(r@.map_values(|e: Expression| e@) =~= want.take(i + 1));
        }
        i = i + 1;
    }
    proof {
        assert(want.take(want.len() as int) =~= want);
    }
    r
}

/// A user filter folded around the given raw statements, as the original
/// scheme requires: an entry filter guards the body, a return filter counts
/// its own matches while the body runs unconditionally.
fn user_filter(filter: Option<String>, is_ret_filter: bool, exprs: Vec<String>) -> (r: Vec<
    Expression,
>)
    ensures
        r@.map_values(|e: Expression| e@) == s_user_filter(
            match filter {
                Some(f) => Some(f@),
                None => None,
            },
            is_ret_filter,
            exprs.deep_view(),
        ),
{
    match filter {
        None => raws(exprs),
        Some(f) => {
            if is_ret_filter {
                let ghost fview = f@;
                let mut r = raws(exprs);
                let ghost r0 = r@;
                let mut body: Vec<String> = Vec::new();
                body.push(lit("@matched_retfilters[tid] += 1"));
                proof {
                    assert(body.deep_view() =~= seq!["@matched_retfilters[tid] += 1"@]);
                }
                r.push(Expression::If { condition: f, body });
                proof {
                    let m = r@.map_values(|e: Expression| e@);
                    let m0 = r0.map_values(|e: Expression| e@);
                    assert(r@ == r0.push(r@.last()));
                    assert(m0.len() == r0.len());
                    assert(r@.last()@ == SExpr::If(
                        fview,
                        seq!["@matched_retfilters[tid] += 1"@],
                    ));
                    assert forall|k: int| 0 <= k < r0.len() implies m[k] == m0[k] by {
                        assert(r@[k] == r0[k]);
                    }
                    assert(m =~= m0.push(
                        SExpr::If(fview, seq!["@matched_retfilters[tid] += 1"@]),
                    ));
                }
                r
            } else {
                let ghost fview = f@;
                let e = Expression::If { condition: f, body: exprs };
                let mut r: Vec<Expression> = Vec::new();
                r.push(e);
                proof {
                    assert(r@.map_values(|e: Expression| e@) =~= seq![
                        SExpr::If(fview, exprs.deep_view()),
                    ]);
                }
                r
            }
        },
    }
}

/// The opening block.
fn begin_block() -> (r: Block)
    ensures
        r@ == s_begin_block(),
{
    let mut exprs: Vec<String> = Vec::new();
    exprs.push(lit("@start_time = nsecs"));
    exprs.push(lit("@depth[-1] = 0"));
    exprs.push(lit("@matched_retfilters[-1] = 0"));
    let es = raws(exprs);
    let b = Block::new(BlockType::Begin, None, es);
    proof {
        assert(b@.exprs =~= s_begin_block().exprs);
    }
    b
}

/// `a` through `d`, concatenated.
fn cat4(a: &str, b: &str, c: &str, d: &str) -> (r: String)
    ensures
        r@ == a@ + b@ + c@ + d@,
{
    let mut r = lit(a);
    r.append(b);
    r.append(c);
    r.append(d);
    r
}

/// `a` through `i`, concatenated.
fn cat9(
    a: &str,
    b: &str,
    c: &str,
    d: &str,
    e: &str,
    f: &str,
    g: &str,
    h: &str,
    i: &str,
) -> (r: String)
    ensures
        r@ == a@ + b@ + c@ + d@ + e@ + f@ + g@ + h@ + i@,
{
    let mut r = lit(a);
    r.append(b);
    r.append(c);
    r.append(d);
    r.append(e);
    r.append(f);
    r.append(g);
    r.append(h);
    r.append(i);
    r
}

/// One list of expressions after another.
fn append_exprs(a: Vec<Expression>, b: Vec<Expression>) -> (r: Vec<Expression>)
    ensures
        r@.map_values(|e: Expression| e@) == a@.map_values(|e: Expression| e@) + b@.map_values(
            |e: Expression| e@,
        ),
{
    let ghost aview = a@.map_values(|e: Expression| e@);
    let ghost bview = b@.map_values(|e: Expression| e@);
    let mut r = a;
    let mut rest = b;
    r.append(&mut rest);
    proof {
        assert(r@.map_values(|e: Expression| e@) =~= aview + bview);
    }
    r
}

/// The traced lines of the frame followed by its own source line.
fn lines_vec(frame: &FrameInfo) -> (r: Vec<u32>)
    ensures
        r@ == s_lines(frame@),
{
    let ghost want = s_lines(frame@);
    let mut r: Vec<u32> = Vec::new();
    let n = frame.traced_len();
    let mut i: usize = 0;
    while i < n
        invariant
            n == frame@.traced.len(),
            i <= n,
            want == s_lines(frame@),
            r@ == want.take(i as int),
        decreases n - i,
    {
        let t = frame.traced_at(i);
        r.push(t.line);
        proof {
            assert(want[i as int] == frame@.traced.map_values(
                |t: (u32, crate::trace_structs::SCallInstruction)| t.0,
            )[i as int]);
            assert(r@ =~= want.take(i + 1));
        }
        i = i + 1;
    }
    r.push(frame.get_source_line());
    proof {
        assert(r@ =~= want);
    }
    r
}

/// How many frames carry a return filter.
fn count_retfilters(stack: &TraceStack) -> (r: u64)
    requires
        stack@.wf(),
    ensures
        r == s_num_retfilters(stack@.frames),
{
    let ghost frames = stack@.frames;
    let n = stack.frames_len();
    let mut c: u64 = 0;
    let mut i: usize = 0;
    proof {
        assert(frames.take(0) =~= Seq::<SFrame>::empty());
    }
    while i < n
        invariant
            n == frames.len(),
            frames == stack@.frames,
            i <= n,
            c == s_num_retfilters(frames.take(i as int)),
            c <= i,
        decreases n - i,
    {
        let frame = stack.frame_at(i);
        let has = match frame.get_filter(true) {
            Some(_) => true,
            None => false,
        };
        proof {
            let t1 = frames.take(i + 1);
            assert(t1.drop_last() =~= frames.take(i as int));
            assert(t1.last() == frames[i as int]);
            assert(frames[i as int] == frame@);
        }
        if has {
            c = c + 1;
        }
        i = i + 1;
    }
    proof {
        assert(frames.take(n as int) =~= frames);
    }
    c
}

/// The commit statements of the current mode, as executable expressions.
fn commit_exprs(stack: &TraceStack) -> (r: Vec<Expression>)
    requires
        stack@.wf(),
    ensures
        r@.map_values(|e: Expression| e@) == s_commit_exprs(stack@),
{
    let nrf = count_retfilters(stack);
    let nrf_str = strutil::dec_u64(nrf);
    let cond = cat2("@matched_retfilters[tid] == ", nrf_str.as_str());
    match stack.get_mode() {
        TraceMode::Line => {
            let top = stack.frame_at(stack.frames_len() - 1);
            proof {
                assert(stack@.frames.last() == top@);
            }
            let lines = lines_vec(top);
            let ghost lv = lines@;
            let ghost body_want = lv.map_values(
                |line: u32|
                    "@duration"@ + spec_dec(line as nat) + " += @duration_tmp"@ + spec_dec(
                        line as nat,
                    ) + "[tid]; @count"@ + spec_dec(line as nat) + " += @count_tmp"@ + spec_dec(
                        line as nat,
                    ) + "[tid]"@,
            );
            let mut body: Vec<String> = Vec::new();
            let mut i: usize = 0;
            proof {
                assert(body.deep_view() =~= body_want.take(0));
            }
            while i < lines.len()
                invariant
                    i <= lv.len(),
                    lines@ == lv,
                    body_want == lv.map_values(
                        |line: u32|
                            "@duration"@ + spec_dec(line as nat) + " += @duration_tmp"@ + spec_dec(
                                line as nat,
                            ) + "[tid]; @count"@ + spec_dec(line as nat) + " += @count_tmp"@
                                + spec_dec(line as nat) + "[tid]"@,
                    ),
                    body_want.len() == lv.len(),
                    body.deep_view() == body_want.take(i as int),
                decreases lv.len() - i,
            {
                let ghost b0 = body.deep_view();
                let line = dec_u32(lines[i]);
                let stmt = cat9(
                    "@duration",
                    line.as_str(),
                    " += @duration_tmp",
                    line.as_str(),
                    "[tid]; @count",
                    line.as_str(),
                    " += @count_tmp",
                    line.as_str(),
                    "[tid]",
                );
                body.push(stmt);
                proof {
                    assert(body.deep_view() =~= b0.push(body@.last()@));
                    assert(body@.last()@ == body_want[i as int]);
                    assert(body.deep_view() =~= body_want.take(i + 1));
                }
                i = i + 1;
            }
            proof {
                assert(body.deep_view() =~= body_want);
            }
            let mut r: Vec<Expression> = Vec::new();
            r.push(Expression::If { condition: cond, body });
            let ghost deletes_want = lv.map_values(
                |line: u32|
                    SExpr::Raw(
                        "delete(@duration_tmp"@ + spec_dec(line as nat)
                            + "[tid]); delete(@count_tmp"@ + spec_dec(line as nat) + "[tid])"@,
                    ),
            );
            let mut j: usize = 0;
            proof {
                assert(r@.map_values(|e: Expression| e@) =~= seq![
                    SExpr::If(s_commit_cond(s_num_retfilters(stack@.frames)), body_want),
                ] + deletes_want.take(0));
            }
            while j < lines.len()
                invariant
                    j <= lv.len(),
                    lines@ == lv,
                    deletes_want == lv.map_values(
                        |line: u32|
                            SExpr::Raw(
                                "delete(@duration_tmp"@ + spec_dec(line as nat)
                                    + "[tid]); delete(@count_tmp"@ + spec_dec(line as nat)
                                    + "[tid])"@,
                            ),
                    ),
                    deletes_want.len() == lv.len(),
                    r@.map_values(|e: Expression| e@) == seq![
                        SExpr::If(s_commit_cond(s_num_retfilters(stack@.frames)), body_want),
                    ] + deletes_want.take(j as int),
                decreases lv.len() - j,
            {
                let ghost r0 = r@.map_values(|e: Expression| e@);
                let line = dec_u32(lines[j]);
                let stmt = cat5(
                    "delete(@duration_tmp",
                    line.as_str(),
                    "[tid]); delete(@count_tmp",
                    line.as_str(),
                    "[tid])",
                );
                r.push(Expression::RawExpr(stmt));
                proof {
                    let m = r@.map_values(|e: Expression| e@);
                    assert(m =~= r0.push(r@.last()@));
                    assert(r@.last()@ == deletes_want[j as int]);
                    assert(m =~= seq![
                        SExpr::If(s_commit_cond(s_num_retfilters(stack@.frames)), body_want),
                    ] + deletes_want.take(j + 1));
                }
                j = j + 1;
            }
            r.push(Expression::RawExpr(lit("delete(@matched_retfilters[tid])")));
            proof {
                assert(deletes_want.take(lv.len() as int) =~= deletes_want);
                assert(s_lines(stack@.frames.last()) == lv);
                assert(r@.map_values(|e: Expression| e@) =~= s_commit_line(
                    lv,
                    s_num_retfilters(stack@.frames),
                ));
            }
            r
        },
        TraceMode::Histogram => {
            let full_cond = cat2(cond.as_str(), " && @duration_tmp[tid]");
            let mut body: Vec<String> = Vec::new();
            body.push(lit("@histogram = hist(@duration_tmp[tid])"));
            proof {
                assert(body.deep_view() =~= seq!["@histogram = hist(@duration_tmp[tid])"@]);
            }
            let mut r: Vec<Expression> = Vec::new();
            r.push(Expression::If { condition: full_cond, body });
            r.push(Expression::RawExpr(lit("delete(@duration_tmp[tid])")));
            r.push(Expression::RawExpr(lit("delete(@matched_retfilters[tid])")));
            proof {
                assert(r@.map_values(|e: Expression| e@) =~= s_commit_histogram(
                    s_num_retfilters(stack@.frames),
                ));
            }
            r
        },
        TraceMode::Breakdown => {
            let nb = stack.breakdown_len();
            let ghost body_want = Seq::new(
                nb as nat,
                |i: int|
                    "@duration_breakdown"@ + spec_dec(i as nat) + " += @duration_breakdown_tmp"@
                        + spec_dec(i as nat) + "[tid]; @count_breakdown"@ + spec_dec(i as nat)
                        + " += @count_breakdown_tmp"@ + spec_dec(i as nat) + "[tid]"@,
            );
            let mut body: Vec<String> = Vec::new();
            let mut i: usize = 0;
            proof {
                assert(body.deep_view() =~= body_want.take(0));
            }
            while i < nb
                invariant
                    i <= nb,
                    body_want == Seq::new(
                        nb as nat,
                        |i: int|
                            "@duration_breakdown"@ + spec_dec(i as nat)
                                + " += @duration_breakdown_tmp"@ + spec_dec(i as nat)
                                + "[tid]; @count_breakdown"@ + spec_dec(i as nat)
                                + " += @count_breakdown_tmp"@ + spec_dec(i as nat) + "[tid]"@,
                    ),
                    body.deep_view() == body_want.take(i as int),
                decreases nb - i,
            {
                let ghost b0 = body.deep_view();
                let istr = dec_usize(i);
                let stmt = cat9(
                    "@duration_breakdown",
                    istr.as_str(),
                    " += @duration_breakdown_tmp",
                    istr.as_str(),
                    "[tid]; @count_breakdown",
                    istr.as_str(),
                    " += @count_breakdown_tmp",
                    istr.as_str(),
                    "[tid]",
                );
                body.push(stmt);
                proof {
                    assert(body.deep_view() =~= b0.push(body@.last()@));
                    assert(body@.last()@ == body_want[i as int]);
                    assert(body.deep_view() =~= body_want.take(i + 1));
                }
                i = i + 1;
            }
            body.push(lit("@duration += @duration_tmp[tid]; @count += @count_tmp[tid]"));
            proof {
                assert(body_want.take(nb as int) =~= body_want);
                assert(body.deep_view() =~= body_want.push(
                    "@duration += @duration_tmp[tid]; @count += @count_tmp[tid]"@,
                ));
            }
            let mut r: Vec<Expression> = Vec::new();
            r.push(Expression::If { condition: cond, body });
            let ghost head = seq![
                SExpr::If(
                    s_commit_cond(s_num_retfilters(stack@.frames)),
                    body_want.push(
                        "@duration += @duration_tmp[tid]; @count += @count_tmp[tid]"@,
                    ),
                ),
            ];
            let ghost deletes_want = Seq::new(
                nb as nat,
                |i: int|
                    SExpr::Raw(
                        "delete(@duration_breakdown_tmp"@ + spec_dec(i as nat)
                            + "[tid]); delete(@count_breakdown_tmp"@ + spec_dec(i as nat)
                            + "[tid])"@,
                    ),
            );
            let mut j: usize = 0;
            proof {
                assert(r@.map_values(|e: Expression| e@) =~= head + deletes_want.take(0));
            }
            while j < nb
                invariant
                    j <= nb,
                    head == seq![
                        SExpr::If(
                            s_commit_cond(s_num_retfilters(stack@.frames)),
                            body_want.push(
                                "@duration += @duration_tmp[tid]; @count += @count_tmp[tid]"@,
                            ),
                        ),
                    ],
                    deletes_want == Seq::new(
                        nb as nat,
                        |i: int|
                            SExpr::Raw(
                                "delete(@duration_breakdown_tmp"@ + spec_dec(i as nat)
                                    + "[tid]); delete(@count_breakdown_tmp"@ + spec_dec(i as nat)
                                    + "[tid])"@,
                            ),
                    ),
                    r@.map_values(|e: Expression| e@) == head + deletes_want.take(j as int),
                decreases nb - j,
            {
                let ghost r0 = r@.map_values(|e: Expression| e@);
                let istr = dec_usize(j);
                let stmt = cat5(
                    "delete(@duration_breakdown_tmp",
                    istr.as_str(),
                    "[tid]); delete(@count_breakdown_tmp",
                    istr.as_str(),
                    "[tid])",
                );
                r.push(Expression::RawExpr(stmt));
                proof {
                    let m = r@.map_values(|e: Expression| e@);
                    assert(m =~= r0.push(r@.last()@));
                    assert(r@.last()@ == deletes_want[j as int]);
                    assert(m =~= head + deletes_want.take(j + 1));
                }
                j = j + 1;
            }
            r.push(
                Expression::RawExpr(
                    lit(
                        "delete(@matched_retfilters[tid]); delete(@duration_tmp[tid]); delete(@count_tmp[tid])",
                    ),
                ),
            );
            proof {
                assert(deletes_want.take(nb as int) =~= deletes_want);
                assert(r@.map_values(|e: Expression| e@) =~= s_commit_breakdown(
                    nb as int,
                    s_num_retfilters(stack@.frames),
                ));
            }
            r
        },
    }
}

/// Entry block of the non-top frame at stack index `i`.
fn frame_entry_block(frame: &FrameInfo, i: usize) -> (r: Block)
    requires
        i < usize::MAX,
    ensures
        r@ == s_frame_entry_block(frame@, i as int),
{
    let d1 = dec_usize(i + 1);
    let d0 = dec_usize(i);
    let mut exprs: Vec<String> = Vec::new();
    exprs.push(cat2("@depth[tid] = ", d1.as_str()));
    exprs.push(cat3("@start_frame", d0.as_str(), "[tid] = nsecs"));
    proof {
        assert(exprs.deep_view() =~= seq![
            "@depth[tid] = "@ + spec_dec((i + 1) as nat),
            "@start_frame"@ + spec_dec(i as nat) + "[tid] = nsecs"@,
        ]);
    }
    let es = user_filter(frame.get_filter(false), false, exprs);
    let b = Block::new(
        BlockType::Uprobe(frame.get_function().clone()),
        Some(depth_cond(i)),
        es,
    );
    proof {
        assert(b@ == s_frame_entry_block(frame@, i as int));
    }
    b
}

/// Exit block of the non-top frame at stack index `i`. The caller hands the
/// commit statements to the frame at index 0 and an empty list to the rest.
fn frame_exit_block(frame: &FrameInfo, i: usize, commit: Vec<Expression>) -> (r: Block)
    requires
        i < usize::MAX,
    ensures
        r@ == (SBlock {
            btype: SBlockType::Uretprobe(frame@.function),
            filter: Some(s_depth_cond(i + 1)),
            exprs: s_user_filter(
                frame@.ret_filter,
                true,
                seq![
                    "@depth[tid] = "@ + spec_dec(i as nat),
                    "$duration = nsecs - @start_frame"@ + spec_dec(i as nat) + "[tid]"@,
                ],
            ) + commit@.map_values(|e: Expression| e@),
        }),
{
    let d0 = dec_usize(i);
    let mut exprs: Vec<String> = Vec::new();
    exprs.push(cat2("@depth[tid] = ", d0.as_str()));
    exprs.push(cat3("$duration = nsecs - @start_frame", d0.as_str(), "[tid]"));
    proof {
        assert(exprs.deep_view() =~= seq![
            "@depth[tid] = "@ + spec_dec(i as nat),
            "$duration = nsecs - @start_frame"@ + spec_dec(i as nat) + "[tid]"@,
        ]);
    }
    let es = user_filter(frame.get_filter(true), true, exprs);
    let es = append_exprs(es, commit);
    let b = Block::new(
        BlockType::Uretprobe(frame.get_function().clone()),
        Some(depth_cond(i + 1)),
        es,
    );
    b
}

/// Entry block of the top frame.
fn top_entry_block(frame: &FrameInfo, depth: usize) -> (r: Block)
    requires
        depth < usize::MAX,
    ensures
        r@ == s_top_entry_block(frame@, depth as int),
{
    let line = dec_u32(frame.get_source_line());
    let d1 = dec_usize(depth + 1);
    let mut exprs: Vec<String> = Vec::new();
    exprs.push(cat3("@start", line.as_str(), "[tid] = nsecs"));
    exprs.push(cat2("@depth[tid] = ", d1.as_str()));
    proof {
        assert(exprs.deep_view() =~= seq![
            "@start"@ + spec_dec(frame@.source_line as nat) + "[tid] = nsecs"@,
            "@depth[tid] = "@ + spec_dec((depth + 1) as nat),
        ]);
    }
    let es = user_filter(frame.get_filter(false), false, exprs);
    let b = Block::new(
        BlockType::Uprobe(frame.get_function().clone()),
        Some(depth_cond(depth)),
        es,
    );
    proof {
        assert(b@ == s_top_entry_block(frame@, depth as int));
    }
    b
}

/// Return block of the top frame in line mode.
fn line_ret_block(frame: &FrameInfo, depth: usize, commit: Vec<Expression>) -> (r: Block)
    requires
        depth < usize::MAX,
    ensures
        r@ == (SBlock {
            exprs: s_line_ret_block(frame@, depth as int, Seq::<SExpr>::empty()).exprs
                + commit@.map_values(|e: Expression| e@),
            ..s_line_ret_block(frame@, depth as int, Seq::<SExpr>::empty())
        }),
{
    let line = dec_u32(frame.get_source_line());
    let dd = dec_usize(depth);
    let mut exprs: Vec<String> = Vec::new();
    exprs.push(cat5("@duration_tmp", line.as_str(), "[tid] += (nsecs - @start", line.as_str(), "[tid])"));
    exprs.push(cat3("$duration = @duration_tmp", line.as_str(), "[tid]"));
    exprs.push(cat3("@count_tmp", line.as_str(), "[tid] += 1"));
    exprs.push(cat3("delete(@start", line.as_str(), "[tid])"));
    exprs.push(cat2("@depth[tid] = ", dd.as_str()));
    proof {
        let l = spec_dec(frame@.source_line as nat);
        assert(exprs.deep_view() =~= seq![
            "@duration_tmp"@ + l + "[tid] += (nsecs - @start"@ + l + "[tid])"@,
            "$duration = @duration_tmp"@ + l + "[tid]"@,
            "@count_tmp"@ + l + "[tid] += 1"@,
            "delete(@start"@ + l + "[tid])"@,
            "@depth[tid] = "@ + spec_dec(depth as nat),
        ]);
    }
    let es = user_filter(frame.get_filter(true), true, exprs);
    let es = append_exprs(es, commit);
    let b = Block::new(
        BlockType::Uretprobe(frame.get_function().clone()),
        Some(depth_cond(depth + 1)),
        es,
    );
    proof {
        assert(s_line_ret_block(frame@, depth as int, Seq::<SExpr>::empty()).exprs =~= s_user_filter(
            frame@.ret_filter,
            true,
            seq![
                "@duration_tmp"@ + spec_dec(frame@.source_line as nat)
                    + "[tid] += (nsecs - @start"@ + spec_dec(frame@.source_line as nat)
                    + "[tid])"@,
                "$duration = @duration_tmp"@ + spec_dec(frame@.source_line as nat) + "[tid]"@,
                "@count_tmp"@ + spec_dec(frame@.source_line as nat) + "[tid] += 1"@,
                "delete(@start"@ + spec_dec(frame@.source_line as nat) + "[tid])"@,
                "@depth[tid] = "@ + spec_dec(depth as nat),
            ],
        ));
    }
    b
}

/// Return block of the top frame in histogram mode.
fn histogram_ret_block(frame: &FrameInfo, depth: usize, commit: Vec<Expression>) -> (r: Block)
    requires
        depth < usize::MAX,
    ensures
        r@ == (SBlock {
            exprs: s_histogram_ret_block(frame@, depth as int, Seq::<SExpr>::empty()).exprs
                + commit@.map_values(|e: Expression| e@),
            ..s_histogram_ret_block(frame@, depth as int, Seq::<SExpr>::empty())
        }),
{
    let line = dec_u32(frame.get_source_line());
    let dd = dec_usize(depth);
    let mut exprs: Vec<String> = Vec::new();
    exprs.push(cat3("@duration_tmp[tid] = nsecs - @start", line.as_str(), "[tid]"));
    exprs.push(lit("$duration = @duration_tmp[tid]"));
    exprs.push(cat3("delete(@start", line.as_str(), "[tid])"));
    exprs.push(cat2("@depth[tid] = ", dd.as_str()));
    proof {
        let l = spec_dec(frame@.source_line as nat);
        assert(exprs.deep_view() =~= seq![
            "@duration_tmp[tid] = nsecs - @start"@ + l + "[tid]"@,
            "$duration = @duration_tmp[tid]"@,
            "delete(@start"@ + l + "[tid])"@,
            "@depth[tid] = "@ + spec_dec(depth as nat),
        ]);
    }
    let es = user_filter(frame.get_filter(true), true, exprs);
    let es = append_exprs(es, commit);
    let b = Block::new(
        BlockType::Uretprobe(frame.get_function().clone()),
        Some(depth_cond(depth + 1)),
        es,
    );
    b
}

/// Return block of the top frame in breakdown mode.
fn breakdown_ret_block(frame: &FrameInfo, depth: usize, commit: Vec<Expression>) -> (r: Block)
    requires
        depth < usize::MAX,
    ensures
        r@ == (SBlock {
            exprs: s_breakdown_ret_block(frame@, depth as int, Seq::<SExpr>::empty()).exprs
                + commit@.map_values(|e: Expression| e@),
            ..s_breakdown_ret_block(frame@, depth as int, Seq::<SExpr>::empty())
        }),
{
    let line = dec_u32(frame.get_source_line());
    let dd = dec_usize(depth);
    let mut exprs: Vec<String> = Vec::new();
    exprs.push(cat3("@duration_tmp[tid] += (nsecs - @start", line.as_str(), "[tid])"));
    exprs.push(lit("$duration = @duration_tmp[tid]"));
    exprs.push(lit("@count_tmp[tid] += 1"));
    exprs.push(cat3("delete(@start", line.as_str(), "[tid])"));
    exprs.push(cat2("@depth[tid] = ", dd.as_str()));
    proof {
        let l = spec_dec(frame@.source_line as nat);
        assert(exprs.deep_view() =~= seq![
            "@duration_tmp[tid] += (nsecs - @start"@ + l + "[tid])"@,
            "$duration = @duration_tmp[tid]"@,
            "@count_tmp[tid] += 1"@,
            "delete(@start"@ + l + "[tid])"@,
            "@depth[tid] = "@ + spec_dec(depth as nat),
        ]);
    }
    let es = user_filter(frame.get_filter(true), true, exprs);
    let es = append_exprs(es, commit);
    let b = Block::new(
        BlockType::Uretprobe(frame.get_function().clone()),
        Some(depth_cond(depth + 1)),
        es,
    );
    b
}

/// Append the offset-probe pairs for the traced call sites of the top frame.
fn add_callsite_blocks(program: &mut BpftraceProgram, frame: &FrameInfo, depth: usize)
    requires
        frame@.wf(),
        depth < usize::MAX,
    ensures
        final(program)@ == old(program)@ + s_callsite_blocks(frame@, depth as int),
{
    let ghost base = program@;
    let ghost want = s_callsite_blocks(frame@, depth as int);
    let n = frame.traced_len();
    let mut k: usize = 0;
    proof {
        assert(program@ =~= base + want.take(0));
    }
    while k < n
        invariant
            n == frame@.traced.len(),
            frame@.wf(),
            depth < usize::MAX,
            want == s_callsite_blocks(frame@, depth as int),
            want.len() == 2 * n,
            k <= n,
            program@ == base + want.take(2 * k),
        decreases n - k,
    {
        let t = frame.traced_at(k);
        let line = dec_u32(t.line);
        let cs = &t.callsite;
        let mut start_exprs: Vec<String> = Vec::new();
        start_exprs.push(cat3("@start", line.as_str(), "[tid] = nsecs"));
        proof {
            assert(start_exprs.deep_view() =~= seq![
                "@start"@ + spec_dec(t@.0 as nat) + "[tid] = nsecs"@,
            ]);
        }
        let b1 = Block::new(
            BlockType::UprobeOffset(frame.get_function().clone(), cs.relative_ip()),
            Some(depth_cond(depth + 1)),
            raws(start_exprs),
        );
        proof {
            assert(frame@.traced[k as int] == t@);
            assert(b1@.exprs =~= want[2 * k].exprs);
            assert(b1@ == want[2 * k]);
        }
        program.add(b1);
        proof {
            assert(frame@.traced[k as int].1.relative_ip + frame@.traced[k as int].1.length
                <= u32::MAX);
        }
        let end_off = cs.relative_ip() + cs.length();
        let dc = depth_cond(depth + 1);
        let end_cond = cat4(dc.as_str(), " && @start", line.as_str(), "[tid]");
        let mut end_exprs: Vec<String> = Vec::new();
        end_exprs.push(
            cat5("@duration_tmp", line.as_str(), "[tid] += (nsecs - @start", line.as_str(), "[tid])"),
        );
        end_exprs.push(cat3("@count_tmp", line.as_str(), "[tid] += 1"));
        end_exprs.push(cat3("delete(@start", line.as_str(), "[tid])"));
        proof {
            let l = spec_dec(t@.0 as nat);
            assert(end_exprs.deep_view() =~= seq![
                "@duration_tmp"@ + l + "[tid] += (nsecs - @start"@ + l + "[tid])"@,
                "@count_tmp"@ + l + "[tid] += 1"@,
                "delete(@start"@ + l + "[tid])"@,
            ]);
        }
        let b2 = Block::new(
            BlockType::UprobeOffset(frame.get_function().clone(), end_off),
            Some(end_cond),
            raws(end_exprs),
        );
        proof {
            assert(b2@.exprs =~= want[2 * k + 1].exprs);
            assert(b2@ == want[2 * k + 1]);
        }
        program.add(b2);
        proof {
            assert(program@ =~= base + want.take(2 * k + 2));
        }
        k = k + 1;
    }
    proof {
        assert(want.take(want.len() as int) =~= want);
    }
}

/// Append the entry/exit probes of the breakdown functions.
fn add_breakdown_blocks(program: &mut BpftraceProgram, stack: &TraceStack, depth: usize)
    requires
        depth < usize::MAX,
    ensures
        final(program)@ == old(program)@ + s_breakdown_blocks(stack@.breakdown, depth as int),
{
    let ghost base = program@;
    let ghost want = s_breakdown_blocks(stack@.breakdown, depth as int);
    let n = stack.breakdown_len();
    let mut k: usize = 0;
    proof {
        assert(program@ =~= base + want.take(0));
    }
    while k < n
        invariant
            n == stack@.breakdown.len(),
            depth < usize::MAX,
            want == s_breakdown_blocks(stack@.breakdown, depth as int),
            want.len() == 2 * n,
            k <= n,
            program@ == base + want.take(2 * k),
        decreases n - k,
    {
        let function = stack.breakdown_at(k);
        let istr = dec_usize(k);
        let mut start_exprs: Vec<String> = Vec::new();
        start_exprs.push(cat3("@start_breakdown", istr.as_str(), "[tid] = nsecs"));
        proof {
            assert(start_exprs.deep_view() =~= seq![
                "@start_breakdown"@ + spec_dec(k as nat) + "[tid] = nsecs"@,
            ]);
        }
        let b1 = Block::new(
            BlockType::Uprobe(function.clone()),
            Some(depth_cond(depth + 1)),
            raws(start_exprs),
        );
        proof {
            assert(b1@.exprs =~= want[2 * k].exprs);
            assert(b1@ == want[2 * k]);
        }
        program.add(b1);
        let dc = depth_cond(depth + 1);
        let end_cond = cat4(dc.as_str(), " && @start_breakdown", istr.as_str(), "[tid]");
        let mut end_exprs: Vec<String> = Vec::new();
        end_exprs.push(
            cat5(
                "@duration_breakdown_tmp",
                istr.as_str(),
                "[tid] += (nsecs - @start_breakdown",
                istr.as_str(),
                "[tid])",
            ),
        );
        end_exprs.push(cat3("@count_breakdown_tmp", istr.as_str(), "[tid] += 1"));
        end_exprs.push(cat3("delete(@start_breakdown", istr.as_str(), "[tid])"));
        proof {
            let l = spec_dec(k as nat);
            assert(end_exprs.deep_view() =~= seq![
                "@duration_breakdown_tmp"@ + l + "[tid] += (nsecs - @start_breakdown"@ + l
                    + "[tid])"@,
                "@count_breakdown_tmp"@ + l + "[tid] += 1"@,
                "delete(@start_breakdown"@ + l + "[tid])"@,
            ]);
        }
        let b2 = Block::new(
            BlockType::Uretprobe(function.clone()),
            Some(end_cond),
            raws(end_exprs),
        );
        proof {
            assert(b2@.exprs =~= want[2 * k + 1].exprs);
            assert(b2@ == want[2 * k + 1]);
        }
        program.add(b2);
        proof {
            assert(program@ =~= base + want.take(2 * k + 2));
        }
        k = k + 1;
    }
    proof {
        assert(want.take(want.len() as int) =~= want);
    }
}

/// The per-second JSON printer of line mode.
fn line_interval_block(lines: &Vec<u32>) -> (r: Block)
    ensures
        r@ == s_line_interval_block(lines@),
{
    let ghost want = s_line_interval_block(lines@);
    let ghost mid = Seq::new(
        lines@.len(),
        |i: int|
            SExpr::Printf(
                "\""@ + spec_dec(lines@[i] as nat) + "\": [%lld, %lld]"@ + if i != lines@.len()
                    - 1 {
                    ", "@
                } else {
                    Seq::<char>::empty()
                },
                seq![
                    "@duration"@ + spec_dec(lines@[i] as nat),
                    "@count"@ + spec_dec(lines@[i] as nat),
                ],
            ),
    );
    let mut exprs: Vec<Expression> = Vec::new();
    let mut args0: Vec<String> = Vec::new();
    args0.push(lit("(nsecs - @start_time) / 1000000000"));
    proof {
        assert(args0.deep_view() =~= seq!["(nsecs - @start_time) / 1000000000"@]);
    }
    exprs.push(
        Expression::Printf { format: lit("{\"time\": %d, \"lines\": {"), args: args0 },
    );
    let ghost head = seq![
        SExpr::Printf(
            "{\"time\": %d, \"lines\": {"@,
            seq!["(nsecs - @start_time) / 1000000000"@],
        ),
    ];
    let mut i: usize = 0;
    proof {
        assert(exprs@.map_values(|e: Expression| e@) =~= head + mid.take(0));
    }
    while i < lines.len()
        invariant
            i <= lines@.len(),
            head == seq![
                SExpr::Printf(
                    "{\"time\": %d, \"lines\": {"@,
                    seq!["(nsecs - @start_time) / 1000000000"@],
                ),
            ],
            mid == Seq::new(
                lines@.len(),
                |i: int|
                    SExpr::Printf(
                        "\""@ + spec_dec(lines@[i] as nat) + "\": [%lld, %lld]"@ + if i
                            != lines@.len() - 1 {
                            ", "@
                        } else {
                            Seq::<char>::empty()
                        },
                        seq![
                            "@duration"@ + spec_dec(lines@[i] as nat),
                            "@count"@ + spec_dec(lines@[i] as nat),
                        ],
                    ),
            ),
            exprs@.map_values(|e: Expression| e@) == head + mid.take(i as int),
        decreases lines@.len() - i,
    {
        let ghost e0 = exprs@.map_values(|e: Expression| e@);
        let line = dec_u32(lines[i]);
        let mut format = cat3("\"", line.as_str(), "\": [%lld, %lld]");
        if i != lines.len() - 1 {
            format.append(", ");
        }
        let mut args: Vec<String> = Vec::new();
        args.push(cat2("@duration", line.as_str()));
        args.push(cat2("@count", line.as_str()));
        proof {
            assert(args.deep_view() =~= seq![
                "@duration"@ + spec_dec(lines@[i as int] as nat),
                "@count"@ + spec_dec(lines@[i as int] as nat),
            ]);
            if i != lines@.len() - 1 {
            } else {
                assert(format@ =~= "\""@ + spec_dec(lines@[i as int] as nat)
                    + "\": [%lld, %lld]"@ + Seq::<char>::empty());
            }
        }
        exprs.push(Expression::Printf { format, args });
        proof {
            let m = exprs@.map_values(|e: Expression| e@);
            assert(m =~= e0.push(exprs@.last()@));
            assert(exprs@.last()@ == mid[i as int]);
            assert(m =~= head + mid.take(i + 1));
        }
        i = i + 1;
    }
    let empty_args: Vec<String> = Vec::new();
    exprs.push(Expression::Printf { format: lit("}}\\n"), args: empty_args });
    proof {
        assert(mid.take(lines@.len() as int) =~= mid);
        assert(exprs@.last()@ == SExpr::Printf("}}\\n"@, Seq::<Seq<char>>::empty())) by {
            assert(Seq::new(0, |i: int| Seq::<char>::empty()) =~= Seq::<Seq<char>>::empty());
            assert(exprs@.last() matches Expression::Printf { format, args } ==> args.deep_view()
                =~= Seq::<Seq<char>>::empty());
        }
        assert(exprs@.map_values(|e: Expression| e@) =~= want.exprs);
    }
    let b = Block::new(BlockType::Interval { rate_seconds: 1 }, None, exprs);
    proof {
        assert(b@ == want);
    }
    b
}

/// The per-second JSON printer of histogram mode.
fn histogram_interval_block() -> (r: Block)
    ensures
        r@ == s_histogram_interval_block(),
{
    let mut exprs: Vec<Expression> = Vec::new();
    let mut args0: Vec<String> = Vec::new();
    args0.push(lit("(nsecs - @start_time) / 1000000000"));
    proof {
        assert(args0.deep_view() =~= seq!["(nsecs - @start_time) / 1000000000"@]);
    }
    exprs.push(
        Expression::Printf { format: lit("{\"time\": %d, \"histogram\": \""), args: args0 },
    );
    exprs.push(Expression::Print(lit("@histogram")));
    let empty_args: Vec<String> = Vec::new();
    proof {
        assert(empty_args.deep_view() =~= Seq::<Seq<char>>::empty());
    }
    exprs.push(Expression::Printf { format: lit("\"}\\n"), args: empty_args });
    let b = Block::new(BlockType::Interval { rate_seconds: 1 }, None, exprs);
    proof {
        assert(b@.exprs =~= s_histogram_interval_block().exprs);
        assert(b@ == s_histogram_interval_block());
    }
    b
}

/// The per-second JSON printer of breakdown mode.
fn breakdown_interval_block(nb: usize) -> (r: Block)
    ensures
        r@ == s_breakdown_interval_block(nb as int),
{
    let ghost want = s_breakdown_interval_block(nb as int);
    let ghost mid = Seq::new(
        nb as nat,
        |i: int|
            SExpr::Printf(
                "\""@ + spec_dec(i as nat) + "\": [%lld, %lld]"@ + if i != nb - 1 {
                    ", "@
                } else {
                    Seq::<char>::empty()
                },
                seq![
                    "@duration_breakdown"@ + spec_dec(i as nat),
                    "@count_breakdown"@ + spec_dec(i as nat),
                ],
            ),
    );
    let mut exprs: Vec<Expression> = Vec::new();
    let mut args0: Vec<String> = Vec::new();
    args0.push(lit("(nsecs - @start_time) / 1000000000"));
    proof {
        assert(args0.deep_view() =~= seq!["(nsecs - @start_time) / 1000000000"@]);
    }
    exprs.push(
        Expression::Printf { format: lit("{\"time\": %d, \"breakdown\": {"), args: args0 },
    );
    let mut lf = lit("\"last_frame\": [%lld, %lld]");
    if nb > 0 {
        lf.append(", ");
    }
    let mut lf_args: Vec<String> = Vec::new();
    lf_args.push(lit("@duration"));
    lf_args.push(lit("@count"));
    proof {
        assert(lf_args.deep_view() =~= seq!["@duration"@, "@count"@]);
        if nb == 0 {
            assert(lf@ =~= "\"last_frame\": [%lld, %lld]"@ + Seq::<char>::empty());
        }
    }
    exprs.push(Expression::Printf { format: lf, args: lf_args });
    let ghost head = seq![
        SExpr::Printf(
            "{\"time\": %d, \"breakdown\": {"@,
            seq!["(nsecs - @start_time) / 1000000000"@],
        ),
        SExpr::Printf(
            "\"last_frame\": [%lld, %lld]"@ + if nb > 0 {
                ", "@
            } else {
                Seq::<char>::empty()
            },
            seq!["@duration"@, "@count"@],
        ),
    ];
    let mut i: usize = 0;
    proof {
        assert(exprs@.map_values(|e: Expression| e@) =~= head + mid.take(0));
    }
    while i < nb
        invariant
            i <= nb,
            head == seq![
                SExpr::Printf(
                    "{\"time\": %d, \"breakdown\": {"@,
                    seq!["(nsecs - @start_time) / 1000000000"@],
                ),
                SExpr::Printf(
                    "\"last_frame\": [%lld, %lld]"@ + if nb > 0 {
                        ", "@
                    } else {
                        Seq::<char>::empty()
                    },
                    seq!["@duration"@, "@count"@],
                ),
            ],
            mid == Seq::new(
                nb as nat,
                |i: int|
                    SExpr::Printf(
                        "\""@ + spec_dec(i as nat) + "\": [%lld, %lld]"@ + if i != nb - 1 {
                            ", "@
                        } else {
                            Seq::<char>::empty()
                        },
                        seq![
                            "@duration_breakdown"@ + spec_dec(i as nat),
                            "@count_breakdown"@ + spec_dec(i as nat),
                        ],
                    ),
            ),
            exprs@.map_values(|e: Expression| e@) == head + mid.take(i as int),
        decreases nb - i,
    {
        let ghost e0 = exprs@.map_values(|e: Expression| e@);
        let istr = dec_usize(i);
        let mut format = cat3("\"", istr.as_str(), "\": [%lld, %lld]");
        if i != nb - 1 {
            format.append(", ");
        }
        let mut args: Vec<String> = Vec::new();
        args.push(cat2("@duration_breakdown", istr.as_str()));
        args.push(cat2("@count_breakdown", istr.as_str()));
        proof {
            assert(args.deep_view() =~= seq![
                "@duration_breakdown"@ + spec_dec(i as nat),
                "@count_breakdown"@ + spec_dec(i as nat),
            ]);
            if i != nb - 1 {
            } else {
                assert(format@ =~= "\""@ + spec_dec(i as nat) + "\": [%lld, %lld]"@
                    + Seq::<char>::empty());
            }
        }
        exprs.push(Expression::Printf { format, args });
        proof {
            let m = exprs@.map_values(|e: Expression| e@);
            assert(m =~= e0.push(exprs@.last()@));
            assert(exprs@.last()@ == mid[i as int]);
            assert(m =~= head + mid.take(i + 1));
        }
        i = i + 1;
    }
    let empty_args: Vec<String> = Vec::new();
    exprs.push(Expression::Printf { format: lit("}}\\n"), args: empty_args });
    proof {
        assert(mid.take(nb as int) =~= mid);
        assert(exprs@.last()@ == SExpr::Printf("}}\\n"@, Seq::<Seq<char>>::empty())) by {
            assert(exprs@.last() matches Expression::Printf { format, args } ==> args.deep_view()
                =~= Seq::<Seq<char>>::empty());
        }
        assert(exprs@.map_values(|e: Expression| e@) =~= want.exprs);
    }
    let b = Block::new(BlockType::Interval { rate_seconds: 1 }, None, exprs);
    proof {
        assert(b@ == want);
    }
    b
}

impl TraceStack {
    /// The bpftrace program for the current state, together with the counter
    /// value it belongs to. Both come from one snapshot, so the pair is
    /// consistent; the text depends on nothing but the program path and that
    /// snapshot.
    pub fn get_bpftrace_expr(&self) -> (r: (String, u64))
        requires
            self@.wf(),
        ensures
            r.0@ == s_bpftrace_expr(self@.program_path, self@),
            r.1 == self@.counter,
    {
        let ghost st = self@;
        let ghost commit_s = s_commit_exprs(st);
        let n = self.frames_len();
        let mut program = BpftraceProgram::new();
        program.add(begin_block());
        proof {
            assert(program@ =~= seq![s_begin_block()] + s_mid_blocks(st.frames, commit_s).take(0));
        }
        let mut i: usize = 0;
        while i < n - 1
            invariant
                self@ == st,
                st.wf(),
                n == st.frames.len(),
                i <= n - 1,
                program@ == seq![s_begin_block()] + s_mid_blocks(st.frames, s_commit_exprs(st)).take(
                    2 * i,
                ),
            decreases n - 1 - i,
        {
            let ghost mid = s_mid_blocks(st.frames, s_commit_exprs(st));
            let frame = self.frame_at(i);
            let eb = frame_entry_block(frame, i);
            proof {
                assert(mid[2 * i] == s_frame_entry_block(st.frames[i as int], i as int));
                assert(eb@ == mid[2 * i]);
            }
            program.add(eb);
            let commit: Vec<Expression> = if i == 0 {
                commit_exprs(self)
            } else {
                Vec::new()
            };
            let xb = frame_exit_block(frame, i, commit);
            proof {
                assert(mid[2 * i + 1] == s_frame_exit_block(
                    st.frames[i as int],
                    i as int,
                    s_commit_exprs(st),
                ));
                if i == 0 {
                    assert(xb@.exprs =~= mid[2 * i + 1].exprs);
                } else {
                    assert(commit@.map_values(|e: Expression| e@) =~= Seq::<SExpr>::empty());
                    assert(xb@.exprs =~= mid[2 * i + 1].exprs);
                }
                assert(xb@ == mid[2 * i + 1]);
            }
            program.add(xb);
            proof {
                assert(program@ =~= seq![s_begin_block()] + mid.take(2 * i + 2));
            }
            i = i + 1;
        }
        let depth = n - 1;
        let top = self.frame_at(depth);
        proof {
            assert(st.frames.last() == top@);
        }
        program.add(top_entry_block(top, depth));
        let ghost base = seq![s_begin_block()] + s_mid_blocks(st.frames, commit_s) + seq![
            s_top_entry_block(st.frames.last(), st.frames.len() - 1),
        ];
        proof {
            let mid = s_mid_blocks(st.frames, commit_s);
            assert(mid.take(mid.len() as int) =~= mid);
            assert(program@ =~= base);
        }
        let ghost ret_commit = if st.frames.len() == 1 {
            commit_s
        } else {
            Seq::<SExpr>::empty()
        };
        match self.get_mode() {
            TraceMode::Line => {
                let commit: Vec<Expression> = if n == 1 {
                    commit_exprs(self)
                } else {
                    Vec::new()
                };
                proof {
                    assert(commit@.map_values(|e: Expression| e@) =~= ret_commit);
                }
                let rb = line_ret_block(top, depth, commit);
                proof {
                    assert(rb@.exprs =~= s_line_ret_block(top@, depth as int, ret_commit).exprs);
                    assert(rb@ == s_line_ret_block(top@, depth as int, ret_commit));
                }
                program.add(rb);
                add_callsite_blocks(&mut program, top, depth);
                let lines = lines_vec(top);
                program.add(line_interval_block(&lines));
                proof {
                    assert(program@ =~= base + s_mode_blocks(st, commit_s));
                    assert(s_blocks(st) =~= base + s_mode_blocks(st, commit_s));
                }
            },
            TraceMode::Histogram => {
                let commit: Vec<Expression> = if n == 1 {
                    commit_exprs(self)
                } else {
                    Vec::new()
                };
                proof {
                    assert(commit@.map_values(|e: Expression| e@) =~= ret_commit);
                }
                let rb = histogram_ret_block(top, depth, commit);
                proof {
                    assert(rb@.exprs =~= s_histogram_ret_block(top@, depth as int, ret_commit).exprs);
                    assert(rb@ == s_histogram_ret_block(top@, depth as int, ret_commit));
                }
                program.add(rb);
                program.add(histogram_interval_block());
                proof {
                    assert(program@ =~= base + s_mode_blocks(st, commit_s));
                    assert(s_blocks(st) =~= base + s_mode_blocks(st, commit_s));
                }
            },
            TraceMode::Breakdown => {
                let commit: Vec<Expression> = if n == 1 {
                    commit_exprs(self)
                } else {
                    Vec::new()
                };
                proof {
                    assert(commit@.map_values(|e: Expression| e@) =~= ret_commit);
                }
                let rb = breakdown_ret_block(top, depth, commit);
                proof {
                    assert(rb@.exprs =~= s_breakdown_ret_block(top@, depth as int, ret_commit).exprs);
                    assert(rb@ == s_breakdown_ret_block(top@, depth as int, ret_commit));
                }
                program.add(rb);
                add_breakdown_blocks(&mut program, self, depth);
                program.add(breakdown_interval_block(self.breakdown_len()));
                proof {
                    assert(program@ =~= base + s_mode_blocks(st, commit_s));
                    assert(s_blocks(st) =~= base + s_mode_blocks(st, commit_s));
                }
            },
        }
        proof {
            assert(program@ == s_blocks(st));
        }
        let text = program.compile(self.path_str());
        (text, self.counter_value())
    }
}

} // verus!
