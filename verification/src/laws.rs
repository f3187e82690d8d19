//! Properties that relate several operations of the library, each proved
//! over the same models that the operations' own contracts use.
use vstd::prelude::*;

use crate::compiler::SExpr;
use crate::synthesis::{
    s_bpftrace_expr, s_blocks, s_commit_exprs, s_mid_blocks, s_mode_blocks, s_top_entry_block,
    s_user_filter,
};
use crate::trace_structs::{
    s_frame_with_filter, s_lines_sorted, s_traced_contains, s_traced_insert, s_traced_lines,
    s_traced_remove, SCallInstruction, SFrame, STraceStack, TraceMode,
};

verus! {

/// Program synthesis is a pure function of the program path and the stack
/// snapshot: two snapshots agreeing on frames, mode and breakdown functions
/// synthesize the same text, whatever their counters.
pub proof fn lemma_synthesis_pure(path: Seq<char>, st1: STraceStack, st2: STraceStack)
    requires
        st1.frames == st2.frames,
        st1.mode == st2.mode,
        st1.breakdown == st2.breakdown,
    ensures
        s_bpftrace_expr(path, st1) == s_bpftrace_expr(path, st2),
{
    assert(s_commit_exprs(st1) == s_commit_exprs(st2));
    assert(s_mode_blocks(st1, s_commit_exprs(st1)) == s_mode_blocks(st2, s_commit_exprs(st2)));
    assert(s_blocks(st1) == s_blocks(st2));
}

/// Clearing a filter undoes a provisional install: a state whose top frame
/// had no filter synthesizes the same program after a filter was installed
/// and then cleared, whatever happened to the counter in between.
pub proof fn lemma_clear_filter_restores_synthesis(
    path: Seq<char>,
    st: STraceStack,
    f: Seq<char>,
    is_ret_filter: bool,
)
    requires
        st.frames.len() >= 1,
        (if is_ret_filter {
            st.frames.last().ret_filter
        } else {
            st.frames.last().filter
        }) is None,
    ensures
        ({
            let installed = STraceStack {
                frames: st.frames.update(
                    st.frames.len() - 1,
                    s_frame_with_filter(st.frames.last(), Some(f), is_ret_filter),
                ),
                ..st
            };
            let cleared = STraceStack {
                frames: installed.frames.update(
                    installed.frames.len() - 1,
                    s_frame_with_filter(installed.frames.last(), None, is_ret_filter),
                ),
                ..installed
            };
            s_bpftrace_expr(path, cleared) == s_bpftrace_expr(path, st)
        }),
{
    let installed = STraceStack {
        frames: st.frames.update(
            st.frames.len() - 1,
            s_frame_with_filter(st.frames.last(), Some(f), is_ret_filter),
        ),
        ..st
    };
    let cleared = STraceStack {
        frames: installed.frames.update(
            installed.frames.len() - 1,
            s_frame_with_filter(installed.frames.last(), None, is_ret_filter),
        ),
        ..installed
    };
    assert(installed.frames.last() == s_frame_with_filter(st.frames.last(), Some(f), is_ret_filter));
    assert(s_frame_with_filter(installed.frames.last(), None, is_ret_filter) == st.frames.last());
    assert(cleared.frames =~= st.frames);
    lemma_synthesis_pure(path, cleared, st);
}

/// A frame without an entry filter gets an unguarded entry block: every
/// statement stands bare, none is wrapped in a filter conditional.
pub proof fn lemma_no_entry_filter_no_guard(frame: SFrame, depth: int)
    requires
        frame.filter is None,
    ensures
        forall|k: int|
            0 <= k < s_top_entry_block(frame, depth).exprs.len() ==> (
            #[trigger] s_top_entry_block(frame, depth).exprs[k]) is Raw,
{
    let es = s_top_entry_block(frame, depth).exprs;
    assert forall|k: int| 0 <= k < es.len() implies (#[trigger] es[k]) is Raw by {
        assert(es == s_user_filter(
            None,
            false,
            seq![
                "@start"@ + crate::strutil::spec_dec(frame.source_line as nat) + "[tid] = nsecs"@,
                "@depth[tid] = "@ + crate::strutil::spec_dec((depth + 1) as nat),
            ],
        ));
    }
}

/// Removing a line that an insert just added gives back the original traced
/// list, provided the line was not traced before.
pub proof fn lemma_traced_insert_remove(
    tr: Seq<(u32, SCallInstruction)>,
    line: u32,
    ci: SCallInstruction,
)
    requires
        s_lines_sorted(s_traced_lines(tr)),
        !s_traced_contains(tr, line),
    ensures
        s_traced_remove(s_traced_insert(tr, line, ci), line) == tr,
    decreases tr.len(),
{
    let lines = s_traced_lines(tr);
    assert(forall|k: int| 0 <= k < tr.len() ==> lines[k] == (#[trigger] tr[k]).0);
    if tr.len() == 0 {
        assert(s_traced_remove(s_traced_insert(tr, line, ci), line) =~= tr);
    } else if tr[0].0 < line {
        let rest = tr.drop_first();
        assert(s_lines_sorted(s_traced_lines(rest))) by {
            let rl = s_traced_lines(rest);
            assert(forall|k: int| 0 <= k < rest.len() ==> rl[k] == (#[trigger] rest[k]).0);
            assert(forall|k: int| 0 <= k < rest.len() ==> rest[k] == tr[k + 1]);
            assert forall|a: int, b: int| 0 <= a < b < rl.len() implies rl[a] < rl[b] by {
                assert(lines[a + 1] < lines[b + 1]);
            }
        }
        assert(!s_traced_contains(rest, line)) by {
            if s_traced_contains(rest, line) {
                let k = choose|k: int| 0 <= k < rest.len() && (#[trigger] rest[k]).0 == line;
                assert(tr[k + 1].0 == line);
            }
        }
        lemma_traced_insert_remove(rest, line, ci);
        assert(s_traced_insert(tr, line, ci) == seq![tr[0]] + s_traced_insert(rest, line, ci));
        let ins = s_traced_insert(rest, line, ci);
        assert((seq![tr[0]] + ins)[0] == tr[0]);
        assert(tr[0].0 != line);
        assert((seq![tr[0]] + ins).drop_first() =~= ins);
        assert(s_traced_remove(seq![tr[0]] + ins, line) == seq![tr[0]] + s_traced_remove(
            ins,
            line,
        ));
        assert(seq![tr[0]] + rest =~= tr);
    } else {
        assert(tr[0].0 != line);
        assert(tr[0].0 > line);
        assert(s_traced_insert(tr, line, ci) == seq![(line, ci)] + tr);
        assert((seq![(line, ci)] + tr)[0].0 == line);
        assert((seq![(line, ci)] + tr).drop_first() =~= tr);
    }
}

/// Designating a call site and then removing it leaves the state where it
/// began, except that the counter has grown by exactly one: the removal
/// bumps it, the designation does not. The synthesized program is the
/// starting state's again.
pub proof fn lemma_add_remove_callsite(
    path: Seq<char>,
    st: STraceStack,
    line: u32,
    ci: SCallInstruction,
)
    requires
        st.wf(),
        st.counter < u64::MAX,
        !s_traced_contains(st.frames.last().traced, line),
    ensures
        ({
            // The state `add_callsite` leaves: the call site is traced, the
            // counter untouched.
            let after_add = STraceStack {
                frames: st.frames.update(
                    st.frames.len() - 1,
                    SFrame {
                        traced: s_traced_insert(st.frames.last().traced, line, ci),
                        ..st.frames.last()
                    },
                ),
                ..st
            };
            // The state `remove_callsite` then leaves: the call site is gone
            // again, the counter bumped once.
            let after_remove = STraceStack {
                counter: (after_add.counter + 1) as u64,
                frames: after_add.frames.update(
                    after_add.frames.len() - 1,
                    SFrame {
                        traced: s_traced_remove(after_add.frames.last().traced, line),
                        ..after_add.frames.last()
                    },
                ),
                ..after_add
            };
            after_remove.frames == st.frames && after_remove.counter == st.counter + 1
                && s_bpftrace_expr(path, after_remove) == s_bpftrace_expr(path, st)
        }),
{
    let top = st.frames.last();
    let after_add = STraceStack {
        frames: st.frames.update(
            st.frames.len() - 1,
            SFrame { traced: s_traced_insert(top.traced, line, ci), ..top },
        ),
        ..st
    };
    let after_remove = STraceStack {
        counter: (after_add.counter + 1) as u64,
        frames: after_add.frames.update(
            after_add.frames.len() - 1,
            SFrame {
                traced: s_traced_remove(after_add.frames.last().traced, line),
                ..after_add.frames.last()
            },
        ),
        ..after_add
    };
    assert(top.wf());
    lemma_traced_insert_remove(top.traced, line, ci);
    assert(after_add.frames.last() == SFrame {
        traced: s_traced_insert(top.traced, line, ci),
        ..top
    });
    assert(SFrame {
        traced: s_traced_remove(after_add.frames.last().traced, line),
        ..after_add.frames.last()
    } == top);
    assert(after_remove.frames =~= st.frames);
    lemma_synthesis_pure(path, after_remove, st);
}

/// Every traced call site of a well-formed frame is one the frame knows:
/// it stands in the line map under its own line, or among the unattached
/// call sites, or is a manually specified one.
pub proof fn lemma_traced_callsites_known(f: SFrame, k: int)
    requires
        f.wf(),
        0 <= k < f.traced.len(),
    ensures
        crate::trace_structs::s_known_callsite(f, f.traced[k].0, f.traced[k].1),
{
}

/// Every entry of a well-formed program's PLT map lies inside one of its
/// PLT address ranges.
pub proof fn lemma_plt_entries_in_ranges(p: crate::program::SProgram, k: int)
    requires
        p.wf(),
        0 <= k < p.plt_map.len(),
    ensures
        crate::program::s_in_plt(p.plt_ranges, p.plt_map[k].0),
{
}

} // verus!
