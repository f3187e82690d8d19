//! Decisions the UI layer delegates to the library: key-chord state,
//! classifying disassembled calls against the binary model, and building a
//! frame from a function's located call sites.
use vstd::prelude::*;

use crate::program::{s_addr_lookup, s_in_plt, s_plt_lookup, FunctionName, Program};
use crate::trace_structs::{
    s_lines_sorted, CallInstruction, FrameInfo, LineCallsites, SCallInstruction, SFrame,
    SInstructionType,
};

verus! {

/// How long the advanced-mode chord stays armed, in milliseconds.
pub const ADVANCED_MODE_DURATION_MS: u64 = 1000;

/// Two callbacks can hang on one key: the normal one, and an advanced one
/// reached by pressing the chord key first and the key within one second.
pub struct KeyHandler {
    advanced_mode_enable_time: Option<u64>,
}

impl KeyHandler {
    /// The instant the chord was last pressed, in milliseconds, if it is
    /// still armed.
    pub closed spec fn view(&self) -> Option<u64> {
        self.advanced_mode_enable_time
    }

    /// A handler with the chord unarmed.
    pub fn new() -> (r: KeyHandler)
        ensures
            r@ is None,
    {
        KeyHandler { advanced_mode_enable_time: None }
    }

    /// Arm the chord at the given instant.
    pub fn advanced_mode_key_pressed(&mut self, now_ms: u64)
        ensures
            final(self)@ == Some(now_ms),
    {
        self.advanced_mode_enable_time = Some(now_ms);
    }

    /// Whether a key pressed now takes its advanced meaning: the chord was
    /// pressed less than a second ago.
    pub fn is_advanced_mode(&self, now_ms: u64) -> (r: bool)
        requires
            self@ matches Some(t) ==> t <= now_ms,
        ensures
            r == (match self@ {
                Some(t) => now_ms - t < ADVANCED_MODE_DURATION_MS,
                None => false,
            }),
    {
        match self.advanced_mode_enable_time {
            Some(t) => now_ms - t < ADVANCED_MODE_DURATION_MS,
            None => false,
        }
    }

    /// Disarm the chord; a normal key was handled.
    pub fn clear_advanced_mode(&mut self)
        ensures
            final(self)@ is None,
    {
        self.advanced_mode_enable_time = None;
    }
}

/// Operand of a disassembled call, reduced to plain values.
pub enum RawOperand {
    /// Direct call with a computed absolute target
    Direct { target: u64 },
    /// Call through memory at base register plus displacement
    MemBase { register: String, displacement: i64 },
    /// Call through a register
    Reg { register: String },
}

impl View for RawOperand {
    type V = SRawOperand;

    open spec fn view(&self) -> SRawOperand {
        match self {
            RawOperand::Direct { target } => SRawOperand::Direct(*target),
            RawOperand::MemBase { register, displacement } => SRawOperand::MemBase(
                register@,
                *displacement,
            ),
            RawOperand::Reg { register } => SRawOperand::Reg(register@),
        }
    }
}

/// Ghost mirror of `RawOperand`.
pub enum SRawOperand {
    Direct(u64),
    MemBase(Seq<char>, i64),
    Reg(Seq<char>),
}

/// How a call with this operand classifies against the program model: a
/// known PLT target is a dynamic symbol, a known static target a function,
/// an unknown direct target stays unknown, and register forms keep their
/// register.
pub open spec fn s_classify(
    p: crate::program::SProgram,
    relative_ip: u32,
    length: u32,
    op: SRawOperand,
) -> SCallInstruction {
    SCallInstruction {
        relative_ip,
        length,
        instruction: match op {
            SRawOperand::Direct(target) => {
                let looked = if s_in_plt(p.plt_ranges, target) {
                    s_plt_lookup(p.plt_map, target)
                } else {
                    s_addr_lookup(p.symbols, target)
                };
                match looked {
                    Some(f) => if s_in_plt(p.plt_ranges, target) {
                        SInstructionType::DynamicSymbol(f)
                    } else {
                        SInstructionType::Function(f)
                    },
                    None => SInstructionType::Unknown,
                }
            },
            SRawOperand::MemBase(reg, disp) => SInstructionType::Register(reg, Some(disp)),
            SRawOperand::Reg(reg) => SInstructionType::Register(reg, None),
        },
    }
}

/// Classify one disassembled call instruction: resolve a direct target
/// through the program model, keep register calls as register call sites,
/// and mark unresolvable direct targets as unknown.
pub fn classify_call(program: &Program, relative_ip: u32, length: u8, operand: RawOperand) -> (r:
    CallInstruction)
    ensures
        r@ == s_classify(program@, relative_ip, length as u32, operand@),
{
    match operand {
        RawOperand::Direct { target } => {
            match program.get_function_for_address(target) {
                Some(function) => {
                    if program.is_dynamic_symbol_address(target) {
                        CallInstruction::dynamic_symbol(relative_ip, length, function)
                    } else {
                        CallInstruction::function(relative_ip, length, function)
                    }
                },
                None => CallInstruction::unknown(relative_ip, length),
            }
        },
        RawOperand::MemBase { register, displacement } => CallInstruction::register(
            relative_ip,
            length,
            register,
            Some(displacement),
        ),
        RawOperand::Reg { register } => CallInstruction::register(
            relative_ip,
            length,
            register,
            None,
        ),
    }
}

/// One classified call together with where its source stands.
pub struct LocatedCall {
    pub call: CallInstruction,
    pub file: String,
    pub line: u32,
}

impl View for LocatedCall {
    type V = (SCallInstruction, Seq<char>, u32);

    open spec fn view(&self) -> (SCallInstruction, Seq<char>, u32) {
        (self.call@, self.file@, self.line)
    }
}

/// The per-line map with one call site added under its line, keeping the
/// lines in increasing order and the arrival order within a line.
pub open spec fn s_line_insert(
    m: Seq<(u32, Seq<SCallInstruction>)>,
    line: u32,
    ci: SCallInstruction,
) -> Seq<(u32, Seq<SCallInstruction>)>
    decreases m.len(),
{
    if m.len() == 0 {
        seq![(line, seq![ci])]
    } else if m[0].0 < line {
        seq![m[0]] + s_line_insert(m.drop_first(), line, ci)
    } else if m[0].0 == line {
        seq![(m[0].0, m[0].1.push(ci))] + m.drop_first()
    } else {
        seq![(line, seq![ci])] + m
    }
}

/// The per-line map of the calls whose file is the frame's own source file.
pub open spec fn s_route_map(
    calls: Seq<(SCallInstruction, Seq<char>, u32)>,
    source_file: Seq<char>,
) -> Seq<(u32, Seq<SCallInstruction>)>
    decreases calls.len(),
{
    if calls.len() == 0 {
        Seq::empty()
    } else {
        let prev = s_route_map(calls.drop_last(), source_file);
        let last = calls.last();
        if last.1 == source_file {
            s_line_insert(prev, last.2, last.0)
        } else {
            prev
        }
    }
}

/// The calls whose file differs from the frame's source file: inlined call
/// sites that cannot be attached to a visible line.
pub open spec fn s_route_unattached(
    calls: Seq<(SCallInstruction, Seq<char>, u32)>,
    source_file: Seq<char>,
) -> Seq<SCallInstruction>
    decreases calls.len(),
{
    if calls.len() == 0 {
        Seq::empty()
    } else {
        let prev = s_route_unattached(calls.drop_last(), source_file);
        let last = calls.last();
        if last.1 == source_file {
            prev
        } else {
            prev.push(last.0)
        }
    }
}

/// Where the first `idx` lines are below `line` and line `idx` (if any) is
/// not, inserting splits the map there.
proof fn lemma_line_insert_split(
    m: Seq<(u32, Seq<SCallInstruction>)>,
    line: u32,
    ci: SCallInstruction,
    idx: int,
)
    requires
        0 <= idx <= m.len(),
        forall|j: int| 0 <= j < idx ==> (#[trigger] m[j]).0 < line,
        idx < m.len() ==> m[idx].0 >= line,
    ensures
        s_line_insert(m, line, ci) == if idx < m.len() && m[idx].0 == line {
            m.take(idx) + seq![(line, m[idx].1.push(ci))] + m.skip(idx + 1)
        } else {
            m.take(idx) + seq![(line, seq![ci])] + m.skip(idx)
        },
    decreases idx,
{
    if idx == 0 {
        if m.len() == 0 {
            assert(s_line_insert(m, line, ci) =~= m.take(0) + seq![(line, seq![ci])] + m.skip(0));
        } else if m[0].0 == line {
            assert(s_line_insert(m, line, ci) =~= m.take(0) + seq![(line, m[0].1.push(ci))]
                + m.skip(1));
        } else {
            assert(m[0].0 > line);
            assert(s_line_insert(m, line, ci) =~= m.take(0) + seq![(line, seq![ci])] + m.skip(0));
        }
    } else {
        assert(m[0].0 < line);
        let rest = m.drop_first();
        assert(forall|j: int| 0 <= j < idx - 1 ==> (#[trigger] rest[j]).0 < line);
        lemma_line_insert_split(rest, line, ci, idx - 1);
        if idx < m.len() && m[idx].0 == line {
            assert(seq![m[0]] + (rest.take(idx - 1) + seq![(line, rest[idx - 1].1.push(ci))]
                + rest.skip(idx)) =~= m.take(idx) + seq![(line, m[idx].1.push(ci))] + m.skip(
                idx + 1,
            ));
        } else {
            assert(seq![m[0]] + (rest.take(idx - 1) + seq![(line, seq![ci])] + rest.skip(idx - 1))
                =~= m.take(idx) + seq![(line, seq![ci])] + m.skip(idx));
        }
    }
}

/// Inserting a call site keeps the line keys strictly sorted.
proof fn lemma_line_insert_sorted(
    m: Seq<(u32, Seq<SCallInstruction>)>,
    line: u32,
    ci: SCallInstruction,
)
    requires
        s_lines_sorted(m.map_values(|e: (u32, Seq<SCallInstruction>)| e.0)),
    ensures
        s_lines_sorted(
            s_line_insert(m, line, ci).map_values(|e: (u32, Seq<SCallInstruction>)| e.0),
        ),
    decreases m.len(),
{
    let keys = m.map_values(|e: (u32, Seq<SCallInstruction>)| e.0);
    let m2 = s_line_insert(m, line, ci);
    let keys2 = m2.map_values(|e: (u32, Seq<SCallInstruction>)| e.0);
    assert(forall|k: int| 0 <= k < m.len() ==> keys[k] == (#[trigger] m[k]).0);
    assert(forall|k: int| 0 <= k < m2.len() ==> keys2[k] == (#[trigger] m2[k]).0);
    if m.len() == 0 {
        assert forall|a: int, b: int| 0 <= a < b < keys2.len() implies keys2[a] < keys2[b] by {}
    } else if m[0].0 < line {
        let rest = m.drop_first();
        let restkeys = rest.map_values(|e: (u32, Seq<SCallInstruction>)| e.0);
        assert(forall|k: int| 0 <= k < rest.len() ==> restkeys[k] == (#[trigger] rest[k]).0);
        assert(forall|k: int| 0 <= k < rest.len() ==> rest[k] == m[k + 1]);
        assert(s_lines_sorted(restkeys));
        lemma_line_insert_sorted(rest, line, ci);
        let ins = s_line_insert(rest, line, ci);
        let inskeys = ins.map_values(|e: (u32, Seq<SCallInstruction>)| e.0);
        assert(forall|k: int| 0 <= k < ins.len() ==> inskeys[k] == (#[trigger] ins[k]).0);
        // Every key of the inserted tail is either `line` or a key of the
        // tail, so it stays above the head key.
        lemma_line_insert_keys(rest, line, ci);
        assert forall|a: int, b: int| 0 <= a < b < keys2.len() implies keys2[a] < keys2[b] by {
            assert(m2 =~= seq![m[0]] + ins);
            if a == 0 {
                assert(keys2[b] == ins[b - 1].0);
                assert(ins[b - 1].0 == line || restkeys.contains(ins[b - 1].0));
                if restkeys.contains(ins[b - 1].0) {
                    let t = choose|t: int|
                        0 <= t < restkeys.len() && restkeys[t] == ins[b - 1].0;
                    assert(keys[t + 1] == restkeys[t]);
                    assert(keys[0] < keys[t + 1]);
                }
            } else {
                assert(keys2[a] == inskeys[a - 1] && keys2[b] == inskeys[b - 1]);
            }
        }
    } else if m[0].0 == line {
        assert forall|a: int, b: int| 0 <= a < b < keys2.len() implies keys2[a] < keys2[b] by {
            assert(m2 =~= seq![(m[0].0, m[0].1.push(ci))] + m.drop_first());
            assert(forall|k: int| 0 <= k < m2.len() ==> keys2[k] == (#[trigger] m2[k]).0);
            if a == 0 {
                assert(m2[b] == m[b]);
                assert(keys[0] < keys[b]);
            } else {
                assert(m2[a] == m[a] && m2[b] == m[b]);
                assert(keys[a] < keys[b]);
            }
        }
    } else {
        assert forall|a: int, b: int| 0 <= a < b < keys2.len() implies keys2[a] < keys2[b] by {
            assert(m2 =~= seq![(line, seq![ci])] + m);
            if a == 0 {
                assert(m2[b] == m[b - 1]);
                assert(m[0].0 > line);
                if b > 1 {
                    assert(keys[0] < keys[b - 1]);
                }
            } else {
                assert(m2[a] == m[a - 1] && m2[b] == m[b - 1]);
                assert(keys[a - 1] < keys[b - 1]);
            }
        }
    }
}

/// Every key after an insert is the inserted line or one of the old keys.
proof fn lemma_line_insert_keys(
    m: Seq<(u32, Seq<SCallInstruction>)>,
    line: u32,
    ci: SCallInstruction,
)
    ensures
        forall|k: int|
            0 <= k < s_line_insert(m, line, ci).len() ==> (#[trigger] s_line_insert(m, line, ci)[k]).0
                == line || m.map_values(|e: (u32, Seq<SCallInstruction>)| e.0).contains(
                s_line_insert(m, line, ci)[k].0,
            ),
    decreases m.len(),
{
    let keys = m.map_values(|e: (u32, Seq<SCallInstruction>)| e.0);
    assert(forall|k: int| 0 <= k < m.len() ==> keys[k] == (#[trigger] m[k]).0);
    let ins = s_line_insert(m, line, ci);
    if m.len() == 0 {
    } else if m[0].0 < line {
        let rest = m.drop_first();
        lemma_line_insert_keys(rest, line, ci);
        let restkeys = rest.map_values(|e: (u32, Seq<SCallInstruction>)| e.0);
        let insrest = s_line_insert(rest, line, ci);
        assert forall|k: int| 0 <= k < ins.len() implies (#[trigger] ins[k]).0 == line
            || keys.contains(ins[k].0) by {
            assert(ins =~= seq![m[0]] + insrest);
            if k == 0 {
                assert(keys[0] == m[0].0);
            } else {
                assert(ins[k] == insrest[k - 1]);
                if restkeys.contains(insrest[k - 1].0) {
                    let t = choose|t: int|
                        0 <= t < restkeys.len() && restkeys[t] == insrest[k - 1].0;
                    assert(keys[t + 1] == restkeys[t]);
                }
            }
        }
    } else if m[0].0 == line {
        assert forall|k: int| 0 <= k < ins.len() implies (#[trigger] ins[k]).0 == line
            || keys.contains(ins[k].0) by {
            assert(ins =~= seq![(m[0].0, m[0].1.push(ci))] + m.drop_first());
            if k > 0 {
                assert(ins[k] == m[k]);
                assert(keys[k] == m[k].0);
            }
        }
    } else {
        assert forall|k: int| 0 <= k < ins.len() implies (#[trigger] ins[k]).0 == line
            || keys.contains(ins[k].0) by {
            assert(ins =~= seq![(line, seq![ci])] + m);
            if k > 0 {
                assert(ins[k] == m[k - 1]);
                assert(keys[k - 1] == m[k - 1].0);
            }
        }
    }
}

/// Build the frame for a newly entered function from its classified call
/// sites: a call whose debug-info file equals the function's own source
/// file is attached to its line; one from another file (an inlined call) is
/// kept apart, since it has no line in the displayed source.
pub fn create_frame_info(
    function: FunctionName,
    source_file: String,
    source_line: u32,
    calls: Vec<LocatedCall>,
) -> (r: FrameInfo)
    ensures
        r@ == (SFrame {
            function: function@,
            source_file: source_file@,
            source_line,
            line_to_callsites: s_route_map(
                calls@.map_values(|c: LocatedCall| c@),
                source_file@,
            ),
            unattached: s_route_unattached(
                calls@.map_values(|c: LocatedCall| c@),
                source_file@,
            ),
            traced: Seq::<(u32, SCallInstruction)>::empty(),
            filter: None,
            ret_filter: None,
        }),
        r@.wf(),
{
    let ghost cv = calls@.map_values(|c: LocatedCall| c@);
    let mut line_to_callsites: Vec<LineCallsites> = Vec::new();
    let mut unattached: Vec<CallInstruction> = Vec::new();
    let mut i: usize = 0;
    proof {
        assert(cv.take(0) =~= Seq::<(SCallInstruction, Seq<char>, u32)>::empty());
        assert(line_to_callsites@.map_values(|e: LineCallsites| e@) =~= s_route_map(
            cv.take(0),
            source_file@,
        ));
        assert(unattached@.map_values(|c: CallInstruction| c@) =~= s_route_unattached(
            cv.take(0),
            source_file@,
        ));
    }
    while i < calls.len()
        invariant
            cv == calls@.map_values(|c: LocatedCall| c@),
            cv.len() == calls@.len(),
            i <= cv.len(),
            line_to_callsites@.map_values(|e: LineCallsites| e@) == s_route_map(
                cv.take(i as int),
                source_file@,
            ),
            unattached@.map_values(|c: CallInstruction| c@) == s_route_unattached(
                cv.take(i as int),
                source_file@,
            ),
            s_lines_sorted(
                line_to_callsites@.map_values(|e: LineCallsites| e@).map_values(
                    |e: (u32, Seq<SCallInstruction>)| e.0,
                ),
            ),
        decreases cv.len() - i,
    {
        let c = &calls[i];
        proof {
            assert(cv.take(i + 1).drop_last() =~= cv.take(i as int));
            assert(cv.take(i + 1).last() == cv[i as int]);
            assert(cv[i as int] == calls@[i as int]@);
        }
        if crate::strutil::str_eq(c.file.as_str(), source_file.as_str()) {
            insert_line_callsite(&mut line_to_callsites, c.line, c.call.clone());
        } else {
            let ghost u0 = unattached@.map_values(|c: CallInstruction| c@);
            unattached.push(c.call.clone());
            proof {
                assert(unattached@.map_values(|c: CallInstruction| c@) =~= u0.push(
                    cv[i as int].0,
                ));
            }
        }
        i = i + 1;
    }
    proof {
        assert(cv.take(cv.len() as int) =~= cv);
    }
    FrameInfo::new(function, source_file, source_line, line_to_callsites, unattached)
}

/// Insert one call site into the sorted per-line map.
fn insert_line_callsite(m: &mut Vec<LineCallsites>, line: u32, ci: CallInstruction)
    requires
        s_lines_sorted(
            old(m)@.map_values(|e: LineCallsites| e@).map_values(
                |e: (u32, Seq<SCallInstruction>)| e.0,
            ),
        ),
    ensures
        final(m)@.map_values(|e: LineCallsites| e@) == s_line_insert(
            old(m)@.map_values(|e: LineCallsites| e@),
            line,
            ci@,
        ),
        s_lines_sorted(
            final(m)@.map_values(|e: LineCallsites| e@).map_values(
                |e: (u32, Seq<SCallInstruction>)| e.0,
            ),
        ),
{
    let ghost mv = m@.map_values(|e: LineCallsites| e@);
    let mut idx: usize = 0;
    while idx < m.len() && m[idx].line < line
        invariant
            mv == old(m)@.map_values(|e: LineCallsites| e@),
            m@ == old(m)@,
            mv.len() == m@.len(),
            idx <= mv.len(),
            forall|j: int| 0 <= j < idx ==> (#[trigger] mv[j]).0 < line,
        decreases mv.len() - idx,
    {
        proof {
            assert(mv[idx as int] == m@[idx as int]@);
        }
        idx = idx + 1;
    }
    proof {
        if idx < mv.len() {
            assert(mv[idx as int] == m@[idx as int]@);
        }
        lemma_line_insert_split(mv, line, ci@, idx as int);
        lemma_line_insert_sorted(mv, line, ci@);
    }
    let found = idx < m.len() && m[idx].line == line;
    if found {
        let ghost m0 = m@;
        let mut entry = m.remove(idx);
        let ghost e0 = entry;
        entry.callsites.push(ci);
        proof {
            assert(e0 == m0[idx as int]);
            assert(entry.callsites@ == e0.callsites@.push(ci));
            assert(entry@.1 =~= mv[idx as int].1.push(ci@));
            assert(entry@.0 == line);
            assert(entry@ == (line, mv[idx as int].1.push(ci@)));
        }
        m.insert(idx, entry);
        proof {
            let cur = m@.map_values(|e: LineCallsites| e@);
            let want = mv.take(idx as int) + seq![(line, mv[idx as int].1.push(ci@))] + mv.skip(
                idx + 1,
            );
            assert(m@ =~= m0.remove(idx as int).insert(idx as int, entry));
            assert(cur.len() == want.len());
            assert forall|k: int| 0 <= k < cur.len() implies cur[k] == want[k] by {
                assert(cur[k] == m@[k]@);
                if k < idx {
                    assert(m@[k] == m0[k]);
                } else if k == idx {
                    assert(m@[k] == entry);
                } else {
                    assert(m@[k] == m0[k]);
                }
            }
            assert(cur =~= want);
        }
    } else {
        let ghost m0 = m@;
        let mut callsites: Vec<CallInstruction> = Vec::new();
        callsites.push(ci);
        let entry = LineCallsites { line, callsites };
        proof {
            assert(entry@.1 =~= seq![ci@]);
            assert(entry@ == (line, seq![ci@]));
        }
        m.insert(idx, entry);
        proof {
            let cur = m@.map_values(|e: LineCallsites| e@);
            let want = mv.take(idx as int) + seq![(line, seq![ci@])] + mv.skip(idx as int);
            assert(m@ =~= m0.insert(idx as int, entry));
            assert(cur.len() == want.len());
            assert forall|k: int| 0 <= k < cur.len() implies cur[k] == want[k] by {
                assert(cur[k] == m@[k]@);
                if k < idx {
                    assert(m@[k] == m0[k]);
                } else if k == idx {
                    assert(m@[k] == entry);
                } else {
                    assert(m@[k] == m0[k - 1]);
                }
            }
            assert(cur =~= want);
        }
    }
}

/// The targets a user can descend into from a list of call sites: the
/// direct calls, whether static or through the PLT. Unknown, manual and
/// register call sites name no function to enter.
pub open spec fn s_direct_targets(cs: Seq<SCallInstruction>) -> Seq<Seq<char>>
    decreases cs.len(),
{
    if cs.len() == 0 {
        Seq::empty()
    } else {
        let prev = s_direct_targets(cs.drop_last());
        match cs.last().instruction {
            SInstructionType::Function(f) => prev.push(f),
            SInstructionType::DynamicSymbol(f) => prev.push(f),
            _ => prev,
        }
    }
}

/// The function names the user can descend into from these call sites.
pub fn descend_targets(callsites: &Vec<CallInstruction>) -> (r: Vec<FunctionName>)
    ensures
        r@.map_values(|f: FunctionName| f@) == s_direct_targets(
            callsites@.map_values(|c: CallInstruction| c@),
        ),
{
    let ghost cs = callsites@.map_values(|c: CallInstruction| c@);
    let mut r: Vec<FunctionName> = Vec::new();
    let mut i: usize = 0;
    proof {
        assert(cs.take(0) =~= Seq::<SCallInstruction>::empty());
        assert(r@.map_values(|f: FunctionName| f@) =~= s_direct_targets(cs.take(0)));
    }
    while i < callsites.len()
        invariant
            cs == callsites@.map_values(|c: CallInstruction| c@),
            cs.len() == callsites@.len(),
            i <= cs.len(),
            r@.map_values(|f: FunctionName| f@) == s_direct_targets(cs.take(i as int)),
        decreases cs.len() - i,
    {
        let ghost r0 = r@.map_values(|f: FunctionName| f@);
        proof {
            assert(cs.take(i + 1).drop_last() =~= cs.take(i as int));
            assert(cs.take(i + 1).last() == cs[i as int]);
            assert(cs[i as int] == callsites@[i as int]@);
        }
        match callsites[i].get_instruction() {
            crate::trace_structs::InstructionType::Function(f) => {
                r.push(f.clone());
                proof {
                    assert(r@.map_values(|f: FunctionName| f@) =~= r0.push(cs[i as int].instruction->Function_0));
                }
            },
            crate::trace_structs::InstructionType::DynamicSymbol(f) => {
                r.push(f.clone());
                proof {
                    assert(r@.map_values(|f: FunctionName| f@) =~= r0.push(cs[i as int].instruction->DynamicSymbol_0));
                }
            },
            _ => {},
        }
        i = i + 1;
    }
    proof {
        assert(cs.take(cs.len() as int) =~= cs);
    }
    r
}

} // verus!
