//! The stack of functions being traced: call instructions, frames, filters,
//! mode and the generation counter.
use vstd::prelude::*;

use crate::program::FunctionName;

verus! {

/// Ghost mirror of `InstructionType`.
pub enum SInstructionType {
    DynamicSymbol(Seq<char>),
    Function(Seq<char>),
    Register(Seq<char>, Option<i64>),
    Manual,
    Unknown,
}

/// Ghost mirror of `CallInstruction`.
pub struct SCallInstruction {
    pub relative_ip: u32,
    pub length: u32,
    pub instruction: SInstructionType,
}

/// What a call instruction calls.
pub enum InstructionType {
    /// Dynamically linked function, reached through the PLT
    DynamicSymbol(FunctionName),
    /// Statically linked function called directly
    Function(FunctionName),
    /// Register being called, with an optional memory displacement
    Register(String, Option<i64>),
    /// Manually specified start/end offset for tracing
    Manual,
    /// Direct call whose target is in no symbol table
    Unknown,
}

/// One call site inside a function.
pub struct CallInstruction {
    /// IP of call instruction, relative to start of function
    relative_ip: u32,
    /// Size of instruction
    length: u32,
    pub instruction: InstructionType,
}

impl View for InstructionType {
    type V = SInstructionType;

    open spec fn view(&self) -> SInstructionType {
        match self {
            InstructionType::DynamicSymbol(f) => SInstructionType::DynamicSymbol(f@),
            InstructionType::Function(f) => SInstructionType::Function(f@),
            InstructionType::Register(r, d) => SInstructionType::Register(r@, *d),
            InstructionType::Manual => SInstructionType::Manual,
            InstructionType::Unknown => SInstructionType::Unknown,
        }
    }
}

impl View for CallInstruction {
    type V = SCallInstruction;

    closed spec fn view(&self) -> SCallInstruction {
        SCallInstruction {
            relative_ip: self.relative_ip,
            length: self.length,
            instruction: self.instruction@,
        }
    }
}

impl Clone for InstructionType {
    fn clone(&self) -> (r: Self)
        ensures
            r == *self,
    {
        match self {
            InstructionType::DynamicSymbol(f) => InstructionType::DynamicSymbol(f.clone()),
            InstructionType::Function(f) => InstructionType::Function(f.clone()),
            InstructionType::Register(reg, d) => InstructionType::Register(reg.clone(), *d),
            InstructionType::Manual => InstructionType::Manual,
            InstructionType::Unknown => InstructionType::Unknown,
        }
    }
}

impl Clone for CallInstruction {
    fn clone(&self) -> (r: Self)
        ensures
            r == *self,
    {
        CallInstruction {
            relative_ip: self.relative_ip,
            length: self.length,
            instruction: self.instruction.clone(),
        }
    }
}

impl CallInstruction {
    /// Offset of the call instruction from the function start.
    pub fn relative_ip(&self) -> (r: u32)
        ensures
            r == self@.relative_ip,
    {
        self.relative_ip
    }

    /// What this call site calls.
    pub fn get_instruction(&self) -> (r: &InstructionType)
        ensures
            r@ == self@.instruction,
    {
        &self.instruction
    }

    /// Size of the call instruction in bytes.
    pub fn length(&self) -> (r: u32)
        ensures
            r == self@.length,
    {
        self.length
    }

    /// A call through the PLT to a dynamically linked function.
    pub fn dynamic_symbol(relative_ip: u32, length: u8, function: FunctionName) -> (r:
        CallInstruction)
        ensures
            r@ == (SCallInstruction {
                relative_ip,
                length: length as u32,
                instruction: SInstructionType::DynamicSymbol(function@),
            }),
    {
        CallInstruction {
            relative_ip,
            length: length as u32,
            instruction: InstructionType::DynamicSymbol(function),
        }
    }

    /// A direct call to a statically linked function.
    pub fn function(relative_ip: u32, length: u8, function: FunctionName) -> (r: CallInstruction)
        ensures
            r@ == (SCallInstruction {
                relative_ip,
                length: length as u32,
                instruction: SInstructionType::Function(function@),
            }),
    {
        CallInstruction {
            relative_ip,
            length: length as u32,
            instruction: InstructionType::Function(function),
        }
    }

    /// An indirect call through a register, with an optional displacement.
    pub fn register(relative_ip: u32, length: u8, register: String, displacement: Option<i64>) -> (
        r: CallInstruction)
        ensures
            r@ == (SCallInstruction {
                relative_ip,
                length: length as u32,
                instruction: SInstructionType::Register(register@, displacement),
            }),
    {
        CallInstruction {
            relative_ip,
            length: length as u32,
            instruction: InstructionType::Register(register, displacement),
        }
    }

    /// A manually specified start offset and length.
    pub fn manual(relative_ip: u32, length: u32) -> (r: CallInstruction)
        ensures
            r@ == (SCallInstruction { relative_ip, length, instruction: SInstructionType::Manual }),
    {
        CallInstruction { relative_ip, length, instruction: InstructionType::Manual }
    }

    /// A direct call whose target is in no symbol table.
    pub fn unknown(relative_ip: u32, length: u8) -> (r: CallInstruction)
        ensures
            r@ == (SCallInstruction {
                relative_ip,
                length: length as u32,
                instruction: SInstructionType::Unknown,
            }),
    {
        CallInstruction { relative_ip, length: length as u32, instruction: InstructionType::Unknown }
    }

    /// Structural equality of two call instructions, at the level of views.
    pub fn same_as(&self, other: &CallInstruction) -> (r: bool)
        ensures
            r == (self@ == other@),
    {
        if self.relative_ip != other.relative_ip || self.length != other.length {
            return false;
        }
        match &self.instruction {
            InstructionType::DynamicSymbol(a) => match &other.instruction {
                InstructionType::DynamicSymbol(b) => a.0 == b.0,
                _ => false,
            },
            InstructionType::Function(a) => match &other.instruction {
                InstructionType::Function(b) => a.0 == b.0,
                _ => false,
            },
            InstructionType::Register(ra, da) => match &other.instruction {
                InstructionType::Register(rb, db) => *ra == *rb && match da {
                    Some(x) => match db {
                        Some(y) => *x == *y,
                        None => false,
                    },
                    None => db.is_none(),
                },
                _ => false,
            },
            InstructionType::Manual => match &other.instruction {
                InstructionType::Manual => true,
                _ => false,
            },
            InstructionType::Unknown => match &other.instruction {
                InstructionType::Unknown => true,
                _ => false,
            },
        }
    }
}

/// An element-wise copy of a list of call instructions.
pub fn clone_callsites(v: &Vec<CallInstruction>) -> (r: Vec<CallInstruction>)
    ensures
        r@ == v@,
{
    let r = v.clone();
    proof {
        assert forall|i: int| 0 <= i < v@.len() implies r@[i] == v@[i] by {
            assert(cloned::<CallInstruction>(v@[i], r@[i]));
        }
        assert(r@ =~= v@);
    }
    r
}

/// The call instructions found on one source line.
pub struct LineCallsites {
    pub line: u32,
    pub callsites: Vec<CallInstruction>,
}

impl View for LineCallsites {
    type V = (u32, Seq<SCallInstruction>);

    open spec fn view(&self) -> (u32, Seq<SCallInstruction>) {
        (self.line, self.callsites@.map_values(|c: CallInstruction| c@))
    }
}

/// One traced call site: the source line it is shown on, and the instruction.
pub struct TracedCallsite {
    pub line: u32,
    pub callsite: CallInstruction,
}

impl View for TracedCallsite {
    type V = (u32, SCallInstruction);

    open spec fn view(&self) -> (u32, SCallInstruction) {
        (self.line, self.callsite@)
    }
}

/// Tracing mode of the top frame.
#[derive(Clone, Copy, PartialEq, Eq, Structural)]
pub enum TraceMode {
    /// Trace latency per traced line in current view
    Line,
    /// Trace histogram of latency for the current function
    Histogram,
    /// Trace amount of time spent in each of the specified nested functions
    Breakdown,
}

/// Ghost mirror of `FrameInfo`.
pub struct SFrame {
    pub function: Seq<char>,
    pub source_file: Seq<char>,
    pub source_line: u32,
    pub line_to_callsites: Seq<(u32, Seq<SCallInstruction>)>,
    pub unattached: Seq<SCallInstruction>,
    pub traced: Seq<(u32, SCallInstruction)>,
    pub filter: Option<Seq<char>>,
    pub ret_filter: Option<Seq<char>>,
}

/// Line keys strictly increase.
pub open spec fn s_lines_sorted(lines: Seq<u32>) -> bool {
    forall|i: int, j: int| 0 <= i < j < lines.len() ==> lines[i] < lines[j]
}

/// The call site is one the frame knows on that line, or is unattached, or is
/// a manual one.
pub open spec fn s_known_callsite(f: SFrame, line: u32, ci: SCallInstruction) -> bool {
    ||| ci.instruction is Manual
    ||| exists|i: int|
        0 <= i < f.line_to_callsites.len() && f.line_to_callsites[i].0 == line
            && #[trigger] f.line_to_callsites[i].1.contains(ci)
    ||| f.unattached.contains(ci)
}

impl SFrame {
    /// Well-formed frame: sorted line keys, every traced call site known and
    /// with an end offset that fits in 32 bits.
    pub open spec fn wf(&self) -> bool {
        &&& s_lines_sorted(self.line_to_callsites.map_values(|e: (u32, Seq<SCallInstruction>)| e.0))
        &&& s_lines_sorted(self.traced.map_values(|e: (u32, SCallInstruction)| e.0))
        &&& forall|i: int|
            0 <= i < self.traced.len() ==> s_known_callsite(
                *self,
                #[trigger] self.traced[i].0,
                self.traced[i].1,
            )
        &&& forall|i: int|
            0 <= i < self.traced.len() ==> (#[trigger] self.traced[i].1.relative_ip as int)
                + self.traced[i].1.length as int <= u32::MAX as int
    }
}

/// One entry of the trace stack: a function whose body is being displayed,
/// the call sites found in it, and the user's filters.
pub struct FrameInfo {
    function: FunctionName,
    source_file: String,
    source_line: u32,
    /// Call instructions per source line, sorted by line (only lines of
    /// `source_file`)
    line_to_callsites: Vec<LineCallsites>,
    /// Call instructions from inlined calls whose source is another file
    unattached_callsites: Vec<CallInstruction>,
    /// Actively traced call sites, at most one per source line, sorted by line
    traced_callsites: Vec<TracedCallsite>,
    /// bpftrace filter to apply on function entry (uprobe)
    filter: Option<String>,
    /// bpftrace filter to apply on function exit (uretprobe); may reference
    /// the synthesized `$duration` variable
    ret_filter: Option<String>,
}

impl View for FrameInfo {
    type V = SFrame;

    closed spec fn view(&self) -> SFrame {
        SFrame {
            function: self.function@,
            source_file: self.source_file@,
            source_line: self.source_line,
            line_to_callsites: self.line_to_callsites@.map_values(|e: LineCallsites| e@),
            unattached: self.unattached_callsites@.map_values(|c: CallInstruction| c@),
            traced: self.traced_callsites@.map_values(|e: TracedCallsite| e@),
            filter: match self.filter {
                Some(f) => Some(f@),
                None => None,
            },
            ret_filter: match self.ret_filter {
                Some(f) => Some(f@),
                None => None,
            },
        }
    }
}

impl FrameInfo {
    /// Make a frame for a newly entered function. Nothing is traced yet and
    /// no filter is set.
    pub fn new(
        function: FunctionName,
        source_file: String,
        source_line: u32,
        line_to_callsites: Vec<LineCallsites>,
        unattached_callsites: Vec<CallInstruction>,
    ) -> (r: FrameInfo)
        requires
            s_lines_sorted(
                line_to_callsites@.map_values(|e: LineCallsites| e@).map_values(
                    |e: (u32, Seq<SCallInstruction>)| e.0,
                ),
            ),
        ensures
            r@ == (SFrame {
                function: function@,
                source_file: source_file@,
                source_line,
                line_to_callsites: line_to_callsites@.map_values(|e: LineCallsites| e@),
                unattached: unattached_callsites@.map_values(|c: CallInstruction| c@),
                traced: Seq::<(u32, SCallInstruction)>::empty(),
                filter: None,
                ret_filter: None,
            }),
            r@.wf(),
    {
        let r = FrameInfo {
            function,
            source_file,
            source_line,
            line_to_callsites,
            unattached_callsites,
            traced_callsites: Vec::new(),
            filter: None,
            ret_filter: None,
        };
        proof {
            assert(r@.traced =~= Seq::<(u32, SCallInstruction)>::empty());
            assert(r@.traced.map_values(|e: (u32, SCallInstruction)| e.0) =~= Seq::<u32>::empty());
        }
        r
    }

    /// Source line numbers that contain a call instruction, in increasing
    /// order.
    pub fn called_lines(&self) -> (r: Vec<u32>)
        ensures
            r@ == self@.line_to_callsites.map_values(|e: (u32, Seq<SCallInstruction>)| e.0),
    {
        let ghost want = self@.line_to_callsites.map_values(|e: (u32, Seq<SCallInstruction>)| e.0);
        let mut r: Vec<u32> = Vec::new();
        let mut i: usize = 0;
        while i < self.line_to_callsites.len()
            invariant
                i <= self.line_to_callsites@.len(),
                want == self@.line_to_callsites.map_values(
                    |e: (u32, Seq<SCallInstruction>)| e.0,
                ),
                want.len() == self.line_to_callsites@.len(),
                r@ == want.take(i as int),
            decreases self.line_to_callsites@.len() - i,
        {
            r.push(self.line_to_callsites[i].line);
            assert(r@ =~= want.take(i + 1));
            i = i + 1;
        }
        assert(want.take(want.len() as int) =~= want);
        r
    }

    /// The file the displayed source comes from.
    pub fn get_source_file(&self) -> (r: &str)
        ensures
            r@ == self@.source_file,
    {
        self.source_file.as_str()
    }

    /// The line the function's definition is on.
    pub fn get_source_line(&self) -> (r: u32)
        ensures
            r == self@.source_line,
    {
        self.source_line
    }

    /// Largest line number holding a call site in this frame, or the
    /// function's own line where no call site is known.
    pub fn max_line(&self) -> (r: u32)
        ensures
            r == (if self@.line_to_callsites.len() == 0 {
                self@.source_line
            } else {
                self@.line_to_callsites.last().0
            }),
    {
        if self.line_to_callsites.len() == 0 {
            self.source_line
        } else {
            self.line_to_callsites[self.line_to_callsites.len() - 1].line
        }
    }

    /// The function this frame shows.
    pub fn get_function(&self) -> (r: &FunctionName)
        ensures
            r@ == self@.function,
    {
        &self.function
    }

    /// An identical (view-level) copy of this frame.
    pub fn clone_frame(&self) -> (r: FrameInfo)
        ensures
            r@ == self@,
    {
        let r = FrameInfo {
            function: self.function.clone(),
            source_file: self.source_file.clone(),
            source_line: self.source_line,
            line_to_callsites: clone_line_callsites(&self.line_to_callsites),
            unattached_callsites: clone_callsites(&self.unattached_callsites),
            traced_callsites: clone_traced(&self.traced_callsites),
            filter: clone_opt_string(&self.filter),
            ret_filter: clone_opt_string(&self.ret_filter),
        };
        proof {
            assert(r@.line_to_callsites =~= self@.line_to_callsites);
            assert(r@.unattached =~= self@.unattached);
            assert(r@.traced =~= self@.traced);
            assert(r@ =~= self@);
        }
        r
    }
}

impl Clone for LineCallsites {
    fn clone(&self) -> (r: Self)
        ensures
            r@ == self@,
    {
        let r = LineCallsites { line: self.line, callsites: clone_callsites(&self.callsites) };
        proof {
            assert(r@ =~= self@);
        }
        r
    }
}

impl Clone for TracedCallsite {
    fn clone(&self) -> (r: Self)
        ensures
            r == *self,
    {
        TracedCallsite { line: self.line, callsite: self.callsite.clone() }
    }
}

/// An element-wise copy of the per-line call site lists.
fn clone_line_callsites(v: &Vec<LineCallsites>) -> (r: Vec<LineCallsites>)
    ensures
        r@.map_values(|e: LineCallsites| e@) == v@.map_values(|e: LineCallsites| e@),
{
    let r = v.clone();
    proof {
        assert forall|i: int| 0 <= i < v@.len() implies r@[i]@ == v@[i]@ by {
            assert(cloned::<LineCallsites>(v@[i], r@[i]));
        }
        assert(r@.map_values(|e: LineCallsites| e@) =~= v@.map_values(|e: LineCallsites| e@));
    }
    r
}

/// An element-wise copy of the traced call sites.
fn clone_traced(v: &Vec<TracedCallsite>) -> (r: Vec<TracedCallsite>)
    ensures
        r@ == v@,
{
    let r = v.clone();
    proof {
        assert forall|i: int| 0 <= i < v@.len() implies r@[i] == v@[i] by {
            assert(cloned::<TracedCallsite>(v@[i], r@[i]));
        }
        assert(r@ =~= v@);
    }
    r
}

/// A copy of an optional string.
fn clone_opt_string(v: &Option<String>) -> (r: Option<String>)
    ensures
        r == *v,
{
    match v {
        Some(s) => Some(s.clone()),
        None => None,
    }
}

/// The line keys of a traced-callsite list.
pub open spec fn s_traced_lines(tr: Seq<(u32, SCallInstruction)>) -> Seq<u32> {
    tr.map_values(|e: (u32, SCallInstruction)| e.0)
}

/// Some entry of `tr` is for `line`.
pub open spec fn s_traced_contains(tr: Seq<(u32, SCallInstruction)>, line: u32) -> bool {
    exists|i: int| 0 <= i < tr.len() && (#[trigger] tr[i]).0 == line
}

/// `tr` with `(line, ci)` inserted in line order, replacing an existing
/// entry for the same line.
pub open spec fn s_traced_insert(
    tr: Seq<(u32, SCallInstruction)>,
    line: u32,
    ci: SCallInstruction,
) -> Seq<(u32, SCallInstruction)>
    decreases tr.len(),
{
    if tr.len() == 0 {
        seq![(line, ci)]
    } else if tr[0].0 < line {
        seq![tr[0]] + s_traced_insert(tr.drop_first(), line, ci)
    } else if tr[0].0 == line {
        seq![(line, ci)] + tr.drop_first()
    } else {
        seq![(line, ci)] + tr
    }
}

/// `tr` with the first entry for `line` removed, if one exists.
pub open spec fn s_traced_remove(tr: Seq<(u32, SCallInstruction)>, line: u32) -> Seq<
    (u32, SCallInstruction),
>
    decreases tr.len(),
{
    if tr.len() == 0 {
        tr
    } else if tr[0].0 == line {
        tr.drop_first()
    } else {
        seq![tr[0]] + s_traced_remove(tr.drop_first(), line)
    }
}

/// Where the first `idx` entries are below `line` and entry `idx` (if any) is
/// not, inserting splits the list there.
pub proof fn lemma_traced_insert_split(
    tr: Seq<(u32, SCallInstruction)>,
    line: u32,
    ci: SCallInstruction,
    idx: int,
)
    requires
        0 <= idx <= tr.len(),
        forall|j: int| 0 <= j < idx ==> (#[trigger] tr[j]).0 < line,
        idx < tr.len() ==> tr[idx].0 >= line,
    ensures
        s_traced_insert(tr, line, ci) == if idx < tr.len() && tr[idx].0 == line {
            tr.take(idx) + seq![(line, ci)] + tr.skip(idx + 1)
        } else {
            tr.take(idx) + seq![(line, ci)] + tr.skip(idx)
        },
    decreases idx,
{
    if idx == 0 {
        if tr.len() == 0 {
            assert(s_traced_insert(tr, line, ci) =~= tr.take(0) + seq![(line, ci)] + tr.skip(0));
        } else if tr[0].0 == line {
            assert(s_traced_insert(tr, line, ci) =~= tr.take(0) + seq![(line, ci)] + tr.skip(1));
        } else {
            assert(tr[0].0 > line);
            assert(s_traced_insert(tr, line, ci) =~= tr.take(0) + seq![(line, ci)] + tr.skip(0));
        }
    } else {
        assert(tr[0].0 < line);
        let rest = tr.drop_first();
        assert(forall|j: int| 0 <= j < idx - 1 ==> (#[trigger] rest[j]).0 < line);
        lemma_traced_insert_split(rest, line, ci, idx - 1);
        if idx < tr.len() && tr[idx].0 == line {
            assert(seq![tr[0]] + (rest.take(idx - 1) + seq![(line, ci)] + rest.skip(idx)) =~= tr.take(
                idx,
            ) + seq![(line, ci)] + tr.skip(idx + 1));
        } else {
            assert(seq![tr[0]] + (rest.take(idx - 1) + seq![(line, ci)] + rest.skip(idx - 1))
                =~= tr.take(idx) + seq![(line, ci)] + tr.skip(idx));
        }
    }
}

/// Where the first `idx` entries are not for `line`, removal splits there.
pub proof fn lemma_traced_remove_split(tr: Seq<(u32, SCallInstruction)>, line: u32, idx: int)
    requires
        0 <= idx <= tr.len(),
        forall|j: int| 0 <= j < idx ==> (#[trigger] tr[j]).0 != line,
        idx < tr.len() ==> tr[idx].0 == line,
    ensures
        s_traced_remove(tr, line) == if idx < tr.len() {
            tr.take(idx) + tr.skip(idx + 1)
        } else {
            tr
        },
    decreases idx,
{
    if idx == 0 {
        if tr.len() == 0 {
        } else {
            assert(tr[0].0 == line);
            assert(s_traced_remove(tr, line) =~= tr.take(0) + tr.skip(1));
        }
    } else {
        assert(tr[0].0 != line);
        let rest = tr.drop_first();
        assert(forall|j: int| 0 <= j < idx - 1 ==> (#[trigger] rest[j]).0 != line);
        lemma_traced_remove_split(rest, line, idx - 1);
        if idx < tr.len() {
            assert(seq![tr[0]] + (rest.take(idx - 1) + rest.skip(idx)) =~= tr.take(idx) + tr.skip(
                idx + 1,
            ));
        } else {
            assert(seq![tr[0]] + rest =~= tr);
        }
    }
}

impl FrameInfo {
    /// Designate `ci` as the traced call site of `line`, replacing any
    /// previous choice for that line.
    pub fn set_traced(&mut self, line: u32, ci: CallInstruction)
        requires
            old(self)@.wf(),
            s_known_callsite(old(self)@, line, ci@),
            ci@.relative_ip + ci@.length <= u32::MAX,
        ensures
            final(self)@ == (SFrame {
                traced: s_traced_insert(old(self)@.traced, line, ci@),
                ..old(self)@
            }),
            final(self)@.wf(),
    {
        let ghost tr = self@.traced;
        let mut idx: usize = 0;
        while idx < self.traced_callsites.len() && self.traced_callsites[idx].line < line
            invariant
                tr == self@.traced,
                tr.len() == self.traced_callsites@.len(),
                idx <= tr.len(),
                forall|j: int| 0 <= j < idx ==> (#[trigger] tr[j]).0 < line,
                forall|j: int|
                    0 <= j < self.traced_callsites@.len() ==> tr[j]
                        == self.traced_callsites@[j]@,
            decreases tr.len() - idx,
    {
            assert(tr[idx as int] == self.traced_callsites@[idx as int]@);
            idx = idx + 1;
        }
        proof {
            assert(forall|j: int|
                0 <= j < self.traced_callsites@.len() ==> tr[j] == self.traced_callsites@[j]@);
            if idx < tr.len() {
                assert(tr[idx as int] == self.traced_callsites@[idx as int]@);
                assert(tr[idx as int].0 >= line);
            }
            lemma_traced_insert_split(tr, line, ci@, idx as int);
        }
        let found = idx < self.traced_callsites.len() && self.traced_callsites[idx].line == line;
        if found {
            self.traced_callsites.remove(idx);
        }
        self.traced_callsites.insert(idx, TracedCallsite { line, callsite: ci });
        proof {
            let newtr = self.traced_callsites@.map_values(|e: TracedCallsite| e@);
            if found {
                assert(newtr =~= tr.take(idx as int) + seq![(line, ci@)] + tr.skip(idx + 1));
            } else {
                assert(newtr =~= tr.take(idx as int) + seq![(line, ci@)] + tr.skip(idx as int));
            }
            assert(final(self)@ == (SFrame {
                traced: s_traced_insert(tr, line, ci@),
                ..old(self)@
            }));
            lemma_set_traced_wf(old(self)@, final(self)@, tr, line, ci@, idx as int, found);
        }
    }

    /// Stop tracing `line`. Answers whether a traced call site existed there.
    pub fn unset_traced(&mut self, line: u32) -> (r: bool)
        requires
            old(self)@.wf(),
        ensures
            r == s_traced_contains(old(self)@.traced, line),
            final(self)@ == (SFrame {
                traced: s_traced_remove(old(self)@.traced, line),
                ..old(self)@
            }),
            final(self)@.wf(),
    {
        let ghost tr = self@.traced;
        let mut idx: usize = 0;
        while idx < self.traced_callsites.len() && self.traced_callsites[idx].line != line
            invariant
                tr == self@.traced,
                tr.len() == self.traced_callsites@.len(),
                idx <= tr.len(),
                forall|j: int| 0 <= j < idx ==> (#[trigger] tr[j]).0 != line,
                forall|j: int|
                    0 <= j < self.traced_callsites@.len() ==> tr[j]
                        == self.traced_callsites@[j]@,
            decreases tr.len() - idx,
    {
            assert(tr[idx as int] == self.traced_callsites@[idx as int]@);
            idx = idx + 1;
        }
        proof {
            if idx < tr.len() {
                assert(tr[idx as int] == self.traced_callsites@[idx as int]@);
            }
            lemma_traced_remove_split(tr, line, idx as int);
        }
        if idx < self.traced_callsites.len() {
            self.traced_callsites.remove(idx);
            proof {
                let newtr = self.traced_callsites@.map_values(|e: TracedCallsite| e@);
                assert(newtr =~= tr.take(idx as int) + tr.skip(idx + 1));
                assert(tr[idx as int].0 == line);
                lemma_unset_traced_wf(old(self)@, final(self)@, tr, line, idx as int);
            }
            true
        } else {
            proof {
                assert(!s_traced_contains(tr, line));
                assert(final(self)@ =~= (SFrame {
                    traced: s_traced_remove(tr, line),
                    ..old(self)@
                }));
            }
            false
        }
    }

    /// Set or clear one of the two filters.
    pub fn set_filter(&mut self, filter: Option<String>, is_ret: bool)
        ensures
            final(self)@ == (SFrame {
                filter: if is_ret {
                    old(self)@.filter
                } else {
                    match filter {
                        Some(f) => Some(f@),
                        None => None,
                    }
                },
                ret_filter: if is_ret {
                    match filter {
                        Some(f) => Some(f@),
                        None => None,
                    }
                } else {
                    old(self)@.ret_filter
                },
                ..old(self)@
            }),
            old(self)@.wf() ==> final(self)@.wf(),
    {
        if is_ret {
            self.ret_filter = filter;
        } else {
            self.filter = filter;
        }
        proof {
            if old(self)@.wf() {
                lemma_filter_only_wf(old(self)@, final(self)@);
            }
        }
    }

    /// One of the two filters, as currently set.
    pub fn get_filter(&self, is_ret: bool) -> (r: Option<String>)
        ensures
            (match r {
                Some(f) => Some(f@),
                None => None,
            }) == if is_ret {
                self@.ret_filter
            } else {
                self@.filter
            },
    {
        if is_ret {
            clone_opt_string(&self.ret_filter)
        } else {
            clone_opt_string(&self.filter)
        }
    }
}

/// Well-formedness only reads the call-site lists and the traced list.
proof fn lemma_filter_only_wf(f1: SFrame, f2: SFrame)
    requires
        f1.wf(),
        f2.line_to_callsites == f1.line_to_callsites,
        f2.unattached == f1.unattached,
        f2.traced == f1.traced,
    ensures
        f2.wf(),
{
    assert forall|i: int| 0 <= i < f2.traced.len() implies s_known_callsite(
        f2,
        #[trigger] f2.traced[i].0,
        f2.traced[i].1,
    ) by {
        assert(s_known_callsite(f1, f1.traced[i].0, f1.traced[i].1));
    }
}

/// Inserting a known call site keeps the frame well formed.
proof fn lemma_set_traced_wf(
    f1: SFrame,
    f2: SFrame,
    tr: Seq<(u32, SCallInstruction)>,
    line: u32,
    ci: SCallInstruction,
    idx: int,
    found: bool,
)
    requires
        f1.wf(),
        s_known_callsite(f1, line, ci),
        ci.relative_ip + ci.length <= u32::MAX,
        tr == f1.traced,
        0 <= idx <= tr.len(),
        forall|j: int| 0 <= j < idx ==> (#[trigger] tr[j]).0 < line,
        idx < tr.len() ==> tr[idx].0 >= line,
        found == (idx < tr.len() && tr[idx].0 == line),
        f2 == (SFrame { traced: s_traced_insert(tr, line, ci), ..f1 }),
    ensures
        f2.wf(),
{
    lemma_traced_insert_split(tr, line, ci, idx);
    let t2 = f2.traced;
    let lines1 = s_traced_lines(tr);
    let lines2 = s_traced_lines(t2);
    assert forall|a: int, b: int| 0 <= a < b < lines2.len() implies lines2[a] < lines2[b] by {
        if found {
            assert(t2 =~= tr.take(idx) + seq![(line, ci)] + tr.skip(idx + 1));
        } else {
            assert(t2 =~= tr.take(idx) + seq![(line, ci)] + tr.skip(idx));
        }
        // Relate each position of t2 to a position of tr or to the new entry.
        assert(forall|k: int| 0 <= k < idx ==> t2[k] == tr[k]);
        assert(t2[idx] == (line, ci));
        if found {
            assert(forall|k: int| idx < k < t2.len() ==> t2[k] == tr[k]);
            assert(forall|k: int|
                idx < k < t2.len() ==> #[trigger] t2[k].0 == lines1[k]);
        } else {
            assert(forall|k: int| idx < k < t2.len() ==> t2[k] == tr[k - 1]);
            assert(forall|k: int|
                idx < k < t2.len() ==> #[trigger] t2[k].0 == lines1[k - 1]);
        }
        assert(forall|k: int| 0 <= k < tr.len() ==> lines1[k] == (#[trigger] tr[k]).0);
        assert(forall|k: int| 0 <= k < t2.len() ==> lines2[k] == (#[trigger] t2[k]).0);
        if idx < tr.len() && !found {
            assert(tr[idx].0 > line);
        }
    }
    assert forall|i: int| 0 <= i < t2.len() implies s_known_callsite(
        f2,
        #[trigger] t2[i].0,
        t2[i].1,
    ) by {
        if t2[i] == (line, ci) {
            lemma_known_callsite_same_lists(f1, f2, line, ci);
        } else {
            assert(exists|j: int| 0 <= j < tr.len() && tr[j] == t2[i]) by {
                if found {
                    assert(t2 =~= tr.take(idx) + seq![(line, ci)] + tr.skip(idx + 1));
                    if i < idx {
                        assert(tr[i] == t2[i]);
                    } else if i > idx {
                        assert(tr[i] == t2[i]);
                    }
                } else {
                    assert(t2 =~= tr.take(idx) + seq![(line, ci)] + tr.skip(idx));
                    if i < idx {
                        assert(tr[i] == t2[i]);
                    } else if i > idx {
                        assert(tr[i - 1] == t2[i]);
                    }
                }
            }
            let j = choose|j: int| 0 <= j < tr.len() && tr[j] == t2[i];
            assert(s_known_callsite(f1, tr[j].0, tr[j].1));
            lemma_known_callsite_same_lists(f1, f2, t2[i].0, t2[i].1);
        }
    }
    assert forall|i: int| 0 <= i < t2.len() implies (#[trigger] t2[i].1.relative_ip as int)
        + t2[i].1.length as int <= u32::MAX as int by {
        if t2[i] == (line, ci) {
        } else {
            assert(exists|j: int| 0 <= j < tr.len() && tr[j] == t2[i]) by {
                if found {
                    assert(t2 =~= tr.take(idx) + seq![(line, ci)] + tr.skip(idx + 1));
                    if i < idx {
                        assert(tr[i] == t2[i]);
                    } else if i > idx {
                        assert(tr[i] == t2[i]);
                    }
                } else {
                    assert(t2 =~= tr.take(idx) + seq![(line, ci)] + tr.skip(idx));
                    if i < idx {
                        assert(tr[i] == t2[i]);
                    } else if i > idx {
                        assert(tr[i - 1] == t2[i]);
                    }
                }
            }
        }
    }
}

/// A call site known to one frame is known to another with the same lists.
proof fn lemma_known_callsite_same_lists(f1: SFrame, f2: SFrame, line: u32, ci: SCallInstruction)
    requires
        s_known_callsite(f1, line, ci),
        f2.line_to_callsites == f1.line_to_callsites,
        f2.unattached == f1.unattached,
    ensures
        s_known_callsite(f2, line, ci),
{
}

/// Removing a traced call site keeps the frame well formed.
proof fn lemma_unset_traced_wf(
    f1: SFrame,
    f2: SFrame,
    tr: Seq<(u32, SCallInstruction)>,
    line: u32,
    idx: int,
)
    requires
        f1.wf(),
        tr == f1.traced,
        0 <= idx < tr.len(),
        f2 == (SFrame { traced: tr.take(idx) + tr.skip(idx + 1), ..f1 }),
    ensures
        f2.wf(),
{
    let t2 = f2.traced;
    let lines1 = s_traced_lines(tr);
    let lines2 = s_traced_lines(t2);
    assert(forall|k: int| 0 <= k < idx ==> t2[k] == tr[k]);
    assert(forall|k: int| idx <= k < t2.len() ==> t2[k] == tr[k + 1]);
    assert(forall|k: int| 0 <= k < tr.len() ==> lines1[k] == (#[trigger] tr[k]).0);
    assert(forall|k: int| 0 <= k < t2.len() ==> lines2[k] == (#[trigger] t2[k]).0);
    assert forall|a: int, b: int| 0 <= a < b < lines2.len() implies lines2[a] < lines2[b] by {
        if a < idx && b < idx {
        } else if a < idx {
            assert(lines1[a] < lines1[b + 1]);
        } else {
            assert(lines1[a + 1] < lines1[b + 1]);
        }
    }
    assert forall|i: int| 0 <= i < t2.len() implies s_known_callsite(
        f2,
        #[trigger] t2[i].0,
        t2[i].1,
    ) by {
        if i < idx {
            assert(s_known_callsite(f1, tr[i].0, tr[i].1));
        } else {
            assert(s_known_callsite(f1, tr[i + 1].0, tr[i + 1].1));
        }
        lemma_known_callsite_same_lists(f1, f2, t2[i].0, t2[i].1);
    }
    assert forall|i: int| 0 <= i < t2.len() implies (#[trigger] t2[i].1.relative_ip as int)
        + t2[i].1.length as int <= u32::MAX as int by {
        if i < idx {
            assert(tr[i] == t2[i]);
        } else {
            assert(tr[i + 1] == t2[i]);
        }
    }
}

/// Ghost mirror of `TraceStack`.
pub struct STraceStack {
    pub counter: u64,
    pub program_path: Seq<char>,
    pub mode: TraceMode,
    pub breakdown: Seq<Seq<char>>,
    pub frames: Seq<SFrame>,
}

impl STraceStack {
    /// Well-formed stack: at least one frame, every frame well formed.
    pub open spec fn wf(&self) -> bool {
        &&& self.frames.len() >= 1
        &&& forall|i: int| 0 <= i < self.frames.len() ==> (#[trigger] self.frames[i]).wf()
    }
}

/// Outcome of provisionally installing a filter.
pub enum FilterChange {
    /// The empty filter cleared the previous one; the counter was bumped.
    Cleared,
    /// The filter was installed provisionally and must be validated by
    /// dry-compiling the synthesized program; `prev` is what to restore on
    /// failure.
    Pending { prev: Option<String> },
}

/// Manages the stack of functions being traced and generates the matching
/// bpftrace programs. Every change that alters the synthesized program bumps
/// the generation counter, so stale trace output can be recognized.
pub struct TraceStack {
    counter: u64,
    program_path: String,
    mode: TraceMode,
    /// When in Breakdown mode, trace these functions
    breakdown_functions: Vec<FunctionName>,
    /// Stack of functions being traced; never empty
    frames: Vec<FrameInfo>,
}

impl View for TraceStack {
    type V = STraceStack;

    closed spec fn view(&self) -> STraceStack {
        STraceStack {
            counter: self.counter,
            program_path: self.program_path@,
            mode: self.mode,
            breakdown: self.breakdown_functions@.map_values(|f: FunctionName| f@),
            frames: self.frames@.map_values(|f: FrameInfo| f@),
        }
    }
}

impl TraceStack {
    /// A fresh stack over one frame, in line mode, with the counter at zero.
    pub fn new(program_path: String, frame: FrameInfo) -> (r: TraceStack)
        requires
            frame@.wf(),
        ensures
            r@ == (STraceStack {
                counter: 0,
                program_path: program_path@,
                mode: TraceMode::Line,
                breakdown: Seq::<Seq<char>>::empty(),
                frames: seq![frame@],
            }),
            r@.wf(),
    {
        let mut frames = Vec::new();
        frames.push(frame);
        let r = TraceStack {
            counter: 0,
            program_path,
            mode: TraceMode::Line,
            breakdown_functions: Vec::new(),
            frames,
        };
        proof {
            assert(r@.breakdown =~= Seq::<Seq<char>>::empty());
            assert(r@.frames =~= seq![frame@]);
        }
        r
    }

    /// The function whose frame is on top of the stack.
    pub fn get_current_function(&self) -> (r: FunctionName)
        requires
            self@.wf(),
        ensures
            r@ == self@.frames.last().function,
    {
        let top = &self.frames[self.frames.len() - 1];
        proof {
            assert(self@.frames.last() == self.frames@.last()@);
        }
        top.get_function().clone()
    }

    /// The current mode.
    pub fn get_mode(&self) -> (r: TraceMode)
        ensures
            r == self@.mode,
    {
        self.mode
    }

    /// The call sites the top frame knows on `line`; empty if none.
    pub fn get_callsites(&self, line: u32) -> (r: Vec<CallInstruction>)
        requires
            self@.wf(),
        ensures
            r@.map_values(|c: CallInstruction| c@) == s_line_lookup(self@.frames.last(), line),
    {
        let top = &self.frames[self.frames.len() - 1];
        proof {
            assert(self@.frames.last() == self.frames@.last()@);
        }
        let ghost ltc = top@.line_to_callsites;
        let n = top.line_to_callsites_len();
        let mut i: usize = 0;
        while i < n
            invariant
                ltc == top@.line_to_callsites,
                self@.frames.last() == top@,
                self@.frames.last().wf(),
                ltc.len() == n,
                i <= ltc.len(),
                forall|j: int| 0 <= j < i ==> (#[trigger] ltc[j]).0 != line,
            decreases ltc.len() - i,
        {
            let entry = top.line_to_callsites_at(i);
            if entry.line == line {
                let r = clone_callsites(&entry.callsites);
                proof {
                    assert(ltc[i as int] == entry@);
                    assert(r@.map_values(|c: CallInstruction| c@) =~= ltc[i as int].1);
                    // The sorted line keys are distinct, so the witness that
                    // `s_line_lookup` picks is this very entry.
                    let f = self@.frames.last();
                    assert(f == top@);
                    assert(f.line_to_callsites == ltc);
                    assert(f.wf());
                    let lines = ltc.map_values(|e: (u32, Seq<SCallInstruction>)| e.0);
                    assert(forall|k: int| 0 <= k < ltc.len() ==> lines[k] == (#[trigger] ltc[k]).0);
                    assert(s_lines_sorted(lines));
                    assert(ltc[i as int].0 == line);
                    assert(s_line_has_callsites(f, line));
                    let j = choose|j: int|
                        0 <= j < f.line_to_callsites.len() && (#[trigger] f.line_to_callsites[j]).0
                            == line;
                    if j < i as int {
                        assert(lines[j] < lines[i as int]);
                    } else if j > i as int {
                        assert(lines[i as int] < lines[j]);
                    }
                    assert(j == i as int);
                }
                return r;
            }
            proof {
                assert(ltc[i as int] == entry@);
            }
            i = i + 1;
        }
        proof {
            assert(!s_line_has_callsites(self@.frames.last(), line));
            assert(s_line_lookup(self@.frames.last(), line) =~= Seq::<SCallInstruction>::empty());
        }
        let r: Vec<CallInstruction> = Vec::new();
        proof {
            assert(r@.map_values(|c: CallInstruction| c@) =~= Seq::<SCallInstruction>::empty());
        }
        r
    }

    /// The top frame's call sites that belong to another source file.
    pub fn get_unattached_callsites(&self) -> (r: Vec<CallInstruction>)
        requires
            self@.wf(),
        ensures
            r@.map_values(|c: CallInstruction| c@) == self@.frames.last().unattached,
    {
        let top = &self.frames[self.frames.len() - 1];
        proof {
            assert(self@.frames.last() == self.frames@.last()@);
        }
        top.clone_unattached()
    }

    /// Designate `ci` as the traced call site of `line` in the top frame.
    /// Existing trace data stays valid, so the counter is not bumped.
    pub fn add_callsite(&mut self, line: u32, ci: CallInstruction)
        requires
            old(self)@.wf(),
            s_known_callsite(old(self)@.frames.last(), line, ci@),
            ci@.relative_ip + ci@.length <= u32::MAX,
        ensures
            final(self)@ == (STraceStack {
                frames: old(self)@.frames.update(
                    old(self)@.frames.len() - 1,
                    SFrame {
                        traced: s_traced_insert(old(self)@.frames.last().traced, line, ci@),
                        ..old(self)@.frames.last()
                    },
                ),
                ..old(self)@
            }),
            final(self)@.wf(),
    {
        let mut top = self.frames.pop().unwrap();
        proof {
            assert(old(self)@.frames.last() == top@);
        }
        top.set_traced(line, ci);
        self.frames.push(top);
        proof {
            assert(final(self)@.frames =~= old(self)@.frames.update(
                old(self)@.frames.len() - 1,
                SFrame {
                    traced: s_traced_insert(old(self)@.frames.last().traced, line, ci@),
                    ..old(self)@.frames.last()
                },
            ));
        }
    }

    /// Remove the traced call site of `line` in the top frame, if any,
    /// answering whether one existed. Removal bumps the counter.
    pub fn remove_callsite(&mut self, line: u32) -> (r: bool)
        requires
            old(self)@.wf(),
            old(self)@.counter < u64::MAX,
        ensures
            r == s_traced_contains(old(self)@.frames.last().traced, line),
            r ==> final(self)@ == (STraceStack {
                counter: (old(self)@.counter + 1) as u64,
                frames: old(self)@.frames.update(
                    old(self)@.frames.len() - 1,
                    SFrame {
                        traced: s_traced_remove(old(self)@.frames.last().traced, line),
                        ..old(self)@.frames.last()
                    },
                ),
                ..old(self)@
            }),
            !r ==> final(self)@ == old(self)@,
            final(self)@.wf(),
    {
        let ghost before = *self;
        let mut top = self.frames.pop().unwrap();
        proof {
            assert(old(self)@.frames.last() == top@);
        }
        let existed = top.unset_traced(line);
        self.frames.push(top);
        if existed {
            self.counter = self.counter + 1;
            proof {
                assert(final(self)@.frames =~= old(self)@.frames.update(
                    old(self)@.frames.len() - 1,
                    SFrame {
                        traced: s_traced_remove(old(self)@.frames.last().traced, line),
                        ..old(self)@.frames.last()
                    },
                ));
            }
            true
        } else {
            proof {
                lemma_traced_remove_absent(old(self)@.frames.last().traced, line);
                assert(final(self)@.frames =~= old(self)@.frames);
            }
            false
        }
    }

    /// Push a frame for a newly entered function; bumps the counter.
    pub fn push(&mut self, frame: FrameInfo)
        requires
            old(self)@.wf(),
            old(self)@.counter < u64::MAX,
            frame@.wf(),
        ensures
            final(self)@ == (STraceStack {
                counter: (old(self)@.counter + 1) as u64,
                frames: old(self)@.frames.push(frame@),
                ..old(self)@
            }),
            final(self)@.wf(),
    {
        self.frames.push(frame);
        self.counter = self.counter + 1;
        proof {
            assert(final(self)@.frames =~= old(self)@.frames.push(frame@));
        }
    }

    /// Pop the top frame, unless it is the last one, and answer with a copy
    /// of the new top. Refuses (returns `None`, and changes nothing) when one
    /// frame remains; a successful pop bumps the counter.
    pub fn pop(&mut self) -> (r: Option<FrameInfo>)
        requires
            old(self)@.wf(),
            old(self)@.counter < u64::MAX,
        ensures
            (r is None) == (old(self)@.frames.len() == 1),
            r is None ==> *final(self) == *old(self),
            r matches Some(f) ==> f@ == old(self)@.frames[old(self)@.frames.len() - 2]
                && final(self)@ == (STraceStack {
                counter: (old(self)@.counter + 1) as u64,
                frames: old(self)@.frames.drop_last(),
                ..old(self)@
            }),
            final(self)@.wf(),
    {
        if self.frames.len() == 1 {
            // We do not allow popping the last frame
            return None;
        }
        self.frames.pop().unwrap();
        let top = &self.frames[self.frames.len() - 1];
        let copy = top.clone_frame();
        self.counter = self.counter + 1;
        proof {
            assert(final(self)@.frames =~= old(self)@.frames.drop_last());
            assert(copy@ == old(self)@.frames[old(self)@.frames.len() - 2]);
        }
        Some(copy)
    }

    /// Switch the tracing mode; bumps the counter.
    pub fn set_mode(&mut self, mode: TraceMode)
        requires
            old(self)@.wf(),
            old(self)@.counter < u64::MAX,
        ensures
            final(self)@ == (STraceStack {
                counter: (old(self)@.counter + 1) as u64,
                mode,
                ..old(self)@
            }),
            final(self)@.wf(),
    {
        self.mode = mode;
        self.counter = self.counter + 1;
    }

    /// The top frame's entry or return filter, as currently set.
    pub fn get_current_filter(&self, is_ret_filter: bool) -> (r: Option<String>)
        requires
            self@.wf(),
        ensures
            (match r {
                Some(f) => Some(f@),
                None => None,
            }) == if is_ret_filter {
                self@.frames.last().ret_filter
            } else {
                self@.frames.last().filter
            },
    {
        let top = &self.frames[self.frames.len() - 1];
        proof {
            assert(self@.frames.last() == self.frames@.last()@);
        }
        top.get_filter(is_ret_filter)
    }

    /// Begin setting the top frame's filter. The empty string clears the
    /// filter at once and bumps the counter. A non-empty filter is installed
    /// provisionally, for the caller to validate by dry-compiling the
    /// synthesized program; the counter is not bumped yet.
    pub fn begin_set_filter(&mut self, filter: String, is_ret_filter: bool) -> (r: FilterChange)
        requires
            old(self)@.wf(),
            old(self)@.counter < u64::MAX,
        ensures
            filter@.len() == 0 ==> r is Cleared && final(self)@ == (STraceStack {
                counter: (old(self)@.counter + 1) as u64,
                frames: old(self)@.frames.update(
                    old(self)@.frames.len() - 1,
                    s_frame_with_filter(old(self)@.frames.last(), None, is_ret_filter),
                ),
                ..old(self)@
            }),
            filter@.len() > 0 ==> (r matches FilterChange::Pending { prev } && (match prev {
                Some(p) => Some(p@),
                None => None,
            }) == (if is_ret_filter {
                old(self)@.frames.last().ret_filter
            } else {
                old(self)@.frames.last().filter
            }) && final(self)@ == (STraceStack {
                frames: old(self)@.frames.update(
                    old(self)@.frames.len() - 1,
                    s_frame_with_filter(old(self)@.frames.last(), Some(filter@), is_ret_filter),
                ),
                ..old(self)@
            })),
            final(self)@.wf(),
    {
        let mut top = self.frames.pop().unwrap();
        proof {
            assert(old(self)@.frames.last() == top@);
        }
        if filter.unicode_len() == 0 {
            top.set_filter(None, is_ret_filter);
            self.frames.push(top);
            self.counter = self.counter + 1;
            proof {
                assert(final(self)@.frames =~= old(self)@.frames.update(
                    old(self)@.frames.len() - 1,
                    s_frame_with_filter(old(self)@.frames.last(), None, is_ret_filter),
                ));
            }
            FilterChange::Cleared
        } else {
            let prev = top.get_filter(is_ret_filter);
            top.set_filter(Some(filter), is_ret_filter);
            self.frames.push(top);
            proof {
                assert(final(self)@.frames =~= old(self)@.frames.update(
                    old(self)@.frames.len() - 1,
                    s_frame_with_filter(old(self)@.frames.last(), Some(filter@), is_ret_filter),
                ));
            }
            FilterChange::Pending { prev }
        }
    }

    /// Finish setting a provisionally installed filter. On success the
    /// counter is bumped; on failure the previous filter is restored and the
    /// counter stays.
    pub fn finish_set_filter(&mut self, prev: Option<String>, is_ret_filter: bool, success: bool)
        requires
            old(self)@.wf(),
            old(self)@.counter < u64::MAX,
        ensures
            success ==> final(self)@ == (STraceStack {
                counter: (old(self)@.counter + 1) as u64,
                ..old(self)@
            }),
            !success ==> final(self)@ == (STraceStack {
                frames: old(self)@.frames.update(
                    old(self)@.frames.len() - 1,
                    s_frame_with_filter(
                        old(self)@.frames.last(),
                        match prev {
                            Some(p) => Some(p@),
                            None => None,
                        },
                        is_ret_filter,
                    ),
                ),
                ..old(self)@
            }),
            final(self)@.wf(),
    {
        if success {
            self.counter = self.counter + 1;
        } else {
            // Restore the previous filter
            let mut top = self.frames.pop().unwrap();
            proof {
                assert(old(self)@.frames.last() == top@);
            }
            top.set_filter(prev, is_ret_filter);
            self.frames.push(top);
            proof {
                assert(final(self)@.frames =~= old(self)@.frames.update(
                    old(self)@.frames.len() - 1,
                    s_frame_with_filter(
                        old(self)@.frames.last(),
                        match prev {
                            Some(p) => Some(p@),
                            None => None,
                        },
                        is_ret_filter,
                    ),
                ));
            }
        }
    }

    /// Remember a function for breakdown mode. The program changes only on
    /// the next respawn, so the counter is not bumped.
    pub fn add_breakdown_function(&mut self, function: FunctionName)
        ensures
            final(self)@ == (STraceStack {
                breakdown: old(self)@.breakdown.push(function@),
                ..old(self)@
            }),
    {
        self.breakdown_functions.push(function);
        proof {
            assert(final(self)@.breakdown =~= old(self)@.breakdown.push(function@));
        }
    }

    /// The functions selected for breakdown mode, in selection order.
    pub fn get_breakdown_functions(&self) -> (r: Vec<FunctionName>)
        ensures
            r@.map_values(|f: FunctionName| f@) == self@.breakdown,
    {
        let ghost want = self@.breakdown;
        let mut r: Vec<FunctionName> = Vec::new();
        let mut i: usize = 0;
        while i < self.breakdown_functions.len()
            invariant
                i <= self.breakdown_functions@.len(),
                want == self@.breakdown,
                want.len() == self.breakdown_functions@.len(),
                r@.map_values(|f: FunctionName| f@) == want.take(i as int),
            decreases self.breakdown_functions@.len() - i,
        {
            let ghost r0 = r@;
            r.push(self.breakdown_functions[i].clone());
            proof {
                assert(r0.map_values(|f: FunctionName| f@).len() == r0.len());
                assert(r0.len() == i);
                assert(r@ == r0.push(r@.last()));
                assert(r@.last()@ == want[i as int]);
                assert forall|k: int| 0 <= k < i implies r@.map_values(|f: FunctionName| f@)[k]
                    == want[k] by {
                    assert(r@[k] == r0[k]);
                    assert(r0.map_values(|f: FunctionName| f@)[k] == r0[k]@);
                    assert(r0.map_values(|f: FunctionName| f@)[k] == want.take(i as int)[k]);
                }
                assert(r@.map_values(|f: FunctionName| f@) =~= want.take(i + 1));
            }
            i = i + 1;
        }
        assert(want.take(want.len() as int) =~= want);
        r
    }

    /// Trace output stamped with `counter` belongs to the current program.
    pub fn is_counter_current(&self, counter: u64) -> (r: bool)
        ensures
            r == (counter == self@.counter),
    {
        counter == self.counter
    }
}

/// Removing an absent line leaves the traced list unchanged.
pub proof fn lemma_traced_remove_absent(tr: Seq<(u32, SCallInstruction)>, line: u32)
    requires
        !s_traced_contains(tr, line),
    ensures
        s_traced_remove(tr, line) == tr,
    decreases tr.len(),
{
    if tr.len() == 0 {
    } else {
        assert(tr[0].0 != line);
        assert(!s_traced_contains(tr.drop_first(), line)) by {
            if s_traced_contains(tr.drop_first(), line) {
                let i = choose|i: int|
                    0 <= i < tr.drop_first().len() && (#[trigger] tr.drop_first()[i]).0 == line;
                assert(tr[i + 1].0 == line);
            }
        }
        lemma_traced_remove_absent(tr.drop_first(), line);
        assert(seq![tr[0]] + tr.drop_first() =~= tr);
    }
}

/// The frame with one of its filters replaced.
pub open spec fn s_frame_with_filter(f: SFrame, filter: Option<Seq<char>>, is_ret: bool) -> SFrame {
    if is_ret {
        SFrame { ret_filter: filter, ..f }
    } else {
        SFrame { filter, ..f }
    }
}

/// The call sites of a frame on one line; empty if the line has none.
pub open spec fn s_line_has_callsites(f: SFrame, line: u32) -> bool {
    exists|i: int| 0 <= i < f.line_to_callsites.len() && (#[trigger] f.line_to_callsites[i]).0 == line
}

/// The call sites of a frame on one line; empty if the line has none.
pub open spec fn s_line_lookup(f: SFrame, line: u32) -> Seq<SCallInstruction> {
    if s_line_has_callsites(f, line) {
        f.line_to_callsites[choose|i: int|
            0 <= i < f.line_to_callsites.len() && (#[trigger] f.line_to_callsites[i]).0 == line].1
    } else {
        Seq::empty()
    }
}

impl FrameInfo {
    /// How many lines hold call sites.
    pub fn line_to_callsites_len(&self) -> (r: usize)
        ensures
            r == self@.line_to_callsites.len(),
    {
        self.line_to_callsites.len()
    }

    /// The call sites of the `i`-th line, in line order.
    pub fn line_to_callsites_at(&self, i: usize) -> (r: &LineCallsites)
        requires
            i < self@.line_to_callsites.len(),
        ensures
            r@ == self@.line_to_callsites[i as int],
    {
        &self.line_to_callsites[i]
    }

    /// A copy of the call sites that belong to another source file.
    pub fn clone_unattached(&self) -> (r: Vec<CallInstruction>)
        ensures
            r@.map_values(|c: CallInstruction| c@) == self@.unattached,
    {
        let r = clone_callsites(&self.unattached_callsites);
        proof {
            assert(r@.map_values(|c: CallInstruction| c@) =~= self@.unattached);
        }
        r
    }
}

impl TraceStack {
    /// How many frames the stack holds.
    pub fn frames_len(&self) -> (r: usize)
        ensures
            r == self@.frames.len(),
    {
        self.frames.len()
    }

    /// The frame at stack index `i` (index 0 is the outermost).
    pub fn frame_at(&self, i: usize) -> (r: &FrameInfo)
        requires
            i < self@.frames.len(),
        ensures
            r@ == self@.frames[i as int],
    {
        &self.frames[i]
    }

    /// The path of the binary being traced.
    pub fn path_str(&self) -> (r: &str)
        ensures
            r@ == self@.program_path,
    {
        self.program_path.as_str()
    }

    /// The current value of the generation counter.
    pub fn counter_value(&self) -> (r: u64)
        ensures
            r == self@.counter,
    {
        self.counter
    }

    /// How many functions are selected for breakdown mode.
    pub fn breakdown_len(&self) -> (r: usize)
        ensures
            r == self@.breakdown.len(),
    {
        self.breakdown_functions.len()
    }

    /// The `i`-th breakdown function.
    pub fn breakdown_at(&self, i: usize) -> (r: &FunctionName)
        requires
            i < self@.breakdown.len(),
        ensures
            r@ == self@.breakdown[i as int],
    {
        &self.breakdown_functions[i]
    }
}

impl FrameInfo {
    /// How many call sites are being traced.
    pub fn traced_len(&self) -> (r: usize)
        ensures
            r == self@.traced.len(),
    {
        self.traced_callsites.len()
    }

    /// The `i`-th traced call site, in line order.
    pub fn traced_at(&self, i: usize) -> (r: &TracedCallsite)
        requires
            i < self@.traced.len(),
        ensures
            r@ == self@.traced[i as int],
    {
        &self.traced_callsites[i]
    }
}

} // verus!
