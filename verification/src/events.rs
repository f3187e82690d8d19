//! Events communicated to the controller, and the shape of parsed trace
//! data. Durations are carried as nanosecond counts, times as whole seconds.
use vstd::prelude::*;

use crate::program::{FunctionName, SymbolInfo};

verus! {

/// Cumulative duration (nanoseconds) and call count.
#[derive(Clone, Copy, PartialEq, Eq, Structural, Debug)]
pub struct TraceCumulative {
    /// Cumulative time spent, in nanoseconds
    pub duration: u64,
    /// Cumulative count
    pub count: u64,
}

/// Ghost mirror of `TraceInfoMode`.
pub enum STraceInfoMode {
    Lines(Seq<(u32, TraceCumulative)>),
    Histogram(Seq<char>),
    Breakdown { last_frame_trace: TraceCumulative, breakdown_traces: Seq<TraceCumulative> },
}

/// The mode-specific payload of one trace update.
#[derive(Debug)]
pub enum TraceInfoMode {
    /// Per-line cumulative values, keyed by source line, in emission order
    Lines(Vec<(u32, TraceCumulative)>),
    /// Text of the latency histogram
    Histogram(String),
    Breakdown {
        last_frame_trace: TraceCumulative,
        /// One entry per breakdown function, in selection order
        breakdown_traces: Vec<TraceCumulative>,
    },
}

impl View for TraceInfoMode {
    type V = STraceInfoMode;

    open spec fn view(&self) -> STraceInfoMode {
        match self {
            TraceInfoMode::Lines(lines) => STraceInfoMode::Lines(lines@),
            TraceInfoMode::Histogram(text) => STraceInfoMode::Histogram(text@),
            TraceInfoMode::Breakdown { last_frame_trace, breakdown_traces } => {
                STraceInfoMode::Breakdown {
                    last_frame_trace: *last_frame_trace,
                    breakdown_traces: breakdown_traces@,
                }
            },
        }
    }
}

/// Ghost mirror of `TraceInfo`.
pub struct STraceInfo {
    pub counter: u64,
    pub time: u64,
    pub traces: STraceInfoMode,
}

/// Format in which trace data is passed back.
#[derive(Debug)]
pub struct TraceInfo {
    /// Counter corresponding to when the bpftrace command was last updated
    pub counter: u64,
    /// Time for which the current trace has been running, in seconds
    pub time: u64,
    pub traces: TraceInfoMode,
}

impl View for TraceInfo {
    type V = STraceInfo;

    open spec fn view(&self) -> STraceInfo {
        STraceInfo { counter: self.counter, time: self.time, traces: self.traces@ }
    }
}

/// Events communicated to the controller.
pub enum Event {
    /// The program should quit on receiving this
    FatalTraceError { error_message: String },
    TraceData(TraceInfo),
    TraceCommandModified,
    SearchResults {
        counter: u64,
        view_name: String,
        results: Vec<(String, Option<SymbolInfo>)>,
    },
    SelectedFunction(FunctionName),
}

} // verus!
