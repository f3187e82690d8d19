//! Core of an interactive tracing profiler: the model of the traced binary,
//! the stack of traced frames with its generation counter, the synthesis of
//! probe-engine programs from that state, and the parser for the engine's
//! streamed JSON output.
pub mod compiler;
pub mod controller;
pub mod error;
pub mod events;
pub mod laws;
pub mod parse;
pub mod program;
pub mod search;
pub mod strutil;
pub mod synthesis;
pub mod trace_structs;
pub mod views;
