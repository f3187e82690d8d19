//! Fuzzy ranking, candidate labels and latency formatting.
use wachy::program::{FunctionName, Program, RawSymbol};
use wachy::search::{rank_fn, Label};
use wachy::trace_structs::CallInstruction;
use wachy::views::format_latency;

fn symbols(names: &[&str]) -> Program {
    Program::new(
        "/bin/prog".to_string(),
        names
            .iter()
            .enumerate()
            .map(|(i, n)| RawSymbol {
                name: n.to_string(),
                section_index: Some(1),
                address: 0x1000 + i as u64,
                size: 1,
            })
            .collect(),
        Vec::new(),
        Vec::new(),
        Vec::new(),
    )
}

#[test]
fn ranking_keeps_matches_and_drops_the_rest() {
    let program = symbols(&["banana", "apple", "bandana"]);
    let ranked = rank_fn(program.symbols(), "ban", 10);
    assert_eq!(ranked.len(), 2);
    assert!(ranked.contains(&0));
    assert!(ranked.contains(&2));
    // Of two prefix matches the shorter label ranks first.
    assert_eq!(ranked[0], 0);
}

#[test]
fn ranking_truncates_to_the_requested_size() {
    let program = symbols(&["read_a", "read_b", "read_c"]);
    let ranked = rank_fn(program.symbols(), "read", 2);
    assert_eq!(ranked.len(), 2);
    let all = rank_fn(program.symbols(), "read", 10);
    assert_eq!(all.len(), 3);
}

#[test]
fn no_match_means_no_result() {
    let program = symbols(&["alpha", "beta"]);
    assert!(rank_fn(program.symbols(), "zzz", 10).is_empty());
}

#[test]
fn callsite_labels() {
    let f = CallInstruction::function(4, 5, FunctionName::new("bar".to_string()));
    assert_eq!(f.label(), "4: bar");
    let d = CallInstruction::dynamic_symbol(9, 5, FunctionName::new("write".to_string()));
    assert_eq!(d.label(), "9: (D) write");
    let m = CallInstruction::manual(4, 10);
    assert_eq!(m.label(), "4: Manual 4-14");
    let u = CallInstruction::unknown(77, 2);
    assert_eq!(u.label(), "77: (UNKNOWN)");
    let r = CallInstruction::register(8, 2, "rax".to_string(), Some(0x1f));
    assert_eq!(r.label(), "8: (I) register [rax+0x1f]");
    let plain = CallInstruction::register(8, 2, "rdx".to_string(), None);
    assert_eq!(plain.label(), "8: (I) register rdx");
}

#[test]
fn latency_formatting_keeps_three_significant_figures() {
    assert_eq!(format_latency(0), "0ns");
    assert_eq!(format_latency(5), "5.00ns");
    assert_eq!(format_latency(123), "123ns");
    assert_eq!(format_latency(999), "999ns");
    assert_eq!(format_latency(1234), "1.23us");
    assert_eq!(format_latency(12345), "12.3us");
    assert_eq!(format_latency(999950), "1000us");
    assert_eq!(format_latency(1_500_000), "1.50ms");
    assert_eq!(format_latency(2_000_000_000), "2s");
    assert_eq!(format_latency(7_800_000_000), "8s");
}
