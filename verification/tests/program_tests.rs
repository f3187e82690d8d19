//! The binary model: symbol lookups, PLT resolution and the debug-line
//! fallback rule.
use wachy::program::{
    debug_line_source, location_if_complete, AddressRange, DebugSource, FunctionName, Program,
    RawJump, RawRelocation, RawSymbol,
};

fn sample_program() -> Program {
    let symbols = vec![
        RawSymbol {
            name: "main".to_string(),
            section_index: Some(1),
            address: 0x1000,
            size: 0x100,
        },
        RawSymbol {
            name: "helper".to_string(),
            section_index: Some(1),
            address: 0x1100,
            size: 0x40,
        },
        RawSymbol {
            name: "memcpy@@GLIBC_2.14".to_string(),
            section_index: None,
            address: 0,
            size: 0,
        },
    ];
    let ranges = vec![AddressRange { start: 0x500, end: 0x540 }];
    let relocations = vec![RawRelocation { address: 0x3000, name: "memcpy".to_string() }];
    let jumps = vec![
        // The expected jump to the zeroth PLT entry matches no relocation.
        RawJump { ip: 0x500, target: 0x2000 },
        RawJump { ip: 0x510, target: 0x3000 },
    ];
    Program::new("/bin/prog".to_string(), symbols, ranges, relocations, jumps)
}

#[test]
fn plt_entries_resolve_to_versioned_names() {
    let program = sample_program();
    // The relocation names the unversioned symbol; the symbol table holds
    // the versioned form, which wins.
    let f = program.get_function_for_address(0x510).unwrap();
    assert_eq!(f.0, "memcpy@@GLIBC_2.14");
}

#[test]
fn text_addresses_resolve_through_the_symbol_table() {
    let program = sample_program();
    let f = program.get_function_for_address(0x1100).unwrap();
    assert_eq!(f.0, "helper");
    assert!(program.get_function_for_address(0x9999).is_none());
    // The unmatched jump to the zeroth PLT entry was ignored.
    assert!(program.get_function_for_address(0x500).is_none());
}

#[test]
fn plt_range_membership() {
    let program = sample_program();
    assert!(program.is_dynamic_symbol_address(0x500));
    assert!(program.is_dynamic_symbol_address(0x53f));
    assert!(!program.is_dynamic_symbol_address(0x540));
    assert!(!program.is_dynamic_symbol_address(0x1000));
}

#[test]
fn exact_match_shadows_substring_matches() {
    let program = sample_program();
    let all = program.get_matches("m");
    assert_eq!(all.len(), 2);
    assert_eq!(all[0].0, "main");
    assert_eq!(all[1].0, "memcpy@@GLIBC_2.14");
    let exact = program.get_matches("main");
    assert_eq!(exact.len(), 1);
    assert_eq!(exact[0].0, "main");
    assert!(program.get_matches("nothing-like-this").is_empty());
}

#[test]
fn code_range_of_static_and_dynamic_symbols() {
    let program = sample_program();
    let range = program.get_code_range(&FunctionName::new("main".to_string())).unwrap();
    assert_eq!(range.address, 0x1000);
    assert_eq!(range.size, 0x100);
    assert_eq!(range.section_index, 1);
    let err = program
        .get_code_range(&FunctionName::new("memcpy@@GLIBC_2.14".to_string()))
        .unwrap_err();
    assert_eq!(
        err.message(),
        "Cannot get data for dynamically linked symbol memcpy@@GLIBC_2.14"
    );
}

#[test]
fn demangled_names_are_displayed_and_matched() {
    let program = Program::new(
        "/bin/prog".to_string(),
        vec![RawSymbol {
            name: "_ZN5space3fooEibc".to_string(),
            section_index: Some(1),
            address: 0x2000,
            size: 8,
        }],
        Vec::new(),
        Vec::new(),
        Vec::new(),
    );
    assert_eq!(program.symbols()[0].display_name(), "space::foo(int, bool, char)");
    let found = program.get_matches("space::foo(int, bool, char)");
    assert_eq!(found.len(), 1);
    assert_eq!(found[0].0, "_ZN5space3fooEibc");
    assert_eq!(found[0].pretty_print(), "space::foo(int, bool, char)");
}

#[test]
fn pretty_print_falls_back_to_the_raw_name() {
    let f = FunctionName::new("plain_c_function".to_string());
    assert_eq!(f.pretty_print(), "plain_c_function");
}

#[test]
fn incomplete_locations_are_dropped() {
    assert!(location_if_complete(Some("a.c".to_string()), Some(3)).is_some());
    assert!(location_if_complete(Some("a.c".to_string()), None).is_none());
    assert!(location_if_complete(None, Some(3)).is_none());
    assert!(location_if_complete(None, None).is_none());
}

#[test]
fn debug_line_fallback_rule() {
    assert!(matches!(debug_line_source(true, None), DebugSource::Primary));
    assert!(matches!(
        debug_line_source(true, Some("prog.debug".to_string())),
        DebugSource::Primary
    ));
    match debug_line_source(false, Some("prog.debug".to_string())) {
        DebugSource::Debuglink(f) => assert_eq!(f, "prog.debug"),
        DebugSource::Primary => panic!("the debuglink resolves"),
    }
    assert!(matches!(debug_line_source(false, None), DebugSource::Primary));
}
