//! Call classification, frame building and the key-chord state.
use wachy::controller::{
    classify_call, create_frame_info, descend_targets, KeyHandler, LocatedCall, RawOperand,
};
use wachy::program::{AddressRange, FunctionName, Program, RawRelocation, RawSymbol, RawJump};
use wachy::trace_structs::{CallInstruction, InstructionType, TraceStack};

fn sample_program() -> Program {
    Program::new(
        "/bin/prog".to_string(),
        vec![
            RawSymbol {
                name: "callee".to_string(),
                section_index: Some(1),
                address: 0x1000,
                size: 0x20,
            },
        ],
        vec![AddressRange { start: 0x500, end: 0x520 }],
        vec![RawRelocation { address: 0x3000, name: "write".to_string() }],
        vec![RawJump { ip: 0x508, target: 0x3000 }],
    )
}

#[test]
fn direct_calls_classify_by_target() {
    let program = sample_program();
    let known = classify_call(&program, 0x10, 5, RawOperand::Direct { target: 0x1000 });
    assert!(matches!(&known.instruction, InstructionType::Function(f) if f.0 == "callee"));
    let dynamic = classify_call(&program, 0x15, 5, RawOperand::Direct { target: 0x508 });
    assert!(matches!(&dynamic.instruction, InstructionType::DynamicSymbol(f) if f.0 == "write"));
    // A target in no symbol table stays selectable but unknown.
    let unknown = classify_call(&program, 0x20, 5, RawOperand::Direct { target: 0x7777 });
    assert!(matches!(unknown.instruction, InstructionType::Unknown));
    assert_eq!(unknown.relative_ip(), 0x20);
    assert_eq!(unknown.length(), 5);
}

#[test]
fn register_calls_keep_their_register() {
    let program = sample_program();
    let mem = classify_call(
        &program,
        0x30,
        6,
        RawOperand::MemBase { register: "rax".to_string(), displacement: 0x1f },
    );
    assert!(matches!(
        &mem.instruction,
        InstructionType::Register(r, Some(31)) if r == "rax"
    ));
    let reg = classify_call(&program, 0x36, 2, RawOperand::Reg { register: "rdx".to_string() });
    assert!(matches!(&reg.instruction, InstructionType::Register(r, None) if r == "rdx"));
}

#[test]
fn calls_route_by_debug_info_file() {
    let program = sample_program();
    let own = classify_call(&program, 0x10, 5, RawOperand::Direct { target: 0x1000 });
    let inlined = classify_call(&program, 0x20, 5, RawOperand::Direct { target: 0x7777 });
    let frame = create_frame_info(
        FunctionName::new("foo".to_string()),
        "foo.c".to_string(),
        42,
        vec![
            LocatedCall { call: own.clone(), file: "foo.c".to_string(), line: 50 },
            LocatedCall { call: inlined.clone(), file: "vector.h".to_string(), line: 9 },
        ],
    );
    // The call from the frame's own file is attached to its line; the
    // inlined one is never attached.
    assert_eq!(frame.called_lines(), vec![50]);
    let stack = TraceStack::new("/bin/prog".to_string(), frame);
    let on50 = stack.get_callsites(50);
    assert_eq!(on50.len(), 1);
    assert!(on50[0].same_as(&own));
    let unattached = stack.get_unattached_callsites();
    assert_eq!(unattached.len(), 1);
    assert!(unattached[0].same_as(&inlined));
}

#[test]
fn several_calls_on_one_line_keep_arrival_order() {
    let a = CallInstruction::unknown(4, 5);
    let b = CallInstruction::unknown(9, 5);
    let frame = create_frame_info(
        FunctionName::new("foo".to_string()),
        "foo.c".to_string(),
        1,
        vec![
            LocatedCall { call: a.clone(), file: "foo.c".to_string(), line: 7 },
            LocatedCall { call: b.clone(), file: "foo.c".to_string(), line: 7 },
        ],
    );
    let stack = TraceStack::new("/bin/prog".to_string(), frame);
    let on7 = stack.get_callsites(7);
    assert_eq!(on7.len(), 2);
    assert!(on7[0].same_as(&a));
    assert!(on7[1].same_as(&b));
}

#[test]
fn only_direct_calls_offer_a_descend_target() {
    let callsites = vec![
        CallInstruction::function(0, 5, FunctionName::new("bar".to_string())),
        CallInstruction::unknown(5, 5),
        CallInstruction::register(10, 2, "rax".to_string(), None),
        CallInstruction::manual(12, 8),
        CallInstruction::dynamic_symbol(20, 5, FunctionName::new("baz".to_string())),
    ];
    let targets = descend_targets(&callsites);
    assert_eq!(targets.len(), 2);
    assert_eq!(targets[0].0, "bar");
    assert_eq!(targets[1].0, "baz");
}

#[test]
fn advanced_mode_lasts_one_second() {
    let mut handler = KeyHandler::new();
    assert!(!handler.is_advanced_mode(100));
    handler.advanced_mode_key_pressed(100);
    assert!(handler.is_advanced_mode(100));
    assert!(handler.is_advanced_mode(1099));
    assert!(!handler.is_advanced_mode(1100));
    handler.advanced_mode_key_pressed(2000);
    assert!(handler.is_advanced_mode(2500));
    handler.clear_advanced_mode();
    assert!(!handler.is_advanced_mode(2500));
}
