use starforge::gas_profiler::builder::op;
use starforge::gas_profiler::builder::ModuleBuilder;
use starforge::gas_profiler::wasm::{decode, is_wasm, DecodeError};

fn cat(ops: &[Vec<u8>]) -> Vec<u8> {
    ops.concat()
}

#[test]
fn rejects_non_wasm() {
    assert!(decode(b"hello world!").is_err());
}

#[test]
fn decodes_minimal_module() {
    let m = decode(&[0x00, 0x61, 0x73, 0x6d, 0x01, 0x00, 0x00, 0x00]).unwrap();
    assert!(m.functions.is_empty());
    assert_eq!(m.size_bytes, 8);
}

#[test]
fn counts_host_calls_and_loops() {
    let wasm = ModuleBuilder::new()
        .import("l", "1")
        .import("l", "_")
        .func(
            Some("transfer"),
            cat(&[
                op::call(0),
                op::drop(),
                op::loop_start(),
                op::call(1),
                op::drop(),
                op::i32_const_zero(),
                op::br_if(0),
                op::end(),
            ]),
        )
        .build();
    let m = decode(&wasm).unwrap();
    assert_eq!(m.imports.len(), 2);
    assert_eq!(m.imports[0].host_name.as_deref(), Some("get_contract_data"));
    let f = &m.functions[0];
    assert_eq!(f.name.as_deref(), Some("transfer"));
    assert_eq!(f.loop_count, 1);
    assert_eq!(f.max_loop_depth, 1);
    assert_eq!(f.host_calls.get(&0), Some(&1));
    assert_eq!(f.host_calls.get(&1), Some(&1));
    assert_eq!(f.host_calls_in_loops.get(&1), Some(&1));
    assert!(f.host_calls_in_loops.get(&0).is_none());
    assert!(f.decode_error.is_none());
    // call, drop, loop, call, drop, i32.const, br_if, end, end
    assert_eq!(f.instruction_count, 9);
}

#[test]
fn immediates_are_not_counted_as_opcodes() {
    // i64.const with a multi-byte LEB whose bytes look like call opcodes
    let code = vec![0x42, 0x90, 0x90, 0x10, 0x1A];
    let wasm = ModuleBuilder::new().func(Some("f"), code).build();
    let m = decode(&wasm).unwrap();
    let f = &m.functions[0];
    assert!(f.decode_error.is_none(), "{:?}", f.decode_error);
    assert_eq!(f.instruction_count, 3);
    assert!(f.host_calls.is_empty());
}

#[test]
fn detects_soroban_rejected_features() {
    let wasm = ModuleBuilder::new()
        .func(Some("f"), cat(&[op::f64_const_zero(), op::drop()]))
        .start(0)
        .build();
    let m = decode(&wasm).unwrap();
    assert!(m.has_start);
    assert!(m.functions[0]
        .rejected_features
        .contains(&"floating-point".to_string()));
}

#[test]
fn tracks_direct_calls_and_names() {
    let wasm = ModuleBuilder::new()
        .func(None, vec![])
        .func(Some("entry"), cat(&[op::call(0)]))
        .custom("contractspecv0", vec![1, 2, 3])
        .custom("producers", vec![0; 64])
        .build();
    let m = decode(&wasm).unwrap();
    assert_eq!(m.functions[1].direct_calls.get(&0), Some(&1));
    assert_eq!(m.function_exports().len(), 1);
    assert!(m.custom_sections.iter().any(|(n, _)| n == "contractspecv0"));
    // producers is strippable, contractspecv0 is not
    assert!(m.strippable_custom_bytes() >= 64);
    assert!(m.strippable_custom_bytes() < 64 + 20);
}

#[test]
fn simd_is_reported_not_fatal() {
    let wasm = ModuleBuilder::new()
        .func(Some("f"), vec![0xFD, 0x00])
        .func(Some("g"), vec![])
        .build();
    let m = decode(&wasm).unwrap();
    assert!(m.functions[0].decode_error.is_some());
    assert!(m.functions[1].decode_error.is_none());
}

#[test]
fn wrong_magic_or_short_input_is_not_wasm() {
    assert!(is_wasm(&[0x00, 0x61, 0x73, 0x6d, 0x01, 0x00, 0x00, 0x00]));
    assert!(!is_wasm(&[0x00, 0x61, 0x73, 0x6e, 0x01, 0x00, 0x00, 0x00]));
    assert!(!is_wasm(&[0x00, 0x61, 0x73, 0x6d]));
    assert_eq!(
        decode(&[0x01, 0x61, 0x73, 0x6d, 0x01, 0x00, 0x00, 0x00]).unwrap_err(),
        DecodeError::NotWasm
    );
}

#[test]
fn truncated_section_is_an_error() {
    // section id 1 announcing 5 bytes with none present
    let bytes = [0x00, 0x61, 0x73, 0x6d, 0x01, 0x00, 0x00, 0x00, 0x01, 0x05];
    assert!(decode(&bytes).is_err());
}

#[test]
fn export_names_and_indices_follow_imports() {
    let wasm = ModuleBuilder::new()
        .import("l", "1")
        .func(Some("a"), vec![])
        .func(None, vec![])
        .func(Some("c"), vec![])
        .build();
    let m = decode(&wasm).unwrap();
    assert_eq!(m.imported_function_count(), 1);
    let ex = m.function_exports();
    assert_eq!(ex.len(), 2);
    assert_eq!(ex[0].name, "a");
    assert_eq!(ex[0].index, 1);
    assert_eq!(ex[1].name, "c");
    assert_eq!(ex[1].index, 3);
    assert_eq!(m.body_for_function(3).unwrap().name.as_deref(), Some("c"));
    assert!(m.body_for_function(0).is_none());
    assert_eq!(m.import_for_function(0).unwrap().field, "1");
    assert!(m.import_for_function(1).is_none());
}

#[test]
fn total_instructions_sums_bodies() {
    let wasm = ModuleBuilder::new()
        .func(Some("f"), cat(&[op::i64_const_small(5), op::drop()]))
        .func(Some("g"), vec![])
        .build();
    let m = decode(&wasm).unwrap();
    // f: i64.const, drop, end; g: end
    assert_eq!(m.total_instructions(), 4);
}

#[test]
fn decode_error_messages_name_the_offset() {
    let msg = DecodeError::UnexpectedEnd { offset: 12 }.message();
    assert!(msg.contains("12"));
    assert!(!DecodeError::NotWasm.message().is_empty());
}

#[test]
fn decode_errors_describe_the_failure() {
    assert_eq!(DecodeError::NotWasm.message(), "not a WebAssembly module (magic bytes mismatch)");
    assert_eq!(
        DecodeError::UnexpectedEnd { offset: 12 }.message(),
        "unexpected end of wasm data at offset 12"
    );
    assert_eq!(DecodeError::UnsupportedTypeForm(0x5f).message(), "unsupported type form 0x5f");
    assert_eq!(DecodeError::UnknownOpcode(0xd2).message(), "unknown opcode 0xd2");
    assert_eq!(DecodeError::UnknownImportKind(7).message(), "unknown import kind 7");
    assert_eq!(
        DecodeError::TooManyFunctions(100001).message(),
        "module declares 100001 functions (limit 100000)"
    );
    assert_eq!(
        DecodeError::TooManyBodies(3).message(),
        "code section has 3 bodies (limit 100000)"
    );
    assert_eq!(DecodeError::UnknownFcSubOpcode(18).message(), "unknown 0xFC sub-opcode 18");
}

#[test]
fn nested_blocks_and_loop_calls_are_counted() {
    let wasm = ModuleBuilder::new()
        .import("l", "1")
        .func(
            Some("f"),
            cat(&[
                op::loop_start(),
                op::block_start(),
                op::end(),
                op::call(0),
                op::end(),
                op::call(0),
            ]),
        )
        .build();
    let m = decode(&wasm).unwrap();
    assert_eq!(m.imports[0].host_name.as_deref(), Some("get_contract_data"));
    let g = &m.functions[0];
    assert_eq!(g.name.as_deref(), Some("f"));
    assert!(g.decode_error.is_none());
    assert_eq!(g.instruction_count, 7);
    assert_eq!(g.loop_count, 1);
    assert_eq!(g.max_loop_depth, 1);
    assert_eq!(g.max_block_depth, 2);
    assert_eq!(g.host_calls.get(&0), Some(&2));
    assert_eq!(g.host_calls_in_loops.get(&0), Some(&1));
    assert!(g.direct_calls.is_empty());
}

#[test]
fn branches_memory_and_indirect_calls_are_counted() {
    // loop { br_if 0 } ; i32.const 0 ; i32.load ; i32.const 0 ; i32.const 0 ;
    // i32.store ; i32.const 0 ; memory.grow ; drop ; i32.const 0 ;
    // call_indirect (type 0, table 0) ; memory.copy via 0xFC 10
    let code = cat(&[
        op::loop_start(),
        op::i32_const_zero(),
        op::br_if(0),
        op::end(),
        op::i32_const_zero(),
        vec![0x28, 0x02, 0x00],
        op::drop(),
        op::i32_const_zero(),
        op::i32_const_zero(),
        vec![0x36, 0x02, 0x00],
        op::i32_const_zero(),
        vec![0x40, 0x00],
        op::drop(),
        op::i32_const_zero(),
        vec![0x11, 0x00, 0x00],
        op::i32_const_zero(),
        op::i32_const_zero(),
        op::i32_const_zero(),
        vec![0xFC, 0x0A, 0x00, 0x00],
    ]);
    let wasm = ModuleBuilder::new().func(Some("g"), code).build();
    let m = decode(&wasm).unwrap();
    let g = &m.functions[0];
    assert!(g.decode_error.is_none());
    assert_eq!(g.branch_count, 1);
    assert_eq!(g.memory_loads, 1);
    assert_eq!(g.memory_stores, 1);
    assert_eq!(g.memory_grow, 1);
    assert_eq!(g.call_indirect_count, 1);
    assert_eq!(g.bulk_memory_ops, 1);
    assert_eq!(g.loop_count, 1);
}

#[test]
fn float_operations_are_counted() {
    // f64.const 0 ; drop ; f64.const 0 ; drop
    let code = cat(&[op::f64_const_zero(), op::drop(), op::f64_const_zero(), op::drop()]);
    let wasm = ModuleBuilder::new().func(Some("h"), code).build();
    let m = decode(&wasm).unwrap();
    let h = &m.functions[0];
    assert!(h.decode_error.is_none());
    assert_eq!(h.float_ops, 2);
    assert!(h.rejected_features.iter().any(|f| f == "floating-point"));
}

#[test]
fn rejected_constructs_are_listed_in_order() {
    // return_call 0 ; f64.const 0 ; drop ; block (multi-value type index 0) end
    let code = cat(&[vec![0x12, 0x00], op::f64_const_zero(), op::drop(), vec![0x02, 0x00], op::end()]);
    let wasm = ModuleBuilder::new().import("l", "1").func(Some("t"), code).build();
    let m = decode(&wasm).unwrap();
    let t = &m.functions[0];
    assert!(t.decode_error.is_none());
    assert_eq!(t.rejected_features, vec!["floating-point", "multi-value", "tail-call"]);
}

#[test]
fn truncated_modules_are_not_reported_as_foreign() {
    let e = decode(&[0x00, 0x61, 0x73, 0x6d, 0x01, 0x00, 0x00, 0x00, 0x01]).unwrap_err();
    assert!(!matches!(e, DecodeError::NotWasm));
    let e = decode(&[0x00, 0x61, 0x73, 0x6d, 0x01, 0x00, 0x00, 0x00, 0x01, 0x05, 0x01]).unwrap_err();
    assert!(!matches!(e, DecodeError::NotWasm));
}
