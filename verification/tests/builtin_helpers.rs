use nyar_mir::builtin_helpers::{
    array_index_call_output_type, collect_intrinsic_opcodes, extract_intrinsic_opcode, intrinsic_opcode_for_function,
    intrinsic_opcode_for_operator, intrinsic_opcode_output_type, is_array_len_intrinsic_symbol,
    is_language_builtin_array_push_symbol, is_ref_deref_intrinsic_symbol, plain_type_pattern_matches, HirFunction,
    HirModule,
};
use nyar_mir::executable::ValueTypes;
use nyar_mir::export_spec::HirAttribute;
use nyar_mir::hosts::{napi_placeholder, wasm_placeholder};
use nyar_mir::mir::ValkyrieType;
use nyar_mir::names::{NamePath, QualifiedName};
use nyar_mir::suspend_payload::{build_first_class_suspend_payload, build_state_machine_suspend_payload};

fn path(parts: &[&str]) -> NamePath {
    NamePath::new(parts.iter().map(|p| p.to_string()).collect())
}

#[test]
fn intrinsic_queries_fail_closed() {
    let function = HirFunction { name: "f".to_string(), annotations: Vec::new() };
    let module = HirModule { name: path(&["m"]), functions: vec![HirFunction { name: "g".to_string(), annotations: Vec::new() }] };
    let attribute = HirAttribute { name: path(&["intrinsic"]), arguments: Vec::new() };
    assert!(!plain_type_pattern_matches(&ValkyrieType::Boolean, &path(&["bool"])));
    assert!(collect_intrinsic_opcodes(&module).is_empty());
    assert!(intrinsic_opcode_for_function(&function).is_none());
    assert!(extract_intrinsic_opcode(&attribute).is_none());
    assert!(intrinsic_opcode_output_type(&(), &[], &ValueTypes::new()).is_none());
    assert!(intrinsic_opcode_for_operator("infix +").is_none());
    assert!(array_index_call_output_type(&[], &ValueTypes::new()).is_none());
}

#[test]
fn builtin_symbols_by_name() {
    assert!(is_array_len_intrinsic_symbol(&path(&["std", "collection", "__array_len"])));
    assert!(!is_array_len_intrinsic_symbol(&path(&["__array_len", "other"])));
    assert!(!is_array_len_intrinsic_symbol(&path(&[])));
    assert!(is_ref_deref_intrinsic_symbol(&path(&["marker", "__ref_deref"])));
    assert!(!is_ref_deref_intrinsic_symbol(&path(&["marker", "deref"])));
    assert!(is_language_builtin_array_push_symbol(&path(&["builtin", "array", "push"])));
    assert!(!is_language_builtin_array_push_symbol(&path(&["builtin", "array"])));
    assert!(!is_language_builtin_array_push_symbol(&path(&["builtin", "vector", "push"])));
}

#[test]
fn host_binding_names() {
    assert_eq!(wasm_placeholder(), "nyar-wasm");
    assert_eq!(napi_placeholder(), "nyar-napi");
}

#[test]
fn suspend_payloads_are_empty_for_semantic_functions() {
    let module = HirModule { name: path(&["m"]), functions: vec![HirFunction { name: "run".to_string(), annotations: Vec::new() }] };
    let operations = vec![QualifiedName::new(vec!["m".to_string(), "run".to_string()])];
    assert!(build_state_machine_suspend_payload(&module, &operations).functions.is_empty());
    assert!(build_first_class_suspend_payload(&module, &operations).functions.is_empty());
}
