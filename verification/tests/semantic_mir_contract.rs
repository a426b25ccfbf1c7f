use nyar_mir::executable::{
    Block, BlockRef, Constant, DispatchKind, IntrinsicOpcode, ExecutableFunction, Instruction, InstructionKind, Operand, Terminator, ValueRef,
    ValueTypes,
};
use nyar_mir::executable_provider::MirFunctionMapProvider;
use nyar_mir::layout::{AggregateLayout, AggregateLayoutPlan, FieldLayout, StorageKind, SumTypeLayout, SumVariantLayout};
use nyar_mir::names::{NamePath, QualifiedName};
use nyar_mir::semantic_mir_contract::{
    function_owner_from_symbol, observation, observation_site, validate_aggregate_layouts, validate_function,
    validate_submission, FragmentSubmission,
};
use nyar_mir::types::{copy_type, NyarType};

fn function(instructions: Vec<Instruction>, terminator: Terminator, value_types: ValueTypes<NyarType>) -> ExecutableFunction {
    ExecutableFunction {
        symbol: "contract_fixture".to_string(),
        return_type: NyarType::Unit,
        param_types: Vec::new(),
        value_types,
        entry: BlockRef(0),
        values: Vec::new(),
        suspend_points: Vec::new(),
        frame_layouts: Vec::new(),
        continuations: Vec::new(),
        case_chains: Vec::new(),
        suspend_plan: None,
        state_machine_lowered: true,
        blocks: vec![Block { id: BlockRef(0), label: "entry".to_string(), parameters: Vec::new(), instructions, terminator }],
    }
}

fn untyped_copy() -> Instruction {
    Instruction { results: vec![ValueRef(7)], kind: InstructionKind::Copy { source: Operand::Constant(Constant::Unit) } }
}

#[test]
fn rejects_instruction_output_without_semantic_type() {
    let result = validate_function(&function(vec![untyped_copy()], Terminator::Return { value: None }, ValueTypes::new()));
    assert_eq!(result.unwrap_err().code, "SMIR001");
}

#[test]
fn rejects_residual_pattern_match() {
    let result = validate_function(&function(
        vec![Instruction {
            results: Vec::new(),
            kind: InstructionKind::PatternMatch {
                value: Operand::Constant(Constant::Unit),
                pattern_debug: "fixture".to_string(),
            },
        }],
        Terminator::Return { value: None },
        ValueTypes::new(),
    ));
    assert_eq!(result.unwrap_err().code, "SMIR008");
}

#[test]
fn accepts_minimal_semantic_function() {
    let result = validate_function(&function(Vec::new(), Terminator::Return { value: None }, ValueTypes::new()));
    assert!(result.is_ok());
}

#[test]
fn rejects_nominal_sum_without_layout_metadata() {
    let mut submission = FragmentSubmission::default();
    submission.sum_types.push(SumTypeLayout {
        name: "Option".to_string(),
        is_unite: true,
        tag_width: 0,
        variants: vec![SumVariantLayout {
            name: "Some".to_string(),
            tag: 0,
            payload_type: Some(NyarType::Integer32 { signed: true }),
        }],
    });
    let result = validate_submission(&submission);
    assert_eq!(result.unwrap_err().code, "SMIR006");
}

#[test]
fn rejects_nominal_sum_with_duplicate_variant_tag() {
    let mut submission = FragmentSubmission::default();
    submission.sum_types.push(SumTypeLayout {
        name: "Choice".to_string(),
        is_unite: true,
        tag_width: 32,
        variants: vec![
            SumVariantLayout { name: "Left".to_string(), tag: 0, payload_type: None },
            SumVariantLayout { name: "Right".to_string(), tag: 0, payload_type: None },
        ],
    });
    let result = validate_submission(&submission);
    assert_eq!(result.unwrap_err().code, "SMIR006");
}

#[test]
fn observation_is_stable_and_does_not_include_backend_names() {
    let result = validate_function(&function(Vec::new(), Terminator::Return { value: None }, ValueTypes::new()));
    assert_eq!(observation("valid_minimal", result.as_ref().map(|_| ()).map_err(|error| error)), "valid_minimal|accept||");

    let result = validate_function(&function(vec![untyped_copy()], Terminator::Return { value: None }, ValueTypes::new()));
    assert_eq!(
        observation("missing_value_type", result.as_ref().map(|_| ()).map_err(|error| error)),
        "missing_value_type|reject|SMIR001|block 0 instruction 0"
    );
}

#[test]
fn rejects_missing_entry_block() {
    let mut f = function(Vec::new(), Terminator::Return { value: None }, ValueTypes::new());
    f.entry = BlockRef(3);
    let error = validate_function(&f).unwrap_err();
    assert_eq!(error.code, "SMIR009");
    assert_eq!(error.location, "entry");
    assert_eq!(error.function, "contract_fixture");
}

#[test]
fn rejects_non_boolean_branch_condition() {
    let mut value_types = ValueTypes::new();
    value_types.insert(ValueRef(1), NyarType::Integer32 { signed: true });
    let f = function(
        Vec::new(),
        Terminator::Branch { condition: Operand::Value(ValueRef(1)), then_target: BlockRef(0), else_target: BlockRef(0) },
        value_types,
    );
    assert_eq!(validate_function(&f).unwrap_err().code, "SMIR007");
}

#[test]
fn accepts_boolean_branch_condition() {
    let mut value_types = ValueTypes::new();
    value_types.insert(ValueRef(1), NyarType::Boolean);
    let f = function(
        Vec::new(),
        Terminator::Branch { condition: Operand::Value(ValueRef(1)), then_target: BlockRef(0), else_target: BlockRef(0) },
        value_types,
    );
    assert!(validate_function(&f).is_ok());
}

#[test]
fn rejects_unresolved_static_call() {
    let mut value_types = ValueTypes::new();
    value_types.insert(ValueRef(1), NyarType::Unit);
    let caller = function(
        vec![Instruction {
            results: vec![ValueRef(1)],
            kind: InstructionKind::Call {
                dispatch: DispatchKind::Static,
                callee: Operand::Symbol(NamePath::new(vec!["missing_helper".to_string()])),
                arguments: Vec::new(),
                witness: None,
                effect: None,
                receiver_kind: None,
                parameter_types: None,
                intrinsic_opcode: None,
            },
        }],
        Terminator::Return { value: None },
        value_types,
    );
    let operation = QualifiedName::new(vec!["main".to_string(), "caller".to_string()]);
    let mut submission = FragmentSubmission::default();
    submission.executable = Some(MirFunctionMapProvider::new(vec![(operation, caller)]));
    assert_eq!(validate_submission(&submission).unwrap_err().code, "SMIR003");
}

#[test]
fn rejects_degenerate_aggregate_layout() {
    let plan = AggregateLayoutPlan {
        layouts: vec![AggregateLayout {
            id: 1,
            name: "Point".to_string(),
            namespace: String::new(),
            storage: StorageKind::Value,
            size: 0,
            align: 8,
            fields: vec![FieldLayout { name: "x".to_string(), ty: NyarType::Integer32 { signed: true }, offset: 0, size: 4, align: 4 }],
        }],
    };
    assert_eq!(validate_aggregate_layouts(&plan).unwrap_err().code, "SMIR010");
}

#[test]
fn observation_sites_and_owners() {
    assert_eq!(observation_site("entry"), "entry");
    assert_eq!(observation_site("block 0 instruction 2"), "instruction");
    assert_eq!(observation_site("block 1 terminator"), "block");
    assert_eq!(observation_site("aggregate layout"), "module");
    assert_eq!(observation_site("operation"), "function");
    assert_eq!(function_owner_from_symbol("pkg::Owner.method"), Some("Owner".to_string()));
    assert_eq!(function_owner_from_symbol("free_function"), None);
}

fn text_load(constant: Constant, ty: Option<NyarType>) -> Instruction {
    Instruction { results: vec![ValueRef(3)], kind: InstructionKind::LoadConstant { constant, ty } }
}

#[test]
fn text_constant_typed_by_its_encoding_is_accepted() {
    let mut value_types = ValueTypes::new();
    value_types.insert(ValueRef(3), NyarType::Utf8);
    let f = function(
        vec![text_load(Constant::Utf8("hi".to_string()), Some(NyarType::Utf8))],
        Terminator::Return { value: None },
        value_types,
    );
    assert!(validate_function(&f).is_ok());
}

#[test]
fn text_constant_with_other_encoding_is_rejected_at_its_instruction() {
    let mut value_types = ValueTypes::new();
    value_types.insert(ValueRef(3), NyarType::Utf8);
    let f = function(
        vec![text_load(Constant::Utf8("hi".to_string()), Some(NyarType::Utf16))],
        Terminator::Return { value: None },
        value_types,
    );
    let e = validate_function(&f).unwrap_err();
    assert_eq!(e.code, "SMIR007");
    assert_eq!(e.location, "block 0 instruction 0");
    let mut utf16_result = ValueTypes::new();
    utf16_result.insert(ValueRef(3), NyarType::Utf16);
    let g = function(
        vec![text_load(Constant::Utf16("hi".to_string()), Some(NyarType::Utf16))],
        Terminator::Return { value: None },
        utf16_result,
    );
    assert!(validate_function(&g).is_ok());
    let mut mismatched_result = ValueTypes::new();
    mismatched_result.insert(ValueRef(3), NyarType::Utf8);
    let h = function(
        vec![text_load(Constant::Utf16("hi".to_string()), Some(NyarType::Utf16))],
        Terminator::Return { value: None },
        mismatched_result,
    );
    assert_eq!(validate_function(&h).unwrap_err().code, "SMIR007");
}

#[test]
fn submission_reports_sum_errors_before_layout_errors() {
    let mut submission = FragmentSubmission::default();
    submission.sum_types = vec![SumTypeLayout { name: String::new(), is_unite: false, tag_width: 1, variants: Vec::new() }];
    submission.aggregate_layouts = AggregateLayoutPlan {
        layouts: vec![AggregateLayout {
            id: 1,
            name: String::new(),
            namespace: String::new(),
            storage: StorageKind::Value,
            size: 0,
            align: 0,
            fields: Vec::new(),
        }],
    };
    assert_eq!(validate_submission(&submission).unwrap_err().code, "SMIR006");
    submission.sum_types = Vec::new();
    assert_eq!(validate_submission(&submission).unwrap_err().code, "SMIR010");
    submission.aggregate_layouts = AggregateLayoutPlan { layouts: Vec::new() };
    assert!(validate_submission(&submission).is_ok());
}

fn intrinsic_call(callee: &[&str], arguments: Vec<Operand>, parameter_types: Vec<NyarType>, opcode: IntrinsicOpcode) -> InstructionKind {
    InstructionKind::Call {
        dispatch: DispatchKind::Static,
        callee: Operand::Symbol(NamePath::new(callee.iter().map(|p| p.to_string()).collect())),
        arguments,
        witness: None,
        effect: None,
        receiver_kind: None,
        parameter_types: Some(parameter_types),
        intrinsic_opcode: Some(opcode),
    }
}

fn sum_equal_fixture(left_ty: NyarType, right_ty: NyarType, include_result_type: bool) -> Result<(), nyar_mir::semantic_mir_contract::SemanticMirContractError> {
    let left = ValueRef(20);
    let right = ValueRef(21);
    let result = ValueRef(22);
    let mut value_types = ValueTypes::new();
    value_types.insert(left, copy_type(&left_ty));
    value_types.insert(right, copy_type(&right_ty));
    if include_result_type {
        value_types.insert(result, NyarType::Boolean);
    }
    validate_function(&function(
        vec![Instruction {
            results: vec![result],
            kind: intrinsic_call(
                &["primitive", "sum_equal"],
                vec![Operand::Value(left), Operand::Value(right)],
                vec![left_ty, right_ty],
                IntrinsicOpcode::SumStructuralEqual,
            ),
        }],
        Terminator::Return { value: Some(Operand::Value(result)) },
        value_types,
    ))
}

#[test]
fn accepts_structural_sum_equality_for_same_nominal_type() {
    let ty = NyarType::Named("TokenKind".to_string());
    assert!(sum_equal_fixture(copy_type(&ty), ty, true).is_ok());
}

#[test]
fn rejects_structural_sum_equality_for_different_nominal_types() {
    let result = sum_equal_fixture(NyarType::Named("Left".to_string()), NyarType::Named("Right".to_string()), true);
    assert_eq!(result.unwrap_err().code, "SMIR005");
}

#[test]
fn rejects_structural_sum_equality_without_result_type() {
    let ty = NyarType::Named("TokenKind".to_string());
    assert_eq!(sum_equal_fixture(copy_type(&ty), ty, false).unwrap_err().code, "SMIR001");
}

fn i32_array() -> NyarType {
    NyarType::Array(Box::new(NyarType::Integer32 { signed: true }))
}

#[test]
fn aggregate_array_sum_contract_uses_structured_array_len() {
    let receiver = ValueRef(10);
    let output = ValueRef(11);
    let mut value_types = ValueTypes::new();
    value_types.insert(receiver, i32_array());
    value_types.insert(output, NyarType::Integer32 { signed: true });
    let result = validate_function(&function(
        vec![Instruction {
            results: vec![output],
            kind: intrinsic_call(&["unrelated", "operation"], vec![Operand::Value(receiver)], vec![i32_array()], IntrinsicOpcode::ArrayLen),
        }],
        Terminator::Return { value: Some(Operand::Value(output)) },
        value_types,
    ));
    assert_eq!(
        observation("aggregate_array_sum.valid_array_len", result.as_ref().map(|_| ())),
        "aggregate_array_sum.valid_array_len|accept||"
    );
}

#[test]
fn aggregate_array_sum_rejects_array_len_arity_without_symbol_inference() {
    let receiver = ValueRef(10);
    let output = ValueRef(11);
    let mut value_types = ValueTypes::new();
    value_types.insert(receiver, i32_array());
    value_types.insert(output, NyarType::Integer32 { signed: true });
    let result = validate_function(&function(
        vec![Instruction {
            results: vec![output],
            kind: intrinsic_call(
                &["array", "length", "without", "contract"],
                vec![Operand::Value(receiver), Operand::Constant(Constant::Unit)],
                vec![i32_array(), NyarType::Unit],
                IntrinsicOpcode::ArrayLen,
            ),
        }],
        Terminator::Return { value: Some(Operand::Value(output)) },
        value_types,
    ));
    assert_eq!(
        observation("aggregate_array_sum.invalid_array_len_arity", result.as_ref().map(|_| ())),
        "aggregate_array_sum.invalid_array_len_arity|reject|SMIR004|block 0 instruction 0"
    );
}

fn scalar_length_fixture(receiver_type: NyarType) -> Result<(), nyar_mir::semantic_mir_contract::SemanticMirContractError> {
    let receiver = ValueRef(20);
    let output = ValueRef(21);
    let mut value_types = ValueTypes::new();
    value_types.insert(receiver, copy_type(&receiver_type));
    value_types.insert(output, NyarType::Integer32 { signed: true });
    validate_function(&function(
        vec![Instruction {
            results: vec![output],
            kind: intrinsic_call(
                &["unrelated", "operation"],
                vec![Operand::Value(receiver)],
                vec![receiver_type],
                IntrinsicOpcode::Utf8ScalarLength,
            ),
        }],
        Terminator::Return { value: Some(Operand::Value(output)) },
        value_types,
    ))
}

#[test]
fn text_contract_uses_structured_unicode_scalar_length() {
    let result = scalar_length_fixture(NyarType::Utf8);
    assert_eq!(observation("text.valid_scalar_length", result.as_ref().map(|_| ())), "text.valid_scalar_length|accept||");
}

#[test]
fn text_contract_rejects_utf16_for_utf8_scalar_length() {
    let result = scalar_length_fixture(NyarType::Utf16);
    assert_eq!(
        observation("text.invalid_scalar_length_receiver", result.as_ref().map(|_| ())),
        "text.invalid_scalar_length_receiver|reject|SMIR005|block 0 instruction 0"
    );
}

#[test]
fn non_unit_return_must_be_compatible() {
    let mut value_types = ValueTypes::new();
    value_types.insert(ValueRef(1), NyarType::Boolean);
    let mut f = function(Vec::new(), Terminator::Return { value: Some(Operand::Value(ValueRef(1))) }, value_types);
    assert!(validate_function(&f).is_ok());
    f.return_type = NyarType::Integer32 { signed: true };
    let e = validate_function(&f).unwrap_err();
    assert_eq!(e.code, "SMIR007");
    assert_eq!(e.location, "block 0 terminator");
    f.return_type = NyarType::Boolean;
    assert!(validate_function(&f).is_ok());
}

#[test]
fn sum_equality_arity_is_checked() {
    let mut value_types = ValueTypes::new();
    value_types.insert(ValueRef(20), NyarType::Named("TokenKind".to_string()));
    value_types.insert(ValueRef(22), NyarType::Boolean);
    let f = function(
        vec![Instruction {
            results: vec![ValueRef(22)],
            kind: intrinsic_call(
                &["primitive", "sum_equal"],
                vec![Operand::Value(ValueRef(20))],
                vec![NyarType::Named("TokenKind".to_string())],
                IntrinsicOpcode::SumStructuralEqual,
            ),
        }],
        Terminator::Return { value: None },
        value_types,
    );
    assert_eq!(validate_function(&f).unwrap_err().code, "SMIR004");
}
