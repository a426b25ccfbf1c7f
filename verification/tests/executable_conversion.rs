use nyar_mir::executable::{BlockRef, DispatchKind, Constant, InstructionKind, Operand, Terminator, ValueOrigin, ValueRef, ValueTypes};
use nyar_mir::executable_conversion::{
    concretize_type_lossy, convert_instruction_kind, mir_function_to_executable, mir_functions_to_executable_map,
};
use nyar_mir::mir::{
    MirBlock, MirConstant, MirFunction, MirInstruction, MirOperand, MirOperation, MirTerminator, MirValue, MirValueOrigin,
    ValkyrieType,
};
use nyar_mir::names::{NamePath, QualifiedName};
use nyar_mir::types::NyarType;

fn sample_function(symbol: &str) -> MirFunction {
    let mut value_types = ValueTypes::new();
    value_types.insert(ValueRef(2), ValkyrieType::Integer128 { signed: false });
    value_types.insert(ValueRef(1), ValkyrieType::Array(Box::new(ValkyrieType::Integer32 { signed: true })));
    MirFunction {
        symbol: symbol.to_string(),
        return_type: ValkyrieType::Integer128 { signed: true },
        param_types: vec![ValkyrieType::Utf8, ValkyrieType::Named("Point".to_string())],
        value_types,
        entry: BlockRef(4),
        values: vec![MirValue { id: ValueRef(1), origin: MirValueOrigin::Parameter { index: 0, name: "xs".to_string() } }],
        blocks: vec![
            MirBlock {
                id: BlockRef(4),
                label: "entry".to_string(),
                parameters: Vec::new(),
                instructions: vec![MirInstruction {
                    results: vec![ValueRef(2)],
                    kind: MirOperation::Call {
                        callee: MirOperand::Symbol(NamePath::new(vec!["core".to_string(), "len".to_string()])),
                        arguments: vec![MirOperand::Value(ValueRef(1)), MirOperand::Constant(MirConstant::Int(3))],
                    },
                }],
                terminator: MirTerminator::Jump { target: BlockRef(5), arguments: vec![MirOperand::Value(ValueRef(2))] },
            },
            MirBlock {
                id: BlockRef(5),
                label: "exit".to_string(),
                parameters: vec![ValueRef(3)],
                instructions: Vec::new(),
                terminator: MirTerminator::Return { value: Some(MirOperand::Value(ValueRef(3))) },
            },
        ],
    }
}

#[test]
fn concretizes_types_structurally() {
    let t = ValkyrieType::Apply(
        Box::new(ValkyrieType::Named("Map".to_string())),
        vec![ValkyrieType::Utf8, ValkyrieType::Nullable(Box::new(ValkyrieType::Boolean))],
    );
    assert_eq!(
        concretize_type_lossy(&t),
        NyarType::Apply(
            Box::new(NyarType::Named("Map".to_string())),
            vec![NyarType::Utf8, NyarType::Nullable(Box::new(NyarType::Boolean))],
        )
    );
    assert_eq!(concretize_type_lossy(&ValkyrieType::Integer128 { signed: true }), NyarType::Named("i128".to_string()));
    assert_eq!(concretize_type_lossy(&ValkyrieType::Integer128 { signed: false }), NyarType::Named("u128".to_string()));
    assert_eq!(
        concretize_type_lossy(&ValkyrieType::Tuple(vec![ValkyrieType::Integer8 { signed: false }, ValkyrieType::Unit])),
        NyarType::Tuple(vec![NyarType::Integer8 { signed: false }, NyarType::Unit])
    );
}

#[test]
fn converts_operations_variant_by_variant() {
    let load = convert_instruction_kind(&MirOperation::LoadConstant {
        constant: MirConstant::Utf8("hi".to_string()),
        ty: Some(ValkyrieType::Utf8),
    });
    assert!(matches!(load, InstructionKind::LoadConstant { constant: Constant::Utf8(ref s), ty: Some(NyarType::Utf8) } if s == "hi"));
    let sum = convert_instruction_kind(&MirOperation::SumPayloadGet {
        sum_type: "Option".to_string(),
        type_args: vec![ValkyrieType::Integer64 { signed: true }],
        variant: "Some".to_string(),
        payload_type: ValkyrieType::Integer64 { signed: true },
        object: MirOperand::Value(ValueRef(9)),
    });
    match sum {
        InstructionKind::SumPayloadGet { sum_type, type_args, variant, payload_type, object } => {
            assert_eq!(sum_type, "Option");
            assert_eq!(type_args, vec![NyarType::Integer64 { signed: true }]);
            assert_eq!(variant, "Some");
            assert_eq!(payload_type, NyarType::Integer64 { signed: true });
            assert!(matches!(object, Operand::Value(ValueRef(9))));
        }
        other => panic!("unexpected conversion {other:?}"),
    }
    let fields = convert_instruction_kind(&MirOperation::StructNew {
        struct_name: "Point".to_string(),
        fields: vec![("x".to_string(), MirOperand::Value(ValueRef(1))), ("y".to_string(), MirOperand::Constant(MirConstant::Bool(true)))],
    });
    match fields {
        InstructionKind::StructNew { struct_name, fields } => {
            assert_eq!(struct_name, "Point");
            assert_eq!(fields.len(), 2);
            assert_eq!(fields[0].0, "x");
            assert!(matches!(fields[0].1, Operand::Value(ValueRef(1))));
            assert_eq!(fields[1].0, "y");
            assert!(matches!(fields[1].1, Operand::Constant(Constant::Bool(true))));
        }
        other => panic!("unexpected conversion {other:?}"),
    }
}

#[test]
fn converts_a_whole_function() {
    let f = mir_function_to_executable(&sample_function("demo::run"));
    assert_eq!(f.symbol, "demo::run");
    assert_eq!(f.return_type, NyarType::Named("i128".to_string()));
    assert_eq!(f.param_types, vec![NyarType::Utf8, NyarType::Named("Point".to_string())]);
    assert_eq!(f.entry, BlockRef(4));
    assert_eq!(f.value_types.len(), 2);
    assert_eq!(f.value_types.get(&ValueRef(1)), Some(&NyarType::Array(Box::new(NyarType::Integer32 { signed: true }))));
    assert_eq!(f.value_types.get(&ValueRef(2)), Some(&NyarType::Named("u128".to_string())));
    assert_eq!(f.values.len(), 1);
    assert!(matches!(f.values[0].origin, ValueOrigin::Parameter { index: 0, ref name } if name == "xs"));
    assert_eq!(f.blocks.len(), 2);
    assert_eq!(f.blocks[0].id, BlockRef(4));
    assert_eq!(f.blocks[0].label, "entry");
    assert_eq!(f.blocks[0].instructions.len(), 1);
    assert_eq!(f.blocks[0].instructions[0].results, vec![ValueRef(2)]);
    match &f.blocks[0].instructions[0].kind {
        InstructionKind::Call { dispatch, callee: Operand::Symbol(path), arguments, intrinsic_opcode, .. } => {
            assert_eq!(*dispatch, DispatchKind::Static);
            assert!(intrinsic_opcode.is_none());
            assert_eq!(path.parts, vec!["core".to_string(), "len".to_string()]);
            assert_eq!(arguments.len(), 2);
            assert!(matches!(arguments[1], Operand::Constant(Constant::Int(3))));
        }
        other => panic!("unexpected conversion {other:?}"),
    }
    assert!(matches!(&f.blocks[0].terminator, Terminator::Jump { target: BlockRef(5), arguments } if arguments.len() == 1));
    assert_eq!(f.blocks[1].parameters, vec![ValueRef(3)]);
    assert!(matches!(f.blocks[1].terminator, Terminator::Return { value: Some(Operand::Value(ValueRef(3))) }));
    assert!(f.suspend_points.is_empty());
    assert!(f.frame_layouts.is_empty());
    assert!(f.continuations.is_empty());
    assert!(f.case_chains.is_empty());
    assert!(f.suspend_plan.is_none());
}

#[test]
fn converts_many_functions_keyed_by_operation_keeping_the_last_pair() {
    let a = QualifiedName::new(vec!["demo".to_string(), "a".to_string()]);
    let b = QualifiedName::new(vec!["demo".to_string(), "b".to_string()]);
    let functions = vec![
        (b.clone(), sample_function("first_b")),
        (a.clone(), sample_function("only_a")),
        (b.clone(), sample_function("second_b")),
    ];
    let map = mir_functions_to_executable_map(&functions);
    let operations = map.operations();
    assert_eq!(operations.len(), 2);
    assert_eq!(map.get_function(&a).unwrap().function.symbol, "only_a");
    assert_eq!(map.get_function(&b).unwrap().function.symbol, "second_b");
}
