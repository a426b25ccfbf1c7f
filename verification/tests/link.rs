use nyar_mir::executable::{BlockRef, ValueRef, ValueTypes};
use nyar_mir::layout::{
    merge_aggregate_layout_plan, AggregateLayout, AggregateLayoutPlan, FieldLayout, StorageKind, SumTypeLayout,
    SumVariantLayout,
};
use nyar_mir::types::NyarType;
use nyar_mir::link::{
    collect_static_call_symbols, concrete_type_name, infer_hashmap_type_param_substitutions, is_type_parameter_name,
    link_dependencies_reporting_contributors, link_reachable_dependency_mir, mir_symbol_ends_with_simple, option_payload_type,
    resolve_concrete_method_need, rewrite_bare_unwrap_calls_to_sum_payload, rewrite_type_param_method_calls,
    simple_symbol_name, symbol_matches_need, symbol_satisfied, Substitutions,
};
use nyar_mir::mir::{
    MirBlock, MirFunction, MirInstruction, MirModule, MirOperand, MirOperation, MirStruct, MirTerminator, MirValue,
    MirValueOrigin, ValkyrieType,
};
use nyar_mir::names::NamePath;

fn empty_fn(symbol: &str) -> MirFunction {
    MirFunction {
        symbol: symbol.to_string(),
        return_type: ValkyrieType::Unit,
        param_types: Vec::new(),
        value_types: ValueTypes::new(),
        entry: BlockRef(0),
        values: Vec::new(),
        blocks: vec![MirBlock {
            id: BlockRef(0),
            label: "entry".into(),
            parameters: Vec::new(),
            instructions: Vec::new(),
            terminator: MirTerminator::Return { value: None },
        }],
    }
}

fn path(parts: &[&str]) -> NamePath {
    NamePath::new(parts.iter().map(|p| p.to_string()).collect())
}

fn call(parts: &[&str], arguments: Vec<MirOperand>, results: Vec<ValueRef>) -> MirInstruction {
    MirInstruction { results, kind: MirOperation::Call { callee: MirOperand::Symbol(path(parts)), arguments } }
}

fn call_fn(symbol: &str, callee: &str) -> MirFunction {
    let mut function = empty_fn(symbol);
    function.values.push(MirValue { id: ValueRef(0), origin: MirValueOrigin::Temporary });
    function.blocks[0].instructions.push(call(&[callee], Vec::new(), Vec::new()));
    function
}

fn bare_module(name: &str, functions: Vec<MirFunction>) -> MirModule {
    MirModule {
        name: name.into(),
        functions,
        structs: Vec::new(),
        aggregate_layouts: AggregateLayoutPlan { layouts: Vec::new() },
        sum_types: Vec::new(),
    }
}

fn symbols(module: &MirModule) -> Vec<String> {
    module.functions.iter().map(|function| function.symbol.clone()).collect()
}

fn named(name: &str) -> ValkyrieType {
    ValkyrieType::Named(name.to_string())
}

fn apply(base: &str, args: Vec<ValkyrieType>) -> ValkyrieType {
    ValkyrieType::Apply(Box::new(named(base)), args)
}

#[test]
fn links_bare_callee_from_dependency_qualified_symbol() {
    let mut consumer = bare_module("legion", vec![call_fn("legion::emitter_compile_project", "compile_project_from_source")]);
    let dependency =
        bare_module("nyar.language.valkyrie", vec![empty_fn("nyar.language.valkyrie::compile_project_from_source")]);
    link_reachable_dependency_mir(&mut consumer, &[dependency]);
    assert!(
        consumer.functions.iter().any(|function| function.symbol.ends_with("compile_project_from_source")),
        "symbols={:?}",
        symbols(&consumer)
    );
}

#[test]
fn merges_dependency_sum_types_into_consumer() {
    let mut consumer = bare_module("legion", vec![call_fn("legion::clr_local_slot_bytes", "typed_instr")]);
    let mut dep_fn = empty_fn("nyar.emitter::typed_instr");
    dep_fn.values.push(MirValue { id: ValueRef(0), origin: MirValueOrigin::Temporary });
    dep_fn.blocks[0].instructions.push(MirInstruction {
        results: Vec::new(),
        kind: MirOperation::SumNew {
            sum_type: "MsilOpcode".into(),
            type_args: Vec::new(),
            variant: "Stloc0".into(),
            payload_type: None,
            payload: None,
        },
    });
    let dependency = MirModule {
        name: "nyar.emitter".into(),
        functions: vec![dep_fn],
        structs: Vec::new(),
        aggregate_layouts: AggregateLayoutPlan { layouts: Vec::new() },
        sum_types: vec![SumTypeLayout {
            name: "MsilOpcode".into(),
            is_unite: false,
            tag_width: 4,
            variants: vec![SumVariantLayout { name: "Stloc0".into(), tag: 0, payload_type: None }],
        }],
    };
    link_reachable_dependency_mir(&mut consumer, &[dependency]);
    assert!(
        consumer.sum_types.iter().any(|sum| sum.name == "MsilOpcode"),
        "linked dependency sum layouts must survive into consumer MIR"
    );
}

#[test]
fn links_transitively_and_keeps_local_functions() {
    let mut consumer = bare_module("app", vec![call_fn("app::main", "first"), empty_fn("app::second")]);
    let mut first = call_fn("lib::first", "second");
    first.blocks[0].instructions.push(call(&["third"], Vec::new(), Vec::new()));
    let third = empty_fn("lib::third");
    let unused = empty_fn("lib::unused");
    let shadowed = empty_fn("lib::second");
    let dependency = bare_module("lib", vec![first, third, unused, shadowed]);
    let contributing = link_dependencies_reporting_contributors(&mut consumer, &[dependency]);
    assert_eq!(symbols(&consumer), vec!["app::main", "app::second", "lib::first", "lib::third"]);
    assert_eq!(contributing, vec![0]);
}

#[test]
fn first_dependency_wins_and_structs_merge_by_name() {
    let mut consumer = bare_module("app", vec![call_fn("app::main", "core::helper")]);
    consumer.structs.push(MirStruct { name: "Shared".into(), fields: Vec::new() });
    let mut first = bare_module("first", vec![call_fn("core::helper", "core::leaf")]);
    first.structs.push(MirStruct { name: "Shared".into(), fields: vec![("x".into(), ValkyrieType::Boolean)] });
    first.structs.push(MirStruct { name: "OnlyFirst".into(), fields: Vec::new() });
    let mut second = bare_module("second", vec![empty_fn("core::helper"), empty_fn("core::leaf")]);
    second.structs.push(MirStruct { name: "OnlySecond".into(), fields: Vec::new() });
    let contributing = link_dependencies_reporting_contributors(&mut consumer, &[first, second]);
    assert_eq!(symbols(&consumer), vec!["app::main", "core::helper", "core::leaf"]);
    assert_eq!(consumer.functions[1].blocks[0].instructions.len(), 1);
    assert_eq!(contributing, vec![0, 1]);
    let struct_names: Vec<&str> = consumer.structs.iter().map(|s| s.name.as_str()).collect();
    assert_eq!(struct_names, vec!["Shared", "OnlyFirst", "OnlySecond"]);
    assert!(consumer.structs[0].fields.is_empty());
}

#[test]
fn nothing_changes_without_dependencies() {
    let mut consumer = bare_module("app", vec![call_fn("app::main", "missing")]);
    let contributing = link_dependencies_reporting_contributors(&mut consumer, &[]);
    assert_eq!(symbols(&consumer), vec!["app::main"]);
    assert!(contributing.is_empty());
}

#[test]
fn ambiguous_simple_name_is_not_linked() {
    let mut consumer = bare_module("app", vec![call_fn("app::main", "helper")]);
    let dependency = bare_module("lib", vec![empty_fn("a::helper"), empty_fn("b::helper")]);
    link_reachable_dependency_mir(&mut consumer, &[dependency]);
    assert_eq!(symbols(&consumer), vec!["app::main"]);
}

#[test]
fn type_parameter_method_resolves_through_hashmap_substitution() {
    let mut consumer = bare_module("app", vec![call_fn("app::main", "K.hash")]);
    consumer.functions[0].param_types.push(apply("HashMap", vec![named("String"), ValkyrieType::Integer32 { signed: false }]));
    let dependency = bare_module("std", vec![empty_fn("String.hash")]);
    link_reachable_dependency_mir(&mut consumer, &[dependency]);
    assert_eq!(symbols(&consumer), vec!["app::main", "String.hash"]);
}

#[test]
fn linked_functions_get_unwrap_lowered() {
    let mut consumer = bare_module("app", vec![call_fn("app::main", "probe")]);
    let mut probe = empty_fn("lib::probe");
    probe.value_types.insert(ValueRef(1), apply("Option", vec![ValkyrieType::Integer32 { signed: true }]));
    probe.blocks[0].instructions.push(call(&["unwrap"], vec![MirOperand::Value(ValueRef(1))], vec![ValueRef(2)]));
    let dependency = bare_module("lib", vec![probe]);
    link_reachable_dependency_mir(&mut consumer, &[dependency]);
    let linked = &consumer.functions[1];
    match &linked.blocks[0].instructions[0].kind {
        MirOperation::SumPayloadGet { sum_type, variant, payload_type, .. } => {
            assert_eq!(sum_type, "Option");
            assert_eq!(variant, "Some");
            assert!(matches!(payload_type, ValkyrieType::Integer32 { signed: true }));
        },
        other => panic!("expected SumPayloadGet, got {:?}", other),
    }
    assert!(matches!(linked.value_types.get(&ValueRef(2)), Some(ValkyrieType::Integer32 { signed: true })));
}

#[test]
fn unwrap_uses_result_type_when_receiver_is_untyped() {
    let mut function = empty_fn("f");
    function.value_types.insert(ValueRef(5), named("Text"));
    function.blocks[0].instructions.push(call(&["Option", "unwrap"], vec![MirOperand::Value(ValueRef(4))], vec![ValueRef(5)]));
    function.blocks[0].instructions.push(call(&["other"], vec![MirOperand::Value(ValueRef(4))], vec![ValueRef(6)]));
    rewrite_bare_unwrap_calls_to_sum_payload(&mut function);
    match &function.blocks[0].instructions[0].kind {
        MirOperation::SumPayloadGet { type_args, payload_type, object, .. } => {
            assert_eq!(type_args.len(), 1);
            assert!(matches!(payload_type, ValkyrieType::Named(n) if n == "Text"));
            assert!(matches!(object, MirOperand::Value(ValueRef(4))));
        },
        other => panic!("expected SumPayloadGet, got {:?}", other),
    }
    assert!(matches!(function.blocks[0].instructions[1].kind, MirOperation::Call { .. }));
}

#[test]
fn unwrap_without_known_types_is_kept() {
    let mut function = empty_fn("f");
    function.blocks[0].instructions.push(call(&["unwrap"], vec![MirOperand::Value(ValueRef(1))], vec![ValueRef(2)]));
    rewrite_bare_unwrap_calls_to_sum_payload(&mut function);
    assert!(matches!(function.blocks[0].instructions[0].kind, MirOperation::Call { .. }));
}

#[test]
fn type_parameter_calls_are_rewritten() {
    let mut substitutions = Substitutions::new();
    substitutions.insert("K".to_string(), "String".to_string());
    let mut function = empty_fn("f");
    function.blocks[0].instructions.push(call(&["K", "hash"], Vec::new(), Vec::new()));
    function.blocks[0].instructions.push(call(&["V", "hash"], Vec::new(), Vec::new()));
    rewrite_type_param_method_calls(&mut function, &substitutions);
    assert_eq!(collect_static_call_symbols(&function), vec!["String.hash", "String::hash", "hash", "V.hash", "V::hash", "hash"]);
}

#[test]
fn static_call_symbols_cover_dotted_coloned_and_simple() {
    let mut function = empty_fn("f");
    function.blocks[0].instructions.push(call(&["core", "Option", "is_none"], Vec::new(), Vec::new()));
    function.blocks[0].instructions.push(call(&["single"], Vec::new(), Vec::new()));
    function.blocks[0].instructions.push(call(&["a::b"], Vec::new(), Vec::new()));
    assert_eq!(
        collect_static_call_symbols(&function),
        vec!["core.Option.is_none", "core::Option::is_none", "is_none", "single", "single", "a::b", "a::b"]
    );
}

#[test]
fn substitutions_come_from_hashmap_types() {
    let mut consumer = bare_module("app", vec![empty_fn("app::main")]);
    consumer.functions[0].param_types.push(apply("HashMap", vec![named("String"), apply("Vec", vec![ValkyrieType::Integer8 { signed: false }])]));
    let substitutions = infer_hashmap_type_param_substitutions(&consumer);
    assert_eq!(substitutions.get("K").map(|s| s.as_str()), Some("String"));
    assert_eq!(substitutions.get("V").map(|s| s.as_str()), Some("Vec<u8>"));
    assert_eq!(resolve_concrete_method_need("K.len", &substitutions), Some("String.len".to_string()));
    assert_eq!(resolve_concrete_method_need("Key.len", &substitutions), None);
    assert_eq!(resolve_concrete_method_need("len", &substitutions), None);
    assert!(Substitutions::new().is_empty());
    assert!(!substitutions.is_empty());
}

#[test]
fn concrete_type_names() {
    assert_eq!(concrete_type_name(&ValkyrieType::Integer128 { signed: true }), Some("i128".to_string()));
    assert_eq!(concrete_type_name(&ValkyrieType::Integer16 { signed: false }), Some("u16".to_string()));
    assert_eq!(
        concrete_type_name(&apply("Map", vec![named("A"), ValkyrieType::Integer64 { signed: true }])),
        Some("Map<A, i64>".to_string())
    );
    assert_eq!(concrete_type_name(&apply("Box", vec![])), Some("Box".to_string()));
    assert_eq!(concrete_type_name(&apply("List", vec![ValkyrieType::Boolean])), None);
    assert_eq!(concrete_type_name(&ValkyrieType::Utf8), None);
}

#[test]
fn option_payloads() {
    assert!(matches!(
        option_payload_type(&apply("Option", vec![ValkyrieType::Boolean])),
        Some(ValkyrieType::Boolean)
    ));
    assert!(matches!(
        option_payload_type(&ValkyrieType::Nullable(Box::new(ValkyrieType::Utf8))),
        Some(ValkyrieType::Utf8)
    ));
    assert!(option_payload_type(&apply("Result", vec![ValkyrieType::Boolean])).is_none());
    assert!(option_payload_type(&apply("Option", vec![])).is_none());
}

#[test]
fn symbol_helpers() {
    assert_eq!(simple_symbol_name("core::Option.is_none"), "is_none");
    assert_eq!(simple_symbol_name("plain"), "plain");
    assert_eq!(simple_symbol_name("trailing::"), "");
    assert!(mir_symbol_ends_with_simple("core::Option.is_none", "Option.is_none"));
    assert!(!mir_symbol_ends_with_simple("core::is_none_x", "is_none"));
    assert!(symbol_matches_need("a.b", "b"));
    assert!(!symbol_matches_need("ab", "b"));
    assert!(is_type_parameter_name("K"));
    assert!(is_type_parameter_name("KV"));
    assert!(!is_type_parameter_name("Key"));
    assert!(!is_type_parameter_name(""));
    let local = vec!["core::Option.is_none".to_string()];
    assert!(symbol_satisfied("Option.is_none", &local));
    assert!(symbol_satisfied("x::core::Option.is_none", &local));
    assert!(!symbol_satisfied("is_some", &local));
}

fn layout(id: u32, name: &str, storage: StorageKind, size: u64, fields: Vec<FieldLayout>) -> AggregateLayout {
    AggregateLayout { id, name: name.into(), namespace: String::new(), storage, size, align: 8, fields }
}

#[test]
fn merges_colliding_aggregate_layouts_into_consumer_plan() {
    let consumer_layout = layout(
        3,
        "FunctionAnalysis",
        StorageKind::Value,
        8,
        vec![FieldLayout { name: "symbol".into(), ty: NyarType::Utf8, offset: 0, size: 8, align: 8 }],
    );
    let consumer_plan = AggregateLayoutPlan { layouts: vec![consumer_layout] };
    let option_layout = layout(
        3,
        "Option",
        StorageKind::Reference,
        16,
        vec![
            FieldLayout { name: "tag".into(), ty: NyarType::Integer32 { signed: true }, offset: 0, size: 4, align: 4 },
            FieldLayout { name: "payload".into(), ty: NyarType::Utf8, offset: 8, size: 8, align: 8 },
        ],
    );
    let dep_plan = AggregateLayoutPlan { layouts: vec![option_layout] };

    let mut dep_fn = empty_fn("core::Option.is_none");
    dep_fn.values.push(MirValue { id: ValueRef(0), origin: MirValueOrigin::Temporary });
    dep_fn.blocks[0].instructions.push(MirInstruction {
        results: Vec::new(),
        kind: MirOperation::FieldGet { object: MirOperand::Value(ValueRef(0)), field: "tag".into() },
    });

    let mut consumer = bare_module("legion", vec![call_fn("legion::use_option", "Option.is_none")]);
    consumer.aggregate_layouts = consumer_plan;
    let mut dependency = bare_module("core", vec![dep_fn]);
    dependency.aggregate_layouts = dep_plan;
    link_reachable_dependency_mir(&mut consumer, &[dependency]);

    assert!(consumer.functions.iter().any(|f| f.symbol.contains("is_none")), "linked Option.is_none");
    let option = consumer.aggregate_layouts.layouts.iter().find(|layout| layout.name == "Option").expect("Option layout merged");
    assert_ne!(option.id, 3, "must not keep colliding id 3");
    assert!(
        consumer.aggregate_layouts.layouts.iter().any(|layout| layout.name == "FunctionAnalysis" && layout.id == 3),
        "consumer FunctionAnalysis keeps unique id 3"
    );
}

#[test]
fn layout_merge_renumbers_collisions_and_skips_taken_names() {
    let mut into = AggregateLayoutPlan {
        layouts: vec![layout(0, "A", StorageKind::Value, 8, vec![]), layout(1, "B", StorageKind::Value, 8, vec![])],
    };
    let from = AggregateLayoutPlan {
        layouts: vec![
            layout(1, "C", StorageKind::Value, 4, vec![]),
            layout(7, "A", StorageKind::Value, 4, vec![]),
            layout(5, "D", StorageKind::Reference, 4, vec![]),
        ],
    };
    let remap = merge_aggregate_layout_plan(&mut into, &from);
    let ids: Vec<(String, u32)> = into.layouts.iter().map(|l| (l.name.clone(), l.id)).collect();
    assert_eq!(
        ids,
        vec![("A".to_string(), 0), ("B".to_string(), 1), ("C".to_string(), 2), ("D".to_string(), 5)]
    );
    assert_eq!(remap, vec![(1, 2), (7, 0)]);
    assert_eq!(into.layouts[0].size, 8);
}

#[test]
fn layouts_of_non_contributing_dependencies_are_not_merged() {
    let mut consumer = bare_module("app", vec![call_fn("app::main", "helper")]);
    let mut used = bare_module("used", vec![empty_fn("used::helper")]);
    used.aggregate_layouts.layouts.push(layout(0, "Used", StorageKind::Value, 8, vec![]));
    let mut unused = bare_module("unused", vec![empty_fn("unused::other")]);
    unused.aggregate_layouts.layouts.push(layout(1, "Unused", StorageKind::Value, 8, vec![]));
    link_reachable_dependency_mir(&mut consumer, &[unused, used]);
    let names: Vec<&str> = consumer.aggregate_layouts.layouts.iter().map(|l| l.name.as_str()).collect();
    assert_eq!(names, vec!["Used"]);
}

#[test]
fn links_in_breadth_first_request_order() {
    // main needs x then z; x needs y. Needs are served in queue order: x, z, then y.
    let mut main = call_fn("app::main", "x");
    main.blocks[0].instructions.push(call(&["z"], Vec::new(), Vec::new()));
    let mut consumer = bare_module("app", vec![main]);
    let x = call_fn("lib::x", "y");
    let y = empty_fn("lib::y");
    let z = empty_fn("lib::z");
    let dependency = bare_module("lib", vec![y, z, x]);
    link_reachable_dependency_mir(&mut consumer, &[dependency]);
    assert_eq!(symbols(&consumer), vec!["app::main".to_string(), "lib::x".to_string(), "lib::z".to_string(), "lib::y".to_string()]);
}
