use nyar_mir::executable::{BlockRef, ExecutableFunction, SuspendLoweringPlan, ValueTypes};
use nyar_mir::executable_provider::{
    callee_symbol_ends_with_simple, resolve_static_callee_operation, MirFunctionMapProvider, SuspendMetadataView,
};
use nyar_mir::names::{NamePath, QualifiedName};
use nyar_mir::types::NyarType;

fn function(symbol: &str) -> ExecutableFunction {
    ExecutableFunction {
        symbol: symbol.to_string(),
        return_type: NyarType::Unit,
        param_types: Vec::new(),
        value_types: ValueTypes::new(),
        entry: BlockRef(0),
        values: Vec::new(),
        suspend_points: Vec::new(),
        frame_layouts: Vec::new(),
        continuations: Vec::new(),
        case_chains: Vec::new(),
        suspend_plan: None,
        state_machine_lowered: true,
        blocks: Vec::new(),
    }
}

fn op(parts: &[&str]) -> QualifiedName {
    QualifiedName::new(parts.iter().map(|p| p.to_string()).collect())
}

#[test]
fn function_registry_requires_exact_semantic_symbol() {
    let operation = op(&["module", "entry"]);
    let provider = MirFunctionMapProvider::new(vec![(operation, function("module.entry"))]);

    assert!(provider.find_by_symbol("module.entry").is_some());
    assert!(provider.find_by_symbol("entry").is_none());
    assert!(provider.find_by_symbol("other.module.entry").is_none());
    assert!(provider.find_by_symbol("module::entry").is_none());
}

#[test]
fn bare_callee_resolves_to_unique_module_helper() {
    let provider = MirFunctionMapProvider::new(vec![
        (op(&["main", "main"]), function("main::main")),
        (op(&["main", "answer"]), function("main::answer")),
    ]);
    let path = NamePath::new(vec!["answer".to_string()]);
    let expected = op(&["main", "answer"]);
    assert_eq!(resolve_static_callee_operation(&provider, &path), Some(expected));
}

#[test]
fn ambiguous_bare_callee_does_not_resolve() {
    let provider = MirFunctionMapProvider::new(vec![
        (op(&["a", "helper"]), function("a::helper")),
        (op(&["b", "helper"]), function("b.helper")),
    ]);
    let path = NamePath::new(vec!["helper".to_string()]);
    assert_eq!(resolve_static_callee_operation(&provider, &path), None);
}

#[test]
fn operations_are_sorted_and_last_pair_wins() {
    let provider = MirFunctionMapProvider::new(vec![
        (op(&["z", "last"]), function("z::last")),
        (op(&["a", "first"]), function("a::old")),
        (op(&["a", "first"]), function("a::first")),
    ]);
    assert_eq!(provider.operations(), vec![op(&["a", "first"]), op(&["z", "last"])]);
    assert_eq!(provider.get_function(&op(&["a", "first"])).expect("registered").symbol(), "a::first");
    assert!(provider.get_function(&op(&["a", "missing"])).is_none());
    assert!(provider.suspend_metadata(&op(&["a", "first"])).is_none());
}

#[test]
fn suspend_metadata_requires_a_plan() {
    let mut suspending = function("gen::next");
    suspending.suspend_plan = Some(SuspendLoweringPlan { state_count: 2 });
    let view = SuspendMetadataView::from_function(&suspending).expect("suspend plan");
    assert_eq!(view.function_symbol, "gen::next");
    assert!(SuspendMetadataView::from_function(&function("plain")).is_none());
    let provider = MirFunctionMapProvider::new(vec![(op(&["gen", "next"]), suspending)]);
    assert!(provider.suspend_metadata(&op(&["gen", "next"])).is_some());
}

#[test]
fn callee_suffix_matching() {
    assert!(callee_symbol_ends_with_simple("main::answer", "answer"));
    assert!(callee_symbol_ends_with_simple("main.answer", "answer"));
    assert!(callee_symbol_ends_with_simple("answer", "answer"));
    assert!(!callee_symbol_ends_with_simple("main::canswer", "answer"));
}
