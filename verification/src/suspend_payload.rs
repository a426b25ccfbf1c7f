//! Suspend payload builders. Semantic MIR functions no longer carry suspend points,
//! continuations or suspend plans, so both payloads are built empty.
use vstd::prelude::*;
use crate::builtin_helpers::HirModule;
use crate::names::QualifiedName;

verus! {

/// The state-machine control-flow entry of one operation.
#[derive(Debug)]
pub struct ControlFlowFunction {
    pub operation: QualifiedName,
}

/// State-machine control-flow payload handed to the runtime.
#[derive(Debug)]
pub struct ControlFlowPayload {
    pub functions: Vec<ControlFlowFunction>,
}

/// The first-class suspend entry of one operation.
#[derive(Debug)]
pub struct SuspendRuntimeFunction {
    pub operation: QualifiedName,
}

/// First-class suspend runtime payload handed to the runtime.
#[derive(Debug)]
pub struct SuspendRuntimePayload {
    pub functions: Vec<SuspendRuntimeFunction>,
}

/// The state-machine control-flow payload: empty, as no function carries suspend evidence.
pub fn build_state_machine_suspend_payload(_hir_module: &HirModule, _operations: &[QualifiedName]) -> (r: ControlFlowPayload)
    ensures
        r.functions@.len() == 0,
{
    ControlFlowPayload { functions: Vec::new() }
}

/// The first-class suspend runtime payload: empty, as no function carries suspend evidence.
pub fn build_first_class_suspend_payload(_hir_module: &HirModule, _operations: &[QualifiedName]) -> (r: SuspendRuntimePayload)
    ensures
        r.functions@.len() == 0,
{
    SuspendRuntimePayload { functions: Vec::new() }
}

} // verus!
