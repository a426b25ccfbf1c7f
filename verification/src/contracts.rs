//! Backend-private routing hints and small helpers over executable instructions.
use vstd::prelude::*;
use crate::executable::{Instruction, ValueRef};

verus! {

/// Backend-private call routing (not Semantic MIR authority).
#[derive(Debug, Clone, Copy, PartialEq, Eq, Structural, Hash)]
pub enum DispatchKind {
    /// Direct / known callee.
    Static,
    /// Function-value / indirect call.
    Indirect,
    /// Witness / trait dispatch.
    Witness,
}

/// Backend-private receiver ABI hint (not Semantic MIR authority).
#[derive(Debug, Clone, Copy, PartialEq, Eq, Structural, Hash)]
pub enum ReceiverPassingKind {
    /// Pass by value.
    ByValue,
    /// Pass by address / reference.
    ByAddress,
}

/// The primary SSA result of an instruction: its first result, if any.
pub open spec fn primary_result(instruction: &Instruction) -> Option<ValueRef> {
    if instruction.results@.len() > 0 {
        Some(instruction.results@[0])
    } else {
        None
    }
}

/// Primary SSA result of an instruction (`results[0]`).
pub fn instruction_primary_result(instruction: &Instruction) -> (r: Option<ValueRef>)
    ensures
        r == primary_result(instruction),
{
    if instruction.results.len() > 0 {
        Some(instruction.results[0])
    } else {
        None
    }
}

} // verus!
