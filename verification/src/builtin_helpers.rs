//! Builtin and pattern helpers for MIR lowering.
//!
//! The intrinsic opcode tables are gone: every opcode query fails closed, and only the few
//! builtin symbols that lowering still recognises by name are answered.
use vstd::prelude::*;
use std::collections::BTreeMap;
use crate::executable::ValueTypes;
use crate::export_spec::HirAttribute;
use crate::mir::{MirOperand, ValkyrieType};
use crate::names::{Identifier, NamePath};
use crate::text::str_equal;

verus! {

/// A function declared in a source module, with its annotations.
#[derive(Debug)]
pub struct HirFunction {
    pub name: Identifier,
    pub annotations: Vec<HirAttribute>,
}

/// A source module.
#[derive(Debug)]
pub struct HirModule {
    pub name: NamePath,
    pub functions: Vec<HirFunction>,
}

/// No type matches a plain-type pattern: the pattern tables are gone.
pub fn plain_type_pattern_matches(_ty: &ValkyrieType, _name: &NamePath) -> (r: bool)
    ensures
        !r,
{
    false
}

/// No intrinsic opcodes are collected from a module.
pub fn collect_intrinsic_opcodes(_module: &HirModule) -> (r: BTreeMap<String, ()>)
    ensures
        r@ == Map::<String, ()>::empty(),
{
    BTreeMap::new()
}

/// No function stands for an intrinsic opcode.
pub fn intrinsic_opcode_for_function(_function: &HirFunction) -> (r: Option<()>)
    ensures
        r is None,
{
    None
}

/// No attribute names an intrinsic opcode.
pub fn extract_intrinsic_opcode(_attribute: &HirAttribute) -> (r: Option<()>)
    ensures
        r is None,
{
    None
}

/// No intrinsic opcode has an output type.
pub fn intrinsic_opcode_output_type(
    _opcode: &(),
    _arguments: &[MirOperand],
    _value_types: &ValueTypes<ValkyrieType>,
) -> (r: Option<ValkyrieType>)
    ensures
        r is None,
{
    None
}

/// No operator maps to an intrinsic opcode.
pub fn intrinsic_opcode_for_operator(_name: &str) -> (r: Option<()>)
    ensures
        r is None,
{
    None
}

/// Array index calls get no output type from an intrinsic table.
pub fn array_index_call_output_type(
    _arguments: &[MirOperand],
    _value_types: &ValueTypes<ValkyrieType>,
) -> (r: Option<ValkyrieType>)
    ensures
        r is None,
{
    None
}

/// The path's last segment is `name`.
pub open spec fn last_segment_is(path: Seq<Seq<char>>, name: Seq<char>) -> bool {
    path.len() > 0 && path.last() == name
}

fn last_segment_equals(symbol: &NamePath, name: &str) -> (r: bool)
    ensures
        r == last_segment_is(symbol@, name@),
{
    let n = symbol.parts.len();
    if n == 0 {
        return false;
    }
    assert(symbol@.last() == symbol.parts@[n - 1]@);
    str_equal(symbol.parts[n - 1].as_str(), name)
}

/// A call of the private `__array_len` intrinsic, which lowers to an array length instead of a
/// linked call.
pub fn is_array_len_intrinsic_symbol(symbol: &NamePath) -> (r: bool)
    ensures
        r == last_segment_is(symbol@, "__array_len"@),
{
    last_segment_equals(symbol, "__array_len")
}

/// A call of the `__ref_deref` intrinsic, the identity on class handles, not a linked function.
pub fn is_ref_deref_intrinsic_symbol(symbol: &NamePath) -> (r: bool)
    ensures
        r == last_segment_is(symbol@, "__ref_deref"@),
{
    last_segment_equals(symbol, "__ref_deref")
}

/// The overload registry's `builtin.array.push`, which is not a linked function.
pub fn is_language_builtin_array_push_symbol(symbol: &NamePath) -> (r: bool)
    ensures
        r == (symbol@ == seq!["builtin"@, "array"@, "push"@]),
{
    let parts = &symbol.parts;
    if parts.len() != 3 {
        assert(symbol@.len() != 3);
        return false;
    }
    let r = str_equal(parts[0].as_str(), "builtin") && str_equal(parts[1].as_str(), "array") && str_equal(
        parts[2].as_str(),
        "push",
    );
    if r {
        assert(symbol@ =~= seq!["builtin"@, "array"@, "push"@]);
    } else {
        assert(symbol@[0] == parts@[0]@ && symbol@[1] == parts@[1]@ && symbol@[2] == parts@[2]@);
    }
    r
}

} // verus!
