//! Conversion of language MIR functions into the executable form handed to backends.
//! Semantic MIR functions carry no suspend, frame, continuation or case metadata, so those
//! side tables come out empty.
use vstd::prelude::*;
use crate::executable::{
    ArrayInitialization, Block, Constant, DispatchKind, ExecutableFunction, Instruction, InstructionKind, Operand, Terminator, Value,
    ValueOrigin, ValueRef, ValueTypes,
};
use crate::mir::{
    block_models, copy_path, instruction_models, lemma_vmodels, named_operand_models, operand_models, opt_operand_model,
    value_models, vmodels, vt_models, BlockModel, FunctionModel, InstructionModel, MirArrayInitialization, MirBlock,
    MirConstant, MirFunction, MirInstruction, MirOperand, MirOperation, MirTerminator, MirValue, MirValueOrigin,
    OperandModel, OperationModel, OriginModel, TerminatorModel, ValkyrieType, VType,
};
use crate::executable_provider::{
    has_operation, last_index_of_key, lemma_last_index_of_key, operations_increasing, MirFunctionMapProvider,
    OperationEntry,
};
use crate::names::{Identifier, QualifiedName};
use crate::semantic_mir_contract::{operands_of, opt_model};
use crate::text::owned;
use crate::types::{lemma_models, models, NyarType, TypeModel};

verus! {

broadcast use {lemma_vmodels, lemma_models};

/// The platform type of a source type. Every source type has a platform counterpart of the
/// same shape but the 128-bit integers, which have none and are kept by name (`i128`, `u128`).
pub open spec fn concretize(t: VType) -> TypeModel
    decreases t,
{
    match t {
        VType::Unit => TypeModel::Unit,
        VType::Boolean => TypeModel::Boolean,
        VType::Integer8 { signed } => TypeModel::Integer8 { signed },
        VType::Integer16 { signed } => TypeModel::Integer16 { signed },
        VType::Integer32 { signed } => TypeModel::Integer32 { signed },
        VType::Integer64 { signed } => TypeModel::Integer64 { signed },
        VType::Integer128 { signed } => TypeModel::Named(if signed { "i128"@ } else { "u128"@ }),
        VType::Utf8 => TypeModel::Utf8,
        VType::Named(name) => TypeModel::Named(name),
        VType::Apply(base, args) => TypeModel::Apply(Box::new(concretize(*base)), concretize_all(args)),
        VType::Array(element) => TypeModel::Array(Box::new(concretize(*element))),
        VType::Nullable(inner) => TypeModel::Nullable(Box::new(concretize(*inner))),
        VType::Tuple(elements) => TypeModel::Tuple(concretize_all(elements)),
    }
}

/// [`concretize`] applied to each type of a sequence.
pub open spec fn concretize_all(s: Seq<VType>) -> Seq<TypeModel>
    decreases s,
{
    if s.len() == 0 {
        Seq::empty()
    } else {
        seq![concretize(s[0])] + concretize_all(s.subrange(1, s.len() as int))
    }
}

/// `concretize_all` is taken element by element.
pub broadcast proof fn lemma_concretize_all(s: Seq<VType>)
    ensures
        #[trigger] concretize_all(s).len() == s.len(),
        forall|i: int| 0 <= i < s.len() ==> #[trigger] concretize_all(s)[i] == concretize(s[i]),
    decreases s.len(),
{
    if s.len() > 0 {
        lemma_concretize_all(s.subrange(1, s.len() as int));
        assert forall|i: int| 0 <= i < s.len() implies #[trigger] concretize_all(s)[i] == concretize(s[i]) by {
            if i > 0 {
                assert(s.subrange(1, s.len() as int)[i - 1] == s[i]);
            }
        }
    }
}

/// The platform type of a source type (see [`concretize`]).
pub fn concretize_type_lossy(t: &ValkyrieType) -> (r: NyarType)
    ensures
        r.model() == concretize(t.model()),
    decreases t,
{
    match t {
        ValkyrieType::Unit => NyarType::Unit,
        ValkyrieType::Boolean => NyarType::Boolean,
        ValkyrieType::Integer8 { signed } => NyarType::Integer8 { signed: *signed },
        ValkyrieType::Integer16 { signed } => NyarType::Integer16 { signed: *signed },
        ValkyrieType::Integer32 { signed } => NyarType::Integer32 { signed: *signed },
        ValkyrieType::Integer64 { signed } => NyarType::Integer64 { signed: *signed },
        ValkyrieType::Integer128 { signed } => if *signed {
            NyarType::Named(owned("i128"))
        } else {
            NyarType::Named(owned("u128"))
        },
        ValkyrieType::Utf8 => NyarType::Utf8,
        ValkyrieType::Named(name) => NyarType::Named(owned(name.as_str())),
        ValkyrieType::Apply(base, args) => NyarType::Apply(
            Box::new(concretize_type_lossy(base)),
            concretize_types(args),
        ),
        ValkyrieType::Array(element) => NyarType::Array(Box::new(concretize_type_lossy(element))),
        ValkyrieType::Nullable(inner) => NyarType::Nullable(Box::new(concretize_type_lossy(inner))),
        ValkyrieType::Tuple(elements) => NyarType::Tuple(concretize_types(elements)),
    }
}

/// The platform types of a list of source types, in order.
pub fn concretize_types(v: &Vec<ValkyrieType>) -> (r: Vec<NyarType>)
    ensures
        models(r@) == concretize_all(vmodels(v@)),
    decreases v,
{
    let mut out: Vec<NyarType> = Vec::new();
    let mut i: usize = 0;
    while i < v.len()
        invariant
            i <= v.len(),
            out@.len() == i,
            forall|j: int| 0 <= j < i ==> #[trigger] out@[j].model() == concretize(v@[j].model()),
        decreases v.len() - i,
    {
        proof {
            assert(decreases_to!(v => v@[i as int]));
        }
        out.push(concretize_type_lossy(&v[i]));
        i = i + 1;
    }
    proof {
        lemma_concretize_all(vmodels(v@));
        assert(models(out@) =~= concretize_all(vmodels(v@)));
    }
    out
}


/// [`concretize`] of an optional type.
pub open spec fn opt_concretize(t: Option<VType>) -> Option<TypeModel> {
    match t {
        Some(t) => Some(concretize(t)),
        None => None,
    }
}

/// The platform type of an optional source type.
fn concretize_opt(t: &Option<ValkyrieType>) -> (r: Option<NyarType>)
    ensures
        opt_model(r) == opt_concretize(crate::mir::opt_vtype(*t)),
{
    match t {
        Some(t) => Some(concretize_type_lossy(t)),
        None => None,
    }
}

/// The operand model of an executable operand; it reads like the MIR operand it came from.
pub open spec fn operand_view(o: Operand) -> OperandModel {
    match o {
        Operand::Value(v) => OperandModel::Value(v),
        Operand::Constant(Constant::Int(n)) => OperandModel::Int(n),
        Operand::Constant(Constant::Bool(b)) => OperandModel::Bool(b),
        Operand::Constant(Constant::Utf8(t)) => OperandModel::Utf8(t@),
        Operand::Constant(Constant::Utf16(t)) => OperandModel::Utf16(t@),
        Operand::Constant(Constant::Unit) => OperandModel::Unit,
        Operand::Symbol(path) => OperandModel::Symbol(path@),
    }
}

/// The operand models of a sequence of executable operands.
pub open spec fn operand_views(s: Seq<Operand>) -> Seq<OperandModel> {
    s.map_values(|o: Operand| operand_view(o))
}

/// The operand model of an optional executable operand.
pub open spec fn opt_operand_view(o: Option<Operand>) -> Option<OperandModel> {
    match o {
        Some(o) => Some(operand_view(o)),
        None => None,
    }
}

/// The models of named executable operands.
pub open spec fn named_views(s: Seq<(Identifier, Operand)>) -> Seq<(Seq<char>, OperandModel)> {
    s.map_values(|f: (Identifier, Operand)| (f.0@, operand_view(f.1)))
}

/// The executable constant of a MIR constant.
fn convert_constant(c: &MirConstant) -> (r: Constant)
    ensures
        operand_view(Operand::Constant(r)) == crate::mir::constant_model(*c),
{
    match c {
        MirConstant::Int(n) => Constant::Int(*n),
        MirConstant::Bool(b) => Constant::Bool(*b),
        MirConstant::Utf8(t) => Constant::Utf8(owned(t.as_str())),
        MirConstant::Utf16(t) => Constant::Utf16(owned(t.as_str())),
        MirConstant::Unit => Constant::Unit,
    }
}

/// The executable operand of a MIR operand.
pub fn convert_operand(o: &MirOperand) -> (r: Operand)
    ensures
        operand_view(r) == o.model(),
{
    match o {
        MirOperand::Value(v) => Operand::Value(*v),
        MirOperand::Constant(c) => Operand::Constant(convert_constant(c)),
        MirOperand::Symbol(path) => Operand::Symbol(copy_path(path)),
    }
}

/// The executable operands of MIR operands, in order.
fn convert_operands(v: &Vec<MirOperand>) -> (r: Vec<Operand>)
    ensures
        operand_views(r@) == operand_models(v@),
        r@.len() == v@.len(),
{
    let mut out: Vec<Operand> = Vec::new();
    let mut i: usize = 0;
    while i < v.len()
        invariant
            i <= v.len(),
            out@.len() == i,
            forall|j: int| 0 <= j < i ==> operand_view(#[trigger] out@[j]) == v@[j].model(),
        decreases v.len() - i,
    {
        out.push(convert_operand(&v[i]));
        i = i + 1;
    }
    assert(operand_views(out@) =~= operand_models(v@));
    out
}

/// The executable operand of an optional MIR operand.
fn convert_opt_operand(o: &Option<MirOperand>) -> (r: Option<Operand>)
    ensures
        opt_operand_view(r) == opt_operand_model(*o),
        (r is Some) == (o is Some),
{
    match o {
        Some(o) => Some(convert_operand(o)),
        None => None,
    }
}

/// The executable field initializers of MIR field initializers, in order.
fn convert_named_operands(v: &Vec<(Identifier, MirOperand)>) -> (r: Vec<(Identifier, Operand)>)
    ensures
        named_views(r@) == named_operand_models(v@),
{
    let mut out: Vec<(Identifier, Operand)> = Vec::new();
    let mut i: usize = 0;
    while i < v.len()
        invariant
            i <= v.len(),
            out@.len() == i,
            forall|j: int| 0 <= j < i ==> (#[trigger] out@[j]).0@ == v@[j].0@ && operand_view(out@[j].1) == v@[j].1.model(),
        decreases v.len() - i,
    {
        out.push((owned(v[i].0.as_str()), convert_operand(&v[i].1)));
        i = i + 1;
    }
    assert(named_views(out@) =~= named_operand_models(v@));
    out
}

/// `k` is the executable form of the MIR operation `m`: the same operation, each operand
/// carried over in order, each name kept, and each type concretized. A call is static when its
/// callee is a symbol and indirect otherwise, and carries no witness, effect, receiver hint,
/// parameter types or intrinsic.
pub open spec fn converted_kind(k: InstructionKind, m: OperationModel) -> bool {
    match m {
        OperationModel::LoadConstant { constant, ty } => k matches InstructionKind::LoadConstant { constant: c, ty: t }
            && operand_view(Operand::Constant(c)) == constant && opt_model(t) == opt_concretize(ty),
        OperationModel::LoadSymbol { path } => k matches InstructionKind::LoadSymbol { path: p } && p@ == path,
        OperationModel::Copy { source } => k matches InstructionKind::Copy { source: s } && operand_view(s) == source,
        OperationModel::StoreVar { name, value, ty } => k matches InstructionKind::StoreVar { name: n, value: v, ty: t }
            && n@ == name && operand_view(v) == value && opt_model(t) == opt_concretize(ty),
        OperationModel::Call { callee, arguments } => k matches InstructionKind::Call {
            dispatch: d,
            callee: c,
            arguments: a,
            witness: w,
            effect: e,
            receiver_kind: rk,
            parameter_types: pt,
            intrinsic_opcode: op,
        } && operand_view(c) == callee && operand_views(a@) == arguments && d == (if callee is Symbol {
            DispatchKind::Static
        } else {
            DispatchKind::Indirect
        }) && w is None && e is None && rk is None && pt is None && op is None,
        OperationModel::StructNew { struct_name, fields } => k matches InstructionKind::StructNew { struct_name: n, fields: f }
            && n@ == struct_name && named_views(f@) == fields,
        OperationModel::TupleNew { fields } => k matches InstructionKind::TupleNew { fields: f } && operand_views(f@) == fields,
        OperationModel::AggregateCopy { source, dest } => k matches InstructionKind::AggregateCopy { source: s, dest: d }
            && operand_view(s) == source && operand_view(d) == dest,
        OperationModel::FieldGet { object, field } => k matches InstructionKind::FieldGet { object: o, field: f }
            && operand_view(o) == object && f@ == field,
        OperationModel::FieldSet { object, field, value } => k matches InstructionKind::FieldSet { object: o, field: f, value: v }
            && operand_view(o) == object && f@ == field && operand_view(v) == value,
        OperationModel::SumNew { sum_type, type_args, variant, payload_type, payload } => k matches InstructionKind::SumNew {
            sum_type: s,
            type_args: a,
            variant: v,
            payload_type: t,
            payload: p,
        } && s@ == sum_type && models(a@) == concretize_all(type_args) && v@ == variant && opt_model(t) == opt_concretize(
            payload_type,
        ) && opt_operand_view(p) == payload,
        OperationModel::SumPayloadGet { sum_type, type_args, variant, payload_type, object } => k matches InstructionKind::SumPayloadGet {
            sum_type: s,
            type_args: a,
            variant: v,
            payload_type: t,
            object: o,
        } && s@ == sum_type && models(a@) == concretize_all(type_args) && v@ == variant && t.model() == concretize(
            payload_type,
        ) && operand_view(o) == object,
        OperationModel::SumVariantIs { sum_type, type_args, variant, object } => k matches InstructionKind::SumVariantIs {
            sum_type: s,
            type_args: a,
            variant: v,
            object: o,
        } && s@ == sum_type && models(a@) == concretize_all(type_args) && v@ == variant && operand_view(o) == object,
        OperationModel::PatternMatch { value, pattern } => k matches InstructionKind::PatternMatch { value: v, pattern_debug: d }
            && operand_view(v) == value && d@ == pattern,
        OperationModel::ArrayNew { array_type, length, fill } => k matches InstructionKind::ArrayNew {
            array_type: a,
            length: l,
            initialization: i,
        } && a.model() == concretize(array_type) && operand_view(l) == length && match i {
            ArrayInitialization::Default => fill is None,
            ArrayInitialization::Fill(x) => fill == Some(operand_view(x)),
        },
        OperationModel::ArrayFromElements { array_type, elements } => k matches InstructionKind::ArrayFromElements {
            array_type: a,
            elements: e,
        } && a.model() == concretize(array_type) && operand_views(e@) == elements,
        OperationModel::ArrayGet { array, index } => k matches InstructionKind::ArrayGet { array: a, index: i }
            && operand_view(a) == array && operand_view(i) == index,
        OperationModel::ArraySet { array, index, value } => k matches InstructionKind::ArraySet { array: a, index: i, value: v }
            && operand_view(a) == array && operand_view(i) == index && operand_view(v) == value,
        OperationModel::ArrayLength { array } => k matches InstructionKind::ArrayLength { array: a } && operand_view(a) == array,
    }
}

/// The executable operation of a MIR operation (see [`converted_kind`]).
pub fn convert_instruction_kind(kind: &MirOperation) -> (r: InstructionKind)
    ensures
        converted_kind(r, kind.model()),
{
    match kind {
        MirOperation::LoadConstant { constant, ty } => InstructionKind::LoadConstant {
            constant: convert_constant(constant),
            ty: concretize_opt(ty),
        },
        MirOperation::LoadSymbol { path } => InstructionKind::LoadSymbol { path: copy_path(path) },
        MirOperation::Copy { source } => InstructionKind::Copy { source: convert_operand(source) },
        MirOperation::StoreVar { name, value, ty } => InstructionKind::StoreVar {
            name: owned(name.as_str()),
            value: convert_operand(value),
            ty: concretize_opt(ty),
        },
        MirOperation::Call { callee, arguments } => InstructionKind::Call {
            dispatch: match callee {
                MirOperand::Symbol(_) => DispatchKind::Static,
                _ => DispatchKind::Indirect,
            },
            callee: convert_operand(callee),
            arguments: convert_operands(arguments),
            witness: None,
            effect: None,
            receiver_kind: None,
            parameter_types: None,
            intrinsic_opcode: None,
        },
        MirOperation::StructNew { struct_name, fields } => InstructionKind::StructNew {
            struct_name: owned(struct_name.as_str()),
            fields: convert_named_operands(fields),
        },
        MirOperation::TupleNew { fields } => InstructionKind::TupleNew { fields: convert_operands(fields) },
        MirOperation::AggregateCopy { source, dest } => InstructionKind::AggregateCopy {
            source: convert_operand(source),
            dest: convert_operand(dest),
        },
        MirOperation::FieldGet { object, field } => InstructionKind::FieldGet {
            object: convert_operand(object),
            field: owned(field.as_str()),
        },
        MirOperation::FieldSet { object, field, value } => InstructionKind::FieldSet {
            object: convert_operand(object),
            field: owned(field.as_str()),
            value: convert_operand(value),
        },
        MirOperation::SumNew { sum_type, type_args, variant, payload_type, payload } => InstructionKind::SumNew {
            sum_type: owned(sum_type.as_str()),
            type_args: concretize_types(type_args),
            variant: owned(variant.as_str()),
            payload_type: concretize_opt(payload_type),
            payload: convert_opt_operand(payload),
        },
        MirOperation::SumPayloadGet { sum_type, type_args, variant, payload_type, object } => InstructionKind::SumPayloadGet {
            sum_type: owned(sum_type.as_str()),
            type_args: concretize_types(type_args),
            variant: owned(variant.as_str()),
            payload_type: concretize_type_lossy(payload_type),
            object: convert_operand(object),
        },
        MirOperation::SumVariantIs { sum_type, type_args, variant, object } => InstructionKind::SumVariantIs {
            sum_type: owned(sum_type.as_str()),
            type_args: concretize_types(type_args),
            variant: owned(variant.as_str()),
            object: convert_operand(object),
        },
        MirOperation::PatternMatch { value, pattern } => InstructionKind::PatternMatch {
            value: convert_operand(value),
            pattern_debug: owned(pattern.as_str()),
        },
        MirOperation::ArrayNew { array_type, length, initialization } => InstructionKind::ArrayNew {
            array_type: concretize_type_lossy(array_type),
            length: convert_operand(length),
            initialization: match initialization {
                MirArrayInitialization::Default => ArrayInitialization::Default,
                MirArrayInitialization::Fill(v) => ArrayInitialization::Fill(convert_operand(v)),
            },
        },
        MirOperation::ArrayFromElements { array_type, elements } => InstructionKind::ArrayFromElements {
            array_type: concretize_type_lossy(array_type),
            elements: convert_operands(elements),
        },
        MirOperation::ArrayGet { array, index } => InstructionKind::ArrayGet {
            array: convert_operand(array),
            index: convert_operand(index),
        },
        MirOperation::ArraySet { array, index, value } => InstructionKind::ArraySet {
            array: convert_operand(array),
            index: convert_operand(index),
            value: convert_operand(value),
        },
        MirOperation::ArrayLength { array } => InstructionKind::ArrayLength { array: convert_operand(array) },
    }
}


/// `i` is the executable form of the MIR instruction `m`: the same results and the converted
/// operation.
pub open spec fn converted_instruction(i: Instruction, m: InstructionModel) -> bool {
    i.results@ == m.results && converted_kind(i.kind, m.kind)
}

/// A copy of a list of value ids.
fn copy_refs(v: &Vec<ValueRef>) -> (r: Vec<ValueRef>)
    ensures
        r@ == v@,
{
    let mut out: Vec<ValueRef> = Vec::new();
    let mut i: usize = 0;
    while i < v.len()
        invariant
            i <= v.len(),
            out@ == v@.take(i as int),
        decreases v.len() - i,
    {
        out.push(v[i]);
        i = i + 1;
        assert(out@ =~= v@.take(i as int));
    }
    assert(v@.take(v@.len() as int) =~= v@);
    out
}

/// The executable instruction of a MIR instruction.
fn convert_instruction(ins: &MirInstruction) -> (r: Instruction)
    ensures
        converted_instruction(r, ins.model()),
{
    Instruction { results: copy_refs(&ins.results), kind: convert_instruction_kind(&ins.kind) }
}

/// The terminator model of an executable terminator; it reads like the MIR terminator it
/// came from.
pub open spec fn terminator_view(t: Terminator) -> TerminatorModel {
    match t {
        Terminator::Return { value } => TerminatorModel::Return { value: opt_operand_view(value) },
        Terminator::Jump { target, arguments } => TerminatorModel::Jump { target, arguments: operand_views(arguments@) },
        Terminator::Branch { condition, then_target, else_target } => TerminatorModel::Branch {
            condition: operand_view(condition),
            then_target,
            else_target,
        },
        Terminator::PerformEffect { effect, payload, resume_target } => TerminatorModel::PerformEffect {
            effect,
            payload: opt_operand_view(payload),
            resume_target,
        },
        Terminator::StateDispatch { state, cases, default_target } => TerminatorModel::StateDispatch {
            state,
            cases: cases@,
            default_target,
        },
        Terminator::YieldToRuntime { effect, payload, resume_state } => TerminatorModel::YieldToRuntime {
            effect,
            payload: opt_operand_view(payload),
            resume_state,
        },
        Terminator::Unreachable => TerminatorModel::Unreachable,
    }
}

/// A copy of dispatch cases.
fn copy_cases(v: &Vec<(u32, crate::executable::BlockRef)>) -> (r: Vec<(u32, crate::executable::BlockRef)>)
    ensures
        r@ == v@,
{
    let mut out: Vec<(u32, crate::executable::BlockRef)> = Vec::new();
    let mut i: usize = 0;
    while i < v.len()
        invariant
            i <= v.len(),
            out@ == v@.take(i as int),
        decreases v.len() - i,
    {
        out.push(v[i]);
        i = i + 1;
        assert(out@ =~= v@.take(i as int));
    }
    assert(v@.take(v@.len() as int) =~= v@);
    out
}

/// The executable terminator of a MIR terminator: the same shape, targets and effects, with
/// each operand carried over.
pub fn convert_terminator(t: &MirTerminator) -> (r: Terminator)
    ensures
        terminator_view(r) == t.model(),
        same_targets(*t, r),
{
    match t {
        MirTerminator::Return { value } => Terminator::Return { value: convert_opt_operand(value) },
        MirTerminator::Jump { target, arguments } => Terminator::Jump {
            target: *target,
            arguments: convert_operands(arguments),
        },
        MirTerminator::Branch { condition, then_target, else_target } => Terminator::Branch {
            condition: convert_operand(condition),
            then_target: *then_target,
            else_target: *else_target,
        },
        MirTerminator::PerformEffect { effect, payload, resume_target } => Terminator::PerformEffect {
            effect: *effect,
            payload: convert_opt_operand(payload),
            resume_target: *resume_target,
        },
        MirTerminator::StateDispatch { state, cases, default_target } => Terminator::StateDispatch {
            state: *state,
            cases: copy_cases(cases),
            default_target: *default_target,
        },
        MirTerminator::YieldToRuntime { effect, payload, resume_state } => Terminator::YieldToRuntime {
            effect: *effect,
            payload: convert_opt_operand(payload),
            resume_state: *resume_state,
        },
        MirTerminator::Unreachable => Terminator::Unreachable,
    }
}

/// The model of an executable value: its id and origin, as for a MIR value.
pub open spec fn value_view(v: Value) -> (ValueRef, OriginModel) {
    (
        v.id,
        match v.origin {
            ValueOrigin::Parameter { index, name } => OriginModel::Parameter { index, name: name@ },
            ValueOrigin::BlockParameter { block, name } => OriginModel::BlockParameter { block, name: name@ },
            ValueOrigin::LetBinding { name } => OriginModel::LetBinding { name: name@ },
            ValueOrigin::MutRefBinding { name } => OriginModel::MutRefBinding { name: name@ },
            ValueOrigin::PinMutRefBinding { name } => OriginModel::PinMutRefBinding { name: name@ },
            ValueOrigin::Literal => OriginModel::Literal,
            ValueOrigin::Path => OriginModel::Path,
            ValueOrigin::CallResult => OriginModel::CallResult,
            ValueOrigin::Temporary => OriginModel::Temporary,
        },
    )
}

/// The models of a sequence of executable values.
pub open spec fn value_views(s: Seq<Value>) -> Seq<(ValueRef, OriginModel)> {
    s.map_values(|v: Value| value_view(v))
}

/// The executable value of a MIR value.
fn convert_value(v: &MirValue) -> (r: Value)
    ensures
        value_view(r) == v.model(),
{
    let origin = match &v.origin {
        MirValueOrigin::Parameter { index, name } => ValueOrigin::Parameter { index: *index, name: owned(name.as_str()) },
        MirValueOrigin::BlockParameter { block, name } => ValueOrigin::BlockParameter {
            block: *block,
            name: owned(name.as_str()),
        },
        MirValueOrigin::LetBinding { name } => ValueOrigin::LetBinding { name: owned(name.as_str()) },
        MirValueOrigin::MutRefBinding { name } => ValueOrigin::MutRefBinding { name: owned(name.as_str()) },
        MirValueOrigin::PinMutRefBinding { name } => ValueOrigin::PinMutRefBinding { name: owned(name.as_str()) },
        MirValueOrigin::Literal => ValueOrigin::Literal,
        MirValueOrigin::Path => ValueOrigin::Path,
        MirValueOrigin::CallResult => ValueOrigin::CallResult,
        MirValueOrigin::Temporary => ValueOrigin::Temporary,
    };
    Value { id: v.id, origin }
}

/// `b` is the executable form of the MIR block `m`: the same id, label and parameters, each
/// instruction converted in order, and the converted terminator.
pub open spec fn converted_block(b: Block, m: BlockModel) -> bool {
    &&& b.id == m.id
    &&& b.label@ == m.label
    &&& b.parameters@ == m.parameters
    &&& b.instructions@.len() == m.instructions.len()
    &&& forall|i: int| 0 <= i < m.instructions.len() ==> converted_instruction(#[trigger] b.instructions@[i], m.instructions[i])
    &&& terminator_view(b.terminator) == m.terminator
}

/// The executable block of a MIR block.
fn convert_block(b: &MirBlock) -> (r: Block)
    ensures
        converted_block(r, b.model()),
{
    let mut instructions: Vec<Instruction> = Vec::new();
    let mut i: usize = 0;
    while i < b.instructions.len()
        invariant
            i <= b.instructions.len(),
            instructions@.len() == i,
            forall|j: int| 0 <= j < i ==> converted_instruction(#[trigger] instructions@[j], b.instructions@[j].model()),
        decreases b.instructions.len() - i,
    {
        instructions.push(convert_instruction(&b.instructions[i]));
        i = i + 1;
    }
    let r = Block {
        id: b.id,
        label: owned(b.label.as_str()),
        parameters: copy_refs(&b.parameters),
        instructions,
        terminator: convert_terminator(&b.terminator),
    };
    assert forall|j: int| 0 <= j < b.model().instructions.len() implies converted_instruction(
        #[trigger] r.instructions@[j],
        b.model().instructions[j],
    ) by {
        assert(instruction_models(b.instructions@)[j] == b.instructions@[j].model());
    }
    r
}

/// `r` is the executable form of the MIR function `m`: the same symbol, entry and values,
/// every type concretized (value types keyed as before, in the same order), each block
/// converted in order, no suspend, frame, continuation or case metadata, no suspend plan, and
/// marked as already in state-machine form.
pub open spec fn converted_function(r: ExecutableFunction, m: FunctionModel) -> bool {
    &&& r.symbol@ == m.symbol
    &&& r.return_type.model() == concretize(m.return_type)
    &&& models(r.param_types@) == concretize_all(m.param_types)
    &&& r.value_types@.len() == m.value_types.len()
    &&& forall|i: int| 0 <= i < m.value_types.len() ==> (#[trigger] r.value_types@[i]).0 == m.value_types[i].0
        && r.value_types@[i].1.model() == concretize(m.value_types[i].1)
    &&& r.entry == m.entry
    &&& value_views(r.values@) == m.values
    &&& r.blocks@.len() == m.blocks.len()
    &&& forall|i: int| 0 <= i < m.blocks.len() ==> converted_block(#[trigger] r.blocks@[i], m.blocks[i])
    &&& r.suspend_points@.len() == 0
    &&& r.frame_layouts@.len() == 0
    &&& r.continuations@.len() == 0
    &&& r.case_chains@.len() == 0
    &&& r.suspend_plan is None
    &&& r.state_machine_lowered
}

/// The value types of a function with every type concretized, keys unchanged.
fn convert_value_types(vt: &ValueTypes<ValkyrieType>) -> (r: ValueTypes<NyarType>)
    ensures
        r@.len() == vt@.len(),
        forall|i: int| 0 <= i < vt@.len() ==> (#[trigger] r@[i]).0 == vt@[i].0 && r@[i].1.model() == concretize(
            vt@[i].1.model(),
        ),
{
    let n = vt.len();
    let mut out: ValueTypes<NyarType> = ValueTypes::new();
    let mut i: usize = 0;
    while i < n
        invariant
            n == vt@.len(),
            crate::executable::keys_increasing(vt@),
            i <= n,
            out@.len() == i,
            forall|j: int| 0 <= j < i ==> (#[trigger] out@[j]).0 == vt@[j].0 && out@[j].1.model() == concretize(
                vt@[j].1.model(),
            ),
        decreases n - i,
    {
        let (key, ty) = vt.entry_at(i);
        assert forall|j: int| 0 <= j < out@.len() implies out@[j].0.0 < key.0 by {
            assert(vt@[j].0.0 < vt@[i as int].0.0);
        }
        out.push_greatest(*key, concretize_type_lossy(ty));
        i = i + 1;
    }
    out
}

/// The executable form of a MIR function (see [`converted_function`]).
pub fn mir_function_to_executable(function: &MirFunction) -> (r: ExecutableFunction)
    ensures
        converted_function(r, function.model()),
{
    let mut values: Vec<Value> = Vec::new();
    let mut i: usize = 0;
    while i < function.values.len()
        invariant
            i <= function.values.len(),
            values@.len() == i,
            forall|j: int| 0 <= j < i ==> value_view(#[trigger] values@[j]) == function.values@[j].model(),
        decreases function.values.len() - i,
    {
        values.push(convert_value(&function.values[i]));
        i = i + 1;
    }
    assert(value_views(values@) =~= value_models(function.values@));
    let mut blocks: Vec<Block> = Vec::new();
    let mut k: usize = 0;
    while k < function.blocks.len()
        invariant
            k <= function.blocks.len(),
            blocks@.len() == k,
            forall|j: int| 0 <= j < k ==> converted_block(#[trigger] blocks@[j], function.blocks@[j].model()),
        decreases function.blocks.len() - k,
    {
        blocks.push(convert_block(&function.blocks[k]));
        k = k + 1;
    }
    let value_types = convert_value_types(&function.value_types);
    let r = ExecutableFunction {
        symbol: owned(function.symbol.as_str()),
        return_type: concretize_type_lossy(&function.return_type),
        param_types: concretize_types(&function.param_types),
        value_types,
        entry: function.entry,
        values,
        suspend_points: Vec::new(),
        frame_layouts: Vec::new(),
        continuations: Vec::new(),
        case_chains: Vec::new(),
        suspend_plan: None,
        state_machine_lowered: true,
        blocks,
    };
    let ghost m = function.model();
    assert forall|j: int| 0 <= j < m.blocks.len() implies converted_block(#[trigger] r.blocks@[j], m.blocks[j]) by {
        assert(block_models(function.blocks@)[j] == function.blocks@[j].model());
    }
    assert forall|j: int| 0 <= j < m.value_types.len() implies (#[trigger] r.value_types@[j]).0 == m.value_types[j].0
        && r.value_types@[j].1.model() == concretize(m.value_types[j].1) by {
        assert(vt_models(function.value_types@)[j] == (function.value_types@[j].0, function.value_types@[j].1.model()));
    }
    r
}


/// Position `i` is the last pair of `functions` for the operation `key`.
pub open spec fn last_pair_for(functions: Seq<(QualifiedName, MirFunction)>, i: int, key: Seq<Seq<char>>) -> bool {
    &&& 0 <= i < functions.len()
    &&& functions[i].0@ == key
    &&& forall|later: int| i < later < functions.len() ==> (#[trigger] functions[later]).0@ != key
}

/// `e` is the executable form of the last pair of `functions` for its operation.
pub open spec fn converted_entry(functions: Seq<(QualifiedName, MirFunction)>, e: OperationEntry) -> bool {
    exists|i: int| #[trigger] last_pair_for(functions, i, e.0@) && converted_function(e.1, functions[i].1.model())
}

/// The executable forms of MIR functions keyed by operation. Entries come out sorted by
/// operation; where an operation occurs more than once, the last pair for it is kept.
pub fn mir_functions_to_executable_map(functions: &[(QualifiedName, MirFunction)]) -> (r: MirFunctionMapProvider)
    ensures
        operations_increasing(r@),
        forall|i: int| 0 <= i < functions@.len() ==> has_operation(r@, (#[trigger] functions@[i]).0@),
        forall|j: int| 0 <= j < r@.len() ==> converted_entry(functions@, #[trigger] r@[j]),
{
    let mut pairs: Vec<OperationEntry> = Vec::new();
    let mut i: usize = 0;
    while i < functions.len()
        invariant
            i <= functions@.len(),
            pairs@.len() == i,
            forall|j: int| 0 <= j < i ==> (#[trigger] pairs@[j]).0@ == functions@[j].0@ && converted_function(
                pairs@[j].1,
                functions@[j].1.model(),
            ),
        decreases functions@.len() - i,
    {
        let (name, function) = &functions[i];
        pairs.push((name.duplicate(), mir_function_to_executable(function)));
        i = i + 1;
    }
    let ghost input = pairs@;
    let r = MirFunctionMapProvider::new(pairs);
    assert forall|i: int| 0 <= i < functions@.len() implies has_operation(r@, (#[trigger] functions@[i]).0@) by {
        assert(has_operation(r@, input[i].0@));
    }
    assert forall|j: int| 0 <= j < r@.len() implies converted_entry(functions@, #[trigger] r@[j]) by {
        let key = r@[j].0@;
        let k = last_index_of_key(input, key);
        lemma_last_index_of_key(input, key);
        assert(crate::executable_provider::from_last_pair(input, r@[j]));
        assert(r@[j].1 == input[k].1);
        assert(converted_function(r@[j].1, functions@[k].1.model()));
        assert(last_pair_for(functions@, k, key)) by {
            assert forall|later: int| k < later < functions@.len() implies (#[trigger] functions@[later]).0@ != key by {
                assert(input[later].0@ != key);
            }
        }
        assert(last_pair_for(functions@, k, key) && converted_function(r@[j].1, functions@[k].1.model()));
    }
    r
}


/// `r` has the shape of `t` with the same control-flow targets, effects and states: a return
/// stays a return, a jump keeps its target and argument count, a branch keeps its then-target
/// as then-target and its else-target as else-target, and so on.
pub open spec fn same_targets(t: MirTerminator, r: Terminator) -> bool {
    match t {
        MirTerminator::Return { value } => r matches Terminator::Return { value: v } && (v is Some) == (value is Some),
        MirTerminator::Jump { target, arguments } => r matches Terminator::Jump { target: rt, arguments: ra }
            && rt == target && ra@.len() == arguments@.len(),
        MirTerminator::Branch { then_target, else_target, .. } => r matches Terminator::Branch {
            then_target: rt,
            else_target: re,
            ..
        } && rt == then_target && re == else_target,
        MirTerminator::PerformEffect { effect, payload, resume_target } => r matches Terminator::PerformEffect {
            effect: e,
            payload: p,
            resume_target: rt,
        } && e == effect && rt == resume_target && (p is Some) == (payload is Some),
        MirTerminator::StateDispatch { state, cases, default_target } => r matches Terminator::StateDispatch {
            state: rs,
            cases: rc,
            default_target: rd,
        } && rs == state && rc@ == cases@ && rd == default_target,
        MirTerminator::YieldToRuntime { effect, payload, resume_state } => r matches Terminator::YieldToRuntime {
            effect: e,
            payload: p,
            resume_state: rs,
        } && e == effect && rs == resume_state && (p is Some) == (payload is Some),
        MirTerminator::Unreachable => r is Unreachable,
    }
}

/// An executable terminator whose model is a MIR terminator's model has that terminator's
/// shape and targets: in particular a branch keeps its then- and else-targets in place.
pub proof fn lemma_converted_terminator_targets(t: MirTerminator, r: Terminator)
    requires
        terminator_view(r) == t.model(),
    ensures
        same_targets(t, r),
{
    match t {
        MirTerminator::Jump { arguments, .. } => {
            if let Terminator::Jump { arguments: ra, .. } = r {
                assert(operand_views(ra@).len() == ra@.len());
                assert(operand_models(arguments@).len() == arguments@.len());
            }
        },
        _ => {},
    }
}

/// Converting a function keeps each block's terminator shape and targets: a block ending in a
/// branch still branches to the same then- and else-blocks.
pub proof fn lemma_converted_function_targets(r: ExecutableFunction, f: MirFunction)
    requires
        converted_function(r, f.model()),
    ensures
        r.blocks@.len() == f.blocks@.len(),
        forall|i: int| 0 <= i < f.blocks@.len() ==> same_targets(#[trigger] f.blocks@[i].terminator, r.blocks@[i].terminator),
{
    assert forall|i: int| 0 <= i < f.blocks@.len() implies same_targets(#[trigger] f.blocks@[i].terminator, r.blocks@[i].terminator) by {
        assert(block_models(f.blocks@)[i] == f.blocks@[i].model());
        assert(converted_block(r.blocks@[i], f.model().blocks[i]));
        lemma_converted_terminator_targets(f.blocks@[i].terminator, r.blocks@[i].terminator);
    }
}


/// The operands a MIR operation reads, in order: the callee then the arguments of a call, the
/// field initializers of a construction, the object then the stored value of a field store, the
/// array, index and value of an element store, and so on.
pub open spec fn mir_operands(m: OperationModel) -> Seq<OperandModel> {
    match m {
        OperationModel::LoadConstant { .. } => Seq::empty(),
        OperationModel::LoadSymbol { .. } => Seq::empty(),
        OperationModel::Copy { source } => seq![source],
        OperationModel::StoreVar { value, .. } => seq![value],
        OperationModel::Call { callee, arguments } => seq![callee] + arguments,
        OperationModel::StructNew { fields, .. } => fields.map_values(|p: (Seq<char>, OperandModel)| p.1),
        OperationModel::TupleNew { fields } => fields,
        OperationModel::AggregateCopy { source, dest } => seq![source, dest],
        OperationModel::FieldGet { object, .. } => seq![object],
        OperationModel::FieldSet { object, value, .. } => seq![object, value],
        OperationModel::SumNew { payload, .. } => match payload {
            Some(p) => seq![p],
            None => Seq::empty(),
        },
        OperationModel::SumPayloadGet { object, .. } => seq![object],
        OperationModel::SumVariantIs { object, .. } => seq![object],
        OperationModel::PatternMatch { value, .. } => seq![value],
        OperationModel::ArrayNew { length, fill, .. } => match fill {
            Some(x) => seq![length, x],
            None => seq![length],
        },
        OperationModel::ArrayFromElements { elements, .. } => elements,
        OperationModel::ArrayGet { array, index } => seq![array, index],
        OperationModel::ArraySet { array, index, value } => seq![array, index, value],
        OperationModel::ArrayLength { array } => seq![array],
    }
}

/// Conversion keeps what each instruction reads: the operands that the semantic checks read
/// from the converted instruction are the MIR operation's operands, in the same order.
pub proof fn lemma_converted_kind_operands(k: InstructionKind, m: OperationModel)
    requires
        converted_kind(k, m),
    ensures
        operand_views(operands_of(k)) == mir_operands(m),
{
    match k {
        InstructionKind::Call { callee, arguments, .. } => {
            assert(operand_views(operands_of(k)) =~= seq![operand_view(callee)] + operand_views(arguments@));
        },
        InstructionKind::StructNew { fields, .. } => {
            if let OperationModel::StructNew { fields: mf, .. } = m {
                assert(named_views(fields@) == mf);
                assert(operand_views(operands_of(k)) =~= mf.map_values(|p: (Seq<char>, OperandModel)| p.1));
            }
        },
        InstructionKind::ArrayNew { initialization, .. } => {
            assert(operand_views(operands_of(k)) =~= mir_operands(m));
        },
        InstructionKind::SumNew { payload, .. } => {
            assert(operand_views(operands_of(k)) =~= mir_operands(m));
        },
        _ => {
            assert(operand_views(operands_of(k)) =~= mir_operands(m));
        },
    }
}

} // verus!
