//! The language-level MIR that linking reads and rewrites, with a mathematical model of
//! each of its types.
use vstd::prelude::*;
use crate::executable::{lookup, vt_insert, BlockRef, EffectKind, ValueRef, ValueTypes};
use crate::names::{Identifier, NamePath};
use crate::layout::{AggregateLayoutPlan, SumTypeLayout};
use crate::text::owned;

verus! {

/// A source-language type.
#[derive(Debug)]
pub enum ValkyrieType {
    Unit,
    Boolean,
    Integer8 { signed: bool },
    Integer16 { signed: bool },
    Integer32 { signed: bool },
    Integer64 { signed: bool },
    Integer128 { signed: bool },
    Utf8,
    Named(Identifier),
    Apply(Box<ValkyrieType>, Vec<ValkyrieType>),
    Array(Box<ValkyrieType>),
    Nullable(Box<ValkyrieType>),
    Tuple(Vec<ValkyrieType>),
}

/// The mathematical value of a [`ValkyrieType`].
pub ghost enum VType {
    Unit,
    Boolean,
    Integer8 { signed: bool },
    Integer16 { signed: bool },
    Integer32 { signed: bool },
    Integer64 { signed: bool },
    Integer128 { signed: bool },
    Utf8,
    Named(Seq<char>),
    Apply(Box<VType>, Seq<VType>),
    Array(Box<VType>),
    Nullable(Box<VType>),
    Tuple(Seq<VType>),
}

impl ValkyrieType {
    /// The model of this type.
    pub open spec fn model(&self) -> VType
        decreases self,
    {
        match self {
            ValkyrieType::Unit => VType::Unit,
            ValkyrieType::Boolean => VType::Boolean,
            ValkyrieType::Integer8 { signed } => VType::Integer8 { signed: *signed },
            ValkyrieType::Integer16 { signed } => VType::Integer16 { signed: *signed },
            ValkyrieType::Integer32 { signed } => VType::Integer32 { signed: *signed },
            ValkyrieType::Integer64 { signed } => VType::Integer64 { signed: *signed },
            ValkyrieType::Integer128 { signed } => VType::Integer128 { signed: *signed },
            ValkyrieType::Utf8 => VType::Utf8,
            ValkyrieType::Named(name) => VType::Named(name@),
            ValkyrieType::Apply(base, args) => VType::Apply(Box::new(base.model()), vmodels(args@)),
            ValkyrieType::Array(element) => VType::Array(Box::new(element.model())),
            ValkyrieType::Nullable(inner) => VType::Nullable(Box::new(inner.model())),
            ValkyrieType::Tuple(elements) => VType::Tuple(vmodels(elements@)),
        }
    }
}

/// The models of a sequence of types.
pub open spec fn vmodels(s: Seq<ValkyrieType>) -> Seq<VType>
    decreases s,
{
    if s.len() == 0 {
        Seq::empty()
    } else {
        seq![s[0].model()] + vmodels(s.subrange(1, s.len() as int))
    }
}

/// `vmodels` is taken element by element.
pub broadcast proof fn lemma_vmodels(s: Seq<ValkyrieType>)
    ensures
        #[trigger] vmodels(s).len() == s.len(),
        forall|i: int| 0 <= i < s.len() ==> #[trigger] vmodels(s)[i] == s[i].model(),
    decreases s.len(),
{
    if s.len() > 0 {
        lemma_vmodels(s.subrange(1, s.len() as int));
        assert forall|i: int| 0 <= i < s.len() implies #[trigger] vmodels(s)[i] == s[i].model() by {
            if i > 0 {
                assert(s.subrange(1, s.len() as int)[i - 1] == s[i]);
            }
        }
    }
}

/// Sequences of types agreeing element by element have equal models.
pub proof fn lemma_vmodels_equal(a: Seq<ValkyrieType>, b: Seq<VType>)
    requires
        a.len() == b.len(),
        forall|i: int| 0 <= i < a.len() ==> a[i].model() == b[i],
    ensures
        vmodels(a) == b,
{
    lemma_vmodels(a);
    assert(vmodels(a) =~= b);
}

/// A copy of a type with the same model.
pub fn copy_valkyrie(t: &ValkyrieType) -> (r: ValkyrieType)
    ensures
        r.model() == t.model(),
    decreases t,
{
    match t {
        ValkyrieType::Unit => ValkyrieType::Unit,
        ValkyrieType::Boolean => ValkyrieType::Boolean,
        ValkyrieType::Integer8 { signed } => ValkyrieType::Integer8 { signed: *signed },
        ValkyrieType::Integer16 { signed } => ValkyrieType::Integer16 { signed: *signed },
        ValkyrieType::Integer32 { signed } => ValkyrieType::Integer32 { signed: *signed },
        ValkyrieType::Integer64 { signed } => ValkyrieType::Integer64 { signed: *signed },
        ValkyrieType::Integer128 { signed } => ValkyrieType::Integer128 { signed: *signed },
        ValkyrieType::Utf8 => ValkyrieType::Utf8,
        ValkyrieType::Named(name) => ValkyrieType::Named(owned(name.as_str())),
        ValkyrieType::Apply(base, args) => ValkyrieType::Apply(
            Box::new(copy_valkyrie(base)),
            copy_valkyrie_list(args),
        ),
        ValkyrieType::Array(element) => ValkyrieType::Array(Box::new(copy_valkyrie(element))),
        ValkyrieType::Nullable(inner) => ValkyrieType::Nullable(Box::new(copy_valkyrie(inner))),
        ValkyrieType::Tuple(elements) => ValkyrieType::Tuple(copy_valkyrie_list(elements)),
    }
}

/// A copy of a type list with the same models.
pub fn copy_valkyrie_list(v: &Vec<ValkyrieType>) -> (r: Vec<ValkyrieType>)
    ensures
        vmodels(r@) == vmodels(v@),
        r@.len() == v@.len(),
    decreases v,
{
    let mut out: Vec<ValkyrieType> = Vec::new();
    let mut i: usize = 0;
    while i < v.len()
        invariant
            i <= v.len(),
            out@.len() == i,
            forall|j: int| 0 <= j < i ==> #[trigger] out@[j].model() == v@[j].model(),
        decreases v.len() - i,
    {
        proof {
            assert(decreases_to!(v => v@[i as int]));
        }
        out.push(copy_valkyrie(&v[i]));
        i = i + 1;
    }
    proof {
        lemma_vmodels(v@);
        lemma_vmodels_equal(out@, vmodels(v@));
    }
    out
}


/// A compile-time constant operand.
#[derive(Debug)]
pub enum MirConstant {
    Int(i64),
    Bool(bool),
    Utf8(String),
    Utf16(String),
    Unit,
}

/// An instruction operand.
#[derive(Debug)]
pub enum MirOperand {
    Value(ValueRef),
    Constant(MirConstant),
    Symbol(NamePath),
}

/// The mathematical value of a [`MirOperand`].
pub ghost enum OperandModel {
    Value(ValueRef),
    Int(i64),
    Bool(bool),
    Utf8(Seq<char>),
    Utf16(Seq<char>),
    Unit,
    Symbol(Seq<Seq<char>>),
}

impl MirOperand {
    /// The model of this operand.
    pub open spec fn model(&self) -> OperandModel {
        match self {
            MirOperand::Value(v) => OperandModel::Value(*v),
            MirOperand::Constant(MirConstant::Int(n)) => OperandModel::Int(*n),
            MirOperand::Constant(MirConstant::Bool(b)) => OperandModel::Bool(*b),
            MirOperand::Constant(MirConstant::Utf8(t)) => OperandModel::Utf8(t@),
            MirOperand::Constant(MirConstant::Utf16(t)) => OperandModel::Utf16(t@),
            MirOperand::Constant(MirConstant::Unit) => OperandModel::Unit,
            MirOperand::Symbol(path) => OperandModel::Symbol(path@),
        }
    }
}

/// The models of a sequence of operands.
pub open spec fn operand_models(s: Seq<MirOperand>) -> Seq<OperandModel> {
    s.map_values(|o: MirOperand| o.model())
}

/// The model of an optional operand.
pub open spec fn opt_operand_model(o: Option<MirOperand>) -> Option<OperandModel> {
    match o {
        Some(o) => Some(o.model()),
        None => None,
    }
}

/// The model of an optional type.
pub open spec fn opt_vtype(t: Option<ValkyrieType>) -> Option<VType> {
    match t {
        Some(t) => Some(t.model()),
        None => None,
    }
}

/// A copy of a name path with the same segments.
pub fn copy_path(path: &NamePath) -> (r: NamePath)
    ensures
        r@ == path@,
{
    NamePath { parts: crate::names::copy_strings(&path.parts) }
}

/// A copy of an operand with the same model.
pub fn copy_operand(o: &MirOperand) -> (r: MirOperand)
    ensures
        r.model() == o.model(),
{
    match o {
        MirOperand::Value(v) => MirOperand::Value(*v),
        MirOperand::Constant(MirConstant::Int(n)) => MirOperand::Constant(MirConstant::Int(*n)),
        MirOperand::Constant(MirConstant::Bool(b)) => MirOperand::Constant(MirConstant::Bool(*b)),
        MirOperand::Constant(MirConstant::Utf8(t)) => MirOperand::Constant(MirConstant::Utf8(owned(t.as_str()))),
        MirOperand::Constant(MirConstant::Utf16(t)) => MirOperand::Constant(MirConstant::Utf16(owned(t.as_str()))),
        MirOperand::Constant(MirConstant::Unit) => MirOperand::Constant(MirConstant::Unit),
        MirOperand::Symbol(path) => MirOperand::Symbol(copy_path(path)),
    }
}

/// A copy of an operand list with the same models.
pub fn copy_operands(v: &Vec<MirOperand>) -> (r: Vec<MirOperand>)
    ensures
        operand_models(r@) == operand_models(v@),
{
    let mut out: Vec<MirOperand> = Vec::new();
    let mut i: usize = 0;
    while i < v.len()
        invariant
            i <= v.len(),
            out@.len() == i,
            forall|j: int| 0 <= j < i ==> #[trigger] out@[j].model() == v@[j].model(),
        decreases v.len() - i,
    {
        out.push(copy_operand(&v[i]));
        i = i + 1;
    }
    assert(operand_models(out@) =~= operand_models(v@));
    out
}

/// A copy of an optional operand with the same model.
pub fn copy_opt_operand(o: &Option<MirOperand>) -> (r: Option<MirOperand>)
    ensures
        opt_operand_model(r) == opt_operand_model(*o),
{
    match o {
        Some(o) => Some(copy_operand(o)),
        None => None,
    }
}

/// A copy of an optional type with the same model.
pub fn copy_opt_valkyrie(t: &Option<ValkyrieType>) -> (r: Option<ValkyrieType>)
    ensures
        opt_vtype(r) == opt_vtype(*t),
{
    match t {
        Some(t) => Some(copy_valkyrie(t)),
        None => None,
    }
}

/// The models of named operands, such as the field initializers of a struct construction.
pub open spec fn named_operand_models(s: Seq<(Identifier, MirOperand)>) -> Seq<(Seq<char>, OperandModel)> {
    s.map_values(|f: (Identifier, MirOperand)| (f.0@, f.1.model()))
}

/// A copy of named operands with the same models.
pub fn copy_named_operands(v: &Vec<(Identifier, MirOperand)>) -> (r: Vec<(Identifier, MirOperand)>)
    ensures
        named_operand_models(r@) == named_operand_models(v@),
{
    let mut out: Vec<(Identifier, MirOperand)> = Vec::new();
    let mut i: usize = 0;
    while i < v.len()
        invariant
            i <= v.len(),
            out@.len() == i,
            forall|j: int| 0 <= j < i ==> (#[trigger] out@[j]).0@ == v@[j].0@ && out@[j].1.model() == v@[j].1.model(),
        decreases v.len() - i,
    {
        out.push((owned(v[i].0.as_str()), copy_operand(&v[i].1)));
        i = i + 1;
    }
    assert(named_operand_models(out@) =~= named_operand_models(v@));
    out
}

/// How a new array is initialised.
#[derive(Debug)]
pub enum MirArrayInitialization {
    Default,
    Fill(MirOperand),
}

/// The operation an instruction performs.
#[derive(Debug)]
pub enum MirOperation {
    LoadConstant { constant: MirConstant, ty: Option<ValkyrieType> },
    LoadSymbol { path: NamePath },
    Copy { source: MirOperand },
    StoreVar { name: Identifier, value: MirOperand, ty: Option<ValkyrieType> },
    Call { callee: MirOperand, arguments: Vec<MirOperand> },
    StructNew { struct_name: Identifier, fields: Vec<(Identifier, MirOperand)> },
    TupleNew { fields: Vec<MirOperand> },
    AggregateCopy { source: MirOperand, dest: MirOperand },
    FieldGet { object: MirOperand, field: Identifier },
    FieldSet { object: MirOperand, field: Identifier, value: MirOperand },
    SumNew {
        sum_type: Identifier,
        type_args: Vec<ValkyrieType>,
        variant: Identifier,
        payload_type: Option<ValkyrieType>,
        payload: Option<MirOperand>,
    },
    SumPayloadGet {
        sum_type: Identifier,
        type_args: Vec<ValkyrieType>,
        variant: Identifier,
        payload_type: ValkyrieType,
        object: MirOperand,
    },
    SumVariantIs { sum_type: Identifier, type_args: Vec<ValkyrieType>, variant: Identifier, object: MirOperand },
    PatternMatch { value: MirOperand, pattern: String },
    ArrayNew { array_type: ValkyrieType, length: MirOperand, initialization: MirArrayInitialization },
    ArrayFromElements { array_type: ValkyrieType, elements: Vec<MirOperand> },
    ArrayGet { array: MirOperand, index: MirOperand },
    ArraySet { array: MirOperand, index: MirOperand, value: MirOperand },
    ArrayLength { array: MirOperand },
}

/// The mathematical value of a [`MirOperation`]; a constant is taken as the operand it loads,
/// and an array fill value as the optional operand it holds.
pub ghost enum OperationModel {
    LoadConstant { constant: OperandModel, ty: Option<VType> },
    LoadSymbol { path: Seq<Seq<char>> },
    Copy { source: OperandModel },
    StoreVar { name: Seq<char>, value: OperandModel, ty: Option<VType> },
    Call { callee: OperandModel, arguments: Seq<OperandModel> },
    StructNew { struct_name: Seq<char>, fields: Seq<(Seq<char>, OperandModel)> },
    TupleNew { fields: Seq<OperandModel> },
    AggregateCopy { source: OperandModel, dest: OperandModel },
    FieldGet { object: OperandModel, field: Seq<char> },
    FieldSet { object: OperandModel, field: Seq<char>, value: OperandModel },
    SumNew {
        sum_type: Seq<char>,
        type_args: Seq<VType>,
        variant: Seq<char>,
        payload_type: Option<VType>,
        payload: Option<OperandModel>,
    },
    SumPayloadGet {
        sum_type: Seq<char>,
        type_args: Seq<VType>,
        variant: Seq<char>,
        payload_type: VType,
        object: OperandModel,
    },
    SumVariantIs { sum_type: Seq<char>, type_args: Seq<VType>, variant: Seq<char>, object: OperandModel },
    PatternMatch { value: OperandModel, pattern: Seq<char> },
    ArrayNew { array_type: VType, length: OperandModel, fill: Option<OperandModel> },
    ArrayFromElements { array_type: VType, elements: Seq<OperandModel> },
    ArrayGet { array: OperandModel, index: OperandModel },
    ArraySet { array: OperandModel, index: OperandModel, value: OperandModel },
    ArrayLength { array: OperandModel },
}

/// The operand model of a constant.
pub open spec fn constant_model(c: MirConstant) -> OperandModel {
    MirOperand::Constant(c).model()
}

/// A copy of a constant with the same model.
pub fn copy_constant(c: &MirConstant) -> (r: MirConstant)
    ensures
        constant_model(r) == constant_model(*c),
{
    match c {
        MirConstant::Int(n) => MirConstant::Int(*n),
        MirConstant::Bool(b) => MirConstant::Bool(*b),
        MirConstant::Utf8(t) => MirConstant::Utf8(owned(t.as_str())),
        MirConstant::Utf16(t) => MirConstant::Utf16(owned(t.as_str())),
        MirConstant::Unit => MirConstant::Unit,
    }
}

impl MirOperation {
    /// The model of this operation.
    pub open spec fn model(&self) -> OperationModel {
        match self {
            MirOperation::LoadConstant { constant, ty } => OperationModel::LoadConstant {
                constant: constant_model(*constant),
                ty: opt_vtype(*ty),
            },
            MirOperation::LoadSymbol { path } => OperationModel::LoadSymbol { path: path@ },
            MirOperation::Copy { source } => OperationModel::Copy { source: source.model() },
            MirOperation::StoreVar { name, value, ty } => OperationModel::StoreVar {
                name: name@,
                value: value.model(),
                ty: opt_vtype(*ty),
            },
            MirOperation::Call { callee, arguments } => OperationModel::Call {
                callee: callee.model(),
                arguments: operand_models(arguments@),
            },
            MirOperation::StructNew { struct_name, fields } => OperationModel::StructNew {
                struct_name: struct_name@,
                fields: named_operand_models(fields@),
            },
            MirOperation::TupleNew { fields } => OperationModel::TupleNew { fields: operand_models(fields@) },
            MirOperation::AggregateCopy { source, dest } => OperationModel::AggregateCopy {
                source: source.model(),
                dest: dest.model(),
            },
            MirOperation::FieldGet { object, field } => OperationModel::FieldGet {
                object: object.model(),
                field: field@,
            },
            MirOperation::FieldSet { object, field, value } => OperationModel::FieldSet {
                object: object.model(),
                field: field@,
                value: value.model(),
            },
            MirOperation::SumNew { sum_type, type_args, variant, payload_type, payload } => OperationModel::SumNew {
                sum_type: sum_type@,
                type_args: vmodels(type_args@),
                variant: variant@,
                payload_type: opt_vtype(*payload_type),
                payload: opt_operand_model(*payload),
            },
            MirOperation::SumPayloadGet { sum_type, type_args, variant, payload_type, object } => OperationModel::SumPayloadGet {
                sum_type: sum_type@,
                type_args: vmodels(type_args@),
                variant: variant@,
                payload_type: payload_type.model(),
                object: object.model(),
            },
            MirOperation::SumVariantIs { sum_type, type_args, variant, object } => OperationModel::SumVariantIs {
                sum_type: sum_type@,
                type_args: vmodels(type_args@),
                variant: variant@,
                object: object.model(),
            },
            MirOperation::PatternMatch { value, pattern } => OperationModel::PatternMatch {
                value: value.model(),
                pattern: pattern@,
            },
            MirOperation::ArrayNew { array_type, length, initialization } => OperationModel::ArrayNew {
                array_type: array_type.model(),
                length: length.model(),
                fill: match initialization {
                    MirArrayInitialization::Default => None,
                    MirArrayInitialization::Fill(v) => Some(v.model()),
                },
            },
            MirOperation::ArrayFromElements { array_type, elements } => OperationModel::ArrayFromElements {
                array_type: array_type.model(),
                elements: operand_models(elements@),
            },
            MirOperation::ArrayGet { array, index } => OperationModel::ArrayGet {
                array: array.model(),
                index: index.model(),
            },
            MirOperation::ArraySet { array, index, value } => OperationModel::ArraySet {
                array: array.model(),
                index: index.model(),
                value: value.model(),
            },
            MirOperation::ArrayLength { array } => OperationModel::ArrayLength { array: array.model() },
        }
    }
}

/// A copy of an operation with the same model.
pub fn copy_operation(op: &MirOperation) -> (r: MirOperation)
    ensures
        r.model() == op.model(),
{
    match op {
        MirOperation::LoadConstant { constant, ty } => MirOperation::LoadConstant {
            constant: copy_constant(constant),
            ty: copy_opt_valkyrie(ty),
        },
        MirOperation::LoadSymbol { path } => MirOperation::LoadSymbol { path: copy_path(path) },
        MirOperation::Copy { source } => MirOperation::Copy { source: copy_operand(source) },
        MirOperation::StoreVar { name, value, ty } => MirOperation::StoreVar {
            name: owned(name.as_str()),
            value: copy_operand(value),
            ty: copy_opt_valkyrie(ty),
        },
        MirOperation::Call { callee, arguments } => MirOperation::Call {
            callee: copy_operand(callee),
            arguments: copy_operands(arguments),
        },
        MirOperation::StructNew { struct_name, fields } => MirOperation::StructNew {
            struct_name: owned(struct_name.as_str()),
            fields: copy_named_operands(fields),
        },
        MirOperation::TupleNew { fields } => MirOperation::TupleNew { fields: copy_operands(fields) },
        MirOperation::AggregateCopy { source, dest } => MirOperation::AggregateCopy {
            source: copy_operand(source),
            dest: copy_operand(dest),
        },
        MirOperation::FieldGet { object, field } => MirOperation::FieldGet {
            object: copy_operand(object),
            field: owned(field.as_str()),
        },
        MirOperation::FieldSet { object, field, value } => MirOperation::FieldSet {
            object: copy_operand(object),
            field: owned(field.as_str()),
            value: copy_operand(value),
        },
        MirOperation::SumNew { sum_type, type_args, variant, payload_type, payload } => MirOperation::SumNew {
            sum_type: owned(sum_type.as_str()),
            type_args: copy_valkyrie_list(type_args),
            variant: owned(variant.as_str()),
            payload_type: copy_opt_valkyrie(payload_type),
            payload: copy_opt_operand(payload),
        },
        MirOperation::SumPayloadGet { sum_type, type_args, variant, payload_type, object } => MirOperation::SumPayloadGet {
            sum_type: owned(sum_type.as_str()),
            type_args: copy_valkyrie_list(type_args),
            variant: owned(variant.as_str()),
            payload_type: copy_valkyrie(payload_type),
            object: copy_operand(object),
        },
        MirOperation::SumVariantIs { sum_type, type_args, variant, object } => MirOperation::SumVariantIs {
            sum_type: owned(sum_type.as_str()),
            type_args: copy_valkyrie_list(type_args),
            variant: owned(variant.as_str()),
            object: copy_operand(object),
        },
        MirOperation::PatternMatch { value, pattern } => MirOperation::PatternMatch {
            value: copy_operand(value),
            pattern: owned(pattern.as_str()),
        },
        MirOperation::ArrayNew { array_type, length, initialization } => MirOperation::ArrayNew {
            array_type: copy_valkyrie(array_type),
            length: copy_operand(length),
            initialization: match initialization {
                MirArrayInitialization::Default => MirArrayInitialization::Default,
                MirArrayInitialization::Fill(v) => MirArrayInitialization::Fill(copy_operand(v)),
            },
        },
        MirOperation::ArrayFromElements { array_type, elements } => MirOperation::ArrayFromElements {
            array_type: copy_valkyrie(array_type),
            elements: copy_operands(elements),
        },
        MirOperation::ArrayGet { array, index } => MirOperation::ArrayGet {
            array: copy_operand(array),
            index: copy_operand(index),
        },
        MirOperation::ArraySet { array, index, value } => MirOperation::ArraySet {
            array: copy_operand(array),
            index: copy_operand(index),
            value: copy_operand(value),
        },
        MirOperation::ArrayLength { array } => MirOperation::ArrayLength { array: copy_operand(array) },
    }
}

/// An instruction and the SSA values it defines (the first is its primary result).
#[derive(Debug)]
pub struct MirInstruction {
    pub results: Vec<ValueRef>,
    pub kind: MirOperation,
}

/// The mathematical value of a [`MirInstruction`].
pub ghost struct InstructionModel {
    pub results: Seq<ValueRef>,
    pub kind: OperationModel,
}

impl MirInstruction {
    /// The model of this instruction.
    pub open spec fn model(&self) -> InstructionModel {
        InstructionModel { results: self.results@, kind: self.kind.model() }
    }
}

/// The models of a sequence of instructions.
pub open spec fn instruction_models(s: Seq<MirInstruction>) -> Seq<InstructionModel> {
    s.map_values(|i: MirInstruction| i.model())
}

/// A copy of a list of value ids.
pub fn copy_value_refs(v: &Vec<ValueRef>) -> (r: Vec<ValueRef>)
    ensures
        r@ == v@,
{
    let mut out: Vec<ValueRef> = Vec::new();
    let mut i: usize = 0;
    while i < v.len()
        invariant
            i <= v.len(),
            out@ == v@.take(i as int),
        decreases v.len() - i,
    {
        out.push(v[i]);
        i = i + 1;
        assert(out@ =~= v@.take(i as int));
    }
    assert(v@.take(v@.len() as int) =~= v@);
    out
}

/// A copy of an instruction with the same model.
pub fn copy_instruction(ins: &MirInstruction) -> (r: MirInstruction)
    ensures
        r.model() == ins.model(),
{
    MirInstruction { results: copy_value_refs(&ins.results), kind: copy_operation(&ins.kind) }
}

/// How a block ends.
#[derive(Debug)]
pub enum MirTerminator {
    Return { value: Option<MirOperand> },
    Jump { target: BlockRef, arguments: Vec<MirOperand> },
    Branch { condition: MirOperand, then_target: BlockRef, else_target: BlockRef },
    PerformEffect { effect: EffectKind, payload: Option<MirOperand>, resume_target: BlockRef },
    StateDispatch { state: ValueRef, cases: Vec<(u32, BlockRef)>, default_target: BlockRef },
    YieldToRuntime { effect: EffectKind, payload: Option<MirOperand>, resume_state: u32 },
    Unreachable,
}

/// The mathematical value of a [`MirTerminator`].
pub ghost enum TerminatorModel {
    Return { value: Option<OperandModel> },
    Jump { target: BlockRef, arguments: Seq<OperandModel> },
    Branch { condition: OperandModel, then_target: BlockRef, else_target: BlockRef },
    PerformEffect { effect: EffectKind, payload: Option<OperandModel>, resume_target: BlockRef },
    StateDispatch { state: ValueRef, cases: Seq<(u32, BlockRef)>, default_target: BlockRef },
    YieldToRuntime { effect: EffectKind, payload: Option<OperandModel>, resume_state: u32 },
    Unreachable,
}

impl MirTerminator {
    /// The model of this terminator.
    pub open spec fn model(&self) -> TerminatorModel {
        match self {
            MirTerminator::Return { value } => TerminatorModel::Return { value: opt_operand_model(*value) },
            MirTerminator::Jump { target, arguments } => TerminatorModel::Jump {
                target: *target,
                arguments: operand_models(arguments@),
            },
            MirTerminator::Branch { condition, then_target, else_target } => TerminatorModel::Branch {
                condition: condition.model(),
                then_target: *then_target,
                else_target: *else_target,
            },
            MirTerminator::PerformEffect { effect, payload, resume_target } => TerminatorModel::PerformEffect {
                effect: *effect,
                payload: opt_operand_model(*payload),
                resume_target: *resume_target,
            },
            MirTerminator::StateDispatch { state, cases, default_target } => TerminatorModel::StateDispatch {
                state: *state,
                cases: cases@,
                default_target: *default_target,
            },
            MirTerminator::YieldToRuntime { effect, payload, resume_state } => TerminatorModel::YieldToRuntime {
                effect: *effect,
                payload: opt_operand_model(*payload),
                resume_state: *resume_state,
            },
            MirTerminator::Unreachable => TerminatorModel::Unreachable,
        }
    }
}

/// A copy of dispatch cases.
fn copy_cases(v: &Vec<(u32, BlockRef)>) -> (r: Vec<(u32, BlockRef)>)
    ensures
        r@ == v@,
{
    let mut out: Vec<(u32, BlockRef)> = Vec::new();
    let mut i: usize = 0;
    while i < v.len()
        invariant
            i <= v.len(),
            out@ == v@.take(i as int),
        decreases v.len() - i,
    {
        out.push(v[i]);
        i = i + 1;
        assert(out@ =~= v@.take(i as int));
    }
    assert(v@.take(v@.len() as int) =~= v@);
    out
}

/// A copy of a terminator with the same model.
pub fn copy_terminator(t: &MirTerminator) -> (r: MirTerminator)
    ensures
        r.model() == t.model(),
{
    match t {
        MirTerminator::Return { value } => MirTerminator::Return { value: copy_opt_operand(value) },
        MirTerminator::Jump { target, arguments } => MirTerminator::Jump {
            target: *target,
            arguments: copy_operands(arguments),
        },
        MirTerminator::Branch { condition, then_target, else_target } => MirTerminator::Branch {
            condition: copy_operand(condition),
            then_target: *then_target,
            else_target: *else_target,
        },
        MirTerminator::PerformEffect { effect, payload, resume_target } => MirTerminator::PerformEffect {
            effect: *effect,
            payload: copy_opt_operand(payload),
            resume_target: *resume_target,
        },
        MirTerminator::StateDispatch { state, cases, default_target } => MirTerminator::StateDispatch {
            state: *state,
            cases: copy_cases(cases),
            default_target: *default_target,
        },
        MirTerminator::YieldToRuntime { effect, payload, resume_state } => MirTerminator::YieldToRuntime {
            effect: *effect,
            payload: copy_opt_operand(payload),
            resume_state: *resume_state,
        },
        MirTerminator::Unreachable => MirTerminator::Unreachable,
    }
}

/// A basic block.
#[derive(Debug)]
pub struct MirBlock {
    pub id: BlockRef,
    pub label: String,
    pub parameters: Vec<ValueRef>,
    pub instructions: Vec<MirInstruction>,
    pub terminator: MirTerminator,
}

/// The mathematical value of a [`MirBlock`].
pub ghost struct BlockModel {
    pub id: BlockRef,
    pub label: Seq<char>,
    pub parameters: Seq<ValueRef>,
    pub instructions: Seq<InstructionModel>,
    pub terminator: TerminatorModel,
}

impl MirBlock {
    /// The model of this block.
    pub open spec fn model(&self) -> BlockModel {
        BlockModel {
            id: self.id,
            label: self.label@,
            parameters: self.parameters@,
            instructions: instruction_models(self.instructions@),
            terminator: self.terminator.model(),
        }
    }
}

/// The models of a sequence of blocks.
pub open spec fn block_models(s: Seq<MirBlock>) -> Seq<BlockModel> {
    s.map_values(|b: MirBlock| b.model())
}

/// A copy of a block with the same model.
pub fn copy_block(b: &MirBlock) -> (r: MirBlock)
    ensures
        r.model() == b.model(),
{
    let mut instructions: Vec<MirInstruction> = Vec::new();
    let mut i: usize = 0;
    while i < b.instructions.len()
        invariant
            i <= b.instructions.len(),
            instructions@.len() == i,
            forall|j: int| 0 <= j < i ==> #[trigger] instructions@[j].model() == b.instructions@[j].model(),
        decreases b.instructions.len() - i,
    {
        instructions.push(copy_instruction(&b.instructions[i]));
        i = i + 1;
    }
    assert(instruction_models(instructions@) =~= instruction_models(b.instructions@));
    MirBlock {
        id: b.id,
        label: owned(b.label.as_str()),
        parameters: copy_value_refs(&b.parameters),
        instructions,
        terminator: copy_terminator(&b.terminator),
    }
}

/// Where an SSA value comes from.
#[derive(Debug)]
pub enum MirValueOrigin {
    Parameter { index: u32, name: Identifier },
    BlockParameter { block: BlockRef, name: Identifier },
    LetBinding { name: Identifier },
    MutRefBinding { name: Identifier },
    PinMutRefBinding { name: Identifier },
    Literal,
    Path,
    CallResult,
    Temporary,
}

/// An SSA value and its origin.
#[derive(Debug)]
pub struct MirValue {
    pub id: ValueRef,
    pub origin: MirValueOrigin,
}

/// The mathematical value of a [`MirValueOrigin`].
pub ghost enum OriginModel {
    Parameter { index: u32, name: Seq<char> },
    BlockParameter { block: BlockRef, name: Seq<char> },
    LetBinding { name: Seq<char> },
    MutRefBinding { name: Seq<char> },
    PinMutRefBinding { name: Seq<char> },
    Literal,
    Path,
    CallResult,
    Temporary,
}

impl MirValue {
    /// The model of this value: its id and origin.
    pub open spec fn model(&self) -> (ValueRef, OriginModel) {
        (
            self.id,
            match self.origin {
                MirValueOrigin::Parameter { index, name } => OriginModel::Parameter { index, name: name@ },
                MirValueOrigin::BlockParameter { block, name } => OriginModel::BlockParameter { block, name: name@ },
                MirValueOrigin::LetBinding { name } => OriginModel::LetBinding { name: name@ },
                MirValueOrigin::MutRefBinding { name } => OriginModel::MutRefBinding { name: name@ },
                MirValueOrigin::PinMutRefBinding { name } => OriginModel::PinMutRefBinding { name: name@ },
                MirValueOrigin::Literal => OriginModel::Literal,
                MirValueOrigin::Path => OriginModel::Path,
                MirValueOrigin::CallResult => OriginModel::CallResult,
                MirValueOrigin::Temporary => OriginModel::Temporary,
            },
        )
    }
}

/// The models of a sequence of values.
pub open spec fn value_models(s: Seq<MirValue>) -> Seq<(ValueRef, OriginModel)> {
    s.map_values(|v: MirValue| v.model())
}

/// A copy of a value with the same model.
pub fn copy_value(v: &MirValue) -> (r: MirValue)
    ensures
        r.model() == v.model(),
{
    let origin = match &v.origin {
        MirValueOrigin::Parameter { index, name } => MirValueOrigin::Parameter { index: *index, name: owned(name.as_str()) },
        MirValueOrigin::BlockParameter { block, name } => MirValueOrigin::BlockParameter {
            block: *block,
            name: owned(name.as_str()),
        },
        MirValueOrigin::LetBinding { name } => MirValueOrigin::LetBinding { name: owned(name.as_str()) },
        MirValueOrigin::MutRefBinding { name } => MirValueOrigin::MutRefBinding { name: owned(name.as_str()) },
        MirValueOrigin::PinMutRefBinding { name } => MirValueOrigin::PinMutRefBinding { name: owned(name.as_str()) },
        MirValueOrigin::Literal => MirValueOrigin::Literal,
        MirValueOrigin::Path => MirValueOrigin::Path,
        MirValueOrigin::CallResult => MirValueOrigin::CallResult,
        MirValueOrigin::Temporary => MirValueOrigin::Temporary,
    };
    MirValue { id: v.id, origin }
}

/// The value types of a function, each type taken by its model.
pub open spec fn vt_models(s: Seq<(ValueRef, ValkyrieType)>) -> Seq<(ValueRef, VType)> {
    s.map_values(|e: (ValueRef, ValkyrieType)| (e.0, e.1.model()))
}

/// Looking a value up among the models finds the model of its type.
pub proof fn lemma_lookup_models(s: Seq<(ValueRef, ValkyrieType)>, k: ValueRef)
    ensures
        lookup(vt_models(s), k) == match lookup(s, k) {
            Some(t) => Some(t.model()),
            None => None,
        },
    decreases s.len(),
{
    if s.len() > 0 {
        let rest = s.subrange(1, s.len() as int);
        lemma_lookup_models(rest, k);
        assert(vt_models(s).subrange(1, s.len() as int) =~= vt_models(rest));
    }
}

/// Setting a value's type commutes with taking models.
pub proof fn lemma_vt_insert_models(s: Seq<(ValueRef, ValkyrieType)>, k: ValueRef, t: ValkyrieType)
    ensures
        vt_models(vt_insert(s, k, t)) == vt_insert(vt_models(s), k, t.model()),
    decreases s.len(),
{
    let ms = vt_models(s);
    if s.len() == 0 {
        assert(vt_models(vt_insert(s, k, t)) =~= seq![(k, t.model())]);
    } else {
        let rest = s.subrange(1, s.len() as int);
        assert(ms.subrange(1, s.len() as int) =~= vt_models(rest));
        if s[0].0 == k {
            assert(vt_models(vt_insert(s, k, t)) =~= seq![(k, t.model())] + vt_models(rest));
        } else if k.0 < s[0].0.0 {
            assert(vt_models(vt_insert(s, k, t)) =~= seq![(k, t.model())] + ms);
        } else {
            lemma_vt_insert_models(rest, k, t);
            assert(vt_models(vt_insert(s, k, t)) =~= seq![ms[0]] + vt_models(vt_insert(rest, k, t)));
        }
    }
}

/// A function body in MIR.
#[derive(Debug)]
pub struct MirFunction {
    pub symbol: String,
    pub return_type: ValkyrieType,
    pub param_types: Vec<ValkyrieType>,
    pub value_types: ValueTypes<ValkyrieType>,
    pub entry: BlockRef,
    pub values: Vec<MirValue>,
    pub blocks: Vec<MirBlock>,
}

/// The mathematical value of a [`MirFunction`].
pub ghost struct FunctionModel {
    pub symbol: Seq<char>,
    pub return_type: VType,
    pub param_types: Seq<VType>,
    pub value_types: Seq<(ValueRef, VType)>,
    pub entry: BlockRef,
    pub values: Seq<(ValueRef, OriginModel)>,
    pub blocks: Seq<BlockModel>,
}

impl MirFunction {
    /// The model of this function.
    pub open spec fn model(&self) -> FunctionModel {
        FunctionModel {
            symbol: self.symbol@,
            return_type: self.return_type.model(),
            param_types: vmodels(self.param_types@),
            value_types: vt_models(self.value_types@),
            entry: self.entry,
            values: value_models(self.values@),
            blocks: block_models(self.blocks@),
        }
    }
}

/// A copy of a function's value types with the same models.
pub fn copy_value_types(vt: &ValueTypes<ValkyrieType>) -> (r: ValueTypes<ValkyrieType>)
    ensures
        vt_models(r@) == vt_models(vt@),
{
    let n = vt.len();
    let mut out: ValueTypes<ValkyrieType> = ValueTypes::new();
    let mut i: usize = 0;
    while i < n
        invariant
            n == vt@.len(),
            crate::executable::keys_increasing(vt@),
            i <= n,
            out@.len() == i,
            forall|j: int| 0 <= j < i ==> (#[trigger] out@[j]).0 == vt@[j].0 && out@[j].1.model() == vt@[j].1.model(),
        decreases n - i,
    {
        let (key, ty) = vt.entry_at(i);
        let copied = copy_valkyrie(ty);
        proof {
            assert forall|j: int| 0 <= j < out@.len() implies out@[j].0.0 < key.0 by {
                assert(vt@[j].0.0 < vt@[i as int].0.0);
            }
        }
        out.push_greatest(*key, copied);
        i = i + 1;
    }
    assert(vt_models(out@) =~= vt_models(vt@));
    out
}

/// A copy of a function with the same model.
pub fn copy_function(f: &MirFunction) -> (r: MirFunction)
    ensures
        r.model() == f.model(),
{
    let mut blocks: Vec<MirBlock> = Vec::new();
    let mut i: usize = 0;
    while i < f.blocks.len()
        invariant
            i <= f.blocks.len(),
            blocks@.len() == i,
            forall|j: int| 0 <= j < i ==> #[trigger] blocks@[j].model() == f.blocks@[j].model(),
        decreases f.blocks.len() - i,
    {
        blocks.push(copy_block(&f.blocks[i]));
        i = i + 1;
    }
    assert(block_models(blocks@) =~= block_models(f.blocks@));
    let mut values: Vec<MirValue> = Vec::new();
    let mut k: usize = 0;
    while k < f.values.len()
        invariant
            k <= f.values.len(),
            values@.len() == k,
            forall|j: int| 0 <= j < k ==> #[trigger] values@[j].model() == f.values@[j].model(),
        decreases f.values.len() - k,
    {
        values.push(copy_value(&f.values[k]));
        k = k + 1;
    }
    assert(value_models(values@) =~= value_models(f.values@));
    MirFunction {
        symbol: owned(f.symbol.as_str()),
        return_type: copy_valkyrie(&f.return_type),
        param_types: copy_valkyrie_list(&f.param_types),
        value_types: copy_value_types(&f.value_types),
        entry: f.entry,
        values,
        blocks,
    }
}

/// A struct declared in a module.
#[derive(Debug)]
pub struct MirStruct {
    pub name: Identifier,
    pub fields: Vec<(Identifier, ValkyrieType)>,
}

/// The mathematical value of a [`MirStruct`].
pub ghost struct StructModel {
    pub name: Seq<char>,
    pub fields: Seq<(Seq<char>, VType)>,
}

impl MirStruct {
    /// The model of this struct.
    pub open spec fn model(&self) -> StructModel {
        StructModel {
            name: self.name@,
            fields: self.fields@.map_values(|f: (Identifier, ValkyrieType)| (f.0@, f.1.model())),
        }
    }
}

/// The models of a sequence of structs.
pub open spec fn struct_models(s: Seq<MirStruct>) -> Seq<StructModel> {
    s.map_values(|st: MirStruct| st.model())
}

/// A copy of a struct with the same model.
pub fn copy_struct(st: &MirStruct) -> (r: MirStruct)
    ensures
        r.model() == st.model(),
{
    let mut fields: Vec<(Identifier, ValkyrieType)> = Vec::new();
    let mut i: usize = 0;
    while i < st.fields.len()
        invariant
            i <= st.fields.len(),
            fields@.len() == i,
            forall|j: int| 0 <= j < i ==> (#[trigger] fields@[j]).0@ == st.fields@[j].0@ && fields@[j].1.model()
                == st.fields@[j].1.model(),
        decreases st.fields.len() - i,
    {
        let f = &st.fields[i];
        fields.push((owned(f.0.as_str()), copy_valkyrie(&f.1)));
        i = i + 1;
    }
    let r = MirStruct { name: owned(st.name.as_str()), fields };
    assert(r.model().fields =~= st.model().fields);
    r
}

/// The models of a sequence of functions.
pub open spec fn function_models(s: Seq<MirFunction>) -> Seq<FunctionModel> {
    s.map_values(|f: MirFunction| f.model())
}

/// A MIR module: its functions, the nominal types they use, and its aggregate layouts.
#[derive(Debug)]
pub struct MirModule {
    pub name: String,
    pub functions: Vec<MirFunction>,
    pub structs: Vec<MirStruct>,
    pub aggregate_layouts: AggregateLayoutPlan,
    pub sum_types: Vec<SumTypeLayout>,
}

} // verus!
