//! Semantic MIR boundary contracts shared by all backend lowerers.
//!
//! The checks here validate only semantic metadata completeness; each reports the first
//! violation it meets, in a fixed order, as a coded error.
use vstd::prelude::*;
use crate::contracts::{instruction_primary_result, primary_result};
use crate::executable::{
    lookup, Block, BlockRef, Constant, ExecutableFunction, Instruction, IntrinsicOpcode,
    InstructionKind, Operand, Terminator, ValueRef, ArrayInitialization,
};
use crate::layout::{AggregateLayout, AggregateLayoutPlan, FieldLayout, SumTypeLayout, SumVariantLayout};
use crate::executable_provider::{first_index_with_symbol, MirFunctionMapProvider, OperationEntry};
use crate::names::{parts_equal, NamePath, QualifiedName};
use crate::search::{first_index, lemma_first_index, lemma_first_index_is, lemma_first_index_none, or_else};
use crate::text::{
    append, chars_of, concat, contains_str, decimal, decimal_string, has_substring, join, last_index_of_char,
    last_index_of_char_exec, owned, str_equal, string_of, tail_after_separator, tail_after_separator_exec,
};
use crate::type_rules::{
    aggregate_field_types_compatible, aggregate_owner_name, field_compatible, mir_return_types_compatible, owner_of,
    return_compatible,
};
use crate::types::{NyarType, TypeModel};

verus! {

// ---------------------------------------------------------------- errors

/// A semantic MIR contract violation.
#[derive(Debug, Clone, PartialEq, Eq)]
pub struct SemanticMirContractError {
    pub code: &'static str,
    pub function: String,
    pub location: String,
    pub detail: String,
}

/// The character content of a contract error.
pub ghost struct ErrorModel {
    pub code: Seq<char>,
    pub function: Seq<char>,
    pub location: Seq<char>,
    pub detail: Seq<char>,
}

impl SemanticMirContractError {
    /// The character content of this error.
    pub open spec fn model(&self) -> ErrorModel {
        ErrorModel {
            code: self.code@,
            function: self.function@,
            location: self.location@,
            detail: self.detail@,
        }
    }
}

/// An error with the given content.
pub open spec fn error(code: Seq<char>, function: Seq<char>, location: Seq<char>, detail: Seq<char>) -> ErrorModel {
    ErrorModel { code, function, location, detail }
}

fn make_error(code: &'static str, function: &str, location: String, detail: String) -> (r: SemanticMirContractError)
    ensures
        r.model() == error(code@, function@, location@, detail@),
{
    SemanticMirContractError { code, function: owned(function), location, detail }
}

/// The result of a check as an optional error.
pub open spec fn outcome(r: Result<(), SemanticMirContractError>) -> Option<ErrorModel> {
    match r {
        Ok(()) => None,
        Err(e) => Some(e.model()),
    }
}

// ---------------------------------------------------------------- observation

/// `case_id|accept||` for success, `case_id|reject|CODE|LOCATION` for a rejection.
pub open spec fn observation_text(case_id: Seq<char>, result: Option<ErrorModel>) -> Seq<char> {
    match result {
        None => case_id + "|accept||"@,
        Some(e) => case_id + "|reject|"@ + e.code + "|"@ + e.location,
    }
}

/// Stable, backend-independent observation of a check result, used by conformance runners.
pub fn observation(case_id: &str, result: Result<(), &SemanticMirContractError>) -> (r: String)
    ensures
        r@ == observation_text(
            case_id@,
            match result {
                Ok(()) => None,
                Err(e) => Some(e.model()),
            },
        ),
{
    match result {
        Ok(()) => concat(case_id, "|accept||"),
        Err(error) => {
            let mut out = concat(case_id, "|reject|");
            append(&mut out, error.code);
            append(&mut out, "|");
            append(&mut out, error.location.as_str());
            out
        },
    }
}

/// The coarse site class of an error location.
pub open spec fn site_of(location: Seq<char>) -> Seq<char> {
    if location == "entry"@ {
        "entry"@
    } else if has_substring(location, "instruction"@) {
        "instruction"@
    } else if has_substring(location, "block"@) {
        "block"@
    } else if has_substring(location, "layout"@) || has_substring(location, "sum"@) {
        "module"@
    } else {
        "function"@
    }
}

/// Classifies an error location as `entry`, `instruction`, `block`, `module` or `function`.
pub fn observation_site(location: &str) -> (r: &'static str)
    ensures
        r@ == site_of(location@),
{
    if str_equal(location, "entry") {
        "entry"
    } else if contains_str(location, "instruction") {
        "instruction"
    } else if contains_str(location, "block") {
        "block"
    } else if contains_str(location, "layout") || contains_str(location, "sum") {
        "module"
    } else {
        "function"
    }
}

// ---------------------------------------------------------------- locations and details

/// `block B WHAT I`.
pub open spec fn block_site(block: u32, what: Seq<char>, index: int) -> Seq<char> {
    "block "@ + decimal(block as nat) + " "@ + what + " "@ + decimal(index as nat)
}

fn block_site_text(block: u32, what: &str, index: usize) -> (r: String)
    ensures
        r@ == block_site(block, what@, index as int),
{
    let mut out = owned("block ");
    append(&mut out, decimal_string(block as u64).as_str());
    append(&mut out, " ");
    append(&mut out, what);
    append(&mut out, " ");
    append(&mut out, decimal_string(index as u64).as_str());
    out
}

/// `block B instruction I`.
pub open spec fn instruction_site(block: u32, index: int) -> Seq<char> {
    block_site(block, "instruction"@, index)
}

/// `block B terminator`.
pub open spec fn terminator_site(block: u32) -> Seq<char> {
    "block "@ + decimal(block as nat) + " terminator"@
}

fn terminator_site_text(block: u32) -> (r: String)
    ensures
        r@ == terminator_site(block),
{
    let mut out = owned("block ");
    append(&mut out, decimal_string(block as u64).as_str());
    append(&mut out, " terminator");
    out
}

/// `ValueRef(N)`, the debug form of a value id.
pub open spec fn value_text(v: ValueRef) -> Seq<char> {
    "ValueRef("@ + decimal(v.0 as nat) + ")"@
}

fn value_text_exec(v: ValueRef) -> (r: String)
    ensures
        r@ == value_text(v),
{
    let mut out = owned("ValueRef(");
    append(&mut out, decimal_string(v.0 as u64).as_str());
    append(&mut out, ")");
    out
}

/// Detail of a missing value type: `semantic type missing for value ValueRef(N) at LOCATION`.
pub open spec fn missing_detail(v: ValueRef, location: Seq<char>) -> Seq<char> {
    "semantic type missing for value "@ + value_text(v) + " at "@ + location
}

fn missing_error(function: &str, v: ValueRef, location: String) -> (r: SemanticMirContractError)
    ensures
        r.model() == error("SMIR001"@, function@, location@, missing_detail(v, location@)),
{
    let mut detail = owned("semantic type missing for value ");
    append(&mut detail, value_text_exec(v).as_str());
    append(&mut detail, " at ");
    append(&mut detail, location.as_str());
    make_error("SMIR001", function, location, detail)
}

// ---------------------------------------------------------------- value types

/// The type model recorded for `v` in `f`.
pub open spec fn type_of(f: &ExecutableFunction, v: ValueRef) -> Option<TypeModel> {
    match lookup(f.value_types@, v) {
        Some(t) => Some(t.model()),
        None => None,
    }
}

/// `v` has a recorded type in `f`.
pub open spec fn has_type(f: &ExecutableFunction, v: ValueRef) -> bool {
    lookup(f.value_types@, v) is Some
}

/// The optional model of an optional type.
pub open spec fn opt_model(t: Option<NyarType>) -> Option<TypeModel> {
    match t {
        Some(t) => Some(t.model()),
        None => None,
    }
}

fn type_of_exec<'a>(f: &'a ExecutableFunction, v: &ValueRef) -> (r: Option<&'a NyarType>)
    ensures
        opt_model(match r {
            Some(t) => Some(*t),
            None => None,
        }) == type_of(f, *v),
        r is Some <==> has_type(f, *v),
{
    f.value_types.get(v)
}

// ---------------------------------------------------------------- nominal sums

/// The first problem with one nominal sum layout.
pub open spec fn sum_problem(sum: SumTypeLayout) -> Option<ErrorModel> {
    if sum.name@.len() == 0 || sum.variants@.len() == 0 || sum.tag_width == 0 {
        Some(error("SMIR006"@, sum.name@, "sum layout"@,
            "nominal sum layout requires a name, tag width, and at least one variant"@))
    } else {
        variants_problem(sum, 0)
    }
}

/// The first variant of `sum`, from `index` on, that has no name or repeats an earlier name or tag.
pub open spec fn variants_problem(sum: SumTypeLayout, index: int) -> Option<ErrorModel>
    decreases sum.variants@.len() - index,
{
    if index < 0 || index >= sum.variants@.len() {
        None
    } else {
        let variant = sum.variants@[index];
        if variant.name@.len() == 0 {
            Some(error("SMIR006"@, sum.name@, "sum variant"@,
                "nominal sum variant "@ + decimal(index as nat) + " has no name"@))
        } else if exists|k: int| 0 <= k < index && (sum.variants@[k].name@ == variant.name@ || sum.variants@[k].tag == variant.tag) {
            Some(error("SMIR006"@, sum.name@, "sum variant"@,
                "nominal sum variant "@ + variant.name@ + " duplicates a prior name or tag"@))
        } else {
            variants_problem(sum, index + 1)
        }
    }
}

/// The first problem among the sum layouts from `index` on.
pub open spec fn sums_problem(sums: Seq<SumTypeLayout>, index: int) -> Option<ErrorModel>
    decreases sums.len() - index,
{
    if index < 0 || index >= sums.len() {
        None
    } else {
        or_else(sum_problem(sums[index]), sums_problem(sums, index + 1))
    }
}

#[verifier::loop_isolation(false)]
fn check_sum(sum: &SumTypeLayout) -> (r: Result<(), SemanticMirContractError>)
    ensures
        outcome(r) == sum_problem(*sum),
{
    if sum.name.as_str().is_empty() || sum.variants.len() == 0 || sum.tag_width == 0 {
        return Err(make_error("SMIR006", sum.name.as_str(), owned("sum layout"),
            owned("nominal sum layout requires a name, tag width, and at least one variant")));
    }
    let mut index: usize = 0;
    while index < sum.variants.len()
        invariant
            index <= sum.variants@.len(),
            sum_problem(*sum) == variants_problem(*sum, index as int),
            sum.name@.len() != 0 && sum.variants@.len() != 0 && sum.tag_width != 0,
        decreases sum.variants.len() - index,
    {
        let variant = &sum.variants[index];
        if variant.name.as_str().is_empty() {
            let mut detail = owned("nominal sum variant ");
            append(&mut detail, decimal_string(index as u64).as_str());
            append(&mut detail, " has no name");
            return Err(make_error("SMIR006", sum.name.as_str(), owned("sum variant"), detail));
        }
        let mut k: usize = 0;
        let mut duplicate = false;
        while k < index
            invariant
                k <= index < sum.variants@.len(),
                variant == &sum.variants@[index as int],
                duplicate == exists|j: int| 0 <= j < k && (sum.variants@[j].name@ == variant.name@ || sum.variants@[j].tag == variant.tag),
            decreases index - k,
        {
            let prior = &sum.variants[k];
            if str_equal(prior.name.as_str(), variant.name.as_str()) || prior.tag == variant.tag {
                duplicate = true;
            }
            k = k + 1;
        }
        if duplicate {
            let mut detail = owned("nominal sum variant ");
            append(&mut detail, variant.name.as_str());
            append(&mut detail, " duplicates a prior name or tag");
            return Err(make_error("SMIR006", sum.name.as_str(), owned("sum variant"), detail));
        }
        index = index + 1;
    }
    Ok(())
}

/// Every nominal sum has a name, a non-zero tag width, at least one variant, and variants with
/// non-empty, distinct names and distinct tags; the first violation is reported as `SMIR006`.
#[verifier::loop_isolation(false)]
pub fn validate_nominal_sums(sum_types: &Vec<SumTypeLayout>) -> (r: Result<(), SemanticMirContractError>)
    ensures
        outcome(r) == sums_problem(sum_types@, 0),
{
    let mut i: usize = 0;
    while i < sum_types.len()
        invariant
            i <= sum_types@.len(),
            sums_problem(sum_types@, 0) == sums_problem(sum_types@, i as int),
        decreases sum_types.len() - i,
    {
        check_sum(&sum_types[i])?;
        i = i + 1;
    }
    Ok(())
}

// ---------------------------------------------------------------- aggregate layouts

/// The first problem with one aggregate layout.
pub open spec fn layout_problem(layout: AggregateLayout) -> Option<ErrorModel> {
    if layout.name@.len() == 0 || layout.align == 0 || layout.size == 0 {
        Some(error("SMIR010"@, layout.name@, "aggregate layout"@,
            "aggregate layout requires name, non-zero size, and non-zero alignment"@))
    } else if (exists|i: int| 0 <= i < layout.fields@.len() && (#[trigger] layout.fields@[i]).name@.len() == 0)
        || (exists|i: int, k: int| 0 <= k < i < layout.fields@.len() && (#[trigger] layout.fields@[k]).name@ == (#[trigger] layout.fields@[i]).name@) {
        Some(error("SMIR010"@, layout.name@, "aggregate layout"@,
            "aggregate layout fields require unique non-empty names"@))
    } else {
        None
    }
}

/// The first problem among the layouts from `index` on.
pub open spec fn layouts_problem(layouts: Seq<AggregateLayout>, index: int) -> Option<ErrorModel>
    decreases layouts.len() - index,
{
    if index < 0 || index >= layouts.len() {
        None
    } else {
        or_else(layout_problem(layouts[index]), layouts_problem(layouts, index + 1))
    }
}

#[verifier::loop_isolation(false)]
fn check_layout(layout: &AggregateLayout) -> (r: Result<(), SemanticMirContractError>)
    ensures
        outcome(r) == layout_problem(*layout),
{
    if layout.name.as_str().is_empty() || layout.align == 0 || layout.size == 0 {
        return Err(make_error("SMIR010", layout.name.as_str(), owned("aggregate layout"),
            owned("aggregate layout requires name, non-zero size, and non-zero alignment")));
    }
    let mut bad = false;
    let mut i: usize = 0;
    while i < layout.fields.len()
        invariant
            i <= layout.fields@.len(),
            bad == ((exists|j: int| 0 <= j < i && (#[trigger] layout.fields@[j]).name@.len() == 0)
                || (exists|j: int, k: int| 0 <= k < j < i && (#[trigger] layout.fields@[k]).name@ == (#[trigger] layout.fields@[j]).name@)),
        decreases layout.fields.len() - i,
    {
        let field = &layout.fields[i];
        if field.name.as_str().is_empty() {
            bad = true;
        }
        let mut k: usize = 0;
        while k < i
            invariant
                k <= i < layout.fields@.len(),
                field == &layout.fields@[i as int],
                bad == ((exists|j: int| 0 <= j <= i && (#[trigger] layout.fields@[j]).name@.len() == 0)
                    || (exists|j: int, m: int| 0 <= m < j < i && (#[trigger] layout.fields@[m]).name@ == (#[trigger] layout.fields@[j]).name@)
                    || (exists|m: int| 0 <= m < k && (#[trigger] layout.fields@[m]).name@ == field.name@)),
            decreases i - k,
        {
            if str_equal(layout.fields[k].name.as_str(), field.name.as_str()) {
                bad = true;
            }
            k = k + 1;
        }
        proof {
            assert(bad == ((exists|j: int| 0 <= j < i + 1 && (#[trigger] layout.fields@[j]).name@.len() == 0)
                || (exists|j: int, m: int| 0 <= m < j < i + 1 && (#[trigger] layout.fields@[m]).name@ == (#[trigger] layout.fields@[j]).name@))) by {
                if exists|m: int| 0 <= m < i && (#[trigger] layout.fields@[m]).name@ == field.name@ {
                    let m = choose|m: int| 0 <= m < i && (#[trigger] layout.fields@[m]).name@ == field.name@;
                    assert(layout.fields@[m].name@ == layout.fields@[i as int].name@);
                }
                if exists|j: int, m: int| 0 <= m < j < i + 1 && (#[trigger] layout.fields@[m]).name@ == (#[trigger] layout.fields@[j]).name@ {
                    let (j, m) = choose|j: int, m: int| 0 <= m < j < i + 1 && (#[trigger] layout.fields@[m]).name@ == (#[trigger] layout.fields@[j]).name@;
                    if j == i {
                        assert(0 <= m < k && layout.fields@[m].name@ == field.name@);
                    }
                }
            }
        }
        i = i + 1;
    }
    if bad {
        return Err(make_error("SMIR010", layout.name.as_str(), owned("aggregate layout"),
            owned("aggregate layout fields require unique non-empty names")));
    }
    Ok(())
}

/// Every aggregate layout has a name, non-zero size and alignment, and uniquely named fields;
/// the first violation is reported as `SMIR010`.
#[verifier::loop_isolation(false)]
pub fn validate_aggregate_layouts(plan: &AggregateLayoutPlan) -> (r: Result<(), SemanticMirContractError>)
    ensures
        outcome(r) == layouts_problem(plan.layouts@, 0),
{
    let mut i: usize = 0;
    while i < plan.layouts.len()
        invariant
            i <= plan.layouts@.len(),
            layouts_problem(plan.layouts@, 0) == layouts_problem(plan.layouts@, i as int),
        decreases plan.layouts.len() - i,
    {
        check_layout(&plan.layouts[i])?;
        i = i + 1;
    }
    Ok(())
}

// ---------------------------------------------------------------- operands

/// The operands an instruction reads, in order.
pub open spec fn operands_of(kind: InstructionKind) -> Seq<Operand> {
    match kind {
        InstructionKind::LoadConstant { .. } => Seq::empty(),
        InstructionKind::LoadSymbol { .. } => Seq::empty(),
        InstructionKind::Copy { source } => seq![source],
        InstructionKind::StoreVar { value, .. } => seq![value],
        InstructionKind::Call { callee, arguments, .. } => seq![callee] + arguments@,
        InstructionKind::StructNew { fields, .. } => fields@.map_values(|p: (String, Operand)| p.1),
        InstructionKind::TupleNew { fields } => fields@,
        InstructionKind::AggregateCopy { source, dest } => seq![source, dest],
        InstructionKind::FieldGet { object, .. } => seq![object],
        InstructionKind::FieldSet { object, value, .. } => seq![object, value],
        InstructionKind::SumNew { payload, .. } => match payload {
            Some(p) => seq![p],
            None => Seq::empty(),
        },
        InstructionKind::SumPayloadGet { object, .. } => seq![object],
        InstructionKind::SumVariantIs { object, .. } => seq![object],
        InstructionKind::PatternMatch { value, .. } => seq![value],
        InstructionKind::ArrayNew { length, initialization, .. } => match initialization {
            ArrayInitialization::Fill(fill) => seq![length, fill],
            ArrayInitialization::Default => seq![length],
        },
        InstructionKind::ArrayFromElements { elements, .. } => elements@,
        InstructionKind::ArrayGet { array, index } => seq![array, index],
        InstructionKind::ArraySet { array, index, value } => seq![array, index, value],
        InstructionKind::ArrayLength { array } => seq![array],
    }
}

fn push_all<'a>(out: &mut Vec<&'a Operand>, items: &'a Vec<Operand>)
    ensures
        final(out)@.len() == old(out)@.len() + items@.len(),
        forall|i: int| 0 <= i < old(out)@.len() ==> final(out)@[i] == old(out)@[i],
        forall|i: int| 0 <= i < items@.len() ==> *final(out)@[old(out)@.len() + i] == items@[i],
{
    let mut i: usize = 0;
    while i < items.len()
        invariant
            i <= items@.len(),
            out@.len() == old(out)@.len() + i,
            forall|j: int| 0 <= j < old(out)@.len() ==> out@[j] == old(out)@[j],
            forall|j: int| 0 <= j < i ==> *out@[old(out)@.len() + j] == items@[j],
        decreases items.len() - i,
    {
        out.push(&items[i]);
        i = i + 1;
    }
}

/// The operands an instruction reads, in order.
pub fn instruction_operands(kind: &InstructionKind) -> (r: Vec<&Operand>)
    ensures
        r@.len() == operands_of(*kind).len(),
        forall|i: int| 0 <= i < r@.len() ==> *r@[i] == operands_of(*kind)[i],
{
    let mut out: Vec<&Operand> = Vec::new();
    match kind {
        InstructionKind::LoadConstant { .. } | InstructionKind::LoadSymbol { .. } => {},
        InstructionKind::Copy { source } => out.push(source),
        InstructionKind::StoreVar { value, .. } => out.push(value),
        InstructionKind::Call { callee, arguments, .. } => {
            out.push(callee);
            push_all(&mut out, arguments);
        },
        InstructionKind::StructNew { fields, .. } => {
            let mut i: usize = 0;
            while i < fields.len()
                invariant
                    i <= fields@.len(),
                    out@.len() == i,
                    forall|j: int| 0 <= j < i ==> *out@[j] == fields@[j].1,
                decreases fields.len() - i,
            {
                out.push(&fields[i].1);
                i = i + 1;
            }
        },
        InstructionKind::TupleNew { fields } => push_all(&mut out, fields),
        InstructionKind::AggregateCopy { source, dest } => {
            out.push(source);
            out.push(dest);
        },
        InstructionKind::FieldGet { object, .. } => out.push(object),
        InstructionKind::FieldSet { object, value, .. } => {
            out.push(object);
            out.push(value);
        },
        InstructionKind::SumNew { payload, .. } => {
            if let Some(p) = payload {
                out.push(p);
            }
        },
        InstructionKind::SumPayloadGet { object, .. } | InstructionKind::SumVariantIs { object, .. } => out.push(object),
        InstructionKind::PatternMatch { value, .. } => out.push(value),
        InstructionKind::ArrayNew { length, initialization, .. } => {
            out.push(length);
            if let ArrayInitialization::Fill(fill) = initialization {
                out.push(fill);
            }
        },
        InstructionKind::ArrayFromElements { elements, .. } => push_all(&mut out, elements),
        InstructionKind::ArrayGet { array, index } => {
            out.push(array);
            out.push(index);
        },
        InstructionKind::ArraySet { array, index, value } => {
            out.push(array);
            out.push(index);
            out.push(value);
        },
        InstructionKind::ArrayLength { array } => out.push(array),
    }
    out
}

// ---------------------------------------------------------------- function shape

/// `BlockRef(N)`, the debug form of a block id.
pub open spec fn block_text(b: BlockRef) -> Seq<char> {
    "BlockRef("@ + decimal(b.0 as nat) + ")"@
}

/// Blocks whose id is `id`.
pub open spec fn block_with_id(id: BlockRef) -> spec_fn(Block) -> bool {
    |b: Block| b.id == id
}

/// The entry block is one of the function's blocks.
pub open spec fn entry_problem(f: &ExecutableFunction) -> Option<ErrorModel> {
    if exists|b: int| 0 <= b < f.blocks@.len() && (#[trigger] f.blocks@[b]).id == f.entry {
        None
    } else {
        Some(error("SMIR009"@, f.symbol@, "entry"@,
            "entry block "@ + block_text(f.entry) + " is not present in the function"@))
    }
}

/// The first semantic contract violation of `f`: its entry block, then each block in order.
pub open spec fn function_problem(f: &ExecutableFunction) -> Option<ErrorModel> {
    or_else(entry_problem(f), blocks_problem(f, 0))
}

/// The first violation among the blocks of `f` from `index` on.
pub open spec fn blocks_problem(f: &ExecutableFunction, index: int) -> Option<ErrorModel>
    decreases f.blocks@.len() - index,
{
    if index < 0 || index >= f.blocks@.len() {
        None
    } else {
        or_else(block_problem(f, f.blocks@[index]), blocks_problem(f, index + 1))
    }
}

/// The first violation in a block: parameters, then instructions, then the terminator.
pub open spec fn block_problem(f: &ExecutableFunction, b: Block) -> Option<ErrorModel> {
    or_else(parameters_problem(f, b, 0), or_else(instructions_problem(f, b, 0), terminator_problem(f, b)))
}

/// The first block parameter, from `k` on, without a recorded type.
pub open spec fn parameters_problem(f: &ExecutableFunction, b: Block, k: int) -> Option<ErrorModel>
    decreases b.parameters@.len() - k,
{
    if k < 0 || k >= b.parameters@.len() {
        None
    } else if !has_type(f, b.parameters@[k]) {
        let location = block_site(b.id.0, "parameter"@, k);
        Some(error("SMIR001"@, f.symbol@, location, missing_detail(b.parameters@[k], location)))
    } else {
        parameters_problem(f, b, k + 1)
    }
}

/// The first violation among the instructions of `b` from `k` on.
pub open spec fn instructions_problem(f: &ExecutableFunction, b: Block, k: int) -> Option<ErrorModel>
    decreases b.instructions@.len() - k,
{
    if k < 0 || k >= b.instructions@.len() {
        None
    } else {
        or_else(instruction_problem(f, b.id.0, k, b.instructions@[k]), instructions_problem(f, b, k + 1))
    }
}

/// The type a text constant carries: `Utf8` or `Utf16`.
pub open spec fn text_type(c: Constant) -> Option<TypeModel> {
    match c {
        Constant::Utf8(_) => Some(TypeModel::Utf8),
        Constant::Utf16(_) => Some(TypeModel::Utf16),
        _ => None,
    }
}

/// The type a text constant carries (see [`text_type`]).
fn text_constant_type(constant: &Constant) -> (r: Option<NyarType>)
    ensures
        opt_model(r) == text_type(*constant),
{
    match constant {
        Constant::Utf8(_) => Some(NyarType::Utf8),
        Constant::Utf16(_) => Some(NyarType::Utf16),
        _ => None,
    }
}

/// One instruction: no residual pattern match, a typed primary result, text constants typed
/// by their encoding, and typed value operands.
pub open spec fn instruction_problem(f: &ExecutableFunction, block: u32, k: int, ins: Instruction) -> Option<ErrorModel> {
    let location = instruction_site(block, k);
    if ins.kind is PatternMatch {
        Some(error("SMIR008"@, f.symbol@, location, "residual PatternMatch instruction at "@ + location))
    } else if primary_result(&ins) matches Some(o) && !has_type(f, o) {
        Some(error("SMIR001"@, f.symbol@, location, missing_detail(primary_result(&ins)->0, location)))
    } else {
        or_else(
            text_constant_problem(f, location, ins),
            or_else(operands_problem(f, block, k, operands_of(ins.kind), 0), intrinsic_problem(f, location, ins)),
        )
    }
}

/// A call standing for a structured intrinsic must have the intrinsic's arity (`SMIR004`) and
/// receiver types (`SMIR005`): one receiver for an array length; one UTF-8 receiver for a
/// scalar length; two operands of one and the same type for a structural sum equality.
pub open spec fn intrinsic_problem(f: &ExecutableFunction, location: Seq<char>, ins: Instruction) -> Option<ErrorModel> {
    match ins.kind {
        InstructionKind::Call { arguments, intrinsic_opcode: Some(opcode), .. } => {
            let args = arguments@;
            let arity: int = match opcode {
                IntrinsicOpcode::SumStructuralEqual => 2,
                _ => 1,
            };
            if args.len() != arity {
                Some(error("SMIR004"@, f.symbol@, location, "intrinsic call arity differs from the intrinsic"@))
            } else {
                match opcode {
                    IntrinsicOpcode::ArrayLen => None,
                    IntrinsicOpcode::Utf8ScalarLength => if operand_type(f, args[0]) != Some(TypeModel::Utf8) {
                        Some(error("SMIR005"@, f.symbol@, location, "UTF-8 scalar length needs a UTF-8 receiver"@))
                    } else {
                        None
                    },
                    IntrinsicOpcode::SumStructuralEqual => if operand_type(f, args[0]) is None || operand_type(f, args[0])
                        != operand_type(f, args[1]) {
                        Some(error("SMIR005"@, f.symbol@, location,
                            "structural sum equality needs two operands of one nominal type"@))
                    } else {
                        None
                    },
                }
            }
        },
        _ => None,
    }
}

/// A text constant must be typed, and its result typed, by its encoding.
pub open spec fn text_constant_problem(f: &ExecutableFunction, location: Seq<char>, ins: Instruction) -> Option<ErrorModel> {
    match ins.kind {
        InstructionKind::LoadConstant { constant, ty } => match text_type(constant) {
            Some(literal) => if opt_model(ty) != Some(literal) {
                Some(error("SMIR007"@, f.symbol@, location,
                    "text constant encoding/type contract is absent or disagrees with the literal"@))
            } else if primary_result(&ins) matches Some(o) && type_of(f, o) != Some(literal) {
                Some(error("SMIR007"@, f.symbol@, location,
                    "text constant result SSA type disagrees with the literal encoding"@))
            } else {
                None
            },
            None => None,
        },
        _ => None,
    }
}

/// The first value operand, from `j` on, without a recorded type.
pub open spec fn operands_problem(f: &ExecutableFunction, block: u32, k: int, ops: Seq<Operand>, j: int) -> Option<ErrorModel>
    decreases ops.len() - j,
{
    if j < 0 || j >= ops.len() {
        None
    } else if ops[j] is Value && !has_type(f, ops[j]->Value_0) {
        let location = instruction_site(block, k) + " operand "@ + decimal(j as nat);
        Some(error("SMIR001"@, f.symbol@, location, missing_detail(ops[j]->Value_0, location)))
    } else {
        operands_problem(f, block, k, ops, j + 1)
    }
}

/// The operands a terminator reads.
pub open spec fn terminator_operands(t: Terminator) -> Seq<Operand> {
    match t {
        Terminator::Return { value: Some(v) } => seq![v],
        Terminator::Jump { arguments, .. } => arguments@,
        Terminator::Branch { condition, .. } => seq![condition],
        Terminator::PerformEffect { payload: Some(p), .. } => seq![p],
        Terminator::YieldToRuntime { payload: Some(p), .. } => seq![p],
        _ => Seq::empty(),
    }
}

/// The type of an operand: a value's recorded type, `Boolean` for a boolean constant.
pub open spec fn operand_type(f: &ExecutableFunction, op: Operand) -> Option<TypeModel> {
    match op {
        Operand::Value(v) => type_of(f, v),
        Operand::Constant(Constant::Bool(_)) => Some(TypeModel::Boolean),
        _ => None,
    }
}

/// The terminator: typed operands, a typed dispatch state, a compatible return value,
/// a present jump target of matching arity and parameter types, and a boolean branch condition.
pub open spec fn terminator_problem(f: &ExecutableFunction, b: Block) -> Option<ErrorModel> {
    or_else(
        terminator_operands_problem(f, b.id.0, terminator_operands(b.terminator), 0),
        or_else(state_problem(f, b), terminator_shape_problem(f, b)),
    )
}

/// The first terminator value operand, from `j` on, without a recorded type.
pub open spec fn terminator_operands_problem(f: &ExecutableFunction, block: u32, ops: Seq<Operand>, j: int) -> Option<ErrorModel>
    decreases ops.len() - j,
{
    if j < 0 || j >= ops.len() {
        None
    } else if ops[j] is Value && !has_type(f, ops[j]->Value_0) {
        Some(error("SMIR001"@, f.symbol@, terminator_site(block),
            "semantic type missing for terminator value "@ + value_text(ops[j]->Value_0) + " in block "@ + decimal(block as nat)))
    } else {
        terminator_operands_problem(f, block, ops, j + 1)
    }
}

/// A state dispatch must read a typed state value.
pub open spec fn state_problem(f: &ExecutableFunction, b: Block) -> Option<ErrorModel> {
    match b.terminator {
        Terminator::StateDispatch { state, .. } => if !has_type(f, state) {
            Some(error("SMIR001"@, f.symbol@, terminator_site(b.id.0) + " state"@,
                "semantic type missing for terminator state "@ + value_text(state) + " in block "@ + decimal(b.id.0 as nat)))
        } else {
            None
        },
        _ => None,
    }
}

/// Return, jump and branch shape checks; a returned value must suit the declared return type
/// unless the function returns unit.
pub open spec fn terminator_shape_problem(f: &ExecutableFunction, b: Block) -> Option<ErrorModel> {
    let location = terminator_site(b.id.0);
    match b.terminator {
        Terminator::Return { value: Some(v) } => match operand_type(f, v) {
            None => Some(error("SMIR001"@, f.symbol@, location, "return operand has no SSA type"@)),
            Some(actual) => if f.return_type.model() != TypeModel::Unit && !return_compatible(actual, f.return_type.model()) {
                Some(error("SMIR007"@, f.symbol@, location, "return operand type differs from function return type"@))
            } else {
                None
            },
        },
        Terminator::Jump { target, arguments } => match first_index(f.blocks@, block_with_id(target)) {
            None => Some(error("SMIR007"@, f.symbol@, location, "jump target is absent"@)),
            Some(d) => if f.blocks@[d].parameters@.len() != arguments@.len() {
                Some(error("SMIR007"@, f.symbol@, location, "jump arity differs from target block parameters"@))
            } else {
                jump_arguments_problem(f, location, arguments@, f.blocks@[d].parameters@, 0)
            },
        },
        Terminator::Branch { condition, .. } => if operand_type(f, condition) != Some(TypeModel::Boolean) {
            Some(error("SMIR007"@, f.symbol@, location, "branch condition must be bool"@))
        } else {
            None
        },
        _ => None,
    }
}

/// The first jump argument, from `j` on, whose type differs from its target parameter's.
pub open spec fn jump_arguments_problem(f: &ExecutableFunction, location: Seq<char>, args: Seq<Operand>, params: Seq<ValueRef>, j: int) -> Option<ErrorModel>
    decreases args.len() - j,
{
    if j < 0 || j >= args.len() || j >= params.len() {
        None
    } else if operand_type(f, args[j]) != type_of(f, params[j]) {
        Some(error("SMIR007"@, f.symbol@, location, "jump argument type differs from target block parameter"@))
    } else {
        jump_arguments_problem(f, location, args, params, j + 1)
    }
}

// ---------------------------------------------------------------- function checks (exec)

fn operand_type_exec(f: &ExecutableFunction, op: &Operand) -> (r: Option<NyarType>)
    ensures
        opt_model(r) == operand_type(f, *op),
{
    match op {
        Operand::Value(v) => match type_of_exec(f, v) {
            Some(t) => Some(crate::types::copy_type(t)),
            None => None,
        },
        Operand::Constant(Constant::Bool(_)) => Some(NyarType::Boolean),
        _ => None,
    }
}

fn same_optional_type(a: &Option<NyarType>, b: Option<&NyarType>) -> (r: bool)
    ensures
        r == (opt_model(*a) == opt_model(match b {
            Some(t) => Some(*t),
            None => None,
        })),
{
    match (a, b) {
        (Some(x), Some(y)) => crate::types::same_type(x, y),
        (None, None) => true,
        _ => false,
    }
}

#[verifier::loop_isolation(false)]
fn check_instruction(f: &ExecutableFunction, block: u32, k: usize, ins: &Instruction) -> (r: Result<(), SemanticMirContractError>)
    ensures
        outcome(r) == instruction_problem(f, block, k as int, *ins),
{
    let symbol = f.symbol.as_str();
    if let InstructionKind::PatternMatch { .. } = ins.kind {
        let location = block_site_text(block, "instruction", k);
        let mut detail = owned("residual PatternMatch instruction at ");
        append(&mut detail, location.as_str());
        return Err(make_error("SMIR008", symbol, location, detail));
    }
    if let Some(output) = instruction_primary_result(ins) {
        if !f.value_types.contains_key(&output) {
            return Err(missing_error(symbol, output, block_site_text(block, "instruction", k)));
        }
    }
    if let InstructionKind::LoadConstant { constant, ty } = &ins.kind {
        if let Some(literal_type) = text_constant_type(constant) {
            let declared = match ty {
                Some(t) => Some(t),
                None => None,
            };
            if !same_optional_type(&Some(crate::types::copy_type(&literal_type)), declared) {
                return Err(make_error("SMIR007", symbol, block_site_text(block, "instruction", k),
                    owned("text constant encoding/type contract is absent or disagrees with the literal")));
            }
            if let Some(output) = instruction_primary_result(ins) {
                if !same_optional_type(&Some(literal_type), type_of_exec(f, &output)) {
                    return Err(make_error("SMIR007", symbol, block_site_text(block, "instruction", k),
                        owned("text constant result SSA type disagrees with the literal encoding")));
                }
            }
        }
    }
    let operands = instruction_operands(&ins.kind);
    let ghost ops = operands_of(ins.kind);
    let mut j: usize = 0;
    while j < operands.len()
        invariant
            j <= operands@.len(),
            operands@.len() == ops.len(),
            forall|i: int| 0 <= i < operands@.len() ==> *operands@[i] == ops[i],
            operands_problem(f, block, k as int, ops, 0) == operands_problem(f, block, k as int, ops, j as int),
        decreases operands.len() - j,
    {
        if let Operand::Value(v) = operands[j] {
            if !f.value_types.contains_key(v) {
                let mut location = block_site_text(block, "instruction", k);
                append(&mut location, " operand ");
                append(&mut location, decimal_string(j as u64).as_str());
                return Err(missing_error(symbol, *v, location));
            }
        }
        j = j + 1;
    }
    check_intrinsic(f, block, k, ins)
}

fn check_intrinsic(f: &ExecutableFunction, block: u32, k: usize, ins: &Instruction) -> (r: Result<(), SemanticMirContractError>)
    ensures
        outcome(r) == intrinsic_problem(f, instruction_site(block, k as int), *ins),
{
    if let InstructionKind::Call { arguments, intrinsic_opcode: Some(opcode), .. } = &ins.kind {
        let arity: usize = match opcode {
            IntrinsicOpcode::SumStructuralEqual => 2,
            _ => 1,
        };
        if arguments.len() != arity {
            return Err(make_error("SMIR004", f.symbol.as_str(), block_site_text(block, "instruction", k),
                owned("intrinsic call arity differs from the intrinsic")));
        }
        match opcode {
            IntrinsicOpcode::ArrayLen => {},
            IntrinsicOpcode::Utf8ScalarLength => {
                let utf8 = NyarType::Utf8;
                if !same_optional_type(&operand_type_exec(f, &arguments[0]), Some(&utf8)) {
                    return Err(make_error("SMIR005", f.symbol.as_str(), block_site_text(block, "instruction", k),
                        owned("UTF-8 scalar length needs a UTF-8 receiver")));
                }
            },
            IntrinsicOpcode::SumStructuralEqual => {
                let left = operand_type_exec(f, &arguments[0]);
                let right = operand_type_exec(f, &arguments[1]);
                let same = match &right {
                    Some(t) => same_optional_type(&left, Some(t)),
                    None => left.is_none(),
                };
                if left.is_none() || !same {
                    return Err(make_error("SMIR005", f.symbol.as_str(), block_site_text(block, "instruction", k),
                        owned("structural sum equality needs two operands of one nominal type")));
                }
            },
        }
    }
    Ok(())
}

fn find_block(blocks: &Vec<Block>, id: BlockRef) -> (r: Option<usize>)
    ensures
        match r {
            Some(d) => first_index(blocks@, block_with_id(id)) == Some(d as int) && d < blocks@.len(),
            None => first_index(blocks@, block_with_id(id)) is None,
        },
{
    let mut i: usize = 0;
    while i < blocks.len()
        invariant
            i <= blocks@.len(),
            forall|j: int| 0 <= j < i ==> !(#[trigger] block_with_id(id)(blocks@[j])),
        decreases blocks.len() - i,
    {
        if blocks[i].id.0 == id.0 {
            proof {
                lemma_first_index_is(blocks@, block_with_id(id), i as int);
            }
            return Some(i);
        }
        i = i + 1;
    }
    proof {
        lemma_first_index_none(blocks@, block_with_id(id));
    }
    None
}

fn terminator_operand_list(t: &Terminator) -> (r: Vec<&Operand>)
    ensures
        r@.len() == terminator_operands(*t).len(),
        forall|i: int| 0 <= i < r@.len() ==> *r@[i] == terminator_operands(*t)[i],
{
    let mut out: Vec<&Operand> = Vec::new();
    match t {
        Terminator::Return { value: Some(v) } => out.push(v),
        Terminator::Jump { arguments, .. } => push_all(&mut out, arguments),
        Terminator::Branch { condition, .. } => out.push(condition),
        Terminator::PerformEffect { payload: Some(p), .. } => out.push(p),
        Terminator::YieldToRuntime { payload: Some(p), .. } => out.push(p),
        _ => {},
    }
    out
}

#[verifier::loop_isolation(false)]
fn validate_terminator(f: &ExecutableFunction, block: &Block) -> (r: Result<(), SemanticMirContractError>)
    ensures
        outcome(r) == terminator_problem(f, *block),
{
    let symbol = f.symbol.as_str();
    let id = block.id.0;
    let operands = terminator_operand_list(&block.terminator);
    let ghost ops = terminator_operands(block.terminator);
    let mut j: usize = 0;
    while j < operands.len()
        invariant
            j <= operands@.len(),
            operands@.len() == ops.len(),
            forall|i: int| 0 <= i < operands@.len() ==> *operands@[i] == ops[i],
            terminator_operands_problem(f, id, ops, 0) == terminator_operands_problem(f, id, ops, j as int),
        decreases operands.len() - j,
    {
        if let Operand::Value(v) = operands[j] {
            if !f.value_types.contains_key(v) {
                let mut detail = owned("semantic type missing for terminator value ");
                append(&mut detail, value_text_exec(*v).as_str());
                append(&mut detail, " in block ");
                append(&mut detail, decimal_string(id as u64).as_str());
                return Err(make_error("SMIR001", symbol, terminator_site_text(id), detail));
            }
        }
        j = j + 1;
    }
    if let Terminator::StateDispatch { state, .. } = &block.terminator {
        if !f.value_types.contains_key(state) {
            let mut location = terminator_site_text(id);
            append(&mut location, " state");
            let mut detail = owned("semantic type missing for terminator state ");
            append(&mut detail, value_text_exec(*state).as_str());
            append(&mut detail, " in block ");
            append(&mut detail, decimal_string(id as u64).as_str());
            return Err(make_error("SMIR001", symbol, location, detail));
        }
    }
    match &block.terminator {
        Terminator::Return { value: Some(value) } => {
            match operand_type_exec(f, value) {
                None => {
                    return Err(make_error("SMIR001", symbol, terminator_site_text(id),
                        owned("return operand has no SSA type")));
                },
                Some(actual) => {
                    if !matches!(f.return_type, NyarType::Unit) && !mir_return_types_compatible(&actual, &f.return_type) {
                        return Err(make_error("SMIR007", symbol, terminator_site_text(id),
                            owned("return operand type differs from function return type")));
                    }
                },
            }
        },
        Terminator::Jump { target, arguments } => {
            let d = match find_block(&f.blocks, *target) {
                Some(d) => d,
                None => {
                    return Err(make_error("SMIR007", symbol, terminator_site_text(id),
                        owned("jump target is absent")));
                },
            };
            let destination = &f.blocks[d];
            if destination.parameters.len() != arguments.len() {
                return Err(make_error("SMIR007", symbol, terminator_site_text(id),
                    owned("jump arity differs from target block parameters")));
            }
            let ghost location = terminator_site(id);
            let mut j: usize = 0;
            while j < arguments.len()
                invariant
                    j <= arguments@.len(),
                    arguments@.len() == destination.parameters@.len(),
                    jump_arguments_problem(f, location, arguments@, destination.parameters@, 0)
                        == jump_arguments_problem(f, location, arguments@, destination.parameters@, j as int),
                decreases arguments.len() - j,
            {
                let argument_type = operand_type_exec(f, &arguments[j]);
                if !same_optional_type(&argument_type, type_of_exec(f, &destination.parameters[j])) {
                    return Err(make_error("SMIR007", symbol, terminator_site_text(id),
                        owned("jump argument type differs from target block parameter")));
                }
                j = j + 1;
            }
        },
        Terminator::Branch { condition, .. } => {
            let condition_type = operand_type_exec(f, condition);
            let boolean = NyarType::Boolean;
            if !same_optional_type(&condition_type, Some(&boolean)) {
                return Err(make_error("SMIR007", symbol, terminator_site_text(id),
                    owned("branch condition must be bool")));
            }
        },
        _ => {},
    }
    Ok(())
}

/// Checks one executable function against the semantic MIR contract and reports its first
/// violation: a missing entry block (`SMIR009`), an untyped value (`SMIR001`), a residual pattern
/// match (`SMIR008`), a text constant, return, jump or branch shape mismatch (`SMIR007`), or an
/// intrinsic call of the wrong arity (`SMIR004`) or receiver type (`SMIR005`). A function
/// declared to return unit may return a value of any type.
#[verifier::loop_isolation(false)]
pub fn validate_function(f: &ExecutableFunction) -> (r: Result<(), SemanticMirContractError>)
    ensures
        outcome(r) == function_problem(f),
{
    if find_block(&f.blocks, f.entry).is_none() {
        proof {
            lemma_first_index_none_means(f.blocks@, block_with_id(f.entry));
            assert forall|b: int| 0 <= b < f.blocks@.len() implies (#[trigger] f.blocks@[b]).id != f.entry by {
                assert(!block_with_id(f.entry)(f.blocks@[b]));
            }
        }
        let mut text = owned("BlockRef(");
        append(&mut text, decimal_string(f.entry.0 as u64).as_str());
        append(&mut text, ")");
        let mut detail = owned("entry block ");
        append(&mut detail, text.as_str());
        append(&mut detail, " is not present in the function");
        assert(detail@ =~= "entry block "@ + block_text(f.entry) + " is not present in the function"@);
        return Err(make_error("SMIR009", f.symbol.as_str(), owned("entry"), detail));
    }
    proof {
        let d = first_index(f.blocks@, block_with_id(f.entry))->0;
        lemma_first_index(f.blocks@, block_with_id(f.entry));
        assert(f.blocks@[d].id == f.entry);
    }
    let mut i: usize = 0;
    while i < f.blocks.len()
        invariant
            i <= f.blocks@.len(),
            function_problem(f) == blocks_problem(f, i as int),
        decreases f.blocks.len() - i,
    {
        let block = &f.blocks[i];
        let id = block.id.0;
        let mut k: usize = 0;
        while k < block.parameters.len()
            invariant
                block == &f.blocks@[i as int],
                k <= block.parameters@.len(),
                parameters_problem(f, *block, 0) == parameters_problem(f, *block, k as int),
            decreases block.parameters.len() - k,
        {
            let parameter = block.parameters[k];
            if !f.value_types.contains_key(&parameter) {
                return Err(missing_error(f.symbol.as_str(), parameter, block_site_text(id, "parameter", k)));
            }
            k = k + 1;
        }
        let mut k: usize = 0;
        while k < block.instructions.len()
            invariant
                block == &f.blocks@[i as int],
                k <= block.instructions@.len(),
                instructions_problem(f, *block, 0) == instructions_problem(f, *block, k as int),
            decreases block.instructions.len() - k,
        {
            check_instruction(f, id, k, &block.instructions[k])?;
            k = k + 1;
        }
        validate_terminator(f, block)?;
        i = i + 1;
    }
    Ok(())
}

proof fn lemma_first_index_none_means(blocks: Seq<Block>, p: spec_fn(Block) -> bool)
    requires
        first_index(blocks, p) is None,
    ensures
        forall|j: int| 0 <= j < blocks.len() ==> !p(#[trigger] blocks[j]),
{
    lemma_first_index(blocks, p);
}

// ---------------------------------------------------------------- submission

/// What a fragment submits to the emitter: nominal sums, aggregate layouts, the executable
/// functions, and the operations importable from other fragments.
#[derive(Debug)]
pub struct FragmentSubmission {
    pub sum_types: Vec<SumTypeLayout>,
    pub aggregate_layouts: AggregateLayoutPlan,
    pub executable: Option<MirFunctionMapProvider>,
    pub external_import_links: Vec<QualifiedName>,
}

impl Default for FragmentSubmission {
    fn default() -> (r: FragmentSubmission)
        ensures
            r.sum_types@.len() == 0,
            r.aggregate_layouts.layouts@.len() == 0,
            r.executable is None,
            r.external_import_links@.len() == 0,
    {
        FragmentSubmission {
            sum_types: Vec::new(),
            aggregate_layouts: AggregateLayoutPlan { layouts: Vec::new() },
            executable: None,
            external_import_links: Vec::new(),
        }
    }
}

// ---------------------------------------------------------------- static calls

/// The language operator names that need no registry entry.
pub open spec fn is_operator_name(n: Seq<char>) -> bool {
    n == "infix =="@ || n == "infix !="@ || n == "infix <"@ || n == "infix <="@ || n == "infix >"@
        || n == "infix >="@ || n == "infix +"@ || n == "infix -"@ || n == "infix *"@ || n == "infix /"@
        || n == "infix %"@ || n == "infix &"@ || n == "infix |"@ || n == "infix ^"@ || n == "infix <<"@
        || n == "infix >>"@ || n == "prefix !"@ || n == "prefix -"@ || n == "prefix +"@
}

/// A path whose last segment is a language operator.
pub open spec fn operator_path(path: Seq<Seq<char>>) -> bool {
    path.len() > 0 && is_operator_name(path.last())
}

/// The language builtin `builtin.array.push`.
pub open spec fn builtin_path(path: Seq<Seq<char>>) -> bool {
    path.len() == 3 && path[0] == "builtin"@ && path[1] == "array"@ && path[2] == "push"@
}

/// Whether the path's last segment is a language operator (`infix ==`, `prefix !`, ...).
pub fn is_language_operator_symbol(path: &NamePath) -> (r: bool)
    ensures
        r == operator_path(path@),
{
    if path.parts.len() == 0 {
        return false;
    }
    let last = path.parts[path.parts.len() - 1].as_str();
    let names: [&str; 19] = [
        "infix ==", "infix !=", "infix <", "infix <=", "infix >", "infix >=", "infix +", "infix -",
        "infix *", "infix /", "infix %", "infix &", "infix |", "infix ^", "infix <<", "infix >>",
        "prefix !", "prefix -", "prefix +",
    ];
    str_equal(last, names[0]) || str_equal(last, names[1]) || str_equal(last, names[2])
        || str_equal(last, names[3]) || str_equal(last, names[4]) || str_equal(last, names[5])
        || str_equal(last, names[6]) || str_equal(last, names[7]) || str_equal(last, names[8])
        || str_equal(last, names[9]) || str_equal(last, names[10]) || str_equal(last, names[11])
        || str_equal(last, names[12]) || str_equal(last, names[13]) || str_equal(last, names[14])
        || str_equal(last, names[15]) || str_equal(last, names[16]) || str_equal(last, names[17])
        || str_equal(last, names[18])
}

/// Whether the path is the language builtin `builtin.array.push`.
pub fn is_language_builtin_symbol(path: &NamePath) -> (r: bool)
    ensures
        r == builtin_path(path@),
{
    path.parts.len() == 3 && str_equal(path.parts[0].as_str(), "builtin") && str_equal(
        path.parts[1].as_str(),
        "array",
    ) && str_equal(path.parts[2].as_str(), "push")
}

/// The callee of a static call resolves locally or through an external import.
pub open spec fn call_problem(sub: &FragmentSubmission, f: &ExecutableFunction, block: u32, k: int, ins: Instruction) -> Option<ErrorModel> {
    let location = instruction_site(block, k);
    match ins.kind {
        InstructionKind::Call { callee, .. } => match callee {
            Operand::Symbol(path) => {
                let symbol = join(path@, "."@);
                let local = sub.executable matches Some(e) && first_index_with_symbol(e@, symbol) is Some;
                let external = exists|j: int| 0 <= j < sub.external_import_links@.len() && (#[trigger] sub.external_import_links@[j])@ == path@;
                if operator_path(path@) || builtin_path(path@) || local || external {
                    None
                } else {
                    Some(error("SMIR003"@, f.symbol@, location,
                        "static callee `"@ + symbol + "` is absent from the exact function registry and external import registry"@))
                }
            },
            _ => Some(error("SMIR003"@, f.symbol@, location, "static call requires an explicit callee symbol"@)),
        },
        _ => None,
    }
}

/// The first unresolved static call of `f`, block by block, instruction by instruction.
pub open spec fn calls_problem(sub: &FragmentSubmission, f: &ExecutableFunction, index: int) -> Option<ErrorModel>
    decreases f.blocks@.len() - index,
{
    if index < 0 || index >= f.blocks@.len() {
        None
    } else {
        or_else(block_calls_problem(sub, f, f.blocks@[index], 0), calls_problem(sub, f, index + 1))
    }
}

/// The first unresolved static call among the instructions of `b` from `k` on.
pub open spec fn block_calls_problem(sub: &FragmentSubmission, f: &ExecutableFunction, b: Block, k: int) -> Option<ErrorModel>
    decreases b.instructions@.len() - k,
{
    if k < 0 || k >= b.instructions@.len() {
        None
    } else {
        or_else(call_problem(sub, f, b.id.0, k, b.instructions@[k]), block_calls_problem(sub, f, b, k + 1))
    }
}

fn is_external(links: &Vec<QualifiedName>, path: &NamePath) -> (r: bool)
    ensures
        r == exists|j: int| 0 <= j < links@.len() && (#[trigger] links@[j])@ == path@,
{
    let mut j: usize = 0;
    while j < links.len()
        invariant
            j <= links@.len(),
            forall|m: int| 0 <= m < j ==> (#[trigger] links@[m])@ != path@,
        decreases links.len() - j,
    {
        if parts_equal(&links[j].parts, &path.parts) {
            return true;
        }
        j = j + 1;
    }
    false
}

fn check_call(sub: &FragmentSubmission, f: &ExecutableFunction, block: u32, k: usize, ins: &Instruction) -> (r: Result<(), SemanticMirContractError>)
    ensures
        outcome(r) == call_problem(sub, f, block, k as int, *ins),
{
    if let InstructionKind::Call { callee, .. } = &ins.kind {
        match callee {
            Operand::Symbol(path) => {
                let symbol = path.to_dotted();
                if is_language_operator_symbol(path) || is_language_builtin_symbol(path) {
                    return Ok(());
                }
                let local = match &sub.executable {
                    Some(executable) => executable.find_by_symbol(symbol.as_str()).is_some(),
                    None => false,
                };
                let external = is_external(&sub.external_import_links, path);
                if !local && !external {
                    let mut detail = owned("static callee `");
                    append(&mut detail, symbol.as_str());
                    append(&mut detail, "` is absent from the exact function registry and external import registry");
                    return Err(make_error("SMIR003", f.symbol.as_str(), block_site_text(block, "instruction", k), detail));
                }
            },
            _ => {
                return Err(make_error("SMIR003", f.symbol.as_str(), block_site_text(block, "instruction", k),
                    owned("static call requires an explicit callee symbol")));
            },
        }
    }
    Ok(())
}

/// Every static call names a callee present in the exact function registry or the external
/// import registry, or is a language operator or builtin; the first violation is `SMIR003`.
#[verifier::loop_isolation(false)]
pub fn validate_static_call_resolution(sub: &FragmentSubmission, f: &ExecutableFunction) -> (r: Result<(), SemanticMirContractError>)
    ensures
        outcome(r) == calls_problem(sub, f, 0),
{
    let mut i: usize = 0;
    while i < f.blocks.len()
        invariant
            i <= f.blocks@.len(),
            calls_problem(sub, f, 0) == calls_problem(sub, f, i as int),
        decreases f.blocks.len() - i,
    {
        let block = &f.blocks[i];
        let mut k: usize = 0;
        while k < block.instructions.len()
            invariant
                block == &f.blocks@[i as int],
                k <= block.instructions@.len(),
                block_calls_problem(sub, f, *block, 0) == block_calls_problem(sub, f, *block, k as int),
            decreases block.instructions.len() - k,
        {
            check_call(sub, f, block.id.0, k, &block.instructions[k])?;
            k = k + 1;
        }
        i = i + 1;
    }
    Ok(())
}

// ---------------------------------------------------------------- aggregate and sum contracts

/// Layouts named `name`.
pub open spec fn layout_named(name: Seq<char>) -> spec_fn(AggregateLayout) -> bool {
    |l: AggregateLayout| l.name@ == name
}

/// Fields named `name`.
pub open spec fn field_named(name: Seq<char>) -> spec_fn(FieldLayout) -> bool {
    |l: FieldLayout| l.name@ == name
}

/// Sums named `name`.
pub open spec fn sum_named(name: Seq<char>) -> spec_fn(SumTypeLayout) -> bool {
    |l: SumTypeLayout| l.name@ == name
}

/// Variants named `name`.
pub open spec fn variant_named(name: Seq<char>) -> spec_fn(SumVariantLayout) -> bool {
    |l: SumVariantLayout| l.name@ == name
}

/// The owner a method symbol names: the segment before its last `.`, cut after its last `:` or `.`.
pub open spec fn function_owner(symbol: Seq<char>) -> Option<Seq<char>> {
    match last_index_of_char(symbol, '.') {
        Some(k) => Some(tail_after_separator(symbol.take(k))),
        None => None,
    }
}

/// The owner name a method symbol carries (`pkg::Owner.method` gives `Owner`).
pub fn function_owner_from_symbol(symbol: &str) -> (r: Option<String>)
    ensures
        match r {
            Some(o) => function_owner(symbol@) == Some(o@),
            None => function_owner(symbol@) is None,
        },
{
    let chars = chars_of(symbol);
    match last_index_of_char_exec(&chars, '.') {
        Some(k) => {
            let mut prefix: Vec<char> = Vec::new();
            let mut i: usize = 0;
            while i < k
                invariant
                    k < chars@.len(),
                    i <= k,
                    prefix@ == chars@.take(i as int),
                decreases k - i,
            {
                prefix.push(chars[i]);
                i = i + 1;
                assert(prefix@ =~= chars@.take(i as int));
            }
            Some(string_of(&tail_after_separator_exec(&prefix)))
        },
        None => None,
    }
}

/// A `StructNew` result type matches the constructed aggregate: same owner, or `Self` inside
/// one of the aggregate's methods.
pub open spec fn output_owner_ok(output: TypeModel, name: Seq<char>, symbol: Seq<char>) -> bool {
    owner_of(output) == Some(name) || (output == TypeModel::Named("Self"@) && function_owner(symbol) == Some(name))
}

fn struct_new_output_owner_compatible(output_type: &NyarType, struct_name: &str, function_symbol: &str) -> (r: bool)
    ensures
        r == output_owner_ok(output_type.model(), struct_name@, function_symbol@),
{
    if let Some(owner) = aggregate_owner_name(output_type) {
        if str_equal(owner, struct_name) {
            return true;
        }
    }
    if let NyarType::Named(name) = output_type {
        if str_equal(name.as_str(), "Self") {
            return match function_owner_from_symbol(function_symbol) {
                Some(owner) => str_equal(owner.as_str(), struct_name),
                None => false,
            };
        }
    }
    false
}

/// The type of an instruction's primary result.
pub open spec fn output_type(f: &ExecutableFunction, ins: Instruction) -> Option<TypeModel> {
    match primary_result(&ins) {
        Some(o) => type_of(f, o),
        None => None,
    }
}

/// One `StructNew` field initializer matches a declared field of `layout`.
pub open spec fn field_init_ok(f: &ExecutableFunction, layout: AggregateLayout, init: (String, Operand)) -> bool {
    match first_index(layout.fields@, field_named(init.0@)) {
        Some(fi) => init.1 is Value && (type_of(f, init.1->Value_0) matches Some(actual) && field_compatible(actual, layout.fields@[fi].ty.model())),
        None => false,
    }
}

/// A `StructNew` names a declared layout, initializes exactly its fields with compatible values,
/// and produces the aggregate's type.
pub open spec fn struct_new_problem(sub: &FragmentSubmission, f: &ExecutableFunction, location: Seq<char>, ins: Instruction, name: String, fields: Vec<(String, Operand)>) -> Option<ErrorModel> {
    match first_index(sub.aggregate_layouts.layouts@, layout_named(name@)) {
        None => Some(error("SMIR010"@, f.symbol@, location, "aggregate construction references an unknown layout"@)),
        Some(li) => {
            let layout = sub.aggregate_layouts.layouts@[li];
            let fields_match = fields@.len() == layout.fields@.len() && forall|i: int| 0 <= i < fields@.len() ==> field_init_ok(f, layout, #[trigger] fields@[i]);
            let owner_ok = output_type(f, ins) matches Some(t) && output_owner_ok(t, name@, f.symbol@);
            if !owner_ok || !fields_match {
                Some(error("SMIR010"@, f.symbol@, location, "aggregate construction contract disagrees with declared layout metadata"@))
            } else {
                None
            }
        },
    }
}

/// The type of an optional payload operand, when it is a value.
pub open spec fn payload_value_type(f: &ExecutableFunction, payload: Option<Operand>) -> Option<TypeModel> {
    match payload {
        Some(Operand::Value(v)) => type_of(f, v),
        _ => None,
    }
}

/// A `SumNew` names a declared sum and variant, produces the sum's type, and carries the
/// variant's declared payload type with a compatible payload.
pub open spec fn sum_new_problem(sub: &FragmentSubmission, f: &ExecutableFunction, location: Seq<char>, ins: Instruction, sum_type: String, variant: String, payload_type: Option<NyarType>, payload: Option<Operand>) -> Option<ErrorModel> {
    match first_index(sub.sum_types@, sum_named(sum_type@)) {
        None => Some(error("SMIR006"@, f.symbol@, location, "sum construction references an undeclared sum"@)),
        Some(si) => match first_index(sub.sum_types@[si].variants@, variant_named(variant@)) {
            None => Some(error("SMIR006"@, f.symbol@, location, "sum construction references an undeclared variant"@)),
            Some(vi) => {
                let declared = sub.sum_types@[si].variants@[vi].payload_type;
                let bad_payload = match (declared, payload, payload_value_type(f, payload)) {
                    (None, None, _) => false,
                    (Some(expected), Some(Operand::Value(_)), Some(actual)) => !field_compatible(actual, expected.model()),
                    _ => true,
                };
                if output_type(f, ins) != Some(TypeModel::Named(sum_type@)) || opt_model(payload_type) != opt_model(declared) || bad_payload {
                    Some(error("SMIR006"@, f.symbol@, location, "sum construction contract disagrees with declared sum metadata"@))
                } else {
                    None
                }
            },
        },
    }
}

/// The type of an operand that is a value.
pub open spec fn value_operand_type(f: &ExecutableFunction, op: Operand) -> Option<TypeModel> {
    match op {
        Operand::Value(v) => type_of(f, v),
        _ => None,
    }
}

/// A `SumPayloadGet` names a declared sum and a payload-bearing variant, reads a value of the
/// sum's type, and yields the declared payload type.
pub open spec fn payload_get_problem(sub: &FragmentSubmission, f: &ExecutableFunction, location: Seq<char>, ins: Instruction, sum_type: String, variant: String, payload_type: NyarType, object: Operand) -> Option<ErrorModel> {
    match first_index(sub.sum_types@, sum_named(sum_type@)) {
        None => Some(error("SMIR006"@, f.symbol@, location,
            "sum payload extraction references undeclared sum `"@ + sum_type@ + "`"@)),
        Some(si) => {
            let variants = sub.sum_types@[si].variants@;
            match first_index(variants, variant_named(variant@)) {
                Some(vi) if variants[vi].payload_type is Some => {
                    let declared = variants[vi].payload_type->0;
                    if declared.model() != payload_type.model() || output_type(f, ins) != Some(payload_type.model())
                        || value_operand_type(f, object) != Some(TypeModel::Named(sum_type@)) {
                        Some(error("SMIR006"@, f.symbol@, location, "sum payload extraction contract disagrees with declared sum metadata"@))
                    } else {
                        None
                    }
                },
                _ => Some(error("SMIR006"@, f.symbol@, location,
                    "sum `"@ + sum_type@ + "` has no payload-bearing variant `"@ + variant@ + "`"@)),
            }
        },
    }
}

/// A field access reads an object of a nominal type with a declared layout holding the field,
/// and its result (and stored value) are compatible with the field's declared type.
pub open spec fn field_access_problem(sub: &FragmentSubmission, f: &ExecutableFunction, location: Seq<char>, ins: Instruction, object: Operand, field: String, value: Option<Operand>) -> Option<ErrorModel> {
    let owner = match value_operand_type(f, object) {
        Some(t) => owner_of(t),
        None => None,
    };
    match owner {
        None => Some(error("SMIR010"@, f.symbol@, location, "aggregate field access requires a nominal object type"@)),
        Some(name) => match first_index(sub.aggregate_layouts.layouts@, layout_named(name)) {
            None => Some(error("SMIR010"@, f.symbol@, location,
                "aggregate field access references unknown layout `"@ + name + "`"@)),
            Some(li) => {
                let layout = sub.aggregate_layouts.layouts@[li];
                match first_index(layout.fields@, field_named(field@)) {
                    None => Some(error("SMIR010"@, f.symbol@, location,
                        "aggregate layout "@ + layout.name@ + " has no field `"@ + field@ + "`"@)),
                    Some(fi) => {
                        let declared = layout.fields@[fi].ty.model();
                        if primary_result(&ins) is Some && !(output_type(f, ins) matches Some(actual) && field_compatible(actual, declared)) {
                            Some(error("SMIR010"@, f.symbol@, location, "FieldGet result type differs from declared aggregate field type"@))
                        } else if value matches Some(Operand::Value(v)) && !(type_of(f, v) matches Some(actual) && field_compatible(actual, declared)) {
                            Some(error("SMIR010"@, f.symbol@, location, "FieldSet value type differs from declared aggregate field type"@))
                        } else {
                            None
                        }
                    },
                }
            },
        },
    }
}

/// The aggregate / sum contract of one instruction.
pub open spec fn contract_problem(sub: &FragmentSubmission, f: &ExecutableFunction, block: u32, k: int, ins: Instruction) -> Option<ErrorModel> {
    let location = instruction_site(block, k);
    match ins.kind {
        InstructionKind::StructNew { struct_name, fields } => struct_new_problem(sub, f, location, ins, struct_name, fields),
        InstructionKind::SumNew { sum_type, variant, payload_type, payload, .. } => sum_new_problem(sub, f, location, ins, sum_type, variant, payload_type, payload),
        InstructionKind::SumPayloadGet { sum_type, variant, payload_type, object, .. } => payload_get_problem(sub, f, location, ins, sum_type, variant, payload_type, object),
        InstructionKind::FieldGet { object, field } => field_access_problem(sub, f, location, ins, object, field, None),
        InstructionKind::FieldSet { object, field, value } => field_access_problem(sub, f, location, ins, object, field, Some(value)),
        _ => None,
    }
}

/// The first aggregate / sum contract violation of `f`, block by block, instruction by instruction.
pub open spec fn contracts_problem(sub: &FragmentSubmission, f: &ExecutableFunction, index: int) -> Option<ErrorModel>
    decreases f.blocks@.len() - index,
{
    if index < 0 || index >= f.blocks@.len() {
        None
    } else {
        or_else(block_contracts_problem(sub, f, f.blocks@[index], 0), contracts_problem(sub, f, index + 1))
    }
}

/// The first contract violation among the instructions of `b` from `k` on.
pub open spec fn block_contracts_problem(sub: &FragmentSubmission, f: &ExecutableFunction, b: Block, k: int) -> Option<ErrorModel>
    decreases b.instructions@.len() - k,
{
    if k < 0 || k >= b.instructions@.len() {
        None
    } else {
        or_else(contract_problem(sub, f, b.id.0, k, b.instructions@[k]), block_contracts_problem(sub, f, b, k + 1))
    }
}

fn find_layout(layouts: &Vec<AggregateLayout>, name: &str) -> (r: Option<usize>)
    ensures
        match r {
            Some(i) => first_index(layouts@, layout_named(name@)) == Some(i as int) && i < layouts@.len(),
            None => first_index(layouts@, layout_named(name@)) is None,
        },
{
    let mut i: usize = 0;
    while i < layouts.len()
        invariant
            i <= layouts@.len(),
            forall|j: int| 0 <= j < i ==> !(#[trigger] layout_named(name@)(layouts@[j])),
        decreases layouts.len() - i,
    {
        if str_equal(layouts[i].name.as_str(), name) {
            proof {
                lemma_first_index_is(layouts@, layout_named(name@), i as int);
            }
            return Some(i);
        }
        i = i + 1;
    }
    proof {
        lemma_first_index_none(layouts@, layout_named(name@));
    }
    None
}

fn find_field(fields: &Vec<FieldLayout>, name: &str) -> (r: Option<usize>)
    ensures
        match r {
            Some(i) => first_index(fields@, field_named(name@)) == Some(i as int) && i < fields@.len(),
            None => first_index(fields@, field_named(name@)) is None,
        },
{
    let mut i: usize = 0;
    while i < fields.len()
        invariant
            i <= fields@.len(),
            forall|j: int| 0 <= j < i ==> !(#[trigger] field_named(name@)(fields@[j])),
        decreases fields.len() - i,
    {
        if str_equal(fields[i].name.as_str(), name) {
            proof {
                lemma_first_index_is(fields@, field_named(name@), i as int);
            }
            return Some(i);
        }
        i = i + 1;
    }
    proof {
        lemma_first_index_none(fields@, field_named(name@));
    }
    None
}

fn find_sum(sums: &Vec<SumTypeLayout>, name: &str) -> (r: Option<usize>)
    ensures
        match r {
            Some(i) => first_index(sums@, sum_named(name@)) == Some(i as int) && i < sums@.len(),
            None => first_index(sums@, sum_named(name@)) is None,
        },
{
    let mut i: usize = 0;
    while i < sums.len()
        invariant
            i <= sums@.len(),
            forall|j: int| 0 <= j < i ==> !(#[trigger] sum_named(name@)(sums@[j])),
        decreases sums.len() - i,
    {
        if str_equal(sums[i].name.as_str(), name) {
            proof {
                lemma_first_index_is(sums@, sum_named(name@), i as int);
            }
            return Some(i);
        }
        i = i + 1;
    }
    proof {
        lemma_first_index_none(sums@, sum_named(name@));
    }
    None
}

fn find_variant(variants: &Vec<SumVariantLayout>, name: &str) -> (r: Option<usize>)
    ensures
        match r {
            Some(i) => first_index(variants@, variant_named(name@)) == Some(i as int) && i < variants@.len(),
            None => first_index(variants@, variant_named(name@)) is None,
        },
{
    let mut i: usize = 0;
    while i < variants.len()
        invariant
            i <= variants@.len(),
            forall|j: int| 0 <= j < i ==> !(#[trigger] variant_named(name@)(variants@[j])),
        decreases variants.len() - i,
    {
        if str_equal(variants[i].name.as_str(), name) {
            proof {
                lemma_first_index_is(variants@, variant_named(name@), i as int);
            }
            return Some(i);
        }
        i = i + 1;
    }
    proof {
        lemma_first_index_none(variants@, variant_named(name@));
    }
    None
}

fn output_type_exec<'a>(f: &'a ExecutableFunction, ins: &Instruction) -> (r: Option<&'a NyarType>)
    ensures
        opt_model(match r {
            Some(t) => Some(*t),
            None => None,
        }) == output_type(f, *ins),
{
    match instruction_primary_result(ins) {
        Some(o) => type_of_exec(f, &o),
        None => None,
    }
}

fn value_operand_type_exec<'a>(f: &'a ExecutableFunction, op: &Operand) -> (r: Option<&'a NyarType>)
    ensures
        opt_model(match r {
            Some(t) => Some(*t),
            None => None,
        }) == value_operand_type(f, *op),
{
    match op {
        Operand::Value(v) => type_of_exec(f, v),
        _ => None,
    }
}

fn is_named(ty: Option<&NyarType>, name: &str) -> (r: bool)
    ensures
        r == (opt_model(match ty {
            Some(t) => Some(*t),
            None => None,
        }) == Some(TypeModel::Named(name@))),
{
    match ty {
        Some(NyarType::Named(n)) => str_equal(n.as_str(), name),
        _ => false,
    }
}

#[verifier::loop_isolation(false)]
fn check_struct_new(sub: &FragmentSubmission, f: &ExecutableFunction, block: u32, k: usize, ins: &Instruction, name: &String, fields: &Vec<(String, Operand)>) -> (r: Result<(), SemanticMirContractError>)
    ensures
        outcome(r) == struct_new_problem(sub, f, instruction_site(block, k as int), *ins, *name, *fields),
{
    let layouts = &sub.aggregate_layouts.layouts;
    let li = match find_layout(layouts, name.as_str()) {
        Some(li) => li,
        None => {
            return Err(make_error("SMIR010", f.symbol.as_str(), block_site_text(block, "instruction", k),
                owned("aggregate construction references an unknown layout")));
        },
    };
    let layout = &layouts[li];
    let mut fields_match = fields.len() == layout.fields.len();
    if fields_match {
        let mut i: usize = 0;
        while i < fields.len()
            invariant
                i <= fields@.len(),
                fields_match == forall|j: int| 0 <= j < i ==> field_init_ok(f, *layout, #[trigger] fields@[j]),
            decreases fields.len() - i,
        {
            let entry = &fields[i];
            let ok = match find_field(&layout.fields, entry.0.as_str()) {
                Some(fi) => match &entry.1 {
                    Operand::Value(v) => match type_of_exec(f, v) {
                        Some(actual) => aggregate_field_types_compatible(actual, &layout.fields[fi].ty),
                        None => false,
                    },
                    _ => false,
                },
                None => false,
            };
            proof {
                assert(ok == field_init_ok(f, *layout, fields@[i as int]));
            }
            if !ok {
                fields_match = false;
            }
            i = i + 1;
        }
    }
    let owner_ok = match output_type_exec(f, ins) {
        Some(t) => struct_new_output_owner_compatible(t, name.as_str(), f.symbol.as_str()),
        None => false,
    };
    if !owner_ok || !fields_match {
        return Err(make_error("SMIR010", f.symbol.as_str(), block_site_text(block, "instruction", k),
            owned("aggregate construction contract disagrees with declared layout metadata")));
    }
    Ok(())
}

fn check_sum_new(sub: &FragmentSubmission, f: &ExecutableFunction, block: u32, k: usize, ins: &Instruction, sum_type: &String, variant: &String, payload_type: &Option<NyarType>, payload: &Option<Operand>) -> (r: Result<(), SemanticMirContractError>)
    ensures
        outcome(r) == sum_new_problem(sub, f, instruction_site(block, k as int), *ins, *sum_type, *variant, *payload_type, *payload),
{
    let si = match find_sum(&sub.sum_types, sum_type.as_str()) {
        Some(si) => si,
        None => {
            return Err(make_error("SMIR006", f.symbol.as_str(), block_site_text(block, "instruction", k),
                owned("sum construction references an undeclared sum")));
        },
    };
    let sum = &sub.sum_types[si];
    let vi = match find_variant(&sum.variants, variant.as_str()) {
        Some(vi) => vi,
        None => {
            return Err(make_error("SMIR006", f.symbol.as_str(), block_site_text(block, "instruction", k),
                owned("sum construction references an undeclared variant")));
        },
    };
    let declared = &sum.variants[vi].payload_type;
    let payload_value_type = match payload {
        Some(Operand::Value(v)) => type_of_exec(f, v),
        _ => None,
    };
    let bad_payload = match (declared, payload, payload_value_type) {
        (None, None, _) => false,
        (Some(expected), Some(Operand::Value(_)), Some(actual)) => !aggregate_field_types_compatible(actual, expected),
        _ => true,
    };
    let same_payload_type = match (payload_type, declared) {
        (Some(a), Some(b)) => crate::types::same_type(a, b),
        (None, None) => true,
        _ => false,
    };
    if !is_named(output_type_exec(f, ins), sum_type.as_str()) || !same_payload_type || bad_payload {
        return Err(make_error("SMIR006", f.symbol.as_str(), block_site_text(block, "instruction", k),
            owned("sum construction contract disagrees with declared sum metadata")));
    }
    Ok(())
}

fn check_payload_get(sub: &FragmentSubmission, f: &ExecutableFunction, block: u32, k: usize, ins: &Instruction, sum_type: &String, variant: &String, payload_type: &NyarType, object: &Operand) -> (r: Result<(), SemanticMirContractError>)
    ensures
        outcome(r) == payload_get_problem(sub, f, instruction_site(block, k as int), *ins, *sum_type, *variant, *payload_type, *object),
{
    let si = match find_sum(&sub.sum_types, sum_type.as_str()) {
        Some(si) => si,
        None => {
            let mut detail = owned("sum payload extraction references undeclared sum `");
            append(&mut detail, sum_type.as_str());
            append(&mut detail, "`");
            return Err(make_error("SMIR006", f.symbol.as_str(), block_site_text(block, "instruction", k), detail));
        },
    };
    let variants = &sub.sum_types[si].variants;
    let declared = match find_variant(variants, variant.as_str()) {
        Some(vi) => match &variants[vi].payload_type {
            Some(t) => Some(t),
            None => None,
        },
        None => None,
    };
    let declared = match declared {
        Some(t) => t,
        None => {
            let mut detail = owned("sum `");
            append(&mut detail, sum_type.as_str());
            append(&mut detail, "` has no payload-bearing variant `");
            append(&mut detail, variant.as_str());
            append(&mut detail, "`");
            return Err(make_error("SMIR006", f.symbol.as_str(), block_site_text(block, "instruction", k), detail));
        },
    };
    let output_matches = match output_type_exec(f, ins) {
        Some(t) => crate::types::same_type(t, payload_type),
        None => false,
    };
    if !crate::types::same_type(declared, payload_type) || !output_matches || !is_named(value_operand_type_exec(f, object), sum_type.as_str()) {
        return Err(make_error("SMIR006", f.symbol.as_str(), block_site_text(block, "instruction", k),
            owned("sum payload extraction contract disagrees with declared sum metadata")));
    }
    Ok(())
}

fn check_field_access(sub: &FragmentSubmission, f: &ExecutableFunction, block: u32, k: usize, ins: &Instruction, object: &Operand, field: &String, value: Option<&Operand>) -> (r: Result<(), SemanticMirContractError>)
    ensures
        outcome(r) == field_access_problem(sub, f, instruction_site(block, k as int), *ins, *object, *field, match value {
            Some(v) => Some(*v),
            None => None,
        }),
{
    let owner = match value_operand_type_exec(f, object) {
        Some(t) => aggregate_owner_name(t),
        None => None,
    };
    let name = match owner {
        Some(name) => name,
        None => {
            return Err(make_error("SMIR010", f.symbol.as_str(), block_site_text(block, "instruction", k),
                owned("aggregate field access requires a nominal object type")));
        },
    };
    let layouts = &sub.aggregate_layouts.layouts;
    let li = match find_layout(layouts, name) {
        Some(li) => li,
        None => {
            let mut detail = owned("aggregate field access references unknown layout `");
            append(&mut detail, name);
            append(&mut detail, "`");
            return Err(make_error("SMIR010", f.symbol.as_str(), block_site_text(block, "instruction", k), detail));
        },
    };
    let layout = &layouts[li];
    let fi = match find_field(&layout.fields, field.as_str()) {
        Some(fi) => fi,
        None => {
            let mut detail = owned("aggregate layout ");
            append(&mut detail, layout.name.as_str());
            append(&mut detail, " has no field `");
            append(&mut detail, field.as_str());
            append(&mut detail, "`");
            return Err(make_error("SMIR010", f.symbol.as_str(), block_site_text(block, "instruction", k), detail));
        },
    };
    let declared = &layout.fields[fi].ty;
    if instruction_primary_result(ins).is_some() {
        let ok = match output_type_exec(f, ins) {
            Some(actual) => aggregate_field_types_compatible(actual, declared),
            None => false,
        };
        if !ok {
            return Err(make_error("SMIR010", f.symbol.as_str(), block_site_text(block, "instruction", k),
                owned("FieldGet result type differs from declared aggregate field type")));
        }
    }
    if let Some(Operand::Value(v)) = value {
        let ok = match type_of_exec(f, v) {
            Some(actual) => aggregate_field_types_compatible(actual, declared),
            None => false,
        };
        if !ok {
            return Err(make_error("SMIR010", f.symbol.as_str(), block_site_text(block, "instruction", k),
                owned("FieldSet value type differs from declared aggregate field type")));
        }
    }
    Ok(())
}

fn check_contract(sub: &FragmentSubmission, f: &ExecutableFunction, block: u32, k: usize, ins: &Instruction) -> (r: Result<(), SemanticMirContractError>)
    ensures
        outcome(r) == contract_problem(sub, f, block, k as int, *ins),
{
    match &ins.kind {
        InstructionKind::StructNew { struct_name, fields } => check_struct_new(sub, f, block, k, ins, struct_name, fields),
        InstructionKind::SumNew { sum_type, variant, payload_type, payload, .. } => check_sum_new(sub, f, block, k, ins, sum_type, variant, payload_type, payload),
        InstructionKind::SumPayloadGet { sum_type, variant, payload_type, object, .. } => check_payload_get(sub, f, block, k, ins, sum_type, variant, payload_type, object),
        InstructionKind::FieldGet { object, field } => check_field_access(sub, f, block, k, ins, object, field, None),
        InstructionKind::FieldSet { object, field, value } => check_field_access(sub, f, block, k, ins, object, field, Some(value)),
        _ => Ok(()),
    }
}

/// Aggregate construction, sum construction, sum payload extraction and field access agree with
/// the declared layouts and sums; the first violation is `SMIR010` (aggregates) or `SMIR006` (sums).
#[verifier::loop_isolation(false)]
pub fn validate_aggregate_field_contracts(sub: &FragmentSubmission, f: &ExecutableFunction) -> (r: Result<(), SemanticMirContractError>)
    ensures
        outcome(r) == contracts_problem(sub, f, 0),
{
    let mut i: usize = 0;
    while i < f.blocks.len()
        invariant
            i <= f.blocks@.len(),
            contracts_problem(sub, f, 0) == contracts_problem(sub, f, i as int),
        decreases f.blocks.len() - i,
    {
        let block = &f.blocks[i];
        let mut k: usize = 0;
        while k < block.instructions.len()
            invariant
                block == &f.blocks@[i as int],
                k <= block.instructions@.len(),
                block_contracts_problem(sub, f, *block, 0) == block_contracts_problem(sub, f, *block, k as int),
            decreases block.instructions.len() - k,
        {
            check_contract(sub, f, block.id.0, k, &block.instructions[k])?;
            k = k + 1;
        }
        i = i + 1;
    }
    Ok(())
}

// ---------------------------------------------------------------- submission check

/// All checks of one executable function: static calls, the function shape, then the
/// aggregate and sum contracts.
pub open spec fn executable_problem(sub: &FragmentSubmission, f: &ExecutableFunction) -> Option<ErrorModel> {
    or_else(calls_problem(sub, f, 0), or_else(function_problem(f), contracts_problem(sub, f, 0)))
}

/// The first problem among the provider's functions from `index` on, in operation order.
pub open spec fn operations_problem(sub: &FragmentSubmission, entries: Seq<OperationEntry>, index: int) -> Option<ErrorModel>
    decreases entries.len() - index,
{
    if index < 0 || index >= entries.len() {
        None
    } else {
        or_else(executable_problem(sub, &entries[index].1), operations_problem(sub, entries, index + 1))
    }
}

/// The first problem of a submission: its sums, its layouts, then each executable function.
pub open spec fn submission_problem(sub: &FragmentSubmission) -> Option<ErrorModel> {
    or_else(
        sums_problem(sub.sum_types@, 0),
        or_else(
            layouts_problem(sub.aggregate_layouts.layouts@, 0),
            match sub.executable {
                Some(e) => operations_problem(sub, e@, 0),
                None => None,
            },
        ),
    )
}

/// Validates a whole submission against the semantic MIR contract and reports the first
/// violation: nominal sums, aggregate layouts, then every executable function in operation order.
#[verifier::loop_isolation(false)]
pub fn validate_submission(sub: &FragmentSubmission) -> (r: Result<(), SemanticMirContractError>)
    ensures
        outcome(r) == submission_problem(sub),
{
    validate_nominal_sums(&sub.sum_types)?;
    validate_aggregate_layouts(&sub.aggregate_layouts)?;
    let executable = match &sub.executable {
        Some(executable) => executable,
        None => {
            return Ok(());
        },
    };
    let operations = executable.operations();
    let mut i: usize = 0;
    while i < operations.len()
        invariant
            i <= operations@.len(),
            operations@.len() == executable@.len(),
            operations_problem(sub, executable@, 0) == operations_problem(sub, executable@, i as int),
        decreases operations.len() - i,
    {
        let view = match executable.get_function(&operations[i]) {
            Some(view) => view,
            None => {
                proof {
                    assert(executable@[i as int].0@ == operations@[i as int]@);
                }
                return Err(make_error("SMIR003", operations[i].to_dotted().as_str(), owned("operation"),
                    owned("executable operation has no function payload")));
            },
        };
        proof {
            assert(executable@[i as int].0@ == operations@[i as int]@);
            assert(view.function == &executable@[i as int].1);
        }
        validate_static_call_resolution(sub, view.function)?;
        validate_function(view.function)?;
        validate_aggregate_field_contracts(sub, view.function)?;
        i = i + 1;
    }
    Ok(())
}

// ---------------------------------------------------------------- laws

/// A nominal sum is degenerate: no name, no variants, a zero tag width, a variant without a
/// name, or two variants sharing a name or a tag.
pub open spec fn sum_degenerate(sum: SumTypeLayout) -> bool {
    let vs = sum.variants@;
    ||| sum.name@.len() == 0
    ||| vs.len() == 0
    ||| sum.tag_width == 0
    ||| exists|j: int| 0 <= j < vs.len() && (#[trigger] vs[j]).name@.len() == 0
    ||| exists|k: int, j: int|
        0 <= k < j < vs.len() && ((#[trigger] vs[k]).name@ == (#[trigger] vs[j]).name@ || vs[k].tag == vs[j].tag)
}

/// A variant from `index` on has no name or repeats an earlier variant's name or tag.
pub open spec fn variants_bad_from(vs: Seq<SumVariantLayout>, index: int) -> bool {
    exists|j: int|
        index <= j < vs.len() && 0 <= j && ((#[trigger] vs[j]).name@.len() == 0 || exists|k: int|
            0 <= k < j && (vs[k].name@ == vs[j].name@ || vs[k].tag == vs[j].tag))
}

proof fn lemma_variants_problem(sum: SumTypeLayout, index: int)
    requires
        0 <= index,
    ensures
        (variants_problem(sum, index) is Some) <==> variants_bad_from(sum.variants@, index),
        variants_problem(sum, index) matches Some(e) ==> e.code == "SMIR006"@ && e.function == sum.name@
            && e.location == "sum variant"@,
    decreases sum.variants@.len() - index,
{
    let vs = sum.variants@;
    if index < vs.len() {
        lemma_variants_problem(sum, index + 1);
        if variants_bad_from(vs, index + 1) {
            let j = choose|j: int|
                index + 1 <= j < vs.len() && 0 <= j && ((#[trigger] vs[j]).name@.len() == 0 || exists|k: int|
                    0 <= k < j && (vs[k].name@ == vs[j].name@ || vs[k].tag == vs[j].tag));
            assert(index <= j);
        }
        if vs[index].name@.len() == 0 || exists|k: int| 0 <= k < index && (vs[k].name@ == vs[index].name@ || vs[k].tag == vs[index].tag) {
            assert(vs[index] == vs[index]);
        }
    }
}

/// `validate_nominal_sums` fails exactly when some sum is degenerate; the error is `SMIR006`,
/// names the first degenerate sum, and sits at the sum layout or one of its variants.
pub proof fn lemma_nominal_sums_fail_iff(sums: Seq<SumTypeLayout>, index: int)
    requires
        0 <= index,
    ensures
        (sums_problem(sums, index) is Some) <==> exists|i: int| index <= i < sums.len() && sum_degenerate(#[trigger] sums[i]),
        sums_problem(sums, index) matches Some(e) ==> {
            &&& e.code == "SMIR006"@
            &&& e.location == "sum layout"@ || e.location == "sum variant"@
            &&& exists|i: int|
                index <= i < sums.len() && sum_degenerate(#[trigger] sums[i]) && e.function == sums[i].name@
                    && forall|k: int| index <= k < i ==> !sum_degenerate(sums[k])
        },
    decreases sums.len() - index,
{
    if index < sums.len() {
        let sum = sums[index];
        lemma_nominal_sums_fail_iff(sums, index + 1);
        lemma_variants_problem(sum, 0);
        let vs = sum.variants@;
        assert(variants_bad_from(vs, 0) <==> (exists|j: int| 0 <= j < vs.len() && (#[trigger] vs[j]).name@.len() == 0)
            || (exists|k: int, j: int|
            0 <= k < j < vs.len() && ((#[trigger] vs[k]).name@ == (#[trigger] vs[j]).name@ || vs[k].tag == vs[j].tag))) by {
            if variants_bad_from(vs, 0) {
                let j = choose|j: int|
                    0 <= j < vs.len() && ((#[trigger] vs[j]).name@.len() == 0 || exists|k: int|
                        0 <= k < j && (vs[k].name@ == vs[j].name@ || vs[k].tag == vs[j].tag));
                if vs[j].name@.len() != 0 {
                    let k = choose|k: int| 0 <= k < j && (vs[k].name@ == vs[j].name@ || vs[k].tag == vs[j].tag);
                    assert(vs[k] == vs[k]);
                }
            }
            if exists|k: int, j: int|
                0 <= k < j < vs.len() && ((#[trigger] vs[k]).name@ == (#[trigger] vs[j]).name@ || vs[k].tag == vs[j].tag) {
                let (k, j) = choose|k: int, j: int|
                    0 <= k < j < vs.len() && ((#[trigger] vs[k]).name@ == (#[trigger] vs[j]).name@ || vs[k].tag == vs[j].tag);
                assert(vs[j] == vs[j]);
            }
        }
        assert((sum_problem(sum) is Some) <==> sum_degenerate(sum));
        if sum_degenerate(sum) {
            assert(sums[index] == sum);
        }
        if exists|i: int| index + 1 <= i < sums.len() && sum_degenerate(#[trigger] sums[i]) {
            let i = choose|i: int| index + 1 <= i < sums.len() && sum_degenerate(#[trigger] sums[i]);
            assert(index <= i);
        }
        if !sum_degenerate(sum) {
            if let Some(e) = sums_problem(sums, index + 1) {
                let i = choose|i: int|
                    index + 1 <= i < sums.len() && sum_degenerate(#[trigger] sums[i]) && e.function == sums[i].name@
                        && forall|k: int| index + 1 <= k < i ==> !sum_degenerate(sums[k]);
                assert forall|k: int| index <= k < i implies !sum_degenerate(sums[k]) by {
                    if k == index {
                        assert(sums[k] == sum);
                    }
                }
            }
            if exists|i: int| index <= i < sums.len() && sum_degenerate(#[trigger] sums[i]) {
                let i = choose|i: int| index <= i < sums.len() && sum_degenerate(#[trigger] sums[i]);
                if i == index {
                    assert(sums[i] == sum);
                }
            }
        }
    }
}

/// An aggregate layout is degenerate: no name, a zero size or alignment, a field without a name,
/// or two fields sharing a name.
pub open spec fn layout_degenerate(layout: AggregateLayout) -> bool {
    layout_problem(layout) is Some
}

/// `validate_aggregate_layouts` fails exactly when some layout has no name, a zero size or
/// alignment, a field without a name or two fields sharing a name; the error is `SMIR010` at
/// `aggregate layout` and names the first such layout.
pub proof fn lemma_aggregate_layouts_fail_iff(layouts: Seq<AggregateLayout>, index: int)
    requires
        0 <= index,
    ensures
        (layouts_problem(layouts, index) is Some) <==> exists|i: int| index <= i < layouts.len() && {
            let l = #[trigger] layouts[i];
            ||| l.name@.len() == 0
            ||| l.align == 0
            ||| l.size == 0
            ||| exists|j: int| 0 <= j < l.fields@.len() && (#[trigger] l.fields@[j]).name@.len() == 0
            ||| exists|k: int, j: int|
                0 <= k < j < l.fields@.len() && (#[trigger] l.fields@[k]).name@ == (#[trigger] l.fields@[j]).name@
        },
        layouts_problem(layouts, index) matches Some(e) ==> {
            &&& e.code == "SMIR010"@
            &&& e.location == "aggregate layout"@
            &&& exists|i: int|
                index <= i < layouts.len() && layout_degenerate(#[trigger] layouts[i]) && e.function == layouts[i].name@
                    && forall|k: int| index <= k < i ==> !layout_degenerate(layouts[k])
        },
    decreases layouts.len() - index,
{
    if index < layouts.len() {
        lemma_aggregate_layouts_fail_iff(layouts, index + 1);
        let l = layouts[index];
        if exists|i: int, k: int| 0 <= k < i < l.fields@.len() && (#[trigger] l.fields@[k]).name@ == (#[trigger] l.fields@[i]).name@ {
            let (i, k) = choose|i: int, k: int| 0 <= k < i < l.fields@.len() && (#[trigger] l.fields@[k]).name@ == (#[trigger] l.fields@[i]).name@;
            assert(l.fields@[k] == l.fields@[k]);
        }
        if exists|k: int, j: int| 0 <= k < j < l.fields@.len() && (#[trigger] l.fields@[k]).name@ == (#[trigger] l.fields@[j]).name@ {
            let (k, j) = choose|k: int, j: int| 0 <= k < j < l.fields@.len() && (#[trigger] l.fields@[k]).name@ == (#[trigger] l.fields@[j]).name@;
            assert(l.fields@[j] == l.fields@[j]);
        }
        if exists|i: int| index + 1 <= i < layouts.len() && layout_degenerate(#[trigger] layouts[i]) {
            let i = choose|i: int| index + 1 <= i < layouts.len() && layout_degenerate(#[trigger] layouts[i]);
            assert(index <= i);
        }
        if !layout_degenerate(l) {
            if let Some(e) = layouts_problem(layouts, index + 1) {
                let i = choose|i: int|
                    index + 1 <= i < layouts.len() && layout_degenerate(#[trigger] layouts[i]) && e.function == layouts[i].name@
                        && forall|k: int| index + 1 <= k < i ==> !layout_degenerate(layouts[k]);
                assert forall|k: int| index <= k < i implies !layout_degenerate(layouts[k]) by {
                    if k == index {
                        assert(layouts[k] == l);
                    }
                }
            }
        }
    }
}

/// The error, if any, is not the missing-entry code.
pub open spec fn not_entry_code(o: Option<ErrorModel>) -> bool {
    o matches Some(e) ==> e.code != "SMIR009"@
}

proof fn lemma_codes_differ()
    ensures
        "SMIR001"@ != "SMIR009"@,
        "SMIR007"@ != "SMIR009"@,
        "SMIR008"@ != "SMIR009"@,
        "SMIR004"@ != "SMIR009"@,
        "SMIR005"@ != "SMIR009"@,
{
    reveal_strlit("SMIR004");
    reveal_strlit("SMIR005");
    reveal_strlit("SMIR001");
    reveal_strlit("SMIR007");
    reveal_strlit("SMIR008");
    reveal_strlit("SMIR009");
    assert("SMIR001"@[6] != "SMIR009"@[6]);
    assert("SMIR007"@[6] != "SMIR009"@[6]);
    assert("SMIR008"@[6] != "SMIR009"@[6]);
    assert("SMIR004"@[6] != "SMIR009"@[6]);
    assert("SMIR005"@[6] != "SMIR009"@[6]);
}

proof fn lemma_operands_code(f: &ExecutableFunction, block: u32, k: int, ops: Seq<Operand>, j: int)
    ensures
        not_entry_code(operands_problem(f, block, k, ops, j)),
    decreases ops.len() - j,
{
    lemma_codes_differ();
    if 0 <= j < ops.len() {
        lemma_operands_code(f, block, k, ops, j + 1);
    }
}

proof fn lemma_instructions_code(f: &ExecutableFunction, b: Block, k: int)
    ensures
        not_entry_code(instructions_problem(f, b, k)),
    decreases b.instructions@.len() - k,
{
    lemma_codes_differ();
    if 0 <= k < b.instructions@.len() {
        lemma_instructions_code(f, b, k + 1);
        let ins = b.instructions@[k];
        lemma_operands_code(f, b.id.0, k, operands_of(ins.kind), 0);
    }
}

proof fn lemma_parameters_code(f: &ExecutableFunction, b: Block, k: int)
    ensures
        not_entry_code(parameters_problem(f, b, k)),
    decreases b.parameters@.len() - k,
{
    lemma_codes_differ();
    if 0 <= k < b.parameters@.len() {
        lemma_parameters_code(f, b, k + 1);
    }
}

proof fn lemma_terminator_operands_code(f: &ExecutableFunction, block: u32, ops: Seq<Operand>, j: int)
    ensures
        not_entry_code(terminator_operands_problem(f, block, ops, j)),
    decreases ops.len() - j,
{
    lemma_codes_differ();
    if 0 <= j < ops.len() {
        lemma_terminator_operands_code(f, block, ops, j + 1);
    }
}

proof fn lemma_jump_arguments_code(f: &ExecutableFunction, location: Seq<char>, args: Seq<Operand>, params: Seq<ValueRef>, j: int)
    ensures
        not_entry_code(jump_arguments_problem(f, location, args, params, j)),
    decreases args.len() - j,
{
    lemma_codes_differ();
    if 0 <= j < args.len() && j < params.len() {
        lemma_jump_arguments_code(f, location, args, params, j + 1);
    }
}

proof fn lemma_blocks_code(f: &ExecutableFunction, index: int)
    ensures
        not_entry_code(blocks_problem(f, index)),
    decreases f.blocks@.len() - index,
{
    lemma_codes_differ();
    if 0 <= index < f.blocks@.len() {
        lemma_blocks_code(f, index + 1);
        let b = f.blocks@[index];
        lemma_parameters_code(f, b, 0);
        lemma_instructions_code(f, b, 0);
        lemma_terminator_operands_code(f, b.id.0, terminator_operands(b.terminator), 0);
        if let Terminator::Jump { target, arguments } = b.terminator {
            if let Some(d) = first_index(f.blocks@, block_with_id(target)) {
                lemma_jump_arguments_code(f, terminator_site(b.id.0), arguments@, f.blocks@[d].parameters@, 0);
            }
        }
    }
}

/// `validate_function` reports `SMIR009` exactly when no block is the entry block; that check
/// comes first, at location `entry`, naming the function.
pub proof fn lemma_missing_entry_iff(f: &ExecutableFunction)
    ensures
        (function_problem(f) matches Some(e) && e.code == "SMIR009"@) <==> !exists|b: int|
            0 <= b < f.blocks@.len() && (#[trigger] f.blocks@[b]).id == f.entry,
        !(exists|b: int| 0 <= b < f.blocks@.len() && (#[trigger] f.blocks@[b]).id == f.entry) ==> (function_problem(
            f,
        ) matches Some(e) && e.location == "entry"@ && e.function == f.symbol@),
{
    lemma_blocks_code(f, 0);
}


/// `operations_problem` finds nothing exactly when no function from `index` on has a problem.
proof fn lemma_operations_none(sub: &FragmentSubmission, entries: Seq<OperationEntry>, index: int)
    requires
        0 <= index <= entries.len(),
    ensures
        operations_problem(sub, entries, index) is None <==> forall|i: int|
            index <= i < entries.len() ==> (#[trigger] executable_problem(sub, &entries[i].1)) is None,
    decreases entries.len() - index,
{
    if index < entries.len() {
        lemma_operations_none(sub, entries, index + 1);
        if operations_problem(sub, entries, index) is None {
            assert forall|i: int| index <= i < entries.len() implies (#[trigger] executable_problem(
                sub,
                &entries[i].1,
            )) is None by {
                if i > index {
                    assert(index + 1 <= i);
                }
            }
        }
    }
}

/// `validate_submission` accepts a submission exactly when its sums and its layouts pass and,
/// where it carries executable functions, every function passes the static-call, function and
/// aggregate-contract checks. Otherwise the sums' error comes first, then the layouts'.
pub proof fn lemma_submission_ok_iff(sub: &FragmentSubmission)
    ensures
        submission_problem(sub) is None <==> {
            &&& sums_problem(sub.sum_types@, 0) is None
            &&& layouts_problem(sub.aggregate_layouts.layouts@, 0) is None
            &&& match sub.executable {
                Some(e) => forall|i: int|
                    0 <= i < e@.len() ==> {
                        &&& calls_problem(sub, &(#[trigger] e@[i]).1, 0) is None
                        &&& function_problem(&e@[i].1) is None
                        &&& contracts_problem(sub, &e@[i].1, 0) is None
                    },
                None => true,
            }
        },
        sums_problem(sub.sum_types@, 0) is Some ==> submission_problem(sub) == sums_problem(
            sub.sum_types@,
            0,
        ),
        sums_problem(sub.sum_types@, 0) is None && layouts_problem(sub.aggregate_layouts.layouts@, 0) is Some
            ==> submission_problem(sub) == layouts_problem(sub.aggregate_layouts.layouts@, 0),
{
    match sub.executable {
        Some(e) => {
            lemma_operations_none(sub, e@, 0);
            assert forall|i: int| 0 <= i < e@.len() implies (executable_problem(sub, &(#[trigger] e@[i]).1) is None <==> {
                &&& calls_problem(sub, &e@[i].1, 0) is None
                &&& function_problem(&e@[i].1) is None
                &&& contracts_problem(sub, &e@[i].1, 0) is None
            }) by {}
        },
        None => {},
    }
}

/// A function of one parameterless entry block that loads one text constant into a typed
/// result and returns nothing passes `validate_function` exactly when the constant's declared
/// type and its result's recorded type are both the literal's encoding (`Utf8` for a UTF-8
/// literal, `Utf16` for a UTF-16 one); otherwise the error is `SMIR007` at that instruction.
pub proof fn lemma_text_constant_function(f: &ExecutableFunction, constant: Constant, ty: Option<NyarType>)
    requires
        f.blocks@.len() == 1,
        f.blocks@[0].id == f.entry,
        f.blocks@[0].parameters@.len() == 0,
        f.blocks@[0].terminator == (Terminator::Return { value: None }),
        f.blocks@[0].instructions@.len() == 1,
        f.blocks@[0].instructions@[0].results@.len() == 1,
        f.blocks@[0].instructions@[0].kind == (InstructionKind::LoadConstant { constant, ty }),
        text_type(constant) is Some,
        has_type(f, f.blocks@[0].instructions@[0].results@[0]),
    ensures
        function_problem(f) is None <==> opt_model(ty) == text_type(constant) && type_of(
            f,
            f.blocks@[0].instructions@[0].results@[0],
        ) == text_type(constant),
        function_problem(f) matches Some(e) ==> e.code == "SMIR007"@ && e.function == f.symbol@
            && e.location == instruction_site(f.entry.0, 0),
{
    let b = f.blocks@[0];
    let ins = b.instructions@[0];
    assert(f.blocks@[0].id == f.entry);
    assert(entry_problem(f) is None);
    assert(blocks_problem(f, 1) is None);
    assert(parameters_problem(f, b, 0) is None);
    assert(instructions_problem(f, b, 1) is None);
    assert(operands_problem(f, b.id.0, 0, operands_of(ins.kind), 0) is None);
    assert(terminator_operands(b.terminator) =~= Seq::<Operand>::empty());
    assert(terminator_operands_problem(f, b.id.0, terminator_operands(b.terminator), 0) is None);
    assert(terminator_problem(f, b) is None);
    assert(primary_result(&ins) == Some(ins.results@[0]));
    assert(instructions_problem(f, b, 0) == instruction_problem(f, b.id.0, 0, ins));
    assert(function_problem(f) == text_constant_problem(f, instruction_site(b.id.0, 0), ins));
}


proof fn lemma_blocks_none(f: &ExecutableFunction, i: int)
    requires
        0 <= i,
        blocks_problem(f, i) is None,
    ensures
        forall|b: int| i <= b < f.blocks@.len() ==> block_problem(f, #[trigger] f.blocks@[b]) is None,
    decreases f.blocks@.len() - i,
{
    if i < f.blocks@.len() {
        lemma_blocks_none(f, i + 1);
    }
}

proof fn lemma_parameters_none(f: &ExecutableFunction, b: Block, k: int)
    requires
        0 <= k,
        parameters_problem(f, b, k) is None,
    ensures
        forall|j: int| k <= j < b.parameters@.len() ==> has_type(f, #[trigger] b.parameters@[j]),
    decreases b.parameters@.len() - k,
{
    if k < b.parameters@.len() {
        lemma_parameters_none(f, b, k + 1);
    }
}

proof fn lemma_instructions_none(f: &ExecutableFunction, b: Block, k: int)
    requires
        0 <= k,
        instructions_problem(f, b, k) is None,
    ensures
        forall|j: int| k <= j < b.instructions@.len() ==> instruction_problem(f, b.id.0, j, #[trigger] b.instructions@[j]) is None,
    decreases b.instructions@.len() - k,
{
    if k < b.instructions@.len() {
        lemma_instructions_none(f, b, k + 1);
    }
}

proof fn lemma_operands_none(f: &ExecutableFunction, block: u32, k: int, ops: Seq<Operand>, j: int)
    requires
        0 <= j,
        operands_problem(f, block, k, ops, j) is None,
    ensures
        forall|i: int| j <= i < ops.len() && (#[trigger] ops[i]) is Value ==> has_type(f, ops[i]->Value_0),
    decreases ops.len() - j,
{
    if j < ops.len() {
        lemma_operands_none(f, block, k, ops, j + 1);
    }
}

proof fn lemma_terminator_operands_none(f: &ExecutableFunction, block: u32, ops: Seq<Operand>, j: int)
    requires
        0 <= j,
        terminator_operands_problem(f, block, ops, j) is None,
    ensures
        forall|i: int| j <= i < ops.len() && (#[trigger] ops[i]) is Value ==> has_type(f, ops[i]->Value_0),
    decreases ops.len() - j,
{
    if j < ops.len() {
        lemma_terminator_operands_none(f, block, ops, j + 1);
    }
}

/// What `validate_function` accepting a function guarantees: its entry block is present; in
/// every block each parameter is typed, no instruction is a residual pattern match, each
/// instruction's primary result and each value it reads are typed, and each value the
/// terminator reads (and a dispatch state) is typed.
pub proof fn lemma_function_ok(f: &ExecutableFunction)
    requires
        function_problem(f) is None,
    ensures
        exists|b: int| 0 <= b < f.blocks@.len() && (#[trigger] f.blocks@[b]).id == f.entry,
        forall|b: int, k: int|
            0 <= b < f.blocks@.len() && 0 <= k < f.blocks@[b].parameters@.len() ==> has_type(
                f,
                #[trigger] f.blocks@[b].parameters@[k],
            ),
        forall|b: int, k: int|
            0 <= b < f.blocks@.len() && 0 <= k < f.blocks@[b].instructions@.len() ==> {
                &&& !((#[trigger] f.blocks@[b].instructions@[k]).kind is PatternMatch)
                &&& (primary_result(&f.blocks@[b].instructions@[k]) matches Some(o) ==> has_type(f, o))
                &&& forall|j: int|
                    0 <= j < operands_of(f.blocks@[b].instructions@[k].kind).len() && (#[trigger] operands_of(
                        f.blocks@[b].instructions@[k].kind,
                    )[j]) is Value ==> has_type(f, operands_of(f.blocks@[b].instructions@[k].kind)[j]->Value_0)
            },
        forall|b: int, j: int|
            0 <= b < f.blocks@.len() && 0 <= j < terminator_operands(f.blocks@[b].terminator).len() && (#[trigger] terminator_operands(
                f.blocks@[b].terminator,
            )[j]) is Value ==> has_type(f, terminator_operands(f.blocks@[b].terminator)[j]->Value_0),
        forall|b: int|
            0 <= b < f.blocks@.len() ==> ((#[trigger] f.blocks@[b]).terminator matches Terminator::StateDispatch { state, .. }
                ==> has_type(f, state)),
{
    lemma_blocks_none(f, 0);
    assert forall|b: int, k: int|
        0 <= b < f.blocks@.len() && 0 <= k < f.blocks@[b].parameters@.len() implies has_type(
            f,
            #[trigger] f.blocks@[b].parameters@[k],
        ) by {
        assert(block_problem(f, f.blocks@[b]) is None);
        lemma_parameters_none(f, f.blocks@[b], 0);
    }
    assert forall|b: int, k: int|
        0 <= b < f.blocks@.len() && 0 <= k < f.blocks@[b].instructions@.len() implies {
            &&& !((#[trigger] f.blocks@[b].instructions@[k]).kind is PatternMatch)
            &&& (primary_result(&f.blocks@[b].instructions@[k]) matches Some(o) ==> has_type(f, o))
            &&& forall|j: int|
                0 <= j < operands_of(f.blocks@[b].instructions@[k].kind).len() && (#[trigger] operands_of(
                    f.blocks@[b].instructions@[k].kind,
                )[j]) is Value ==> has_type(f, operands_of(f.blocks@[b].instructions@[k].kind)[j]->Value_0)
        } by {
        let blk = f.blocks@[b];
        let ins = blk.instructions@[k];
        assert(block_problem(f, blk) is None);
        lemma_instructions_none(f, blk, 0);
        assert(instruction_problem(f, blk.id.0, k, ins) is None);
        lemma_operands_none(f, blk.id.0, k, operands_of(ins.kind), 0);
    }
    assert forall|b: int, j: int|
        0 <= b < f.blocks@.len() && 0 <= j < terminator_operands(f.blocks@[b].terminator).len() && (#[trigger] terminator_operands(
            f.blocks@[b].terminator,
        )[j]) is Value implies has_type(f, terminator_operands(f.blocks@[b].terminator)[j]->Value_0) by {
        let blk = f.blocks@[b];
        assert(block_problem(f, blk) is None);
        assert(terminator_problem(f, blk) is None);
        lemma_terminator_operands_none(f, blk.id.0, terminator_operands(blk.terminator), 0);
    }
    assert forall|b: int|
        0 <= b < f.blocks@.len() implies ((#[trigger] f.blocks@[b]).terminator matches Terminator::StateDispatch { state, .. }
            ==> has_type(f, state)) by {
        let blk = f.blocks@[b];
        assert(block_problem(f, blk) is None);
        assert(terminator_problem(f, blk) is None);
    }
}

/// A block returning a value: its terminator passes exactly when the value has a type (a recorded
/// type, or `Boolean` for a boolean constant) that the declared return type accepts, any type
/// being accepted where the function returns unit. An untyped value gives `SMIR001`, an
/// incompatible one `SMIR007`, both at the block's terminator.
pub proof fn lemma_return_terminator(f: &ExecutableFunction, b: Block, op: Operand)
    requires
        b.terminator == (Terminator::Return { value: Some(op) }),
    ensures
        terminator_problem(f, b) is None <==> (operand_type(f, op) matches Some(t) && (f.return_type.model() == TypeModel::Unit
            || return_compatible(t, f.return_type.model()))),
        terminator_problem(f, b) matches Some(e) ==> e.location == terminator_site(b.id.0) && e.function == f.symbol@
            && (operand_type(f, op) is None ==> e.code == "SMIR001"@) && (operand_type(f, op) is Some ==> e.code == "SMIR007"@),
{
    let ops = terminator_operands(b.terminator);
    assert(ops == seq![op]);
    assert(terminator_operands_problem(f, b.id.0, ops, 1) is None);
    assert(state_problem(f, b) is None);
}


proof fn lemma_jump_arguments_none(f: &ExecutableFunction, location: Seq<char>, args: Seq<Operand>, params: Seq<ValueRef>, j: int)
    requires
        0 <= j,
        args.len() == params.len(),
        jump_arguments_problem(f, location, args, params, j) is None,
    ensures
        forall|i: int| j <= i < args.len() ==> operand_type(f, #[trigger] args[i]) == type_of(f, params[i]),
    decreases args.len() - j,
{
    if j < args.len() {
        lemma_jump_arguments_none(f, location, args, params, j + 1);
    }
}

/// What `validate_function` accepting a function guarantees of its jumps: every jump goes to a
/// block of the function (the first with the target id), passes as many arguments as that
/// block has parameters, and each argument's type (its recorded type; `Boolean` for a boolean
/// constant; none otherwise) is the recorded type of the matching parameter. Likewise every
/// branch condition is a boolean.
pub proof fn lemma_function_ok_jumps(f: &ExecutableFunction)
    requires
        function_problem(f) is None,
    ensures
        forall|b: int|
            0 <= b < f.blocks@.len() ==> ((#[trigger] f.blocks@[b]).terminator matches Terminator::Jump { target, arguments }
                ==> exists|d: int|
                0 <= d < f.blocks@.len() && f.blocks@[d].id == target && (forall|e: int| 0 <= e < d ==> f.blocks@[e].id != target)
                    && f.blocks@[d].parameters@.len() == arguments@.len() && forall|j: int|
                    0 <= j < arguments@.len() ==> (match #[trigger] arguments@[j] {
                        Operand::Value(v) => type_of(f, v),
                        Operand::Constant(Constant::Bool(_)) => Some(TypeModel::Boolean),
                        _ => None,
                    }) == type_of(f, f.blocks@[d].parameters@[j])),
        forall|b: int|
            0 <= b < f.blocks@.len() ==> ((#[trigger] f.blocks@[b]).terminator matches Terminator::Branch { condition, .. }
                ==> match condition {
                    Operand::Value(v) => type_of(f, v) == Some(TypeModel::Boolean),
                    Operand::Constant(Constant::Bool(_)) => true,
                    _ => false,
                }),
{
    lemma_blocks_none(f, 0);
    assert forall|b: int|
        0 <= b < f.blocks@.len() implies ((#[trigger] f.blocks@[b]).terminator matches Terminator::Jump { target, arguments }
            ==> exists|d: int|
            0 <= d < f.blocks@.len() && f.blocks@[d].id == target && (forall|e: int| 0 <= e < d ==> f.blocks@[e].id != target)
                && f.blocks@[d].parameters@.len() == arguments@.len() && forall|j: int|
                0 <= j < arguments@.len() ==> (match #[trigger] arguments@[j] {
                    Operand::Value(v) => type_of(f, v),
                    Operand::Constant(Constant::Bool(_)) => Some(TypeModel::Boolean),
                    _ => None,
                }) == type_of(f, f.blocks@[d].parameters@[j])) by {
        let blk = f.blocks@[b];
        assert(block_problem(f, blk) is None);
        assert(terminator_problem(f, blk) is None);
        if let Terminator::Jump { target, arguments } = blk.terminator {
            lemma_first_index(f.blocks@, block_with_id(target));
            let d = first_index(f.blocks@, block_with_id(target))->0;
            assert forall|e: int| 0 <= e < d implies f.blocks@[e].id != target by {
                assert(!block_with_id(target)(f.blocks@[e]));
            }
            let location = terminator_site(blk.id.0);
            lemma_jump_arguments_none(f, location, arguments@, f.blocks@[d].parameters@, 0);
            assert forall|j: int| 0 <= j < arguments@.len() implies (match #[trigger] arguments@[j] {
                Operand::Value(v) => type_of(f, v),
                Operand::Constant(Constant::Bool(_)) => Some(TypeModel::Boolean),
                _ => None,
            }) == type_of(f, f.blocks@[d].parameters@[j]) by {
                assert(operand_type(f, arguments@[j]) == type_of(f, f.blocks@[d].parameters@[j]));
            }
        }
    }
    assert forall|b: int|
        0 <= b < f.blocks@.len() implies ((#[trigger] f.blocks@[b]).terminator matches Terminator::Branch { condition, .. }
            ==> match condition {
                Operand::Value(v) => type_of(f, v) == Some(TypeModel::Boolean),
                Operand::Constant(Constant::Bool(_)) => true,
                _ => false,
            }) by {
        let blk = f.blocks@[b];
        assert(block_problem(f, blk) is None);
        assert(terminator_problem(f, blk) is None);
    }
}


/// The field access `ins` on `object` (storing `value` for a `FieldSet`) agrees with the
/// submission's layouts: the object is a typed value whose owning type names a layout (the
/// first of that name), that layout has a field named `field` (the first of that name), and the
/// access's result, if it has one, and the stored value, if it is a value, both have recorded
/// types compatible with the field's declared type.
pub open spec fn field_access_agrees(sub: &FragmentSubmission, f: &ExecutableFunction, ins: Instruction, object: Operand, field: String, value: Option<Operand>) -> bool {
    let layouts = sub.aggregate_layouts.layouts@;
    exists|li: int, fi: int|
        #![trigger layouts[li].fields@[fi]]
        {
            &&& 0 <= li < layouts.len()
            &&& 0 <= fi < layouts[li].fields@.len()
            &&& forall|e: int| 0 <= e < li ==> (#[trigger] layouts[e]).name@ != layouts[li].name@
            &&& forall|e: int| 0 <= e < fi ==> (#[trigger] layouts[li].fields@[e]).name@ != field@
            &&& layouts[li].fields@[fi].name@ == field@
            &&& object matches Operand::Value(o) && type_of(f, o) matches Some(t) && owner_of(t) == Some(layouts[li].name@)
            &&& (primary_result(&ins) matches Some(r) ==> type_of(f, r) matches Some(a) && field_compatible(
                a,
                layouts[li].fields@[fi].ty.model(),
            ))
            &&& (value matches Some(Operand::Value(v)) ==> type_of(f, v) matches Some(a) && field_compatible(
                a,
                layouts[li].fields@[fi].ty.model(),
            ))
        }
}

proof fn lemma_contracts_none(sub: &FragmentSubmission, f: &ExecutableFunction, i: int)
    requires
        0 <= i,
        contracts_problem(sub, f, i) is None,
    ensures
        forall|b: int| i <= b < f.blocks@.len() ==> block_contracts_problem(sub, f, #[trigger] f.blocks@[b], 0) is None,
    decreases f.blocks@.len() - i,
{
    if i < f.blocks@.len() {
        lemma_contracts_none(sub, f, i + 1);
    }
}

proof fn lemma_block_contracts_none(sub: &FragmentSubmission, f: &ExecutableFunction, b: Block, k: int)
    requires
        0 <= k,
        block_contracts_problem(sub, f, b, k) is None,
    ensures
        forall|j: int| k <= j < b.instructions@.len() ==> contract_problem(sub, f, b.id.0, j, #[trigger] b.instructions@[j]) is None,
    decreases b.instructions@.len() - k,
{
    if k < b.instructions@.len() {
        lemma_block_contracts_none(sub, f, b, k + 1);
    }
}

proof fn lemma_field_access_agrees(sub: &FragmentSubmission, f: &ExecutableFunction, location: Seq<char>, ins: Instruction, object: Operand, field: String, value: Option<Operand>)
    requires
        field_access_problem(sub, f, location, ins, object, field, value) is None,
    ensures
        field_access_agrees(sub, f, ins, object, field, value),
{
    let layouts = sub.aggregate_layouts.layouts@;
    let name = owner_of(value_operand_type(f, object)->0)->0;
    lemma_first_index(layouts, layout_named(name));
    let li = first_index(layouts, layout_named(name))->0;
    lemma_first_index(layouts[li].fields@, field_named(field@));
    let fi = first_index(layouts[li].fields@, field_named(field@))->0;
    assert forall|e: int| 0 <= e < li implies (#[trigger] layouts[e]).name@ != layouts[li].name@ by {
        assert(!layout_named(name)(layouts[e]));
    }
    assert forall|e: int| 0 <= e < fi implies (#[trigger] layouts[li].fields@[e]).name@ != field@ by {
        assert(!field_named(field@)(layouts[li].fields@[e]));
    }
    assert(layouts[li].fields@[fi].name@ == field@);
}

/// What `validate_aggregate_field_contracts` accepting a function guarantees of its field
/// accesses: every `FieldGet` and `FieldSet` agrees with the submission's layouts (see
/// [`field_access_agrees`]); in particular an accepted `FieldSet` stores a value whose type is
/// compatible with the declared field type.
pub proof fn lemma_field_accesses_ok(sub: &FragmentSubmission, f: &ExecutableFunction)
    requires
        contracts_problem(sub, f, 0) is None,
    ensures
        forall|b: int, k: int|
            0 <= b < f.blocks@.len() && 0 <= k < f.blocks@[b].instructions@.len() ==> match (#[trigger] f.blocks@[b].instructions@[k]).kind {
                InstructionKind::FieldGet { object, field } => field_access_agrees(
                    sub,
                    f,
                    f.blocks@[b].instructions@[k],
                    object,
                    field,
                    None,
                ),
                InstructionKind::FieldSet { object, field, value } => field_access_agrees(
                    sub,
                    f,
                    f.blocks@[b].instructions@[k],
                    object,
                    field,
                    Some(value),
                ),
                _ => true,
            },
{
    lemma_contracts_none(sub, f, 0);
    assert forall|b: int, k: int|
        0 <= b < f.blocks@.len() && 0 <= k < f.blocks@[b].instructions@.len() implies match (#[trigger] f.blocks@[b].instructions@[k]).kind {
            InstructionKind::FieldGet { object, field } => field_access_agrees(sub, f, f.blocks@[b].instructions@[k], object, field, None),
            InstructionKind::FieldSet { object, field, value } => field_access_agrees(
                sub,
                f,
                f.blocks@[b].instructions@[k],
                object,
                field,
                Some(value),
            ),
            _ => true,
        } by {
        let blk = f.blocks@[b];
        let ins = blk.instructions@[k];
        lemma_block_contracts_none(sub, f, blk, 0);
        assert(contract_problem(sub, f, blk.id.0, k, ins) is None);
        let location = instruction_site(blk.id.0, k);
        match ins.kind {
            InstructionKind::FieldGet { object, field } => {
                lemma_field_access_agrees(sub, f, location, ins, object, field, None);
            },
            InstructionKind::FieldSet { object, field, value } => {
                lemma_field_access_agrees(sub, f, location, ins, object, field, Some(value));
            },
            _ => {},
        }
    }
}


/// The construction `ins` of the aggregate `name` from `fields` agrees with the submission's
/// layouts: a layout of that name exists (the first of that name is used), the construction
/// gives as many initializers as the layout has fields, each initializer is a typed value for a
/// field of that name whose type is compatible with the field's declared type, and the result
/// is typed as the aggregate (or `Self` inside one of its methods).
pub open spec fn struct_new_agrees(sub: &FragmentSubmission, f: &ExecutableFunction, ins: Instruction, name: String, fields: Vec<(String, Operand)>) -> bool {
    let layouts = sub.aggregate_layouts.layouts@;
    exists|li: int|
        {
            &&& 0 <= li < layouts.len()
            &&& (#[trigger] layouts[li]).name@ == name@
            &&& forall|e: int| 0 <= e < li ==> (#[trigger] layouts[e]).name@ != name@
            &&& fields@.len() == layouts[li].fields@.len()
            &&& forall|i: int|
                0 <= i < fields@.len() ==> ((#[trigger] fields@[i]).1 matches Operand::Value(v) && type_of(f, v) matches Some(a)
                    && exists|fi: int|
                    0 <= fi < layouts[li].fields@.len() && (#[trigger] layouts[li].fields@[fi]).name@ == fields@[i].0@
                        && field_compatible(a, layouts[li].fields@[fi].ty.model()))
            &&& primary_result(&ins) matches Some(r) && type_of(f, r) matches Some(t) && (owner_of(t) == Some(name@) || (t
                == TypeModel::Named("Self"@) && function_owner(f.symbol@) == Some(name@)))
        }
}

/// The construction `ins` of variant `variant` of sum `sum_type` agrees with the submission's
/// sums: the sum and the variant are declared, the result is typed as the sum, the instruction
/// carries the variant's declared payload type, and a payload is present exactly when one is
/// declared, as a typed value compatible with it.
pub open spec fn sum_new_agrees(sub: &FragmentSubmission, f: &ExecutableFunction, ins: Instruction, sum_type: String, variant: String, payload_type: Option<NyarType>, payload: Option<Operand>) -> bool {
    let sums = sub.sum_types@;
    exists|si: int, vi: int|
        #![trigger sums[si].variants@[vi]]
        {
            &&& 0 <= si < sums.len()
            &&& sums[si].name@ == sum_type@
            &&& 0 <= vi < sums[si].variants@.len()
            &&& sums[si].variants@[vi].name@ == variant@
            &&& primary_result(&ins) matches Some(r) && type_of(f, r) == Some(TypeModel::Named(sum_type@))
            &&& opt_model(payload_type) == opt_model(sums[si].variants@[vi].payload_type)
            &&& match sums[si].variants@[vi].payload_type {
                None => payload is None,
                Some(expected) => payload matches Some(Operand::Value(v)) && type_of(f, v) matches Some(a) && field_compatible(
                    a,
                    expected.model(),
                ),
            }
        }
}

/// The payload extraction `ins` agrees with the submission's sums: the sum is declared with a
/// variant of that name carrying a payload of exactly `payload_type`, the object is a value of
/// the sum's type, and the result has the payload type.
pub open spec fn payload_get_agrees(sub: &FragmentSubmission, f: &ExecutableFunction, ins: Instruction, sum_type: String, variant: String, payload_type: NyarType, object: Operand) -> bool {
    let sums = sub.sum_types@;
    exists|si: int, vi: int|
        #![trigger sums[si].variants@[vi]]
        {
            &&& 0 <= si < sums.len()
            &&& sums[si].name@ == sum_type@
            &&& 0 <= vi < sums[si].variants@.len()
            &&& sums[si].variants@[vi].name@ == variant@
            &&& sums[si].variants@[vi].payload_type matches Some(declared) && declared.model() == payload_type.model()
            &&& object matches Operand::Value(o) && type_of(f, o) == Some(TypeModel::Named(sum_type@))
            &&& primary_result(&ins) matches Some(r) && type_of(f, r) == Some(payload_type.model())
        }
}

proof fn lemma_struct_new_agrees(sub: &FragmentSubmission, f: &ExecutableFunction, location: Seq<char>, ins: Instruction, name: String, fields: Vec<(String, Operand)>)
    requires
        struct_new_problem(sub, f, location, ins, name, fields) is None,
    ensures
        struct_new_agrees(sub, f, ins, name, fields),
{
    let layouts = sub.aggregate_layouts.layouts@;
    lemma_first_index(layouts, layout_named(name@));
    let li = first_index(layouts, layout_named(name@))->0;
    assert forall|e: int| 0 <= e < li implies (#[trigger] layouts[e]).name@ != name@ by {
        assert(!layout_named(name@)(layouts[e]));
    }
    let layout = layouts[li];
    assert forall|i: int|
        0 <= i < fields@.len() implies ((#[trigger] fields@[i]).1 matches Operand::Value(v) && type_of(f, v) matches Some(a)
            && exists|fi: int|
            0 <= fi < layout.fields@.len() && (#[trigger] layout.fields@[fi]).name@ == fields@[i].0@ && field_compatible(
                a,
                layout.fields@[fi].ty.model(),
            )) by {
        assert(field_init_ok(f, layout, fields@[i]));
        lemma_first_index(layout.fields@, field_named(fields@[i].0@));
        let fi = first_index(layout.fields@, field_named(fields@[i].0@))->0;
        assert(layout.fields@[fi].name@ == fields@[i].0@);
    }
    assert(layouts[li].name@ == name@);
}

proof fn lemma_sum_new_agrees(sub: &FragmentSubmission, f: &ExecutableFunction, location: Seq<char>, ins: Instruction, sum_type: String, variant: String, payload_type: Option<NyarType>, payload: Option<Operand>)
    requires
        sum_new_problem(sub, f, location, ins, sum_type, variant, payload_type, payload) is None,
    ensures
        sum_new_agrees(sub, f, ins, sum_type, variant, payload_type, payload),
{
    let sums = sub.sum_types@;
    lemma_first_index(sums, sum_named(sum_type@));
    let si = first_index(sums, sum_named(sum_type@))->0;
    lemma_first_index(sums[si].variants@, variant_named(variant@));
    let vi = first_index(sums[si].variants@, variant_named(variant@))->0;
    assert(sums[si].name@ == sum_type@);
    assert(sums[si].variants@[vi].name@ == variant@);
}

proof fn lemma_payload_get_agrees(sub: &FragmentSubmission, f: &ExecutableFunction, location: Seq<char>, ins: Instruction, sum_type: String, variant: String, payload_type: NyarType, object: Operand)
    requires
        payload_get_problem(sub, f, location, ins, sum_type, variant, payload_type, object) is None,
    ensures
        payload_get_agrees(sub, f, ins, sum_type, variant, payload_type, object),
{
    let sums = sub.sum_types@;
    lemma_first_index(sums, sum_named(sum_type@));
    let si = first_index(sums, sum_named(sum_type@))->0;
    lemma_first_index(sums[si].variants@, variant_named(variant@));
    let vi = first_index(sums[si].variants@, variant_named(variant@))->0;
    assert(sums[si].name@ == sum_type@);
    assert(sums[si].variants@[vi].name@ == variant@);
}

/// What `validate_aggregate_field_contracts` accepting a function guarantees of its aggregate
/// and sum instructions: every `StructNew`, `SumNew` and `SumPayloadGet` agrees with the
/// submission's layouts and sums (see [`struct_new_agrees`], [`sum_new_agrees`],
/// [`payload_get_agrees`]).
pub proof fn lemma_aggregate_constructions_ok(sub: &FragmentSubmission, f: &ExecutableFunction)
    requires
        contracts_problem(sub, f, 0) is None,
    ensures
        forall|b: int, k: int|
            0 <= b < f.blocks@.len() && 0 <= k < f.blocks@[b].instructions@.len() ==> match (#[trigger] f.blocks@[b].instructions@[k]).kind {
                InstructionKind::StructNew { struct_name, fields } => struct_new_agrees(
                    sub,
                    f,
                    f.blocks@[b].instructions@[k],
                    struct_name,
                    fields,
                ),
                InstructionKind::SumNew { sum_type, variant, payload_type, payload, .. } => sum_new_agrees(
                    sub,
                    f,
                    f.blocks@[b].instructions@[k],
                    sum_type,
                    variant,
                    payload_type,
                    payload,
                ),
                InstructionKind::SumPayloadGet { sum_type, variant, payload_type, object, .. } => payload_get_agrees(
                    sub,
                    f,
                    f.blocks@[b].instructions@[k],
                    sum_type,
                    variant,
                    payload_type,
                    object,
                ),
                _ => true,
            },
{
    lemma_contracts_none(sub, f, 0);
    assert forall|b: int, k: int|
        0 <= b < f.blocks@.len() && 0 <= k < f.blocks@[b].instructions@.len() implies match (#[trigger] f.blocks@[b].instructions@[k]).kind {
            InstructionKind::StructNew { struct_name, fields } => struct_new_agrees(sub, f, f.blocks@[b].instructions@[k], struct_name, fields),
            InstructionKind::SumNew { sum_type, variant, payload_type, payload, .. } => sum_new_agrees(
                sub,
                f,
                f.blocks@[b].instructions@[k],
                sum_type,
                variant,
                payload_type,
                payload,
            ),
            InstructionKind::SumPayloadGet { sum_type, variant, payload_type, object, .. } => payload_get_agrees(
                sub,
                f,
                f.blocks@[b].instructions@[k],
                sum_type,
                variant,
                payload_type,
                object,
            ),
            _ => true,
        } by {
        let blk = f.blocks@[b];
        let ins = blk.instructions@[k];
        lemma_block_contracts_none(sub, f, blk, 0);
        assert(contract_problem(sub, f, blk.id.0, k, ins) is None);
        let location = instruction_site(blk.id.0, k);
        match ins.kind {
            InstructionKind::StructNew { struct_name, fields } => {
                lemma_struct_new_agrees(sub, f, location, ins, struct_name, fields);
            },
            InstructionKind::SumNew { sum_type, variant, payload_type, payload, .. } => {
                lemma_sum_new_agrees(sub, f, location, ins, sum_type, variant, payload_type, payload);
            },
            InstructionKind::SumPayloadGet { sum_type, variant, payload_type, object, .. } => {
                lemma_payload_get_agrees(sub, f, location, ins, sum_type, variant, payload_type, object);
            },
            _ => {},
        }
    }
}


proof fn lemma_calls_none(sub: &FragmentSubmission, f: &ExecutableFunction, i: int)
    requires
        0 <= i,
        calls_problem(sub, f, i) is None,
    ensures
        forall|b: int| i <= b < f.blocks@.len() ==> block_calls_problem(sub, f, #[trigger] f.blocks@[b], 0) is None,
    decreases f.blocks@.len() - i,
{
    if i < f.blocks@.len() {
        lemma_calls_none(sub, f, i + 1);
    }
}

proof fn lemma_block_calls_none(sub: &FragmentSubmission, f: &ExecutableFunction, b: Block, k: int)
    requires
        0 <= k,
        block_calls_problem(sub, f, b, k) is None,
    ensures
        forall|j: int| k <= j < b.instructions@.len() ==> call_problem(sub, f, b.id.0, j, #[trigger] b.instructions@[j]) is None,
    decreases b.instructions@.len() - k,
{
    if k < b.instructions@.len() {
        lemma_block_calls_none(sub, f, b, k + 1);
    }
}

/// What `validate_static_call_resolution` accepting a function guarantees: every call names its
/// callee by a symbol path that is a language operator, a language builtin, the dotted symbol
/// of some function of the submission's executable registry, or one of its external import
/// links.
pub proof fn lemma_static_calls_ok(sub: &FragmentSubmission, f: &ExecutableFunction)
    requires
        calls_problem(sub, f, 0) is None,
    ensures
        forall|b: int, k: int|
            0 <= b < f.blocks@.len() && 0 <= k < f.blocks@[b].instructions@.len() ==> ((#[trigger] f.blocks@[b].instructions@[k]).kind matches InstructionKind::Call { callee, .. }
                ==> (callee matches Operand::Symbol(path) && {
                ||| operator_path(path@)
                ||| builtin_path(path@)
                ||| sub.executable matches Some(e) && exists|i: int| 0 <= i < e@.len() && (#[trigger] e@[i]).1.symbol@ == join(path@, "."@)
                ||| exists|j: int| 0 <= j < sub.external_import_links@.len() && (#[trigger] sub.external_import_links@[j])@ == path@
            })),
{
    lemma_calls_none(sub, f, 0);
    assert forall|b: int, k: int|
        0 <= b < f.blocks@.len() && 0 <= k < f.blocks@[b].instructions@.len() implies ((#[trigger] f.blocks@[b].instructions@[k]).kind matches InstructionKind::Call { callee, .. }
            ==> (callee matches Operand::Symbol(path) && {
            ||| operator_path(path@)
            ||| builtin_path(path@)
            ||| sub.executable matches Some(e) && exists|i: int| 0 <= i < e@.len() && (#[trigger] e@[i]).1.symbol@ == join(path@, "."@)
            ||| exists|j: int| 0 <= j < sub.external_import_links@.len() && (#[trigger] sub.external_import_links@[j])@ == path@
        })) by {
        let blk = f.blocks@[b];
        let ins = blk.instructions@[k];
        lemma_block_calls_none(sub, f, blk, 0);
        assert(call_problem(sub, f, blk.id.0, k, ins) is None);
        if let InstructionKind::Call { callee: Operand::Symbol(path), .. } = ins.kind {
            if let Some(e) = sub.executable {
                crate::executable_provider::lemma_find_by_symbol_exact(e@, join(path@, "."@));
            }
        }
    }
}


/// The type an operand carries for the instruction checks: a value's recorded type, `Boolean`
/// for a boolean constant, none otherwise.
pub open spec fn carried_type(f: &ExecutableFunction, op: Operand) -> Option<TypeModel> {
    match op {
        Operand::Value(v) => type_of(f, v),
        Operand::Constant(Constant::Bool(_)) => Some(TypeModel::Boolean),
        _ => None,
    }
}

/// The instruction facts `validate_function` guarantees: a UTF-8 (UTF-16) text constant is
/// declared `Utf8` (`Utf16`) and its result, if any, is recorded with that type; an array
/// length call has one argument; a UTF-8 scalar length call has one argument carrying `Utf8`;
/// a structural sum equality has two arguments carrying one and the same type.
pub open spec fn instruction_sound(f: &ExecutableFunction, ins: Instruction) -> bool {
    &&& (ins.kind matches InstructionKind::LoadConstant { constant: Constant::Utf8(_), ty } ==> (opt_model(ty) == Some(
        TypeModel::Utf8,
    ) && (primary_result(&ins) matches Some(r) ==> type_of(f, r) == Some(TypeModel::Utf8))))
    &&& (ins.kind matches InstructionKind::LoadConstant { constant: Constant::Utf16(_), ty } ==> (opt_model(ty) == Some(
        TypeModel::Utf16,
    ) && (primary_result(&ins) matches Some(r) ==> type_of(f, r) == Some(TypeModel::Utf16))))
    &&& (ins.kind matches InstructionKind::Call { arguments, intrinsic_opcode: Some(IntrinsicOpcode::ArrayLen), .. }
        ==> arguments@.len() == 1)
    &&& (ins.kind matches InstructionKind::Call { arguments, intrinsic_opcode: Some(IntrinsicOpcode::Utf8ScalarLength), .. }
        ==> (arguments@.len() == 1 && carried_type(f, arguments@[0]) == Some(TypeModel::Utf8)))
    &&& (ins.kind matches InstructionKind::Call { arguments, intrinsic_opcode: Some(IntrinsicOpcode::SumStructuralEqual), .. }
        ==> (arguments@.len() == 2 && carried_type(f, arguments@[0]) is Some && carried_type(f, arguments@[0]) == carried_type(
        f,
        arguments@[1],
    )))
}

/// Every instruction of a function that `validate_function` accepts satisfies
/// [`instruction_sound`].
pub proof fn lemma_function_ok_instructions(f: &ExecutableFunction)
    requires
        function_problem(f) is None,
    ensures
        forall|b: int, k: int|
            0 <= b < f.blocks@.len() && 0 <= k < f.blocks@[b].instructions@.len() ==> instruction_sound(
                f,
                #[trigger] f.blocks@[b].instructions@[k],
            ),
{
    lemma_blocks_none(f, 0);
    assert forall|b: int, k: int|
        0 <= b < f.blocks@.len() && 0 <= k < f.blocks@[b].instructions@.len() implies instruction_sound(
            f,
            #[trigger] f.blocks@[b].instructions@[k],
        ) by {
        let blk = f.blocks@[b];
        let ins = blk.instructions@[k];
        assert(block_problem(f, blk) is None);
        lemma_instructions_none(f, blk, 0);
        assert(instruction_problem(f, blk.id.0, k, ins) is None);
    }
}

} // verus!
