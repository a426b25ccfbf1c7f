//! Linking reachable dependency MIR bodies into a consumer module.
//!
//! A consumer module calls functions that live in dependency modules. Linking pulls every
//! dependency function that a consumer function (or an already linked function) calls,
//! resolving each callee by exact symbol, then by a concrete method for a type parameter,
//! then by a unique qualified suffix, then by a unique simple name. Functions already in the
//! consumer are never replaced.
use vstd::prelude::*;
use crate::executable::{lookup, vt_insert, ValueRef, ValueTypes};
use crate::executable_provider::ends_with_simple;
use crate::layout::{
    layout_models, lemma_merge_layouts_len, merge_aggregate_layout_plan, merge_layouts, sum_models, LayoutModel,
    SumTypeLayout, SumTypeModel,
};
use crate::mir::{
    block_models, copy_function, copy_operand, copy_operands, copy_valkyrie, copy_valkyrie_list, function_models,
    instruction_models, lemma_lookup_models, lemma_vmodels, lemma_vt_insert_models, operand_models, struct_models,
    vmodels, vt_models, BlockModel, FunctionModel, InstructionModel, MirBlock, MirFunction, MirInstruction, MirModule,
    MirOperand, MirOperation, MirStruct, OperandModel, OperationModel, StructModel, ValkyrieType, VType,
};
use crate::names::{join_strings, views, NamePath};
use crate::text::{
    append, chars_of, concat, ends_with, has_substring, join, last_index_of_char, last_index_of_char_exec, opt_view,
    owned, str_equal, string_between, string_of, tail_after_separator, tail_after_separator_exec,
};

verus! {

// ---------------------------------------------------------------- layout ids

/// Rewrites the aggregate layout ids that a linked function body uses. Function bodies no
/// longer carry layout ids, so the body is left as it is.
pub fn remap_function_layout_ids(_function: &mut MirFunction, _remap: &Vec<(u32, u32)>)
    ensures
        *final(_function) == *old(_function),
{
}

// ---------------------------------------------------------------- symbols

/// The part of a symbol after its last `:` or `.`.
pub fn simple_symbol_name(symbol: &str) -> (r: String)
    ensures
        r@ == tail_after_separator(symbol@),
{
    string_of(&tail_after_separator_exec(&chars_of(symbol)))
}

/// True when `symbol` is `simple` or ends with `::simple` / `.simple`.
pub fn mir_symbol_ends_with_simple(symbol: &str, simple: &str) -> (r: bool)
    ensures
        r == ends_with_simple(symbol@, simple@),
{
    if str_equal(symbol, simple) {
        return true;
    }
    let coloned = concat("::", simple);
    if ends_with(symbol, coloned.as_str()) {
        return true;
    }
    let dotted = concat(".", simple);
    ends_with(symbol, dotted.as_str())
}

/// True when the pool symbol `symbol` is `need` or ends with `.need` / `::need`.
pub fn symbol_matches_need(symbol: &str, need: &str) -> (r: bool)
    ensures
        r == ends_with_simple(symbol@, need@),
{
    if str_equal(symbol, need) {
        return true;
    }
    let dotted = concat(".", need);
    if ends_with(symbol, dotted.as_str()) {
        return true;
    }
    let coloned = concat("::", need);
    ends_with(symbol, coloned.as_str())
}

/// `need` is met by a local symbol: the same symbol, or one of the two ends with the other
/// after `::` or `.`.
pub open spec fn satisfied(need: Seq<char>, local: Seq<Seq<char>>) -> bool {
    exists|i: int|
        0 <= i < local.len() && (#[trigger] local[i] == need || ends_with_simple(local[i], need)
            || ends_with_simple(need, local[i]))
}

/// Whether a local symbol already provides `need`.
pub fn symbol_satisfied(need: &str, local: &Vec<String>) -> (r: bool)
    ensures
        r == satisfied(need@, views(local@)),
{
    let mut i: usize = 0;
    while i < local.len()
        invariant
            i <= local@.len(),
            forall|j: int|
                0 <= j < i ==> !(#[trigger] views(local@)[j] == need@ || ends_with_simple(views(local@)[j], need@)
                    || ends_with_simple(need@, views(local@)[j])),
        decreases local.len() - i,
    {
        let symbol = local[i].as_str();
        if str_equal(symbol, need) || mir_symbol_ends_with_simple(symbol, need) || mir_symbol_ends_with_simple(
            need,
            symbol,
        ) {
            assert(views(local@)[i as int] == local@[i as int]@);
            return true;
        }
        assert(views(local@)[i as int] == local@[i as int]@);
        i = i + 1;
    }
    false
}

/// A type parameter name: non-empty, ASCII capital letters only.
pub open spec fn is_type_parameter(name: Seq<char>) -> bool {
    name.len() > 0 && forall|i: int| 0 <= i < name.len() ==> 'A' <= #[trigger] name[i] && name[i] <= 'Z'
}

/// Whether `name` names a type parameter such as `K` or `V`.
pub fn is_type_parameter_name(name: &str) -> (r: bool)
    ensures
        r == is_type_parameter(name@),
{
    let cs = chars_of(name);
    if cs.len() == 0 {
        return false;
    }
    let mut i: usize = 0;
    while i < cs.len()
        invariant
            cs@ == name@,
            i <= cs@.len(),
            forall|j: int| 0 <= j < i ==> 'A' <= #[trigger] cs@[j] && cs@[j] <= 'Z',
        decreases cs.len() - i,
    {
        let c = cs[i];
        if !('A' <= c && c <= 'Z') {
            return false;
        }
        i = i + 1;
    }
    true
}

// ---------------------------------------------------------------- substitutions

/// The map that setting each pair in turn produces (a later pair wins).
pub open spec fn pairs_map(s: Seq<(String, String)>) -> Map<Seq<char>, Seq<char>>
    decreases s.len(),
{
    if s.len() == 0 {
        Map::empty()
    } else {
        pairs_map(s.drop_last()).insert(s.last().0@, s.last().1@)
    }
}

/// Type parameter name to concrete type name, such as `K` to `String`.
#[derive(Debug)]
pub struct Substitutions {
    entries: Vec<(String, String)>,
}

impl View for Substitutions {
    type V = Map<Seq<char>, Seq<char>>;

    closed spec fn view(&self) -> Map<Seq<char>, Seq<char>> {
        pairs_map(self.entries@)
    }
}

impl Substitutions {
    /// No substitutions.
    pub fn new() -> (r: Substitutions)
        ensures
            r@ == Map::<Seq<char>, Seq<char>>::empty(),
    {
        Substitutions { entries: Vec::new() }
    }

    /// Sets `name` to `concrete`, replacing an earlier setting.
    pub fn insert(&mut self, name: String, concrete: String)
        ensures
            final(self)@ == old(self)@.insert(name@, concrete@),
    {
        let ghost before = self.entries@;
        self.entries.push((name, concrete));
        assert(self.entries@.drop_last() =~= before);
    }

    /// Whether nothing is set.
    pub fn is_empty(&self) -> (r: bool)
        ensures
            r == (self@ == Map::<Seq<char>, Seq<char>>::empty()),
    {
        if self.entries.len() == 0 {
            true
        } else {
            let ghost last = self.entries@.last();
            assert(self@.contains_key(last.0@));
            false
        }
    }

    /// The concrete name set for `name`.
    pub fn get(&self, name: &str) -> (r: Option<&String>)
        ensures
            match r {
                Some(c) => self@.contains_key(name@) && self@[name@] == c@,
                None => !self@.contains_key(name@),
            },
    {
        let ghost s = self.entries@;
        let mut i: usize = self.entries.len();
        assert(s.take(i as int) =~= s);
        while i > 0
            invariant
                s == self.entries@,
                i <= s.len(),
                pairs_map(s).contains_key(name@) == pairs_map(s.take(i as int)).contains_key(name@),
                pairs_map(s).contains_key(name@) ==> pairs_map(s)[name@] == pairs_map(s.take(i as int))[name@],
            decreases i,
        {
            assert(s.take(i as int).drop_last() =~= s.take(i - 1));
            if str_equal(self.entries[i - 1].0.as_str(), name) {
                return Some(&self.entries[i - 1].1);
            }
            i = i - 1;
        }
        None
    }
}

// ---------------------------------------------------------------- concrete type names

/// The concrete name of a type: a named type, a sized integer, or an application of such
/// types written `Base<A, B>`; none for anything else.
pub open spec fn concrete_name(t: VType) -> Option<Seq<char>>
    decreases t,
{
    match t {
        VType::Named(name) => Some(name),
        VType::Integer8 { signed } => Some(if signed { "i8"@ } else { "u8"@ }),
        VType::Integer16 { signed } => Some(if signed { "i16"@ } else { "u16"@ }),
        VType::Integer32 { signed } => Some(if signed { "i32"@ } else { "u32"@ }),
        VType::Integer64 { signed } => Some(if signed { "i64"@ } else { "u64"@ }),
        VType::Integer128 { signed } => Some(if signed { "i128"@ } else { "u128"@ }),
        VType::Apply(base, args) => match concrete_name(*base) {
            None => None,
            Some(base_name) => match concrete_names(args) {
                None => None,
                Some(names) => if names.len() == 0 {
                    Some(base_name)
                } else {
                    Some(base_name + "<"@ + join(names, ", "@) + ">"@)
                },
            },
        },
        _ => None,
    }
}

/// The concrete names of all `args`, or none when one of them has none.
pub open spec fn concrete_names(args: Seq<VType>) -> Option<Seq<Seq<char>>>
    decreases args,
{
    if args.len() == 0 {
        Some(Seq::empty())
    } else {
        match concrete_names(args.drop_last()) {
            None => None,
            Some(names) => match concrete_name(args.last()) {
                None => None,
                Some(name) => Some(names.push(name)),
            },
        }
    }
}

/// The concrete name of a type (see [`concrete_name`]).
#[verifier::loop_isolation(false)]
pub fn concrete_type_name(ty: &ValkyrieType) -> (r: Option<String>)
    ensures
        opt_view(r) == concrete_name(ty.model()),
    decreases ty,
{
    match ty {
        ValkyrieType::Named(name) => Some(owned(name.as_str())),
        ValkyrieType::Integer8 { signed } => Some(if *signed { owned("i8") } else { owned("u8") }),
        ValkyrieType::Integer16 { signed } => Some(if *signed { owned("i16") } else { owned("u16") }),
        ValkyrieType::Integer32 { signed } => Some(if *signed { owned("i32") } else { owned("u32") }),
        ValkyrieType::Integer64 { signed } => Some(if *signed { owned("i64") } else { owned("u64") }),
        ValkyrieType::Integer128 { signed } => Some(if *signed { owned("i128") } else { owned("u128") }),
        ValkyrieType::Apply(base, args) => {
            let base_name = match concrete_type_name(base) {
                Some(name) => name,
                None => return None,
            };
            let ghost ms = vmodels(args@);
            proof {
                lemma_vmodels(args@);
            }
            let mut names: Vec<String> = Vec::new();
            let mut i: usize = 0;
            assert(ms.take(0) =~= Seq::<VType>::empty());
            while i < args.len()
                invariant
                    ms == vmodels(args@),
                    ms.len() == args@.len(),
                    forall|j: int| 0 <= j < args@.len() ==> #[trigger] ms[j] == args@[j].model(),
                    i <= args@.len(),
                    concrete_names(ms.take(i as int)) == Some(views(names@)),
                decreases args.len() - i,
            {
                proof {
                    assert(decreases_to!(args => args@[i as int]));
                    assert(ms.take(i + 1).drop_last() =~= ms.take(i as int));
                }
                match concrete_type_name(&args[i]) {
                    Some(name) => {
                        let ghost before = names@;
                        names.push(name);
                        assert(views(names@) =~= views(before).push(names@.last()@));
                    },
                    None => {
                        proof {
                            lemma_concrete_names_none_extends(ms, i as int + 1);
                        }
                        return None;
                    },
                }
                i = i + 1;
            }
            assert(ms.take(ms.len() as int) =~= ms);
            if names.len() == 0 {
                Some(base_name)
            } else {
                let mut out = base_name;
                append(&mut out, "<");
                let joined = join_strings(&names, ", ");
                append(&mut out, joined.as_str());
                append(&mut out, ">");
                Some(out)
            }
        },
        _ => None,
    }
}

proof fn lemma_concrete_names_none_extends(ms: Seq<VType>, n: int)
    requires
        0 < n <= ms.len(),
        concrete_names(ms.take(n)) is None,
    ensures
        concrete_names(ms) is None,
    decreases ms.len() - n,
{
    if n < ms.len() {
        assert(ms.take(n + 1).drop_last() =~= ms.take(n));
        lemma_concrete_names_none_extends(ms, n + 1);
    } else {
        assert(ms.take(n) =~= ms);
    }
}

// ---------------------------------------------------------------- inferred substitutions

/// The substitutions after seeing `t`: a `HashMap<A, B>` sets `K` to the concrete name of
/// `A` and `V` to that of `B`, each only when it has one.
pub open spec fn record(m: Map<Seq<char>, Seq<char>>, t: VType) -> Map<Seq<char>, Seq<char>> {
    match t {
        VType::Apply(base, args) => match *base {
            VType::Named(owner) => if owner == "HashMap"@ && args.len() >= 2 {
                let with_key = match concrete_name(args[0]) {
                    Some(key) => m.insert("K"@, key),
                    None => m,
                };
                match concrete_name(args[1]) {
                    Some(value) => with_key.insert("V"@, value),
                    None => with_key,
                }
            } else {
                m
            },
            _ => m,
        },
        _ => m,
    }
}

/// The substitutions after seeing the types `ts` in order.
pub open spec fn record_all(m: Map<Seq<char>, Seq<char>>, ts: Seq<VType>) -> Map<Seq<char>, Seq<char>>
    decreases ts.len(),
{
    if ts.len() == 0 {
        m
    } else {
        record(record_all(m, ts.drop_last()), ts.last())
    }
}

/// The types of a function in the order substitution inference sees them: parameter types,
/// then value types in increasing value order.
pub open spec fn types_seen(f: FunctionModel) -> Seq<VType> {
    f.param_types + f.value_types.map_values(|e: (ValueRef, VType)| e.1)
}

/// The substitutions inferred from the `HashMap` types that the functions use.
pub open spec fn infer_substitutions(fs: Seq<FunctionModel>) -> Map<Seq<char>, Seq<char>>
    decreases fs.len(),
{
    if fs.len() == 0 {
        Map::empty()
    } else {
        record_all(infer_substitutions(fs.drop_last()), types_seen(fs.last()))
    }
}

/// `t` is a `HashMap` type whose argument at `index` has the concrete name `name`.
pub open spec fn hashmap_arg_named(t: VType, index: int, name: Seq<char>) -> bool {
    &&& t matches VType::Apply(base, args)
    &&& *base == VType::Named("HashMap"@)
    &&& args.len() >= 2
    &&& concrete_name(args[index]) == Some(name)
}

/// Among the parameter types or the value types of `f` there is a `HashMap` whose argument at
/// `index` has the concrete name `name`.
pub open spec fn function_shows(f: FunctionModel, index: int, name: Seq<char>) -> bool {
    ||| exists|i: int| 0 <= i < f.param_types.len() && #[trigger] hashmap_arg_named(f.param_types[i], index, name)
    ||| exists|i: int| 0 <= i < f.value_types.len() && #[trigger] hashmap_arg_named(f.value_types[i].1, index, name)
}

/// The type parameter that the `HashMap` argument at `index` stands for: `K`, then `V`.
pub open spec fn hashmap_param(index: int) -> Seq<char> {
    if index == 0 {
        "K"@
    } else {
        "V"@
    }
}

proof fn lemma_param_names()
    ensures
        "K"@ != "V"@,
{
    reveal_strlit("K");
    reveal_strlit("V");
    assert("K"@[0] != "V"@[0]);
}

proof fn lemma_record_param(m: Map<Seq<char>, Seq<char>>, t: VType, index: int)
    requires
        index == 0 || index == 1,
    ensures
        record(m, t).contains_key(hashmap_param(index)) <==> (m.contains_key(hashmap_param(index)) || exists|name: Seq<char>|
            #[trigger] hashmap_arg_named(t, index, name)),
        record(m, t).contains_key(hashmap_param(index)) ==> hashmap_arg_named(t, index, record(m, t)[hashmap_param(index)]) || (
        m.contains_key(hashmap_param(index)) && record(m, t)[hashmap_param(index)] == m[hashmap_param(index)]),
        forall|k: Seq<char>| #[trigger] record(m, t).contains_key(k) ==> m.contains_key(k) || k == "K"@ || k == "V"@,
{
    lemma_param_names();
    if let VType::Apply(base, args) = t {
        if let VType::Named(owner) = *base {
            if owner == "HashMap"@ && args.len() >= 2 {
                if let Some(name) = concrete_name(args[index]) {
                    assert(hashmap_arg_named(t, index, name));
                }
            }
        }
    }
}

proof fn lemma_record_all_param(m: Map<Seq<char>, Seq<char>>, ts: Seq<VType>, index: int)
    requires
        index == 0 || index == 1,
    ensures
        record_all(m, ts).contains_key(hashmap_param(index)) <==> (m.contains_key(hashmap_param(index)) || exists|i: int, name: Seq<char>|
            0 <= i < ts.len() && #[trigger] hashmap_arg_named(ts[i], index, name)),
        record_all(m, ts).contains_key(hashmap_param(index)) ==> (exists|i: int|
            0 <= i < ts.len() && #[trigger] hashmap_arg_named(ts[i], index, record_all(m, ts)[hashmap_param(index)])) || (
        m.contains_key(hashmap_param(index)) && record_all(m, ts)[hashmap_param(index)] == m[hashmap_param(index)]),
        forall|k: Seq<char>| #[trigger] record_all(m, ts).contains_key(k) ==> m.contains_key(k) || k == "K"@ || k == "V"@,
    decreases ts.len(),
{
    let key = hashmap_param(index);
    if ts.len() > 0 {
        let prev = ts.drop_last();
        let mp = record_all(m, prev);
        lemma_record_all_param(m, prev, index);
        lemma_record_param(mp, ts.last(), index);
        let r = record_all(m, ts);
        assert(r == record(mp, ts.last()));
        if exists|i: int, name: Seq<char>| 0 <= i < prev.len() && #[trigger] hashmap_arg_named(prev[i], index, name) {
            let (i, name) = choose|i: int, name: Seq<char>| 0 <= i < prev.len() && #[trigger] hashmap_arg_named(prev[i], index, name);
            assert(ts[i] == prev[i]);
        }
        if exists|name: Seq<char>| #[trigger] hashmap_arg_named(ts.last(), index, name) {
            let name = choose|name: Seq<char>| #[trigger] hashmap_arg_named(ts.last(), index, name);
            assert(hashmap_arg_named(ts[ts.len() - 1], index, name));
        }
        if exists|i: int, name: Seq<char>| 0 <= i < ts.len() && #[trigger] hashmap_arg_named(ts[i], index, name) {
            let (i, name) = choose|i: int, name: Seq<char>| 0 <= i < ts.len() && #[trigger] hashmap_arg_named(ts[i], index, name);
            if i < prev.len() {
                assert(hashmap_arg_named(prev[i], index, name));
            } else {
                assert(hashmap_arg_named(ts.last(), index, name));
            }
        }
        if r.contains_key(key) {
            if hashmap_arg_named(ts.last(), index, r[key]) {
                assert(hashmap_arg_named(ts[ts.len() - 1], index, r[key]));
            } else if mp.contains_key(key) && r[key] == mp[key] {
                if exists|i: int| 0 <= i < prev.len() && #[trigger] hashmap_arg_named(prev[i], index, mp[key]) {
                    let i = choose|i: int| 0 <= i < prev.len() && #[trigger] hashmap_arg_named(prev[i], index, mp[key]);
                    assert(hashmap_arg_named(ts[i], index, r[key]));
                }
            }
        }
    }
}

/// Substitution inference records a `HashMap` argument exactly when one is seen: the inferred
/// substitutions give `K` (for `index` 0) or `V` (for `index` 1) exactly when some function uses,
/// among its parameter types or its value types, a `HashMap` whose argument there has a
/// concrete name, and then to the concrete name of such an argument; they give nothing but `K`
/// and `V`.
pub proof fn lemma_substitutions_from_hashmaps(fs: Seq<FunctionModel>, index: int)
    requires
        index == 0 || index == 1,
    ensures
        infer_substitutions(fs).contains_key(hashmap_param(index)) <==> exists|j: int, name: Seq<char>|
            0 <= j < fs.len() && #[trigger] function_shows(fs[j], index, name),
        infer_substitutions(fs).contains_key(hashmap_param(index)) ==> exists|j: int|
            0 <= j < fs.len() && #[trigger] function_shows(fs[j], index, infer_substitutions(fs)[hashmap_param(index)]),
        forall|k: Seq<char>| #[trigger] infer_substitutions(fs).contains_key(k) ==> k == "K"@ || k == "V"@,
    decreases fs.len(),
{
    let key = hashmap_param(index);
    if fs.len() > 0 {
        let prev = fs.drop_last();
        let f = fs.last();
        let ts = types_seen(f);
        let mp = infer_substitutions(prev);
        let r = infer_substitutions(fs);
        lemma_substitutions_from_hashmaps(prev, index);
        lemma_record_all_param(mp, ts, index);
        let pn = f.param_types.len();
        // a type seen in `f` is one of its parameter or value types
        assert forall|i: int, name: Seq<char>| 0 <= i < ts.len() && #[trigger] hashmap_arg_named(ts[i], index, name) implies function_shows(f, index, name) by {
            if i < pn {
                assert(ts[i] == f.param_types[i]);
            } else {
                assert(ts[i] == f.value_types[i - pn].1);
            }
        }
        assert forall|name: Seq<char>| function_shows(f, index, name) implies exists|i: int|
            0 <= i < ts.len() && #[trigger] hashmap_arg_named(ts[i], index, name) by {
            if exists|i: int| 0 <= i < f.param_types.len() && #[trigger] hashmap_arg_named(f.param_types[i], index, name) {
                let i = choose|i: int| 0 <= i < f.param_types.len() && #[trigger] hashmap_arg_named(f.param_types[i], index, name);
                assert(ts[i] == f.param_types[i]);
            } else {
                let i = choose|i: int| 0 <= i < f.value_types.len() && #[trigger] hashmap_arg_named(f.value_types[i].1, index, name);
                assert(ts[pn + i] == f.value_types[i].1);
            }
        }
        assert forall|j: int, name: Seq<char>| 0 <= j < prev.len() && #[trigger] function_shows(prev[j], index, name) implies function_shows(fs[j], index, name) by {
            assert(prev[j] == fs[j]);
        }
        if exists|j: int, name: Seq<char>| 0 <= j < fs.len() && #[trigger] function_shows(fs[j], index, name) {
            let (j, name) = choose|j: int, name: Seq<char>| 0 <= j < fs.len() && #[trigger] function_shows(fs[j], index, name);
            if j < prev.len() {
                assert(function_shows(prev[j], index, name));
            } else {
                assert(fs[j] == f);
                let i = choose|i: int| 0 <= i < ts.len() && #[trigger] hashmap_arg_named(ts[i], index, name);
            }
        }
        if r.contains_key(key) {
            if exists|i: int| 0 <= i < ts.len() && #[trigger] hashmap_arg_named(ts[i], index, r[key]) {
                let i = choose|i: int| 0 <= i < ts.len() && #[trigger] hashmap_arg_named(ts[i], index, r[key]);
                assert(function_shows(f, index, r[key]));
                assert(fs[fs.len() - 1] == f);
            } else {
                assert(mp.contains_key(key) && r[key] == mp[key]);
                let j = choose|j: int| 0 <= j < prev.len() && #[trigger] function_shows(prev[j], index, mp[key]);
                assert(function_shows(fs[j], index, r[key]));
            }
        }
    }
}

/// Records the `K` / `V` substitutions that a `HashMap` type shows (see [`record`]).
pub fn record_hashmap_substitutions(substitutions: &mut Substitutions, ty: &ValkyrieType)
    ensures
        final(substitutions)@ == record(old(substitutions)@, ty.model()),
{
    if let ValkyrieType::Apply(base, args) = ty {
        if let ValkyrieType::Named(owner) = &**base {
            proof {
                lemma_vmodels(args@);
                assert(base.model() == VType::Named(owner@));
            }
            if str_equal(owner.as_str(), "HashMap") && args.len() >= 2 {
                if let Some(key) = concrete_type_name(&args[0]) {
                    substitutions.insert(owned("K"), key);
                }
                if let Some(value) = concrete_type_name(&args[1]) {
                    substitutions.insert(owned("V"), value);
                }
            }
        }
    }
}

/// The type parameter substitutions that the consumer's `HashMap` types show.
pub fn infer_hashmap_type_param_substitutions(consumer: &MirModule) -> (r: Substitutions)
    ensures
        r@ == infer_substitutions(function_models(consumer.functions@)),
{
    let ghost fms = function_models(consumer.functions@);
    let mut substitutions = Substitutions::new();
    let mut i: usize = 0;
    while i < consumer.functions.len()
        invariant
            fms == function_models(consumer.functions@),
            i <= consumer.functions@.len(),
            substitutions@ == infer_substitutions(fms.take(i as int)),
        decreases consumer.functions.len() - i,
    {
        let function = &consumer.functions[i];
        let ghost base = substitutions@;
        let ghost ts = types_seen(function.model());
        let pn = function.param_types.len();
        proof {
            lemma_vmodels(function.param_types@);
            assert(ts.take(0) =~= Seq::<VType>::empty());
        }
        let mut j: usize = 0;
        while j < pn
            invariant
                pn == function.param_types@.len(),
                ts == types_seen(function.model()),
                vmodels(function.param_types@).len() == pn,
                forall|k: int| 0 <= k < pn ==> #[trigger] vmodels(function.param_types@)[k] == function.param_types@[k].model(),
                j <= pn,
                substitutions@ == record_all(base, ts.take(j as int)),
            decreases pn - j,
        {
            proof {
                assert(ts.take(j + 1).drop_last() =~= ts.take(j as int));
                assert(ts[j as int] == function.param_types@[j as int].model());
            }
            record_hashmap_substitutions(&mut substitutions, &function.param_types[j]);
            j = j + 1;
        }
        let vn = function.value_types.len();
        let mut k: usize = 0;
        while k < vn
            invariant
                pn == function.param_types@.len(),
                vn == function.value_types@.len(),
                ts == types_seen(function.model()),
                vmodels(function.param_types@).len() == pn,
                k <= vn,
                substitutions@ == record_all(base, ts.take(pn + k)),
            decreases vn - k,
        {
            let (_, ty) = function.value_types.entry_at(k);
            proof {
                assert(ts.take(pn + k + 1).drop_last() =~= ts.take(pn + k));
                assert(ts[pn + k] == ty.model());
            }
            record_hashmap_substitutions(&mut substitutions, ty);
            k = k + 1;
        }
        proof {
            assert(ts.take(pn + vn) =~= ts);
            assert(fms.take(i + 1).drop_last() =~= fms.take(i as int));
        }
        i = i + 1;
    }
    proof {
        assert(fms.take(consumer.functions@.len() as int) =~= fms);
    }
    substitutions
}

/// For a need `T.method` whose owner `T` is a type parameter with a substitution `C`, the
/// need `C.method`.
pub open spec fn concrete_need(need: Seq<char>, m: Map<Seq<char>, Seq<char>>) -> Option<Seq<char>> {
    match last_index_of_char(need, '.') {
        None => None,
        Some(i) => {
            let owner = need.subrange(0, i);
            let method = need.subrange(i + 1, need.len() as int);
            if is_type_parameter(owner) && m.contains_key(owner) {
                Some(m[owner] + "."@ + method)
            } else {
                None
            }
        },
    }
}

/// The concrete method a type-parameter method need stands for (see [`concrete_need`]).
pub fn resolve_concrete_method_need(need: &str, substitutions: &Substitutions) -> (r: Option<String>)
    ensures
        opt_view(r) == concrete_need(need@, substitutions@),
{
    let cs = chars_of(need);
    let dot = match last_index_of_char_exec(&cs, '.') {
        Some(dot) => dot,
        None => return None,
    };
    assert(dot < cs@.len());
    let owner = string_between(&cs, 0, dot);
    let method = string_between(&cs, dot + 1, cs.len());
    if !is_type_parameter_name(owner.as_str()) {
        return None;
    }
    match substitutions.get(owner.as_str()) {
        Some(concrete) => {
            let mut out = owned(concrete.as_str());
            append(&mut out, ".");
            append(&mut out, method.as_str());
            Some(out)
        },
        None => None,
    }
}

// ---------------------------------------------------------------- option receivers

/// The type arguments of an option type: those of `Option<..>`, or the inner type of a
/// nullable type.
pub open spec fn option_args(t: VType) -> Option<Seq<VType>> {
    match t {
        VType::Apply(base, args) => if *base == VType::Named("Option"@) {
            Some(args)
        } else {
            None
        },
        VType::Nullable(inner) => Some(seq![*inner]),
        _ => None,
    }
}

/// The payload type of an option type: its first type argument.
pub open spec fn option_payload(t: VType) -> Option<VType> {
    match option_args(t) {
        Some(args) => if args.len() > 0 {
            Some(args[0])
        } else {
            None
        },
        None => None,
    }
}

/// The type arguments of an option receiver type (see [`option_args`]).
pub fn option_apply_args(receiver_ty: &ValkyrieType) -> (r: Option<Vec<ValkyrieType>>)
    ensures
        match r {
            Some(args) => option_args(receiver_ty.model()) == Some(vmodels(args@)),
            None => option_args(receiver_ty.model()) is None,
        },
{
    match receiver_ty {
        ValkyrieType::Apply(base, args) => {
            if let ValkyrieType::Named(name) = &**base {
                assert(base.model() == VType::Named(name@));
                if str_equal(name.as_str(), "Option") {
                    return Some(copy_valkyrie_list(args));
                }
            } else {
                assert(base.model() !is Named);
            }
            None
        },
        ValkyrieType::Nullable(inner) => {
            let mut args: Vec<ValkyrieType> = Vec::new();
            args.push(copy_valkyrie(inner));
            proof {
                lemma_vmodels(args@);
                assert(vmodels(args@) =~= seq![inner.model()]);
            }
            Some(args)
        },
        _ => None,
    }
}

/// The payload type of an option receiver type (see [`option_payload`]).
pub fn option_payload_type(receiver_ty: &ValkyrieType) -> (r: Option<ValkyrieType>)
    ensures
        crate::mir::opt_vtype(r) == option_payload(receiver_ty.model()),
{
    match option_apply_args(receiver_ty) {
        Some(args) => {
            proof {
                lemma_vmodels(args@);
            }
            if args.len() > 0 {
                Some(copy_valkyrie(&args[0]))
            } else {
                None
            }
        },
        None => None,
    }
}

// ---------------------------------------------------------------- type parameter calls

/// A call of `T.method` whose owner `T` has a substitution `C` calls `C.method` instead.
pub open spec fn tp_rewrite_op(op: OperationModel, m: Map<Seq<char>, Seq<char>>) -> OperationModel {
    match op {
        OperationModel::Call { callee: OperandModel::Symbol(path), arguments } => if path.len() == 2
            && m.contains_key(path[0]) {
            OperationModel::Call { callee: OperandModel::Symbol(seq![m[path[0]], path[1]]), arguments }
        } else {
            op
        },
        _ => op,
    }
}

/// [`tp_rewrite_op`] on one instruction.
pub open spec fn tp_rewrite_instr(i: InstructionModel, m: Map<Seq<char>, Seq<char>>) -> InstructionModel {
    InstructionModel { kind: tp_rewrite_op(i.kind, m), ..i }
}

/// [`tp_rewrite_op`] on every instruction of a block.
pub open spec fn tp_rewrite_block(b: BlockModel, m: Map<Seq<char>, Seq<char>>) -> BlockModel {
    BlockModel { instructions: b.instructions.map_values(|i: InstructionModel| tp_rewrite_instr(i, m)), ..b }
}

/// [`tp_rewrite_op`] on every instruction of a function.
pub open spec fn tp_rewrite(f: FunctionModel, m: Map<Seq<char>, Seq<char>>) -> FunctionModel {
    FunctionModel { blocks: f.blocks.map_values(|b: BlockModel| tp_rewrite_block(b, m)), ..f }
}

/// `new` is `orig` with, for a call of `T.method` where `T` has a substitution `C`, the callee
/// replaced by `C.method` (same arguments and results); any other instruction is unchanged.
pub open spec fn tp_related(orig: InstructionModel, new: InstructionModel, m: Map<Seq<char>, Seq<char>>) -> bool {
    &&& new.results == orig.results
    &&& match orig.kind {
        OperationModel::Call { callee: OperandModel::Symbol(path), arguments } => if path.len() == 2 && m.contains_key(
            path[0],
        ) {
            new.kind == (OperationModel::Call { callee: OperandModel::Symbol(seq![m[path[0]], path[1]]), arguments })
        } else {
            new == orig
        },
        _ => new == orig,
    }
}

/// Type-parameter method rewriting keeps every block (id, label, parameters, terminator) and
/// rewrites exactly the calls `T.method` whose `T` has a substitution `C` into calls of
/// `C.method` with the same arguments; the function's symbol, signature, value types and entry
/// stay.
pub proof fn lemma_tp_rewrite_related(f: FunctionModel, m: Map<Seq<char>, Seq<char>>)
    ensures
        tp_rewrite(f, m).blocks.len() == f.blocks.len(),
        tp_rewrite(f, m).symbol == f.symbol,
        tp_rewrite(f, m).value_types == f.value_types,
        tp_rewrite(f, m).entry == f.entry,
        forall|i: int|
            0 <= i < f.blocks.len() ==> {
                &&& (#[trigger] tp_rewrite(f, m).blocks[i]).id == f.blocks[i].id
                &&& tp_rewrite(f, m).blocks[i].parameters == f.blocks[i].parameters
                &&& tp_rewrite(f, m).blocks[i].terminator == f.blocks[i].terminator
                &&& tp_rewrite(f, m).blocks[i].instructions.len() == f.blocks[i].instructions.len()
                &&& forall|k: int| 0 <= k < f.blocks[i].instructions.len() ==> tp_related(
                    f.blocks[i].instructions[k],
                    #[trigger] tp_rewrite(f, m).blocks[i].instructions[k],
                    m,
                )
            },
{
}

fn rewrite_instruction_type_params(instruction: &mut MirInstruction, substitutions: &Substitutions)
    ensures
        final(instruction).model() == tp_rewrite_instr(old(instruction).model(), substitutions@),
{
    let replacement = match &instruction.kind {
        MirOperation::Call { callee: MirOperand::Symbol(path), arguments } => {
            if path.parts.len() == 2 {
                match substitutions.get(path.parts[0].as_str()) {
                    Some(concrete) => {
                        let mut parts: Vec<String> = Vec::new();
                        parts.push(owned(concrete.as_str()));
                        parts.push(owned(path.parts[1].as_str()));
                        let new_path = NamePath::new(parts);
                        assert(new_path@ =~= seq![substitutions@[path@[0]], path@[1]]);
                        Some(MirOperation::Call { callee: MirOperand::Symbol(new_path), arguments: copy_operands(arguments) })
                    },
                    None => None,
                }
            } else {
                None
            }
        },
        _ => None,
    };
    if let Some(kind) = replacement {
        instruction.kind = kind;
    }
}

fn rewrite_block_type_params(block: &mut MirBlock, substitutions: &Substitutions)
    ensures
        final(block).model() == tp_rewrite_block(old(block).model(), substitutions@),
{
    let ghost m = substitutions@;
    let ghost before = instruction_models(block.instructions@);
    let n = block.instructions.len();
    let mut i: usize = 0;
    while i < n
        invariant
            n == block.instructions@.len(),
            before.len() == n,
            i <= n,
            block.id == old(block).id,
            block.label == old(block).label,
            block.parameters == old(block).parameters,
            block.terminator == old(block).terminator,
            before == instruction_models(old(block).instructions@),
            forall|k: int| 0 <= k < i ==> #[trigger] block.instructions@[k].model() == tp_rewrite_instr(before[k], m),
            forall|k: int| i <= k < n ==> #[trigger] block.instructions@[k] == old(block).instructions@[k],
            m == substitutions@,
        decreases n - i,
    {
        rewrite_instruction_type_params(&mut block.instructions[i], substitutions);
        i = i + 1;
    }
    assert(instruction_models(block.instructions@) =~= before.map_values(
        |x: InstructionModel| tp_rewrite_instr(x, m),
    ));
}

/// Rewrites calls of `T.method` for a type parameter `T` with a substitution `C` into calls of
/// `C.method` (see [`tp_rewrite_op`]).
pub fn rewrite_type_param_method_calls(function: &mut MirFunction, substitutions: &Substitutions)
    ensures
        final(function).model() == tp_rewrite(old(function).model(), substitutions@),
{
    let ghost m = substitutions@;
    let ghost before = block_models(function.blocks@);
    if substitutions.is_empty() {
        proof {
            let f = function.model();
            assert forall|k: int| 0 <= k < before.len() implies #[trigger] tp_rewrite_block(before[k], m) == before[k] by {
                assert(before[k].instructions.map_values(|x: InstructionModel| tp_rewrite_instr(x, m))
                    =~= before[k].instructions);
            }
            assert(f.blocks.map_values(|b: BlockModel| tp_rewrite_block(b, m)) =~= f.blocks);
        }
        return;
    }
    let n = function.blocks.len();
    let mut b: usize = 0;
    while b < n
        invariant
            n == function.blocks@.len(),
            before.len() == n,
            b <= n,
            function.symbol == old(function).symbol,
            function.return_type == old(function).return_type,
            function.param_types == old(function).param_types,
            function.value_types == old(function).value_types,
            function.entry == old(function).entry,
            function.values == old(function).values,
            before == block_models(old(function).blocks@),
            forall|k: int| 0 <= k < b ==> #[trigger] function.blocks@[k].model() == tp_rewrite_block(before[k], m),
            forall|k: int| b <= k < n ==> #[trigger] function.blocks@[k] == old(function).blocks@[k],
            m == substitutions@,
        decreases n - b,
    {
        rewrite_block_type_params(&mut function.blocks[b], substitutions);
        b = b + 1;
    }
    assert(block_models(function.blocks@) =~= before.map_values(|x: BlockModel| tp_rewrite_block(x, m)));
}

// ---------------------------------------------------------------- bare unwrap calls

/// A path naming `unwrap` or `X.unwrap`.
pub open spec fn is_unwrap_path(path: Seq<Seq<char>>) -> bool {
    (path.len() == 1 && path[0] == "unwrap"@) || (path.len() == 2 && path[1] == "unwrap"@)
}

/// The option type an unwrap receiver has: the recorded type of the receiver value, else
/// `Option<P>` for the recorded type `P` of the call's first result.
pub open spec fn unwrap_receiver(vt: Seq<(ValueRef, VType)>, results: Seq<ValueRef>, object: OperandModel) -> Option<VType> {
    let direct = match object {
        OperandModel::Value(v) => lookup(vt, v),
        _ => None,
    };
    match direct {
        Some(t) => Some(t),
        None => if results.len() > 0 {
            match lookup(vt, results[0]) {
                Some(p) => Some(VType::Apply(Box::new(VType::Named("Option"@)), seq![p])),
                None => None,
            }
        } else {
            None
        },
    }
}

/// One instruction of the unwrap rewrite: a one-argument call of `unwrap` on a receiver of
/// option type becomes `SumPayloadGet` of `Option.Some`, and its first result gets the payload
/// type. Returns the value types after it, the instruction, and whether it changed.
pub open spec fn unwrap_instr(vt: Seq<(ValueRef, VType)>, ins: InstructionModel) -> (Seq<(ValueRef, VType)>, InstructionModel, bool) {
    match ins.kind {
        OperationModel::Call { callee: OperandModel::Symbol(path), arguments } => if is_unwrap_path(path)
            && arguments.len() == 1 {
            match unwrap_receiver(vt, ins.results, arguments[0]) {
                None => (vt, ins, false),
                Some(receiver) => match option_payload(receiver) {
                    None => (vt, ins, false),
                    Some(payload) => {
                        let type_args = match option_args(receiver) {
                            Some(args) => args,
                            None => Seq::empty(),
                        };
                        let vt2 = if ins.results.len() > 0 {
                            vt_insert(vt, ins.results[0], payload)
                        } else {
                            vt
                        };
                        let kind = OperationModel::SumPayloadGet {
                            sum_type: "Option"@,
                            type_args,
                            variant: "Some"@,
                            payload_type: payload,
                            object: arguments[0],
                        };
                        (vt2, InstructionModel { results: ins.results, kind }, true)
                    },
                },
            }
        } else {
            (vt, ins, false)
        },
        _ => (vt, ins, false),
    }
}

/// [`unwrap_instr`] over instructions in order, threading the value types.
pub open spec fn unwrap_instrs(vt: Seq<(ValueRef, VType)>, s: Seq<InstructionModel>) -> (Seq<(ValueRef, VType)>, Seq<InstructionModel>, bool)
    decreases s.len(),
{
    if s.len() == 0 {
        (vt, Seq::empty(), false)
    } else {
        let (vt1, done, c1) = unwrap_instrs(vt, s.drop_last());
        let (vt2, ins, c2) = unwrap_instr(vt1, s.last());
        (vt2, done.push(ins), c1 || c2)
    }
}

/// [`unwrap_instr`] over one block.
pub open spec fn unwrap_block_spec(vt: Seq<(ValueRef, VType)>, b: BlockModel) -> (Seq<(ValueRef, VType)>, BlockModel, bool) {
    let (vt2, instructions, c) = unwrap_instrs(vt, b.instructions);
    (vt2, BlockModel { instructions, ..b }, c)
}

/// [`unwrap_instr`] over blocks in order, threading the value types.
pub open spec fn unwrap_blocks(vt: Seq<(ValueRef, VType)>, s: Seq<BlockModel>) -> (Seq<(ValueRef, VType)>, Seq<BlockModel>, bool)
    decreases s.len(),
{
    if s.len() == 0 {
        (vt, Seq::empty(), false)
    } else {
        let (vt1, done, c1) = unwrap_blocks(vt, s.drop_last());
        let (vt2, b, c2) = unwrap_block_spec(vt1, s.last());
        (vt2, done.push(b), c1 || c2)
    }
}

/// One pass of the unwrap rewrite over a function, and whether it changed anything.
pub open spec fn unwrap_once(f: FunctionModel) -> (FunctionModel, bool) {
    let (vt, blocks, c) = unwrap_blocks(f.value_types, f.blocks);
    (FunctionModel { value_types: vt, blocks, ..f }, c)
}

/// Up to `n` passes of the unwrap rewrite, stopping after a pass that changes nothing.
pub open spec fn unwrap_rounds(f: FunctionModel, n: nat) -> FunctionModel
    decreases n,
{
    if n == 0 {
        f
    } else {
        let (g, changed) = unwrap_once(f);
        if changed {
            unwrap_rounds(g, (n - 1) as nat)
        } else {
            g
        }
    }
}

/// `new` is `orig` unchanged, or `orig` was a one-argument call of `unwrap` (the path `unwrap`
/// or `X.unwrap`) and `new` extracts the `Some` payload of `Option` from that argument; either
/// way the results stay.
pub open spec fn unwrap_related(orig: InstructionModel, new: InstructionModel) -> bool {
    &&& new.results == orig.results
    &&& new == orig || unwrap_rewrite_of(orig, new)
}

/// `orig` is a one-argument call of `unwrap` (the path `unwrap` or `X.unwrap`) and `new`
/// extracts the `Some` payload of `Option` from that argument.
pub open spec fn unwrap_rewrite_of(orig: InstructionModel, new: InstructionModel) -> bool {
    &&& orig.kind matches OperationModel::Call { callee: OperandModel::Symbol(path), arguments }
    &&& (path.len() == 1 && path[0] == "unwrap"@) || (path.len() == 2 && path[1] == "unwrap"@)
    &&& arguments.len() == 1
    &&& new.kind matches OperationModel::SumPayloadGet { sum_type, variant, object, .. }
    &&& sum_type == "Option"@
    &&& variant == "Some"@
    &&& object == arguments[0]
}

/// The blocks `new` are the blocks `orig` with each instruction [`unwrap_related`] to the
/// original: ids, labels, parameters, terminators and instruction counts unchanged.
pub open spec fn unwrap_blocks_related(orig: Seq<BlockModel>, new: Seq<BlockModel>) -> bool {
    &&& new.len() == orig.len()
    &&& forall|i: int|
        0 <= i < orig.len() ==> {
            &&& (#[trigger] new[i]).id == orig[i].id
            &&& new[i].label == orig[i].label
            &&& new[i].parameters == orig[i].parameters
            &&& new[i].terminator == orig[i].terminator
            &&& new[i].instructions.len() == orig[i].instructions.len()
            &&& forall|k: int| 0 <= k < orig[i].instructions.len() ==> unwrap_related(
                orig[i].instructions[k],
                #[trigger] new[i].instructions[k],
            )
        }
}

proof fn lemma_unwrap_instr_related(vt: Seq<(ValueRef, VType)>, ins: InstructionModel)
    ensures
        unwrap_related(ins, unwrap_instr(vt, ins).1),
        !unwrap_instr(vt, ins).2 ==> unwrap_instr(vt, ins).1 == ins,
{
}

proof fn lemma_unwrap_instrs_related(vt: Seq<(ValueRef, VType)>, s: Seq<InstructionModel>)
    ensures
        unwrap_instrs(vt, s).1.len() == s.len(),
        forall|k: int| 0 <= k < s.len() ==> unwrap_related(s[k], #[trigger] unwrap_instrs(vt, s).1[k]),
    decreases s.len(),
{
    if s.len() > 0 {
        let (vt1, done, c1) = unwrap_instrs(vt, s.drop_last());
        lemma_unwrap_instrs_related(vt, s.drop_last());
        lemma_unwrap_instr_related(vt1, s.last());
        assert forall|k: int| 0 <= k < s.len() implies unwrap_related(s[k], #[trigger] unwrap_instrs(vt, s).1[k]) by {
            if k < s.len() - 1 {
                assert(s.drop_last()[k] == s[k]);
            }
        }
    }
}

proof fn lemma_unwrap_blocks_related(vt: Seq<(ValueRef, VType)>, s: Seq<BlockModel>)
    ensures
        unwrap_blocks_related(s, unwrap_blocks(vt, s).1),
    decreases s.len(),
{
    if s.len() > 0 {
        let (vt1, done, c1) = unwrap_blocks(vt, s.drop_last());
        lemma_unwrap_blocks_related(vt, s.drop_last());
        lemma_unwrap_instrs_related(vt1, s.last().instructions);
        let new = unwrap_blocks(vt, s).1;
        assert forall|i: int| 0 <= i < s.len() implies {
            &&& (#[trigger] new[i]).id == s[i].id
            &&& new[i].label == s[i].label
            &&& new[i].parameters == s[i].parameters
            &&& new[i].terminator == s[i].terminator
            &&& new[i].instructions.len() == s[i].instructions.len()
            &&& forall|k: int| 0 <= k < s[i].instructions.len() ==> unwrap_related(s[i].instructions[k], #[trigger] new[i].instructions[k])
        } by {
            if i < s.len() - 1 {
                assert(s.drop_last()[i] == s[i]);
                assert(new[i] == done[i]);
            }
        }
    }
}

proof fn lemma_unwrap_related_trans(a: InstructionModel, b: InstructionModel, c: InstructionModel)
    requires
        unwrap_related(a, b),
        unwrap_related(b, c),
    ensures
        unwrap_related(a, c),
{
}

/// One pass of the unwrap rewrite changes nothing but instructions, and each instruction either
/// stays or, being a one-argument call of `unwrap`, becomes the extraction of the `Some`
/// payload of `Option` from that argument, keeping its results; the symbol, signature, entry
/// and values are kept.
pub proof fn lemma_unwrap_once_related(f: FunctionModel)
    ensures
        unwrap_blocks_related(f.blocks, unwrap_once(f).0.blocks),
        unwrap_once(f).0.symbol == f.symbol,
        unwrap_once(f).0.return_type == f.return_type,
        unwrap_once(f).0.param_types == f.param_types,
        unwrap_once(f).0.entry == f.entry,
        unwrap_once(f).0.values == f.values,
{
    lemma_unwrap_blocks_related(f.value_types, f.blocks);
}

/// Any number of unwrap passes relates each instruction to the original as one pass does.
pub proof fn lemma_unwrap_rounds_related(f: FunctionModel, n: nat)
    ensures
        unwrap_blocks_related(f.blocks, unwrap_rounds(f, n).blocks),
        unwrap_rounds(f, n).symbol == f.symbol,
        unwrap_rounds(f, n).entry == f.entry,
        unwrap_rounds(f, n).values == f.values,
    decreases n,
{
    if n > 0 {
        lemma_unwrap_once_related(f);
        let (g, changed) = unwrap_once(f);
        if changed {
            lemma_unwrap_rounds_related(g, (n - 1) as nat);
            let h = unwrap_rounds(g, (n - 1) as nat);
            assert forall|i: int| 0 <= i < f.blocks.len() implies {
                &&& (#[trigger] h.blocks[i]).id == f.blocks[i].id
                &&& h.blocks[i].label == f.blocks[i].label
                &&& h.blocks[i].parameters == f.blocks[i].parameters
                &&& h.blocks[i].terminator == f.blocks[i].terminator
                &&& h.blocks[i].instructions.len() == f.blocks[i].instructions.len()
                &&& forall|k: int| 0 <= k < f.blocks[i].instructions.len() ==> unwrap_related(f.blocks[i].instructions[k], #[trigger] h.blocks[i].instructions[k])
            } by {
                assert(g.blocks[i].id == f.blocks[i].id);
                assert forall|k: int| 0 <= k < f.blocks[i].instructions.len() implies unwrap_related(f.blocks[i].instructions[k], #[trigger] h.blocks[i].instructions[k]) by {
                    lemma_unwrap_related_trans(f.blocks[i].instructions[k], g.blocks[i].instructions[k], h.blocks[i].instructions[k]);
                }
            }
        } else {
            lemma_unwrap_blocks_related(f.value_types, f.blocks);
        }
    } else {
        assert forall|i: int| 0 <= i < f.blocks.len() implies {
            &&& (#[trigger] f.blocks[i]).id == f.blocks[i].id
            &&& forall|k: int| 0 <= k < f.blocks[i].instructions.len() ==> unwrap_related(f.blocks[i].instructions[k], #[trigger] f.blocks[i].instructions[k])
        } by {}
    }
}

/// The receiver type an unwrap call sees (see [`unwrap_receiver`]).
fn unwrap_receiver_type(value_types: &ValueTypes<ValkyrieType>, results: &Vec<ValueRef>, object: &MirOperand) -> (r: Option<ValkyrieType>)
    ensures
        crate::mir::opt_vtype(r) == unwrap_receiver(vt_models(value_types@), results@, object.model()),
{
    let direct = match object {
        MirOperand::Value(v) => {
            proof {
                lemma_lookup_models(value_types@, *v);
            }
            match value_types.get(v) {
                Some(t) => Some(copy_valkyrie(t)),
                None => None,
            }
        },
        _ => None,
    };
    match direct {
        Some(t) => Some(t),
        None => if results.len() > 0 {
            proof {
                lemma_lookup_models(value_types@, results@[0]);
            }
            match value_types.get(&results[0]) {
                Some(p) => {
                    let mut args: Vec<ValkyrieType> = Vec::new();
                    args.push(copy_valkyrie(p));
                    proof {
                        lemma_vmodels(args@);
                        assert(vmodels(args@) =~= seq![p.model()]);
                    }
                    let named = ValkyrieType::Named(owned("Option"));
                    assert(named.model() == VType::Named("Option"@));
                    Some(ValkyrieType::Apply(Box::new(named), args))
                },
                None => None,
            }
        } else {
            None
        },
    }
}

/// Whether a callee path names `unwrap` (see [`is_unwrap_path`]).
fn is_unwrap_callee(path: &NamePath) -> (r: bool)
    ensures
        r == is_unwrap_path(path@),
{
    let n = path.parts.len();
    if n == 1 {
        str_equal(path.parts[0].as_str(), "unwrap")
    } else if n == 2 {
        str_equal(path.parts[1].as_str(), "unwrap")
    } else {
        false
    }
}

fn unwrap_instruction(value_types: &mut ValueTypes<ValkyrieType>, instruction: &mut MirInstruction) -> (changed: bool)
    ensures
        (vt_models(final(value_types)@), final(instruction).model(), changed) == unwrap_instr(
            vt_models(old(value_types)@),
            old(instruction).model(),
        ),
{
    let ghost vt0 = vt_models(value_types@);
    let ghost ins0 = instruction.model();
    let (payload, type_args, object) = match &instruction.kind {
        MirOperation::Call { callee: MirOperand::Symbol(path), arguments } => {
            if !is_unwrap_callee(path) || arguments.len() != 1 {
                return false;
            }
            assert(operand_models(arguments@)[0] == arguments@[0].model());
            let receiver = match unwrap_receiver_type(value_types, &instruction.results, &arguments[0]) {
                Some(receiver) => receiver,
                None => return false,
            };
            let payload = match option_payload_type(&receiver) {
                Some(payload) => payload,
                None => return false,
            };
            let type_args = match option_apply_args(&receiver) {
                Some(args) => args,
                None => Vec::new(),
            };
            (payload, type_args, copy_operand(&arguments[0]))
        },
        _ => return false,
    };
    if instruction.results.len() > 0 {
        let result = instruction.results[0];
        let recorded = copy_valkyrie(&payload);
        proof {
            lemma_vt_insert_models(value_types@, result, recorded);
        }
        value_types.insert(result, recorded);
    }
    instruction.kind = MirOperation::SumPayloadGet {
        sum_type: owned("Option"),
        type_args,
        variant: owned("Some"),
        payload_type: payload,
        object,
    };
    true
}

fn unwrap_block(value_types: &mut ValueTypes<ValkyrieType>, block: &mut MirBlock) -> (changed: bool)
    ensures
        (vt_models(final(value_types)@), final(block).model(), changed) == unwrap_block_spec(
            vt_models(old(value_types)@),
            old(block).model(),
        ),
{
    let ghost vt0 = vt_models(value_types@);
    let ghost before = instruction_models(block.instructions@);
    let n = block.instructions.len();
    let mut changed = false;
    let mut i: usize = 0;
    assert(before.take(0) =~= Seq::<InstructionModel>::empty());
    while i < n
        invariant
            n == block.instructions@.len(),
            before.len() == n,
            i <= n,
            block.id == old(block).id,
            block.label == old(block).label,
            block.parameters == old(block).parameters,
            block.terminator == old(block).terminator,
            before == instruction_models(old(block).instructions@),
            vt0 == vt_models(old(value_types)@),
            ({
                let (vt_i, done, c) = unwrap_instrs(vt0, before.take(i as int));
                &&& vt_models(value_types@) == vt_i
                &&& done.len() == i
                &&& forall|k: int| 0 <= k < i ==> #[trigger] block.instructions@[k].model() == done[k]
                &&& changed == c
            }),
            forall|k: int| i <= k < n ==> #[trigger] block.instructions@[k] == old(block).instructions@[k],
        decreases n - i,
    {
        proof {
            assert(before.take(i + 1).drop_last() =~= before.take(i as int));
        }
        let c = unwrap_instruction(value_types, &mut block.instructions[i]);
        changed = changed || c;
        i = i + 1;
    }
    proof {
        assert(before.take(n as int) =~= before);
        let (vt_n, done, c) = unwrap_instrs(vt0, before);
        assert(instruction_models(block.instructions@) =~= done);
    }
    changed
}

/// One pass of the unwrap rewrite (see [`unwrap_once`]); sets `changed` when it rewrote a call.
pub fn rewrite_bare_unwrap_calls_to_sum_payload_once(function: &mut MirFunction, changed: &mut bool)
    ensures
        final(function).model() == unwrap_once(old(function).model()).0,
        *final(changed) == (*old(changed) || unwrap_once(old(function).model()).1),
{
    let ghost f0 = function.model();
    let ghost vt0 = f0.value_types;
    let ghost before = block_models(function.blocks@);
    let n = function.blocks.len();
    let mut b: usize = 0;
    assert(before.take(0) =~= Seq::<BlockModel>::empty());
    while b < n
        invariant
            n == function.blocks@.len(),
            before.len() == n,
            b <= n,
            function.symbol == old(function).symbol,
            function.return_type == old(function).return_type,
            function.param_types == old(function).param_types,
            function.entry == old(function).entry,
            function.values == old(function).values,
            before == block_models(old(function).blocks@),
            f0 == old(function).model(),
            vt0 == f0.value_types,
            ({
                let (vt_b, done, c) = unwrap_blocks(vt0, before.take(b as int));
                &&& vt_models(function.value_types@) == vt_b
                &&& done.len() == b
                &&& forall|k: int| 0 <= k < b ==> #[trigger] function.blocks@[k].model() == done[k]
                &&& *changed == (*old(changed) || c)
            }),
            forall|k: int| b <= k < n ==> #[trigger] function.blocks@[k] == old(function).blocks@[k],
        decreases n - b,
    {
        proof {
            assert(before.take(b + 1).drop_last() =~= before.take(b as int));
        }
        let c = unwrap_block(&mut function.value_types, &mut function.blocks[b]);
        *changed = *changed || c;
        b = b + 1;
    }
    proof {
        assert(before.take(n as int) =~= before);
        let (vt_n, done, c) = unwrap_blocks(vt0, before);
        assert(block_models(function.blocks@) =~= done);
    }
}

/// Rewrites bare `unwrap` calls on option receivers into `SumPayloadGet` of `Option.Some`,
/// in up to four passes, stopping after a pass that changes nothing.
pub fn rewrite_bare_unwrap_calls_to_sum_payload(function: &mut MirFunction)
    ensures
        final(function).model() == unwrap_rounds(old(function).model(), 4),
{
    let mut round: u32 = 0;
    while round < 4
        invariant
            round <= 4,
            unwrap_rounds(old(function).model(), 4) == unwrap_rounds(function.model(), (4 - round) as nat),
        decreases 4 - round,
    {
        let mut changed = false;
        rewrite_bare_unwrap_calls_to_sum_payload_once(function, &mut changed);
        if !changed {
            return;
        }
        round = round + 1;
    }
}

// ---------------------------------------------------------------- static callees

/// The callee symbols a call instruction contributes: the dotted path; the `::`-joined path
/// too when the dotted one has a `.` and no `::`; and the last segment.
pub open spec fn op_callees(op: OperationModel) -> Seq<Seq<char>> {
    match op {
        OperationModel::Call { callee: OperandModel::Symbol(path), .. } => {
            let dotted = join(path, "."@);
            let coloned = if dotted.contains('.') && !has_substring(dotted, "::"@) {
                seq![join(path, "::"@)]
            } else {
                Seq::empty()
            };
            let simple = if path.len() > 0 {
                seq![path.last()]
            } else {
                Seq::empty()
            };
            seq![dotted] + coloned + simple
        },
        _ => Seq::empty(),
    }
}

/// The callee symbols of instructions in order.
pub open spec fn instrs_callees(s: Seq<InstructionModel>) -> Seq<Seq<char>>
    decreases s.len(),
{
    if s.len() == 0 {
        Seq::empty()
    } else {
        instrs_callees(s.drop_last()) + op_callees(s.last().kind)
    }
}

/// The callee symbols of blocks in order.
pub open spec fn blocks_callees(s: Seq<BlockModel>) -> Seq<Seq<char>>
    decreases s.len(),
{
    if s.len() == 0 {
        Seq::empty()
    } else {
        blocks_callees(s.drop_last()) + instrs_callees(s.last().instructions)
    }
}

/// The static callee symbols of a function.
pub open spec fn callees(f: FunctionModel) -> Seq<Seq<char>> {
    blocks_callees(f.blocks)
}

/// The static callee symbols of a function (see [`op_callees`]), in block and instruction order.
pub fn collect_static_call_symbols(mir_fn: &MirFunction) -> (r: Vec<String>)
    ensures
        views(r@) == callees(mir_fn.model()),
{
    let ghost bs = block_models(mir_fn.blocks@);
    let mut out: Vec<String> = Vec::new();
    let mut b: usize = 0;
    assert(bs.take(0) =~= Seq::<BlockModel>::empty());
    assert(views(out@) =~= Seq::<Seq<char>>::empty());
    while b < mir_fn.blocks.len()
        invariant
            bs == block_models(mir_fn.blocks@),
            b <= bs.len(),
            views(out@) == blocks_callees(bs.take(b as int)),
        decreases mir_fn.blocks.len() - b,
    {
        let block = &mir_fn.blocks[b];
        let ghost is = bs[b as int].instructions;
        let ghost start = views(out@);
        let mut i: usize = 0;
        assert(is.take(0) =~= Seq::<InstructionModel>::empty());
        assert(start + instrs_callees(is.take(0)) =~= start);
        while i < block.instructions.len()
            invariant
                is == instruction_models(block.instructions@),
                i <= is.len(),
                views(out@) == start + instrs_callees(is.take(i as int)),
            decreases block.instructions.len() - i,
        {
            proof {
                assert(is.take(i + 1).drop_last() =~= is.take(i as int));
            }
            let ghost mid = views(out@);
            if let MirOperation::Call { callee: MirOperand::Symbol(path), .. } = &block.instructions[i].kind {
                let dotted = path.to_dotted();
                let needs_colon = crate::text::contains_char(dotted.as_str(), '.') && !crate::text::contains_str(
                    dotted.as_str(),
                    "::",
                );
                let coloned = path.to_colon_joined();
                let simple: Option<String> = if path.parts.len() > 0 {
                    Some(owned(path.parts[path.parts.len() - 1].as_str()))
                } else {
                    None
                };
                out.push(dotted);
                if needs_colon {
                    out.push(coloned);
                }
                if let Some(simple) = simple {
                    out.push(simple);
                }
                proof {
                    let added = op_callees(is[i as int].kind);
                    assert(views(out@) =~= mid + added);
                }
            } else {
                assert(op_callees(is[i as int].kind) =~= Seq::<Seq<char>>::empty());
                assert(views(out@) =~= mid + op_callees(is[i as int].kind));
            }
            i = i + 1;
        }
        proof {
            assert(is.take(is.len() as int) =~= is);
            assert(bs.take(b + 1).drop_last() =~= bs.take(b as int));
        }
        b = b + 1;
    }
    proof {
        assert(bs.take(bs.len() as int) =~= bs);
    }
    out
}

// ---------------------------------------------------------------- the dependency pool

/// A position `(dependency, function)` among the dependency functions.
pub type Position = (int, int);

/// The symbol of the dependency function at `p`.
pub open spec fn sym_at(deps: Seq<MirModule>, p: Position) -> Seq<char> {
    deps[p.0].functions@[p.1].symbol@
}

/// `p` is the position of a dependency function.
pub open spec fn valid_position(deps: Seq<MirModule>, p: Position) -> bool {
    0 <= p.0 < deps.len() && 0 <= p.1 < deps[p.0].functions@.len()
}

/// The positions of the `n` first functions of dependency `d`.
pub open spec fn dep_row(d: int, n: int) -> Seq<Position> {
    Seq::new(n as nat, |k: int| (d, k))
}

/// All function positions, dependency by dependency, each in order.
pub open spec fn all_positions(deps: Seq<MirModule>) -> Seq<Position>
    decreases deps.len(),
{
    if deps.len() == 0 {
        Seq::empty()
    } else {
        all_positions(deps.drop_last()) + dep_row(deps.len() - 1, deps.last().functions@.len() as int)
    }
}

/// Some position in `ps` has the symbol `sym`.
pub open spec fn has_symbol(deps: Seq<MirModule>, ps: Seq<Position>, sym: Seq<char>) -> bool {
    exists|j: int| 0 <= j < ps.len() && sym_at(deps, #[trigger] ps[j]) == sym
}

/// The positions of `ps` whose symbol no earlier position has: the first one wins.
pub open spec fn first_occurrences(deps: Seq<MirModule>, ps: Seq<Position>) -> Seq<Position>
    decreases ps.len(),
{
    if ps.len() == 0 {
        Seq::empty()
    } else {
        let prev = first_occurrences(deps, ps.drop_last());
        if has_symbol(deps, prev, sym_at(deps, ps.last())) {
            prev
        } else {
            prev.push(ps.last())
        }
    }
}

/// The dependency pool: one function per symbol, from the first dependency that has it.
pub open spec fn build_pool(deps: Seq<MirModule>) -> Seq<Position> {
    first_occurrences(deps, all_positions(deps))
}

/// The pool entry with symbol `sym`.
pub open spec fn pool_get(deps: Seq<MirModule>, pool: Seq<Position>, sym: Seq<char>) -> Option<Position> {
    match crate::search::first_index(pool, |p: Position| sym_at(deps, p) == sym) {
        Some(i) => Some(pool[i]),
        None => None,
    }
}

/// Pool entries whose symbol is `need` or ends with `.need` / `::need`.
pub open spec fn suffix_matches(deps: Seq<MirModule>, pool: Seq<Position>, need: Seq<char>) -> Seq<Position> {
    pool.filter(ends_with_need(deps, need))
}

/// Positions whose symbol is `need` or ends with `.need` / `::need`.
pub open spec fn ends_with_need(deps: Seq<MirModule>, need: Seq<char>) -> spec_fn(Position) -> bool {
    |p: Position| ends_with_simple(sym_at(deps, p), need)
}

/// Positions whose symbol has the simple name of `need`.
pub open spec fn same_simple_name(deps: Seq<MirModule>, need: Seq<char>) -> spec_fn(Position) -> bool {
    |p: Position| tail_after_separator(sym_at(deps, p)) == tail_after_separator(need)
}

/// Pool entries whose simple name is that of `need`.
pub open spec fn simple_matches(deps: Seq<MirModule>, pool: Seq<Position>, need: Seq<char>) -> Seq<Position> {
    pool.filter(same_simple_name(deps, need))
}

/// The pool function a callee symbol resolves to: the exact symbol; else the concrete method
/// for a type-parameter method; else the only entry ending with the need; else the only entry
/// with the same simple name.
pub open spec fn resolve(deps: Seq<MirModule>, pool: Seq<Position>, m: Map<Seq<char>, Seq<char>>, need: Seq<char>) -> Option<Position> {
    match pool_get(deps, pool, need) {
        Some(p) => Some(p),
        None => {
            let via_concrete = match concrete_need(need, m) {
                Some(c) => pool_get(deps, pool, c),
                None => None,
            };
            match via_concrete {
                Some(p) => Some(p),
                None => {
                    let suffix = suffix_matches(deps, pool, need);
                    if suffix.len() == 1 {
                        pool_get(deps, pool, sym_at(deps, suffix[0]))
                    } else {
                        let simple = simple_matches(deps, pool, need);
                        if simple.len() == 1 {
                            pool_get(deps, pool, sym_at(deps, simple[0]))
                        } else {
                            None
                        }
                    }
                },
            }
        },
    }
}

proof fn lemma_pool_get(deps: Seq<MirModule>, pool: Seq<Position>, sym: Seq<char>)
    ensures
        pool_get(deps, pool, sym) matches Some(p) ==> pool.contains(p) && sym_at(deps, p) == sym,
        pool_get(deps, pool, sym) is None ==> forall|i: int| 0 <= i < pool.len() ==> sym_at(deps, #[trigger] pool[i]) != sym,
{
    let pred = |p: Position| sym_at(deps, p) == sym;
    crate::search::lemma_first_index(pool, pred);
    if let Some(i) = crate::search::first_index(pool, pred) {
        assert(pool[i] == pool[i]);
    } else {
        assert forall|i: int| 0 <= i < pool.len() implies sym_at(deps, #[trigger] pool[i]) != sym by {
            assert(!pred(pool[i]));
        }
    }
}

/// What a callee resolves to is a pool function whose symbol is the need itself, the concrete
/// method need of a type-parameter method, a symbol ending with `.need` or `::need`, or a symbol
/// with the need's simple name.
pub proof fn lemma_resolve_sound(deps: Seq<MirModule>, pool: Seq<Position>, m: Map<Seq<char>, Seq<char>>, need: Seq<char>)
    ensures
        resolve(deps, pool, m, need) matches Some(p) ==> pool.contains(p) && {
            let s = sym_at(deps, p);
            ||| s == need
            ||| concrete_need(need, m) == Some(s)
            ||| ends_with_simple(s, need)
            ||| tail_after_separator(s) == tail_after_separator(need)
        },
{
    lemma_pool_get(deps, pool, need);
    if let Some(c) = concrete_need(need, m) {
        lemma_pool_get(deps, pool, c);
    }
    let suffix = suffix_matches(deps, pool, need);
    let simple = simple_matches(deps, pool, need);
    if suffix.len() == 1 {
        pool.lemma_filter_pred(ends_with_need(deps, need), 0);
        lemma_pool_get(deps, pool, sym_at(deps, suffix[0]));
    }
    if simple.len() == 1 {
        pool.lemma_filter_pred(same_simple_name(deps, need), 0);
        lemma_pool_get(deps, pool, sym_at(deps, simple[0]));
    }
}

/// A need that no pool function has as symbol (nor as concrete method symbol) and that exactly
/// one pool function's symbol ends with (after `.` or `::`) resolves to a function with that
/// symbol; when two or more end with it and no single function shares its simple name, it
/// resolves to nothing.
pub proof fn lemma_resolve_by_suffix(deps: Seq<MirModule>, pool: Seq<Position>, m: Map<Seq<char>, Seq<char>>, need: Seq<char>)
    requires
        forall|i: int| 0 <= i < pool.len() ==> sym_at(deps, #[trigger] pool[i]) != need,
        forall|i: int| 0 <= i < pool.len() ==> (concrete_need(need, m) matches Some(c) ==> sym_at(deps, #[trigger] pool[i]) != c),
    ensures
        forall|i: int| #[trigger] crate::search::only_at(pool, ends_with_need(deps, need), i)
            ==> (resolve(deps, pool, m, need) matches Some(r) && sym_at(deps, r) == sym_at(deps, pool[i])),
        (forall|i: int| !crate::search::only_at(pool, ends_with_need(deps, need), i))
            && (exists|i: int| 0 <= i < pool.len() && ends_with_simple(sym_at(deps, #[trigger] pool[i]), need))
            && (forall|i: int| !crate::search::only_at(pool, same_simple_name(deps, need), i))
            ==> resolve(deps, pool, m, need) is None,
{
    let sp = ends_with_need(deps, need);
    let tp = same_simple_name(deps, need);
    lemma_pool_get(deps, pool, need);
    if let Some(c) = concrete_need(need, m) {
        lemma_pool_get(deps, pool, c);
    }
    crate::search::lemma_filter_single(pool, sp);
    crate::search::lemma_filter_single(pool, tp);
    crate::search::lemma_filter_none(pool, sp);
    assert forall|i: int| #[trigger] crate::search::only_at(pool, sp, i) implies (resolve(deps, pool, m, need) matches Some(r)
        && sym_at(deps, r) == sym_at(deps, pool[i])) by {
        assert(suffix_matches(deps, pool, need) =~= seq![pool[i]]);
        lemma_pool_get(deps, pool, sym_at(deps, pool[i]));
        assert(pool[i] == pool[i]);
        assert(pool_get(deps, pool, sym_at(deps, pool[i])) is Some) by {
            if pool_get(deps, pool, sym_at(deps, pool[i])) is None {
                assert(sym_at(deps, pool[i]) != sym_at(deps, pool[i]));
            }
        }
    }
    if (forall|i: int| !crate::search::only_at(pool, sp, i)) && (exists|i: int| 0 <= i < pool.len() && ends_with_simple(sym_at(deps, #[trigger] pool[i]), need))
        && (forall|i: int| !crate::search::only_at(pool, tp, i)) {
        let i = choose|i: int| 0 <= i < pool.len() && ends_with_simple(sym_at(deps, #[trigger] pool[i]), need);
        assert(sp(pool[i]));
        assert(suffix_matches(deps, pool, need).len() != 0);
        assert(suffix_matches(deps, pool, need).len() != 1);
        assert(simple_matches(deps, pool, need).len() != 1);
    }
}

/// Positions held as machine integers, taken as integers.
pub open spec fn pos_view(v: Seq<(usize, usize)>) -> Seq<Position> {
    v.map_values(|p: (usize, usize)| (p.0 as int, p.1 as int))
}

/// The position of an optional pool entry.
pub open spec fn opt_pos(r: Option<(usize, usize)>) -> Option<Position> {
    match r {
        Some(p) => Some((p.0 as int, p.1 as int)),
        None => None,
    }
}

/// Every entry of `pool` is the position of a dependency function.
pub open spec fn valid_pool(deps: Seq<MirModule>, pool: Seq<(usize, usize)>) -> bool {
    forall|j: int| 0 <= j < pool.len() ==> valid_position(deps, #[trigger] pos_view(pool)[j])
}

/// The index of the pool entry with symbol `sym`.
fn pool_index(deps: &[MirModule], pool: &Vec<(usize, usize)>, sym: &str) -> (r: Option<usize>)
    requires
        valid_pool(deps@, pool@),
    ensures
        match r {
            Some(i) => i < pool@.len() && crate::search::first_index(pos_view(pool@), |p: Position| sym_at(deps@, p) == sym@) == Some(i as int),
            None => crate::search::first_index(pos_view(pool@), |p: Position| sym_at(deps@, p) == sym@) is None,
        },
{
    let ghost pv = pos_view(pool@);
    let ghost pred = |p: Position| sym_at(deps@, p) == sym@;
    let mut i: usize = 0;
    while i < pool.len()
        invariant
            pv == pos_view(pool@),
            pred == (|p: Position| sym_at(deps@, p) == sym@),
            valid_pool(deps@, pool@),
            i <= pool@.len(),
            forall|j: int| 0 <= j < i ==> !pred(#[trigger] pv[j]),
        decreases pool.len() - i,
    {
        let (d, f) = pool[i];
        assert(valid_position(deps@, pv[i as int]));
        if str_equal(deps[d].functions[f].symbol.as_str(), sym) {
            proof {
                crate::search::lemma_first_index_is(pv, pred, i as int);
            }
            return Some(i);
        }
        i = i + 1;
    }
    proof {
        crate::search::lemma_first_index_none(pv, pred);
    }
    None
}

/// The pool entry with symbol `sym` (see [`pool_get`]).
fn pool_lookup(deps: &[MirModule], pool: &Vec<(usize, usize)>, sym: &str) -> (r: Option<(usize, usize)>)
    requires
        valid_pool(deps@, pool@),
    ensures
        opt_pos(r) == pool_get(deps@, pos_view(pool@), sym@),
        r matches Some(p) ==> valid_position(deps@, (p.0 as int, p.1 as int)),
{
    match pool_index(deps, pool, sym) {
        Some(i) => {
            assert(valid_position(deps@, pos_view(pool@)[i as int]));
            Some(pool[i])
        },
        None => None,
    }
}

/// Resolves a callee symbol against the pool (see [`resolve`]).
pub fn resolve_from_pool(
    need: &str,
    deps: &[MirModule],
    pool: &Vec<(usize, usize)>,
    substitutions: &Substitutions,
) -> (r: Option<(usize, usize)>)
    requires
        valid_pool(deps@, pool@),
    ensures
        opt_pos(r) == resolve(deps@, pos_view(pool@), substitutions@, need@),
        r matches Some(p) ==> valid_position(deps@, (p.0 as int, p.1 as int)),
{
    if let Some(p) = pool_lookup(deps, pool, need) {
        return Some(p);
    }
    if let Some(concrete) = resolve_concrete_method_need(need, substitutions) {
        if let Some(p) = pool_lookup(deps, pool, concrete.as_str()) {
            return Some(p);
        }
    }
    let ghost pv = pos_view(pool@);
    let ghost suffix_pred = |p: Position| ends_with_simple(sym_at(deps@, p), need@);
    let mut suffix: Vec<usize> = Vec::new();
    let mut i: usize = 0;
    let n = pool.len();
    while i < n
        invariant
            n == pool@.len(),
            pv == pos_view(pool@),
            valid_pool(deps@, pool@),
            suffix_pred == (|p: Position| ends_with_simple(sym_at(deps@, p), need@)),
            i <= n,
            suffix@.len() == pv.take(i as int).filter(suffix_pred).len(),
            forall|k: int| 0 <= k < suffix@.len() ==> (#[trigger] suffix@[k]) < n && pv[suffix@[k] as int] == pv.take(i as int).filter(suffix_pred)[k],
        decreases n - i,
    {
        proof {
            reveal_with_fuel(Seq::<Position>::filter, 1);
            assert(pv.take(i + 1).drop_last() =~= pv.take(i as int));
        }
        let (d, f) = pool[i];
        assert(valid_position(deps@, pv[i as int]));
        if symbol_matches_need(deps[d].functions[f].symbol.as_str(), need) {
            suffix.push(i);
        }
        i = i + 1;
    }
    proof {
        assert(pv.take(n as int) =~= pv);
    }
    if suffix.len() == 1 {
        let (d, f) = pool[suffix[0]];
        assert(valid_position(deps@, pv[suffix@[0] as int]));
        return pool_lookup(deps, pool, deps[d].functions[f].symbol.as_str());
    }
    let simple = simple_symbol_name(need);
    let ghost simple_pred = |p: Position| tail_after_separator(sym_at(deps@, p)) == tail_after_separator(need@);
    let mut same: Vec<usize> = Vec::new();
    let mut i: usize = 0;
    while i < n
        invariant
            n == pool@.len(),
            pv == pos_view(pool@),
            valid_pool(deps@, pool@),
            simple@ == tail_after_separator(need@),
            simple_pred == (|p: Position| tail_after_separator(sym_at(deps@, p)) == tail_after_separator(need@)),
            i <= n,
            same@.len() == pv.take(i as int).filter(simple_pred).len(),
            forall|k: int| 0 <= k < same@.len() ==> (#[trigger] same@[k]) < n && pv[same@[k] as int] == pv.take(i as int).filter(simple_pred)[k],
        decreases n - i,
    {
        proof {
            reveal_with_fuel(Seq::<Position>::filter, 1);
            assert(pv.take(i + 1).drop_last() =~= pv.take(i as int));
        }
        let (d, f) = pool[i];
        assert(valid_position(deps@, pv[i as int]));
        let candidate = simple_symbol_name(deps[d].functions[f].symbol.as_str());
        if str_equal(candidate.as_str(), simple.as_str()) {
            same.push(i);
        }
        i = i + 1;
    }
    proof {
        assert(pv.take(n as int) =~= pv);
    }
    if same.len() == 1 {
        let (d, f) = pool[same[0]];
        assert(valid_position(deps@, pv[same@[0] as int]));
        return pool_lookup(deps, pool, deps[d].functions[f].symbol.as_str());
    }
    None
}

/// No two positions of `ps` have the same symbol.
pub open spec fn distinct_symbols(deps: Seq<MirModule>, ps: Seq<Position>) -> bool {
    forall|i: int, j: int| 0 <= i < j < ps.len() ==> sym_at(deps, #[trigger] ps[i]) != sym_at(deps, #[trigger] ps[j])
}

proof fn lemma_all_positions_step(deps: Seq<MirModule>, d: int)
    requires
        0 <= d < deps.len(),
    ensures
        all_positions(deps.take(d + 1)) == all_positions(deps.take(d)) + dep_row(d, deps[d].functions@.len() as int),
{
    assert(deps.take(d + 1).drop_last() =~= deps.take(d));
}

/// Builds the dependency pool (see [`build_pool`]).
fn build_dependency_pool(deps: &[MirModule]) -> (pool: Vec<(usize, usize)>)
    ensures
        pos_view(pool@) == build_pool(deps@),
        valid_pool(deps@, pool@),
        distinct_symbols(deps@, pos_view(pool@)),
{
    let mut pool: Vec<(usize, usize)> = Vec::new();
    let mut d: usize = 0;
    assert(deps@.take(0) =~= Seq::<MirModule>::empty());
    assert(pos_view(pool@) =~= Seq::<Position>::empty());
    while d < deps.len()
        invariant
            d <= deps@.len(),
            pos_view(pool@) == first_occurrences(deps@, all_positions(deps@.take(d as int))),
            valid_pool(deps@, pool@),
            distinct_symbols(deps@, pos_view(pool@)),
        decreases deps.len() - d,
    {
        let ghost base = all_positions(deps@.take(d as int));
        let n = deps[d].functions.len();
        let mut f: usize = 0;
        assert(base + dep_row(d as int, 0) =~= base);
        while f < n
            invariant
                d < deps@.len(),
                n == deps@[d as int].functions@.len(),
                base == all_positions(deps@.take(d as int)),
                f <= n,
                pos_view(pool@) == first_occurrences(deps@, base + dep_row(d as int, f as int)),
                valid_pool(deps@, pool@),
                distinct_symbols(deps@, pos_view(pool@)),
            decreases n - f,
        {
            let ghost ps = base + dep_row(d as int, f as int + 1);
            let ghost prev = pos_view(pool@);
            proof {
                assert(ps.drop_last() =~= base + dep_row(d as int, f as int));
                assert(ps.last() == (d as int, f as int));
                crate::search::lemma_first_index(prev, |p: Position| sym_at(deps@, p) == sym_at(deps@, ps.last()));
            }
            let present = pool_index(deps, &pool, deps[d].functions[f].symbol.as_str());
            if present.is_none() {
                pool.push((d, f));
                proof {
                    assert(pos_view(pool@) =~= prev.push((d as int, f as int)));
                    assert(!has_symbol(deps@, prev, sym_at(deps@, ps.last())));
                }
            } else {
                proof {
                    let i = present->0;
                    assert(sym_at(deps@, prev[i as int]) == sym_at(deps@, ps.last()));
                    assert(has_symbol(deps@, prev, sym_at(deps@, ps.last())));
                }
            }
            f = f + 1;
        }
        proof {
            assert(dep_row(d as int, n as int) == dep_row(d as int, deps@[d as int].functions@.len() as int));
            lemma_all_positions_step(deps@, d as int);
        }
        d = d + 1;
    }
    proof {
        assert(deps@.take(deps@.len() as int) =~= deps@);
    }
    pool
}

/// The pool entry of a symbol that some entry of a pool with distinct symbols has is that entry.
proof fn lemma_pool_get_distinct(deps: Seq<MirModule>, pool: Seq<Position>, i: int)
    requires
        distinct_symbols(deps, pool),
        0 <= i < pool.len(),
    ensures
        pool_get(deps, pool, sym_at(deps, pool[i])) == Some(pool[i]),
{
    let pred = |p: Position| sym_at(deps, p) == sym_at(deps, pool[i]);
    crate::search::lemma_first_index(pool, pred);
    let k = crate::search::first_index(pool, pred)->0;
    if k < i {
        assert(sym_at(deps, pool[k]) != sym_at(deps, pool[i]));
    }
}

/// What `pool_get` finds is an entry of the pool.
proof fn lemma_pool_get_in_pool(deps: Seq<MirModule>, pool: Seq<Position>, sym: Seq<char>)
    ensures
        pool_get(deps, pool, sym) matches Some(p) ==> exists|i: int| 0 <= i < pool.len() && pool[i] == p,
{
    let pred = |p: Position| sym_at(deps, p) == sym;
    crate::search::lemma_first_index(pool, pred);
    if let Some(i) = crate::search::first_index(pool, pred) {
        assert(pool[i] == pool[i]);
    }
}

/// What `resolve` finds is an entry of the pool.
proof fn lemma_resolve_in_pool(deps: Seq<MirModule>, pool: Seq<Position>, m: Map<Seq<char>, Seq<char>>, need: Seq<char>)
    ensures
        resolve(deps, pool, m, need) matches Some(p) ==> exists|i: int| 0 <= i < pool.len() && pool[i] == p,
{
    lemma_pool_get_in_pool(deps, pool, need);
    if let Some(c) = concrete_need(need, m) {
        lemma_pool_get_in_pool(deps, pool, c);
    }
    let suffix = suffix_matches(deps, pool, need);
    if suffix.len() == 1 {
        lemma_pool_get_in_pool(deps, pool, sym_at(deps, suffix[0]));
    }
    let simple = simple_matches(deps, pool, need);
    if simple.len() == 1 {
        lemma_pool_get_in_pool(deps, pool, sym_at(deps, simple[0]));
    }
}

/// A sequence of distinct integers in `[0, n)` has at most `n` elements.
proof fn lemma_distinct_indices_bounded(s: Seq<int>, n: int)
    requires
        0 <= n,
        s.no_duplicates(),
        forall|i: int| 0 <= i < s.len() ==> 0 <= #[trigger] s[i] < n,
    ensures
        s.len() <= n,
{
    s.unique_seq_to_set();
    vstd::set_lib::lemma_int_range(0, n);
    assert(s.to_set().subset_of(vstd::set_lib::set_int_range(0, n)));
    vstd::set_lib::lemma_len_subset(s.to_set(), vstd::set_lib::set_int_range(0, n));
}

// ---------------------------------------------------------------- linking

/// The symbols of functions.
pub open spec fn fsyms(fs: Seq<MirFunction>) -> Seq<Seq<char>> {
    fs.map_values(|f: MirFunction| f.symbol@)
}

/// A callee is settled against the local symbols when one of them provides it, when the pool
/// cannot resolve it, or when the function it resolves to is local.
pub open spec fn settled(deps: Seq<MirModule>, pool: Seq<Position>, m: Map<Seq<char>, Seq<char>>, local: Seq<Seq<char>>, c: Seq<char>) -> bool {
    satisfied(c, local) || match resolve(deps, pool, m, c) {
        None => true,
        Some(p) => local.contains(sym_at(deps, p)),
    }
}

/// The form a pool function takes once linked: type-parameter calls rewritten, then bare
/// unwrap calls.
pub open spec fn linked_form(f: FunctionModel, m: Map<Seq<char>, Seq<char>>) -> FunctionModel {
    unwrap_rounds(tp_rewrite(f, m), 4)
}

/// The model of the dependency function at `p`.
pub open spec fn dep_model(deps: Seq<MirModule>, p: Position) -> FunctionModel {
    deps[p.0].functions@[p.1].model()
}

/// `f` is the linked form of a pool function.
pub open spec fn from_pool(deps: Seq<MirModule>, pool: Seq<Position>, m: Map<Seq<char>, Seq<char>>, f: MirFunction) -> bool {
    exists|j: int| 0 <= j < pool.len() && f.model() == linked_form(#[trigger] dep_model(deps, pool[j]), m)
}

/// How many functions were local when the callees of `fs[j]` were queued: the consumer's own
/// `n0` functions for one of them, and every function up to `fs[j]` for a linked one.
pub open spec fn queued_bound(n0: int, j: int) -> int {
    if j < n0 {
        n0
    } else {
        j + 1
    }
}

/// `fs[k]` is what a callee of an earlier function resolves to, a callee that no local symbol
/// satisfied when it was queued.
pub open spec fn reached(deps: Seq<MirModule>, pool: Seq<Position>, m: Map<Seq<char>, Seq<char>>, fs: Seq<MirFunction>, n0: int, k: int) -> bool {
    exists|j: int, ci: int|
        {
            &&& 0 <= j < k
            &&& 0 <= ci < callees(fs[j].model()).len()
            &&& !satisfied(callees(fs[j].model())[ci], fsyms(fs.take(queued_bound(n0, j))))
            &&& #[trigger] resolve(deps, pool, m, callees(fs[j].model())[ci]) matches Some(p)
            &&& sym_at(deps, p) == fs[k].symbol@
        }
}

/// Every callee of every function is settled.
pub open spec fn closed_under_calls(deps: Seq<MirModule>, pool: Seq<Position>, m: Map<Seq<char>, Seq<char>>, fs: Seq<MirFunction>) -> bool {
    forall|j: int, ci: int|
        0 <= j < fs.len() && 0 <= ci < callees(fs[j].model()).len() ==> settled(
            deps,
            pool,
            m,
            fsyms(fs),
            #[trigger] callees(fs[j].model())[ci],
        )
}

/// What linking does to the functions `old_fs` of a consumer, giving `fs`: the old functions
/// stay as they were, in front; each added function is the linked form of a pool function, has
/// a symbol no function before it has, and is what a callee of an earlier function resolves to,
/// one that no local symbol satisfied when it was queued; and every callee of every function is
/// settled.
pub open spec fn linked_functions(deps: Seq<MirModule>, old_fs: Seq<MirFunction>, fs: Seq<MirFunction>) -> bool {
    let n0 = old_fs.len();
    let pool = build_pool(deps);
    let m = infer_substitutions(function_models(old_fs));
    &&& n0 <= fs.len()
    &&& forall|i: int| 0 <= i < n0 ==> fs[i] == old_fs[i]
    &&& forall|k: int| n0 <= k < fs.len() ==> from_pool(deps, pool, m, #[trigger] fs[k])
    &&& forall|k: int| n0 <= k < fs.len() ==> !fsyms(fs.take(k)).contains(#[trigger] fs[k].symbol@)
    &&& forall|k: int| n0 <= k < fs.len() ==> #[trigger] reached(deps, pool, m, fs, n0 as int, k)
    &&& closed_under_calls(deps, pool, m, fs)
}

/// Dependency `d` provides the pool entry of one of the functions of `fs` from `n0` on.
pub open spec fn contributed(deps: Seq<MirModule>, pool: Seq<Position>, n0: int, fs: Seq<MirFunction>, d: int) -> bool {
    exists|k: int|
        {
            &&& n0 <= k < fs.len()
            &&& #[trigger] pool_get(deps, pool, fs[k].symbol@) matches Some(p)
            &&& p.0 == d
        }
}

/// `r` lists, in increasing order, the dependencies that an added function comes from.
pub open spec fn contributing_deps(deps: Seq<MirModule>, n0: int, fs: Seq<MirFunction>, r: Seq<usize>) -> bool {
    &&& forall|i: int, j: int| 0 <= i < j < r.len() ==> r[i] < r[j]
    &&& forall|d: usize| r.contains(d) <==> #[trigger] contributed(deps, build_pool(deps), n0, fs, d as int)
}

// ---------------------------------------------------------------- supporting types

/// Some sum in `s` is named `name`.
pub open spec fn has_sum_named(s: Seq<SumTypeModel>, name: Seq<char>) -> bool {
    exists|i: int| 0 <= i < s.len() && (#[trigger] s[i]).name == name
}

/// `cur` followed by each sum of `add` whose name is not taken yet.
pub open spec fn merge_sums(cur: Seq<SumTypeModel>, add: Seq<SumTypeModel>) -> Seq<SumTypeModel>
    decreases add.len(),
{
    if add.len() == 0 {
        cur
    } else {
        let prev = merge_sums(cur, add.drop_last());
        if has_sum_named(prev, add.last().name) {
            prev
        } else {
            prev.push(add.last())
        }
    }
}

/// The sums after merging in those of the listed dependencies, in order.
pub open spec fn merge_dep_sums(cur: Seq<SumTypeModel>, deps: Seq<MirModule>, ds: Seq<usize>) -> Seq<SumTypeModel>
    decreases ds.len(),
{
    if ds.len() == 0 {
        cur
    } else {
        merge_sums(merge_dep_sums(cur, deps, ds.drop_last()), sum_models(deps[ds.last() as int].sum_types@))
    }
}

/// Some struct in `s` is named `name`.
pub open spec fn has_struct_named(s: Seq<StructModel>, name: Seq<char>) -> bool {
    exists|i: int| 0 <= i < s.len() && (#[trigger] s[i]).name == name
}

/// `cur` followed by each struct of `add` whose name is not taken yet.
pub open spec fn merge_structs(cur: Seq<StructModel>, add: Seq<StructModel>) -> Seq<StructModel>
    decreases add.len(),
{
    if add.len() == 0 {
        cur
    } else {
        let prev = merge_structs(cur, add.drop_last());
        if has_struct_named(prev, add.last().name) {
            prev
        } else {
            prev.push(add.last())
        }
    }
}

/// The structs after merging in those of the listed dependencies, in order.
pub open spec fn merge_dep_structs(cur: Seq<StructModel>, deps: Seq<MirModule>, ds: Seq<usize>) -> Seq<StructModel>
    decreases ds.len(),
{
    if ds.len() == 0 {
        cur
    } else {
        merge_structs(merge_dep_structs(cur, deps, ds.drop_last()), struct_models(deps[ds.last() as int].structs@))
    }
}

fn merge_sum_types(into: &mut Vec<SumTypeLayout>, from: &Vec<SumTypeLayout>)
    ensures
        sum_models(final(into)@) == merge_sums(sum_models(old(into)@), sum_models(from@)),
{
    let ghost cur = sum_models(into@);
    let ghost add = sum_models(from@);
    let mut i: usize = 0;
    assert(add.take(0) =~= Seq::<SumTypeModel>::empty());
    while i < from.len()
        invariant
            cur == sum_models(old(into)@),
            add == sum_models(from@),
            i <= from@.len(),
            sum_models(into@) == merge_sums(cur, add.take(i as int)),
        decreases from.len() - i,
    {
        proof {
            assert(add.take(i + 1).drop_last() =~= add.take(i as int));
        }
        let ghost prev = sum_models(into@);
        let mut found = false;
        let mut k: usize = 0;
        while k < into.len()
            invariant
                prev == sum_models(into@),
                k <= into@.len(),
                i < from@.len(),
                found == exists|j: int| 0 <= j < k && (#[trigger] prev[j]).name == from@[i as int].name@,
            decreases into.len() - k,
        {
            assert(prev[k as int].name == into@[k as int].name@);
            if str_equal(into[k].name.as_str(), from[i].name.as_str()) {
                found = true;
            }
            k = k + 1;
        }
        if !found {
            let copied = crate::layout::copy_sum_layout(&from[i]);
            into.push(copied);
            assert(sum_models(into@) =~= prev.push(add[i as int]));
        }
        i = i + 1;
    }
    assert(add.take(from@.len() as int) =~= add);
}

fn merge_struct_list(into: &mut Vec<MirStruct>, from: &Vec<MirStruct>)
    ensures
        struct_models(final(into)@) == merge_structs(struct_models(old(into)@), struct_models(from@)),
{
    let ghost cur = struct_models(into@);
    let ghost add = struct_models(from@);
    let mut i: usize = 0;
    assert(add.take(0) =~= Seq::<StructModel>::empty());
    while i < from.len()
        invariant
            cur == struct_models(old(into)@),
            add == struct_models(from@),
            i <= from@.len(),
            struct_models(into@) == merge_structs(cur, add.take(i as int)),
        decreases from.len() - i,
    {
        proof {
            assert(add.take(i + 1).drop_last() =~= add.take(i as int));
        }
        let ghost prev = struct_models(into@);
        let mut found = false;
        let mut k: usize = 0;
        while k < into.len()
            invariant
                prev == struct_models(into@),
                k <= into@.len(),
                i < from@.len(),
                found == exists|j: int| 0 <= j < k && (#[trigger] prev[j]).name == from@[i as int].name@,
            decreases into.len() - k,
        {
            assert(prev[k as int].name == into@[k as int].name@);
            if str_equal(into[k].name.as_str(), from[i].name.as_str()) {
                found = true;
            }
            k = k + 1;
        }
        if !found {
            let copied = crate::mir::copy_struct(&from[i]);
            into.push(copied);
            assert(struct_models(into@) =~= prev.push(add[i as int]));
        }
        i = i + 1;
    }
    assert(add.take(from@.len() as int) =~= add);
}

// ---------------------------------------------------------------- the worklist

/// Some queue entry at or after `head` is `c`.
pub open spec fn pending(queue: Seq<String>, head: int, c: Seq<char>) -> bool {
    exists|q: int| head <= q < queue.len() && (#[trigger] queue[q])@ == c
}

/// `c` is a callee of one of the functions that no local symbol satisfied when it was queued.
pub open spec fn is_callee_of(fs: Seq<MirFunction>, n0: int, c: Seq<char>) -> bool {
    exists|j: int, ci: int|
        0 <= j < fs.len() && 0 <= ci < callees(fs[j].model()).len() && #[trigger] callees(fs[j].model())[ci] == c
            && !satisfied(c, fsyms(fs.take(queued_bound(n0, j))))
}

/// Every queue entry is such a callee.
pub open spec fn queue_sourced(fs: Seq<MirFunction>, n0: int, queue: Seq<String>) -> bool {
    forall|q: int| 0 <= q < queue.len() ==> is_callee_of(fs, n0, (#[trigger] queue[q])@)
}

/// Whether `sym` is among the local symbols.
fn contains_symbol(local: &Vec<String>, sym: &str) -> (r: bool)
    ensures
        r == views(local@).contains(sym@),
{
    let mut i: usize = 0;
    while i < local.len()
        invariant
            i <= local@.len(),
            forall|j: int| 0 <= j < i ==> views(local@)[j] != sym@,
        decreases local.len() - i,
    {
        assert(views(local@)[i as int] == local@[i as int]@);
        if str_equal(local[i].as_str(), sym) {
            return true;
        }
        i = i + 1;
    }
    false
}

/// The callees among `cs` that the local symbols do not provide, in order.
pub open spec fn unsatisfied(cs: Seq<Seq<char>>, local: Seq<Seq<char>>) -> Seq<Seq<char>> {
    cs.filter(|c: Seq<char>| !satisfied(c, local))
}

/// The needs that linking queues for the first `count` functions of `fs`, in order: for each
/// function, its callees that the local symbols did not provide when it was queued (those of
/// all `n0` consumer functions for a consumer function; for a linked function, those of the
/// functions up to and including it).
pub open spec fn requests(fs: Seq<MirFunction>, n0: int, count: int) -> Seq<Seq<char>>
    decreases count,
{
    if count <= 0 {
        Seq::empty()
    } else {
        requests(fs, n0, count - 1) + unsatisfied(
            callees(fs[count - 1].model()),
            fsyms(fs.take(queued_bound(n0, count - 1))),
        )
    }
}

/// Needs whose resolution is a function with symbol `sym`.
pub open spec fn requesting(deps: Seq<MirModule>, pool: Seq<Position>, m: Map<Seq<char>, Seq<char>>, sym: Seq<char>) -> spec_fn(Seq<char>) -> bool {
    |c: Seq<char>| requests_symbol(deps, pool, m, c, sym)
}

/// The need `c` resolves to a function with symbol `sym`.
pub open spec fn requests_symbol(deps: Seq<MirModule>, pool: Seq<Position>, m: Map<Seq<char>, Seq<char>>, c: Seq<char>, sym: Seq<char>) -> bool {
    resolve(deps, pool, m, c) matches Some(p) && sym_at(deps, p) == sym
}

/// The worklist's order bookkeeping: the queue holds exactly the needs queued so far; the
/// function added `t`-th was linked by the need at `lq[t]`, positions increasing and processed;
/// every processed need resolves to nothing or to a function present, and no processed need
/// before `lq[t]` asks for the function added `t`-th.
spec fn order_inv(
    deps: Seq<MirModule>,
    pv: Seq<Position>,
    m: Map<Seq<char>, Seq<char>>,
    fs: Seq<MirFunction>,
    n0: int,
    qv: Seq<Seq<char>>,
    head: int,
    lq: Seq<int>,
) -> bool {
    &&& 0 <= n0 <= fs.len()
    &&& 0 <= head <= qv.len()
    &&& qv == requests(fs, n0, fs.len() as int)
    &&& lq.len() == fs.len() - n0
    &&& forall|t: int| 0 <= t < lq.len() ==> 0 <= #[trigger] lq[t] < head
    &&& forall|t1: int, t2: int| 0 <= t1 < t2 < lq.len() ==> #[trigger] lq[t1] < #[trigger] lq[t2]
    &&& forall|t: int| 0 <= t < lq.len() ==> requests_symbol(deps, pv, m, qv[#[trigger] lq[t]], fs[n0 + t].symbol@)
    &&& forall|q: int|
        0 <= q < head ==> (resolve(deps, pv, m, #[trigger] qv[q]) matches Some(p) ==> fsyms(fs).contains(sym_at(deps, p)))
    &&& forall|q: int, t: int|
        #![trigger qv[q], lq[t]]
        0 <= q < head && 0 <= t < lq.len() && requests_symbol(deps, pv, m, qv[q], fs[n0 + t].symbol@) ==> lq[t] <= q
}

/// Processing a need that links nothing keeps the order bookkeeping.
proof fn lemma_order_skip(
    deps: Seq<MirModule>,
    pv: Seq<Position>,
    m: Map<Seq<char>, Seq<char>>,
    fs: Seq<MirFunction>,
    n0: int,
    qv: Seq<Seq<char>>,
    head: int,
    lq: Seq<int>,
)
    requires
        order_inv(deps, pv, m, fs, n0, qv, head, lq),
        head < qv.len(),
        resolve(deps, pv, m, qv[head]) matches Some(p) ==> fsyms(fs).contains(sym_at(deps, p)),
    ensures
        order_inv(deps, pv, m, fs, n0, qv, head + 1, lq),
{
}

/// Processing a need that links a new function keeps the order bookkeeping, recording the
/// need's position for it.
proof fn lemma_order_link(
    deps: Seq<MirModule>,
    pv: Seq<Position>,
    m: Map<Seq<char>, Seq<char>>,
    fs: Seq<MirFunction>,
    fs2: Seq<MirFunction>,
    n0: int,
    qv: Seq<Seq<char>>,
    qv2: Seq<Seq<char>>,
    head: int,
    lq: Seq<int>,
)
    requires
        order_inv(deps, pv, m, fs, n0, qv, head, lq),
        head < qv.len(),
        fs2.len() == fs.len() + 1,
        forall|i: int| 0 <= i < fs.len() ==> fs2[i] == fs[i],
        requests_symbol(deps, pv, m, qv[head], fs2.last().symbol@),
        !fsyms(fs).contains(fs2.last().symbol@),
        qv2 == qv + unsatisfied(callees(fs2.last().model()), fsyms(fs2)),
    ensures
        order_inv(deps, pv, m, fs2, n0, qv2, head + 1, lq.push(head)),
{
    let lq2 = lq.push(head);
    lemma_requests_prefix(fs, fs2, n0, fs.len() as int);
    assert(fs2.take(queued_bound(n0, fs.len() as int)) =~= fs2);
    assert(fs2[fs.len() as int] == fs2.last());
    assert(requests(fs2, n0, fs2.len() as int) == qv2);
    assert forall|q: int| 0 <= q <= head implies qv2[q] == qv[q] by {}
    assert(fs2.last() == fs2[n0 + lq.len()]);
    assert forall|t: int| 0 <= t < lq2.len() implies requests_symbol(deps, pv, m, qv2[#[trigger] lq2[t]], fs2[n0 + t].symbol@) by {
        if t < lq.len() {
            assert(fs2[n0 + t] == fs[n0 + t]);
        }
    }
    assert forall|q: int| 0 <= q < head + 1 implies (resolve(deps, pv, m, #[trigger] qv2[q]) matches Some(p) ==> fsyms(fs2).contains(sym_at(deps, p))) by {
        if let Some(p) = resolve(deps, pv, m, qv2[q]) {
            if q < head {
                let i = choose|i: int| 0 <= i < fsyms(fs).len() && fsyms(fs)[i] == sym_at(deps, p);
                assert(fsyms(fs2)[i] == fsyms(fs)[i]);
            } else {
                assert(fsyms(fs2)[fs.len() as int] == fs2.last().symbol@);
            }
        }
    }
    assert forall|q: int, t: int|
        #![trigger qv2[q], lq2[t]]
        0 <= q < head + 1 && 0 <= t < lq2.len() && requests_symbol(deps, pv, m, qv2[q], fs2[n0 + t].symbol@) implies lq2[t]
            <= q by {
        if t < lq.len() {
            assert(fs2[n0 + t] == fs[n0 + t]);
            if q == head {
                assert(fsyms(fs)[n0 + t] == fs[n0 + t].symbol@);
            }
        } else {
            if q < head {
                let p = resolve(deps, pv, m, qv[q])->0;
                let i = choose|i: int| 0 <= i < fsyms(fs).len() && fsyms(fs)[i] == sym_at(deps, p);
                assert(fsyms(fs).contains(fs2.last().symbol@));
            }
        }
    }
}

/// With every queued need processed, the functions were added in the order in which the needs
/// first ask for them.
proof fn lemma_order_done(
    deps: Seq<MirModule>,
    old_fs: Seq<MirFunction>,
    fs: Seq<MirFunction>,
    qv: Seq<Seq<char>>,
    lq: Seq<int>,
)
    requires
        order_inv(deps, build_pool(deps), infer_substitutions(function_models(old_fs)), fs, old_fs.len() as int, qv, qv.len() as int, lq),
    ensures
        linked_in_request_order(deps, old_fs, fs),
{
    let pv = build_pool(deps);
    let m = infer_substitutions(function_models(old_fs));
    let n0 = old_fs.len() as int;
    assert forall|k: int| n0 <= k < fs.len() implies #[trigger] first_request(deps, old_fs, fs, k) == Some(lq[k - n0]) by {
        let pred = requesting(deps, pv, m, fs[k].symbol@);
        assert(fs[n0 + (k - n0)] == fs[k]);
        assert(pred(qv[lq[k - n0]]));
        assert forall|j: int| 0 <= j < lq[k - n0] implies !pred(#[trigger] qv[j]) by {
            if pred(qv[j]) {
                assert(requests_symbol(deps, pv, m, qv[j], fs[n0 + (k - n0)].symbol@));
            }
        }
        crate::search::lemma_first_index_is(qv, pred, lq[k - n0]);
    }
    assert forall|k1: int, k2: int|
        n0 <= k1 < k2 < fs.len() implies #[trigger] first_request(deps, old_fs, fs, k1)->0 < #[trigger] first_request(
            deps,
            old_fs,
            fs,
            k2,
        )->0 by {
        assert(lq[k1 - n0] < lq[k2 - n0]);
    }
}

/// The position, among all needs linking queued for `fs`, of the first one resolving to the
/// function at `k`.
pub open spec fn first_request(deps: Seq<MirModule>, old_fs: Seq<MirFunction>, fs: Seq<MirFunction>, k: int) -> Option<int> {
    crate::search::first_index(
        requests(fs, old_fs.len() as int, fs.len() as int),
        requesting(deps, build_pool(deps), infer_substitutions(function_models(old_fs)), fs[k].symbol@),
    )
}

/// Linking order: the functions added to `old_fs` come in the order in which the queued needs
/// first ask for them (breadth first: the needs of each function in turn, in callee order).
pub open spec fn linked_in_request_order(deps: Seq<MirModule>, old_fs: Seq<MirFunction>, fs: Seq<MirFunction>) -> bool {
    &&& forall|k: int| old_fs.len() <= k < fs.len() ==> #[trigger] first_request(deps, old_fs, fs, k) is Some
    &&& forall|k1: int, k2: int|
        old_fs.len() <= k1 < k2 < fs.len() ==> #[trigger] first_request(deps, old_fs, fs, k1)->0 < #[trigger] first_request(
            deps,
            old_fs,
            fs,
            k2,
        )->0
}

/// The needs queued for the first `count` functions do not change when functions are appended.
proof fn lemma_requests_prefix(fs: Seq<MirFunction>, fs2: Seq<MirFunction>, n0: int, count: int)
    requires
        0 <= n0 <= fs.len(),
        count <= fs.len(),
        fs.len() <= fs2.len(),
        forall|i: int| 0 <= i < fs.len() ==> fs2[i] == fs[i],
    ensures
        requests(fs2, n0, count) == requests(fs, n0, count),
    decreases count,
{
    if count > 0 {
        lemma_requests_prefix(fs, fs2, n0, count - 1);
        let b = queued_bound(n0, count - 1);
        assert(fs2.take(b) =~= fs.take(b));
    }
}

/// Appends to `queue`, in order, each callee that the local symbols do not satisfy.
fn enqueue_unsatisfied(queue: &mut Vec<String>, callees: &Vec<String>, local: &Vec<String>)
    ensures
        old(queue)@.len() <= final(queue)@.len(),
        forall|q: int| 0 <= q < old(queue)@.len() ==> final(queue)@[q] == old(queue)@[q],
        forall|q: int| old(queue)@.len() <= q < final(queue)@.len() ==> views(callees@).contains(#[trigger] final(queue)@[q]@),
        forall|q: int| old(queue)@.len() <= q < final(queue)@.len() ==> !satisfied(#[trigger] final(queue)@[q]@, views(local@)),
        forall|ci: int|
            0 <= ci < callees@.len() ==> satisfied(#[trigger] callees@[ci]@, views(local@)) || pending(
                final(queue)@,
                old(queue)@.len() as int,
                callees@[ci]@,
            ),
        views(final(queue)@) == views(old(queue)@) + unsatisfied(views(callees@), views(local@)),
{
    let ghost start = queue@.len() as int;
    let ghost pred = |c: Seq<char>| !satisfied(c, views(local@));
    let mut i: usize = 0;
    while i < callees.len()
        invariant
            start == old(queue)@.len(),
            i <= callees@.len(),
            start <= queue@.len(),
            forall|q: int| 0 <= q < start ==> queue@[q] == old(queue)@[q],
            forall|q: int| start <= q < queue@.len() ==> views(callees@).contains(#[trigger] queue@[q]@),
            forall|q: int| start <= q < queue@.len() ==> !satisfied(#[trigger] queue@[q]@, views(local@)),
            forall|ci: int|
                0 <= ci < i ==> satisfied(#[trigger] callees@[ci]@, views(local@)) || pending(queue@, start, callees@[ci]@),
            pred == (|c: Seq<char>| !satisfied(c, views(local@))),
            views(queue@) == views(old(queue)@) + views(callees@).take(i as int).filter(pred),
        decreases callees.len() - i,
    {
        assert(views(callees@)[i as int] == callees@[i as int]@);
        proof {
            reveal_with_fuel(Seq::<Seq<char>>::filter, 1);
            assert(views(callees@).take(i + 1).drop_last() =~= views(callees@).take(i as int));
            assert(views(callees@).take(i + 1).last() == callees@[i as int]@);
        }
        let ghost vq = views(queue@);
        if !symbol_satisfied(callees[i].as_str(), local) {
            let ghost before = queue@;
            queue.push(owned(callees[i].as_str()));
            assert(queue@[queue@.len() - 1]@ == callees@[i as int]@);
            assert(views(queue@) =~= vq.push(callees@[i as int]@));
            assert forall|ci: int|
                0 <= ci < i && pending(before, start, #[trigger] callees@[ci]@) implies pending(queue@, start, callees@[ci]@) by {
                let q = choose|q: int| start <= q < before.len() && (#[trigger] before[q])@ == callees@[ci]@;
                assert(queue@[q] == before[q]);
            }
        }
        i = i + 1;
    }
    assert(views(callees@).take(callees@.len() as int) =~= views(callees@));
}

proof fn lemma_unwrap_rounds_symbol(f: FunctionModel, n: nat)
    ensures
        unwrap_rounds(f, n).symbol == f.symbol,
    decreases n,
{
    if n > 0 {
        let (g, c) = unwrap_once(f);
        if c {
            lemma_unwrap_rounds_symbol(g, (n - 1) as nat);
        }
    }
}

proof fn lemma_settled_mono(
    deps: Seq<MirModule>,
    pool: Seq<Position>,
    m: Map<Seq<char>, Seq<char>>,
    local: Seq<Seq<char>>,
    local2: Seq<Seq<char>>,
    c: Seq<char>,
)
    requires
        settled(deps, pool, m, local, c),
        local.len() <= local2.len(),
        forall|i: int| 0 <= i < local.len() ==> local2[i] == local[i],
    ensures
        settled(deps, pool, m, local2, c),
{
    if satisfied(c, local) {
        let i = choose|i: int|
            0 <= i < local.len() && (#[trigger] local[i] == c || ends_with_simple(local[i], c) || ends_with_simple(
                c,
                local[i],
            ));
        assert(local2[i] == local[i]);
    } else if let Some(p) = resolve(deps, pool, m, c) {
        let i = choose|i: int| 0 <= i < local.len() && local[i] == sym_at(deps, p);
        assert(local2[i] == local[i]);
    }
}

proof fn lemma_pending_step(queue: Seq<String>, queue2: Seq<String>, head: int, c: Seq<char>)
    requires
        pending(queue, head, c),
        0 <= head < queue.len(),
        queue.len() <= queue2.len(),
        forall|q: int| 0 <= q < queue.len() ==> queue2[q] == queue[q],
    ensures
        queue[head]@ == c || pending(queue2, head + 1, c),
{
    let q = choose|q: int| head <= q < queue.len() && (#[trigger] queue[q])@ == c;
    if q > head {
        assert(queue2[q] == queue[q]);
    }
}

proof fn lemma_reached_extend(
    deps: Seq<MirModule>,
    pool: Seq<Position>,
    m: Map<Seq<char>, Seq<char>>,
    fs: Seq<MirFunction>,
    n0: int,
    x: MirFunction,
    k: int,
)
    requires
        reached(deps, pool, m, fs, n0, k),
        0 <= n0 <= k < fs.len(),
    ensures
        reached(deps, pool, m, fs.push(x), n0, k),
{
    let (j, ci) = choose|j: int, ci: int|
        {
            &&& 0 <= j < k
            &&& 0 <= ci < callees(fs[j].model()).len()
            &&& !satisfied(callees(fs[j].model())[ci], fsyms(fs.take(queued_bound(n0, j))))
            &&& #[trigger] resolve(deps, pool, m, callees(fs[j].model())[ci]) matches Some(p)
            &&& sym_at(deps, p) == fs[k].symbol@
        };
    assert(fs.push(x)[j] == fs[j]);
    assert(fs.push(x)[k] == fs[k]);
    assert(fs.push(x).take(queued_bound(n0, j)) =~= fs.take(queued_bound(n0, j)));
}

proof fn lemma_is_callee_extend(fs: Seq<MirFunction>, n0: int, fs2: Seq<MirFunction>, c: Seq<char>)
    requires
        is_callee_of(fs, n0, c),
        0 <= n0 <= fs.len() <= fs2.len(),
        forall|i: int| 0 <= i < fs.len() ==> fs2[i] == fs[i],
    ensures
        is_callee_of(fs2, n0, c),
{
    let (j, ci) = choose|j: int, ci: int|
        0 <= j < fs.len() && 0 <= ci < callees(fs[j].model()).len() && #[trigger] callees(fs[j].model())[ci] == c
            && !satisfied(c, fsyms(fs.take(queued_bound(n0, j))));
    assert(fs2[j] == fs[j]);
    assert(callees(fs2[j].model())[ci] == c);
    assert(fs2.take(queued_bound(n0, j)) =~= fs.take(queued_bound(n0, j)));
}

proof fn lemma_queue_sourced_extend(fs: Seq<MirFunction>, n0: int, queue: Seq<String>, fs2: Seq<MirFunction>, queue2: Seq<String>)
    requires
        queue_sourced(fs, n0, queue),
        0 <= n0 <= fs.len() <= fs2.len(),
        forall|i: int| 0 <= i < fs.len() ==> fs2[i] == fs[i],
        queue.len() <= queue2.len(),
        forall|q: int| 0 <= q < queue.len() ==> queue2[q] == queue[q],
        forall|q: int| queue.len() <= q < queue2.len() ==> is_callee_of(fs2, n0, (#[trigger] queue2[q])@),
    ensures
        queue_sourced(fs2, n0, queue2),
{
    assert forall|q: int| 0 <= q < queue2.len() implies is_callee_of(fs2, n0, (#[trigger] queue2[q])@) by {
        if q < queue.len() {
            assert(queue2[q] == queue[q]);
            lemma_is_callee_extend(fs, n0, fs2, queue[q]@);
        }
    }
}

/// The symbols of the functions, in order.
fn local_symbols(functions: &Vec<MirFunction>) -> (r: Vec<String>)
    ensures
        views(r@) == fsyms(functions@),
{
    let mut local: Vec<String> = Vec::new();
    let mut i: usize = 0;
    assert(fsyms(functions@.take(0)) =~= views(local@));
    while i < functions.len()
        invariant
            i <= functions@.len(),
            views(local@) == fsyms(functions@.take(i as int)),
        decreases functions.len() - i,
    {
        let ghost before = local@;
        local.push(owned(functions[i].symbol.as_str()));
        proof {
            assert(local@ =~= before.push(local@.last()));
            assert(views(local@) =~= views(before).push(functions@[i as int].symbol@));
            assert(functions@.take(i + 1) =~= functions@.take(i as int).push(functions@[i as int]));
            assert(fsyms(functions@.take(i + 1)) =~= fsyms(functions@.take(i as int)).push(functions@[i as int].symbol@));
        }
        i = i + 1;
    }
    assert(functions@.take(functions@.len() as int) =~= functions@);
    local
}

/// The callees of the functions that the local symbols do not satisfy, in order.
fn seed_queue(functions: &Vec<MirFunction>, local: &Vec<String>) -> (queue: Vec<String>)
    requires
        views(local@) == fsyms(functions@),
    ensures
        views(queue@) == requests(functions@, functions@.len() as int, functions@.len() as int),
        queue_sourced(functions@, functions@.len() as int, queue@),
        forall|j: int, ci: int|
            0 <= j < functions@.len() && 0 <= ci < callees(functions@[j].model()).len() ==> satisfied(
                #[trigger] callees(functions@[j].model())[ci],
                fsyms(functions@),
            ) || pending(queue@, 0, callees(functions@[j].model())[ci]),
{
    let ghost fs = functions@;
    let mut queue: Vec<String> = Vec::new();
    let mut i: usize = 0;
    while i < functions.len()
        invariant
            fs == functions@,
            views(local@) == fsyms(fs),
            i <= fs.len(),
            queue_sourced(fs, fs.len() as int, queue@),
            views(queue@) == requests(fs, fs.len() as int, i as int),
            forall|j: int, ci: int|
                0 <= j < i && 0 <= ci < callees(fs[j].model()).len() ==> satisfied(
                    #[trigger] callees(fs[j].model())[ci],
                    fsyms(fs),
                ) || pending(queue@, 0, callees(fs[j].model())[ci]),
        decreases functions.len() - i,
    {
        let calls = collect_static_call_symbols(&functions[i]);
        let ghost before = queue@;
        enqueue_unsatisfied(&mut queue, &calls, local);
        proof {
            let cs = callees(fs[i as int].model());
            assert(fs.take(queued_bound(fs.len() as int, i as int)) =~= fs);
            assert(views(queue@) == requests(fs, fs.len() as int, i + 1));
            assert forall|q: int| before.len() <= q < queue@.len() implies is_callee_of(fs, fs.len() as int, (#[trigger] queue@[q])@) by {
                let ci = choose|ci: int| 0 <= ci < views(calls@).len() && views(calls@)[ci] == queue@[q]@;
                assert(cs[ci] == queue@[q]@);
            }
            lemma_queue_sourced_extend(fs, fs.len() as int, before, fs, queue@);
            assert forall|j: int, ci: int|
                0 <= j <= i && 0 <= ci < callees(fs[j].model()).len() implies satisfied(
                    #[trigger] callees(fs[j].model())[ci],
                    fsyms(fs),
                ) || pending(queue@, 0, callees(fs[j].model())[ci]) by {
                let c = callees(fs[j].model())[ci];
                if j == i {
                    assert(calls@[ci]@ == c);
                    if pending(queue@, before.len() as int, c) {
                        let q = choose|q: int| before.len() <= q < queue@.len() && (#[trigger] queue@[q])@ == c;
                        assert(queue@[q]@ == c);
                    }
                } else if pending(before, 0, c) {
                    let q = choose|q: int| 0 <= q < before.len() && (#[trigger] before[q])@ == c;
                    assert(queue@[q] == before[q]);
                }
            }
        }
        i = i + 1;
    }
    queue
}

/// What holds of the worklist state between steps.
spec fn worklist_inv(
    deps: Seq<MirModule>,
    pv: Seq<Position>,
    m: Map<Seq<char>, Seq<char>>,
    old_fs: Seq<MirFunction>,
    fs: Seq<MirFunction>,
    local: Seq<Seq<char>>,
    queue: Seq<String>,
    head: int,
    origin: Seq<int>,
    dep_used: Seq<bool>,
) -> bool {
    let n0 = old_fs.len() as int;
    &&& n0 <= fs.len()
    &&& forall|i: int| 0 <= i < n0 ==> fs[i] == old_fs[i]
    &&& local == fsyms(fs)
    &&& 0 <= head <= queue.len()
    &&& queue_sourced(fs, n0, queue)
    &&& forall|j: int, ci: int|
        0 <= j < fs.len() && 0 <= ci < callees(fs[j].model()).len() ==> settled(
            deps,
            pv,
            m,
            fsyms(fs),
            #[trigger] callees(fs[j].model())[ci],
        ) || pending(queue, head, callees(fs[j].model())[ci])
    &&& origin.len() == fs.len() - n0
    &&& origin.no_duplicates()
    &&& forall|k: int|
        0 <= k < origin.len() ==> 0 <= #[trigger] origin[k] < pv.len() && fs[n0 + k].model() == linked_form(
            dep_model(deps, pv[origin[k]]),
            m,
        ) && fs[n0 + k].symbol@ == sym_at(deps, pv[origin[k]])
    &&& forall|k: int| n0 <= k < fs.len() ==> !fsyms(fs.take(k)).contains(#[trigger] fs[k].symbol@)
    &&& forall|k: int| n0 <= k < fs.len() ==> #[trigger] reached(deps, pv, m, fs, n0, k)
    &&& dep_used.len() == deps.len()
    &&& forall|e: int|
        0 <= e < deps.len() ==> (#[trigger] dep_used[e] <==> exists|k: int|
            0 <= k < origin.len() && (#[trigger] pv[origin[k]]).0 == e)
}

/// Settles the queue entry at `head` when it needs nothing linked.
proof fn lemma_step_without_link(
    deps: Seq<MirModule>,
    pv: Seq<Position>,
    m: Map<Seq<char>, Seq<char>>,
    old_fs: Seq<MirFunction>,
    fs: Seq<MirFunction>,
    queue: Seq<String>,
    head: int,
    origin: Seq<int>,
    dep_used: Seq<bool>,
)
    requires
        worklist_inv(deps, pv, m, old_fs, fs, fsyms(fs), queue, head, origin, dep_used),
        head < queue.len(),
        settled(deps, pv, m, fsyms(fs), queue[head]@),
    ensures
        worklist_inv(deps, pv, m, old_fs, fs, fsyms(fs), queue, head + 1, origin, dep_used),
{
    assert forall|j: int, ci: int|
        0 <= j < fs.len() && 0 <= ci < callees(fs[j].model()).len() implies settled(
            deps,
            pv,
            m,
            fsyms(fs),
            #[trigger] callees(fs[j].model())[ci],
        ) || pending(queue, head + 1, callees(fs[j].model())[ci]) by {
        let c = callees(fs[j].model())[ci];
        if !settled(deps, pv, m, fsyms(fs), c) {
            lemma_pending_step(queue, queue, head, c);
        }
    }
}

/// Links the pool function at `(d, f)`, which the queue entry at `head` resolves to and which is
/// not local yet.
fn link_resolved(
    deps: &[MirModule],
    pool: &Vec<(usize, usize)>,
    substitutions: &Substitutions,
    functions: &mut Vec<MirFunction>,
    local: &mut Vec<String>,
    queue: &mut Vec<String>,
    head: usize,
    dep_used: &mut Vec<bool>,
    d: usize,
    f: usize,
    Ghost(old_fs): Ghost<Seq<MirFunction>>,
    Ghost(origin): Ghost<Seq<int>>,
) -> (r: Ghost<Seq<int>>)
    requires
        valid_pool(deps@, pool@),
        distinct_symbols(deps@, pos_view(pool@)),
        worklist_inv(deps@, pos_view(pool@), substitutions@, old_fs, old(functions)@, views(old(local)@), old(queue)@, head as int, origin, old(dep_used)@),
        head < old(queue)@.len(),
        resolve(deps@, pos_view(pool@), substitutions@, old(queue)@[head as int]@) == Some((d as int, f as int)),
        valid_position(deps@, (d as int, f as int)),
        !views(old(local)@).contains(sym_at(deps@, (d as int, f as int))),
    ensures
        worklist_inv(deps@, pos_view(pool@), substitutions@, old_fs, final(functions)@, views(final(local)@), final(queue)@, head + 1, r@, final(dep_used)@),
        r@.len() == origin.len() + 1,
        r@.len() <= pos_view(pool@).len(),
        final(functions)@.len() == old(functions)@.len() + 1,
        forall|i: int| 0 <= i < old(functions)@.len() ==> final(functions)@[i] == old(functions)@[i],
        final(functions)@.last().symbol@ == sym_at(deps@, (d as int, f as int)),
        old(queue)@.len() <= final(queue)@.len(),
        forall|q: int| 0 <= q < old(queue)@.len() ==> final(queue)@[q] == old(queue)@[q],
        views(final(queue)@) == views(old(queue)@) + unsatisfied(
            callees(final(functions)@.last().model()),
            fsyms(final(functions)@),
        ),
{
    let ghost pv = pos_view(pool@);
    let ghost m = substitutions@;
    let ghost fs = functions@;
    let ghost q0 = queue@;
    let ghost n0 = old_fs.len() as int;
    let ghost need = queue@[head as int]@;
    proof {
        lemma_resolve_in_pool(deps@, pv, m, need);
    }
    let ghost j0 = choose|j: int| 0 <= j < pv.len() && pv[j] == (d as int, f as int);
    let sym = deps[d].functions[f].symbol.as_str();
    let mut linked = copy_function(&deps[d].functions[f]);
    rewrite_type_param_method_calls(&mut linked, substitutions);
    rewrite_bare_unwrap_calls_to_sum_payload(&mut linked);
    proof {
        lemma_unwrap_rounds_symbol(tp_rewrite(dep_model(deps@, pv[j0]), m), 4);
        assert(linked.symbol@ == sym@);
    }
    let calls = collect_static_call_symbols(&linked);
    let ghost local0 = views(local@);
    local.push(owned(sym));
    dep_used.set(d, true);
    functions.push(linked);
    let ghost q1 = queue@;
    enqueue_unsatisfied(queue, &calls, local);
    let ghost fs2 = functions@;
    proof {
        assert(fs2 == fs.push(linked));
        assert(views(local@) =~= local0.push(sym@));
        assert(fsyms(fs2) =~= fsyms(fs).push(linked.symbol@));
        assert forall|k: int| 0 <= k < origin.len() implies origin[k] != j0 by {
            assert(fs[n0 + k].symbol@ == sym_at(deps@, pv[origin[k]]));
            assert(fsyms(fs)[n0 + k] == fs[n0 + k].symbol@);
        }
    }
    let ghost origin2 = origin.push(j0);
    proof {
        assert(origin2.no_duplicates());
        lemma_distinct_indices_bounded(origin2, pv.len() as int);
        assert forall|k: int| 0 <= k < origin2.len() implies 0 <= #[trigger] origin2[k] < pv.len() && fs2[n0 + k].model()
            == linked_form(dep_model(deps@, pv[origin2[k]]), m) && fs2[n0 + k].symbol@ == sym_at(deps@, pv[origin2[k]]) by {
            if k < origin.len() {
                assert(fs2[n0 + k] == fs[n0 + k]);
            }
        }
        assert(fs2.take(queued_bound(n0, fs.len() as int)) =~= fs2);
        assert forall|q: int| q1.len() <= q < queue@.len() implies is_callee_of(fs2, n0, (#[trigger] queue@[q])@) by {
            let ci = choose|ci: int| 0 <= ci < views(calls@).len() && views(calls@)[ci] == queue@[q]@;
            assert(fs2[fs.len() as int] == linked);
            assert(callees(fs2[fs.len() as int].model())[ci] == queue@[q]@);
        }
        lemma_queue_sourced_extend(fs, n0, q0, fs2, queue@);
        assert(is_callee_of(fs, n0, need));
        let (js, cs) = choose|j: int, ci: int|
            0 <= j < fs.len() && 0 <= ci < callees(fs[j].model()).len() && #[trigger] callees(fs[j].model())[ci] == need
                && !satisfied(need, fsyms(fs.take(queued_bound(n0, j))));
        assert forall|k: int| n0 <= k < fs2.len() implies #[trigger] reached(deps@, pv, m, fs2, n0, k) by {
            if k < fs.len() {
                lemma_reached_extend(deps@, pv, m, fs, n0, linked, k);
            } else {
                assert(fs2[js] == fs[js]);
                assert(fs2.take(queued_bound(n0, js)) =~= fs.take(queued_bound(n0, js)));
                assert(resolve(deps@, pv, m, callees(fs2[js].model())[cs]) == Some((d as int, f as int)));
            }
        }
        assert forall|k: int| n0 <= k < fs2.len() implies !fsyms(fs2.take(k)).contains(#[trigger] fs2[k].symbol@) by {
            if k < fs.len() {
                assert(fs2.take(k) =~= fs.take(k));
            } else {
                assert(fs2.take(k) =~= fs);
            }
        }
        assert(settled(deps@, pv, m, fsyms(fs2), need)) by {
            assert(fsyms(fs2)[fs.len() as int] == sym@);
        }
        assert forall|j: int, ci: int|
            0 <= j < fs2.len() && 0 <= ci < callees(fs2[j].model()).len() implies settled(
                deps@,
                pv,
                m,
                fsyms(fs2),
                #[trigger] callees(fs2[j].model())[ci],
            ) || pending(queue@, head + 1, callees(fs2[j].model())[ci]) by {
            let c = callees(fs2[j].model())[ci];
            if j == fs.len() {
                assert(calls@[ci]@ == c);
                if pending(queue@, q1.len() as int, c) {
                    let q = choose|q: int| q1.len() <= q < queue@.len() && (#[trigger] queue@[q])@ == c;
                    assert(queue@[q]@ == c);
                }
            } else {
                assert(fs2[j] == fs[j]);
                if settled(deps@, pv, m, fsyms(fs), c) {
                    lemma_settled_mono(deps@, pv, m, fsyms(fs), fsyms(fs2), c);
                } else {
                    lemma_pending_step(q0, queue@, head as int, c);
                }
            }
        }
        assert forall|e: int| 0 <= e < deps@.len() implies (#[trigger] dep_used@[e] <==> exists|k: int|
            0 <= k < origin2.len() && (#[trigger] pv[origin2[k]]).0 == e) by {
            if e == d {
                assert(pv[origin2[origin2.len() - 1]].0 == e);
            } else {
                if exists|k: int| 0 <= k < origin2.len() && (#[trigger] pv[origin2[k]]).0 == e {
                    let k = choose|k: int| 0 <= k < origin2.len() && (#[trigger] pv[origin2[k]]).0 == e;
                    assert(k < origin.len());
                    assert(pv[origin[k]].0 == e);
                }
                if dep_used@[e] {
                    let k = choose|k: int| 0 <= k < origin.len() && (#[trigger] pv[origin[k]]).0 == e;
                    assert(origin2[k] == origin[k]);
                }
            }
        }
    }
    Ghost(origin2)
}

/// `n` flags, all unset.
fn unset_flags(n: usize) -> (r: Vec<bool>)
    ensures
        r@.len() == n,
        forall|k: int| 0 <= k < n ==> !r@[k],
{
    let mut flags: Vec<bool> = Vec::new();
    let mut e: usize = 0;
    while e < n
        invariant
            e <= n,
            flags@.len() == e,
            forall|k: int| 0 <= k < e ==> !flags@[k],
        decreases n - e,
    {
        flags.push(false);
        e = e + 1;
    }
    flags
}

/// The indices of the set flags, in increasing order.
fn flagged_indices(flags: &Vec<bool>) -> (r: Vec<usize>)
    ensures
        forall|i: int, j: int| 0 <= i < j < r@.len() ==> r@[i] < r@[j],
        forall|i: int| 0 <= i < r@.len() ==> r@[i] < flags@.len(),
        forall|x: usize| r@.contains(x) <==> (x < flags@.len() && flags@[x as int]),
{
    let mut out: Vec<usize> = Vec::new();
    let mut e: usize = 0;
    while e < flags.len()
        invariant
            e <= flags@.len(),
            forall|i: int, j: int| 0 <= i < j < out@.len() ==> out@[i] < out@[j],
            forall|i: int| 0 <= i < out@.len() ==> out@[i] < e,
            forall|x: usize| out@.contains(x) <==> (x < e && flags@[x as int]),
        decreases flags.len() - e,
    {
        if flags[e] {
            let ghost before = out@;
            out.push(e);
            assert forall|x: usize| out@.contains(x) <==> (x < e + 1 && flags@[x as int]) by {
                if x == e {
                    assert(out@[out@.len() - 1] == x);
                }
                if out@.contains(x) && x != e {
                    let i = choose|i: int| 0 <= i < out@.len() && out@[i] == x;
                    assert(before[i] == x);
                }
                if before.contains(x) {
                    let i = choose|i: int| 0 <= i < before.len() && before[i] == x;
                    assert(out@[i] == x);
                }
            }
        } else {
            assert forall|x: usize| out@.contains(x) <==> (x < e + 1 && flags@[x as int]) by {
                if out@.contains(x) {
                    let i = choose|i: int| 0 <= i < out@.len() && out@[i] == x;
                    assert(out@[i] < e);
                }
            }
        }
        e = e + 1;
    }
    out
}

/// Merges the sum types and structs of the listed dependencies into `consumer`, in order.
/// The number of aggregate layouts of the listed dependencies.
pub open spec fn listed_layout_count(deps: Seq<MirModule>, ds: Seq<usize>) -> int
    decreases ds.len(),
{
    if ds.len() == 0 {
        0
    } else {
        listed_layout_count(deps, ds.drop_last()) + deps[ds.last() as int].aggregate_layouts.layouts@.len()
    }
}

/// The number of aggregate layouts of all dependencies.
pub open spec fn all_layout_count(deps: Seq<MirModule>) -> int
    decreases deps.len(),
{
    if deps.len() == 0 {
        0
    } else {
        all_layout_count(deps.drop_last()) + deps.last().aggregate_layouts.layouts@.len()
    }
}

/// The layouts after merging in those of the listed dependencies, in order.
pub open spec fn merge_dep_layouts(cur: Seq<LayoutModel>, deps: Seq<MirModule>, ds: Seq<usize>) -> Seq<LayoutModel>
    decreases ds.len(),
{
    if ds.len() == 0 {
        cur
    } else {
        merge_layouts(
            merge_dep_layouts(cur, deps, ds.drop_last()),
            layout_models(deps[ds.last() as int].aggregate_layouts.layouts@),
        ).0
    }
}

proof fn lemma_listed_count_prefix(deps: Seq<MirModule>, ds: Seq<usize>, k: int)
    requires
        0 <= k <= ds.len(),
    ensures
        0 <= listed_layout_count(deps, ds.take(k)) <= listed_layout_count(deps, ds),
    decreases ds.len(),
{
    if ds.len() > 0 {
        if k == ds.len() {
            assert(ds.take(k) =~= ds);
            lemma_listed_count_prefix(deps, ds.drop_last(), k - 1);
        } else {
            assert(ds.drop_last().take(k) =~= ds.take(k));
            lemma_listed_count_prefix(deps, ds.drop_last(), k);
        }
    } else {
        assert(ds.take(k) =~= ds);
    }
}

proof fn lemma_all_count_prefix(deps: Seq<MirModule>, a: int, b: int)
    requires
        0 <= a <= b <= deps.len(),
    ensures
        0 <= all_layout_count(deps.take(a)) <= all_layout_count(deps.take(b)),
    decreases b,
{
    if b > 0 {
        assert(deps.take(b).drop_last() =~= deps.take(b - 1));
        if a < b {
            lemma_all_count_prefix(deps, a, b - 1);
        } else {
            lemma_all_count_prefix(deps, b - 1, b - 1);
        }
    } else {
        assert(deps.take(a) =~= deps.take(0));
    }
}

/// Increasing dependency indices below `n` count no more layouts than the first `n` dependencies.
proof fn lemma_listed_count_bounded(deps: Seq<MirModule>, ds: Seq<usize>, n: int)
    requires
        0 <= n <= deps.len(),
        forall|i: int, j: int| 0 <= i < j < ds.len() ==> ds[i] < ds[j],
        forall|i: int| 0 <= i < ds.len() ==> ds[i] < n,
    ensures
        listed_layout_count(deps, ds) <= all_layout_count(deps.take(n)),
    decreases ds.len(),
{
    if ds.len() > 0 {
        let l = ds.last() as int;
        lemma_listed_count_bounded(deps, ds.drop_last(), l);
        assert(deps.take(l + 1).drop_last() =~= deps.take(l));
        lemma_all_count_prefix(deps, l + 1, n);
    } else {
        lemma_all_count_prefix(deps, 0, n);
    }
}

fn merge_supporting_types(consumer: &mut MirModule, deps: &[MirModule], listed: &Vec<usize>)
    requires
        forall|i: int| 0 <= i < listed@.len() ==> listed@[i] < deps@.len(),
        old(consumer).aggregate_layouts.layouts@.len() + listed_layout_count(deps@, listed@) < u32::MAX,
    ensures
        final(consumer).name == old(consumer).name,
        final(consumer).functions == old(consumer).functions,
        sum_models(final(consumer).sum_types@) == merge_dep_sums(sum_models(old(consumer).sum_types@), deps@, listed@),
        struct_models(final(consumer).structs@) == merge_dep_structs(
            struct_models(old(consumer).structs@),
            deps@,
            listed@,
        ),
        layout_models(final(consumer).aggregate_layouts.layouts@) == merge_dep_layouts(
            layout_models(old(consumer).aggregate_layouts.layouts@),
            deps@,
            listed@,
        ),
{
    let mut c: usize = 0;
    assert(listed@.take(0) =~= Seq::<usize>::empty());
    while c < listed.len()
        invariant
            c <= listed@.len(),
            forall|i: int| 0 <= i < listed@.len() ==> listed@[i] < deps@.len(),
            old(consumer).aggregate_layouts.layouts@.len() + listed_layout_count(deps@, listed@) < u32::MAX,
            sum_models(consumer.sum_types@) == merge_dep_sums(sum_models(old(consumer).sum_types@), deps@, listed@.take(c as int)),
            struct_models(consumer.structs@) == merge_dep_structs(
                struct_models(old(consumer).structs@),
                deps@,
                listed@.take(c as int),
            ),
            layout_models(consumer.aggregate_layouts.layouts@) == merge_dep_layouts(
                layout_models(old(consumer).aggregate_layouts.layouts@),
                deps@,
                listed@.take(c as int),
            ),
            consumer.aggregate_layouts.layouts@.len() <= old(consumer).aggregate_layouts.layouts@.len()
                + listed_layout_count(deps@, listed@.take(c as int)),
            consumer.functions == old(consumer).functions,
            consumer.name == old(consumer).name,
        decreases listed.len() - c,
    {
        proof {
            assert(listed@.take(c + 1).drop_last() =~= listed@.take(c as int));
            lemma_listed_count_prefix(deps@, listed@, c + 1);
        }
        let dep = listed[c];
        merge_sum_types(&mut consumer.sum_types, &deps[dep].sum_types);
        merge_struct_list(&mut consumer.structs, &deps[dep].structs);
        let ghost before = layout_models(consumer.aggregate_layouts.layouts@);
        let _remap = merge_aggregate_layout_plan(&mut consumer.aggregate_layouts, &deps[dep].aggregate_layouts);
        proof {
            lemma_merge_layouts_len(before, layout_models(deps@[dep as int].aggregate_layouts.layouts@));
        }
        c = c + 1;
    }
    assert(listed@.take(listed@.len() as int) =~= listed@);
}

/// At the end of the worklist the linked functions are as [`linked_functions`] says.
proof fn lemma_worklist_done(
    deps: Seq<MirModule>,
    pv: Seq<Position>,
    m: Map<Seq<char>, Seq<char>>,
    old_fs: Seq<MirFunction>,
    fs: Seq<MirFunction>,
    queue: Seq<String>,
    origin: Seq<int>,
    dep_used: Seq<bool>,
)
    requires
        pv == build_pool(deps),
        distinct_symbols(deps, pv),
        forall|j: int| 0 <= j < pv.len() ==> valid_position(deps, #[trigger] pv[j]),
        m == infer_substitutions(function_models(old_fs)),
        worklist_inv(deps, pv, m, old_fs, fs, fsyms(fs), queue, queue.len() as int, origin, dep_used),
    ensures
        linked_functions(deps, old_fs, fs),
        forall|x: usize|
            (x < dep_used.len() && dep_used[x as int]) <==> #[trigger] contributed(deps, pv, old_fs.len() as int, fs, x as int),
{
    let n0 = old_fs.len() as int;
    assert forall|j: int, ci: int|
        0 <= j < fs.len() && 0 <= ci < callees(fs[j].model()).len() implies settled(
            deps,
            pv,
            m,
            fsyms(fs),
            #[trigger] callees(fs[j].model())[ci],
        ) by {
        let c = callees(fs[j].model())[ci];
        if pending(queue, queue.len() as int, c) {
            let q = choose|q: int| queue.len() <= q < queue.len() && (#[trigger] queue[q])@ == c;
        }
    }
    assert forall|k: int| n0 <= k < fs.len() implies from_pool(deps, pv, m, #[trigger] fs[k]) by {
        let j = origin[k - n0];
        assert(0 <= j < pv.len());
        assert(fs[k].model() == linked_form(dep_model(deps, pv[j]), m));
    }
    assert forall|k: int| 0 <= k < origin.len() implies #[trigger] pool_get(deps, pv, fs[n0 + k].symbol@) == Some(pv[origin[k]]) by {
        lemma_pool_get_distinct(deps, pv, origin[k]);
    }
    assert forall|x: usize|
        (x < dep_used.len() && dep_used[x as int]) <==> #[trigger] contributed(deps, pv, old_fs.len() as int, fs, x as int) by {
        if x < dep_used.len() && dep_used[x as int] {
            let k = choose|k: int| 0 <= k < origin.len() && (#[trigger] pv[origin[k]]).0 == x as int;
            assert(pool_get(deps, pv, fs[n0 + k].symbol@) == Some(pv[origin[k]]));
            assert(n0 <= n0 + k < fs.len());
            assert(pv[origin[k]].0 == x);
        }
        if contributed(deps, pv, old_fs.len() as int, fs, x as int) {
            let k = choose|k: int|
                {
                    &&& old_fs.len() <= k < fs.len()
                    &&& #[trigger] pool_get(deps, pv, fs[k].symbol@) matches Some(p)
                    &&& p.0 == x
                };
            assert(pool_get(deps, pv, fs[n0 + (k - n0)].symbol@) == Some(pv[origin[k - n0]]));
            assert(pv[origin[k - n0]].0 == x);
            assert(valid_position(deps, pv[origin[k - n0]]));
            assert(x < dep_used.len());
            assert(dep_used[x as int]);
        }
    }
}

/// Links into `consumer` the dependency functions that its functions reach (see
/// [`linked_functions`]), then merges in the sum types, structs and aggregate layouts of every
/// dependency that contributed a function (see [`merge_aggregate_layout_plan`] for layouts),
/// keeping those whose name the consumer already has. Functions are added in the order in
/// which the queued needs first ask for them ([`linked_in_request_order`]). The contributing
/// dependencies are the unique increasing list that [`contributing_deps`] describes.
pub fn link_reachable_dependency_mir(consumer: &mut MirModule, dependency_mirs: &[MirModule])
    requires
        old(consumer).aggregate_layouts.layouts@.len() + all_layout_count(dependency_mirs@) < u32::MAX,
    ensures
        final(consumer).name == old(consumer).name,
        linked_functions(dependency_mirs@, old(consumer).functions@, final(consumer).functions@),
        exists|contributing: Seq<usize>|
            {
                &&& #[trigger] contributing_deps(
                    dependency_mirs@,
                    old(consumer).functions@.len() as int,
                    final(consumer).functions@,
                    contributing,
                )
                &&& sum_models(final(consumer).sum_types@) == merge_dep_sums(
                    sum_models(old(consumer).sum_types@),
                    dependency_mirs@,
                    contributing,
                )
                &&& struct_models(final(consumer).structs@) == merge_dep_structs(
                    struct_models(old(consumer).structs@),
                    dependency_mirs@,
                    contributing,
                )
                &&& layout_models(final(consumer).aggregate_layouts.layouts@) == merge_dep_layouts(
                    layout_models(old(consumer).aggregate_layouts.layouts@),
                    dependency_mirs@,
                    contributing,
                )
            },
        linked_in_request_order(dependency_mirs@, old(consumer).functions@, final(consumer).functions@),
{
    let contributing = link_dependencies_reporting_contributors(consumer, dependency_mirs);
    assert(contributing_deps(
        dependency_mirs@,
        old(consumer).functions@.len() as int,
        consumer.functions@,
        contributing@,
    ));
}

/// [`link_reachable_dependency_mir`], returning the contributing dependencies in increasing
/// order.
pub fn link_dependencies_reporting_contributors(consumer: &mut MirModule, dependency_mirs: &[MirModule]) -> (contributing: Vec<usize>)
    requires
        old(consumer).aggregate_layouts.layouts@.len() + all_layout_count(dependency_mirs@) < u32::MAX,
    ensures
        final(consumer).name == old(consumer).name,
        linked_functions(dependency_mirs@, old(consumer).functions@, final(consumer).functions@),
        contributing_deps(
            dependency_mirs@,
            old(consumer).functions@.len() as int,
            final(consumer).functions@,
            contributing@,
        ),
        sum_models(final(consumer).sum_types@) == merge_dep_sums(
            sum_models(old(consumer).sum_types@),
            dependency_mirs@,
            contributing@,
        ),
        struct_models(final(consumer).structs@) == merge_dep_structs(
            struct_models(old(consumer).structs@),
            dependency_mirs@,
            contributing@,
        ),
        layout_models(final(consumer).aggregate_layouts.layouts@) == merge_dep_layouts(
            layout_models(old(consumer).aggregate_layouts.layouts@),
            dependency_mirs@,
            contributing@,
        ),
        linked_in_request_order(dependency_mirs@, old(consumer).functions@, final(consumer).functions@),
{
    let ghost deps = dependency_mirs@;
    let ghost old_fs = consumer.functions@;
    let ghost n0 = old_fs.len() as int;
    let pool = build_dependency_pool(dependency_mirs);
    let ghost pv = pos_view(pool@);
    let substitutions = infer_hashmap_type_param_substitutions(consumer);
    let ghost m = substitutions@;
    let mut local = local_symbols(&consumer.functions);
    let mut queue = seed_queue(&consumer.functions, &local);
    let mut dep_used = unset_flags(dependency_mirs.len());
    let ghost mut origin: Seq<int> = Seq::empty();
    proof {
        assert forall|j: int, ci: int|
            0 <= j < old_fs.len() && 0 <= ci < callees(old_fs[j].model()).len() implies settled(
                deps,
                pv,
                m,
                fsyms(old_fs),
                #[trigger] callees(old_fs[j].model())[ci],
            ) || pending(queue@, 0, callees(old_fs[j].model())[ci]) by {}
        assert(worklist_inv(deps, pv, m, old_fs, consumer.functions@, views(local@), queue@, 0, origin, dep_used@));
    }
    let ghost mut lq: Seq<int> = Seq::empty();
    let mut head: usize = 0;
    while head < queue.len()
        invariant
            deps == dependency_mirs@,
            pv == pos_view(pool@),
            pv == build_pool(deps),
            valid_pool(deps, pool@),
            distinct_symbols(deps, pv),
            m == substitutions@,
            m == infer_substitutions(function_models(old_fs)),
            n0 == old_fs.len(),
            consumer.name == old(consumer).name,
            consumer.sum_types == old(consumer).sum_types,
            consumer.structs == old(consumer).structs,
            consumer.aggregate_layouts == old(consumer).aggregate_layouts,
            worklist_inv(deps, pv, m, old_fs, consumer.functions@, views(local@), queue@, head as int, origin, dep_used@),
            origin.len() <= pv.len(),
            order_inv(deps, pv, m, consumer.functions@, n0, views(queue@), head as int, lq),
        decreases pv.len() - origin.len(), queue@.len() - head,
    {
        let resolved = resolve_from_pool(queue[head].as_str(), dependency_mirs, &pool, &substitutions);
        let ghost fs_before = consumer.functions@;
        let ghost qv_before = views(queue@);
        proof {
            assert(qv_before[head as int] == queue@[head as int]@);
        }
        let mut linked = false;
        if let Some((d, f)) = resolved {
            if !contains_symbol(&local, dependency_mirs[d].functions[f].symbol.as_str()) {
                let Ghost(next) = link_resolved(
                    dependency_mirs,
                    &pool,
                    &substitutions,
                    &mut consumer.functions,
                    &mut local,
                    &mut queue,
                    head,
                    &mut dep_used,
                    d,
                    f,
                    Ghost(old_fs),
                    Ghost(origin),
                );
                proof {
                    origin = next;
                    lemma_order_link(deps, pv, m, fs_before, consumer.functions@, n0, qv_before, views(queue@), head as int, lq);
                    lq = lq.push(head as int);
                }
                linked = true;
            } else {
                proof {
                    lemma_order_skip(deps, pv, m, fs_before, n0, qv_before, head as int, lq);
                }
            }
        } else {
            proof {
                lemma_order_skip(deps, pv, m, fs_before, n0, qv_before, head as int, lq);
            }
        }
        if !linked {
            proof {
                lemma_step_without_link(deps, pv, m, old_fs, consumer.functions@, queue@, head as int, origin, dep_used@);
            }
        }
        head = head + 1;
    }
    proof {
        assert forall|j: int| 0 <= j < pv.len() implies valid_position(deps, #[trigger] pv[j]) by {
            assert(valid_position(deps, pos_view(pool@)[j]));
        }
        lemma_worklist_done(deps, pv, m, old_fs, consumer.functions@, queue@, origin, dep_used@);
        lemma_order_done(deps, old_fs, consumer.functions@, views(queue@), lq);
    }
    let contributing = flagged_indices(&dep_used);
    proof {
        lemma_listed_count_bounded(deps, contributing@, deps.len() as int);
        assert(deps.take(deps.len() as int) =~= deps);
    }
    merge_supporting_types(consumer, dependency_mirs, &contributing);
    contributing
}

// ---------------------------------------------------------------- laws

proof fn lemma_first_occurrences_get(deps: Seq<MirModule>, ps: Seq<Position>, sym: Seq<char>)
    ensures
        pool_get(deps, first_occurrences(deps, ps), sym) == pool_get(deps, ps, sym),
    decreases ps.len(),
{
    let pred = |p: Position| sym_at(deps, p) == sym;
    if ps.len() > 0 {
        let prev_ps = ps.drop_last();
        let x = ps.last();
        let fo_prev = first_occurrences(deps, prev_ps);
        let fo = first_occurrences(deps, ps);
        lemma_first_occurrences_get(deps, prev_ps, sym);
        assert(prev_ps.push(x) =~= ps);
        crate::search::lemma_first_index_push(prev_ps, x, pred);
        crate::search::lemma_first_index_push(fo_prev, x, pred);
        crate::search::lemma_first_index(fo_prev, pred);
        crate::search::lemma_first_index(prev_ps, pred);
        match crate::search::first_index(prev_ps, pred) {
            Some(i) => {
                let i2 = crate::search::first_index(fo_prev, pred)->0;
                assert(fo_prev[i2] == prev_ps[i]);
                assert(ps[i] == prev_ps[i]);
                if fo != fo_prev {
                    assert(fo == fo_prev.push(x));
                    assert(fo[i2] == fo_prev[i2]);
                }
            },
            None => {
                assert(crate::search::first_index(fo_prev, pred) is None);
                if pred(x) {
                    assert(!has_symbol(deps, fo_prev, sym_at(deps, x))) by {
                        if has_symbol(deps, fo_prev, sym_at(deps, x)) {
                            let j = choose|j: int| 0 <= j < fo_prev.len() && sym_at(deps, #[trigger] fo_prev[j]) == sym_at(deps, x);
                            assert(pred(fo_prev[j]));
                        }
                    }
                    assert(fo == fo_prev.push(x));
                    assert(ps[prev_ps.len() as int] == x);
                    assert(fo[fo_prev.len() as int] == x);
                }
            },
        }
    } else {
        assert(first_occurrences(deps, ps) =~= ps);
    }
}

/// When several dependencies define the same symbol, the pool holds the function of the first
/// one (and, within a dependency, the first function): the pool entry for a symbol is the first
/// position, in dependency order, whose function has that symbol.
pub proof fn lemma_first_dependency_wins(deps: Seq<MirModule>, sym: Seq<char>)
    ensures
        pool_get(deps, build_pool(deps), sym) == pool_get(deps, all_positions(deps), sym),
{
    lemma_first_occurrences_get(deps, all_positions(deps), sym);
}

/// Resolution prefers the exact symbol: when a pool function has the needed symbol, the need
/// resolves to it.
pub proof fn lemma_exact_symbol_wins(deps: Seq<MirModule>, pool: Seq<Position>, m: Map<Seq<char>, Seq<char>>, need: Seq<char>, i: int)
    requires
        0 <= i < pool.len(),
        sym_at(deps, pool[i]) == need,
    ensures
        resolve(deps, pool, m, need) matches Some(p) && sym_at(deps, p) == need,
{
    let pred = |p: Position| sym_at(deps, p) == need;
    crate::search::lemma_first_index(pool, pred);
    assert(pred(pool[i]));
}

/// With no dependencies, linking adds no function and names no contributing dependency.
pub proof fn lemma_link_without_dependencies(
    deps: Seq<MirModule>,
    old_fs: Seq<MirFunction>,
    fs: Seq<MirFunction>,
    contributing: Seq<usize>,
)
    requires
        deps.len() == 0,
        linked_functions(deps, old_fs, fs),
        contributing_deps(deps, old_fs.len() as int, fs, contributing),
    ensures
        fs == old_fs,
        contributing.len() == 0,
{
    assert(all_positions(deps) =~= Seq::<Position>::empty());
    assert(build_pool(deps) =~= Seq::<Position>::empty());
    if fs.len() > old_fs.len() {
        let k = old_fs.len() as int;
        assert(from_pool(deps, build_pool(deps), infer_substitutions(function_models(old_fs)), fs[k]));
    }
    assert(fs =~= old_fs);
    if contributing.len() > 0 {
        assert(contributing.contains(contributing[0]));
        assert(contributed(deps, build_pool(deps), old_fs.len() as int, fs, contributing[0] as int));
    }
}

/// Merging keeps every sum already present, in front.
pub proof fn lemma_merge_sums_keeps(cur: Seq<SumTypeModel>, add: Seq<SumTypeModel>)
    ensures
        cur.len() <= merge_sums(cur, add).len(),
        forall|i: int| 0 <= i < cur.len() ==> #[trigger] merge_sums(cur, add)[i] == cur[i],
    decreases add.len(),
{
    if add.len() > 0 {
        lemma_merge_sums_keeps(cur, add.drop_last());
    }
}

/// After merging, every sum of `add` has its name among the sums.
pub proof fn lemma_merge_sums_covers(cur: Seq<SumTypeModel>, add: Seq<SumTypeModel>, i: int)
    requires
        0 <= i < add.len(),
    ensures
        has_sum_named(merge_sums(cur, add), add[i].name),
    decreases add.len(),
{
    let prev = merge_sums(cur, add.drop_last());
    lemma_merge_sums_keeps(prev, seq![add.last()]);
    if i < add.len() - 1 {
        lemma_merge_sums_covers(cur, add.drop_last(), i);
        let j = choose|j: int| 0 <= j < prev.len() && (#[trigger] prev[j]).name == add[i].name;
        if !has_sum_named(prev, add.last().name) {
            assert(prev.push(add.last())[j] == prev[j]);
        }
    } else if !has_sum_named(prev, add.last().name) {
        assert(prev.push(add.last())[prev.len() as int] == add.last());
    }
}

proof fn lemma_merge_dep_sums_keeps(cur: Seq<SumTypeModel>, deps: Seq<MirModule>, ds: Seq<usize>)
    ensures
        cur.len() <= merge_dep_sums(cur, deps, ds).len(),
        forall|i: int| 0 <= i < cur.len() ==> #[trigger] merge_dep_sums(cur, deps, ds)[i] == cur[i],
    decreases ds.len(),
{
    if ds.len() > 0 {
        let prev = merge_dep_sums(cur, deps, ds.drop_last());
        lemma_merge_dep_sums_keeps(cur, deps, ds.drop_last());
        lemma_merge_sums_keeps(prev, sum_models(deps[ds.last() as int].sum_types@));
    }
}

/// The sums of every contributing dependency survive into the consumer: each has its name among
/// the merged sums, and the consumer's own sums stay in front.
pub proof fn lemma_dependency_sums_survive(cur: Seq<SumTypeModel>, deps: Seq<MirModule>, ds: Seq<usize>, k: int, i: int)
    requires
        0 <= k < ds.len(),
        0 <= ds[k] < deps.len(),
        0 <= i < deps[ds[k] as int].sum_types@.len(),
    ensures
        has_sum_named(merge_dep_sums(cur, deps, ds), deps[ds[k] as int].sum_types@[i].name@),
        forall|j: int| 0 <= j < cur.len() ==> #[trigger] merge_dep_sums(cur, deps, ds)[j] == cur[j],
    decreases ds.len(),
{
    lemma_merge_dep_sums_keeps(cur, deps, ds);
    let prev = merge_dep_sums(cur, deps, ds.drop_last());
    let add = sum_models(deps[ds.last() as int].sum_types@);
    lemma_merge_sums_keeps(prev, add);
    if k < ds.len() - 1 {
        lemma_dependency_sums_survive(cur, deps, ds.drop_last(), k, i);
        let j = choose|j: int| 0 <= j < prev.len() && (#[trigger] prev[j]).name == deps[ds[k] as int].sum_types@[i].name@;
        assert(merge_sums(prev, add)[j] == prev[j]);
    } else {
        lemma_merge_sums_covers(prev, add, i);
    }
}

/// With no substitutions, the type-parameter call rewrite changes nothing.
pub proof fn lemma_tp_rewrite_without_substitutions(f: FunctionModel)
    ensures
        tp_rewrite(f, Map::empty()) == f,
{
    let m = Map::<Seq<char>, Seq<char>>::empty();
    assert forall|k: int| 0 <= k < f.blocks.len() implies #[trigger] tp_rewrite_block(f.blocks[k], m) == f.blocks[k] by {
        assert(f.blocks[k].instructions.map_values(|x: InstructionModel| tp_rewrite_instr(x, m)) =~= f.blocks[k].instructions);
    }
    assert(f.blocks.map_values(|b: BlockModel| tp_rewrite_block(b, m)) =~= f.blocks);
}

} // verus!
