//! The backend-private executable function form consumed by the emitter.
use vstd::prelude::*;
use crate::names::{Identifier, NamePath};
use crate::types::NyarType;

verus! {

/// An SSA value id.
#[derive(Debug, Clone, Copy, PartialEq, Eq, Structural, PartialOrd, Ord, Hash)]
pub struct ValueRef(pub u32);

/// A basic block id.
#[derive(Debug, Clone, Copy, PartialEq, Eq, Structural, PartialOrd, Ord, Hash)]
pub struct BlockRef(pub u32);

/// The first entry of `s` whose key is `k`.
pub open spec fn lookup<T>(s: Seq<(ValueRef, T)>, k: ValueRef) -> Option<T>
    decreases s.len(),
{
    if s.len() == 0 {
        None
    } else if s[0].0 == k {
        Some(s[0].1)
    } else {
        lookup(s.subrange(1, s.len() as int), k)
    }
}

/// Keys strictly increase along `s`.
pub open spec fn keys_increasing<T>(s: Seq<(ValueRef, T)>) -> bool {
    forall|i: int, j: int| 0 <= i < j < s.len() ==> (#[trigger] s[i]).0.0 < (#[trigger] s[j]).0.0
}

/// `lookup` finds the entry at `i` when `s[i]` holds `k` and no earlier entry does.
pub proof fn lemma_lookup_at<T>(s: Seq<(ValueRef, T)>, k: ValueRef, i: int)
    requires
        0 <= i < s.len(),
        s[i].0 == k,
        forall|j: int| 0 <= j < i ==> s[j].0 != k,
    ensures
        lookup(s, k) == Some(s[i].1),
    decreases i,
{
    if i > 0 {
        lemma_lookup_at(s.subrange(1, s.len() as int), k, i - 1);
    }
}

/// `lookup` finds nothing when no entry holds `k`.
pub proof fn lemma_lookup_none<T>(s: Seq<(ValueRef, T)>, k: ValueRef)
    requires
        forall|j: int| 0 <= j < s.len() ==> s[j].0 != k,
    ensures
        lookup(s, k) is None,
    decreases s.len(),
{
    if s.len() > 0 {
        lemma_lookup_none(s.subrange(1, s.len() as int), k);
    }
}

/// `lookup` returns a value held by an entry with that key.
pub proof fn lemma_lookup_some<T>(s: Seq<(ValueRef, T)>, k: ValueRef)
    requires
        lookup(s, k) is Some,
    ensures
        exists|i: int| 0 <= i < s.len() && s[i].0 == k && lookup(s, k) == Some(s[i].1),
    decreases s.len(),
{
    if s[0].0 != k {
        lemma_lookup_some(s.subrange(1, s.len() as int), k);
        let i = choose|i: int|
            0 <= i < s.len() - 1 && s.subrange(1, s.len() as int)[i].0 == k && lookup(
                s.subrange(1, s.len() as int),
                k,
            ) == Some(s.subrange(1, s.len() as int)[i].1);
        assert(s[i + 1] == s.subrange(1, s.len() as int)[i]);
    }
}

/// `s` with the entry of key `k` set to `t`, keeping keys in increasing order: an entry with
/// key `k` is replaced in place, otherwise `(k, t)` goes before the first greater key.
pub open spec fn vt_insert<T>(s: Seq<(ValueRef, T)>, k: ValueRef, t: T) -> Seq<(ValueRef, T)>
    decreases s.len(),
{
    if s.len() == 0 {
        seq![(k, t)]
    } else if s[0].0 == k {
        seq![(k, t)] + s.subrange(1, s.len() as int)
    } else if k.0 < s[0].0.0 {
        seq![(k, t)] + s
    } else {
        seq![s[0]] + vt_insert(s.subrange(1, s.len() as int), k, t)
    }
}

/// `vt_insert` at the first position whose key is not below `k`.
proof fn lemma_vt_insert_at<T>(s: Seq<(ValueRef, T)>, k: ValueRef, t: T, i: int)
    requires
        0 <= i <= s.len(),
        forall|j: int| 0 <= j < i ==> s[j].0.0 < k.0,
        i < s.len() ==> s[i].0.0 >= k.0,
    ensures
        vt_insert(s, k, t) == if i < s.len() && s[i].0 == k {
            s.update(i, (k, t))
        } else {
            s.insert(i, (k, t))
        },
    decreases i,
{
    if i == 0 {
        if s.len() > 0 && s[0].0 == k {
            assert(seq![(k, t)] + s.subrange(1, s.len() as int) =~= s.update(0, (k, t)));
        } else if s.len() > 0 {
            assert(seq![(k, t)] + s =~= s.insert(0, (k, t)));
        } else {
            assert(seq![(k, t)] =~= s.insert(0, (k, t)));
        }
    } else {
        let rest = s.subrange(1, s.len() as int);
        lemma_vt_insert_at(rest, k, t, i - 1);
        if i < s.len() && s[i].0 == k {
            assert(seq![s[0]] + rest.update(i - 1, (k, t)) =~= s.update(i, (k, t)));
        } else {
            assert(seq![s[0]] + rest.insert(i - 1, (k, t)) =~= s.insert(i, (k, t)));
        }
    }
}

/// A map from SSA values to their types, kept in increasing key order with unique keys.
#[derive(Debug)]
pub struct ValueTypes<T> {
    entries: Vec<(ValueRef, T)>,
}

impl<T> View for ValueTypes<T> {
    type V = Seq<(ValueRef, T)>;

    closed spec fn view(&self) -> Seq<(ValueRef, T)> {
        self.entries@
    }
}

impl<T> ValueTypes<T> {
    #[verifier::type_invariant]
    spec fn sorted(self) -> bool {
        keys_increasing(self.entries@)
    }

    /// An empty map.
    pub fn new() -> (r: ValueTypes<T>)
        ensures
            r@ == Seq::<(ValueRef, T)>::empty(),
    {
        ValueTypes { entries: Vec::new() }
    }

    /// Number of entries; the entries are in increasing key order.
    pub fn len(&self) -> (r: usize)
        ensures
            r == self@.len(),
            keys_increasing(self@),
    {
        proof {
            use_type_invariant(self);
        }
        self.entries.len()
    }

    /// Appends an entry whose key is greater than every key present.
    pub fn push_greatest(&mut self, key: ValueRef, ty: T)
        requires
            forall|j: int| 0 <= j < old(self)@.len() ==> old(self)@[j].0.0 < key.0,
        ensures
            final(self)@ == old(self)@.push((key, ty)),
    {
        proof {
            use_type_invariant(&*self);
        }
        let ghost before = self.entries@;
        assert(keys_increasing(before));
        let mut entries: Vec<(ValueRef, T)> = Vec::new();
        std::mem::swap(&mut entries, &mut self.entries);
        assert(entries@ == before);
        assert(before == old(self)@);
        entries.push((key, ty));
        assert(entries@ =~= before.push((key, ty)));
        assert forall|a: int, b: int| 0 <= a < b < entries@.len() implies (#[trigger] entries@[a]).0.0 < (#[trigger] entries@[b]).0.0 by {
            if b < before.len() {
                assert(before[a].0.0 < before[b].0.0);
            } else {
                assert(entries@[a] == before[a]);
                assert(before[a].0.0 < key.0);
            }
        }
        self.entries = entries;
    }

    /// The entry at position `i`, in key order.
    pub fn entry_at(&self, i: usize) -> (r: (&ValueRef, &T))
        requires
            i < self@.len(),
        ensures
            *r.0 == self@[i as int].0,
            *r.1 == self@[i as int].1,
    {
        let e = &self.entries[i];
        (&e.0, &e.1)
    }

    /// The type recorded for `key`.
    pub fn get(&self, key: &ValueRef) -> (r: Option<&T>)
        ensures
            match r {
                Some(t) => lookup(self@, *key) == Some(*t),
                None => lookup(self@, *key) is None,
            },
    {
        let mut i: usize = 0;
        while i < self.entries.len()
            invariant
                i <= self.entries@.len(),
                forall|j: int| 0 <= j < i ==> self.entries@[j].0 != *key,
            decreases self.entries.len() - i,
        {
            if self.entries[i].0.0 == key.0 {
                proof {
                    lemma_lookup_at(self.entries@, *key, i as int);
                }
                return Some(&self.entries[i].1);
            }
            i = i + 1;
        }
        proof {
            lemma_lookup_none(self.entries@, *key);
        }
        None
    }

    /// Whether `key` has a recorded type.
    pub fn contains_key(&self, key: &ValueRef) -> (r: bool)
        ensures
            r == lookup(self@, *key) is Some,
    {
        self.get(key).is_some()
    }

    /// Records `ty` for `key`, replacing and returning any earlier type of `key`;
    /// the entries stay in increasing key order.
    pub fn insert(&mut self, key: ValueRef, ty: T) -> (r: Option<T>)
        ensures
            forall|k: ValueRef| #[trigger]
                lookup(final(self)@, k) == if k == key {
                    Some(ty)
                } else {
                    lookup(old(self)@, k)
                },
            r == lookup(old(self)@, key),
            final(self)@ == vt_insert(old(self)@, key, ty),
    {
        proof {
            use_type_invariant(&*self);
        }
        let ghost old_entries = self.entries@;
        let mut entries: Vec<(ValueRef, T)> = Vec::new();
        std::mem::swap(&mut entries, &mut self.entries);
        let mut i: usize = 0;
        while i < entries.len() && entries[i].0.0 < key.0
            invariant
                entries@ == old_entries,
                keys_increasing(old_entries),
                i <= old_entries.len(),
                forall|j: int| 0 <= j < i ==> old_entries[j].0.0 < key.0,
            decreases entries.len() - i,
        {
            i = i + 1;
        }
        if i < entries.len() && entries[i].0.0 == key.0 {
            let mut entry = (key, ty);
            proof {
                lemma_lookup_at(old_entries, key, i as int);
                lemma_vt_insert_at(old_entries, key, entry.1, i as int);
            }
            std::mem::swap(&mut entries[i], &mut entry);
            proof {
                let new_entries = entries@;
                assert forall|a: int, b: int| 0 <= a < b < new_entries.len() implies (#[trigger] new_entries[a]).0.0 < (#[trigger] new_entries[b]).0.0 by {
                    assert(old_entries[a].0.0 < old_entries[b].0.0);
                }
                assert(new_entries == old_entries.update(i as int, (key, ty)));
                assert forall|k: ValueRef| #[trigger]
                    lookup(new_entries, k) == if k == key {
                        Some(ty)
                    } else {
                        lookup(old_entries, k)
                    } by {
                    if k == key {
                        lemma_lookup_at(new_entries, k, i as int);
                    } else {
                        lemma_same_lookup_other(old_entries, new_entries, k, i as int);
                    }
                }
            }
            self.entries = entries;
            Some(entry.1)
        } else {
            proof {
                assert forall|j: int| 0 <= j < old_entries.len() implies old_entries[j].0 != key by {
                    if j >= i {
                        if j > i {
                            assert(old_entries[i as int].0.0 < old_entries[j].0.0);
                        }
                    }
                }
                lemma_lookup_none(old_entries, key);
            }
            proof {
                lemma_vt_insert_at(old_entries, key, ty, i as int);
            }
            entries.insert(i, (key, ty));
            proof {
                let new_entries = entries@;
                assert(new_entries =~= old_entries.insert(i as int, (key, ty)));
                assert forall|a: int, b: int| 0 <= a < b < new_entries.len() implies (#[trigger] new_entries[a]).0.0 < (#[trigger] new_entries[b]).0.0 by {
                    if b < i {
                        assert(old_entries[a].0.0 < old_entries[b].0.0);
                    } else if a < i && b == i {
                    } else if a < i {
                        assert(old_entries[a].0.0 < old_entries[b - 1].0.0);
                    } else if a == i {
                        if b - 1 > i {
                            assert(old_entries[i as int].0.0 < old_entries[b - 1].0.0);
                        }
                    } else {
                        assert(old_entries[a - 1].0.0 < old_entries[b - 1].0.0);
                    }
                }
                assert forall|k: ValueRef| #[trigger]
                    lookup(new_entries, k) == if k == key {
                        Some(ty)
                    } else {
                        lookup(old_entries, k)
                    } by {
                    lemma_lookup_insert(old_entries, i as int, key, ty, k);
                }
            }
            self.entries = entries;
            None
        }
    }
}

proof fn lemma_same_lookup_other<T>(a: Seq<(ValueRef, T)>, b: Seq<(ValueRef, T)>, k: ValueRef, i: int)
    requires
        a.len() == b.len(),
        0 <= i < a.len(),
        a[i].0 == b[i].0,
        a[i].0 != k,
        forall|j: int| 0 <= j < a.len() && j != i ==> a[j] == b[j],
    ensures
        lookup(a, k) == lookup(b, k),
    decreases a.len(),
{
    if a.len() > 0 {
        if i == 0 {
            assert(a.subrange(1, a.len() as int) =~= b.subrange(1, b.len() as int));
        } else if a[0].0 != k {
            lemma_same_lookup_other(a.subrange(1, a.len() as int), b.subrange(1, b.len() as int), k, i - 1);
        }
    }
}

proof fn lemma_lookup_insert<T>(a: Seq<(ValueRef, T)>, i: int, key: ValueRef, ty: T, k: ValueRef)
    requires
        0 <= i <= a.len(),
        forall|j: int| 0 <= j < a.len() ==> a[j].0 != key,
    ensures
        lookup(a.insert(i, (key, ty)), k) == if k == key {
            Some(ty)
        } else {
            lookup(a, k)
        },
    decreases a.len(),
{
    let b = a.insert(i, (key, ty));
    if i == 0 {
        assert(b.subrange(1, b.len() as int) =~= a);
    } else {
        assert(b[0] == a[0]);
        if a[0].0 != k {
            lemma_lookup_insert(a.subrange(1, a.len() as int), i - 1, key, ty, k);
            assert(b.subrange(1, b.len() as int) =~= a.subrange(1, a.len() as int).insert(
                i - 1,
                (key, ty),
            ));
        }
    }
}

/// A compile-time constant operand.
#[derive(Debug)]
pub enum Constant {
    Int(i64),
    Bool(bool),
    Utf8(String),
    Utf16(String),
    Unit,
}

/// An instruction operand.
#[derive(Debug)]
pub enum Operand {
    Value(ValueRef),
    Constant(Constant),
    Symbol(NamePath),
}

/// Initializer of a newly allocated array.
#[derive(Debug)]
pub enum ArrayInitialization {
    Default,
    Fill(Operand),
}

/// The operation performed by an instruction.
#[derive(Debug)]
pub enum InstructionKind {
    LoadConstant { constant: Constant, ty: Option<NyarType> },
    LoadSymbol { path: NamePath },
    Copy { source: Operand },
    StoreVar { name: Identifier, value: Operand, ty: Option<NyarType> },
    Call {
        dispatch: DispatchKind,
        callee: Operand,
        arguments: Vec<Operand>,
        witness: Option<NamePath>,
        effect: Option<EffectKind>,
        receiver_kind: Option<ReceiverPassingKind>,
        parameter_types: Option<Vec<NyarType>>,
        intrinsic_opcode: Option<IntrinsicOpcode>,
    },
    StructNew { struct_name: Identifier, fields: Vec<(Identifier, Operand)> },
    TupleNew { fields: Vec<Operand> },
    AggregateCopy { source: Operand, dest: Operand },
    FieldGet { object: Operand, field: Identifier },
    FieldSet { object: Operand, field: Identifier, value: Operand },
    SumNew {
        sum_type: Identifier,
        type_args: Vec<NyarType>,
        variant: Identifier,
        payload_type: Option<NyarType>,
        payload: Option<Operand>,
    },
    SumPayloadGet {
        sum_type: Identifier,
        type_args: Vec<NyarType>,
        variant: Identifier,
        payload_type: NyarType,
        object: Operand,
    },
    SumVariantIs { sum_type: Identifier, type_args: Vec<NyarType>, variant: Identifier, object: Operand },
    PatternMatch { value: Operand, pattern_debug: String },
    ArrayNew { array_type: NyarType, length: Operand, initialization: ArrayInitialization },
    ArrayFromElements { array_type: NyarType, elements: Vec<Operand> },
    ArrayGet { array: Operand, index: Operand },
    ArraySet { array: Operand, index: Operand, value: Operand },
    ArrayLength { array: Operand },
}

/// An instruction and the SSA values it defines (the first is its primary result).
#[derive(Debug)]
pub struct Instruction {
    pub results: Vec<ValueRef>,
    pub kind: InstructionKind,
}

/// How a call reaches its callee.
#[derive(Debug, Clone, Copy, PartialEq, Eq, Structural)]
pub enum DispatchKind {
    /// A direct call of a known callee.
    Static,
    /// A call through a function value.
    Indirect,
    /// A call dispatched through a witness table.
    Witness,
}

/// How a call's receiver is passed.
#[derive(Debug, Clone, Copy, PartialEq, Eq, Structural)]
pub enum ReceiverPassingKind {
    /// By value.
    ByValue,
    /// By address.
    ByAddress,
}

/// A structured intrinsic a call stands for, checked by arity and receiver type.
#[derive(Debug, Clone, Copy, PartialEq, Eq, Structural)]
pub enum IntrinsicOpcode {
    /// The length of an array: one array receiver.
    ArrayLen,
    /// The number of Unicode scalar values of a UTF-8 string: one UTF-8 receiver.
    Utf8ScalarLength,
    /// Structural equality of two values of one nominal sum type.
    SumStructuralEqual,
}

/// An algebraic effect performed at a block end.
#[derive(Debug, Clone, Copy, PartialEq, Eq, Structural)]
pub enum EffectKind {
    Raise,
    Yield,
    DelegateYield,
    Await,
    AsyncSpawn,
    AsyncBlock,
}

/// How a block ends.
#[derive(Debug)]
pub enum Terminator {
    Return { value: Option<Operand> },
    Jump { target: BlockRef, arguments: Vec<Operand> },
    Branch { condition: Operand, then_target: BlockRef, else_target: BlockRef },
    PerformEffect { effect: EffectKind, payload: Option<Operand>, resume_target: BlockRef },
    StateDispatch { state: ValueRef, cases: Vec<(u32, BlockRef)>, default_target: BlockRef },
    YieldToRuntime { effect: EffectKind, payload: Option<Operand>, resume_state: u32 },
    Unreachable,
}

/// A basic block with SSA parameters.
#[derive(Debug)]
pub struct Block {
    pub id: BlockRef,
    pub label: String,
    pub parameters: Vec<ValueRef>,
    pub instructions: Vec<Instruction>,
    pub terminator: Terminator,
}

/// Where an SSA value comes from.
#[derive(Debug)]
pub enum ValueOrigin {
    Parameter { index: u32, name: Identifier },
    BlockParameter { block: BlockRef, name: Identifier },
    LetBinding { name: Identifier },
    MutRefBinding { name: Identifier },
    PinMutRefBinding { name: Identifier },
    Literal,
    Path,
    CallResult,
    Temporary,
}

/// An SSA value and its origin.
#[derive(Debug)]
pub struct Value {
    pub id: ValueRef,
    pub origin: ValueOrigin,
}

/// A suspension point of a suspendable function.
#[derive(Debug, Clone, Copy, PartialEq, Eq, Structural)]
pub struct SuspendPoint {
    pub state: u32,
    pub block: BlockRef,
    pub resume_target: BlockRef,
}

/// The frame slots live across one suspension state.
#[derive(Debug, Clone, Copy, PartialEq, Eq, Structural)]
pub struct FrameLayout {
    pub state: u32,
    pub slot_count: u32,
}

/// Where execution resumes for one suspension state.
#[derive(Debug, Clone, Copy, PartialEq, Eq, Structural)]
pub struct Continuation {
    pub state: u32,
    pub target: BlockRef,
}

/// A chain of case arms dispatching on one value.
#[derive(Debug, Clone, Copy, PartialEq, Eq, Structural)]
pub struct CaseChain {
    pub scrutinee: ValueRef,
    pub entry: BlockRef,
}

/// The canonical plan for lowering a suspendable function.
#[derive(Debug, Clone, Copy, PartialEq, Eq, Structural)]
pub struct SuspendLoweringPlan {
    pub state_count: u32,
}

/// A function in the form handed to backends.
#[derive(Debug)]
pub struct ExecutableFunction {
    pub symbol: String,
    pub return_type: NyarType,
    pub param_types: Vec<NyarType>,
    pub value_types: ValueTypes<NyarType>,
    pub entry: BlockRef,
    pub values: Vec<Value>,
    pub suspend_points: Vec<SuspendPoint>,
    pub frame_layouts: Vec<FrameLayout>,
    pub continuations: Vec<Continuation>,
    pub case_chains: Vec<CaseChain>,
    pub suspend_plan: Option<SuspendLoweringPlan>,
    pub state_machine_lowered: bool,
    pub blocks: Vec<Block>,
}

} // verus!
