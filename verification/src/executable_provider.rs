//! Driver-side executable query interface: function views, suspend metadata and the
//! provider that maps operations to executable functions.
use vstd::prelude::*;
use crate::executable::{
    Block, CaseChain, Continuation, ExecutableFunction, FrameLayout, SuspendPoint,
};
use crate::names::{
    lemma_parts_order_props, lemma_parts_order_trans, parts_order, parts_order_exec,
    NamePath, QualifiedName,
};
use crate::text::{concat, ends_with, is_suffix, join, owned, str_equal};

verus! {

/// A driver-side view of one executable function.
#[derive(Debug, Clone, Copy)]
pub struct FunctionView<'a> {
    pub function: &'a ExecutableFunction,
}

impl<'a> FunctionView<'a> {
    /// The function's symbol.
    pub fn symbol(&self) -> (r: &str)
        ensures
            r@ == self.function.symbol@,
    {
        self.function.symbol.as_str()
    }

    /// The function's blocks.
    pub fn blocks(&self) -> (r: &Vec<Block>)
        ensures
            r == &self.function.blocks,
    {
        &self.function.blocks
    }

    /// The function's suspension points.
    pub fn suspend_points(&self) -> (r: &Vec<SuspendPoint>)
        ensures
            r == &self.function.suspend_points,
    {
        &self.function.suspend_points
    }

    /// The function's case chains.
    pub fn case_chains(&self) -> (r: &Vec<CaseChain>)
        ensures
            r == &self.function.case_chains,
    {
        &self.function.case_chains
    }
}

/// Minimal suspend metadata view required by suspend-aware backends.
#[derive(Debug, Clone, PartialEq, Eq)]
pub struct SuspendMetadataView {
    pub function_symbol: String,
    pub suspend_points: Vec<SuspendPoint>,
    pub frame_layouts: Vec<FrameLayout>,
    pub continuations: Vec<Continuation>,
    pub case_chains: Vec<CaseChain>,
}

impl SuspendMetadataView {
    /// The suspend metadata of a function that has a suspend plan; `None` otherwise.
    pub fn from_function(function: &ExecutableFunction) -> (r: Option<SuspendMetadataView>)
        ensures
            r is Some <==> function.suspend_plan is Some,
            r matches Some(view) ==> {
                &&& view.function_symbol@ == function.symbol@
                &&& view.suspend_points@ == function.suspend_points@
                &&& view.frame_layouts@ == function.frame_layouts@
                &&& view.continuations@ == function.continuations@
                &&& view.case_chains@ == function.case_chains@
            },
    {
        if function.suspend_plan.is_none() {
            return None;
        }
        Some(
            SuspendMetadataView {
                function_symbol: owned(function.symbol.as_str()),
                suspend_points: function.suspend_points.clone(),
                frame_layouts: function.frame_layouts.clone(),
                continuations: function.continuations.clone(),
                case_chains: function.case_chains.clone(),
            },
        )
    }
}

/// Provider of executable views for operations.
pub trait ExecutableProvider {
    /// The provider's operations with their functions, in the order `operations` lists them.
    spec fn entries(&self) -> Seq<OperationEntry>;

    /// All operations known to the provider (including non-exported helper functions).
    fn operations(&self) -> (r: Vec<QualifiedName>)
        ensures
            r@.len() == self.entries().len(),
            forall|i: int| 0 <= i < r@.len() ==> (#[trigger] r@[i])@ == self.entries()[i].0@,
    ;

    /// The function view for the given operation.
    fn get_function(&self, operation: &QualifiedName) -> (r: Option<FunctionView<'_>>)
        ensures
            r is Some <==> exists|j: int| 0 <= j < self.entries().len() && self.entries()[j].0@ == operation@,
            r matches Some(view) ==> forall|j: int|
                0 <= j < self.entries().len() && self.entries()[j].0@ == operation@ ==> view.function
                    == &self.entries()[j].1,
    ;

    /// The function whose internal symbol is exactly `symbol`.
    fn find_by_symbol(&self, symbol: &str) -> (r: Option<FunctionView<'_>>)
        ensures
            r is Some <==> exists|j: int| 0 <= j < self.entries().len() && self.entries()[j].1.symbol@ == symbol@,
            r matches Some(view) ==> view.function.symbol@ == symbol@,
    ;

    /// Suspend metadata of the operation's function, if it has suspend semantics.
    fn suspend_metadata(&self, operation: &QualifiedName) -> (r: Option<SuspendMetadataView>)
        ensures
            r is Some ==> exists|j: int|
                0 <= j < self.entries().len() && self.entries()[j].0@ == operation@
                    && self.entries()[j].1.suspend_plan is Some,
    ;
}

/// One operation and its function.
pub type OperationEntry = (QualifiedName, ExecutableFunction);

/// Operation names strictly increase along `s` (the order of a sorted map).
pub open spec fn operations_increasing(s: Seq<OperationEntry>) -> bool {
    forall|i: int, j: int| 0 <= i < j < s.len() ==> parts_order((#[trigger] s[i]).0@, (#[trigger] s[j]).0@) < 0
}

/// Index of the last entry of `s` whose operation is `key`, or -1.
pub open spec fn last_index_of_key(s: Seq<OperationEntry>, key: Seq<Seq<char>>) -> int
    decreases s.len(),
{
    if s.len() == 0 {
        -1
    } else if s.last().0@ == key {
        s.len() - 1
    } else {
        last_index_of_key(s.drop_last(), key)
    }
}

/// Index of the first entry of `s` whose function symbol is `symbol`, if any.
pub open spec fn first_index_with_symbol(s: Seq<OperationEntry>, symbol: Seq<char>) -> Option<int>
    decreases s.len(),
{
    if s.len() == 0 {
        None
    } else if s[0].1.symbol@ == symbol {
        Some(0)
    } else {
        match first_index_with_symbol(s.subrange(1, s.len() as int), symbol) {
            Some(i) => Some(i + 1),
            None => None,
        }
    }
}

/// The function found by symbol has exactly that symbol, and no earlier entry has it: lookup by
/// symbol matches whole symbols, not suffixes or other separators.
pub proof fn lemma_find_by_symbol_exact(s: Seq<OperationEntry>, symbol: Seq<char>)
    ensures
        first_index_with_symbol(s, symbol) matches Some(i) ==> 0 <= i < s.len() && s[i].1.symbol@ == symbol
            && forall|j: int| 0 <= j < i ==> s[j].1.symbol@ != symbol,
        first_index_with_symbol(s, symbol) is None ==> forall|j: int| 0 <= j < s.len() ==> s[j].1.symbol@ != symbol,
{
    lemma_first_index_with_symbol(s, symbol);
}

proof fn lemma_first_index_with_symbol(s: Seq<OperationEntry>, symbol: Seq<char>)
    ensures
        match first_index_with_symbol(s, symbol) {
            Some(i) => 0 <= i < s.len() && s[i].1.symbol@ == symbol && forall|j: int|
                0 <= j < i ==> s[j].1.symbol@ != symbol,
            None => forall|j: int| 0 <= j < s.len() ==> s[j].1.symbol@ != symbol,
        },
    decreases s.len(),
{
    if s.len() > 0 {
        let rest = s.subrange(1, s.len() as int);
        lemma_first_index_with_symbol(rest, symbol);
        assert forall|j: int| 0 < j < s.len() implies s[j] == rest[j - 1] by {}
    }
}

/// The provider backed by a map from operations to executable functions, kept sorted by
/// operation name with each operation once.
#[derive(Debug)]
pub struct MirFunctionMapProvider {
    functions: Vec<OperationEntry>,
}

impl View for MirFunctionMapProvider {
    type V = Seq<OperationEntry>;

    closed spec fn view(&self) -> Seq<OperationEntry> {
        self.functions@
    }
}

/// `registry_symbol` is exactly `simple` or ends with `.simple` / `::simple`.
pub open spec fn ends_with_simple(registry_symbol: Seq<char>, simple: Seq<char>) -> bool {
    registry_symbol == simple || is_suffix(registry_symbol, "."@ + simple) || is_suffix(
        registry_symbol,
        "::"@ + simple,
    )
}

/// True when `registry_symbol` is exactly `simple` or ends with `::simple` / `.simple`.
pub fn callee_symbol_ends_with_simple(registry_symbol: &str, simple: &str) -> (r: bool)
    ensures
        r == ends_with_simple(registry_symbol@, simple@),
{
    if str_equal(registry_symbol, simple) {
        return true;
    }
    let dotted = concat(".", simple);
    if ends_with(registry_symbol, dotted.as_str()) {
        return true;
    }
    let coloned = concat("::", simple);
    ends_with(registry_symbol, coloned.as_str())
}

/// The entries whose function symbol is `simple` or ends with `.simple` / `::simple`.
pub open spec fn symbol_matches(simple: Seq<char>) -> spec_fn(OperationEntry) -> bool {
    |e: OperationEntry| ends_with_simple(e.1.symbol@, simple)
}

/// The operation that `path` resolves to in the sorted entries `s`: the first function whose
/// symbol is the dotted path; else, for a path of several segments, the first whose symbol is
/// the `::`-joined path, or the operation named by the path itself; else, for a single
/// segment, the one operation whose function symbol ends with that segment, if exactly one does.
pub open spec fn resolved_operation(s: Seq<OperationEntry>, path: Seq<Seq<char>>) -> Option<Seq<Seq<char>>> {
    match first_index_with_symbol(s, join(path, "."@)) {
        Some(i) => Some(s[i].0@),
        None => if path.len() > 1 {
            match first_index_with_symbol(s, join(path, "::"@)) {
                Some(i) => Some(s[i].0@),
                None => if exists|i: int| 0 <= i < s.len() && s[i].0@ == path {
                    Some(path)
                } else {
                    None
                },
            }
        } else if path.len() == 1 {
            let matches = s.filter(symbol_matches(path[0]));
            if matches.len() == 1 {
                Some(matches[0].0@)
            } else {
                None
            }
        } else {
            None
        },
    }
}

impl MirFunctionMapProvider {
    #[verifier::type_invariant]
    spec fn sorted(self) -> bool {
        operations_increasing(self.functions@)
    }

    /// Builds the provider from `(operation, function)` pairs. Entries end up sorted by operation;
    /// when an operation occurs more than once, the last pair for it is kept.
    pub fn new(functions: Vec<OperationEntry>) -> (r: MirFunctionMapProvider)
        ensures
            operations_increasing(r@),
            forall|j: int| 0 <= j < r@.len() ==> from_last_pair(functions@, #[trigger] r@[j]),
            forall|i: int| 0 <= i < functions@.len() ==> has_operation(r@, (#[trigger] functions@[i]).0@),
    {
        let ghost input = functions@;
        assert(input.len() == functions.len());
        let mut rest = functions;
        let mut sorted: Vec<OperationEntry> = Vec::new();
        let mut n: usize = 0;
        while rest.len() > 0
            invariant
                rest@ == input.subrange(n as int, input.len() as int),
                n <= input.len(),
                input.len() <= usize::MAX,
                operations_increasing(sorted@),
                forall|j: int| 0 <= j < sorted@.len() ==> from_last_pair(input.take(n as int), #[trigger] sorted@[j]),
                forall|i: int| 0 <= i < n ==> has_operation(sorted@, (#[trigger] input[i]).0@),
            decreases rest.len(),
        {
            let entry = rest.remove(0);
            proof {
                assert(entry == input[n as int]);
                assert(rest@ =~= input.subrange(n + 1, input.len() as int));
            }
            let ghost prev = sorted@;
            insert_sorted(&mut sorted, entry);
            proof {
                lemma_new_step(input, n as int, prev, sorted@);
            }
            n = n + 1;
        }
        proof {
            assert(input.take(n as int) =~= input);
        }
        MirFunctionMapProvider { functions: sorted }
    }

    /// The operations, in sorted order.
    pub fn operations(&self) -> (r: Vec<QualifiedName>)
        ensures
            r@.len() == self@.len(),
            forall|i: int| 0 <= i < r@.len() ==> (#[trigger] r@[i])@ == self@[i].0@,
    {
        let mut out: Vec<QualifiedName> = Vec::new();
        let mut i: usize = 0;
        while i < self.functions.len()
            invariant
                i <= self.functions@.len(),
                out@.len() == i,
                forall|j: int| 0 <= j < i ==> (#[trigger] out@[j])@ == self.functions@[j].0@,
            decreases self.functions.len() - i,
        {
            out.push(self.functions[i].0.duplicate());
            i = i + 1;
        }
        out
    }

    /// Index of the entry for `operation`, if any.
    fn index_of(&self, operation: &QualifiedName) -> (r: Option<usize>)
        ensures
            match r {
                Some(i) => i < self@.len() && self@[i as int].0@ == operation@,
                None => forall|j: int| 0 <= j < self@.len() ==> self@[j].0@ != operation@,
            },
    {
        let mut i: usize = 0;
        while i < self.functions.len()
            invariant
                i <= self.functions@.len(),
                forall|j: int| 0 <= j < i ==> self.functions@[j].0@ != operation@,
            decreases self.functions.len() - i,
        {
            if self.functions[i].0.same_as(operation) {
                return Some(i);
            }
            i = i + 1;
        }
        None
    }

    /// The view of the function registered for `operation`.
    pub fn get_function(&self, operation: &QualifiedName) -> (r: Option<FunctionView<'_>>)
        ensures
            r is Some <==> exists|j: int| 0 <= j < self@.len() && self@[j].0@ == operation@,
            r matches Some(view) ==> forall|j: int|
                0 <= j < self@.len() && self@[j].0@ == operation@ ==> view.function == &self@[j].1,
    {
        proof {
            use_type_invariant(self);
        }
        match self.index_of(operation) {
            Some(i) => {
                proof {
                    assert forall|j: int|
                        0 <= j < self@.len() && self@[j].0@ == operation@ implies j == i by {
                        lemma_parts_order_props(self@[j].0@, self@[i as int].0@);
                    }
                }
                Some(FunctionView { function: &self.functions[i].1 })
            },
            None => None,
        }
    }

    /// The first function, in operation order, whose symbol is exactly `symbol`.
    pub fn find_by_symbol(&self, symbol: &str) -> (r: Option<FunctionView<'_>>)
        ensures
            match first_index_with_symbol(self@, symbol@) {
                Some(i) => r == Some(FunctionView { function: &self@[i].1 }),
                None => r is None,
            },
    {
        match self.first_with_symbol(symbol) {
            Some(i) => Some(FunctionView { function: &self.functions[i].1 }),
            None => None,
        }
    }

    fn first_with_symbol(&self, symbol: &str) -> (r: Option<usize>)
        ensures
            match r {
                Some(k) => first_index_with_symbol(self@, symbol@) == Some(k as int) && k < self@.len(),
                None => first_index_with_symbol(self@, symbol@) is None,
            },
    {
        proof {
            lemma_first_index_with_symbol(self@, symbol@);
        }
        let mut i: usize = 0;
        while i < self.functions.len()
            invariant
                i <= self.functions@.len(),
                forall|j: int| 0 <= j < i ==> self.functions@[j].1.symbol@ != symbol@,
                match first_index_with_symbol(self.functions@, symbol@) {
                    Some(k) => 0 <= k < self.functions@.len() && self.functions@[k].1.symbol@
                        == symbol@ && forall|j: int| 0 <= j < k ==> self.functions@[j].1.symbol@ != symbol@,
                    None => forall|j: int| 0 <= j < self.functions@.len() ==> self.functions@[j].1.symbol@ != symbol@,
                },
            decreases self.functions.len() - i,
        {
            if str_equal(self.functions[i].1.symbol.as_str(), symbol) {
                return Some(i);
            }
            i = i + 1;
        }
        None
    }

    /// Suspend metadata of the function registered for `operation`.
    pub fn suspend_metadata(&self, operation: &QualifiedName) -> (r: Option<SuspendMetadataView>)
        ensures
            r is Some ==> exists|j: int|
                0 <= j < self@.len() && self@[j].0@ == operation@ && self@[j].1.suspend_plan is Some,
            (exists|j: int|
                0 <= j < self@.len() && self@[j].0@ == operation@ && self@[j].1.suspend_plan is Some)
                ==> r is Some,
            r matches Some(view) ==> forall|j: int|
                0 <= j < self@.len() && self@[j].0@ == operation@ ==> {
                    &&& view.function_symbol@ == self@[j].1.symbol@
                    &&& view.suspend_points@ == self@[j].1.suspend_points@
                    &&& view.frame_layouts@ == self@[j].1.frame_layouts@
                    &&& view.continuations@ == self@[j].1.continuations@
                    &&& view.case_chains@ == self@[j].1.case_chains@
                },
    {
        proof {
            use_type_invariant(self);
        }
        match self.index_of(operation) {
            Some(i) => {
                proof {
                    assert forall|j: int|
                        0 <= j < self@.len() && self@[j].0@ == operation@ implies j == i by {
                        lemma_parts_order_props(self@[j].0@, self@[i as int].0@);
                    }
                }
                SuspendMetadataView::from_function(&self.functions[i].1)
            },
            None => None,
        }
    }
}

/// Inserts `entry` into the sorted entries `v`, replacing the entry of an equal operation.
fn insert_sorted(v: &mut Vec<OperationEntry>, entry: OperationEntry)
    requires
        operations_increasing(old(v)@),
    ensures
        operations_increasing(final(v)@),
        forall|k: Seq<Seq<char>>| #[trigger] has_operation(final(v)@, k) <==> (has_operation(old(v)@, k) || k == entry.0@),
        forall|j: int| 0 <= j < final(v)@.len() ==> inserted_or_kept(old(v)@, entry, #[trigger] final(v)@[j]),
{
    let ghost old_v = v@;
    let mut i: usize = 0;
    while i < v.len() && parts_order_exec(&v[i].0.parts, &entry.0.parts) < 0
        invariant
            v@ == old_v,
            operations_increasing(old_v),
            i <= v@.len(),
            forall|j: int| 0 <= j < i ==> parts_order(old_v[j].0@, entry.0@) < 0,
        decreases v.len() - i,
    {
        i = i + 1;
    }
    proof {
        lemma_parts_order_props(entry.0@, entry.0@);
        if i < old_v.len() {
            lemma_parts_order_props(old_v[i as int].0@, entry.0@);
        }
        // every entry from i on sorts at or after entry
        assert forall|j: int| i <= j < old_v.len() implies parts_order(entry.0@, old_v[j].0@) <= 0 by {
            lemma_parts_order_props(old_v[i as int].0@, entry.0@);
            if j > i {
                lemma_parts_order_props(old_v[i as int].0@, old_v[j].0@);
                lemma_parts_order_props(entry.0@, old_v[j].0@);
                if parts_order(entry.0@, old_v[i as int].0@) < 0 {
                    lemma_parts_order_trans(entry.0@, old_v[i as int].0@, old_v[j].0@);
                }
            }
        }
    }
    if i < v.len() && parts_order_exec(&v[i].0.parts, &entry.0.parts) == 0 {
        v.set(i, entry);
        proof {
            assert(v@ == old_v.update(i as int, entry));
            lemma_replace_step(old_v, i as int, entry, v@);
        }
    } else {
        v.insert(i, entry);
        proof {
            assert(v@ =~= old_v.insert(i as int, entry));
            lemma_insert_step(old_v, i as int, entry, v@);
        }
    }
}

/// Some entry of `s` is for operation `key`.
pub open spec fn has_operation(s: Seq<OperationEntry>, key: Seq<Seq<char>>) -> bool {
    exists|j: int| 0 <= j < s.len() && (#[trigger] s[j]).0@ == key
}

/// `e` carries the function of the last pair of `pairs` for its operation.
pub open spec fn from_last_pair(pairs: Seq<OperationEntry>, e: OperationEntry) -> bool {
    let k = last_index_of_key(pairs, e.0@);
    0 <= k < pairs.len() && e.1 == pairs[k].1
}

/// `e` is the newly inserted `entry`, or an entry of `old` for another operation.
pub open spec fn inserted_or_kept(old: Seq<OperationEntry>, entry: OperationEntry, e: OperationEntry) -> bool {
    if e.0@ == entry.0@ {
        e == entry
    } else {
        old.contains(e)
    }
}

/// `last_index_of_key` is the last position holding `key`, or -1 when none does.
pub proof fn lemma_last_index_of_key(s: Seq<OperationEntry>, key: Seq<Seq<char>>)
    ensures
        -1 <= last_index_of_key(s, key) < s.len(),
        last_index_of_key(s, key) >= 0 ==> s[last_index_of_key(s, key)].0@ == key,
        forall|i: int| last_index_of_key(s, key) < i < s.len() ==> (#[trigger] s[i]).0@ != key,
    decreases s.len(),
{
    if s.len() > 0 && s.last().0@ != key {
        lemma_last_index_of_key(s.drop_last(), key);
        assert forall|i: int| last_index_of_key(s, key) < i < s.len() implies (#[trigger] s[i]).0@ != key by {
            if i < s.len() - 1 {
                assert(s.drop_last()[i] == s[i]);
            }
        }
    }
}

proof fn lemma_new_step(input: Seq<OperationEntry>, n: int, prev: Seq<OperationEntry>, next: Seq<OperationEntry>)
    requires
        0 <= n < input.len(),
        forall|j: int| 0 <= j < prev.len() ==> from_last_pair(input.take(n), #[trigger] prev[j]),
        forall|i: int| 0 <= i < n ==> has_operation(prev, (#[trigger] input[i]).0@),
        forall|k: Seq<Seq<char>>| #[trigger] has_operation(next, k) <==> (has_operation(prev, k) || k == input[n].0@),
        forall|j: int| 0 <= j < next.len() ==> inserted_or_kept(prev, input[n], #[trigger] next[j]),
    ensures
        forall|j: int| 0 <= j < next.len() ==> from_last_pair(input.take(n + 1), #[trigger] next[j]),
        forall|i: int| 0 <= i < n + 1 ==> has_operation(next, (#[trigger] input[i]).0@),
{
    let pre = input.take(n);
    let post = input.take(n + 1);
    assert(post.drop_last() =~= pre);
    assert forall|j: int| 0 <= j < next.len() implies from_last_pair(post, #[trigger] next[j]) by {
        let e = next[j];
        assert(inserted_or_kept(prev, input[n], e));
        if e.0@ == input[n].0@ {
            assert(last_index_of_key(post, e.0@) == n);
        } else {
            let jj = choose|jj: int| 0 <= jj < prev.len() && prev[jj] == e;
            assert(from_last_pair(pre, prev[jj]));
            assert(last_index_of_key(post, e.0@) == last_index_of_key(pre, e.0@));
            lemma_last_index_of_key(pre, e.0@);
        }
    }
    assert forall|i: int| 0 <= i < n + 1 implies has_operation(next, (#[trigger] input[i]).0@) by {
        if i < n {
            assert(has_operation(prev, input[i].0@));
        }
    }
}

proof fn lemma_replace_step(old_v: Seq<OperationEntry>, i: int, entry: OperationEntry, v: Seq<OperationEntry>)
    requires
        operations_increasing(old_v),
        0 <= i < old_v.len(),
        old_v[i].0@ == entry.0@,
        v == old_v.update(i, entry),
    ensures
        operations_increasing(v),
        forall|k: Seq<Seq<char>>| #[trigger] has_operation(v, k) <==> (has_operation(old_v, k) || k == entry.0@),
        forall|j: int| 0 <= j < v.len() ==> inserted_or_kept(old_v, entry, #[trigger] v[j]),
{
    assert forall|a: int, b: int| 0 <= a < b < v.len() implies parts_order((#[trigger] v[a]).0@, (#[trigger] v[b]).0@) < 0 by {
        assert(parts_order(old_v[a].0@, old_v[b].0@) < 0);
    }
    assert forall|k: Seq<Seq<char>>| #[trigger] has_operation(v, k) <==> (has_operation(old_v, k) || k == entry.0@) by {
        if has_operation(old_v, k) {
            let j = choose|j: int| 0 <= j < old_v.len() && (#[trigger] old_v[j]).0@ == k;
            assert(v[j].0@ == k);
        }
        if k == entry.0@ {
            assert(v[i].0@ == k);
        }
        if has_operation(v, k) {
            let j = choose|j: int| 0 <= j < v.len() && (#[trigger] v[j]).0@ == k;
            assert(old_v[j].0@ == k);
        }
    }
    assert forall|j: int| 0 <= j < v.len() implies inserted_or_kept(old_v, entry, #[trigger] v[j]) by {
        if j != i {
            lemma_parts_order_props(old_v[j].0@, old_v[i].0@);
            if j < i {
                assert(parts_order(old_v[j].0@, old_v[i].0@) < 0);
            } else {
                assert(parts_order(old_v[i].0@, old_v[j].0@) < 0);
            }
            assert(old_v[j] == v[j]);
        }
    }
}

proof fn lemma_insert_step(old_v: Seq<OperationEntry>, i: int, entry: OperationEntry, v: Seq<OperationEntry>)
    requires
        operations_increasing(old_v),
        0 <= i <= old_v.len(),
        forall|j: int| 0 <= j < i ==> parts_order(old_v[j].0@, entry.0@) < 0,
        forall|j: int| i <= j < old_v.len() ==> parts_order(entry.0@, old_v[j].0@) <= 0,
        i < old_v.len() ==> parts_order(old_v[i].0@, entry.0@) != 0,
        v == old_v.insert(i, entry),
    ensures
        operations_increasing(v),
        forall|k: Seq<Seq<char>>| #[trigger] has_operation(v, k) <==> (has_operation(old_v, k) || k == entry.0@),
        forall|j: int| 0 <= j < v.len() ==> inserted_or_kept(old_v, entry, #[trigger] v[j]),
{
    assert forall|j: int| i <= j < old_v.len() implies parts_order(entry.0@, old_v[j].0@) < 0 by {
        lemma_parts_order_props(old_v[i].0@, entry.0@);
        if j > i {
            lemma_parts_order_props(entry.0@, old_v[j].0@);
            lemma_parts_order_props(old_v[i].0@, old_v[j].0@);
            assert(parts_order(old_v[i].0@, old_v[j].0@) < 0);
            lemma_parts_order_props(entry.0@, old_v[i].0@);
            lemma_parts_order_trans(entry.0@, old_v[i].0@, old_v[j].0@);
        }
    }
    assert forall|a: int, b: int| 0 <= a < b < v.len() implies parts_order((#[trigger] v[a]).0@, (#[trigger] v[b]).0@) < 0 by {
        if b < i {
            assert(parts_order(old_v[a].0@, old_v[b].0@) < 0);
        } else if a < i && b == i {
        } else if a < i {
            assert(parts_order(entry.0@, old_v[b - 1].0@) < 0);
            lemma_parts_order_trans(old_v[a].0@, entry.0@, old_v[b - 1].0@);
        } else if a == i {
        } else {
            assert(parts_order(old_v[a - 1].0@, old_v[b - 1].0@) < 0);
        }
    }
    assert forall|k: Seq<Seq<char>>| #[trigger] has_operation(v, k) <==> (has_operation(old_v, k) || k == entry.0@) by {
        if has_operation(old_v, k) {
            let j = choose|j: int| 0 <= j < old_v.len() && (#[trigger] old_v[j]).0@ == k;
            if j < i {
                assert(v[j].0@ == k);
            } else {
                assert(v[j + 1].0@ == k);
            }
        }
        if k == entry.0@ {
            assert(v[i].0@ == k);
        }
        if has_operation(v, k) {
            let j = choose|j: int| 0 <= j < v.len() && (#[trigger] v[j]).0@ == k;
            if j < i {
                assert(old_v[j].0@ == k);
            } else if j > i {
                assert(old_v[j - 1].0@ == k);
            }
        }
    }
    assert forall|j: int| 0 <= j < v.len() implies inserted_or_kept(old_v, entry, #[trigger] v[j]) by {
        if j < i {
            lemma_parts_order_props(old_v[j].0@, entry.0@);
            assert(old_v[j] == v[j]);
        } else if j > i {
            lemma_parts_order_props(entry.0@, old_v[j - 1].0@);
            assert(old_v[j - 1] == v[j]);
        }
    }
}

impl ExecutableProvider for MirFunctionMapProvider {
    open spec fn entries(&self) -> Seq<OperationEntry> {
        self@
    }

    fn operations(&self) -> (r: Vec<QualifiedName>)
        ensures
            r@.len() == self@.len(),
            forall|i: int| 0 <= i < r@.len() ==> (#[trigger] r@[i])@ == self@[i].0@,
    {
        MirFunctionMapProvider::operations(self)
    }

    fn get_function(&self, operation: &QualifiedName) -> (r: Option<FunctionView<'_>>)
        ensures
            r is Some <==> exists|j: int| 0 <= j < self@.len() && self@[j].0@ == operation@,
            r matches Some(view) ==> forall|j: int|
                0 <= j < self@.len() && self@[j].0@ == operation@ ==> view.function == &self@[j].1,
    {
        MirFunctionMapProvider::get_function(self, operation)
    }

    fn find_by_symbol(&self, symbol: &str) -> (r: Option<FunctionView<'_>>)
        ensures
            match first_index_with_symbol(self@, symbol@) {
                Some(i) => r == Some(FunctionView { function: &self@[i].1 }),
                None => r is None,
            },
    {
        proof {
            lemma_first_index_with_symbol(self@, symbol@);
        }
        MirFunctionMapProvider::find_by_symbol(self, symbol)
    }

    fn suspend_metadata(&self, operation: &QualifiedName) -> (r: Option<SuspendMetadataView>)
        ensures
            r is Some ==> exists|j: int|
                0 <= j < self@.len() && self@[j].0@ == operation@ && self@[j].1.suspend_plan is Some,
            (exists|j: int|
                0 <= j < self@.len() && self@[j].0@ == operation@ && self@[j].1.suspend_plan is Some)
                ==> r is Some,
            r matches Some(view) ==> forall|j: int|
                0 <= j < self@.len() && self@[j].0@ == operation@ ==> {
                    &&& view.function_symbol@ == self@[j].1.symbol@
                    &&& view.suspend_points@ == self@[j].1.suspend_points@
                    &&& view.frame_layouts@ == self@[j].1.frame_layouts@
                    &&& view.continuations@ == self@[j].1.continuations@
                    &&& view.case_chains@ == self@[j].1.case_chains@
                },
    {
        let r = MirFunctionMapProvider::suspend_metadata(self, operation);
        assert(self.entries() == self@);
        r
    }
}

/// A bare callee with no exact symbol match resolves exactly when one registry function's
/// symbol is the name or ends with `.name` / `::name`, and then to that function's operation;
/// an ambiguous bare name resolves to nothing.
pub proof fn lemma_bare_callee_unique(s: Seq<OperationEntry>, path: Seq<Seq<char>>)
    requires
        path.len() == 1,
        forall|j: int| 0 <= j < s.len() ==> s[j].1.symbol@ != path[0],
    ensures
        (resolved_operation(s, path) is Some) <==> exists|i: int| crate::search::only_at(s, symbol_matches(path[0]), i),
        forall|i: int|
            #[trigger] crate::search::only_at(s, symbol_matches(path[0]), i) ==> resolved_operation(s, path) == Some(
                s[i].0@,
            ),
{
    lemma_first_index_with_symbol(s, join(path, "."@));
    assert(join(path, "."@) == path[0]);
    crate::search::lemma_filter_single(s, symbol_matches(path[0]));
}

/// The operation of the first provider function whose symbol is exactly `symbol`.
fn operation_for_exact_symbol<P: ExecutableProvider>(executable: &P, symbol: &str) -> (r: Option<QualifiedName>)
    ensures
        match first_index_with_symbol(executable.entries(), symbol@) {
            Some(i) => r matches Some(q) && q@ == executable.entries()[i].0@,
            None => r is None,
        },
{
    let ghost s = executable.entries();
    proof {
        lemma_first_index_with_symbol(s, symbol@);
    }
    if executable.find_by_symbol(symbol).is_none() {
        return None;
    }
    let operations = executable.operations();
    let mut i: usize = 0;
    while i < operations.len()
        invariant
            s == executable.entries(),
            operations@.len() == s.len(),
            forall|k: int| 0 <= k < operations@.len() ==> (#[trigger] operations@[k])@ == s[k].0@,
            i <= operations@.len(),
            forall|j: int| 0 <= j < i ==> s[j].1.symbol@ != symbol@,
            exists|j: int| 0 <= j < s.len() && s[j].1.symbol@ == symbol@,
            match first_index_with_symbol(s, symbol@) {
                Some(f) => 0 <= f < s.len() && s[f].1.symbol@ == symbol@ && forall|j: int| 0 <= j < f ==> s[j].1.symbol@ != symbol@,
                None => forall|j: int| 0 <= j < s.len() ==> s[j].1.symbol@ != symbol@,
            },
        decreases operations.len() - i,
    {
        let found = executable.get_function(&operations[i]);
        proof {
            assert(s[i as int].0@ == operations@[i as int]@);
        }
        if let Some(view) = found {
            assert(view.function == &s[i as int].1);
            if str_equal(view.function.symbol.as_str(), symbol) {
                return Some(operations[i].duplicate());
            }
        }
        i = i + 1;
    }
    None
}

/// Resolves a static callee path to the operation it names (see [`resolved_operation`]).
pub fn resolve_static_callee_operation<P: ExecutableProvider>(executable: &P, path: &NamePath) -> (r: Option<QualifiedName>)
    ensures
        match resolved_operation(executable.entries(), path@) {
            Some(q) => r matches Some(op) && op@ == q,
            None => r is None,
        },
{
    let dotted = path.to_dotted();
    if let Some(operation) = operation_for_exact_symbol(executable, dotted.as_str()) {
        return Some(operation);
    }
    if path.parts.len() > 1 {
        let via_colon = path.to_colon_joined();
        if let Some(operation) = operation_for_exact_symbol(executable, via_colon.as_str()) {
            return Some(operation);
        }
        let qualified = QualifiedName::new(path.duplicate().parts);
        if executable.get_function(&qualified).is_some() {
            return Some(qualified);
        }
        return None;
    }
    if path.parts.len() == 1 {
        let simple = path.parts[0].as_str();
        let ghost s = executable.entries();
        let ghost pred = symbol_matches(path@[0]);
        let operations = executable.operations();
        let mut matches: Vec<usize> = Vec::new();
        let mut i: usize = 0;
        let n = operations.len();
        while i < n
            invariant
                s == executable.entries(),
                n == s.len(),
                n == operations@.len(),
                forall|k: int| 0 <= k < operations@.len() ==> (#[trigger] operations@[k])@ == s[k].0@,
                pred == symbol_matches(path@[0]),
                simple@ == path@[0],
                i <= n,
                matches@.len() == s.take(i as int).filter(pred).len(),
                forall|k: int| 0 <= k < matches@.len() ==> (#[trigger] matches@[k]) < n && s[matches@[k] as int] == s.take(i as int).filter(pred)[k],
            decreases n - i,
        {
            proof {
                reveal_with_fuel(Seq::<OperationEntry>::filter, 1);
                assert(s.take(i + 1).drop_last() =~= s.take(i as int));
                assert(s[i as int].0@ == operations@[i as int]@);
            }
            let found = executable.get_function(&operations[i]);
            if let Some(view) = found {
                assert(view.function == &s[i as int].1);
                if callee_symbol_ends_with_simple(view.function.symbol.as_str(), simple) {
                    matches.push(i);
                }
            }
            i = i + 1;
        }
        proof {
            assert(s.take(n as int) =~= s);
        }
        if matches.len() == 1 {
            return Some(operations[matches[0]].duplicate());
        }
    }
    None
}


/// A callee whose dotted path is some registry function's symbol resolves to the operation of
/// such a function.
pub proof fn lemma_dotted_symbol_resolves(s: Seq<OperationEntry>, path: Seq<Seq<char>>)
    requires
        exists|i: int| 0 <= i < s.len() && (#[trigger] s[i]).1.symbol@ == join(path, "."@),
    ensures
        resolved_operation(s, path) matches Some(q) && exists|i: int|
            0 <= i < s.len() && (#[trigger] s[i]).1.symbol@ == join(path, "."@) && s[i].0@ == q,
{
    lemma_first_index_with_symbol(s, join(path, "."@));
}

/// A callee path of several segments whose dotted form is no registry symbol resolves exactly
/// when some registry function's symbol is the `::`-joined path (to that function's operation)
/// or, failing that, when some operation is the path itself (to the path).
pub proof fn lemma_qualified_path_resolves(s: Seq<OperationEntry>, path: Seq<Seq<char>>)
    requires
        path.len() > 1,
        forall|i: int| 0 <= i < s.len() ==> (#[trigger] s[i]).1.symbol@ != join(path, "."@),
    ensures
        (exists|i: int| 0 <= i < s.len() && (#[trigger] s[i]).1.symbol@ == join(path, "::"@)) ==> (resolved_operation(
            s,
            path,
        ) matches Some(q) && exists|i: int| 0 <= i < s.len() && (#[trigger] s[i]).1.symbol@ == join(path, "::"@) && s[i].0@ == q),
        (forall|i: int| 0 <= i < s.len() ==> (#[trigger] s[i]).1.symbol@ != join(path, "::"@)) ==> (resolved_operation(s, path)
            == if exists|i: int| 0 <= i < s.len() && (#[trigger] s[i]).0@ == path {
            Some(path)
        } else {
            None
        }),
{
    lemma_first_index_with_symbol(s, join(path, "."@));
    lemma_first_index_with_symbol(s, join(path, "::"@));
}

} // verus!
