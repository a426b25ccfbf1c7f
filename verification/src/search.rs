//! First-match search over sequences, and first-error combination.
use vstd::prelude::*;

verus! {

/// Index of the first element of `s` satisfying `p`.
pub open spec fn first_index<T>(s: Seq<T>, p: spec_fn(T) -> bool) -> Option<int>
    decreases s.len(),
{
    if s.len() == 0 {
        None
    } else if p(s[0]) {
        Some(0)
    } else {
        match first_index(s.subrange(1, s.len() as int), p) {
            Some(i) => Some(i + 1),
            None => None,
        }
    }
}

/// What `first_index` returns.
pub proof fn lemma_first_index<T>(s: Seq<T>, p: spec_fn(T) -> bool)
    ensures
        match first_index(s, p) {
            Some(i) => 0 <= i < s.len() && p(s[i]) && forall|j: int| 0 <= j < i ==> !p(#[trigger] s[j]),
            None => forall|j: int| 0 <= j < s.len() ==> !p(#[trigger] s[j]),
        },
    decreases s.len(),
{
    if s.len() > 0 {
        let rest = s.subrange(1, s.len() as int);
        lemma_first_index(rest, p);
        assert forall|j: int| 0 < j < s.len() implies s[j] == rest[j - 1] by {}
    }
}

/// `first_index` is `i` when `s[i]` satisfies `p` and no earlier element does.
pub proof fn lemma_first_index_is<T>(s: Seq<T>, p: spec_fn(T) -> bool, i: int)
    requires
        0 <= i < s.len(),
        p(s[i]),
        forall|j: int| 0 <= j < i ==> !p(#[trigger] s[j]),
    ensures
        first_index(s, p) == Some(i),
{
    lemma_first_index(s, p);
    match first_index(s, p) {
        Some(k) => {
            if k < i {
                assert(!p(s[k]));
            } else if k > i {
                assert(!p(s[i]));
            }
        },
        None => {
            assert(!p(s[i]));
        },
    }
}

/// `first_index` is `None` when no element satisfies `p`.
pub proof fn lemma_first_index_none<T>(s: Seq<T>, p: spec_fn(T) -> bool)
    requires
        forall|j: int| 0 <= j < s.len() ==> !p(#[trigger] s[j]),
    ensures
        first_index(s, p) is None,
{
    lemma_first_index(s, p);
    if let Some(k) = first_index(s, p) {
        assert(!p(s[k]));
    }
}

/// `first_index` after appending one element: an earlier match stays the first.
pub proof fn lemma_first_index_push<T>(s: Seq<T>, x: T, p: spec_fn(T) -> bool)
    ensures
        first_index(s.push(x), p) == match first_index(s, p) {
            Some(i) => Some(i),
            None => if p(x) {
                Some(s.len() as int)
            } else {
                None
            },
        },
{
    let t = s.push(x);
    lemma_first_index(s, p);
    assert forall|j: int| 0 <= j < s.len() implies t[j] == s[j] by {}
    match first_index(s, p) {
        Some(i) => {
            lemma_first_index_is(t, p, i);
        },
        None => {
            if p(x) {
                lemma_first_index_is(t, p, s.len() as int);
            } else {
                lemma_first_index_none(t, p);
            }
        },
    }
}

/// `i` is the only index whose element satisfies `p`.
pub open spec fn only_at<T>(s: Seq<T>, p: spec_fn(T) -> bool, i: int) -> bool {
    0 <= i < s.len() && p(s[i]) && forall|j: int| 0 <= j < s.len() && p(#[trigger] s[j]) ==> j == i
}

proof fn lemma_only_at_filter<T>(s: Seq<T>, p: spec_fn(T) -> bool, i: int)
    requires
        only_at(s, p, i),
    ensures
        s.filter(p) =~= seq![s[i]],
    decreases s.len(),
{
    reveal(Seq::filter);
    let t = s.drop_last();
    assert forall|j: int| 0 <= j < t.len() implies t[j] == s[j] by {}
    if i == s.len() - 1 {
        lemma_filter_none(t, p);
        assert forall|j: int| 0 <= j < t.len() implies !p(t[j]) by {
            if p(t[j]) {
                assert(p(s[j]));
            }
        }
    } else {
        assert(!p(s[s.len() - 1]));
        assert forall|j: int| 0 <= j < t.len() && p(#[trigger] t[j]) implies j == i by {
            assert(p(s[j]));
        }
        lemma_only_at_filter(t, p, i);
    }
}

proof fn lemma_filter_one_only_at<T>(s: Seq<T>, p: spec_fn(T) -> bool)
    requires
        s.filter(p).len() == 1,
    ensures
        exists|i: int| only_at(s, p, i),
    decreases s.len(),
{
    reveal(Seq::filter);
    let t = s.drop_last();
    assert forall|j: int| 0 <= j < t.len() implies t[j] == s[j] by {}
    if p(s.last()) {
        lemma_filter_none(t, p);
        let i = s.len() - 1;
        assert forall|j: int| 0 <= j < s.len() && p(#[trigger] s[j]) implies j == i by {
            if j < t.len() {
                assert(!p(t[j]));
            }
        }
        assert(only_at(s, p, i));
    } else {
        lemma_filter_one_only_at(t, p);
        let i = choose|i: int| only_at(t, p, i);
        assert forall|j: int| 0 <= j < s.len() && p(#[trigger] s[j]) implies j == i by {
            if j < t.len() {
                assert(p(t[j]));
            }
        }
        assert(only_at(s, p, i));
    }
}

/// The elements satisfying `p` count one exactly when one index does, and then the filter
/// keeps that element alone.
pub proof fn lemma_filter_single<T>(s: Seq<T>, p: spec_fn(T) -> bool)
    ensures
        (s.filter(p).len() == 1) <==> exists|i: int| only_at(s, p, i),
        forall|i: int| #[trigger] only_at(s, p, i) ==> s.filter(p) =~= seq![s[i]],
{
    if s.filter(p).len() == 1 {
        lemma_filter_one_only_at(s, p);
    }
    assert forall|i: int| #[trigger] only_at(s, p, i) implies s.filter(p) =~= seq![s[i]] by {
        lemma_only_at_filter(s, p, i);
    }
}

/// No element satisfies `p` exactly when the filter is empty.
pub proof fn lemma_filter_none<T>(s: Seq<T>, p: spec_fn(T) -> bool)
    ensures
        (s.filter(p).len() == 0) <==> forall|i: int| 0 <= i < s.len() ==> !p(s[i]),
    decreases s.len(),
{
    reveal(Seq::filter);
    if s.len() > 0 {
        let t = s.drop_last();
        lemma_filter_none(t, p);
        assert forall|j: int| 0 <= j < t.len() implies t[j] == s[j] by {}
        if !p(s.last()) {
            if exists|i: int| 0 <= i < s.len() && p(s[i]) {
                let i = choose|i: int| 0 <= i < s.len() && p(s[i]);
                assert(i < t.len());
                assert(p(t[i]));
            }
        }
    }
}

/// `a` when it is an error, otherwise `b`.
pub open spec fn or_else<E>(a: Option<E>, b: Option<E>) -> Option<E> {
    if a is Some {
        a
    } else {
        b
    }
}

} // verus!
