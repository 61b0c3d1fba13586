//! The first element of a sequence that satisfies a predicate.

use vstd::prelude::*;

verus! {

/// `i` is the least index of `s` whose element satisfies `p`.
pub open spec fn is_first<T>(s: Seq<T>, p: spec_fn(T) -> bool, i: int) -> bool {
    &&& 0 <= i < s.len()
    &&& p(s[i])
    &&& forall|j: int| 0 <= j < i ==> !p(#[trigger] s[j])
}

/// No element of `s` satisfies `p`.
pub open spec fn none_of<T>(s: Seq<T>, p: spec_fn(T) -> bool) -> bool {
    forall|j: int| 0 <= j < s.len() ==> !p(#[trigger] s[j])
}

/// The least index of `s` whose element satisfies `p`, if there is one.
pub open spec fn first_index<T>(s: Seq<T>, p: spec_fn(T) -> bool) -> Option<int> {
    if exists|i: int| is_first(s, p, i) {
        Some(choose|i: int| is_first(s, p, i))
    } else {
        None
    }
}

/// The least index is the only one that `is_first` holds of.
pub proof fn lemma_first_index_found<T>(s: Seq<T>, p: spec_fn(T) -> bool, i: int)
    requires
        is_first(s, p, i),
    ensures
        first_index(s, p) == Some(i),
{
    let k = choose|k: int| is_first(s, p, k);
    if k < i {
        assert(!p(s[k]));
    } else if i < k {
        assert(!p(s[i]));
    }
}

/// Where no element satisfies `p` there is no first one.
pub proof fn lemma_first_index_absent<T>(s: Seq<T>, p: spec_fn(T) -> bool)
    requires
        none_of(s, p),
    ensures
        first_index(s, p) is None,
{
    if exists|i: int| is_first(s, p, i) {
        let k = choose|k: int| is_first(s, p, k);
        assert(!p(s[k]));
    }
}

/// What `first_index` returns is the least index, and `None` only where nothing satisfies `p`.
pub proof fn lemma_first_index<T>(s: Seq<T>, p: spec_fn(T) -> bool)
    ensures
        match first_index(s, p) {
            Some(i) => is_first(s, p, i),
            None => none_of(s, p),
        },
{
    if !(exists|i: int| is_first(s, p, i)) {
        lemma_no_first(s, p, s.len() as int);
    }
}

proof fn lemma_no_first<T>(s: Seq<T>, p: spec_fn(T) -> bool, n: int)
    requires
        0 <= n <= s.len(),
        !(exists|i: int| is_first(s, p, i)),
    ensures
        forall|j: int| 0 <= j < n ==> !p(#[trigger] s[j]),
    decreases n,
{
    if n > 0 {
        lemma_no_first(s, p, n - 1);
        if p(s[n - 1]) {
            assert(is_first(s, p, n - 1));
        }
    }
}

/// One element more: the first index among the first `i + 1` elements is
/// that among the first `i`, if there is one, and else `i` where the element
/// at `i` satisfies `p`.
pub proof fn lemma_first_index_step<T>(s: Seq<T>, p: spec_fn(T) -> bool, i: int)
    requires
        0 <= i < s.len(),
    ensures
        first_index(s.take(i + 1), p) == match first_index(s.take(i), p) {
            Some(k) => Some(k),
            None => if p(s[i]) {
                Some(i)
            } else {
                None
            },
        },
{
    let seen = s.take(i);
    let next = s.take(i + 1);
    lemma_first_index(seen, p);
    assert(next[i] == s[i]);
    assert forall|q: int| 0 <= q < i implies #[trigger] next[q] == seen[q] by {}
    match first_index(seen, p) {
        Some(k) => {
            assert(next[k] == seen[k]);
            assert forall|q: int| 0 <= q < k implies !p(#[trigger] next[q]) by {
                assert(next[q] == seen[q]);
            }
            assert(is_first(next, p, k));
            lemma_first_index_found(next, p, k);
        },
        None => {
            assert forall|q: int| 0 <= q < i implies !p(#[trigger] next[q]) by {
                assert(next[q] == seen[q]);
            }
            if p(s[i]) {
                assert(is_first(next, p, i));
                lemma_first_index_found(next, p, i);
            } else {
                assert(none_of(next, p));
                lemma_first_index_absent(next, p);
            }
        },
    }
}

} // verus!
