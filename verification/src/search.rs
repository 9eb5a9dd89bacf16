//! First matches in a sequence of positions.

use vstd::prelude::*;

verus! {

/// The value of `f` at the least position below `n` at which it has one.
pub open spec fn first_some<T>(n: nat, f: spec_fn(int) -> Option<T>) -> Option<T>
    decreases n,
{
    if n == 0 {
        None
    } else {
        match first_some((n - 1) as nat, f) {
            Some(found) => Some(found),
            None => f(n - 1),
        }
    }
}

/// `first_some` has no value exactly where `f` has none anywhere below `n`.
pub proof fn lemma_first_some_none<T>(n: nat, f: spec_fn(int) -> Option<T>)
    ensures
        first_some(n, f) is None <==> forall|i: int| 0 <= i < n ==> (#[trigger] f(i)) is None,
    decreases n,
{
    if n > 0 {
        lemma_first_some_none((n - 1) as nat, f);
        if first_some(n, f) is None {
            assert forall|i: int| 0 <= i < n implies (#[trigger] f(i)) is None by {
                if i < n - 1 {
                }
            }
        } else if first_some((n - 1) as nat, f) is None {
            assert(f(n - 1) is Some);
        }
    }
}

/// What is found among the first positions stays found among more.
pub proof fn lemma_first_some_stays<T>(n: nat, m: nat, f: spec_fn(int) -> Option<T>)
    requires
        n <= m,
        first_some(n, f) is Some,
    ensures
        first_some(m, f) == first_some(n, f),
    decreases m,
{
    if n < m {
        lemma_first_some_stays(n, (m - 1) as nat, f);
    }
}

/// The least position below `n` that satisfies `p`.
pub open spec fn first_index(n: nat, p: spec_fn(int) -> bool) -> Option<int> {
    first_some(
        n,
        |i: int|
            if p(i) {
                Some(i)
            } else {
                None::<int>
            },
    )
}

/// `first_index` is the least position that satisfies `p`.
pub proof fn lemma_first_index(n: nat, p: spec_fn(int) -> bool)
    ensures
        match first_index(n, p) {
            Some(i) => 0 <= i < n && p(i) && forall|j: int| 0 <= j < i ==> !(#[trigger] p(j)),
            None => forall|j: int| 0 <= j < n ==> !(#[trigger] p(j)),
        },
    decreases n,
{
    if n > 0 {
        lemma_first_index((n - 1) as nat, p);
        let f = |i: int|
            if p(i) {
                Some(i)
            } else {
                None::<int>
            };
        assert(first_index(n, p) == match first_some((n - 1) as nat, f) {
            Some(found) => Some(found),
            None => f(n - 1),
        });
    }
}

/// A position that satisfies `p` with none before it is the first.
pub proof fn lemma_first_index_is(n: nat, p: spec_fn(int) -> bool, i: int)
    requires
        0 <= i < n,
        p(i),
        forall|j: int| 0 <= j < i ==> !(#[trigger] p(j)),
    ensures
        first_index(n, p) == Some(i),
{
    lemma_first_index(n, p);
    assert(p(i));
}

} // verus!
