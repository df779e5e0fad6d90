//! Ordered selection from an index range: the building block of every move
//! list in this crate.

use vstd::prelude::*;

verus! {

/// The values `at(k)` for those `k` in `0..n` with `keep(k)`, in increasing
/// order of `k`.
pub open spec fn gather<T>(n: nat, keep: spec_fn(int) -> bool, at: spec_fn(int) -> T) -> Seq<T>
    decreases n,
{
    if n == 0 {
        Seq::empty()
    } else if keep(n - 1) {
        gather((n - 1) as nat, keep, at).push(at(n - 1))
    } else {
        gather((n - 1) as nat, keep, at)
    }
}

/// Every element of a gathered list comes from a kept index.
pub proof fn lemma_gather_index<T>(
    n: nat,
    keep: spec_fn(int) -> bool,
    at: spec_fn(int) -> T,
    i: int,
) -> (k: int)
    requires
        0 <= i < gather(n, keep, at).len(),
    ensures
        0 <= k < n,
        keep(k),
        at(k) == gather(n, keep, at)[i],
    decreases n,
{
    if keep(n - 1) {
        if i == gather((n - 1) as nat, keep, at).len() {
            n - 1
        } else {
            lemma_gather_index((n - 1) as nat, keep, at, i)
        }
    } else {
        lemma_gather_index((n - 1) as nat, keep, at, i)
    }
}

/// Every kept index contributes its value to the gathered list.
pub proof fn lemma_gather_kept<T>(
    n: nat,
    keep: spec_fn(int) -> bool,
    at: spec_fn(int) -> T,
    k: int,
) -> (i: int)
    requires
        0 <= k < n,
        keep(k),
    ensures
        0 <= i < gather(n, keep, at).len(),
        gather(n, keep, at)[i] == at(k),
    decreases n,
{
    if k == n - 1 {
        gather((n - 1) as nat, keep, at).len() as int
    } else {
        lemma_gather_kept((n - 1) as nat, keep, at, k)
    }
}

/// Two selections that agree index by index gather the same list.
pub proof fn lemma_gather_agree<T>(
    n: nat,
    keep_one: spec_fn(int) -> bool,
    at_one: spec_fn(int) -> T,
    keep_two: spec_fn(int) -> bool,
    at_two: spec_fn(int) -> T,
)
    requires
        forall|k: int| 0 <= k < n ==> #[trigger] keep_one(k) == keep_two(k),
        forall|k: int| 0 <= k < n && keep_one(k) ==> #[trigger] at_one(k) == at_two(k),
    ensures
        gather(n, keep_one, at_one) == gather(n, keep_two, at_two),
    decreases n,
{
    if n > 0 {
        lemma_gather_agree((n - 1) as nat, keep_one, at_one, keep_two, at_two);
    }
}

/// The sum of `term(k)` over `k` in `0..n`.
pub open spec fn total(n: nat, term: spec_fn(int) -> int) -> int
    decreases n,
{
    if n == 0 {
        0
    } else {
        total((n - 1) as nat, term) + term(n - 1)
    }
}

/// A sum of bounded terms is bounded.
pub proof fn lemma_total_bounds(n: nat, term: spec_fn(int) -> int, low: int, high: int)
    requires
        forall|k: int| 0 <= k < n ==> low <= #[trigger] term(k) <= high,
    ensures
        n * low <= total(n, term) <= n * high,
    decreases n,
{
    if n == 0 {
        assert(n * low == 0 && n * high == 0) by (nonlinear_arith)
            requires
                n == 0,
        ;
    } else {
        let m = (n - 1) as nat;
        lemma_total_bounds(m, term, low, high);
        assert(n * low == m * low + low && n * high == m * high + high) by (nonlinear_arith)
            requires
                n == m + 1,
        ;
    }
}

/// A value is in a gathered list exactly when it is the value of a kept
/// index.
pub proof fn lemma_gather_contains<T>(
    n: nat,
    keep: spec_fn(int) -> bool,
    at: spec_fn(int) -> T,
    value: T,
)
    ensures
        gather(n, keep, at).contains(value) <==> exists|k: int|
            0 <= k < n && #[trigger] keep(k) && at(k) == value,
{
    let list = gather(n, keep, at);
    if list.contains(value) {
        let i = choose|i: int| 0 <= i < list.len() && list[i] == value;
        let k = lemma_gather_index(n, keep, at, i);
        assert(0 <= k < n && keep(k) && at(k) == value);
    }
    if exists|k: int| 0 <= k < n && #[trigger] keep(k) && at(k) == value {
        let k = choose|k: int| 0 <= k < n && #[trigger] keep(k) && at(k) == value;
        let i = lemma_gather_kept(n, keep, at, k);
        assert(list[i] == value);
    }
}

} // verus!
