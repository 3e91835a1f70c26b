use vstd::prelude::*;

use itertools::Itertools;

verus! {

/// The orderings of `0..n` that `itertools`' `permutations(n)` yields, in
/// the order it yields them: every ordering once, in increasing
/// lexicographic order (see `index_orderings`).
pub uninterp spec fn index_permutations(n: usize) -> Seq<Seq<usize>>;

/// Whether `perm` is an ordering of `0..n`: `n` distinct indices below `n`.
pub open spec fn is_ordering(perm: Seq<usize>, n: usize) -> bool {
    &&& perm.len() == n
    &&& forall|k: int| 0 <= k < n ==> #[trigger] perm[k] < n
    &&& forall|a: int, b: int| 0 <= a < b < n ==> perm[a] != perm[b]
}

pub open spec fn orderings_view(v: Vec<Vec<usize>>) -> Seq<Seq<usize>> {
    Seq::new(v@.len(), |i: int| v@[i]@)
}

/// `a` comes before `b` in lexicographic order: at the first place where
/// they differ, `a` is smaller.
pub open spec fn lex_less(a: Seq<usize>, b: Seq<usize>) -> bool {
    exists|k: int|
        0 <= k < a.len() && k < b.len() && a[k] < b[k] && forall|j: int| 0 <= j < k ==> #[trigger] a[j] == b[j]
}

/// `Itertools::permutations` on `0..n` with `k == n`: by its documentation
/// and its source (the lexicographic algorithm on the positions of the
/// items, which here are the items themselves), every ordering of `0..n`
/// exactly once, in increasing lexicographic order; for `n == 0` the one
/// empty ordering. The contract names the sequence and states that it holds
/// every ordering, only orderings, and in strictly increasing lexicographic
/// order, which determines it.
#[verifier::external_body]
pub(crate) fn index_orderings(n: usize) -> (r: Vec<Vec<usize>>)
    ensures
        orderings_view(r) == index_permutations(n),
        forall|i: int| 0 <= i < r@.len() ==> #[trigger] is_ordering(r@[i]@, n),
        forall|i: int, j: int| 0 <= i < j < r@.len() ==> lex_less(#[trigger] r@[i]@, #[trigger] r@[j]@),
        forall|perm: Seq<usize>| #[trigger] is_ordering(perm, n) ==> exists|i: int| 0 <= i < r@.len() && r@[i]@ == perm,
{
    (0..n).permutations(n).collect()
}

} // verus!
