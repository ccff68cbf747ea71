//! Principal component analysis: the choice of components.

use vstd::prelude::*;

use crate::order::{less_than, lemma_less_than_irreflexive, lemma_less_than_transitive, ordered};

verus! {

/// Hyperparameters of a principal component analysis.
#[derive(Clone, Debug, Copy)]
pub struct PCAEstimator {
    dimensions: usize,
}

impl PCAEstimator {
    /// Number of components kept.
    pub closed spec fn spec_dimensions(self) -> nat {
        self.dimensions as nat
    }

    /// Estimator that keeps `dim` components; `None` when `dim` is zero.
    pub fn new(dim: usize) -> (r: Option<PCAEstimator>)
        ensures
            dim == 0 <==> r is None,
            r matches Some(e) ==> e.spec_dimensions() == dim,
    {
        if dim == 0 {
            None
        } else {
            Some(PCAEstimator { dimensions: dim })
        }
    }
}

/// The positions in `idx` are distinct and lie below `n`.
pub open spec fn distinct_positions(idx: Seq<usize>, n: nat) -> bool {
    &&& forall|p: int| 0 <= p < idx.len() ==> #[trigger] idx[p] < n
    &&& forall|p: int, q: int| 0 <= p < q < idx.len() ==> idx[p] != idx[q]
}

/// Each position in `idx` holds a value that no position outside the ones
/// chosen before it exceeds: the values come in descending order, and those
/// left out are no greater than the last one kept.
pub open spec fn descending_choice<S: PartialOrd>(values: Seq<S>, idx: Seq<usize>) -> bool {
    forall|p: int, j: int|
        0 <= p < idx.len() && 0 <= j < values.len() && !idx.take(p).contains(j as usize)
            ==> !less_than(#[trigger] values[idx[p] as int], #[trigger] values[j])
}

impl PCAEstimator {
    /// Positions of the eigenvalues whose eigenvectors form the basis: as many
    /// as there are components, in descending order of eigenvalue.
    ///
    /// `None` when more components are asked for than there are eigenvalues.
    pub fn component_order<S: PartialOrd>(&self, eigen_values: &Vec<S>) -> (r: Option<Vec<usize>>)
        ensures
            r is None <==> self.spec_dimensions() > eigen_values.len(),
            r matches Some(idx) ==> idx.len() == self.spec_dimensions() && distinct_positions(
                idx@,
                eigen_values.len() as nat,
            ),
            r matches Some(idx) ==> ordered::<S>() ==> descending_choice(eigen_values@, idx@),
            r matches Some(idx) ==> self.spec_dimensions() == eigen_values.len() ==> forall|j: usize|
                j < eigen_values.len() ==> #[trigger] idx@.contains(j),
    {
        let n = eigen_values.len();
        let k = self.dimensions;
        if k > n {
            return None;
        }
        let mut remaining: Vec<usize> = Vec::new();
        let mut i: usize = 0;
        while i < n
            invariant
                i <= n == eigen_values.len(),
                remaining.len() == i,
                forall|j: int| 0 <= j < i ==> #[trigger] remaining@[j] == j,
            decreases n - i,
        {
            remaining.push(i);
            i += 1;
        }
        assert(distinct_positions(remaining@, n as nat));
        assert forall|j: usize| j < n implies #[trigger] remaining@.contains(j) by {
            assert(remaining@[j as int] == j);
        }
        let mut idx: Vec<usize> = Vec::new();
        while idx.len() < k
            invariant
                k == self.dimensions <= n == eigen_values.len(),
                idx.len() <= k,
                remaining.len() + idx.len() == n,
                distinct_positions(idx@, n as nat),
                distinct_positions(remaining@, n as nat),
                forall|j: usize|
                    j < n ==> (#[trigger] remaining@.contains(j) <==> !idx@.contains(j)),
                ordered::<S>() ==> descending_choice(eigen_values@, idx@),
            decreases k - idx.len(),
        {
            let ghost p = idx.len() as int;
            let ghost rem = remaining@;
            let mut best: usize = 0;
            let mut t: usize = 1;
            proof {
                if ordered::<S>() {
                    lemma_less_than_irreflexive(eigen_values@[rem[0] as int]);
                }
            }
            while t < remaining.len()
                invariant
                    n == eigen_values.len(),
                    rem == remaining@,
                    distinct_positions(rem, n as nat),
                    best < t <= remaining.len(),
                    ordered::<S>() ==> forall|m: int|
                        0 <= m < t ==> !less_than(
                            eigen_values@[rem[best as int] as int],
                            #[trigger] eigen_values@[rem[m] as int],
                        ),
                decreases remaining.len() - t,
            {
                if eigen_values[remaining[best]] < eigen_values[remaining[t]] {
                    proof {
                        if ordered::<S>() {
                            assert forall|m: int| 0 <= m <= t implies !less_than(
                                eigen_values@[rem[t as int] as int],
                                #[trigger] eigen_values@[rem[m] as int],
                            ) by {
                                if m == t {
                                    lemma_less_than_irreflexive(eigen_values@[rem[m] as int]);
                                } else if less_than(
                                    eigen_values@[rem[t as int] as int],
                                    eigen_values@[rem[m] as int],
                                ) {
                                    lemma_less_than_transitive(
                                        eigen_values@[rem[best as int] as int],
                                        eigen_values@[rem[t as int] as int],
                                        eigen_values@[rem[m] as int],
                                    );
                                }
                            }
                        }
                    }
                    best = t;
                }
                t += 1;
            }
            let chosen = remaining.remove(best);
            let ghost prev = idx@;
            idx.push(chosen);
            proof {
                assert(rem[best as int] == chosen);
                assert(rem.contains(chosen));
                assert(!prev.contains(chosen));
                assert(idx@.take(p) =~= prev);
                assert(remaining@ =~= rem.remove(best as int));
                assert forall|j: usize| j < n implies (#[trigger] remaining@.contains(j) <==> !idx@.contains(
                    j,
                )) by {
                    if j == chosen {
                        assert(idx@[p] == chosen);
                        if remaining@.contains(j) {
                            let q = choose|q: int| 0 <= q < remaining@.len() && remaining@[q] == j;
                            if q < best {
                                assert(rem[q] == rem[best as int]);
                            } else {
                                assert(rem[q + 1] == rem[best as int]);
                            }
                        }
                    } else {
                        if idx@.contains(j) {
                            let q = choose|q: int| 0 <= q < idx@.len() && idx@[q] == j;
                            assert(prev[q] == j);
                        }
                        if prev.contains(j) {
                            let q = choose|q: int| 0 <= q < prev.len() && prev[q] == j;
                            assert(idx@[q] == j);
                        }
                        if rem.contains(j) {
                            let q = choose|q: int| 0 <= q < rem.len() && rem[q] == j;
                            if q < best {
                                assert(remaining@[q] == j);
                            } else {
                                assert(remaining@[q - 1] == j);
                            }
                        }
                        if remaining@.contains(j) {
                            let q = choose|q: int| 0 <= q < remaining@.len() && remaining@[q] == j;
                            if q < best {
                                assert(rem[q] == j);
                            } else {
                                assert(rem[q + 1] == j);
                            }
                        }
                    }
                }
                assert forall|q: int, m: int| 0 <= q < idx@.len() && 0 <= m < idx@.len() && q != m
                    implies idx@[q] != idx@[m] by {
                    if q == p || m == p {
                        let o = if q == p { m } else { q };
                        assert(idx@[o] == prev[o]);
                        assert(prev.contains(idx@[o]));
                    }
                }
                if ordered::<S>() {
                    assert forall|q: int, m: int|
                        0 <= q < idx@.len() && 0 <= m < n && !idx@.take(q).contains(m as usize)
                            implies !less_than(
                            #[trigger] eigen_values@[idx@[q] as int],
                            #[trigger] eigen_values@[m],
                        ) by {
                        if q < p {
                            assert(idx@.take(q) =~= prev.take(q));
                        } else {
                            assert(idx@.take(q) =~= prev);
                            assert(rem.contains(m as usize));
                            let w = choose|w: int| 0 <= w < rem.len() && rem[w] == m as usize;
                            assert(eigen_values@[rem[w] as int] == eigen_values@[m]);
                        }
                    }
                }
            }
        }
        assert forall|j: usize| k == n && j < n implies #[trigger] idx@.contains(j) by {
            if !idx@.contains(j) {
                assert(remaining@.contains(j));
                assert(remaining@.len() == 0);
            }
        }
        Some(idx)
    }
}

} // verus!
