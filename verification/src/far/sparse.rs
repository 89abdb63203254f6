//! Stencils in canonical form: one term per vertex, vertices in ascending
//! order, no term of weight zero.
use vstd::prelude::*;

use crate::far::weights::{
    lemma_concat, lemma_single, lemma_total_prefix, lemma_weight_at_absent, lemma_weight_bounds,
    total, weight_at, Weight,
};
use crate::Index;

verus! {

/// A list of terms is canonical where its indices ascend strictly and its
/// weights are positive.
pub open spec fn canonical(terms: Seq<(Index, Weight)>) -> bool {
    &&& forall|i: int, j: int|
        0 <= i < j < terms.len() ==> (#[trigger] terms[i]).0 < (#[trigger] terms[j]).0
    &&& forall|i: int| 0 <= i < terms.len() ==> (#[trigger] terms[i]).1 > 0
}

/// The canonical list of terms that gives each vertex `k` below `n` the
/// weight `dense(k)`.
pub open spec fn sparse(dense: spec_fn(int) -> int, n: nat) -> Seq<(Index, Weight)>
    decreases n,
{
    if n == 0 {
        Seq::empty()
    } else {
        let head = sparse(dense, (n - 1) as nat);
        if dense(n - 1) > 0 {
            head.push(((n - 1) as Index, dense(n - 1) as Weight))
        } else {
            head
        }
    }
}

/// Sum of the weights `dense(k)` of the vertices `k` below `n`.
pub open spec fn dense_total(dense: spec_fn(int) -> int, n: nat) -> int
    decreases n,
{
    if n == 0 {
        0
    } else {
        dense_total(dense, (n - 1) as nat) + dense(n - 1)
    }
}

/// Every index of a list of terms is below `limit`.
pub open spec fn indices_below(terms: Seq<(Index, Weight)>, limit: int) -> bool {
    forall|j: int| 0 <= j < terms.len() ==> (#[trigger] terms[j]).0 < limit
}

/// There is one canonical list only for given weights: a canonical list
/// over the vertices below `n` is the `sparse` list of the weights it gives.
pub proof fn lemma_canonical_is_sparse(
    terms: Seq<(Index, Weight)>,
    dense: spec_fn(int) -> int,
    n: nat,
)
    requires
        canonical(terms),
        indices_below(terms, n as int),
        n <= u32::MAX + 1,
        forall|k: int| 0 <= k < n ==> weight_at(terms, k) == #[trigger] dense(k),
    ensures
        terms == sparse(dense, n),
    decreases n,
{
    if n == 0 {
        if terms.len() > 0 {
            assert(terms[0].0 < 0);
        }
        assert(terms == Seq::<(Index, Weight)>::empty());
    } else {
        let m = (n - 1) as nat;
        if terms.len() > 0 && terms.last().0 == m {
            let head = terms.drop_last();
            assert forall|j: int| 0 <= j < head.len() implies (#[trigger] head[j]).0 < m by {
                assert(head[j] == terms[j]);
                assert(terms[j].0 < terms[terms.len() - 1].0);
            }
            assert(canonical(head)) by {
                assert forall|i: int, j: int| 0 <= i < j < head.len() implies (#[trigger] head[i]).0
                    < (#[trigger] head[j]).0 by {
                    assert(head[i] == terms[i]);
                    assert(head[j] == terms[j]);
                }
                assert forall|i: int| 0 <= i < head.len() implies (#[trigger] head[i]).1 > 0 by {
                    assert(head[i] == terms[i]);
                }
            }
            assert forall|k: int| 0 <= k < m implies weight_at(head, k) == #[trigger] dense(k) by {
                assert(weight_at(terms, k) == dense(k));
            }
            lemma_canonical_is_sparse(head, dense, m);
            lemma_weight_at_absent(head, m as int);
            assert(weight_at(terms, m as int) == dense(m as int));
            assert(terms.last().1 > 0);
            assert(head.push(terms.last()) == terms);
        } else {
            assert forall|j: int| 0 <= j < terms.len() implies (#[trigger] terms[j]).0 < m by {
                if j < terms.len() - 1 {
                    assert(terms[j].0 < terms[terms.len() - 1].0);
                }
            }
            lemma_weight_at_absent(terms, m as int);
            assert(weight_at(terms, m as int) == dense(m as int));
            lemma_canonical_is_sparse(terms, dense, m);
        }
    }
}

/// The `sparse` list is canonical, names vertices below `n` only, and gives
/// each of them the weight that it was made from, as far as that is
/// positive.
pub proof fn lemma_sparse(dense: spec_fn(int) -> int, n: nat)
    requires
        n <= u32::MAX + 1,
        forall|k: int| 0 <= k < n ==> #[trigger] dense(k) <= u64::MAX,
    ensures
        canonical(sparse(dense, n)),
        indices_below(sparse(dense, n), n as int),
        forall|k: int|
            0 <= k < n ==> weight_at(sparse(dense, n), k) == if #[trigger] dense(k) > 0 {
                dense(k)
            } else {
                0
            },
    decreases n,
{
    if n > 0 {
        let m = (n - 1) as nat;
        let head = sparse(dense, m);
        let whole = sparse(dense, n);
        lemma_sparse(dense, m);
        lemma_weight_at_absent(head, m as int);
        assert(dense(m as int) <= u64::MAX);
        if dense(m as int) > 0 {
            assert(whole.drop_last() == head);
            assert forall|i: int, j: int| 0 <= i < j < whole.len() implies (#[trigger] whole[i]).0
                < (#[trigger] whole[j]).0 by {
                assert(whole[i] == head[i]);
                if j < head.len() {
                    assert(whole[j] == head[j]);
                }
            }
            assert forall|i: int| 0 <= i < whole.len() implies (#[trigger] whole[i]).1 > 0 by {
                if i < head.len() {
                    assert(whole[i] == head[i]);
                }
            }
            assert forall|j: int| 0 <= j < whole.len() implies (#[trigger] whole[j]).0 < n by {
                if j < head.len() {
                    assert(whole[j] == head[j]);
                }
            }
        }
    }
}

/// The `sparse` list weighs what the weights that it was made from add up
/// to.
pub proof fn lemma_sparse_total(dense: spec_fn(int) -> int, n: nat)
    requires
        forall|k: int| 0 <= k < n ==> 0 <= #[trigger] dense(k) <= u64::MAX,
    ensures
        total(sparse(dense, n)) == dense_total(dense, n),
    decreases n,
{
    if n > 0 {
        let m = (n - 1) as nat;
        lemma_sparse_total(dense, m);
        assert(0 <= dense(m as int) <= u64::MAX);
        if dense(m as int) > 0 {
            assert(sparse(dense, n).drop_last() == sparse(dense, m));
        }
    }
}

/// Sums of weights are linear: where `f` is `g` plus `c` times `h` at every
/// vertex below `n`, so are the sums.
pub proof fn lemma_dense_total_linear(
    f: spec_fn(int) -> int,
    g: spec_fn(int) -> int,
    c: int,
    h: spec_fn(int) -> int,
    n: nat,
)
    requires
        forall|k: int| 0 <= k < n ==> #[trigger] f(k) == g(k) + c * h(k),
    ensures
        dense_total(f, n) == dense_total(g, n) + c * dense_total(h, n),
    decreases n,
{
    if n > 0 {
        let m = (n - 1) as nat;
        lemma_dense_total_linear(f, g, c, h, m);
        assert(f(m as int) == g(m as int) + c * h(m as int));
        assert(c * (dense_total(h, m) + h(m as int)) == c * dense_total(h, m) + c * h(m as int))
            by (nonlinear_arith);
    } else {
        assert(c * 0 == 0);
    }
}

/// Weights that are zero everywhere below `n` add up to zero.
pub proof fn lemma_dense_total_zero(f: spec_fn(int) -> int, n: nat)
    requires
        forall|k: int| 0 <= k < n ==> #[trigger] f(k) == 0,
    ensures
        dense_total(f, n) == 0,
    decreases n,
{
    if n > 0 {
        lemma_dense_total_zero(f, (n - 1) as nat);
        assert(f(n - 1) == 0);
    }
}

/// Weights that are one at vertex `v` and zero elsewhere add up to one, if
/// `v` is below `n`.
pub proof fn lemma_dense_total_unit(f: spec_fn(int) -> int, v: int, n: nat)
    requires
        0 <= v,
        forall|k: int|
            0 <= k < n ==> #[trigger] f(k) == if v == k {
                1int
            } else {
                0int
            },
    ensures
        dense_total(f, n) == if v < n {
            1int
        } else {
            0int
        },
    decreases n,
{
    if n > 0 {
        lemma_dense_total_unit(f, v, (n - 1) as nat);
        assert(f(n - 1) == if v == n - 1 {
            1int
        } else {
            0int
        });
    }
}

/// Adds `weight` to what a canonical list gives to vertex `index`: onto the
/// term of that vertex where there is one, as a new term in its place in
/// the order where there is none.
pub(crate) fn accumulate(
    out: &mut Vec<(Index, Weight)>,
    index: Index,
    weight: Weight,
    Ghost(limit): Ghost<int>,
)
    requires
        canonical(old(out)@),
        indices_below(old(out)@, limit),
        index < limit,
        weight > 0,
        total(old(out)@) + weight <= u64::MAX,
    ensures
        canonical(final(out)@),
        indices_below(final(out)@, limit),
        total(final(out)@) == total(old(out)@) + weight,
        forall|k: int|
            weight_at(final(out)@, k) == #[trigger] weight_at(old(out)@, k) + if k == index {
                weight as int
            } else {
                0
            },
{
    let ghost before = out@;
    let mut pos: usize = out.len();
    while pos > 0 && out[pos - 1].0 > index
        invariant
            pos <= out@.len(),
            out@ == before,
            forall|j: int| pos <= j < out@.len() ==> (#[trigger] out@[j]).0 > index,
        decreases pos,
    {
        pos = pos - 1;
    }
    if pos > 0 && out[pos - 1].0 == index {
        proof {
            lemma_weight_bounds(before, 0);
        }
        let merged: Weight = out[pos - 1].1 + weight;
        out.set(pos - 1, (index, merged));
        proof {
            let left = before.take(pos - 1);
            let right = before.skip(pos as int);
            assert(before == left + seq![before[pos - 1]] + right);
            assert(out@ == left + seq![(index, merged)] + right);
            assert forall|k: int|
                weight_at(out@, k) == #[trigger] weight_at(before, k) + if k == index {
                    weight as int
                } else {
                    0
                } by {
                lemma_concat(left, seq![before[pos - 1]], k);
                lemma_concat(left + seq![before[pos - 1]], right, k);
                lemma_single(before[pos - 1], k);
                lemma_concat(left, seq![(index, merged)], k);
                lemma_concat(left + seq![(index, merged)], right, k);
                lemma_single((index, merged), k);
            }
            lemma_concat(left, seq![before[pos - 1]], 0);
            lemma_concat(left + seq![before[pos - 1]], right, 0);
            lemma_single(before[pos - 1], 0);
            lemma_concat(left, seq![(index, merged)], 0);
            lemma_concat(left + seq![(index, merged)], right, 0);
            lemma_single((index, merged), 0);
        }
    } else {
        out.insert(pos, (index, weight));
        proof {
            let left = before.take(pos as int);
            let right = before.skip(pos as int);
            assert(before == left + right);
            assert(out@ == left + seq![(index, weight)] + right);
            assert forall|k: int|
                weight_at(out@, k) == #[trigger] weight_at(before, k) + if k == index {
                    weight as int
                } else {
                    0
                } by {
                lemma_concat(left, right, k);
                lemma_concat(left, seq![(index, weight)], k);
                lemma_concat(left + seq![(index, weight)], right, k);
                lemma_single((index, weight), k);
            }
            lemma_concat(left, right, 0);
            lemma_concat(left, seq![(index, weight)], 0);
            lemma_concat(left + seq![(index, weight)], right, 0);
            lemma_single((index, weight), 0);
            assert forall|i: int, j: int| 0 <= i < j < out@.len() implies (#[trigger] out@[i]).0 < (
            #[trigger] out@[j]).0 by {
                if i < pos && j > pos {
                    assert(out@[i] == before[i]);
                    assert(out@[j] == before[j - 1]);
                    if i < j - 1 {
                        assert(before[i].0 < before[j - 1].0);
                    }
                } else if i < pos && j < pos {
                    assert(before[i].0 < before[j].0);
                } else if i > pos {
                    assert(before[i - 1].0 < before[j - 1].0);
                } else if i == pos {
                    assert(out@[j] == before[j - 1]);
                } else {
                    if i < pos - 1 {
                        assert(before[i].0 < before[pos - 1].0);
                    }
                }
            }
        }
    }
}

/// Brings a list of terms into canonical form, every weight multiplied by
/// `scale`: terms of one vertex are merged into one, their weights added.
pub(crate) fn compact(row: &Vec<(Index, Weight)>, scale: Weight, Ghost(limit): Ghost<int>) -> (out:
    Vec<(Index, Weight)>)
    requires
        indices_below(row@, limit),
        scale * total(row@) <= u64::MAX,
    ensures
        canonical(out@),
        indices_below(out@, limit),
        total(out@) == scale * total(row@),
        forall|k: int| weight_at(out@, k) == scale * #[trigger] weight_at(row@, k),
{
    let mut out: Vec<(Index, Weight)> = Vec::new();
    let mut j: usize = 0;
    while j < row.len()
        invariant
            j <= row@.len(),
            canonical(out@),
            indices_below(out@, limit),
            indices_below(row@, limit),
            scale * total(row@) <= u64::MAX,
            total(out@) == scale * total(row@.take(j as int)),
            forall|k: int|
                weight_at(out@, k) == scale * #[trigger] weight_at(row@.take(j as int), k),
        decreases row@.len() - j,
    {
        let (index, weight) = row[j];
        let ghost done = row@.take(j as int);
        let ghost next = row@.take(j as int + 1);
        let ghost before = out@;
        proof {
            assert(next.drop_last() == done);
            assert(next.last() == row@[j as int]);
            lemma_total_prefix(row@, j as int + 1);
            lemma_total_prefix(row@, j as int);
            assert(scale * total(next) == scale * total(done) + scale * weight) by (nonlinear_arith)
                requires
                    total(next) == total(done) + weight,
            ;
            assert(scale * total(next) <= scale * total(row@)) by (nonlinear_arith)
                requires
                    0 <= total(next) <= total(row@),
                    0 <= scale,
            ;
            assert(0 <= scale * total(done)) by (nonlinear_arith)
                requires
                    0 <= total(done),
                    0 <= scale,
            ;
        }
        let scaled: Weight = scale * weight;
        if scaled > 0 {
            accumulate(&mut out, index, scaled, Ghost(limit));
        }
        proof {
            assert forall|k: int| weight_at(out@, k) == scale * #[trigger] weight_at(next, k) by {
                let here = if index == k {
                    weight as int
                } else {
                    0
                };
                assert(weight_at(next, k) == weight_at(done, k) + here);
                assert(weight_at(before, k) == scale * weight_at(done, k));
                assert(weight_at(out@, k) == weight_at(before, k) + if k == index {
                    scaled as int
                } else {
                    0
                });
                assert(scale * (weight_at(done, k) + here) == scale * weight_at(done, k) + scale
                    * here) by (nonlinear_arith);
            }
        }
        j = j + 1;
    }
    proof {
        assert(row@.take(j as int) == row@);
    }
    out
}

} // verus!
