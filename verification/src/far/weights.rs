//! Exact weights and the sums that the stencil contracts are stated with.
use vstd::prelude::*;

use crate::Index;

verus! {

/// Numerator of an exact weight. The denominator is carried by whatever
/// holds the weight: a refinement level or a stencil table.
pub type Weight = u64;

/// Sum of the weights of a list of (index, weight) terms.
pub open spec fn total(terms: Seq<(Index, Weight)>) -> int
    decreases terms.len(),
{
    if terms.len() == 0 {
        0
    } else {
        total(terms.drop_last()) + terms.last().1
    }
}

/// Weight that a list of terms gives to vertex `k`: the sum of the weights
/// of all terms whose index is `k`, zero where there is none.
pub open spec fn weight_at(terms: Seq<(Index, Weight)>, k: int) -> int
    decreases terms.len(),
{
    if terms.len() == 0 {
        0
    } else {
        weight_at(terms.drop_last(), k) + if terms.last().0 == k {
            terms.last().1 as int
        } else {
            0
        }
    }
}

/// The terms applied to a buffer of values: the sum, over the terms, of the
/// weight times the value at the index.
pub open spec fn weighted_sum(terms: Seq<(Index, Weight)>, values: Seq<i64>) -> int
    decreases terms.len(),
{
    if terms.len() == 0 {
        0
    } else {
        weighted_sum(terms.drop_last(), values) + terms.last().1 * values[terms.last().0 as int]
    }
}

/// The sum, over the terms, of the weight times the index itself.
pub open spec fn weighted_index_sum(terms: Seq<(Index, Weight)>) -> int
    decreases terms.len(),
{
    if terms.len() == 0 {
        0
    } else {
        weighted_index_sum(terms.drop_last()) + terms.last().1 * terms.last().0
    }
}

/// Every single weight, and the weight given to any one vertex, lies between
/// zero and the total.
pub proof fn lemma_weight_bounds(terms: Seq<(Index, Weight)>, k: int)
    ensures
        0 <= weight_at(terms, k) <= total(terms),
        forall|j: int| 0 <= j < terms.len() ==> (#[trigger] terms[j]).1 <= total(terms),
    decreases terms.len(),
{
    if terms.len() > 0 {
        lemma_weight_bounds(terms.drop_last(), k);
        assert forall|j: int| 0 <= j < terms.len() implies (#[trigger] terms[j]).1 <= total(
            terms,
        ) by {
            if j < terms.len() - 1 {
                assert(terms.drop_last()[j] == terms[j]);
            }
        }
    }
}

/// A prefix of a list of terms weighs no more than the whole list.
pub proof fn lemma_total_prefix(terms: Seq<(Index, Weight)>, n: int)
    requires
        0 <= n <= terms.len(),
    ensures
        0 <= total(terms.take(n)) <= total(terms),
    decreases terms.len(),
{
    if n == terms.len() {
        assert(terms.take(n) == terms);
        lemma_weight_bounds(terms, 0);
    } else {
        assert(terms.drop_last().take(n) == terms.take(n));
        lemma_total_prefix(terms.drop_last(), n);
    }
}

/// The total of two lists joined is the sum of their totals, and so is the
/// weight that they give to any vertex.
pub proof fn lemma_concat(a: Seq<(Index, Weight)>, b: Seq<(Index, Weight)>, k: int)
    ensures
        total(a + b) == total(a) + total(b),
        weight_at(a + b, k) == weight_at(a, k) + weight_at(b, k),
    decreases b.len(),
{
    if b.len() == 0 {
        assert(a + b == a);
    } else {
        assert((a + b).drop_last() == a + b.drop_last());
        lemma_concat(a, b.drop_last(), k);
    }
}

/// A list of one term weighs what the term weighs, at the term's vertex.
pub proof fn lemma_single(term: (Index, Weight), k: int)
    ensures
        total(seq![term]) == term.1,
        weight_at(seq![term], k) == if term.0 == k {
            term.1 as int
        } else {
            0
        },
{
    assert(seq![term].drop_last() == Seq::<(Index, Weight)>::empty());
    assert(total(seq![term]) == total(seq![term].drop_last()) + seq![term].last().1);
    assert(weight_at(seq![term], k) == weight_at(seq![term].drop_last(), k) + if seq![
        term,
    ].last().0 == k {
        seq![term].last().1 as int
    } else {
        0
    });
}

/// A vertex that no term names has weight zero.
pub proof fn lemma_weight_at_absent(terms: Seq<(Index, Weight)>, k: int)
    requires
        forall|j: int| 0 <= j < terms.len() ==> (#[trigger] terms[j]).0 != k,
    ensures
        weight_at(terms, k) == 0,
    decreases terms.len(),
{
    if terms.len() > 0 {
        let head = terms.drop_last();
        assert forall|j: int| 0 <= j < head.len() implies (#[trigger] head[j]).0 != k by {
            assert(head[j] == terms[j]);
        }
        lemma_weight_at_absent(head, k);
    }
}

/// Applied to a buffer in which every vertex holds its own index, a list of
/// terms gives the sum of its indices, each times its weight.
pub proof fn lemma_identity_buffer(terms: Seq<(Index, Weight)>, values: Seq<i64>)
    requires
        forall|j: int| 0 <= j < terms.len() ==> (#[trigger] terms[j]).0 < values.len(),
        forall|k: int| 0 <= k < values.len() ==> #[trigger] values[k] == k,
    ensures
        weighted_sum(terms, values) == weighted_index_sum(terms),
    decreases terms.len(),
{
    if terms.len() > 0 {
        let head = terms.drop_last();
        assert forall|j: int| 0 <= j < head.len() implies (#[trigger] head[j]).0 < values.len() by {
            assert(head[j] == terms[j]);
        }
        lemma_identity_buffer(head, values);
        assert(terms[terms.len() - 1].0 < values.len());
    }
}

/// Applied to a buffer in which every vertex holds the same value, a list
/// of terms gives that value times the total of its weights: a stencil,
/// whose weights add up to one, gives the value back.
pub proof fn lemma_constant_buffer(terms: Seq<(Index, Weight)>, values: Seq<i64>, c: i64)
    requires
        forall|j: int| 0 <= j < terms.len() ==> (#[trigger] terms[j]).0 < values.len(),
        forall|k: int| 0 <= k < values.len() ==> #[trigger] values[k] == c,
    ensures
        weighted_sum(terms, values) == total(terms) * c,
    decreases terms.len(),
{
    if terms.len() > 0 {
        let head = terms.drop_last();
        let w = terms.last().1 as int;
        assert forall|j: int| 0 <= j < head.len() implies (#[trigger] head[j]).0 < values.len() by {
            assert(head[j] == terms[j]);
        }
        lemma_constant_buffer(head, values, c);
        assert(terms[terms.len() - 1].0 < values.len());
        assert((total(head) + w) * c == total(head) * c + w * c) by (nonlinear_arith);
    }
}

/// What a list of terms gives lies within its total times the range of the
/// values.
pub proof fn lemma_weighted_sum_bounds(terms: Seq<(Index, Weight)>, values: Seq<i64>)
    ensures
        -total(terms) * 0x8000_0000_0000_0000 <= weighted_sum(terms, values) <= total(terms)
            * 0x8000_0000_0000_0000,
    decreases terms.len(),
{
    if terms.len() > 0 {
        let head = terms.drop_last();
        let w = terms.last().1 as int;
        let v = values[terms.last().0 as int] as int;
        lemma_weighted_sum_bounds(head, values);
        assert(-w * 0x8000_0000_0000_0000 <= w * v <= w * 0x8000_0000_0000_0000)
            by (nonlinear_arith)
            requires
                0 <= w,
                -0x8000_0000_0000_0000 <= v <= 0x8000_0000_0000_0000,
        ;
        assert((total(head) + w) * 0x8000_0000_0000_0000 == total(head) * 0x8000_0000_0000_0000 + w
            * 0x8000_0000_0000_0000) by (nonlinear_arith);
        assert(-(total(head) + w) * 0x8000_0000_0000_0000 == -total(head) * 0x8000_0000_0000_0000
            - w * 0x8000_0000_0000_0000) by (nonlinear_arith);
    }
}

} // verus!
