//! Flattening a chain of refinement levels into stencils over the coarse
//! mesh: what the result is.
//!
//! The vertices of the coarse mesh are stencils of one term. The stencil of
//! a vertex of any later level is its mask with every vertex of the level
//! before replaced by that vertex's stencil, the weights multiplied through
//! and the terms of one coarse vertex merged into one.
use vstd::prelude::*;

use crate::far::sparse::{
    canonical, dense_total, indices_below, lemma_canonical_is_sparse, lemma_dense_total_linear,
    lemma_dense_total_unit, lemma_dense_total_zero, lemma_sparse, lemma_sparse_total, sparse,
};
use crate::far::stencil_table::{
    lemma_table_of_stencils, prefix_sum, ConstructionError, LevelScope, TableView,
};
use crate::far::topology_refiner::Channel;
use crate::far::weights::{lemma_single, total, weight_at, Weight};
use crate::Index;

verus! {

/// Number of terms of a list of stencils.
pub open spec fn term_count(stencils: Seq<Seq<(Index, Weight)>>) -> int
    decreases stencils.len(),
{
    if stencils.len() == 0 {
        0
    } else {
        term_count(stencils.drop_last()) + stencils.last().len()
    }
}

impl Channel {
    /// The stencil of vertex `v` of level `l` over the coarse mesh, in
    /// canonical form, with the product of all denominators as denominator.
    pub open spec fn stencil(&self, l: nat, v: int) -> Seq<(Index, Weight)> {
        sparse(
            |k: int| self.denominator_after(l) * self.coarse_weight(l, v, k),
            self.coarse_vertices as nat,
        )
    }

    /// The stencils of all vertices of level `l`.
    pub open spec fn level_stencils(&self, l: nat) -> Seq<Seq<(Index, Weight)>> {
        Seq::new(self.vertex_count(l as int), |v: int| self.stencil(l, v))
    }

    /// The stencils of all vertices of the levels below `l`, coarsest level
    /// first.
    pub open spec fn stencils_below(&self, l: nat) -> Seq<Seq<(Index, Weight)>>
        decreases l,
    {
        if l == 0 {
            Seq::empty()
        } else {
            self.stencils_below((l - 1) as nat) + self.level_stencils((l - 1) as nat)
        }
    }

    /// The stencils that a table of the given scope holds.
    pub open spec fn table_stencils(&self, scope: LevelScope) -> Seq<Seq<(Index, Weight)>> {
        match scope {
            LevelScope::LastLevelOnly => self.level_stencils(self.depth()),
            LevelScope::AllLevelsCumulative => self.stencils_below(self.depth() + 1),
        }
    }

    /// The table is the one that flattening this channel gives: it holds
    /// the stencils of the given scope, over the vertices of the coarse
    /// mesh, with the product of all denominators as denominator, and the
    /// offsets where they are asked for.
    pub open spec fn flattens_to(
        &self,
        scope: LevelScope,
        generate_offsets: bool,
        table: TableView,
    ) -> bool {
        &&& table.wf()
        &&& table.control_vertices == self.coarse_vertices
        &&& table.denominator == self.denominator_through(self.depth())
        &&& table.stencils() == self.table_stencils(scope)
        &&& table.offsets.len() == if generate_offsets {
            table.sizes.len()
        } else {
            0
        }
    }

    /// Why no table of the given scope can be built, if there is a reason.
    pub open spec fn construction_error(&self, scope: LevelScope) -> Option<ConstructionError> {
        if self.coarse_vertices == 0 {
            Some(ConstructionError::EmptyRefiner)
        } else if !self.consistent() {
            Some(ConstructionError::InconsistentRefiner)
        } else if self.denominator_through(self.depth()) > u64::MAX {
            Some(ConstructionError::WeightRange)
        } else if self.table_stencils(scope).len() > u32::MAX || term_count(
            self.table_stencils(scope),
        ) > u32::MAX {
            Some(ConstructionError::TableTooLarge)
        } else {
            None
        }
    }
}

/// In a consistent channel the denominators are positive, and the product
/// up to a level times the product above it is the product of all.
pub proof fn lemma_denominators(channel: &Channel, l: nat)
    requires
        channel.consistent(),
        l <= channel.depth(),
    ensures
        channel.denominator_through(l) >= 1,
        channel.denominator_after(l) >= 1,
        channel.denominator_through(l) * channel.denominator_after(l)
            == channel.denominator_through(channel.depth()),
    decreases channel.depth() - l,
{
    lemma_denominator_through_positive(channel, l);
    if l < channel.depth() {
        lemma_denominators(channel, l + 1);
        let unit = channel.levels@[l as int].denominator as int;
        assert(channel.levels@[(l + 1) - 1].consistent(channel.vertex_count((l + 1) - 1) as int));
        let through = channel.denominator_through(l);
        let after = channel.denominator_after(l + 1);
        assert(channel.denominator_through(l + 1) == through * unit);
        assert(channel.denominator_after(l) == unit * after);
        assert(through * (unit * after) == (through * unit) * after) by (nonlinear_arith);
        assert(unit * after >= 1) by (nonlinear_arith)
            requires
                unit >= 1,
                after >= 1,
        ;
    } else {
        assert(channel.denominator_through(l) * 1 == channel.denominator_through(l));
    }
}

/// In a consistent channel the product of the denominators up to any level
/// is positive.
proof fn lemma_denominator_through_positive(channel: &Channel, l: nat)
    requires
        channel.consistent(),
        l <= channel.depth(),
    ensures
        channel.denominator_through(l) >= 1,
    decreases l,
{
    if l > 0 {
        lemma_denominator_through_positive(channel, (l - 1) as nat);
        let unit = channel.levels@[l - 1].denominator as int;
        let through = channel.denominator_through((l - 1) as nat);
        assert(channel.levels@[l - 1].consistent(channel.vertex_count(l - 1) as int));
        assert(through * unit >= 1) by (nonlinear_arith)
            requires
                unit >= 1,
                through >= 1,
        ;
    }
}

/// Joining two lists of stencils adds up their numbers of terms.
pub proof fn lemma_term_count_concat(a: Seq<Seq<(Index, Weight)>>, b: Seq<Seq<(Index, Weight)>>)
    ensures
        term_count(a + b) == term_count(a) + term_count(b),
        term_count(b) >= 0,
    decreases b.len(),
{
    if b.len() == 0 {
        assert(a + b == a);
    } else {
        assert((a + b).drop_last() == a + b.drop_last());
        lemma_term_count_concat(a, b.drop_last());
    }
}

/// The stencils of the levels below `a` are among those of the levels below
/// any `b` above it.
pub proof fn lemma_stencils_below_grow(channel: &Channel, a: nat, b: nat)
    requires
        a <= b,
    ensures
        channel.stencils_below(a).len() <= channel.stencils_below(b).len(),
        term_count(channel.stencils_below(a)) <= term_count(channel.stencils_below(b)),
    decreases b,
{
    if a < b {
        lemma_stencils_below_grow(channel, a, (b - 1) as nat);
        lemma_term_count_concat(
            channel.stencils_below((b - 1) as nat),
            channel.level_stencils((b - 1) as nat),
        );
    }
}

/// In a consistent channel a vertex of any level gives every coarse vertex
/// a weight between zero and the denominator of its level.
pub proof fn lemma_coarse_weight_bounds(channel: &Channel, l: nat, v: int, k: int)
    requires
        channel.consistent(),
        l <= channel.depth(),
        0 <= v < channel.vertex_count(l as int),
    ensures
        0 <= channel.coarse_weight(l, v, k) <= channel.denominator_through(l),
    decreases l, 1nat, 0nat,
{
    if l > 0 {
        let level = channel.levels@[l - 1];
        let mask = channel.mask(l as int, v);
        assert(level.consistent(channel.vertex_count(l - 1) as int));
        assert(mask == level.masks@[v]@);
        lemma_combined_bounds(channel, l, mask, k);
        assert(channel.denominator_through(l) == channel.denominator_through((l - 1) as nat)
            * level.denominator);
        assert(total(mask) * channel.denominator_through((l - 1) as nat)
            == channel.denominator_through((l - 1) as nat) * total(mask)) by (nonlinear_arith);
    }
}

/// A combination of vertices of the level before `l` gives every coarse
/// vertex a weight between zero and its total times the denominator of
/// that level.
pub proof fn lemma_combined_bounds(channel: &Channel, l: nat, terms: Seq<(Index, Weight)>, k: int)
    requires
        channel.consistent(),
        1 <= l <= channel.depth(),
        indices_below(terms, channel.vertex_count(l - 1) as int),
    ensures
        0 <= channel.combined(l, terms, k) <= total(terms) * channel.denominator_through(
            (l - 1) as nat,
        ),
    decreases l, 0nat, terms.len(),
{
    let through = channel.denominator_through((l - 1) as nat);
    if terms.len() > 0 {
        let head = terms.drop_last();
        let w = terms.last().1 as int;
        let p = terms.last().0 as int;
        assert forall|j: int| 0 <= j < head.len() implies (#[trigger] head[j]).0
            < channel.vertex_count(l - 1) by {
            assert(head[j] == terms[j]);
        }
        assert(terms[terms.len() - 1].0 < channel.vertex_count(l - 1));
        lemma_combined_bounds(channel, l, head, k);
        lemma_coarse_weight_bounds(channel, (l - 1) as nat, p, k);
        let c = channel.coarse_weight((l - 1) as nat, p, k);
        assert(0 <= w * c <= w * through) by (nonlinear_arith)
            requires
                0 <= w,
                0 <= c <= through,
        ;
        assert((total(head) + w) * through == total(head) * through + w * through)
            by (nonlinear_arith);
    } else {
        assert(0 * through == 0);
    }
}

/// In a consistent channel the weights that a vertex gives to the coarse
/// vertices add up to the denominator of its level: a combination of
/// combinations that each add up to one adds up to one.
pub proof fn lemma_coarse_weight_total(channel: &Channel, l: nat, v: int)
    requires
        channel.consistent(),
        l <= channel.depth(),
        0 <= v < channel.vertex_count(l as int),
    ensures
        dense_total(|k: int| channel.coarse_weight(l, v, k), channel.coarse_vertices as nat)
            == channel.denominator_through(l),
    decreases l, 1nat, 0nat,
{
    let n = channel.coarse_vertices as nat;
    let f = |k: int| channel.coarse_weight(l, v, k);
    if l == 0 {
        lemma_dense_total_unit(f, v, n);
    } else {
        let level = channel.levels@[l - 1];
        let mask = channel.mask(l as int, v);
        let g = |k: int| channel.combined(l, mask, k);
        assert(level.consistent(channel.vertex_count(l - 1) as int));
        assert(mask == level.masks@[v]@);
        lemma_combined_total(channel, l, mask);
        assert forall|k: int| 0 <= k < n implies #[trigger] f(k) == g(k) + 0 * g(k) by {
            assert(0 * g(k) == 0);
        }
        lemma_dense_total_linear(f, g, 0, g, n);
        assert(0 * dense_total(g, n) == 0);
        assert(total(mask) * channel.denominator_through((l - 1) as nat)
            == channel.denominator_through((l - 1) as nat) * total(mask)) by (nonlinear_arith);
    }
}

/// The weights that a combination of vertices of the level before `l` gives
/// to the coarse vertices add up to its total times the denominator of
/// that level.
pub proof fn lemma_combined_total(channel: &Channel, l: nat, terms: Seq<(Index, Weight)>)
    requires
        channel.consistent(),
        1 <= l <= channel.depth(),
        indices_below(terms, channel.vertex_count(l - 1) as int),
    ensures
        dense_total(|k: int| channel.combined(l, terms, k), channel.coarse_vertices as nat)
            == total(terms) * channel.denominator_through((l - 1) as nat),
    decreases l, 0nat, terms.len(),
{
    let n = channel.coarse_vertices as nat;
    let through = channel.denominator_through((l - 1) as nat);
    let f = |k: int| channel.combined(l, terms, k);
    if terms.len() == 0 {
        lemma_dense_total_zero(f, n);
        assert(0 * through == 0);
    } else {
        let head = terms.drop_last();
        let w = terms.last().1 as int;
        let p = terms.last().0 as int;
        let g = |k: int| channel.combined(l, head, k);
        let h = |k: int| channel.coarse_weight((l - 1) as nat, p, k);
        assert forall|j: int| 0 <= j < head.len() implies (#[trigger] head[j]).0
            < channel.vertex_count(l - 1) by {
            assert(head[j] == terms[j]);
        }
        assert(terms[terms.len() - 1].0 < channel.vertex_count(l - 1));
        lemma_combined_total(channel, l, head);
        lemma_coarse_weight_total(channel, (l - 1) as nat, p);
        assert forall|k: int| 0 <= k < n implies #[trigger] f(k) == g(k) + w * h(k) by {}
        lemma_dense_total_linear(f, g, w, h, n);
        assert((total(head) + w) * through == total(head) * through + w * through)
            by (nonlinear_arith);
    }
}

/// The stencil of a vertex has one term at most for each coarse vertex, and
/// the weight of that term is what the vertex gives to the coarse vertex
/// through all chains of masks together, brought to the denominator of the
/// table. The weights of the stencil add up to that denominator.
pub proof fn lemma_stencil(channel: &Channel, l: nat, v: int)
    requires
        channel.consistent(),
        channel.denominator_through(channel.depth()) <= u64::MAX,
        l <= channel.depth(),
        0 <= v < channel.vertex_count(l as int),
    ensures
        canonical(channel.stencil(l, v)),
        indices_below(channel.stencil(l, v), channel.coarse_vertices as int),
        forall|k: int|
            0 <= k < channel.coarse_vertices ==> weight_at(channel.stencil(l, v), k)
                == channel.denominator_after(l) * #[trigger] channel.coarse_weight(l, v, k),
        total(channel.stencil(l, v)) == channel.denominator_through(channel.depth()),
{
    let n = channel.coarse_vertices as nat;
    let after = channel.denominator_after(l);
    let through = channel.denominator_through(l);
    let dense = |k: int| channel.denominator_after(l) * channel.coarse_weight(l, v, k);
    let plain = |k: int| channel.coarse_weight(l, v, k);
    let zero = |k: int| 0int;
    lemma_denominators(channel, l);
    assert(total(channel.stencil(l, v)) == through * after) by {
        assert forall|k: int| 0 <= k < n implies 0 <= #[trigger] dense(k) <= u64::MAX by {
            lemma_coarse_weight_bounds(channel, l, v, k);
            let c = channel.coarse_weight(l, v, k);
            assert(0 <= after * c <= through * after) by (nonlinear_arith)
                requires
                    0 <= c <= through,
                    1 <= after,
            ;
        }
        lemma_sparse_total(dense, n);
        assert forall|k: int| 0 <= k < n implies #[trigger] dense(k) == zero(k) + after * plain(
            k,
        ) by {}
        lemma_dense_total_linear(dense, zero, after, plain, n);
        lemma_dense_total_zero(zero, n);
        lemma_coarse_weight_total(channel, l, v);
        assert(after * through == through * after) by (nonlinear_arith);
    }
    assert forall|k: int| 0 <= k < channel.coarse_vertices implies 0 <= #[trigger] dense(k)
        <= u64::MAX by {
        lemma_coarse_weight_bounds(channel, l, v, k);
        let c = channel.coarse_weight(l, v, k);
        assert(0 <= after * c <= through * after) by (nonlinear_arith)
            requires
                0 <= c <= through,
                1 <= after,
        ;
    }
    lemma_sparse(dense, channel.coarse_vertices as nat);
    assert forall|k: int| 0 <= k < channel.coarse_vertices implies weight_at(
        channel.stencil(l, v),
        k,
    ) == channel.denominator_after(l) * #[trigger] channel.coarse_weight(l, v, k) by {
        assert(0 <= dense(k));
    }
}

/// Where the stencil of a vertex stands among the stencils of all levels:
/// after those of the levels below its own, at the number of the vertex.
pub proof fn lemma_stencils_below_index(channel: &Channel, m: nat, l: nat, v: int)
    requires
        l < m,
        0 <= v < channel.vertex_count(l as int),
    ensures
        channel.stencils_below(l).len() + v < channel.stencils_below(m).len(),
        channel.stencils_below(m)[channel.stencils_below(l).len() + v] == channel.stencil(l, v),
    decreases m,
{
    if l + 1 < m {
        lemma_stencils_below_index(channel, (m - 1) as nat, l, v);
    }
}

/// Every stencil among those of the levels below `m` is the stencil of a
/// vertex of one of these levels: the result is the level and the vertex.
pub proof fn lemma_stencils_below_member(channel: &Channel, m: nat, i: int) -> (at: (nat, int))
    requires
        0 <= i < channel.stencils_below(m).len(),
    ensures
        at.0 < m,
        0 <= at.1 < channel.vertex_count(at.0 as int),
        channel.stencils_below(m)[i] == channel.stencil(at.0, at.1),
    decreases m,
{
    let below = channel.stencils_below((m - 1) as nat);
    if i < below.len() {
        lemma_stencils_below_member(channel, (m - 1) as nat, i)
    } else {
        ((m - 1) as nat, i - below.len())
    }
}

/// Every stencil of a table names each coarse vertex once at most, in
/// ascending order, with a positive weight, and its weights add up to the
/// denominator of the table.
pub proof fn lemma_table_stencils(channel: &Channel, scope: LevelScope, i: int)
    requires
        channel.consistent(),
        channel.denominator_through(channel.depth()) <= u64::MAX,
        0 <= i < channel.table_stencils(scope).len(),
    ensures
        canonical(channel.table_stencils(scope)[i]),
        indices_below(channel.table_stencils(scope)[i], channel.coarse_vertices as int),
        total(channel.table_stencils(scope)[i]) == channel.denominator_through(channel.depth()),
{
    match scope {
        LevelScope::LastLevelOnly => {
            lemma_stencil(channel, channel.depth(), i);
        },
        LevelScope::AllLevelsCumulative => {
            let at = lemma_stencils_below_member(channel, channel.depth() + 1, i);
            lemma_stencil(channel, at.0, at.1);
        },
    }
}

/// A list of stencils of one term each has as many terms as stencils.
proof fn lemma_term_count_singles(stencils: Seq<Seq<(Index, Weight)>>)
    requires
        forall|i: int| 0 <= i < stencils.len() ==> (#[trigger] stencils[i]).len() == 1,
    ensures
        term_count(stencils) == stencils.len(),
    decreases stencils.len(),
{
    if stencils.len() > 0 {
        assert forall|i: int| 0 <= i < stencils.drop_last().len() implies (
        #[trigger] stencils.drop_last()[i]).len() == 1 by {
            assert(stencils.drop_last()[i] == stencils[i]);
        }
        lemma_term_count_singles(stencils.drop_last());
        assert(stencils[stencils.len() - 1].len() == 1);
    }
}

/// A channel without refinement levels can always be flattened, whatever
/// the scope: the denominator is one, and there is one stencil for each
/// coarse vertex, which names that vertex alone, with weight one.
pub proof fn lemma_base_case(channel: &Channel, scope: LevelScope)
    requires
        channel.depth() == 0,
        channel.coarse_vertices > 0,
    ensures
        channel.construction_error(scope) is None,
        channel.denominator_through(channel.depth()) == 1,
        channel.table_stencils(scope) == Seq::new(
            channel.coarse_vertices as nat,
            |v: int| seq![(v as Index, 1 as Weight)],
        ),
{
    let n = channel.coarse_vertices as nat;
    let singles = Seq::new(n, |v: int| seq![(v as Index, 1 as Weight)]);
    assert(channel.denominator_after(0) == 1);
    assert forall|v: int| 0 <= v < n implies channel.stencil(0, v) == #[trigger] singles[v] by {
        let term = (v as Index, 1 as Weight);
        let dense = |k: int| channel.denominator_after(0) * channel.coarse_weight(0, v, k);
        assert(seq![term][0] == term);
        assert forall|k: int| 0 <= k < n implies weight_at(seq![term], k) == #[trigger] dense(
            k,
        ) by {
            lemma_single(term, k);
        }
        lemma_canonical_is_sparse(seq![term], dense, n);
    }
    assert(channel.level_stencils(0) =~= singles);
    assert(channel.stencils_below(1) =~= singles) by {
        assert(channel.stencils_below(0) =~= Seq::<Seq<(Index, Weight)>>::empty());
    }
    lemma_term_count_singles(singles);
}

/// Flattening has one result: two tables that a channel flattens to, for
/// the same scope and the same choice of offsets, are the same table,
/// however they were made.
pub proof fn lemma_flattening_is_unique(
    channel: &Channel,
    scope: LevelScope,
    generate_offsets: bool,
    a: TableView,
    b: TableView,
)
    requires
        channel.flattens_to(scope, generate_offsets, a),
        channel.flattens_to(scope, generate_offsets, b),
    ensures
        a == b,
{
    assert(a.sizes.len() == a.stencils().len());
    assert(b.sizes.len() == b.stencils().len());
    lemma_table_of_stencils(a, b);
}

/// Stencils of one term each start at their own number.
proof fn lemma_prefix_sum_ones(sizes: Seq<u32>, i: int)
    requires
        0 <= i <= sizes.len(),
        forall|m: int| 0 <= m < sizes.len() ==> #[trigger] sizes[m] == 1,
    ensures
        prefix_sum(sizes, i) == i,
    decreases i,
{
    if i > 0 {
        lemma_prefix_sum_ones(sizes, i - 1);
    }
}

/// The table of a channel without refinement levels, in its arrays: as
/// many stencils as coarse vertices, each of size one, the index of each
/// its own number and its weight one, which is the denominator.
pub proof fn lemma_base_table(
    channel: &Channel,
    scope: LevelScope,
    generate_offsets: bool,
    table: TableView,
)
    requires
        channel.depth() == 0,
        channel.coarse_vertices > 0,
        channel.flattens_to(scope, generate_offsets, table),
    ensures
        table.denominator == 1,
        table.len() == channel.coarse_vertices,
        table.indices.len() == channel.coarse_vertices,
        table.weights.len() == channel.coarse_vertices,
        forall|i: int| 0 <= i < table.len() ==> #[trigger] table.sizes[i] == 1,
        forall|i: int| 0 <= i < table.len() ==> #[trigger] table.indices[i] == i,
        forall|i: int| 0 <= i < table.len() ==> #[trigger] table.weights[i] == 1,
{
    lemma_base_case(channel, scope);
    let singles = channel.table_stencils(scope);
    assert forall|i: int| 0 <= i < table.len() implies #[trigger] table.sizes[i] == 1 by {
        assert(table.stencils()[i] == table.stencil(i));
        assert(singles[i] == seq![(i as Index, 1 as Weight)]);
        assert(table.stencil(i).len() == 1);
    }
    lemma_prefix_sum_ones(table.sizes, table.sizes.len() as int);
    assert forall|i: int| 0 <= i < table.len() implies table.stencil(i)[0] == (
        i as Index,
        1 as Weight,
    ) && table.start(i) == i by {
        lemma_prefix_sum_ones(table.sizes, i);
        assert(table.stencils()[i] == table.stencil(i));
        assert(singles[i] == seq![(i as Index, 1 as Weight)]);
    }
    assert forall|i: int| 0 <= i < table.len() implies #[trigger] table.indices[i] == i by {
        assert(table.stencil(i)[0] == (i as Index, 1 as Weight) && table.start(i) == i);
    }
    assert forall|i: int| 0 <= i < table.len() implies #[trigger] table.weights[i] == 1 by {
        assert(table.stencil(i)[0] == (i as Index, 1 as Weight) && table.start(i) == i);
    }
}

} // verus!
