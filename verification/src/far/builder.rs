//! Flattening a chain of refinement levels into stencils over the coarse
//! mesh: how the table is made.
//!
//! The stencils of one level are held as rows of terms. A row comes from a
//! mask by expansion, and is merged into canonical form at once or only
//! when it goes into the table. The table is filled level by level.
use vstd::prelude::*;

use crate::far::flatten::{
    lemma_denominators, lemma_stencils_below_grow, lemma_term_count_concat, term_count,
};
use crate::far::sparse::{compact, indices_below, lemma_canonical_is_sparse};
use crate::far::stencil_table::{
    lemma_prefix_sum_monotonic, prefix_sum, ConstructionError, LevelScope, StencilTable, TableView,
};
use crate::far::topology_refiner::{mask_consistent, Channel, Mask};
use crate::far::weights::{
    lemma_single, lemma_total_prefix, lemma_weight_bounds, total, weight_at, Weight,
};
use crate::Index;

verus! {

/// The terms are the stencil of vertex `v` of level `l`, with the product of
/// the denominators up to that level as denominator; merged or not.
spec fn row_is(channel: &Channel, l: nat, v: int, row: Seq<(Index, Weight)>) -> bool {
    &&& total(row) == channel.denominator_through(l)
    &&& indices_below(row, channel.coarse_vertices as int)
    &&& forall|k: int| weight_at(row, k) == #[trigger] channel.coarse_weight(l, v, k)
}

/// The rows are the stencils of the vertices of level `l`.
spec fn rows_are(channel: &Channel, l: nat, rows: Seq<Vec<(Index, Weight)>>) -> bool {
    &&& rows.len() == channel.vertex_count(l as int)
    &&& forall|v: int| 0 <= v < rows.len() ==> row_is(channel, l, v, (#[trigger] rows[v])@)
}

/// The stencils of the coarse vertices: each is itself, with weight one.
fn base_rows(channel: &Channel) -> (rows: Vec<Vec<(Index, Weight)>>)
    ensures
        rows_are(channel, 0, rows@),
{
    let mut rows: Vec<Vec<(Index, Weight)>> = Vec::new();
    let mut v: u32 = 0;
    while v < channel.coarse_vertices
        invariant
            v <= channel.coarse_vertices,
            rows@.len() == v,
            forall|u: int| 0 <= u < rows@.len() ==> row_is(channel, 0, u, (#[trigger] rows@[u])@),
        decreases channel.coarse_vertices - v,
    {
        let mut row: Vec<(Index, Weight)> = Vec::new();
        row.push((v, 1));
        proof {
            assert(row@ == seq![(v, 1u64)]);
            lemma_single((v, 1u64), 0);
            assert forall|k: int| weight_at(row@, k) == #[trigger] channel.coarse_weight(
                0,
                v as int,
                k,
            ) by {
                lemma_single((v, 1u64), k);
            }
        }
        rows.push(row);
        v = v + 1;
    }
    rows
}

/// Replaces every vertex in a mask of level `l` by its own stencil in
/// `rows`, the weights multiplied through. Terms are not merged.
fn expand(
    channel: &Channel,
    Ghost(l): Ghost<nat>,
    rows: &Vec<Vec<(Index, Weight)>>,
    mask: &Mask,
) -> (row: Vec<(Index, Weight)>)
    requires
        1 <= l <= channel.depth(),
        rows_are(channel, (l - 1) as nat, rows@),
        mask_consistent(mask@, channel.levels@[l - 1].denominator as int, rows@.len() as int),
        1 <= channel.denominator_through((l - 1) as nat),
        channel.denominator_through(l) <= u64::MAX,
    ensures
        total(row@) == channel.denominator_through(l),
        indices_below(row@, channel.coarse_vertices as int),
        forall|k: int| weight_at(row@, k) == #[trigger] channel.combined(l, mask@, k),
{
    let ghost unit = channel.levels@[l - 1].denominator as int;
    let ghost through = channel.denominator_through((l - 1) as nat);
    let mut row: Vec<(Index, Weight)> = Vec::new();
    let mut e: usize = 0;
    while e < mask.len()
        invariant
            e <= mask@.len(),
            1 <= l <= channel.depth(),
            rows_are(channel, (l - 1) as nat, rows@),
            mask_consistent(mask@, unit, rows@.len() as int),
            through == channel.denominator_through((l - 1) as nat),
            1 <= through,
            unit * through <= u64::MAX,
            total(row@) == total(mask@.take(e as int)) * through,
            indices_below(row@, channel.coarse_vertices as int),
            forall|k: int|
                weight_at(row@, k) == #[trigger] channel.combined(l, mask@.take(e as int), k),
        decreases mask@.len() - e,
    {
        let (p, w) = mask[e];
        let parent = &rows[p as usize];
        let ghost done = mask@.take(e as int);
        let ghost next = mask@.take(e as int + 1);
        let ghost start = row@;
        proof {
            assert(mask@[e as int].0 < rows@.len());
            assert(row_is(channel, (l - 1) as nat, p as int, rows@[p as int]@));
            assert(next.drop_last() == done);
            assert(next.last() == mask@[e as int]);
            lemma_total_prefix(mask@, e as int + 1);
            lemma_weight_bounds(mask@, 0);
            assert(mask@[e as int].1 <= total(mask@));
            assert(parent@.take(0) == Seq::<(Index, Weight)>::empty());
        }
        let mut j: usize = 0;
        while j < parent.len()
            invariant
                j <= parent@.len(),
                total(parent@) == through,
                indices_below(parent@, channel.coarse_vertices as int),
                0 <= w <= unit,
                1 <= through,
                unit * through <= u64::MAX,
                indices_below(row@, channel.coarse_vertices as int),
                total(row@) == total(start) + w * total(parent@.take(j as int)),
                forall|k: int|
                    weight_at(row@, k) == #[trigger] weight_at(start, k) + w * weight_at(
                        parent@.take(j as int),
                        k,
                    ),
            decreases parent@.len() - j,
        {
            let (index, pw) = parent[j];
            let ghost taken = parent@.take(j as int);
            let ghost more = parent@.take(j as int + 1);
            let ghost before = row@;
            proof {
                assert(more.drop_last() == taken);
                assert(more.last() == parent@[j as int]);
                lemma_weight_bounds(parent@, 0);
                assert(w * pw <= unit * through) by (nonlinear_arith)
                    requires
                        0 <= w <= unit,
                        0 <= pw <= through,
                ;
            }
            let term: (Index, Weight) = (index, w * pw);
            row.push(term);
            proof {
                assert(row@.drop_last() == before);
                assert(total(more) == total(taken) + pw);
                assert(w * (total(taken) + pw) == w * total(taken) + w * pw) by (nonlinear_arith);
                assert forall|k: int|
                    weight_at(row@, k) == #[trigger] weight_at(start, k) + w * weight_at(
                        more,
                        k,
                    ) by {
                    let here = if index == k {
                        pw as int
                    } else {
                        0
                    };
                    assert(weight_at(more, k) == weight_at(taken, k) + here);
                    assert(weight_at(before, k) == weight_at(start, k) + w * weight_at(taken, k));
                    assert(w * (weight_at(taken, k) + here) == w * weight_at(taken, k) + w * here)
                        by (nonlinear_arith);
                }
            }
            j = j + 1;
        }
        proof {
            assert(parent@.take(j as int) == parent@);
            assert(total(next) == total(done) + w);
            assert((total(done) + w) * through == total(done) * through + w * through)
                by (nonlinear_arith);
            assert forall|k: int| weight_at(row@, k) == #[trigger] channel.combined(l, next, k) by {
                assert(weight_at(start, k) == channel.combined(l, done, k));
                assert(weight_at(parent@, k) == channel.coarse_weight((l - 1) as nat, p as int, k));
            }
        }
        e = e + 1;
    }
    proof {
        assert(mask@.take(e as int) == mask@);
        assert(channel.denominator_through(l) == through * unit);
        assert(unit * through == through * unit) by (nonlinear_arith);
    }
    row
}

/// The stencils of level `l` from those of the level before it: every mask
/// expanded and, if `factorize` is set, merged into canonical form.
fn refine(channel: &Channel, l: usize, rows: &Vec<Vec<(Index, Weight)>>, factorize: bool) -> (next:
    Vec<Vec<(Index, Weight)>>)
    requires
        1 <= l <= channel.depth(),
        channel.consistent(),
        rows_are(channel, (l - 1) as nat, rows@),
        channel.denominator_through(l as nat) <= u64::MAX,
    ensures
        rows_are(channel, l as nat, next@),
{
    let level = &channel.levels[l - 1];
    proof {
        assert(channel.levels@[l - 1].consistent(channel.vertex_count(l - 1) as int));
        lemma_denominators(channel, (l - 1) as nat);
    }
    let mut next: Vec<Vec<(Index, Weight)>> = Vec::new();
    let mut v: usize = 0;
    while v < level.masks.len()
        invariant
            v <= level.masks@.len(),
            1 <= l <= channel.depth(),
            *level == channel.levels@[l - 1],
            level.consistent(rows@.len() as int),
            rows_are(channel, (l - 1) as nat, rows@),
            1 <= channel.denominator_through((l - 1) as nat),
            channel.denominator_through(l as nat) <= u64::MAX,
            next@.len() == v,
            forall|u: int|
                0 <= u < next@.len() ==> row_is(channel, l as nat, u, (#[trigger] next@[u])@),
        decreases level.masks@.len() - v,
    {
        let expanded = expand(channel, Ghost(l as nat), rows, &level.masks[v]);
        let row = if factorize {
            compact(&expanded, 1, Ghost(channel.coarse_vertices as int))
        } else {
            expanded
        };
        proof {
            assert forall|k: int| weight_at(row@, k) == #[trigger] channel.coarse_weight(
                l as nat,
                v as int,
                k,
            ) by {
                let mask = level.masks@[v as int]@;
                assert(weight_at(expanded@, k) == channel.combined(l as nat, mask, k));
            }
        }
        next.push(row);
        v = v + 1;
    }
    next
}

/// The products of the denominators above each level, for the levels from
/// the coarse mesh to the finest; nothing where the product of all does not
/// fit a weight.
fn scales(channel: &Channel) -> (r: Option<Vec<Weight>>)
    requires
        channel.consistent(),
    ensures
        match r {
            Some(s) => {
                &&& s@.len() == channel.depth() + 1
                &&& forall|l: int|
                    0 <= l <= channel.depth() ==> #[trigger] s@[l] == channel.denominator_after(
                        l as nat,
                    )
                &&& channel.denominator_through(channel.depth()) <= u64::MAX
            },
            None => channel.denominator_through(channel.depth()) > u64::MAX,
        },
{
    let depth = channel.levels.len();
    let mut s: Vec<Weight> = Vec::new();
    while s.len() <= depth
        invariant
            depth == channel.depth(),
            s@.len() <= depth + 1,
            forall|l: int| 0 <= l < s@.len() ==> #[trigger] s@[l] == 1,
        decreases depth + 1 - s@.len(),
    {
        s.push(1);
    }
    let mut l: usize = depth;
    while l > 0
        invariant
            channel.consistent(),
            depth == channel.depth(),
            l <= depth,
            s@.len() == depth + 1,
            forall|m: int|
                l <= m <= depth ==> #[trigger] s@[m] == channel.denominator_after(m as nat),
        decreases l,
    {
        let unit = channel.levels[l - 1].denominator;
        proof {
            lemma_denominators(channel, (l - 1) as nat);
            lemma_denominators(channel, l as nat);
        }
        match unit.checked_mul(s[l]) {
            Some(product) => {
                s.set(l - 1, product);
            },
            None => {
                proof {
                    let through = channel.denominator_through((l - 1) as nat);
                    let after = channel.denominator_after((l - 1) as nat);
                    assert(through * after >= after) by (nonlinear_arith)
                        requires
                            through >= 1,
                            after >= 1,
                    ;
                }
                return None;
            },
        }
        l = l - 1;
    }
    proof {
        lemma_denominators(channel, 0);
        assert(s@[0] == channel.denominator_after(0));
        assert(channel.denominator_through(0) == 1);
        assert(1 * channel.denominator_after(0) == channel.denominator_after(0));
    }
    Some(s)
}

/// The flattened arrays of a table in the making.
struct Flat {
    sizes: Vec<u32>,
    indices: Vec<Index>,
    weights: Vec<Weight>,
}

impl Flat {
    /// The table that the arrays make, without offsets.
    spec fn table(&self, control_vertices: nat, denominator: nat) -> TableView {
        TableView {
            control_vertices,
            denominator,
            sizes: self.sizes@,
            offsets: Seq::empty(),
            indices: self.indices@,
            weights: self.weights@,
        }
    }
}

/// One more size at the end leaves the starts of the stencils before it
/// where they are.
proof fn lemma_prefix_sum_push(sizes: Seq<u32>, size: u32, i: int)
    requires
        0 <= i <= sizes.len(),
    ensures
        prefix_sum(sizes.push(size), i) == prefix_sum(sizes, i),
    decreases i,
{
    if i > 0 {
        lemma_prefix_sum_push(sizes, size, i - 1);
    }
}

/// The terms of the first `i` stencils of a table are as many as the first
/// `i` sizes add up to.
proof fn lemma_term_count_prefix(table: TableView, i: nat)
    requires
        i <= table.sizes.len(),
    ensures
        term_count(table.stencils().take(i as int)) == prefix_sum(table.sizes, i as int),
    decreases i,
{
    if i > 0 {
        lemma_term_count_prefix(table, (i - 1) as nat);
        assert(table.stencils().take(i as int).drop_last() == table.stencils().take(i - 1));
        assert(table.stencils().take(i as int).last() == table.stencil(i - 1));
    }
}

/// Appends one stencil to the arrays, unless the table would then hold more
/// stencils or terms than an index can count.
fn push_stencil(
    flat: &mut Flat,
    row: &Vec<(Index, Weight)>,
    Ghost(n): Ghost<nat>,
    Ghost(d): Ghost<nat>,
) -> (ok: bool)
    requires
        old(flat).table(n, d).wf(),
        total(row@) == d,
        indices_below(row@, n as int),
    ensures
        ok <==> old(flat).sizes@.len() < u32::MAX && old(flat).indices@.len() + row@.len()
            <= u32::MAX,
        ok ==> final(flat).table(n, d).wf(),
        ok ==> final(flat).table(n, d).stencils() == old(flat).table(n, d).stencils().push(row@),
        !ok ==> *final(flat) == *old(flat),
{
    if flat.sizes.len() >= u32::MAX as usize {
        return false;
    }
    if row.len() > u32::MAX as usize - flat.indices.len() {
        return false;
    }
    let ghost before = flat.table(n, d);
    flat.sizes.push(row.len() as u32);
    let mut j: usize = 0;
    while j < row.len()
        invariant
            j <= row@.len(),
            flat.sizes@ == before.sizes.push(row@.len() as u32),
            flat.indices@.len() == before.indices.len() + j,
            flat.weights@.len() == before.weights.len() + j,
            before.weights.len() == before.indices.len(),
            forall|m: int| 0 <= m < before.indices.len() ==> flat.indices@[m] == before.indices[m],
            forall|m: int| 0 <= m < before.indices.len() ==> flat.weights@[m] == before.weights[m],
            forall|m: int|
                0 <= m < j ==> flat.indices@[before.indices.len() + m] == (#[trigger] row@[m]).0,
            forall|m: int|
                0 <= m < j ==> flat.weights@[before.indices.len() + m] == (#[trigger] row@[m]).1,
        decreases row@.len() - j,
    {
        let (index, weight) = row[j];
        flat.indices.push(index);
        flat.weights.push(weight);
        j = j + 1;
    }
    proof {
        let after = flat.table(n, d);
        let count = before.sizes.len() as int;
        lemma_prefix_sum_push(before.sizes, row@.len() as u32, count);
        assert(after.stencil(count) == row@);
        assert forall|i: int| 0 <= i < count implies #[trigger] after.stencil(i) == before.stencil(
            i,
        ) by {
            lemma_prefix_sum_push(before.sizes, row@.len() as u32, i);
            lemma_prefix_sum_monotonic(before.sizes, i + 1, count);
            lemma_prefix_sum_monotonic(before.sizes, i, i);
            assert(after.stencil(i) =~= before.stencil(i));
        }
        assert(after.stencils() =~= before.stencils().push(row@));
        assert forall|i: int| 0 <= i < after.sizes.len() implies total(#[trigger] after.stencil(i))
            == d by {
            if i < count {
                assert(after.stencil(i) == before.stencil(i));
            }
        }
        assert forall|m: int| 0 <= m < after.indices.len() implies #[trigger] after.indices[m]
            < n by {
            if m >= before.indices.len() {
                assert(after.indices[m] == row@[m - before.indices.len()].0);
            } else {
                assert(after.indices[m] == before.indices[m]);
            }
        }
    }
    true
}

/// Appends the stencils of level `l` to the arrays, each merged into
/// canonical form and scaled to the denominator of the table.
fn emit(
    channel: &Channel,
    l: usize,
    flat: &mut Flat,
    rows: &Vec<Vec<(Index, Weight)>>,
    scale: Weight,
) -> (ok: bool)
    requires
        channel.consistent(),
        l <= channel.depth(),
        channel.denominator_through(channel.depth()) <= u64::MAX,
        rows_are(channel, l as nat, rows@),
        scale == channel.denominator_after(l as nat),
        old(flat).table(
            channel.coarse_vertices as nat,
            channel.denominator_through(channel.depth()) as nat,
        ).wf(),
    ensures
        ok ==> final(flat).table(
            channel.coarse_vertices as nat,
            channel.denominator_through(channel.depth()) as nat,
        ).wf(),
        ok ==> final(flat).table(
            channel.coarse_vertices as nat,
            channel.denominator_through(channel.depth()) as nat,
        ).stencils() == old(flat).table(
            channel.coarse_vertices as nat,
            channel.denominator_through(channel.depth()) as nat,
        ).stencils() + channel.level_stencils(l as nat),
        !ok ==> {
            let all = old(flat).table(
                channel.coarse_vertices as nat,
                channel.denominator_through(channel.depth()) as nat,
            ).stencils() + channel.level_stencils(l as nat);
            all.len() > u32::MAX || term_count(all) > u32::MAX
        },
{
    let ghost n = channel.coarse_vertices as nat;
    let ghost d = channel.denominator_through(channel.depth()) as nat;
    let ghost before = flat.table(n, d).stencils();
    let ghost level = channel.level_stencils(l as nat);
    proof {
        lemma_denominators(channel, l as nat);
    }
    let mut v: usize = 0;
    while v < rows.len()
        invariant
            v <= rows@.len(),
            l <= channel.depth(),
            rows_are(channel, l as nat, rows@),
            scale == channel.denominator_after(l as nat),
            n == channel.coarse_vertices,
            d == channel.denominator_through(channel.depth()),
            d == channel.denominator_through(l as nat) * scale,
            d <= u64::MAX,
            level == channel.level_stencils(l as nat),
            before == old(flat).table(n, d).stencils(),
            flat.table(n, d).wf(),
            flat.table(n, d).stencils() == before + level.take(v as int),
        decreases rows@.len() - v,
    {
        let ghost emitted = flat.table(n, d);
        proof {
            assert(row_is(channel, l as nat, v as int, rows@[v as int]@));
            assert(scale * channel.denominator_through(l as nat) == channel.denominator_through(
                l as nat,
            ) * scale) by (nonlinear_arith);
        }
        let row = compact(&rows[v], scale, Ghost(n as int));
        proof {
            let dense = |k: int|
                channel.denominator_after(l as nat) * channel.coarse_weight(l as nat, v as int, k);
            assert forall|k: int| 0 <= k < n implies weight_at(row@, k) == #[trigger] dense(k) by {
                assert(weight_at(rows@[v as int]@, k) == channel.coarse_weight(
                    l as nat,
                    v as int,
                    k,
                ));
            }
            lemma_canonical_is_sparse(row@, dense, n);
            assert(row@ == channel.stencil(l as nat, v as int));
            assert(level.take(v as int + 1) == level.take(v as int).push(row@));
            lemma_term_count_prefix(emitted, emitted.sizes.len());
            assert(emitted.stencils().take(emitted.sizes.len() as int) == emitted.stencils());
        }
        if !push_stencil(flat, &row, Ghost(n), Ghost(d)) {
            proof {
                let reached = emitted.stencils().push(row@);
                let rest = level.skip(v as int + 1);
                assert(before + level =~= reached + rest);
                lemma_term_count_concat(reached, rest);
                assert(reached.drop_last() == emitted.stencils());
                assert(term_count(reached) == emitted.indices.len() + row@.len());
                assert((reached + rest).len() >= emitted.sizes.len() + 1);
            }
            return false;
        }
        v = v + 1;
    }
    proof {
        assert(level.take(v as int) == level);
    }
    true
}

/// The offsets of the stencils: the running sums of the sizes.
fn running_sums(sizes: &Vec<u32>) -> (offsets: Vec<Index>)
    requires
        prefix_sum(sizes@, sizes@.len() as int) <= u32::MAX,
    ensures
        offsets@.len() == sizes@.len(),
        forall|i: int| 0 <= i < offsets@.len() ==> #[trigger] offsets@[i] == prefix_sum(sizes@, i),
{
    let mut offsets: Vec<Index> = Vec::new();
    let mut sum: Index = 0;
    let mut i: usize = 0;
    while i < sizes.len()
        invariant
            i <= sizes@.len(),
            offsets@.len() == i,
            sum == prefix_sum(sizes@, i as int),
            prefix_sum(sizes@, sizes@.len() as int) <= u32::MAX,
            forall|m: int| 0 <= m < i ==> #[trigger] offsets@[m] == prefix_sum(sizes@, m),
        decreases sizes@.len() - i,
    {
        proof {
            lemma_prefix_sum_monotonic(sizes@, i as int + 1, sizes@.len() as int);
        }
        offsets.push(sum);
        sum = sum + sizes[i];
        i = i + 1;
    }
    offsets
}

/// Builds the stencil table of one channel.
pub(crate) fn build(
    channel: &Channel,
    scope: LevelScope,
    factorize: bool,
    generate_offsets: bool,
) -> (r: Result<StencilTable, ConstructionError>)
    ensures
        match r {
            Ok(table) => {
                &&& channel.construction_error(scope) is None
                &&& channel.flattens_to(scope, generate_offsets, table@)
            },
            Err(e) => channel.construction_error(scope) == Some(e),
        },
{
    if channel.coarse_vertices == 0 {
        return Err(ConstructionError::EmptyRefiner);
    }
    if !channel.is_consistent() {
        return Err(ConstructionError::InconsistentRefiner);
    }
    let scale = match scales(channel) {
        Some(s) => s,
        None => {
            return Err(ConstructionError::WeightRange);
        },
    };
    let depth = channel.levels.len();
    let cumulative = match scope {
        LevelScope::LastLevelOnly => false,
        LevelScope::AllLevelsCumulative => true,
    };
    let ghost n = channel.coarse_vertices as nat;
    let ghost d = channel.denominator_through(channel.depth()) as nat;
    let mut flat = Flat { sizes: Vec::new(), indices: Vec::new(), weights: Vec::new() };
    let mut rows = base_rows(channel);
    let mut l: usize = 0;
    proof {
        lemma_denominators(channel, 0);
        assert(flat.table(n, d).stencils() =~= Seq::<Seq<(Index, Weight)>>::empty());
    }
    while l < depth
        invariant
            l <= depth,
            depth == channel.depth(),
            channel.coarse_vertices > 0,
            channel.consistent(),
            d == channel.denominator_through(channel.depth()),
            1 <= d <= u64::MAX,
            n == channel.coarse_vertices,
            scale@.len() == depth + 1,
            forall|m: int|
                0 <= m <= depth ==> #[trigger] scale@[m] == channel.denominator_after(m as nat),
            cumulative == (scope == LevelScope::AllLevelsCumulative),
            rows_are(channel, l as nat, rows@),
            flat.table(n, d).wf(),
            flat.table(n, d).stencils() == if cumulative {
                channel.stencils_below(l as nat)
            } else {
                Seq::<Seq<(Index, Weight)>>::empty()
            },
        decreases depth - l,
    {
        if cumulative {
            if !emit(channel, l, &mut flat, &rows, scale[l]) {
                proof {
                    lemma_stencils_below_grow(channel, (l + 1) as nat, (depth + 1) as nat);
                }
                return Err(ConstructionError::TableTooLarge);
            }
        }
        proof {
            lemma_denominators(channel, (l + 1) as nat);
            let through = channel.denominator_through((l + 1) as nat);
            let after = channel.denominator_after((l + 1) as nat);
            assert(through <= through * after) by (nonlinear_arith)
                requires
                    through >= 1,
                    after >= 1,
            ;
        }
        rows = refine(channel, l + 1, &rows, factorize);
        l = l + 1;
    }
    if !emit(channel, l, &mut flat, &rows, scale[l]) {
        return Err(ConstructionError::TableTooLarge);
    }
    let offsets = if generate_offsets {
        running_sums(&flat.sizes)
    } else {
        Vec::new()
    };
    proof {
        let bare = flat.table(n, d);
        let table = TableView {
            control_vertices: n,
            denominator: d,
            sizes: flat.sizes@,
            offsets: offsets@,
            indices: flat.indices@,
            weights: flat.weights@,
        };
        lemma_denominators(channel, 0);
        assert(scale@[0] == channel.denominator_after(0));
        assert(1 * channel.denominator_after(0) == channel.denominator_after(0));
        lemma_term_count_prefix(bare, bare.sizes.len());
        assert(bare.stencils().take(bare.sizes.len() as int) == bare.stencils());
        assert(Seq::<Seq<(Index, Weight)>>::empty() + channel.level_stencils(l as nat)
            == channel.level_stencils(l as nat));
        assert forall|i: int| 0 <= i < table.sizes.len() implies total(#[trigger] table.stencil(i))
            == table.denominator by {
            assert(table.stencil(i) == bare.stencil(i));
        }
        assert(table.stencils() =~= bare.stencils());
        assert(table.wf());
    }
    Ok(
        StencilTable::assemble(
            channel.coarse_vertices,
            scale[0],
            flat.sizes,
            offsets,
            flat.indices,
            flat.weights,
        ),
    )
}

} // verus!
