//! Table of subdivision stencils.
//!
//! Stencils are the most direct method of evaluation of locations on the
//! limit of a surface. Every point of a limit surface can be computed by
//! linearly blending a collection of coarse control vertices.
//!
//! A stencil assigns a series of control vertex indices with a blending
//! weight that corresponds to a unique parametric location of the limit
//! surface. When the control vertices move in space, the limit location can
//! be very efficiently recomputed simply by applying the blending weights to
//! the series of coarse control vertices.
use vstd::prelude::*;
use vstd::slice::slice_subrange;

use crate::far::builder::build;
use crate::far::topology_refiner::TopologyRefiner;
use crate::far::weights::{
    lemma_total_prefix, lemma_weighted_sum_bounds, total, weighted_sum, Weight,
};
use crate::Index;

verus! {

/// Which attribute channel of the refiner a table is built for.
#[derive(Clone, Copy, Debug, PartialEq, Eq)]
pub enum InterpolationMode {
    /// Attributes that follow the subdivision rules of the vertices.
    Vertex,
    /// Attributes that are interpolated linearly over the faces.
    Varying,
    /// Attributes with a topology of their own.
    FaceVarying,
}

/// Which refined vertices get a stencil in the table.
#[derive(Clone, Copy, Debug, PartialEq, Eq)]
pub enum LevelScope {
    /// The vertices of the finest level only.
    LastLevelOnly,
    /// The vertices of every level, the coarse mesh first.
    AllLevelsCumulative,
}

/// How a stencil table is built.
#[derive(Clone, Copy, Debug, PartialEq, Eq)]
pub struct Options {
    /// The attribute channel whose refinement is flattened.
    pub interpolation_mode: InterpolationMode,
    /// The levels whose vertices get a stencil.
    pub level_scope: LevelScope,
    /// Whether the stencils of each level are merged as soon as they are
    /// made. Without it they are carried from level to level as they come,
    /// one term per path through the masks, and merged only for the table.
    /// The table is the same either way.
    pub factorize_intermediate_levels: bool,
    /// Whether the table holds the array of offsets.
    pub generate_offsets: bool,
}

impl Default for Options {
    /// Vertex interpolation, all levels, merged level by level, no offsets.
    fn default() -> (options: Options)
        ensures
            options == (Options {
                interpolation_mode: InterpolationMode::Vertex,
                level_scope: LevelScope::AllLevelsCumulative,
                factorize_intermediate_levels: true,
                generate_offsets: false,
            }),
    {
        Options {
            interpolation_mode: InterpolationMode::Vertex,
            level_scope: LevelScope::AllLevelsCumulative,
            factorize_intermediate_levels: true,
            generate_offsets: false,
        }
    }
}

/// Why no stencil table could be built from a refiner.
#[derive(Clone, Copy, Debug, PartialEq, Eq)]
pub enum ConstructionError {
    /// The coarse mesh of the chosen channel has no vertices.
    EmptyRefiner,
    /// A level has denominator zero, or a mask that names a vertex that the
    /// level before does not have, or whose weights do not add up to the
    /// denominator of its level.
    InconsistentRefiner,
    /// The product of the denominators of all levels does not fit a weight.
    WeightRange,
    /// The table would hold more stencils, or more terms, than an index can
    /// count.
    TableTooLarge,
}

/// Start of stencil `i` in the flattened arrays: the sum of the first `i`
/// sizes.
pub open spec fn prefix_sum(sizes: Seq<u32>, i: int) -> int
    decreases i,
{
    if i <= 0 {
        0
    } else {
        prefix_sum(sizes, i - 1) + sizes[i - 1]
    }
}

/// What a [`Stencil`] stands for: the control vertex indices and, parallel
/// to them, the weights.
pub struct StencilView {
    pub indices: Seq<Index>,
    pub weights: Seq<Weight>,
}

/// What a [`StencilTable`] stands for: the four flattened arrays, the number
/// of control vertices and the denominator of the weights.
pub struct TableView {
    pub control_vertices: nat,
    pub denominator: nat,
    pub sizes: Seq<u32>,
    pub offsets: Seq<Index>,
    pub indices: Seq<Index>,
    pub weights: Seq<Weight>,
}

impl TableView {
    /// Number of stencils.
    pub open spec fn len(self) -> nat {
        self.sizes.len()
    }

    /// Position of the first term of stencil `i` in `indices` and `weights`.
    pub open spec fn start(self, i: int) -> int {
        prefix_sum(self.sizes, i)
    }

    /// Control vertex indices of stencil `i`.
    pub open spec fn stencil_indices(self, i: int) -> Seq<Index> {
        self.indices.subrange(self.start(i), self.start(i) + self.sizes[i])
    }

    /// Weights of stencil `i`.
    pub open spec fn stencil_weights(self, i: int) -> Seq<Weight> {
        self.weights.subrange(self.start(i), self.start(i) + self.sizes[i])
    }

    /// Stencil `i` as a list of (control vertex, weight) terms.
    pub open spec fn stencil(self, i: int) -> Seq<(Index, Weight)> {
        Seq::new(
            self.sizes[i] as nat,
            |j: int| (self.indices[self.start(i) + j], self.weights[self.start(i) + j]),
        )
    }

    /// All stencils, in table order.
    pub open spec fn stencils(self) -> Seq<Seq<(Index, Weight)>> {
        Seq::new(self.sizes.len(), |i: int| self.stencil(i))
    }

    /// The invariants of a stencil table.
    ///
    /// The flattened arrays have one entry per term of every stencil, the
    /// offsets are either absent or the running sums of the sizes, every
    /// index names a control vertex, and the weights of each stencil add up
    /// to the denominator.
    pub open spec fn wf(self) -> bool {
        &&& self.denominator >= 1
        &&& self.denominator <= u64::MAX
        &&& self.control_vertices <= u32::MAX
        &&& self.sizes.len() <= u32::MAX
        &&& self.indices.len() == prefix_sum(self.sizes, self.sizes.len() as int)
        &&& self.weights.len() == self.indices.len()
        &&& self.indices.len() <= u32::MAX
        &&& self.offsets.len() == 0 || self.offsets.len() == self.sizes.len()
        &&& forall|i: int|
            0 <= i < self.offsets.len() ==> #[trigger] self.offsets[i] == prefix_sum(self.sizes, i)
        &&& forall|j: int|
            0 <= j < self.indices.len() ==> #[trigger] self.indices[j] < self.control_vertices
        &&& forall|i: int|
            0 <= i < self.sizes.len() ==> total(#[trigger] self.stencil(i)) == self.denominator
    }
}

/// The table that is made of the given arrays.
pub open spec fn table_of(
    control_vertices: u32,
    denominator: Weight,
    sizes: Seq<u32>,
    offsets: Seq<Index>,
    indices: Seq<Index>,
    weights: Seq<Weight>,
) -> TableView {
    TableView {
        control_vertices: control_vertices as nat,
        denominator: denominator as nat,
        sizes,
        offsets,
        indices,
        weights,
    }
}

/// The running sums of the sizes never decrease, so every stencil lies
/// inside the flattened arrays.
pub proof fn lemma_prefix_sum_monotonic(sizes: Seq<u32>, i: int, j: int)
    requires
        0 <= i <= j,
    ensures
        0 <= prefix_sum(sizes, i) <= prefix_sum(sizes, j),
    decreases j,
{
    if i < j {
        lemma_prefix_sum_monotonic(sizes, i, j - 1);
    } else if i > 0 {
        lemma_prefix_sum_monotonic(sizes, i - 1, i - 1);
    }
}

/// Every position of the flattened arrays lies in one stencil: the result
/// is the number of the stencil that position `j` belongs to.
pub proof fn lemma_locate(sizes: Seq<u32>, n: int, j: int) -> (i: int)
    requires
        0 <= n <= sizes.len(),
        0 <= j < prefix_sum(sizes, n),
    ensures
        0 <= i < n,
        prefix_sum(sizes, i) <= j < prefix_sum(sizes, i + 1),
    decreases n,
{
    if j >= prefix_sum(sizes, n - 1) {
        n - 1
    } else {
        lemma_locate(sizes, n - 1, j)
    }
}

/// A table is what its stencils are: two tables with the same stencils, the
/// same number of control vertices and the same denominator, both with
/// offsets or both without, have the same arrays.
pub proof fn lemma_table_of_stencils(a: TableView, b: TableView)
    requires
        a.wf(),
        b.wf(),
        a.stencils() == b.stencils(),
        a.control_vertices == b.control_vertices,
        a.denominator == b.denominator,
        a.offsets.len() == b.offsets.len(),
    ensures
        a == b,
{
    assert(a.sizes.len() == a.stencils().len());
    assert(b.sizes.len() == b.stencils().len());
    assert forall|i: int| 0 <= i < a.sizes.len() implies a.sizes[i] == b.sizes[i] by {
        assert(a.stencils()[i] == a.stencil(i));
        assert(b.stencils()[i] == b.stencil(i));
        assert(a.stencil(i).len() == b.stencil(i).len());
    }
    assert(a.sizes =~= b.sizes);
    assert forall|j: int| 0 <= j < a.indices.len() implies a.indices[j] == b.indices[j]
        && a.weights[j] == b.weights[j] by {
        let i = lemma_locate(a.sizes, a.sizes.len() as int, j);
        let at = j - a.start(i);
        assert(a.stencils()[i] == a.stencil(i));
        assert(b.stencils()[i] == b.stencil(i));
        assert(a.stencil(i)[at] == (a.indices[j], a.weights[j]));
        assert(b.stencil(i)[at] == (b.indices[j], b.weights[j]));
    }
    assert(a.indices =~= b.indices);
    assert(a.weights =~= b.weights);
    assert(a.offsets =~= b.offsets);
}

/// Gives read access to a single stencil in a [`StencilTable`].
#[derive(Clone, Copy, Debug)]
pub struct Stencil<'a> {
    indices: &'a [Index],
    weights: &'a [Weight],
}

impl<'a> View for Stencil<'a> {
    type V = StencilView;

    closed spec fn view(&self) -> StencilView {
        StencilView { indices: self.indices@, weights: self.weights@ }
    }
}

impl<'a> Stencil<'a> {
    /// Returns the indices of the control vertices.
    pub fn indices(&self) -> (r: &'a [Index])
        ensures
            r@ == self@.indices,
    {
        self.indices
    }

    /// Returns the stencil interpolation weights.
    pub fn weights(&self) -> (r: &'a [Weight])
        ensures
            r@ == self@.weights,
    {
        self.weights
    }
}

/// Container for stencil data.
#[derive(Debug)]
pub struct StencilTable {
    control_vertices: u32,
    denominator: Weight,
    sizes: Vec<u32>,
    offsets: Vec<Index>,
    indices: Vec<Index>,
    weights: Vec<Weight>,
}

impl View for StencilTable {
    type V = TableView;

    closed spec fn view(&self) -> TableView {
        table_of(
            self.control_vertices,
            self.denominator,
            self.sizes@,
            self.offsets@,
            self.indices@,
            self.weights@,
        )
    }
}

impl StencilTable {
    #[verifier::type_invariant]
    spec fn inv(self) -> bool {
        self@.wf()
    }

    /// Makes a table of arrays that satisfy the invariants of a table.
    pub(crate) fn assemble(
        control_vertices: u32,
        denominator: Weight,
        sizes: Vec<u32>,
        offsets: Vec<Index>,
        indices: Vec<Index>,
        weights: Vec<Weight>,
    ) -> (table: StencilTable)
        requires
            table_of(control_vertices, denominator, sizes@, offsets@, indices@, weights@).wf(),
        ensures
            table@ == table_of(control_vertices, denominator, sizes@, offsets@, indices@, weights@),
    {
        StencilTable { control_vertices, denominator, sizes, offsets, indices, weights }
    }

    /// Create a new stencil table: flattens the channel of the refiner that
    /// the interpolation mode names.
    ///
    /// Fails where that channel has no coarse vertices or is inconsistent,
    /// and where the table would outgrow its number types; a table is
    /// returned on all other input, and only then.
    pub fn new(refiner: &TopologyRefiner, options: Options) -> (r: Result<
        StencilTable,
        ConstructionError,
    >)
        ensures
            match r {
                Ok(table) => {
                    &&& refiner.channel(options.interpolation_mode).construction_error(
                        options.level_scope,
                    ) is None
                    &&& refiner.channel(options.interpolation_mode).flattens_to(
                        options.level_scope,
                        options.generate_offsets,
                        table@,
                    )
                },
                Err(e) => refiner.channel(options.interpolation_mode).construction_error(
                    options.level_scope,
                ) == Some(e),
            },
    {
        let channel = match options.interpolation_mode {
            InterpolationMode::Vertex => &refiner.vertex,
            InterpolationMode::Varying => &refiner.varying,
            InterpolationMode::FaceVarying => &refiner.face_varying,
        };
        build(
            channel,
            options.level_scope,
            options.factorize_intermediate_levels,
            options.generate_offsets,
        )
    }

    /// Makes a table of arrays that were stored or sent: the table if they
    /// satisfy the invariants of a table, nothing if they do not.
    ///
    /// `offsets` is either empty or holds the start of every stencil.
    pub fn from_arrays(
        control_vertices: u32,
        denominator: Weight,
        sizes: Vec<u32>,
        offsets: Vec<Index>,
        indices: Vec<Index>,
        weights: Vec<Weight>,
    ) -> (r: Option<StencilTable>)
        ensures
            r is Some <==> table_of(
                control_vertices,
                denominator,
                sizes@,
                offsets@,
                indices@,
                weights@,
            ).wf(),
            r matches Some(table) ==> table@ == table_of(
                control_vertices,
                denominator,
                sizes@,
                offsets@,
                indices@,
                weights@,
            ),
    {
        let ghost view = table_of(
            control_vertices,
            denominator,
            sizes@,
            offsets@,
            indices@,
            weights@,
        );
        if denominator == 0 || sizes.len() > u32::MAX as usize || indices.len() > u32::MAX as usize
            || weights.len() != indices.len() {
            return None;
        }
        if offsets.len() != 0 && offsets.len() != sizes.len() {
            return None;
        }
        let mut start: usize = 0;
        let mut i: usize = 0;
        while i < sizes.len()
            invariant
                i <= sizes@.len(),
                view == table_of(
                    control_vertices,
                    denominator,
                    sizes@,
                    offsets@,
                    indices@,
                    weights@,
                ),
                denominator >= 1,
                weights@.len() == indices@.len() <= u32::MAX,
                offsets@.len() == 0 || offsets@.len() == sizes@.len(),
                start == prefix_sum(sizes@, i as int),
                start <= indices@.len(),
                forall|m: int|
                    0 <= m < i && m < offsets@.len() ==> #[trigger] offsets@[m] == prefix_sum(
                        sizes@,
                        m,
                    ),
                forall|m: int| 0 <= m < i ==> total(#[trigger] view.stencil(m)) == denominator,
            decreases sizes@.len() - i,
        {
            let size = sizes[i] as usize;
            if size > indices.len() - start {
                proof {
                    lemma_prefix_sum_monotonic(sizes@, i as int + 1, sizes@.len() as int);
                }
                return None;
            }
            if offsets.len() > 0 && offsets[i] as usize != start {
                return None;
            }
            let ghost terms = view.stencil(i as int);
            let mut sum: Weight = 0;
            let mut j: usize = 0;
            while j < size
                invariant
                    j <= size == terms.len(),
                    start + size <= weights@.len() <= u32::MAX,
                    i < sizes@.len(),
                    terms == view.stencil(i as int),
                    view == table_of(
                        control_vertices,
                        denominator,
                        sizes@,
                        offsets@,
                        indices@,
                        weights@,
                    ),
                    forall|m: int| 0 <= m < size ==> (#[trigger] terms[m]).1 == weights@[start + m],
                    sum == total(terms.take(j as int)),
                    sum <= denominator,
                decreases size - j,
            {
                let weight = weights[start + j];
                proof {
                    assert(terms.take(j as int + 1).drop_last() == terms.take(j as int));
                    assert(terms.take(j as int + 1).last() == terms[j as int]);
                    lemma_total_prefix(terms, j as int + 1);
                }
                if weight > denominator - sum {
                    return None;
                }
                sum = sum + weight;
                j = j + 1;
            }
            proof {
                assert(terms.take(j as int) == terms);
            }
            if sum != denominator {
                return None;
            }
            start = start + size;
            i = i + 1;
        }
        if start != indices.len() {
            return None;
        }
        let mut m: usize = 0;
        while m < indices.len()
            invariant
                m <= indices@.len(),
                forall|j: int| 0 <= j < m ==> #[trigger] indices@[j] < control_vertices,
            decreases indices@.len() - m,
        {
            if indices[m] >= control_vertices {
                return None;
            }
            m = m + 1;
        }
        Some(StencilTable { control_vertices, denominator, sizes, offsets, indices, weights })
    }

    /// Returns the number of stencils in the table.
    pub fn len(&self) -> (n: u32)
        ensures
            n == self@.len(),
            self@.wf(),
    {
        proof {
            use_type_invariant(self);
        }
        self.sizes.len() as u32
    }

    /// Returns the number of control vertices indexed in the table.
    pub fn control_vertices_len(&self) -> (n: u32)
        ensures
            n == self@.control_vertices,
    {
        self.control_vertices
    }

    /// Returns the weight that stands for one: the common denominator of
    /// all weights in the table.
    pub fn denominator(&self) -> (d: Weight)
        ensures
            d == self@.denominator,
            d >= 1,
    {
        proof {
            use_type_invariant(self);
        }
        self.denominator
    }

    /// Returns a Stencil at index i in the table, or nothing where the
    /// table has no such stencil.
    pub fn stencil(&self, i: Index) -> (r: Option<Stencil<'_>>)
        ensures
            r is Some <==> i < self@.len(),
            r matches Some(s) ==> {
                &&& s@.indices == self@.stencil_indices(i as int)
                &&& s@.weights == self@.stencil_weights(i as int)
                &&& s@.indices.len() == self@.sizes[i as int]
                &&& s@.weights.len() == self@.sizes[i as int]
            },
    {
        proof {
            use_type_invariant(self);
        }
        if self.sizes.len() <= i as usize {
            None
        } else {
            let start = self.start_of(i);
            let size = self.sizes[i as usize];
            proof {
                lemma_prefix_sum_monotonic(self.sizes@, i as int + 1, self.sizes@.len() as int);
            }
            let end = start as usize + size as usize;
            Some(
                Stencil {
                    indices: slice_subrange(self.indices.as_slice(), start as usize, end),
                    weights: slice_subrange(self.weights.as_slice(), start as usize, end),
                },
            )
        }
    }

    /// Applies stencil `i` to a buffer that holds one value for each control
    /// vertex: the sum, over the terms of the stencil, of the weight times
    /// the value of the control vertex. The result is the numerator of the
    /// blended value over the table's denominator.
    ///
    /// Gives nothing where the table has no stencil `i`, or where the buffer
    /// is not as long as the table has control vertices.
    pub fn evaluate(&self, i: Index, values: &[i64]) -> (r: Option<i128>)
        ensures
            r is Some <==> i < self@.len() && values@.len() == self@.control_vertices,
            r matches Some(sum) ==> sum == weighted_sum(self@.stencil(i as int), values@),
    {
        proof {
            use_type_invariant(self);
        }
        if self.sizes.len() <= i as usize || values.len() != self.control_vertices as usize {
            return None;
        }
        let start = self.start_of(i) as usize;
        let size = self.sizes[i as usize] as usize;
        let ghost terms = self@.stencil(i as int);
        proof {
            lemma_prefix_sum_monotonic(self.sizes@, i as int + 1, self.sizes@.len() as int);
            assert(total(terms) == self@.denominator);
        }
        let mut sum: i128 = 0;
        let mut j: usize = 0;
        while j < size
            invariant
                j <= size == terms.len(),
                start + size <= self.indices@.len() == self.weights@.len(),
                self.indices@.len() <= u32::MAX,
                values@.len() == self.control_vertices,
                forall|m: int|
                    0 <= m < self.indices@.len() ==> #[trigger] self.indices@[m]
                        < self.control_vertices,
                forall|m: int|
                    0 <= m < size ==> #[trigger] terms[m] == (
                        self.indices@[start + m],
                        self.weights@[start + m],
                    ),
                total(terms) <= u64::MAX,
                sum == weighted_sum(terms.take(j as int), values@),
            decreases size - j,
        {
            let index = self.indices[start + j];
            let weight = self.weights[start + j];
            let ghost next = terms.take(j as int + 1);
            proof {
                assert(next.drop_last() == terms.take(j as int));
                assert(next.last() == terms[j as int]);
                lemma_total_prefix(terms, j as int);
                lemma_total_prefix(terms, j as int + 1);
                lemma_weighted_sum_bounds(terms.take(j as int), values@);
                lemma_weighted_sum_bounds(next, values@);
                let t = total(terms.take(j as int));
                let u = total(next);
                assert(t * 0x8000_0000_0000_0000 <= 0xffff_ffff_ffff_ffff * 0x8000_0000_0000_0000)
                    by (nonlinear_arith)
                    requires
                        0 <= t <= 0xffff_ffff_ffff_ffff,
                ;
                assert(u * 0x8000_0000_0000_0000 <= 0xffff_ffff_ffff_ffff * 0x8000_0000_0000_0000)
                    by (nonlinear_arith)
                    requires
                        0 <= u <= 0xffff_ffff_ffff_ffff,
                ;
                let w = weight as int;
                let v = values@[index as int] as int;
                assert(-0xffff_ffff_ffff_ffff * 0x8000_0000_0000_0000 <= w * v
                    <= 0xffff_ffff_ffff_ffff * 0x8000_0000_0000_0000) by (nonlinear_arith)
                    requires
                        0 <= w <= 0xffff_ffff_ffff_ffff,
                        -0x8000_0000_0000_0000 <= v <= 0x8000_0000_0000_0000,
                ;
            }
            let term: i128 = (weight as i128) * (values[index as usize] as i128);
            sum = sum + term;
            j = j + 1;
        }
        proof {
            assert(terms.take(j as int) == terms);
        }
        Some(sum)
    }

    /// Position of the first term of stencil `i`: read from the offsets
    /// where they are materialized, summed up from the sizes where not.
    fn start_of(&self, i: Index) -> (start: Index)
        requires
            i < self@.len(),
        ensures
            start == self@.start(i as int),
    {
        proof {
            use_type_invariant(self);
        }
        if self.offsets.len() > 0 {
            self.offsets[i as usize]
        } else {
            let mut start: Index = 0;
            let mut k: usize = 0;
            while k < i as usize
                invariant
                    k <= i < self.sizes@.len(),
                    start == prefix_sum(self.sizes@, k as int),
                    prefix_sum(self.sizes@, self.sizes@.len() as int) <= u32::MAX,
                decreases i - k,
            {
                proof {
                    lemma_prefix_sum_monotonic(
                        self.sizes@,
                        k as int + 1,
                        self.sizes@.len() as int,
                    );
                }
                start = start + self.sizes[k];
                k = k + 1;
            }
            start
        }
    }

    /// Returns the number of control vertices of each stencil in the table.
    pub fn sizes(&self) -> (r: &[u32])
        ensures
            r@ == self@.sizes,
            r@.len() == self@.len(),
    {
        self.sizes.as_slice()
    }

    /// Returns the offset to a given stencil. The array is empty where the
    /// table was built without offsets; otherwise it has one entry per
    /// stencil, the sum of the sizes of the stencils before it.
    pub fn offsets(&self) -> (r: &[Index])
        ensures
            r@ == self@.offsets,
            r@.len() == 0 || r@.len() == self@.len(),
            forall|i: int| 0 <= i < r@.len() ==> #[trigger] r@[i] == prefix_sum(self@.sizes, i),
    {
        proof {
            use_type_invariant(self);
        }
        self.offsets.as_slice()
    }

    /// Returns the indices of the control vertices, all stencils one after
    /// the other. Every one of them is below the number of control vertices.
    pub fn control_indices(&self) -> (r: &[Index])
        ensures
            r@ == self@.indices,
            r@.len() == prefix_sum(self@.sizes, self@.len() as int),
            forall|j: int| 0 <= j < r@.len() ==> #[trigger] r@[j] < self@.control_vertices,
    {
        proof {
            use_type_invariant(self);
        }
        self.indices.as_slice()
    }

    /// Returns the stencil interpolation weights, parallel to the control
    /// indices. Those of each stencil add up to the denominator.
    pub fn weights(&self) -> (r: &[Weight])
        ensures
            r@ == self@.weights,
            r@.len() == prefix_sum(self@.sizes, self@.len() as int),
            forall|i: int|
                0 <= i < self@.len() ==> total(#[trigger] self@.stencil(i)) == self@.denominator,
    {
        proof {
            use_type_invariant(self);
        }
        self.weights.as_slice()
    }
}

} // verus!
