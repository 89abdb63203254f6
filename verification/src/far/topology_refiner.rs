//! Refinement data: what a stencil table is built from.
//!
//! A refiner describes, for each attribute channel, the coarse mesh and a
//! chain of refinement levels. Each vertex of a level comes with a mask: the
//! vertices of the level before it that it is blended from, and their
//! weights. How the masks follow from the connectivity of the mesh is the
//! business of whoever fills the refiner in.
use vstd::prelude::*;

use crate::far::stencil_table::InterpolationMode;
use crate::far::weights::{lemma_total_prefix, total, Weight};
use crate::Index;

verus! {

/// One-level stencil of a refined vertex: terms of (index of a vertex of the
/// level before, weight).
pub type Mask = Vec<(Index, Weight)>;

/// One refinement level: a mask for each of its vertices. The weights of
/// every mask are numerators over `denominator`, and add up to it.
#[derive(Debug)]
pub struct Level {
    pub denominator: Weight,
    pub masks: Vec<Mask>,
}

/// The refinement of one attribute channel: the size of the coarse mesh and
/// the levels, coarsest first.
#[derive(Debug)]
pub struct Channel {
    pub coarse_vertices: u32,
    pub levels: Vec<Level>,
}

/// Refinement data for the three kinds of attribute that a mesh carries.
#[derive(Debug)]
pub struct TopologyRefiner {
    pub vertex: Channel,
    pub varying: Channel,
    pub face_varying: Channel,
}

impl TopologyRefiner {
    /// The channel that an interpolation mode stands for.
    pub open spec fn channel(&self, mode: InterpolationMode) -> &Channel {
        match mode {
            InterpolationMode::Vertex => &self.vertex,
            InterpolationMode::Varying => &self.varying,
            InterpolationMode::FaceVarying => &self.face_varying,
        }
    }
}

/// A mask is consistent where every term names a vertex of the level before
/// and the weights add up to the level's denominator.
pub open spec fn mask_consistent(
    mask: Seq<(Index, Weight)>,
    denominator: int,
    parents: int,
) -> bool {
    &&& total(mask) == denominator
    &&& forall|e: int| 0 <= e < mask.len() ==> (#[trigger] mask[e]).0 < parents
}

impl Level {
    /// A level is consistent where its denominator is positive and all its
    /// masks are consistent.
    pub open spec fn consistent(&self, parents: int) -> bool {
        &&& self.denominator >= 1
        &&& forall|v: int|
            0 <= v < self.masks@.len() ==> mask_consistent(
                (#[trigger] self.masks@[v])@,
                self.denominator as int,
                parents,
            )
    }
}

impl Channel {
    /// Number of refinement levels above the coarse mesh.
    pub open spec fn depth(&self) -> nat {
        self.levels@.len()
    }

    /// Number of vertices of level `l`; level 0 is the coarse mesh.
    pub open spec fn vertex_count(&self, l: int) -> nat {
        if l <= 0 {
            self.coarse_vertices as nat
        } else {
            self.levels@[l - 1].masks@.len()
        }
    }

    /// Mask of vertex `v` of level `l >= 1`.
    pub open spec fn mask(&self, l: int, v: int) -> Seq<(Index, Weight)> {
        self.levels@[l - 1].masks@[v]@
    }

    /// The levels fit together: each is consistent over the vertices of the
    /// one before it.
    pub open spec fn consistent(&self) -> bool {
        forall|l: int|
            1 <= l <= self.depth() ==> (#[trigger] self.levels@[l - 1]).consistent(
                self.vertex_count(l - 1) as int,
            )
    }

    /// Product of the denominators of levels `1..=l`: the denominator of the
    /// weights that level `l` gives to the coarse vertices.
    pub open spec fn denominator_through(&self, l: nat) -> int
        decreases l,
    {
        if l == 0 {
            1
        } else {
            self.denominator_through((l - 1) as nat) * self.levels@[l - 1].denominator
        }
    }

    /// Product of the denominators of the levels above `l`.
    pub open spec fn denominator_after(&self, l: nat) -> int
        decreases self.depth() - l,
    {
        if l >= self.depth() {
            1
        } else {
            self.levels@[l as int].denominator * self.denominator_after(l + 1)
        }
    }

    /// Weight of coarse vertex `k` in vertex `v` of level `l`, as a
    /// numerator over `denominator_through(l)`.
    ///
    /// A coarse vertex is itself. A refined vertex is its mask, with every
    /// vertex of the level before replaced by what that vertex is in turn.
    pub open spec fn coarse_weight(&self, l: nat, v: int, k: int) -> int
        decreases l, 1nat, 0nat,
    {
        if l == 0 {
            if v == k {
                1
            } else {
                0
            }
        } else {
            self.combined(l, self.mask(l as int, v), k)
        }
    }

    /// Weight of coarse vertex `k` in a combination `terms` of vertices of
    /// level `l - 1`.
    pub open spec fn combined(&self, l: nat, terms: Seq<(Index, Weight)>, k: int) -> int
        decreases l, 0nat, terms.len(),
    {
        if l == 0 || terms.len() == 0 {
            0
        } else {
            self.combined(l, terms.drop_last(), k) + terms.last().1 * self.coarse_weight(
                (l - 1) as nat,
                terms.last().0 as int,
                k,
            )
        }
    }

    /// Tells whether the levels fit together.
    pub fn is_consistent(&self) -> (r: bool)
        ensures
            r == self.consistent(),
    {
        let mut parents: usize = self.coarse_vertices as usize;
        let mut l: usize = 0;
        while l < self.levels.len()
            invariant
                l <= self.levels@.len(),
                parents == self.vertex_count(l as int),
                forall|m: int|
                    1 <= m <= l ==> (#[trigger] self.levels@[m - 1]).consistent(
                        self.vertex_count(m - 1) as int,
                    ),
            decreases self.levels@.len() - l,
        {
            if !level_is_consistent(&self.levels[l], parents) {
                assert(!self.levels@[(l + 1) - 1].consistent(
                    self.vertex_count((l + 1) - 1) as int,
                ));
                return false;
            }
            parents = self.levels[l].masks.len();
            l = l + 1;
        }
        true
    }
}

/// Tells whether a level is consistent over `parents` vertices before it.
fn level_is_consistent(level: &Level, parents: usize) -> (r: bool)
    ensures
        r == level.consistent(parents as int),
{
    if level.denominator == 0 {
        return false;
    }
    let mut v: usize = 0;
    while v < level.masks.len()
        invariant
            v <= level.masks@.len(),
            level.denominator >= 1,
            forall|u: int|
                0 <= u < v ==> mask_consistent(
                    (#[trigger] level.masks@[u])@,
                    level.denominator as int,
                    parents as int,
                ),
        decreases level.masks@.len() - v,
    {
        if !mask_is_consistent(&level.masks[v], level.denominator, parents) {
            return false;
        }
        v = v + 1;
    }
    true
}

/// Tells whether a mask is consistent: sums the weights, giving up as soon
/// as they pass the denominator.
fn mask_is_consistent(mask: &Mask, denominator: Weight, parents: usize) -> (r: bool)
    ensures
        r == mask_consistent(mask@, denominator as int, parents as int),
{
    let mut sum: Weight = 0;
    let mut e: usize = 0;
    while e < mask.len()
        invariant
            e <= mask@.len(),
            sum == total(mask@.take(e as int)),
            sum <= denominator,
            forall|d: int| 0 <= d < e ==> (#[trigger] mask@[d]).0 < parents,
        decreases mask@.len() - e,
    {
        let (parent, weight) = mask[e];
        proof {
            assert(mask@.take(e as int + 1).drop_last() == mask@.take(e as int));
            lemma_total_prefix(mask@, e as int + 1);
        }
        if parent as usize >= parents {
            return false;
        }
        if weight > denominator - sum {
            return false;
        }
        sum = sum + weight;
        e = e + 1;
    }
    proof {
        assert(mask@.take(e as int) == mask@);
    }
    sum == denominator
}

} // verus!
