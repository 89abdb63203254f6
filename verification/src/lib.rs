//! Stencil tables for subdivision surfaces.
//!
//! A stencil expresses one refined point of a subdivision surface as an
//! affine combination of the coarse control vertices. A stencil table holds
//! many of them in flat parallel arrays, so that the refined points can be
//! recomputed from moved control vertices by plain weighted sums.
//!
//! Weights are exact: a weight is the numerator of a fraction whose
//! denominator is shared by the whole table, so that the weights of every
//! stencil add up to exactly that denominator.
use vstd::prelude::*;

pub mod far;

verus! {

/// Index of a vertex, a stencil or a flattened array position.
pub type Index = u32;

} // verus!
