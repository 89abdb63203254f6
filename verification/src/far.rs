//! Feature-adaptive representation: stencils and the refinement data they
//! are built from.
mod builder;
pub mod flatten;
pub mod sparse;
pub mod stencil_table;
pub mod topology_refiner;
pub mod weights;

pub use stencil_table::{
    ConstructionError, InterpolationMode, LevelScope, Options, Stencil, StencilTable,
};
pub use topology_refiner::{Channel, Level, Mask, TopologyRefiner};
pub use weights::Weight;
