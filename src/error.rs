//! Configuration errors, all of them fatal at startup.

use vstd::prelude::*;

verus! {

/// What is wrong with a piece of configuration.
#[derive(Clone, Copy, Debug, PartialEq, Eq, Structural)]
pub enum ConfigError {
    /// The cube's corner offsets are missing, unreadable, not eight, or not
    /// corners of the unit cube.
    CubePoints,
    /// The cube's edges are missing, unreadable, not twelve, or some edge does
    /// not join two corners that differ along exactly one axis.
    CubeEdges,
    /// The triangulation table has an entry whose length is not a multiple of
    /// three, a reference beyond the cube's edges or corners, or a surface in
    /// a cube whose corners all lie on one side.
    Triangulation,
    /// The noise weights and noise scales differ in number.
    LayerCount,
    /// A chunk holds no lattice points, or no world space.
    ChunkSize,
    /// The eviction radius does not reach every chunk that is kept in view.
    EvictionRadius,
}

} // verus!
