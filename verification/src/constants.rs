use vstd::prelude::*;

verus! {

/// The size of the simulation area, in pixels: its width and its height.
pub const WINDOW_SIZE: (u32, u32) = (1200, 900);

/// The number of particles.
pub const PARTICLE_AMT: usize = 2048;

/// The radius of a particle, in pixels.
pub const PARTICLE_RADIUS: u32 = 3;

/// The distance between neighbours where the particles start on a lattice.
pub const PARTICLE_SPACING: u32 = 6;

/// The distance beyond which a particle has no influence on another. It is
/// also the side of a cell of the neighbour lookup.
pub const SMOOTHING_RADIUS: u32 = 20;

/// The distance between two sample points of the density heatmap.
pub const HEATMAP_RESOLUTION: u32 = 8;

} // verus!
