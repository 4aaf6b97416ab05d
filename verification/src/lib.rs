pub mod config;
pub mod constants;
pub mod counting;
pub mod cursor;
pub mod game_context;
pub mod particles_lookup;
pub mod placement;
mod random;
pub mod spatial_lookup;
