//! An infinite, sparsely populated 3D voxel world, partitioned into
//! 16 x 16 x 16 chunks that are independently claimable and mutable by an
//! owning identity.
//!
//! The crate has two storage paths over the same addressing scheme:
//! an ungated sparse store for local world editing ([`store`]), and a
//! gated ownership registry whose mutations require authorization
//! ([`world`]).

pub mod chunk;
pub mod coords;
pub mod store;
pub mod table;
pub mod world;
