//! Procedural generation of a tile-based world map: seeded coherent noise,
//! threshold terrain classification, neighborhood smoothing, and a recursive
//! rectangular-partition road network.

pub mod building;
pub mod collision;
pub mod grid;
pub mod noise;
pub mod rng;
pub mod roads;
pub mod terrain;
