//! Gameplay-data core for a 2D action game: an attribute/effect engine that
//! derives numeric stats from a base value plus stacked, removable modifiers,
//! and a procedural room generator that turns seeded noise fields into tile
//! grids with guaranteed exit corridors.
//!
//! All numeric state is carried in fixed-point units (see [`fixed`]) so that
//! every computation is a total, deterministic function of its inputs.

pub mod fixed;
pub mod grid;
pub mod attribute;
pub mod keys;
pub mod noise;
pub mod room;
