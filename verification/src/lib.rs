//! A grid-based first-person renderer: a tile map with an "infinite wall
//! border", a player with axis-separated collision resolution, and a
//! ray caster that projects the map into a column-indexed depth buffer
//! and an RGBA frame buffer.
//!
//! All world geometry is carried in 16.16 fixed-point coordinates, so the
//! whole simulation and rendering core is exact integer arithmetic.

pub mod fixed;
pub mod player;
pub mod render;
pub mod sprite;
pub mod ui;
pub mod world;
