//! Curvature-limited corridors through a two-dimensional world, on an
//! integer grid, with the quadrilateral cells that partition them, and the
//! scene that a game builds in them: the ground and the sky, what is placed
//! into the cells, and the actors with their effects.

pub mod actors;
pub mod arith;
pub mod cell;
pub mod color;
pub mod effect;
pub mod geometry;
pub mod ground;
pub mod mesh_gen;
pub mod placement;
pub mod random;
pub mod render;
pub mod terrain;
pub mod text;
pub mod unit;
