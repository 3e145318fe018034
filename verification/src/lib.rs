//! A verified maze-explorer core: a procedurally carved connectivity grid
//! with mutually consistent walls and a sealed border, a fog-of-war grid, and
//! a compositor that clips camera-relative sprite placements into
//! absolute-position character writes.
use vstd::prelude::*;

pub mod amatrix;
pub mod content;
pub mod dir;
pub mod game;
pub mod image;
pub mod matrix;
pub mod rng;
pub mod screen;
