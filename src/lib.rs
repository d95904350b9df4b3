//! Flattens a parsed vector scene into device-space drawables, resizes it,
//! and plots it onto an RGBA raster. Coordinates are fixed-point integers.
use vstd::prelude::*;

pub mod geom;
pub mod logger;
pub mod render;
pub mod scene;
pub mod size;
pub mod tree;

verus! {

} // verus!
