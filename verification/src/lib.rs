//! A texture-atlas allocator: packs many small rectangular images into a few
//! large texture segments, hands back handles that name a sub-rectangle inside
//! one segment, and copies pixel data into the allocated regions.
//!
//! The allocator uses shelf packing: allocations are laid out left to right on
//! a current line, a new line opens below when the current one is full, and a
//! new segment is created when the current segment cannot hold a request.

pub mod atlas;
pub mod blit;
pub mod error;
pub mod geom;
pub mod pixel;
pub mod surface;
pub mod texture;

use vstd::prelude::*;

verus! {

} // verus!
