use vstd::prelude::*;

pub mod element;
pub mod format;
pub mod maps;
pub mod negotiate;
pub mod transform;

// Remapping of video frames through per-pixel displacement maps: map
// preparation, caps negotiation and bilinear resampling.
verus! {

} // verus!
