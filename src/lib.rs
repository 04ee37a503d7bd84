use vstd::prelude::*;

pub mod omega;
pub mod gates;
pub mod bits;
pub mod state;
pub mod apply;
pub mod offload;
pub mod circuit;
pub mod threshold;
pub mod measure;
pub mod laws;

verus! {

} // verus!
