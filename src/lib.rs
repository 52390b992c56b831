//! Pollard's Kangaroo ECDLP solver for secp256k1: the verified core of
//! 256-bit arithmetic, limb/byte marshalling and distinguished-point logic.
use vstd::prelude::*;

pub mod cli;
pub mod convert;
pub mod dp;
pub mod gpu;
pub mod math;
pub mod shaders;
pub mod solver;

verus! {

} // verus!
