//! Shapes that model configurations share.
use vstd::prelude::*;

use crate::tensor::F32Bits;

verus! {

/// Shape of a bank of routed experts: how many there are, how many each token uses, how wide each
/// is, and the scale of the routed weights.
#[derive(Clone, Copy, Debug, PartialEq, Eq, Structural)]
pub struct MoeConfig {
    pub n_expert: usize,
    pub n_used: usize,
    pub n_ff_exp: usize,
    pub scale: F32Bits,
}

} // verus!
