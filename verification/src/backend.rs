//! What the engine needs to know of a compute device.
use vstd::prelude::*;

verus! {

/// What a device can do.
#[derive(Clone, Debug)]
pub struct Capabilities {
    pub name: String,
    /// Half-precision arithmetic.
    pub half_precision: bool,
    pub cooperative_matrix: bool,
    pub max_buffer_bytes: u64,
    pub unified_memory: bool,
}

impl Default for Capabilities {
    fn default() -> (r: Capabilities)
        ensures
            r.name@ == Seq::<char>::empty(),
            !r.half_precision,
            !r.cooperative_matrix,
            r.max_buffer_bytes == 0,
            !r.unified_memory,
    {
        Capabilities {
            name: String::new(),
            half_precision: false,
            cooperative_matrix: false,
            max_buffer_bytes: 0,
            unified_memory: false,
        }
    }
}

/// What a buffer is for.
#[derive(Clone, Copy, Debug, PartialEq, Eq, Structural)]
pub enum BufferUsage {
    Weights,
    Activations,
    Staging,
}

/// A handle of device memory.
pub trait Buffer: Send + Sync {
    fn len_bytes(&self) -> usize;
}

/// A graph that a backend has made ready to run.
pub trait Plan: Send + Sync {

}

} // verus!
