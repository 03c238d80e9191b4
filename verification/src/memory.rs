//! The execution engine's memory: a region that holds finished machine code.
//!
//! A region is filled once, when it is made, and sealed from then on: it offers its bytes
//! for reading and no way to change them, so that it is never writable and executable at
//! once. The engine is simulated: it does not transfer control to the code.

use vstd::prelude::*;
use vstd::slice::slice_to_vec;

verus! {

/// Why the engine could not prepare code.
#[derive(Debug, Clone, Copy, PartialEq, Eq, Structural)]
pub enum ExecutionEngineFailure {
    /// No region could be allocated.
    AllocationFailed,
}

/// A sealed region that holds machine code.
pub struct ExecutableMemory {
    code: Vec<u8>,
    simulated: bool,
}

impl ExecutableMemory {
    /// The bytes of the region.
    pub closed spec fn bytes(&self) -> Seq<u8> {
        self.code@
    }

    /// Whether the region is simulated.
    pub closed spec fn simulated(&self) -> bool {
        self.simulated
    }

    /// A sealed region that holds a copy of `code`. A simulated region can always be had.
    pub fn new(code: &[u8]) -> (region: Result<ExecutableMemory, ExecutionEngineFailure>)
        ensures
            region is Ok,
            region.unwrap().bytes() == code@,
            region.unwrap().simulated(),
    {
        Ok(ExecutableMemory { code: slice_to_vec(code), simulated: true })
    }

    /// The bytes of the region.
    pub fn get_code(&self) -> (code: &[u8])
        ensures
            code@ == self.bytes(),
    {
        self.code.as_slice()
    }

    /// Whether the region is simulated.
    pub fn is_simulated(&self) -> (simulated: bool)
        ensures
            simulated == self.simulated(),
    {
        self.simulated
    }
}

} // verus!
