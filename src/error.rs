use vstd::prelude::*;

verus! {

/// A mutation that could not be applied. None of these stops a batch.
#[derive(Clone, Copy, Debug, PartialEq, Eq, Structural)]
pub enum SurfaceError {
    /// No live surface has this id.
    NotFound { id: usize },
    /// A live surface already has this id.
    DuplicateId { id: usize },
    /// The device cannot hold one more surface.
    CapacityExceeded { device: u64 },
}

} // verus!
