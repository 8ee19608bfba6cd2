use vstd::prelude::*;

verus! {

/// Why an engine could not be built or run.
#[derive(Clone, Copy, Debug, PartialEq, Eq, Structural)]
pub enum FftError {
    /// The transform size is not a power of two that the engine can take.
    InvalidSize,
    /// A buffer's length differs from the size the engine was prepared for.
    InvalidLength,
    /// The forward and the inverse plan of a backend ask for different
    /// amounts of scratch space.
    ScratchMismatch,
}

} // verus!
