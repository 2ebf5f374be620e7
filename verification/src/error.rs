use vstd::prelude::*;

verus! {

/// Errors reported by the reconstruction library.
///
/// Per-sample problems (missing depth, grazing angles) are absorbed by the
/// fusion step and reported through statistics, never through this type.
#[derive(Debug, Clone, PartialEq, Eq)]
pub enum SurfelReconstError {
    /// A statically invalid configuration value, fatal to the caller.
    InvalidArgument(String),
    /// No free slot is left in the model; the caller must retire a surfel
    /// before inserting a new one.
    CapacityExceeded,
}

pub type SurfelReconsResult<T> = Result<T, SurfelReconstError>;

} // verus!
