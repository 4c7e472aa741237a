use vstd::prelude::*;

verus! {

/// The ways in which a container operation can fail.
#[derive(Debug, Clone, Copy, PartialEq, Eq, Structural)]
pub enum ContainerError {
    /// A capacity (or growth factor) that cannot be used was given at construction.
    InvalidArgument,
    /// An index lies outside the valid range for the container's current length.
    IndexOutOfRange,
    /// A fixed-capacity container has no room left.
    Full,
}

impl ContainerError {
    /// A human-readable description of the failure.
    pub fn message(&self) -> (r: &'static str)
        ensures
            r@ == match self {
                ContainerError::InvalidArgument => "Capacity must be a positive integer."@,
                ContainerError::IndexOutOfRange => "Index out of bounds."@,
                ContainerError::Full => "Fixed Array is full. Cannot add more elements."@,
            },
    {
        match self {
            ContainerError::InvalidArgument => "Capacity must be a positive integer.",
            ContainerError::IndexOutOfRange => "Index out of bounds.",
            ContainerError::Full => "Fixed Array is full. Cannot add more elements.",
        }
    }
}

} // verus!
