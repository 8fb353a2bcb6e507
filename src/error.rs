//! The errors of the library.
use vstd::prelude::*;

verus! {

/// Why an operation on the catalog or the registry failed.
#[derive(Debug, Clone, Copy, PartialEq, Eq, Structural)]
pub enum Error {
    /// A stored value has the wrong shape, or the store cannot take the write.
    Storage,
    /// The operation named a guild that the registry does not hold.
    NotFound,
}

} // verus!
