//! The failure taxonomy shared by every component of the store.

use vstd::prelude::*;

verus! {

/// One typed failure.  Every operation of the store propagates these to its
/// immediate caller; none is retried internally.
#[derive(Clone, Copy, Debug, PartialEq, Eq, Structural)]
pub enum AnnError {
    /// A child or attribute with the requested name does not exist.
    NotFound,
    /// A create collided with an existing child of the same name.
    AlreadyExists,
    /// A container of the wrong kind, or a narrowing to the wrong type.
    TypeMismatch,
    /// A value kind outside the closed codec set.
    UnsupportedType,
    /// A subset position at or beyond the axis length.
    IndexOutOfBounds,
    /// A storage medium that this build does not provide.
    UnsupportedBackend,
    /// An opaque failure propagated from the storage medium.
    IOFailure,
    /// An operation on a store that has already been closed.
    StoreClosed,
}

pub type AnnResult<T> = Result<T, AnnError>;

} // verus!
