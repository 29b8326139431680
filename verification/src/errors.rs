//! The error taxonomy the service surfaces.

use vstd::prelude::*;

verus! {

/// The document store could not be reached or the target was malformed;
/// fatal to startup.
#[derive(Clone, Copy, PartialEq, Eq, Structural, Debug)]
pub struct ConnectionError;

/// A listing failed: the store faulted, or a stored document did not decode
/// into the expected shape.
#[derive(Clone, Copy, PartialEq, Eq, Structural, Debug)]
pub enum QueryError {
    StoreUnavailable,
    MalformedDocument,
}

/// An upsert or delete failed at the store.
#[derive(Clone, Copy, PartialEq, Eq, Structural, Debug)]
pub enum WriteError {
    StoreUnavailable,
    QuantityOverflow,
}

} // verus!
