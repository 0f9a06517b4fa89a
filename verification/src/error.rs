//! The ways in which building and refreshing a bundle can fail.

use vstd::prelude::*;

verus! {

/// One of the three relations a bundle carries.
#[derive(Clone, Copy, Debug, PartialEq, Eq, Structural)]
pub enum Relation {
    Proposals,
    Sessions,
    Permissions,
}

/// Why the data provider could not supply a snapshot.
#[derive(Clone, Copy, Debug, PartialEq, Eq, Structural)]
pub enum FetchError {
    /// The store could not be reached.
    Connection,
    /// The store was reached but the query failed.
    Query,
}

/// Why a bundle could not be packed into an archive.
#[derive(Clone, Copy, Debug, PartialEq, Eq, Structural)]
pub enum SerializationError {
    /// The metadata is not a JSON document.
    Metadata,
    /// The snapshot of this relation is not a JSON document.
    Snapshot(Relation),
    /// The tar writer did not accept an entry.
    Archive,
    /// The tar stream could not be compressed.
    Compression,
}

/// Why one refresh left the served bundle as it was.
#[derive(Clone, Copy, Debug, PartialEq, Eq, Structural)]
pub enum RefreshError {
    Fetch(FetchError),
    Serialization(SerializationError),
}

} // verus!
