//! Error types of the resolver.

use vstd::prelude::*;

verus! {

/// Error when serializing a query.
#[derive(Clone, Copy, Debug, PartialEq, Eq, Structural)]
pub enum Error {
    /// The query when serialized is just too long to fit 512 bytes; a valid
    /// name (length below 253 bytes) never triggers this.
    QueryIsTooLong,
}

/// Error when creating a query.
#[derive(Clone, Copy, Debug, PartialEq, Eq, Structural)]
pub enum QueryError {
    /// The query is too long to fit in a 512-byte packet.
    TruncatedPacket,
    /// The request could not be sent, or no transaction id was free.
    Net,
}

} // verus!
