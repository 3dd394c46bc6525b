use vstd::prelude::*;

verus! {

/// Errors that can occur in store operations.
#[derive(Debug)]
pub enum Error {
    /// A failure reported by the storage engine, with its message.
    Rocks(String),
    /// A key or value could not be encoded.
    Serialization(String),
    /// Stored bytes could not be decoded.
    Deserialization(String),
    /// A namespace (column family) that does not exist.
    ColumnFamilyNotFound(String),
    /// A path that is not usable as a store location.
    InvalidPath(String),
    /// Any other failure.
    Other(String),
}

/// Shorthand for a result with this crate's error type.
pub type Result<T> = core::result::Result<T, Error>;

} // verus!
