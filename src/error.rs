use vstd::prelude::*;

verus! {

/// What a storage or namespace operation can fail with.
#[derive(Debug, Clone, Copy, PartialEq, Eq, Structural)]
pub enum DatabaseError {
    /// The database or the document is absent.
    NotFound,
    /// A database of that name exists already.
    AlreadyExists,
    /// A create was attempted over an existing document.
    Conflict,
    /// The claimed revision is not the stored one.
    UpdateConflict,
    /// The acting identity does not own the document.
    OwnershipConflict,
    /// A revision identifier could not be read.
    RevisionParseError,
    /// The keyspace failed, or a document and its metadata disagree.
    StorageIOError,
    /// A stored or supplied body is not the JSON expected.
    SerializationError,
}

/// Result of a storage operation.
pub type DatabaseResult<T> = Result<T, DatabaseError>;

} // verus!
