//! Ports: the narrow interfaces between the verified application logic and
//! its collaborators (storage, history, console). Adapters implement them
//! outside the library; mocks implement them in tests.

use vstd::prelude::*;
use crate::domain::Yak;
use crate::errors::YakError;

verus! {

/// Persistence of yaks: one directory per yak with a status marker and a
/// note file. Implemented by the directory-backed adapter and by test mocks.
pub trait StoragePort {
    /// Create a new yak.
    fn create_yak(&self, name: &str) -> Result<(), YakError>;

    /// Get a yak by name.
    fn get_yak(&self, name: &str) -> Result<Yak, YakError>;

    /// List all yaks.
    fn list_yaks(&self) -> Result<Vec<Yak>, YakError>;

    /// Mark a yak as done or undone.
    fn mark_done(&self, name: &str, done: bool) -> Result<(), YakError>;

    /// Delete a yak.
    fn delete_yak(&self, name: &str) -> Result<(), YakError>;

    /// Rename a yak.
    fn rename_yak(&self, from: &str, to: &str) -> Result<(), YakError>;

    /// Read the context of a yak.
    fn read_context(&self, name: &str) -> Result<String, YakError>;

    /// Write the context of a yak.
    fn write_context(&self, name: &str, text: &str) -> Result<(), YakError>;

    /// Resolve a name exactly or by unique fuzzy match.
    fn find_yak(&self, name: &str) -> Result<String, YakError>;
}

/// Replication of the working directory through the shared history.
pub trait SyncPort {
    /// Publish the local ref to the remote.
    fn push(&self) -> Result<(), YakError>;

    /// Fetch the remote ref and materialize it locally.
    fn pull(&self) -> Result<(), YakError>;

    /// One full synchronization round: fetch, reconcile, commit, merge,
    /// push, materialize.
    fn sync(&self) -> Result<(), YakError>;
}

/// Where the application writes what the user sees.
pub trait OutputPort {
    /// Report a successful operation.
    fn success(&self, message: &str);

    /// Report a failure.
    fn error(&self, message: &str);

    /// Print informational output.
    fn info(&self, message: &str);
}

/// Recording of operations into the replicated history.
pub trait LogPort {
    /// Record the current state under the given operation name.
    fn log_command(&self, command: &str) -> Result<(), YakError>;
}

} // verus!
