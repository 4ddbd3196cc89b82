//! Validation failures surfaced to the caller. Each aborts the operation with
//! no partial mutation persisted.

use vstd::prelude::*;

verus! {

#[derive(Clone, Copy, Debug, PartialEq, Eq, Structural)]
pub enum SyncError {
    /// Only one of remote host and remote directory was supplied.
    PartialHostDir,
    /// The directory has no remembered remotes to remove from.
    NoRemotesForDirectory,
    /// No entry of the directory carries the requested name.
    RemoteNotFound,
    /// Several entries exist and the preferred flag was set without a name.
    NameRequiredForPreferred,
    /// An interactive selection lay outside the listed range.
    SelectionOutOfRange,
}

impl SyncError {
    pub open spec fn message_model(self) -> Seq<char> {
        match self {
            SyncError::PartialHostDir => "Both remote_host and remote_dir must be provided together"@,
            SyncError::NoRemotesForDirectory => "No remotes found for this directory"@,
            SyncError::RemoteNotFound => "Remote with the given name not found"@,
            SyncError::NameRequiredForPreferred => "Name required when setting preferred remote"@,
            SyncError::SelectionOutOfRange => "Selection out of range"@,
        }
    }

    /// The human-readable description shown when the operation aborts.
    pub fn message(&self) -> (r: String)
        ensures
            r@ == self.message_model(),
    {
        match self {
            SyncError::PartialHostDir => "Both remote_host and remote_dir must be provided together".to_owned(),
            SyncError::NoRemotesForDirectory => "No remotes found for this directory".to_owned(),
            SyncError::RemoteNotFound => "Remote with the given name not found".to_owned(),
            SyncError::NameRequiredForPreferred => "Name required when setting preferred remote".to_owned(),
            SyncError::SelectionOutOfRange => "Selection out of range".to_owned(),
        }
    }
}

} // verus!
