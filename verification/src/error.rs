//! What can go wrong while a snapshot is built.

use vstd::prelude::*;

verus! {

/// The failures of snapshot building. Either one ends the building: no
/// partial snapshot is handed out.
#[derive(Debug, PartialEq, Eq)]
pub enum EverestError {
    /// A fetched message carries no UID. The payload is the sequence number
    /// of the message.
    MissingImapUidError(u32),
    /// A maildir entry could not be read. The payload says why.
    InvalidMaildirEntryError(String),
}

} // verus!
