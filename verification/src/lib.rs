//! Three-way reconciliation of two copies of one mailbox.
//!
//! A remote copy (reached over IMAP) and a local copy (a maildir) are each
//! observed as a snapshot: a mapping from message id to the set of flags the
//! message carries. Given the snapshots cached at the last synchronisation
//! and the snapshots observed now, [`build_patch`] computes the hunks that
//! bring both copies into agreement.
//!
//! - [`flag`], [`envelope`] and [`hunk`] hold the data: flags, snapshots and
//!   the instructions of a patch.
//! - [`remote`] and [`local`] build snapshots from what an IMAP fetch and a
//!   maildir listing gave.
//! - [`patch`] is the reconciliation itself, stated over the mathematical
//!   content of snapshots that [`snapshot`] defines.
//! - [`laws`] proves what holds of every patch.

pub mod decimal;
pub mod envelope;
pub mod error;
pub mod flag;
pub mod hunk;
pub mod laws;
pub mod local;
pub mod patch;
pub mod remote;
pub mod snapshot;

pub use envelope::{Envelope, Envelopes};
pub use error::EverestError;
pub use flag::{Flag, Flags};
pub use hunk::{Hunk, HunkKind, Patch};
pub use local::LocalEntry;
pub use patch::build_patch;
pub use remote::{RemoteFlag, RemoteRecord};
