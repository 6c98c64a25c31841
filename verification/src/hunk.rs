//! Hunks: the atomic instructions of a patch.

use crate::flag::Flag;
use vstd::prelude::*;

verus! {

/// What a hunk asks for, and for which message.
#[derive(Debug, PartialEq, Eq)]
pub enum HunkKind {
    /// Create the message with this id.
    AddMsg(String),
    /// Delete the message with this id.
    RemoveMsg(String),
    /// Set the flag on the message with this id.
    AddFlag(String, Flag),
    /// Clear the flag on the message with this id.
    RemoveFlag(String, Flag),
}

/// One instruction, addressed to one side.
#[derive(Debug, PartialEq, Eq)]
pub enum Hunk {
    /// To be carried out on the remote copy.
    Imap(HunkKind),
    /// To be carried out on the local copy.
    Maildir(HunkKind),
}

/// An ordered list of hunks.
pub type Patch = Vec<Hunk>;

/// The side that a hunk is addressed to.
pub enum Side {
    Imap,
    Maildir,
}

/// What a hunk asks for.
pub enum Change {
    AddMsg,
    RemoveMsg,
    AddFlag(Flag),
    RemoveFlag(Flag),
}

/// The mathematical content of a hunk.
pub struct HunkView {
    pub side: Side,
    pub id: Seq<char>,
    pub change: Change,
}

impl Side {
    /// The other side.
    pub open spec fn opposite(self) -> Side {
        match self {
            Side::Imap => Side::Maildir,
            Side::Maildir => Side::Imap,
        }
    }
}

impl HunkView {
    /// Whether the hunk creates or deletes a message.
    pub open spec fn is_message_level(self) -> bool {
        self.change is AddMsg || self.change is RemoveMsg
    }

    /// The same instruction, addressed to the other side.
    pub open spec fn mirrored(self) -> HunkView {
        HunkView { side: self.side.opposite(), id: self.id, change: self.change }
    }
}

impl HunkKind {
    /// The id of the message that the hunk is about.
    pub open spec fn id(&self) -> Seq<char> {
        match self {
            HunkKind::AddMsg(id) => id@,
            HunkKind::RemoveMsg(id) => id@,
            HunkKind::AddFlag(id, _) => id@,
            HunkKind::RemoveFlag(id, _) => id@,
        }
    }

    /// What the hunk asks for.
    pub open spec fn change(&self) -> Change {
        match self {
            HunkKind::AddMsg(_) => Change::AddMsg,
            HunkKind::RemoveMsg(_) => Change::RemoveMsg,
            HunkKind::AddFlag(_, flag) => Change::AddFlag(*flag),
            HunkKind::RemoveFlag(_, flag) => Change::RemoveFlag(*flag),
        }
    }
}

impl Clone for HunkKind {
    fn clone(&self) -> (copy: HunkKind)
        ensures
            copy == *self,
    {
        match self {
            HunkKind::AddMsg(id) => HunkKind::AddMsg(id.clone()),
            HunkKind::RemoveMsg(id) => HunkKind::RemoveMsg(id.clone()),
            HunkKind::AddFlag(id, flag) => HunkKind::AddFlag(id.clone(), *flag),
            HunkKind::RemoveFlag(id, flag) => HunkKind::RemoveFlag(id.clone(), *flag),
        }
    }
}

impl View for Hunk {
    type V = HunkView;

    open spec fn view(&self) -> HunkView {
        match self {
            Hunk::Imap(kind) => HunkView { side: Side::Imap, id: kind.id(), change: kind.change() },
            Hunk::Maildir(kind) => HunkView {
                side: Side::Maildir,
                id: kind.id(),
                change: kind.change(),
            },
        }
    }
}

impl Clone for Hunk {
    fn clone(&self) -> (copy: Hunk)
        ensures
            copy == *self,
    {
        match self {
            Hunk::Imap(kind) => Hunk::Imap(kind.clone()),
            Hunk::Maildir(kind) => Hunk::Maildir(kind.clone()),
        }
    }
}

/// The mathematical content of a list of hunks.
pub open spec fn patch_view(patch: Seq<Hunk>) -> Seq<HunkView> {
    patch.map_values(|hunk: Hunk| hunk@)
}

} // verus!
