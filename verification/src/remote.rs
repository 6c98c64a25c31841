//! Snapshots of the remote copy, from the result of an IMAP fetch.

use crate::decimal::{decimal, decimal_string};
use crate::envelope::{Envelope, Envelopes};
use crate::error::EverestError;
use crate::flag::{Flag, Flags};
use crate::snapshot::Snapshot;
use vstd::prelude::*;

verus! {

/// A flag as the IMAP protocol knows it.
#[derive(Clone, Copy, Debug, PartialEq, Eq, Structural)]
pub enum RemoteFlag {
    Seen,
    Answered,
    Flagged,
    Deleted,
    Draft,
    Recent,
    MayCreate,
    /// A keyword that a user or a server defined.
    Custom,
    /// A flag that this library has no name for.
    Other,
}

/// One message of a fetch result: its sequence number, its UID where the
/// server sent one, and its flags.
#[derive(Debug, PartialEq, Eq)]
pub struct RemoteRecord {
    pub message: u32,
    pub uid: Option<u32>,
    pub flags: Vec<RemoteFlag>,
}

/// The mathematical content of a [`RemoteRecord`].
pub struct RemoteRecordView {
    pub message: u32,
    pub uid: Option<u32>,
    pub flags: Seq<RemoteFlag>,
}

impl View for RemoteRecord {
    type V = RemoteRecordView;

    open spec fn view(&self) -> RemoteRecordView {
        RemoteRecordView { message: self.message, uid: self.uid, flags: self.flags@ }
    }
}

/// The mathematical content of a list of records.
pub open spec fn records_view(records: Seq<RemoteRecord>) -> Seq<RemoteRecordView> {
    records.map_values(|record: RemoteRecord| record@)
}

/// The protocol flag that stands for `flag`.
pub open spec fn protocol_flag(flag: Flag) -> RemoteFlag {
    match flag {
        Flag::Draft => RemoteFlag::Draft,
        Flag::Flagged => RemoteFlag::Flagged,
        Flag::Replied => RemoteFlag::Answered,
        Flag::Seen => RemoteFlag::Seen,
        Flag::Trashed => RemoteFlag::Deleted,
    }
}

/// The flags whose protocol flags occur in `flags`. Any other protocol flag
/// counts for nothing.
pub open spec fn canonical_flags(flags: Seq<RemoteFlag>) -> Set<Flag> {
    Set::new(|flag: Flag| flags.contains(protocol_flag(flag)))
}

/// The id and the flags of each record of a fetch result in which every
/// record has a UID. The id of a message is its UID in decimal notation.
pub open spec fn remote_entries(records: Seq<RemoteRecordView>) -> Seq<(Seq<char>, Set<Flag>)> {
    records.map_values(
        |record: RemoteRecordView|
            (decimal(record.uid->Some_0 as nat), canonical_flags(record.flags)),
    )
}

/// `at` is the place of the first record without a UID.
pub open spec fn is_first_without_uid(records: Seq<RemoteRecordView>, at: int) -> bool {
    &&& 0 <= at < records.len()
    &&& records[at].uid is None
    &&& forall|before: int| 0 <= before < at ==> records[before].uid is Some
}

/// What snapshot building owes for `records`: the snapshot of all of them,
/// recorded in order, where each has a UID; else the sequence number of the
/// first that has none.
pub open spec fn normalized_remote(
    records: Seq<RemoteRecordView>,
    result: Result<Envelopes, EverestError>,
) -> bool {
    match result {
        Ok(envelopes) => {
            &&& forall|i: int| 0 <= i < records.len() ==> records[i].uid is Some
            &&& envelopes@ == Snapshot::collect(remote_entries(records))
        },
        Err(EverestError::MissingImapUidError(message)) => exists|at: int|
            is_first_without_uid(records, at) && records[at].message == message,
        Err(_) => false,
    }
}

/// `imap::types::Fetches`, the result of an IMAP fetch. Trusted: the type is
/// taken as it is; what a value of it holds is known through
/// [`fetched_records`] alone.
#[verifier::external_type_specification]
#[verifier::external_body]
pub struct ExFetches(imap::types::Fetches);

/// The records that a fetch result holds, in their order: for each
/// `imap::types::Fetch` its fields `message` and `uid` and what its method
/// `flags` returns. Trusted: this is a name, not a definition; it says that
/// a fetch result holds the same records whenever it is asked.
pub uninterp spec fn fetched_records(fetches: imap::types::Fetches) -> Seq<RemoteRecordView>;

/// `imap::types::Fetches::len`. Trusted: the result is the number of
/// records that the fetch result holds.
#[verifier::external_body]
fn fetches_len(fetches: &imap::types::Fetches) -> (len: usize)
    ensures
        len == fetched_records(*fetches).len(),
{
    fetches.len()
}

/// `imap::types::Fetches::get`, followed by a read of the fields `message`
/// and `uid` of the `imap::types::Fetch` found and a call of its method
/// `flags`. Trusted: the result is the record at `index`, each of its flags
/// given by the variant of `RemoteFlag` that is named like the variant of
/// `imap::types::Flag`, and by `RemoteFlag::Other` where there is none.
#[verifier::external_body]
fn fetches_record(fetches: &imap::types::Fetches, index: usize) -> (record: RemoteRecord)
    requires
        index < fetched_records(*fetches).len(),
    ensures
        record@ == fetched_records(*fetches)[index as int],
{
    let fetch = fetches.get(index).unwrap();
    let flags = fetch.flags().iter().map(|flag| match flag {
        imap::types::Flag::Seen => RemoteFlag::Seen,
        imap::types::Flag::Answered => RemoteFlag::Answered,
        imap::types::Flag::Flagged => RemoteFlag::Flagged,
        imap::types::Flag::Deleted => RemoteFlag::Deleted,
        imap::types::Flag::Draft => RemoteFlag::Draft,
        imap::types::Flag::Recent => RemoteFlag::Recent,
        imap::types::Flag::MayCreate => RemoteFlag::MayCreate,
        imap::types::Flag::Custom(_) => RemoteFlag::Custom,
        _ => RemoteFlag::Other,
    }).collect();
    RemoteRecord { message: fetch.message, uid: fetch.uid, flags }
}

/// The records of a fetch result, in their order.
pub fn records_of(fetches: &imap::types::Fetches) -> (records: Vec<RemoteRecord>)
    ensures
        records_view(records@) == fetched_records(*fetches),
{
    let len = fetches_len(fetches);
    let mut records: Vec<RemoteRecord> = Vec::new();
    let mut i: usize = 0;
    while i < len
        invariant
            len == fetched_records(*fetches).len(),
            i <= len,
            records_view(records@) == fetched_records(*fetches).take(i as int),
        decreases len - i,
    {
        let record = fetches_record(fetches, i);
        let ghost before = records_view(records@);
        records.push(record);
        assert(records_view(records@) =~= before.push(record@));
        assert(fetched_records(*fetches).take(i + 1) =~= fetched_records(*fetches).take(
            i as int,
        ).push(fetched_records(*fetches)[i as int]));
        i += 1;
    }
    assert(fetched_records(*fetches).take(len as int) =~= fetched_records(*fetches));
    records
}

impl Flags {
    /// The flags that a list of protocol flags stands for.
    pub fn from_remote_flags(remote: &[RemoteFlag]) -> (flags: Flags)
        ensures
            flags@ == canonical_flags(remote@),
    {
        let mut flags = Flags::new();
        let mut i: usize = 0;
        while i < remote.len()
            invariant
                i <= remote.len(),
                flags@ == canonical_flags(remote@.take(i as int)),
            decreases remote.len() - i,
        {
            proof {
                let met = remote@.take(i as int);
                let next = remote@[i as int];
                assert(remote@.take(i + 1) =~= met.push(next));
                assert forall|flag: Flag|
                    met.push(next).contains(protocol_flag(flag)) <==> met.contains(
                        protocol_flag(flag),
                    ) || next == protocol_flag(flag) by {
                    if met.contains(protocol_flag(flag)) {
                        let k = choose|k: int| 0 <= k < met.len() && met[k] == protocol_flag(flag);
                        assert(met.push(next)[k] == protocol_flag(flag));
                    }
                    if next == protocol_flag(flag) {
                        assert(met.push(next)[met.len() as int] == protocol_flag(flag));
                    }
                }
            }
            match remote[i] {
                RemoteFlag::Seen => {
                    flags.insert(Flag::Seen);
                },
                RemoteFlag::Answered => {
                    flags.insert(Flag::Replied);
                },
                RemoteFlag::Flagged => {
                    flags.insert(Flag::Flagged);
                },
                RemoteFlag::Deleted => {
                    flags.insert(Flag::Trashed);
                },
                RemoteFlag::Draft => {
                    flags.insert(Flag::Draft);
                },
                _ => {},
            }
            assert(flags@ =~= canonical_flags(remote@.take(i + 1)));
            i += 1;
        }
        proof {
            assert(remote@.take(i as int) =~= remote@);
        }
        flags
    }
}

impl Envelope {
    /// The envelope of a fetched message. A message without a UID has none.
    pub fn from_remote_record(record: &RemoteRecord) -> (result: Result<Envelope, EverestError>)
        ensures
            match result {
                Ok(envelope) => {
                    &&& record.uid matches Some(uid)
                    &&& envelope.id@ == decimal(uid as nat)
                    &&& envelope.flags@ == canonical_flags(record.flags@)
                },
                Err(error) => {
                    &&& record.uid is None
                    &&& error == EverestError::MissingImapUidError(record.message)
                },
            },
    {
        match record.uid {
            Some(uid) => Ok(
                Envelope {
                    id: decimal_string(uid),
                    flags: Flags::from_remote_flags(record.flags.as_slice()),
                },
            ),
            None => Err(EverestError::MissingImapUidError(record.message)),
        }
    }
}

impl Envelopes {
    /// Builds the snapshot of the remote copy from the records of a fetch
    /// result.
    ///
    /// Records are recorded in order, so of two records with one UID the
    /// later one stays. The first record without a UID ends the building.
    pub fn try_from_records(records: &[RemoteRecord]) -> (result: Result<Envelopes, EverestError>)
        ensures
            normalized_remote(records_view(records@), result),
            result matches Ok(envelopes) ==> envelopes@.wf(),
    {
        let ghost view = records_view(records@);
        let ghost entries = remote_entries(view);
        let mut envelopes = Envelopes::new();
        let mut i: usize = 0;
        proof {
            assert(entries.take(0) =~= Seq::empty());
        }
        while i < records.len()
            invariant
                i <= records.len(),
                view == records_view(records@),
                entries == remote_entries(view),
                forall|j: int| 0 <= j < i ==> view[j].uid is Some,
                envelopes@ == Snapshot::collect(entries.take(i as int)),
                envelopes@.wf(),
            decreases records.len() - i,
        {
            match Envelope::from_remote_record(&records[i]) {
                Ok(envelope) => {
                    proof {
                        assert(entries.take(i + 1).drop_last() =~= entries.take(i as int));
                        assert(entries.take(i + 1).last() == entries[i as int]);
                    }
                    envelopes.insert(envelope);
                },
                Err(error) => {
                    assert(is_first_without_uid(view, i as int));
                    return Err(error);
                },
            }
            i += 1;
        }
        proof {
            assert(entries.take(i as int) =~= entries);
        }
        Ok(envelopes)
    }

    /// Builds the snapshot of the remote copy from the result of an IMAP
    /// fetch, as [`Envelopes::try_from_records`] does from its records.
    pub fn try_from_fetches(fetches: imap::types::Fetches) -> (result: Result<
        Envelopes,
        EverestError,
    >)
        ensures
            normalized_remote(fetched_records(fetches), result),
            result matches Ok(envelopes) ==> envelopes@.wf(),
    {
        let records = records_of(&fetches);
        Envelopes::try_from_records(records.as_slice())
    }
}

} // verus!
