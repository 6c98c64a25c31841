//! Snapshots of the local copy, from the entries of a maildir.

use crate::envelope::{Envelope, Envelopes};
use crate::error::EverestError;
use crate::flag::{Flag, Flags};
use crate::snapshot::Snapshot;
use vstd::prelude::*;

verus! {

/// One message of a maildir, as its file name tells it: the id, and the
/// flag markers that follow the id.
#[derive(Debug, PartialEq, Eq)]
pub struct LocalEntry {
    pub id: String,
    pub flags: String,
}

/// The mathematical content of a [`LocalEntry`].
pub struct LocalEntryView {
    pub id: Seq<char>,
    pub flags: Seq<char>,
}

impl View for LocalEntry {
    type V = LocalEntryView;

    open spec fn view(&self) -> LocalEntryView {
        LocalEntryView { id: self.id@, flags: self.flags@ }
    }
}

/// The marker that stands for `flag` in the name of a maildir file.
pub open spec fn marker(flag: Flag) -> char {
    match flag {
        Flag::Draft => 'D',
        Flag::Flagged => 'F',
        Flag::Replied => 'R',
        Flag::Seen => 'S',
        Flag::Trashed => 'T',
    }
}

/// The flags whose markers occur in `markers`. Any other character of
/// `markers` counts for nothing.
pub open spec fn marked_flags(markers: Seq<char>) -> Set<Flag> {
    Set::new(|flag: Flag| markers.contains(marker(flag)))
}

/// Reading a maildir either gave an entry or failed, with the reason.
pub open spec fn listing_view(listing: Seq<Result<LocalEntry, String>>) -> Seq<
    Result<LocalEntryView, Seq<char>>,
> {
    listing.map_values(
        |item: Result<LocalEntry, String>|
            match item {
                Ok(entry) => Ok(entry@),
                Err(reason) => Err(reason@),
            },
    )
}

/// The id and the flags of each entry of a listing that holds no failure.
pub open spec fn local_entries(listing: Seq<Result<LocalEntryView, Seq<char>>>) -> Seq<
    (Seq<char>, Set<Flag>),
> {
    listing.map_values(
        |item: Result<LocalEntryView, Seq<char>>| (item->Ok_0.id, marked_flags(item->Ok_0.flags)),
    )
}

/// `at` is the place of the first failure in `listing`.
pub open spec fn is_first_failure(
    listing: Seq<Result<LocalEntryView, Seq<char>>>,
    at: int,
) -> bool {
    &&& 0 <= at < listing.len()
    &&& listing[at] is Err
    &&& forall|before: int| 0 <= before < at ==> listing[before] is Ok
}

/// What snapshot building owes for `listing`: the snapshot of all its
/// entries, recorded in order, where no reading failed; else the first
/// failure, with its reason.
pub open spec fn normalized_local(
    listing: Seq<Result<LocalEntryView, Seq<char>>>,
    result: Result<Envelopes, EverestError>,
) -> bool {
    match result {
        Ok(envelopes) => {
            &&& forall|i: int| 0 <= i < listing.len() ==> listing[i] is Ok
            &&& envelopes@ == Snapshot::collect(local_entries(listing))
        },
        Err(EverestError::InvalidMaildirEntryError(reason)) => exists|at: int|
            is_first_failure(listing, at) && listing[at]->Err_0 == reason@,
        Err(_) => false,
    }
}

impl Flags {
    /// The flags that a string of maildir markers stands for.
    pub fn from_markers(markers: &str) -> (flags: Flags)
        ensures
            flags@ == marked_flags(markers@),
    {
        let mut flags = Flags::new();
        let ghost mut met_count: int = 0;
        let chars = markers.chars();
        for c in it: chars
            invariant
                it.seq() == markers@,
                met_count == it.index(),
                flags@ == marked_flags(markers@.take(met_count)),
        {
            proof {
                let met = markers@.take(it.index());
                assert(markers@.take(it.index() + 1) =~= met.push(c));
                assert forall|flag: Flag|
                    met.push(c).contains(marker(flag)) <==> met.contains(marker(flag)) || c
                        == marker(flag) by {
                    if met.contains(marker(flag)) {
                        let k = choose|k: int| 0 <= k < met.len() && met[k] == marker(flag);
                        assert(met.push(c)[k] == marker(flag));
                    }
                    if c == marker(flag) {
                        assert(met.push(c)[met.len() as int] == marker(flag));
                    }
                }
            }
            if c == 'S' {
                flags.insert(Flag::Seen);
            } else if c == 'R' {
                flags.insert(Flag::Replied);
            } else if c == 'F' {
                flags.insert(Flag::Flagged);
            } else if c == 'T' {
                flags.insert(Flag::Trashed);
            } else if c == 'D' {
                flags.insert(Flag::Draft);
            }
            assert(flags@ =~= marked_flags(markers@.take(it.index() + 1)));
            proof {
                met_count = met_count + 1;
            }
        }
        proof {
            assert(markers@.take(met_count) =~= markers@);
        }
        flags
    }
}

impl Envelope {
    /// The envelope of a maildir entry.
    pub fn from_local_entry(entry: &LocalEntry) -> (envelope: Envelope)
        ensures
            envelope.id@ == entry.id@,
            envelope.flags@ == marked_flags(entry.flags@),
    {
        Envelope { id: entry.id.clone(), flags: Flags::from_markers(entry.flags.as_str()) }
    }
}

impl Envelopes {
    /// Builds the snapshot of the local copy from the listing of a maildir.
    ///
    /// Entries are recorded in order, so of two entries with one id the later
    /// one stays. The first reading that failed ends the building.
    pub fn try_from_listing(listing: &[Result<LocalEntry, String>]) -> (result: Result<
        Envelopes,
        EverestError,
    >)
        ensures
            normalized_local(listing_view(listing@), result),
            result matches Ok(envelopes) ==> envelopes@.wf(),
    {
        let ghost view = listing_view(listing@);
        let ghost entries = local_entries(view);
        let mut envelopes = Envelopes::new();
        let mut i: usize = 0;
        proof {
            assert(entries.take(0) =~= Seq::empty());
        }
        while i < listing.len()
            invariant
                i <= listing.len(),
                view == listing_view(listing@),
                entries == local_entries(view),
                forall|j: int| 0 <= j < i ==> view[j] is Ok,
                envelopes@ == Snapshot::collect(entries.take(i as int)),
                envelopes@.wf(),
            decreases listing.len() - i,
        {
            match &listing[i] {
                Ok(entry) => {
                    proof {
                        assert(entries.take(i + 1).drop_last() =~= entries.take(i as int));
                        assert(entries.take(i + 1).last() == entries[i as int]);
                    }
                    envelopes.insert(Envelope::from_local_entry(entry));
                },
                Err(reason) => {
                    assert(is_first_failure(view, i as int));
                    return Err(EverestError::InvalidMaildirEntryError(reason.clone()));
                },
            }
            i += 1;
        }
        proof {
            assert(entries.take(i as int) =~= entries);
        }
        Ok(envelopes)
    }
}

} // verus!
