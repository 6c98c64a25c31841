//! The reconciliation engine: from four snapshots to a patch.

use crate::envelope::{ids_view, Envelopes};
use crate::flag::{Flag, Flags};
use crate::hunk::{patch_view, Change, Hunk, HunkKind, HunkView, Patch, Side};
use crate::laws::{exclusive, lemma_reconcile_exclusive, lemma_reconcile_unchanged};
use crate::snapshot::{first_occurrences, Snapshot};
use vstd::hash_set::StringHashSet;
use vstd::prelude::*;

verus! {

/// The hunks that one flag of one message gives rise to, given the flags of
/// the message in the four snapshots. There is at most one.
///
/// A change on the remote side is carried over to the local side. A change
/// on the local side is carried over to the remote side only where the
/// remote side did not change the same flag itself.
pub open spec fn flag_hunks(
    id: Seq<char>,
    flag: Flag,
    prev_imap: Set<Flag>,
    next_imap: Set<Flag>,
    prev_mdir: Set<Flag>,
    next_mdir: Set<Flag>,
) -> Seq<HunkView> {
    if next_imap.contains(flag) && !prev_imap.contains(flag) {
        seq![HunkView { side: Side::Maildir, id, change: Change::AddFlag(flag) }]
    } else if !next_imap.contains(flag) && prev_imap.contains(flag) {
        seq![HunkView { side: Side::Maildir, id, change: Change::RemoveFlag(flag) }]
    } else if next_mdir.contains(flag) && !prev_mdir.contains(flag) {
        seq![HunkView { side: Side::Imap, id, change: Change::AddFlag(flag) }]
    } else if !next_mdir.contains(flag) && prev_mdir.contains(flag) {
        seq![HunkView { side: Side::Imap, id, change: Change::RemoveFlag(flag) }]
    } else {
        Seq::empty()
    }
}

/// The flag hunks of a message that is present in all four snapshots, flag
/// by flag in the order Draft, Flagged, Replied, Seen, Trashed.
pub open spec fn message_flag_hunks(
    id: Seq<char>,
    prev_imap: Set<Flag>,
    next_imap: Set<Flag>,
    prev_mdir: Set<Flag>,
    next_mdir: Set<Flag>,
) -> Seq<HunkView> {
    flag_hunks(id, Flag::Draft, prev_imap, next_imap, prev_mdir, next_mdir) + flag_hunks(
        id,
        Flag::Flagged,
        prev_imap,
        next_imap,
        prev_mdir,
        next_mdir,
    ) + flag_hunks(id, Flag::Replied, prev_imap, next_imap, prev_mdir, next_mdir) + flag_hunks(
        id,
        Flag::Seen,
        prev_imap,
        next_imap,
        prev_mdir,
        next_mdir,
    ) + flag_hunks(id, Flag::Trashed, prev_imap, next_imap, prev_mdir, next_mdir)
}

/// The hunks that one message gives rise to.
///
/// A message that appeared on one side only is created on the other. A
/// message that disappeared from one side while the other side kept it is
/// deleted there. A message that all four snapshots hold has its flags
/// compared. Any other message gives rise to nothing.
pub open spec fn hunks_for(
    id: Seq<char>,
    prev_imap: Snapshot,
    next_imap: Snapshot,
    prev_mdir: Snapshot,
    next_mdir: Snapshot,
) -> Seq<HunkView> {
    let in_prev_imap = prev_imap.contains(id);
    let in_next_imap = next_imap.contains(id);
    let in_prev_mdir = prev_mdir.contains(id);
    let in_next_mdir = next_mdir.contains(id);
    if in_next_imap && !in_prev_imap && !in_next_mdir && !in_prev_mdir {
        seq![HunkView { side: Side::Maildir, id, change: Change::AddMsg }]
    } else if !in_next_imap && !in_prev_imap && in_next_mdir && !in_prev_mdir {
        seq![HunkView { side: Side::Imap, id, change: Change::AddMsg }]
    } else if !in_next_imap && in_prev_imap && in_next_mdir && in_prev_mdir {
        seq![HunkView { side: Side::Maildir, id, change: Change::RemoveMsg }]
    } else if in_next_imap && in_prev_imap && !in_next_mdir && in_prev_mdir {
        seq![HunkView { side: Side::Imap, id, change: Change::RemoveMsg }]
    } else if in_next_imap && in_prev_imap && in_next_mdir && in_prev_mdir {
        message_flag_hunks(
            id,
            prev_imap.flags[id],
            next_imap.flags[id],
            prev_mdir.flags[id],
            next_mdir.flags[id],
        )
    } else {
        Seq::empty()
    }
}

/// The hunks of the messages `ids`, message by message in the order of `ids`.
pub open spec fn patch_over(
    ids: Seq<Seq<char>>,
    prev_imap: Snapshot,
    next_imap: Snapshot,
    prev_mdir: Snapshot,
    next_mdir: Snapshot,
) -> Seq<HunkView>
    decreases ids.len(),
{
    if ids.len() == 0 {
        Seq::empty()
    } else {
        patch_over(ids.drop_last(), prev_imap, next_imap, prev_mdir, next_mdir) + hunks_for(
            ids.last(),
            prev_imap,
            next_imap,
            prev_mdir,
            next_mdir,
        )
    }
}

/// The ids of the four snapshots together, each once: those of the current
/// remote snapshot first, then what the cached remote snapshot adds, then the
/// current local snapshot, then the cached local snapshot.
pub open spec fn union_ids(
    prev_imap: Snapshot,
    next_imap: Snapshot,
    prev_mdir: Snapshot,
    next_mdir: Snapshot,
) -> Seq<Seq<char>> {
    first_occurrences(next_imap.ids + prev_imap.ids + next_mdir.ids + prev_mdir.ids)
}

/// The patch that reconciles the two sides.
pub open spec fn reconcile(
    prev_imap: Snapshot,
    next_imap: Snapshot,
    prev_mdir: Snapshot,
    next_mdir: Snapshot,
) -> Seq<HunkView> {
    patch_over(
        union_ids(prev_imap, next_imap, prev_mdir, next_mdir),
        prev_imap,
        next_imap,
        prev_mdir,
        next_mdir,
    )
}

/// Appends the hunk of one flag of one message, if there is one.
fn push_flag_hunk(
    patch: &mut Patch,
    id: &str,
    flag: Flag,
    prev_imap: &Flags,
    next_imap: &Flags,
    prev_mdir: &Flags,
    next_mdir: &Flags,
)
    ensures
        patch_view(final(patch)@) == patch_view(old(patch)@) + flag_hunks(
            id@,
            flag,
            prev_imap@,
            next_imap@,
            prev_mdir@,
            next_mdir@,
        ),
{
    let ghost before = patch_view(patch@);
    if next_imap.contains(flag) && !prev_imap.contains(flag) {
        patch.push(Hunk::Maildir(HunkKind::AddFlag(id.to_owned(), flag)));
    } else if !next_imap.contains(flag) && prev_imap.contains(flag) {
        patch.push(Hunk::Maildir(HunkKind::RemoveFlag(id.to_owned(), flag)));
    } else if next_mdir.contains(flag) && !prev_mdir.contains(flag) {
        patch.push(Hunk::Imap(HunkKind::AddFlag(id.to_owned(), flag)));
    } else if !next_mdir.contains(flag) && prev_mdir.contains(flag) {
        patch.push(Hunk::Imap(HunkKind::RemoveFlag(id.to_owned(), flag)));
    }
    assert(patch_view(patch@) =~= before + flag_hunks(
        id@,
        flag,
        prev_imap@,
        next_imap@,
        prev_mdir@,
        next_mdir@,
    ));
}

/// Appends the flag hunks of a message that all four snapshots hold.
fn push_flag_hunks(
    patch: &mut Patch,
    id: &str,
    prev_imap: &Flags,
    next_imap: &Flags,
    prev_mdir: &Flags,
    next_mdir: &Flags,
)
    ensures
        patch_view(final(patch)@) == patch_view(old(patch)@) + message_flag_hunks(
            id@,
            prev_imap@,
            next_imap@,
            prev_mdir@,
            next_mdir@,
        ),
{
    push_flag_hunk(patch, id, Flag::Draft, prev_imap, next_imap, prev_mdir, next_mdir);
    push_flag_hunk(patch, id, Flag::Flagged, prev_imap, next_imap, prev_mdir, next_mdir);
    push_flag_hunk(patch, id, Flag::Replied, prev_imap, next_imap, prev_mdir, next_mdir);
    push_flag_hunk(patch, id, Flag::Seen, prev_imap, next_imap, prev_mdir, next_mdir);
    push_flag_hunk(patch, id, Flag::Trashed, prev_imap, next_imap, prev_mdir, next_mdir);
    assert(patch_view(patch@) =~= patch_view(old(patch)@) + message_flag_hunks(
        id@,
        prev_imap@,
        next_imap@,
        prev_mdir@,
        next_mdir@,
    ));
}

/// Appends the hunks of one message.
fn push_hunks(
    patch: &mut Patch,
    id: &str,
    prev_imap: &Envelopes,
    next_imap: &Envelopes,
    prev_mdir: &Envelopes,
    next_mdir: &Envelopes,
)
    ensures
        patch_view(final(patch)@) == patch_view(old(patch)@) + hunks_for(
            id@,
            prev_imap@,
            next_imap@,
            prev_mdir@,
            next_mdir@,
        ),
{
    let ghost before = patch_view(patch@);
    let in_prev_imap = prev_imap.get(id);
    let in_next_imap = next_imap.get(id);
    let in_prev_mdir = prev_mdir.get(id);
    let in_next_mdir = next_mdir.get(id);
    match (in_prev_imap, in_next_imap, in_prev_mdir, in_next_mdir) {
        (None, Some(_), None, None) => {
            patch.push(Hunk::Maildir(HunkKind::AddMsg(id.to_owned())));
        },
        (None, None, None, Some(_)) => {
            patch.push(Hunk::Imap(HunkKind::AddMsg(id.to_owned())));
        },
        (Some(_), None, Some(_), Some(_)) => {
            patch.push(Hunk::Maildir(HunkKind::RemoveMsg(id.to_owned())));
        },
        (Some(_), Some(_), Some(_), None) => {
            patch.push(Hunk::Imap(HunkKind::RemoveMsg(id.to_owned())));
        },
        (Some(imap_cache), Some(imap), Some(mdir_cache), Some(mdir)) => {
            push_flag_hunks(
                patch,
                id,
                &imap_cache.flags,
                &imap.flags,
                &mdir_cache.flags,
                &mdir.flags,
            );
        },
        _ => {},
    }
    assert(patch_view(patch@) =~= before + hunks_for(
        id@,
        prev_imap@,
        next_imap@,
        prev_mdir@,
        next_mdir@,
    ));
}

/// Appends the hunks of those messages of `ids` that were not met before,
/// and marks them as met. `done` lists the ids gone through so far.
fn push_new_ids(
    patch: &mut Patch,
    seen: &mut StringHashSet,
    ids: &Vec<String>,
    Ghost(done): Ghost<Seq<Seq<char>>>,
    prev_imap: &Envelopes,
    next_imap: &Envelopes,
    prev_mdir: &Envelopes,
    next_mdir: &Envelopes,
)
    requires
        old(seen)@ == done.to_set(),
        patch_view(old(patch)@) == patch_over(
            first_occurrences(done),
            prev_imap@,
            next_imap@,
            prev_mdir@,
            next_mdir@,
        ),
    ensures
        final(seen)@ == (done + ids_view(ids@)).to_set(),
        patch_view(final(patch)@) == patch_over(
            first_occurrences(done + ids_view(ids@)),
            prev_imap@,
            next_imap@,
            prev_mdir@,
            next_mdir@,
        ),
{
    let mut i: usize = 0;
    proof {
        assert(done + ids_view(ids@).take(0) =~= done);
    }
    while i < ids.len()
        invariant
            i <= ids.len(),
            seen@ == (done + ids_view(ids@).take(i as int)).to_set(),
            patch_view(patch@) == patch_over(
                first_occurrences(done + ids_view(ids@).take(i as int)),
                prev_imap@,
                next_imap@,
                prev_mdir@,
                next_mdir@,
            ),
        decreases ids.len() - i,
    {
        let id = &ids[i];
        let ghost met = done + ids_view(ids@).take(i as int);
        proof {
            assert(done + ids_view(ids@).take(i + 1) =~= met.push(id@));
            assert(met.push(id@).drop_last() =~= met);
            met.lemma_push_to_set_commute(id@);
        }
        if seen.insert(id.clone()) {
            proof {
                let order = first_occurrences(met);
                assert(order.push(id@).drop_last() =~= order);
            }
            push_hunks(patch, id.as_str(), prev_imap, next_imap, prev_mdir, next_mdir);
        }
        i += 1;
    }
    proof {
        assert(ids_view(ids@).take(i as int) =~= ids_view(ids@));
    }
}

/// Computes the patch that reconciles the remote and the local copy of a
/// mailbox, from the snapshots cached at the last synchronisation
/// (`prev_…`) and the snapshots observed now (`next_…`).
///
/// Messages are gone through in the order of [`union_ids`]; the hunks of one
/// message stand together. A hunk that creates or deletes a message is the
/// only hunk of that message, and where neither side changed the patch is
/// empty.
pub fn build_patch(
    prev_imap_envelopes: Envelopes,
    next_imap_envelopes: Envelopes,
    prev_mdir_envelopes: Envelopes,
    next_mdir_envelopes: Envelopes,
) -> (patch: Patch)
    ensures
        patch_view(patch@) == reconcile(
            prev_imap_envelopes@,
            next_imap_envelopes@,
            prev_mdir_envelopes@,
            next_mdir_envelopes@,
        ),
        exclusive(patch_view(patch@)),
        prev_imap_envelopes@.flags == next_imap_envelopes@.flags && prev_mdir_envelopes@.flags
            == next_mdir_envelopes@.flags ==> patch@.len() == 0,
{
    proof {
        lemma_reconcile_exclusive(
            prev_imap_envelopes@,
            next_imap_envelopes@,
            prev_mdir_envelopes@,
            next_mdir_envelopes@,
        );
        if prev_imap_envelopes@.flags == next_imap_envelopes@.flags && prev_mdir_envelopes@.flags
            == next_mdir_envelopes@.flags {
            lemma_reconcile_unchanged(
                prev_imap_envelopes@,
                next_imap_envelopes@,
                prev_mdir_envelopes@,
                next_mdir_envelopes@,
            );
        }
    }
    let mut seen = StringHashSet::new();
    let mut patch: Patch = Vec::new();
    let ghost empty = Seq::<Seq<char>>::empty();
    let ghost first = next_imap_envelopes@.ids;
    let ghost second = first + prev_imap_envelopes@.ids;
    let ghost third = second + next_mdir_envelopes@.ids;
    proof {
        assert(empty.to_set() =~= Set::<Seq<char>>::empty());
        assert(patch_view(patch@) =~= Seq::<HunkView>::empty());
        assert(empty + next_imap_envelopes@.ids =~= first);
    }
    push_new_ids(
        &mut patch,
        &mut seen,
        next_imap_envelopes.ids(),
        Ghost(empty),
        &prev_imap_envelopes,
        &next_imap_envelopes,
        &prev_mdir_envelopes,
        &next_mdir_envelopes,
    );
    push_new_ids(
        &mut patch,
        &mut seen,
        prev_imap_envelopes.ids(),
        Ghost(first),
        &prev_imap_envelopes,
        &next_imap_envelopes,
        &prev_mdir_envelopes,
        &next_mdir_envelopes,
    );
    push_new_ids(
        &mut patch,
        &mut seen,
        next_mdir_envelopes.ids(),
        Ghost(second),
        &prev_imap_envelopes,
        &next_imap_envelopes,
        &prev_mdir_envelopes,
        &next_mdir_envelopes,
    );
    push_new_ids(
        &mut patch,
        &mut seen,
        prev_mdir_envelopes.ids(),
        Ghost(third),
        &prev_imap_envelopes,
        &next_imap_envelopes,
        &prev_mdir_envelopes,
        &next_mdir_envelopes,
    );
    patch
}

} // verus!
