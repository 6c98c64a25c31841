//! What holds of every patch that the reconciliation engine computes.

use crate::flag::Flag;
use crate::hunk::HunkView;
use crate::patch::{
    flag_hunks, hunks_for, message_flag_hunks, patch_over, reconcile, union_ids,
};
use crate::snapshot::{lemma_first_occurrences, Snapshot};
use vstd::prelude::*;

verus! {

/// In `patch`, a hunk that creates or deletes a message is the only hunk of
/// that message.
pub open spec fn exclusive(patch: Seq<HunkView>) -> bool {
    forall|i: int, j: int|
        0 <= i < patch.len() && 0 <= j < patch.len() && (#[trigger] patch[i]).is_message_level()
            && patch[i].id == (#[trigger] patch[j]).id ==> i == j
}

/// The test that a hunk is about the message `id`.
pub open spec fn about(id: Seq<char>) -> spec_fn(HunkView) -> bool {
    |hunk: HunkView| hunk.id == id
}

/// The hunks of `patch` that are about the message `id`, in their order.
pub open spec fn hunks_of(patch: Seq<HunkView>, id: Seq<char>) -> Seq<HunkView> {
    patch.filter(about(id))
}

/// `patch` with every hunk addressed to the other side.
pub open spec fn mirrored(patch: Seq<HunkView>) -> Seq<HunkView> {
    patch.map_values(|hunk: HunkView| hunk.mirrored())
}

/// Both sides changed `flag` since the last synchronisation.
pub open spec fn flag_conflict(
    flag: Flag,
    prev_imap: Set<Flag>,
    next_imap: Set<Flag>,
    prev_mdir: Set<Flag>,
    next_mdir: Set<Flag>,
) -> bool {
    next_imap.contains(flag) != prev_imap.contains(flag) && next_mdir.contains(flag)
        != prev_mdir.contains(flag)
}

/// No flag of the message `id` was changed on both sides. This is so in
/// particular for a message that one of the four snapshots lacks.
pub open spec fn conflict_free(
    id: Seq<char>,
    prev_imap: Snapshot,
    next_imap: Snapshot,
    prev_mdir: Snapshot,
    next_mdir: Snapshot,
) -> bool {
    prev_imap.contains(id) && next_imap.contains(id) && prev_mdir.contains(id)
        && next_mdir.contains(id) ==> forall|flag: Flag|
        !flag_conflict(
            flag,
            prev_imap.flags[id],
            next_imap.flags[id],
            prev_mdir.flags[id],
            next_mdir.flags[id],
        )
}

/// The hunks of one message are all about that message, and a hunk among
/// them that creates or deletes the message stands alone.
pub proof fn lemma_hunks_for_one_message(
    id: Seq<char>,
    prev_imap: Snapshot,
    next_imap: Snapshot,
    prev_mdir: Snapshot,
    next_mdir: Snapshot,
)
    ensures
        forall|i: int|
            0 <= i < hunks_for(id, prev_imap, next_imap, prev_mdir, next_mdir).len()
                ==> (#[trigger] hunks_for(id, prev_imap, next_imap, prev_mdir, next_mdir)[i]).id
                == id,
        forall|i: int|
            0 <= i < hunks_for(id, prev_imap, next_imap, prev_mdir, next_mdir).len() && (
            #[trigger] hunks_for(
                id,
                prev_imap,
                next_imap,
                prev_mdir,
                next_mdir,
            )[i]).is_message_level() ==> hunks_for(
                id,
                prev_imap,
                next_imap,
                prev_mdir,
                next_mdir,
            ).len() == 1,
{
}

/// Every hunk of `patch_over(ids, ..)` is about one of `ids`.
pub proof fn lemma_patch_over_ids(
    ids: Seq<Seq<char>>,
    prev_imap: Snapshot,
    next_imap: Snapshot,
    prev_mdir: Snapshot,
    next_mdir: Snapshot,
)
    ensures
        forall|i: int|
            0 <= i < patch_over(ids, prev_imap, next_imap, prev_mdir, next_mdir).len()
                ==> ids.contains(
                (#[trigger] patch_over(ids, prev_imap, next_imap, prev_mdir, next_mdir)[i]).id,
            ),
    decreases ids.len(),
{
    if ids.len() > 0 {
        let init = ids.drop_last();
        let last = ids.last();
        lemma_patch_over_ids(init, prev_imap, next_imap, prev_mdir, next_mdir);
        lemma_hunks_for_one_message(last, prev_imap, next_imap, prev_mdir, next_mdir);
        let head = patch_over(init, prev_imap, next_imap, prev_mdir, next_mdir);
        let tail = hunks_for(last, prev_imap, next_imap, prev_mdir, next_mdir);
        let patch = patch_over(ids, prev_imap, next_imap, prev_mdir, next_mdir);
        assert forall|i: int| 0 <= i < patch.len() implies ids.contains(
            (#[trigger] patch[i]).id,
        ) by {
            if i < head.len() {
                assert(patch[i] == head[i]);
                assert(init.contains(head[i].id));
                let k = choose|k: int| 0 <= k < init.len() && init[k] == head[i].id;
                assert(ids[k] == head[i].id);
            } else {
                assert(patch[i] == tail[i - head.len()]);
                assert(ids[ids.len() - 1] == last);
            }
        }
    }
}

/// Over ids without repeats, a hunk that creates or deletes a message is
/// the only hunk of that message.
pub proof fn lemma_patch_over_exclusive(
    ids: Seq<Seq<char>>,
    prev_imap: Snapshot,
    next_imap: Snapshot,
    prev_mdir: Snapshot,
    next_mdir: Snapshot,
)
    requires
        ids.no_duplicates(),
    ensures
        exclusive(patch_over(ids, prev_imap, next_imap, prev_mdir, next_mdir)),
    decreases ids.len(),
{
    if ids.len() > 0 {
        let init = ids.drop_last();
        let last = ids.last();
        lemma_patch_over_exclusive(init, prev_imap, next_imap, prev_mdir, next_mdir);
        lemma_patch_over_ids(init, prev_imap, next_imap, prev_mdir, next_mdir);
        lemma_hunks_for_one_message(last, prev_imap, next_imap, prev_mdir, next_mdir);
        let head = patch_over(init, prev_imap, next_imap, prev_mdir, next_mdir);
        let tail = hunks_for(last, prev_imap, next_imap, prev_mdir, next_mdir);
        let patch = patch_over(ids, prev_imap, next_imap, prev_mdir, next_mdir);
        assert forall|i: int| 0 <= i < head.len() implies (#[trigger] head[i]).id != last by {
            assert(init.contains(head[i].id));
            let k = choose|k: int| 0 <= k < init.len() && init[k] == head[i].id;
            assert(ids[k] == head[i].id);
        }
        assert forall|i: int, j: int|
            0 <= i < patch.len() && 0 <= j < patch.len() && (
            #[trigger] patch[i]).is_message_level() && patch[i].id == (
            #[trigger] patch[j]).id implies i == j by {
            if i < head.len() && j < head.len() {
                assert(patch[i] == head[i] && patch[j] == head[j]);
            } else if i >= head.len() && j >= head.len() {
                assert(patch[i] == tail[i - head.len()]);
                assert(patch[j] == tail[j - head.len()]);
            } else if i < head.len() {
                assert(patch[i] == head[i]);
                assert(patch[j] == tail[j - head.len()]);
            } else {
                assert(patch[j] == head[j]);
                assert(patch[i] == tail[i - head.len()]);
            }
        }
    }
}

/// Exclusivity: in a computed patch, a message has at most one hunk that
/// creates or deletes it, and a message with such a hunk has no other hunk.
pub proof fn lemma_reconcile_exclusive(
    prev_imap: Snapshot,
    next_imap: Snapshot,
    prev_mdir: Snapshot,
    next_mdir: Snapshot,
)
    ensures
        exclusive(reconcile(prev_imap, next_imap, prev_mdir, next_mdir)),
{
    lemma_first_occurrences(next_imap.ids + prev_imap.ids + next_mdir.ids + prev_mdir.ids);
    lemma_patch_over_exclusive(
        union_ids(prev_imap, next_imap, prev_mdir, next_mdir),
        prev_imap,
        next_imap,
        prev_mdir,
        next_mdir,
    );
}

/// No-op baseline: where neither side changed since the last
/// synchronisation, there is nothing to do for any message.
pub proof fn lemma_patch_over_unchanged(
    ids: Seq<Seq<char>>,
    prev_imap: Snapshot,
    next_imap: Snapshot,
    prev_mdir: Snapshot,
    next_mdir: Snapshot,
)
    requires
        prev_imap.flags == next_imap.flags,
        prev_mdir.flags == next_mdir.flags,
    ensures
        patch_over(ids, prev_imap, next_imap, prev_mdir, next_mdir) == Seq::<HunkView>::empty(),
    decreases ids.len(),
{
    if ids.len() > 0 {
        lemma_patch_over_unchanged(ids.drop_last(), prev_imap, next_imap, prev_mdir, next_mdir);
        assert(hunks_for(ids.last(), prev_imap, next_imap, prev_mdir, next_mdir)
            =~= Seq::<HunkView>::empty());
    }
}

/// No-op baseline: where each side's current snapshot maps the same ids to
/// the same flags as its cached snapshot, the patch is empty.
pub proof fn lemma_reconcile_unchanged(
    prev_imap: Snapshot,
    next_imap: Snapshot,
    prev_mdir: Snapshot,
    next_mdir: Snapshot,
)
    requires
        prev_imap.flags == next_imap.flags,
        prev_mdir.flags == next_mdir.flags,
    ensures
        reconcile(prev_imap, next_imap, prev_mdir, next_mdir) == Seq::<HunkView>::empty(),
{
    lemma_patch_over_unchanged(
        union_ids(prev_imap, next_imap, prev_mdir, next_mdir),
        prev_imap,
        next_imap,
        prev_mdir,
        next_mdir,
    );
}

/// Idempotence after convergence: once both sides have arrived at `next` and
/// `next` has become the cached snapshot of both, the patch is empty.
pub proof fn lemma_reconcile_converged(next: Snapshot)
    ensures
        reconcile(next, next, next, next) == Seq::<HunkView>::empty(),
{
    lemma_reconcile_unchanged(next, next, next, next);
}

/// Of hunks that are all about the message `owner`, those about `id` are
/// all of them where `id` is `owner`, and none otherwise.
proof fn lemma_hunks_of_block(block: Seq<HunkView>, owner: Seq<char>, id: Seq<char>)
    requires
        forall|i: int| 0 <= i < block.len() ==> (#[trigger] block[i]).id == owner,
    ensures
        hunks_of(block, id) == if owner == id {
            block
        } else {
            Seq::empty()
        },
    decreases block.len(),
{
    reveal(Seq::filter);
    if block.len() > 0 {
        lemma_hunks_of_block(block.drop_last(), owner, id);
        assert(block.last() == block[block.len() - 1]);
        if owner == id {
            assert(block.drop_last().push(block.last()) =~= block);
        }
    }
}

/// Appending hunks that are all about the message `owner` adds them to the
/// hunks about `owner` and leaves the hunks about any other message alone.
proof fn lemma_hunks_of_append(
    head: Seq<HunkView>,
    block: Seq<HunkView>,
    owner: Seq<char>,
    id: Seq<char>,
)
    requires
        forall|i: int| 0 <= i < block.len() ==> (#[trigger] block[i]).id == owner,
    ensures
        hunks_of(head + block, id) == if owner == id {
            hunks_of(head, id) + block
        } else {
            hunks_of(head, id)
        },
{
    lemma_hunks_of_block(block, owner, id);
    Seq::filter_distributes_over_add(head, block, about(id));
    if owner != id {
        assert(hunks_of(head, id) + Seq::<HunkView>::empty() =~= hunks_of(head, id));
    }
}

/// Whether `ids` holds `id`, told from its last element and the rest.
proof fn lemma_contains_last(ids: Seq<Seq<char>>, id: Seq<char>)
    requires
        ids.len() > 0,
    ensures
        ids.contains(id) <==> ids.last() == id || ids.drop_last().contains(id),
        ids.no_duplicates() ==> ids.drop_last().no_duplicates() && !ids.drop_last().contains(
            ids.last(),
        ),
{
    let init = ids.drop_last();
    if ids.contains(id) {
        let k = choose|k: int| 0 <= k < ids.len() && ids[k] == id;
        if k < init.len() {
            assert(init[k] == id);
        }
    }
    if init.contains(id) {
        let k = choose|k: int| 0 <= k < init.len() && init[k] == id;
        assert(ids[k] == id);
    }
    assert(ids[ids.len() - 1] == ids.last());
    if ids.no_duplicates() && init.contains(ids.last()) {
        let k = choose|k: int| 0 <= k < init.len() && init[k] == ids.last();
        assert(ids[k] == ids[ids.len() - 1]);
    }
}

/// Over ids without repeats, the hunks about one message are the hunks that
/// this message gives rise to.
pub proof fn lemma_hunks_of_patch_over(
    ids: Seq<Seq<char>>,
    id: Seq<char>,
    prev_imap: Snapshot,
    next_imap: Snapshot,
    prev_mdir: Snapshot,
    next_mdir: Snapshot,
)
    requires
        ids.no_duplicates(),
    ensures
        hunks_of(patch_over(ids, prev_imap, next_imap, prev_mdir, next_mdir), id) == if ids.contains(
            id,
        ) {
            hunks_for(id, prev_imap, next_imap, prev_mdir, next_mdir)
        } else {
            Seq::empty()
        },
    decreases ids.len(),
{
    if ids.len() == 0 {
        reveal(Seq::filter);
    } else {
        let init = ids.drop_last();
        let last = ids.last();
        let head = patch_over(init, prev_imap, next_imap, prev_mdir, next_mdir);
        let block = hunks_for(last, prev_imap, next_imap, prev_mdir, next_mdir);
        lemma_contains_last(ids, id);
        lemma_hunks_of_patch_over(init, id, prev_imap, next_imap, prev_mdir, next_mdir);
        lemma_hunks_for_one_message(last, prev_imap, next_imap, prev_mdir, next_mdir);
        lemma_hunks_of_append(head, block, last, id);
        if last == id {
            assert(Seq::<HunkView>::empty() + block =~= block);
        }
    }
}

/// Whatever the order of a computed patch, the hunks about one message are
/// the hunks that this message gives rise to, in their order.
pub proof fn lemma_hunks_of_reconcile(
    id: Seq<char>,
    prev_imap: Snapshot,
    next_imap: Snapshot,
    prev_mdir: Snapshot,
    next_mdir: Snapshot,
)
    requires
        prev_imap.wf(),
        next_imap.wf(),
        prev_mdir.wf(),
        next_mdir.wf(),
    ensures
        hunks_of(reconcile(prev_imap, next_imap, prev_mdir, next_mdir), id) == hunks_for(
            id,
            prev_imap,
            next_imap,
            prev_mdir,
            next_mdir,
        ),
{
    let all = next_imap.ids + prev_imap.ids + next_mdir.ids + prev_mdir.ids;
    let ids = union_ids(prev_imap, next_imap, prev_mdir, next_mdir);
    lemma_first_occurrences(all);
    lemma_hunks_of_patch_over(ids, id, prev_imap, next_imap, prev_mdir, next_mdir);
    if !ids.contains(id) {
        assert(!all.contains(id));
        assert forall|side: Snapshot|
            (side == prev_imap || side == next_imap || side == prev_mdir || side == next_mdir)
                && side.wf() implies !#[trigger] side.contains(id) by {
            if side.flags.contains_key(id) {
                assert(side.ids.contains(id));
                let k = choose|k: int| 0 <= k < side.ids.len() && side.ids[k] == id;
                if side == next_imap {
                    assert(all[k] == id);
                } else if side == prev_imap {
                    assert(all[next_imap.ids.len() + k] == id);
                } else if side == next_mdir {
                    assert(all[next_imap.ids.len() + prev_imap.ids.len() + k] == id);
                } else {
                    assert(all[next_imap.ids.len() + prev_imap.ids.len() + next_mdir.ids.len() + k]
                        == id);
                }
            }
        }
        assert(!prev_imap.contains(id));
        assert(!next_imap.contains(id));
        assert(!prev_mdir.contains(id));
        assert(!next_mdir.contains(id));
    }
}

/// Where no flag of a message was changed on both sides, exchanging the
/// roles of the two sides turns each hunk of the message into the same hunk
/// for the other side.
pub proof fn lemma_hunks_for_mirrored(
    id: Seq<char>,
    prev_imap: Snapshot,
    next_imap: Snapshot,
    prev_mdir: Snapshot,
    next_mdir: Snapshot,
)
    requires
        conflict_free(id, prev_imap, next_imap, prev_mdir, next_mdir),
    ensures
        hunks_for(id, prev_mdir, next_mdir, prev_imap, next_imap) == mirrored(
            hunks_for(id, prev_imap, next_imap, prev_mdir, next_mdir),
        ),
{
    if prev_imap.contains(id) && next_imap.contains(id) && prev_mdir.contains(id)
        && next_mdir.contains(id) {
        let a = prev_imap.flags[id];
        let b = next_imap.flags[id];
        let c = prev_mdir.flags[id];
        let d = next_mdir.flags[id];
        assert forall|flag: Flag| #[trigger]
            flag_hunks(id, flag, c, d, a, b) == mirrored(flag_hunks(id, flag, a, b, c, d)) by {
            assert(!flag_conflict(flag, a, b, c, d));
            assert(flag_hunks(id, flag, c, d, a, b) =~= mirrored(
                flag_hunks(id, flag, a, b, c, d),
            ));
        }
        assert(flag_hunks(id, Flag::Draft, c, d, a, b) == mirrored(
            flag_hunks(id, Flag::Draft, a, b, c, d),
        ));
        assert(flag_hunks(id, Flag::Flagged, c, d, a, b) == mirrored(
            flag_hunks(id, Flag::Flagged, a, b, c, d),
        ));
        assert(flag_hunks(id, Flag::Replied, c, d, a, b) == mirrored(
            flag_hunks(id, Flag::Replied, a, b, c, d),
        ));
        assert(flag_hunks(id, Flag::Seen, c, d, a, b) == mirrored(
            flag_hunks(id, Flag::Seen, a, b, c, d),
        ));
        assert(flag_hunks(id, Flag::Trashed, c, d, a, b) == mirrored(
            flag_hunks(id, Flag::Trashed, a, b, c, d),
        ));
        assert(message_flag_hunks(id, c, d, a, b) =~= mirrored(
            message_flag_hunks(id, a, b, c, d),
        ));
    } else {
        assert(hunks_for(id, prev_mdir, next_mdir, prev_imap, next_imap) =~= mirrored(
            hunks_for(id, prev_imap, next_imap, prev_mdir, next_mdir),
        ));
    }
}

/// Symmetry, message by message in one order: over messages of which no flag
/// was changed on both sides, exchanging the roles of the two sides gives
/// the same hunks in the same order, each addressed to the other side.
pub proof fn lemma_patch_over_mirrored(
    ids: Seq<Seq<char>>,
    prev_imap: Snapshot,
    next_imap: Snapshot,
    prev_mdir: Snapshot,
    next_mdir: Snapshot,
)
    requires
        forall|i: int|
            0 <= i < ids.len() ==> conflict_free(
                #[trigger] ids[i],
                prev_imap,
                next_imap,
                prev_mdir,
                next_mdir,
            ),
    ensures
        patch_over(ids, prev_mdir, next_mdir, prev_imap, next_imap) == mirrored(
            patch_over(ids, prev_imap, next_imap, prev_mdir, next_mdir),
        ),
    decreases ids.len(),
{
    if ids.len() == 0 {
        assert(Seq::<HunkView>::empty() =~= mirrored(Seq::<HunkView>::empty()));
    } else {
        let init = ids.drop_last();
        let last = ids.last();
        assert forall|i: int| 0 <= i < init.len() implies conflict_free(
            #[trigger] init[i],
            prev_imap,
            next_imap,
            prev_mdir,
            next_mdir,
        ) by {
            assert(init[i] == ids[i]);
        }
        assert(last == ids[ids.len() - 1]);
        lemma_patch_over_mirrored(init, prev_imap, next_imap, prev_mdir, next_mdir);
        lemma_hunks_for_mirrored(last, prev_imap, next_imap, prev_mdir, next_mdir);
        let head = patch_over(init, prev_imap, next_imap, prev_mdir, next_mdir);
        let block = hunks_for(last, prev_imap, next_imap, prev_mdir, next_mdir);
        assert(mirrored(head + block) =~= mirrored(head) + mirrored(block));
    }
}

/// Symmetry: computing the patch with the roles of the two sides exchanged
/// gives, for every message of which no flag was changed on both sides, the
/// hunks of the patch computed the right way round, each addressed to the
/// other side. Only the order in which the two patches go through the
/// messages may differ. (Where both sides changed a flag the remote side
/// prevails, whichever way round, so there the two patches differ.)
pub proof fn lemma_reconcile_mirrored(
    prev_imap: Snapshot,
    next_imap: Snapshot,
    prev_mdir: Snapshot,
    next_mdir: Snapshot,
)
    requires
        prev_imap.wf(),
        next_imap.wf(),
        prev_mdir.wf(),
        next_mdir.wf(),
    ensures
        forall|id: Seq<char>| #[trigger]
            conflict_free(id, prev_imap, next_imap, prev_mdir, next_mdir) ==> hunks_of(
                reconcile(prev_mdir, next_mdir, prev_imap, next_imap),
                id,
            ) == mirrored(hunks_of(reconcile(prev_imap, next_imap, prev_mdir, next_mdir), id)),
{
    assert forall|id: Seq<char>| #[trigger]
        conflict_free(id, prev_imap, next_imap, prev_mdir, next_mdir) implies hunks_of(
        reconcile(prev_mdir, next_mdir, prev_imap, next_imap),
        id,
    ) == mirrored(hunks_of(reconcile(prev_imap, next_imap, prev_mdir, next_mdir), id)) by {
        lemma_hunks_of_reconcile(id, prev_imap, next_imap, prev_mdir, next_mdir);
        lemma_hunks_of_reconcile(id, prev_mdir, next_mdir, prev_imap, next_imap);
        lemma_hunks_for_mirrored(id, prev_imap, next_imap, prev_mdir, next_mdir);
    }
}

} // verus!
