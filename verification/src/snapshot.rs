//! The mathematical content of a mailbox snapshot.

use crate::flag::Flag;
use vstd::prelude::*;

verus! {

/// The mathematical content of a mailbox snapshot.
///
/// `flags` maps each message id to the flags of that message. `ids` lists
/// the ids in the order in which they first entered the snapshot.
pub struct Snapshot {
    pub ids: Seq<Seq<char>>,
    pub flags: Map<Seq<char>, Set<Flag>>,
}

impl Snapshot {
    /// The snapshot of an empty mailbox.
    pub open spec fn empty() -> Snapshot {
        Snapshot { ids: Seq::empty(), flags: Map::empty() }
    }

    /// Whether the snapshot holds a message with this id.
    pub open spec fn contains(self, id: Seq<char>) -> bool {
        self.flags.contains_key(id)
    }

    /// The snapshot after a message was recorded. A message that is recorded
    /// again keeps its place in `ids` and takes the new flags.
    pub open spec fn insert(self, id: Seq<char>, flags: Set<Flag>) -> Snapshot {
        Snapshot {
            ids: if self.flags.contains_key(id) {
                self.ids
            } else {
                self.ids.push(id)
            },
            flags: self.flags.insert(id, flags),
        }
    }

    /// `ids` lists exactly the ids that `flags` maps, each once.
    pub open spec fn wf(self) -> bool {
        &&& self.ids.no_duplicates()
        &&& forall|id: Seq<char>| self.ids.contains(id) <==> #[trigger] self.flags.contains_key(id)
    }

    /// The snapshot that results from recording `entries` in order, starting
    /// from an empty mailbox.
    pub open spec fn collect(entries: Seq<(Seq<char>, Set<Flag>)>) -> Snapshot
        decreases entries.len(),
    {
        if entries.len() == 0 {
            Snapshot::empty()
        } else {
            Snapshot::collect(entries.drop_last()).insert(entries.last().0, entries.last().1)
        }
    }

    /// Recording a message keeps a snapshot well-formed.
    pub proof fn lemma_insert_wf(self, id: Seq<char>, flags: Set<Flag>)
        requires
            self.wf(),
        ensures
            self.insert(id, flags).wf(),
    {
        let next = self.insert(id, flags);
        if self.flags.contains_key(id) {
            assert forall|k: Seq<char>| next.ids.contains(k) <==> #[trigger] next.flags.contains_key(
                k,
            ) by {}
        } else {
            assert forall|k: Seq<char>| next.ids.contains(k) <==> #[trigger] next.flags.contains_key(
                k,
            ) by {
                if self.ids.contains(k) {
                    let i = choose|i: int| 0 <= i < self.ids.len() && self.ids[i] == k;
                    assert(next.ids[i] == k);
                }
                if k == id {
                    assert(next.ids[self.ids.len() as int] == k);
                }
            }
        }
    }

    /// What a collected snapshot holds: the messages of the entries, each
    /// with the flags of the last entry that has its id, and listed where
    /// its id first occurs.
    pub proof fn lemma_collect_last_wins(entries: Seq<(Seq<char>, Set<Flag>)>)
        ensures
            forall|id: Seq<char>| #[trigger]
                Snapshot::collect(entries).contains(id) <==> entry_ids(entries).contains(id),
            forall|at: int| #[trigger]
                is_last_of_its_id(entries, at) ==> Snapshot::collect(entries).flags[entries[at].0]
                    == entries[at].1,
            Snapshot::collect(entries).ids == first_occurrences(entry_ids(entries)),
        decreases entries.len(),
    {
        let all = Snapshot::collect(entries);
        let ids = entry_ids(entries);
        if entries.len() == 0 {
            assert forall|id: Seq<char>| #[trigger] all.contains(id) <==> ids.contains(id) by {}
        } else {
            let init = entries.drop_last();
            let last = entries.last();
            let before = Snapshot::collect(init);
            Snapshot::lemma_collect_last_wins(init);
            assert(ids.drop_last() =~= entry_ids(init));
            assert(ids.last() == last.0);
            assert forall|id: Seq<char>| #[trigger] all.contains(id) <==> ids.contains(id) by {
                assert(before.contains(id) <==> entry_ids(init).contains(id));
                if entry_ids(init).contains(id) {
                    let k = choose|k: int| 0 <= k < init.len() && entry_ids(init)[k] == id;
                    assert(ids[k] == id);
                }
                if id == last.0 {
                    assert(ids[ids.len() - 1] == id);
                }
                if ids.contains(id) && id != last.0 {
                    let k = choose|k: int| 0 <= k < ids.len() && ids[k] == id;
                    assert(entry_ids(init)[k] == id);
                }
            }
            assert forall|at: int| #[trigger] is_last_of_its_id(entries, at) implies all.flags[entries[at].0]
                == entries[at].1 by {
                if at < init.len() {
                    assert(entries[at].0 != entries[entries.len() - 1].0);
                    assert(init[at] == entries[at]);
                    assert(is_last_of_its_id(init, at)) by {
                        assert forall|later: int| at < later < init.len() implies init[later].0
                            != init[at].0 by {
                            assert(init[later] == entries[later]);
                        }
                    }
                }
            }
            assert(before.contains(last.0) <==> entry_ids(init).contains(last.0));
        }
    }

    /// Every collected snapshot is well-formed.
    pub proof fn lemma_collect_wf(entries: Seq<(Seq<char>, Set<Flag>)>)
        ensures
            Snapshot::collect(entries).wf(),
        decreases entries.len(),
    {
        if entries.len() > 0 {
            Snapshot::lemma_collect_wf(entries.drop_last());
            Snapshot::collect(entries.drop_last()).lemma_insert_wf(
                entries.last().0,
                entries.last().1,
            );
        }
    }
}

/// `ids` without repeats: each id stands where it first occurs.
pub open spec fn first_occurrences(ids: Seq<Seq<char>>) -> Seq<Seq<char>>
    decreases ids.len(),
{
    if ids.len() == 0 {
        Seq::empty()
    } else if ids.drop_last().contains(ids.last()) {
        first_occurrences(ids.drop_last())
    } else {
        first_occurrences(ids.drop_last()).push(ids.last())
    }
}

/// `first_occurrences` keeps every id and repeats none.
pub proof fn lemma_first_occurrences(ids: Seq<Seq<char>>)
    ensures
        first_occurrences(ids).no_duplicates(),
        forall|id: Seq<char>| first_occurrences(ids).contains(id) <==> ids.contains(id),
    decreases ids.len(),
{
    if ids.len() > 0 {
        let init = ids.drop_last();
        let last = ids.last();
        lemma_first_occurrences(init);
        let kept = first_occurrences(init);
        let all = first_occurrences(ids);
        assert forall|id: Seq<char>| all.contains(id) <==> ids.contains(id) by {
            if ids.contains(id) {
                let i = choose|i: int| 0 <= i < ids.len() && ids[i] == id;
                if i < init.len() {
                    assert(init[i] == id);
                    assert(init.contains(id));
                    assert(kept.contains(id));
                    let k = choose|k: int| 0 <= k < kept.len() && kept[k] == id;
                    assert(all[k] == id);
                } else {
                    assert(id == last);
                    if init.contains(last) {
                        assert(kept.contains(id));
                    } else {
                        assert(all[kept.len() as int] == id);
                    }
                }
            }
            if all.contains(id) {
                let k = choose|k: int| 0 <= k < all.len() && all[k] == id;
                if k < kept.len() {
                    assert(kept[k] == id);
                    assert(kept.contains(id));
                    assert(init.contains(id));
                    let i = choose|i: int| 0 <= i < init.len() && init[i] == id;
                    assert(ids[i] == id);
                } else {
                    assert(id == last);
                    assert(ids[ids.len() - 1] == id);
                }
            }
        }
        if !init.contains(last) {
            assert forall|i: int, j: int|
                0 <= i < all.len() && 0 <= j < all.len() && i != j implies all[i] != all[j] by {
                if i == kept.len() {
                    assert(kept[j] == all[j]);
                    assert(kept.contains(all[j]));
                } else if j == kept.len() {
                    assert(kept[i] == all[i]);
                    assert(kept.contains(all[i]));
                }
            }
        }
    }
}

/// The ids of a list of entries, in their order.
pub open spec fn entry_ids(entries: Seq<(Seq<char>, Set<Flag>)>) -> Seq<Seq<char>> {
    entries.map_values(|entry: (Seq<char>, Set<Flag>)| entry.0)
}

/// No entry after the one at `at` has the same id.
pub open spec fn is_last_of_its_id(entries: Seq<(Seq<char>, Set<Flag>)>, at: int) -> bool {
    &&& 0 <= at < entries.len()
    &&& forall|later: int| at < later < entries.len() ==> entries[later].0 != entries[at].0
}

} // verus!
