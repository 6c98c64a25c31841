//! Envelopes, and the snapshots that hold them.

use crate::flag::{Flag, Flags};
use crate::snapshot::Snapshot;
use vstd::hash_map::StringHashMap;
use vstd::prelude::*;

verus! {

/// What one side knows of one message: its id and its flags.
#[derive(Debug, PartialEq, Eq)]
pub struct Envelope {
    pub id: String,
    pub flags: Flags,
}

impl Clone for Envelope {
    fn clone(&self) -> (copy: Envelope)
        ensures
            copy == *self,
    {
        Envelope { id: self.id.clone(), flags: self.flags }
    }
}

impl Default for Envelope {
    fn default() -> (envelope: Envelope)
        ensures
            envelope.id@ == Seq::<char>::empty(),
            envelope.flags@ == Set::<Flag>::empty(),
    {
        Envelope { id: String::new(), flags: Flags::new() }
    }
}

/// The id and the flags of each envelope of a list.
pub open spec fn envelope_entries(envelopes: Seq<Envelope>) -> Seq<(Seq<char>, Set<Flag>)> {
    envelopes.map_values(|envelope: Envelope| (envelope.id@, envelope.flags@))
}

/// The ids of a list of strings, as sequences of characters.
pub open spec fn ids_view(ids: Seq<String>) -> Seq<Seq<char>> {
    ids.map_values(|id: String| id@)
}

/// A mailbox snapshot: the envelopes observed on one side, keyed by id.
///
/// No two envelopes of a snapshot share an id, and each envelope is filed
/// under its own id.
pub struct Envelopes {
    order: Vec<String>,
    by_id: StringHashMap<Envelope>,
}

impl View for Envelopes {
    type V = Snapshot;

    closed spec fn view(&self) -> Snapshot {
        Snapshot {
            ids: ids_view(self.order@),
            flags: Map::new(
                |id: Seq<char>| self.by_id@.contains_key(id),
                |id: Seq<char>| self.by_id@[id].flags@,
            ),
        }
    }
}

impl Clone for Envelopes {
    fn clone(&self) -> (copy: Envelopes)
        ensures
            copy@ == self@,
    {
        proof {
            use_type_invariant(self);
        }
        let ghost ids = ids_view(self.order@);
        let mut copy = Envelopes::new();
        let mut i: usize = 0;
        proof {
            assert(ids.take(0) =~= Seq::empty());
        }
        while i < self.order.len()
            invariant
                i <= self.order.len(),
                self.inv(),
                ids == ids_view(self.order@),
                copy@.ids == ids.take(i as int),
                forall|id: Seq<char>| #[trigger]
                    copy@.flags.contains_key(id) <==> ids.take(i as int).contains(id),
                forall|id: Seq<char>| #[trigger]
                    copy@.flags.contains_key(id) ==> copy@.flags[id] == self@.flags[id],
            decreases self.order.len() - i,
        {
            let id = &self.order[i];
            proof {
                assert(ids[i as int] == id@);
                assert(ids.contains(id@));
                assert(ids.take(i + 1) =~= ids.take(i as int).push(id@));
                let met = ids.take(i as int);
                if met.contains(id@) {
                    let k = choose|k: int| 0 <= k < met.len() && met[k] == id@;
                    assert(ids[k] == ids[i as int]);
                }
            }
            if let Some(envelope) = self.by_id.get(id.as_str()) {
                copy.insert(envelope.clone());
                proof {
                    let met = ids.take(i as int);
                    let next = ids.take(i + 1);
                    assert forall|k: Seq<char>| #[trigger]
                        copy@.flags.contains_key(k) <==> next.contains(k) by {
                        if met.contains(k) {
                            let j = choose|j: int| 0 <= j < met.len() && met[j] == k;
                            assert(next[j] == k);
                        }
                        if k == id@ {
                            assert(next[i as int] == k);
                        }
                        if next.contains(k) && k != id@ {
                            let j = choose|j: int| 0 <= j < next.len() && next[j] == k;
                            assert(met[j] == k);
                        }
                    }
                }
            }
            i += 1;
        }
        proof {
            assert(ids.take(i as int) =~= ids);
            assert(copy@.flags =~= self@.flags);
        }
        copy
    }
}

impl Default for Envelopes {
    fn default() -> (envelopes: Envelopes)
        ensures
            envelopes@ == Snapshot::empty(),
    {
        Envelopes::new()
    }
}

impl Envelopes {
    #[verifier::type_invariant]
    spec fn inv(&self) -> bool {
        &&& ids_view(self.order@).no_duplicates()
        &&& forall|id: Seq<char>|
            ids_view(self.order@).contains(id) <==> #[trigger] self.by_id@.contains_key(id)
        &&& forall|id: Seq<char>| #[trigger]
            self.by_id@.contains_key(id) ==> self.by_id@[id].id@ == id
    }

    /// The snapshot of an empty mailbox.
    pub fn new() -> (envelopes: Envelopes)
        ensures
            envelopes@ == Snapshot::empty(),
            envelopes@.wf(),
    {
        let envelopes = Envelopes { order: Vec::new(), by_id: StringHashMap::new() };
        assert(envelopes@.flags =~= Map::empty());
        assert(envelopes@.ids =~= Seq::empty());
        envelopes
    }

    /// The snapshot that holds `envelopes`, recorded in order: of two
    /// envelopes with one id the later one stays.
    pub fn from_slice(envelopes: &[Envelope]) -> (snapshot: Envelopes)
        ensures
            snapshot@ == Snapshot::collect(envelope_entries(envelopes@)),
            snapshot@.wf(),
    {
        let ghost entries = envelope_entries(envelopes@);
        let mut snapshot = Envelopes::new();
        let mut i: usize = 0;
        proof {
            assert(entries.take(0) =~= Seq::empty());
        }
        while i < envelopes.len()
            invariant
                i <= envelopes.len(),
                entries == envelope_entries(envelopes@),
                snapshot@ == Snapshot::collect(entries.take(i as int)),
                snapshot@.wf(),
            decreases envelopes.len() - i,
        {
            proof {
                assert(entries.take(i + 1).drop_last() =~= entries.take(i as int));
                assert(entries.take(i + 1).last() == entries[i as int]);
            }
            snapshot.insert(envelopes[i].clone());
            i += 1;
        }
        proof {
            assert(entries.take(i as int) =~= entries);
        }
        snapshot
    }

    /// Records `envelope` under its id. An envelope recorded earlier under
    /// the same id is replaced.
    pub fn insert(&mut self, envelope: Envelope)
        ensures
            final(self)@ == old(self)@.insert(envelope.id@, envelope.flags@),
            final(self)@.wf(),
    {
        proof {
            use_type_invariant(&*self);
        }
        let mut taken = Envelopes::new();
        core::mem::swap(self, &mut taken);
        let Envelopes { mut order, mut by_id } = taken;
        let ghost before = ids_view(order@);
        if !by_id.contains_key(envelope.id.as_str()) {
            order.push(envelope.id.clone());
            assert(ids_view(order@) =~= before.push(envelope.id@));
        }
        let ghost id = envelope.id@;
        let ghost flags = envelope.flags@;
        by_id.insert(envelope.id.clone(), envelope);
        proof {
            old(self)@.lemma_insert_wf(id, flags);
            let after = old(self)@.insert(id, flags);
            assert(ids_view(order@) == after.ids);
            assert forall|k: Seq<char>|
                ids_view(order@).contains(k) <==> #[trigger] by_id@.contains_key(k) by {
                assert(after.flags.contains_key(k) <==> by_id@.contains_key(k));
            }
        }
        let next = Envelopes { order, by_id };
        assert(next@.flags =~= old(self)@.flags.insert(id, flags));
        *self = next;
    }

    /// Whether the snapshot holds a message with this id.
    pub fn contains_key(&self, id: &str) -> (found: bool)
        ensures
            found == self@.contains(id@),
    {
        self.by_id.contains_key(id)
    }

    /// The envelope filed under `id`, if there is one.
    pub fn get(&self, id: &str) -> (found: Option<&Envelope>)
        ensures
            match found {
                Some(envelope) => {
                    &&& self@.contains(id@)
                    &&& envelope.id@ == id@
                    &&& envelope.flags@ == self@.flags[id@]
                },
                None => !self@.contains(id@),
            },
    {
        proof {
            use_type_invariant(self);
        }
        self.by_id.get(id)
    }

    /// The number of messages in the snapshot.
    pub fn len(&self) -> (count: usize)
        ensures
            count == self@.ids.len(),
            self@.wf(),
    {
        proof {
            use_type_invariant(self);
        }
        self.order.len()
    }

    /// Whether the snapshot holds no message.
    pub fn is_empty(&self) -> (empty: bool)
        ensures
            empty == (self@.ids.len() == 0),
            self@.wf(),
    {
        self.len() == 0
    }

    /// The ids of the snapshot, in the order in which they first entered it.
    pub fn ids(&self) -> (ids: &Vec<String>)
        ensures
            ids_view(ids@) == self@.ids,
            self@.wf(),
    {
        proof {
            use_type_invariant(self);
        }
        &self.order
    }
}

} // verus!
