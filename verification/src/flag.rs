//! The closed set of message flags, and sets of them.

use vstd::prelude::*;

verus! {

/// A flag that a message can carry on either side.
#[derive(Clone, Copy, Debug, PartialEq, Eq, Hash, Structural)]
pub enum Flag {
    Draft,
    Flagged,
    Replied,
    Seen,
    Trashed,
}

/// The flags of one message.
///
/// The view of a `Flags` value is the mathematical set of its members.
#[derive(Clone, Copy, Debug, PartialEq, Eq)]
pub struct Flags {
    draft: bool,
    flagged: bool,
    replied: bool,
    seen: bool,
    trashed: bool,
}

impl View for Flags {
    type V = Set<Flag>;

    closed spec fn view(&self) -> Set<Flag> {
        Set::new(|flag: Flag| self.holds(flag))
    }
}

impl Default for Flags {
    fn default() -> (flags: Flags)
        ensures
            flags@ == Set::<Flag>::empty(),
    {
        Flags::new()
    }
}

impl Flags {
    /// Whether the field that stands for `flag` is set.
    spec fn holds(&self, flag: Flag) -> bool {
        match flag {
            Flag::Draft => self.draft,
            Flag::Flagged => self.flagged,
            Flag::Replied => self.replied,
            Flag::Seen => self.seen,
            Flag::Trashed => self.trashed,
        }
    }

    /// The empty flag set.
    pub fn new() -> (flags: Flags)
        ensures
            flags@ == Set::<Flag>::empty(),
    {
        let flags = Flags { draft: false, flagged: false, replied: false, seen: false, trashed: false };
        assert(flags@ =~= Set::<Flag>::empty());
        flags
    }

    /// The set that holds exactly the members of `flags`; repeats are harmless.
    pub fn from_slice(flags: &[Flag]) -> (set: Flags)
        ensures
            set@ == flags@.to_set(),
    {
        let mut set = Flags::new();
        let mut i: usize = 0;
        while i < flags.len()
            invariant
                i <= flags.len(),
                set@ == flags@.take(i as int).to_set(),
            decreases flags.len() - i,
        {
            set.insert(flags[i]);
            proof {
                assert(flags@.take(i + 1) =~= flags@.take(i as int).push(flags@[i as int]));
                flags@.take(i as int).lemma_push_to_set_commute(flags@[i as int]);
            }
            i += 1;
        }
        proof {
            assert(flags@.take(i as int) =~= flags@);
        }
        set
    }

    /// Adds `flag` to the set. Returns whether the flag was absent before.
    pub fn insert(&mut self, flag: Flag) -> (added: bool)
        ensures
            final(self)@ == old(self)@.insert(flag),
            added == !old(self)@.contains(flag),
    {
        let added = !self.contains(flag);
        match flag {
            Flag::Draft => { self.draft = true; },
            Flag::Flagged => { self.flagged = true; },
            Flag::Replied => { self.replied = true; },
            Flag::Seen => { self.seen = true; },
            Flag::Trashed => { self.trashed = true; },
        }
        assert(self@ =~= old(self)@.insert(flag));
        added
    }

    /// Whether `flag` is a member of the set.
    pub fn contains(&self, flag: Flag) -> (found: bool)
        ensures
            found == self@.contains(flag),
    {
        match flag {
            Flag::Draft => self.draft,
            Flag::Flagged => self.flagged,
            Flag::Replied => self.replied,
            Flag::Seen => self.seen,
            Flag::Trashed => self.trashed,
        }
    }
}

} // verus!
