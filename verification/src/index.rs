//! The name-keyed index of an archive's entries.

use crate::entry::{BigEntry, EntryView};
use vstd::hash_map::StringHashMap;
use vstd::prelude::*;

verus! {

/// Whether `part` lies somewhere in `text`, as consecutive characters.
pub open spec fn occurs_in(part: Seq<char>, text: Seq<char>) -> bool {
    exists|at: int|
        0 <= at && at + part.len() <= text.len() && #[trigger] text.subrange(at, at + part.len())
            == part
}

/// Calls `str::contains` with a string as the pattern. Taken on trust: the
/// call tells whether the pattern is a substring of the text.
#[verifier::external_body]
fn str_contains(text: &str, part: &str) -> (found: bool)
    ensures
        found == occurs_in(part@, text@),
{
    text.contains(part)
}

/// Entries found by name. A name occurs once: an entry inserted under a name
/// that is already present takes the place of the earlier one.
///
/// The name under which an entry stands is the name it had when it was
/// inserted; it stays the entry's place in the index whatever is later
/// written into the entry.
pub struct EntryIndex {
    names: Vec<String>,
    entries: Vec<BigEntry>,
    slots: StringHashMap<usize>,
}

impl View for EntryIndex {
    type V = Map<Seq<char>, EntryView>;

    closed spec fn view(&self) -> Map<Seq<char>, EntryView> {
        Map::new(
            |name: Seq<char>| self.slots@.contains_key(name),
            |name: Seq<char>| self.entries@[self.slots@[name] as int]@,
        )
    }
}

impl EntryIndex {
    #[verifier::type_invariant]
    spec fn well_formed(&self) -> bool {
        &&& self.names@.len() == self.entries@.len()
        &&& self.slots@.dom().finite()
        &&& forall|name: Seq<char>| #[trigger]
            self.slots@.contains_key(name) ==> {
                &&& self.slots@[name] < self.names@.len()
                &&& self.names@[self.slots@[name] as int]@ == name
            }
        &&& forall|i: int|
            0 <= i < self.names@.len() ==> {
                &&& self.slots@.contains_key(#[trigger] self.names@[i]@)
                &&& self.slots@[self.names@[i]@] == i
            }
    }

    /// An index without entries.
    pub fn new() -> (index: EntryIndex)
        ensures
            index@ == Map::<Seq<char>, EntryView>::empty(),
    {
        EntryIndex { names: Vec::new(), entries: Vec::new(), slots: StringHashMap::new() }
    }

    /// Puts `entry` under its name, in place of any entry that stood there.
    pub fn insert(&mut self, entry: BigEntry)
        ensures
            final(self)@ == old(self)@.insert(entry.name@, entry@),
    {
        let mut taken = EntryIndex::new();
        core::mem::swap(self, &mut taken);
        *self = taken.with(entry);
    }

    /// The number of entries, which is the number of names.
    pub fn len(&self) -> (count: usize)
        ensures
            self@.dom().finite(),
            count == self@.dom().len(),
    {
        proof {
            use_type_invariant(self);
        }
        assert(self@.dom() =~= self.slots@.dom());
        self.slots.len()
    }

    /// Whether an entry stands under `name`.
    pub fn contains(&self, name: &str) -> (found: bool)
        ensures
            found == self@.contains_key(name@),
    {
        self.slots.contains_key(name)
    }

    /// The entry under `name`, if there is one.
    pub fn get(&self, name: &str) -> (found: Option<&BigEntry>)
        ensures
            match found {
                Some(entry) => self@.contains_key(name@) && entry@ == self@[name@],
                None => !self@.contains_key(name@),
            },
    {
        proof {
            use_type_invariant(self);
        }
        match self.slots.get(name) {
            Some(slot) => Some(&self.entries[*slot]),
            None => None,
        }
    }

    /// The entry under `name`, to be written to. What the caller leaves in
    /// it stands under `name` from then on; no other entry changes.
    pub fn get_mut(&mut self, name: &str) -> (found: Option<&mut BigEntry>)
        ensures
            match found {
                Some(entry) => {
                    &&& old(self)@.contains_key(name@)
                    &&& entry@ == old(self)@[name@]
                    &&& final(self)@ == old(self)@.insert(name@, final(entry)@)
                },
                None => !old(self)@.contains_key(name@) && final(self)@ == old(self)@,
            },
    {
        proof {
            use_type_invariant(&*self);
        }
        let slot = match self.slots.get(name) {
            Some(slot) => *slot,
            None => {
                return None;
            },
        };
        Some(&mut self.entries[slot])
    }

    /// Every name in the index, each once, in no particular order.
    pub fn names(&self) -> (names: Vec<&String>)
        ensures
            names@.len() == self@.dom().len(),
            forall|i: int| 0 <= i < names@.len() ==> self@.contains_key(#[trigger] names@[i]@),
            forall|i: int, j: int|
                0 <= i < j < names@.len() ==> (#[trigger] names@[i]@) != (#[trigger] names@[j]@),
            forall|name: Seq<char>|
                self@.contains_key(name) ==> exists|i: int|
                    0 <= i < names@.len() && (#[trigger] names@[i]@) == name,
    {
        proof {
            use_type_invariant(self);
            self.lemma_names_count();
        }
        let mut names: Vec<&String> = Vec::new();
        let mut i: usize = 0;
        while i < self.names.len()
            invariant
                i <= self.names@.len(),
                names@.len() == i,
                forall|k: int| 0 <= k < i ==> (#[trigger] names@[k]@) == self.names@[k]@,
            decreases self.names@.len() - i,
        {
            names.push(&self.names[i]);
            i += 1;
        }
        assert forall|name: Seq<char>| self@.contains_key(name) implies exists|i: int|
            0 <= i < names@.len() && (#[trigger] names@[i]@) == name by {
            let slot = self.slots@[name] as int;
            assert(names@[slot]@ == name);
        }
        names
    }

    /// The names in the index that contain `part`, each once, in no
    /// particular order.
    pub fn search(&self, part: &str) -> (found: Vec<&String>)
        ensures
            forall|i: int|
                0 <= i < found@.len() ==> self@.contains_key(#[trigger] found@[i]@) && occurs_in(
                    part@,
                    found@[i]@,
                ),
            forall|i: int, j: int|
                0 <= i < j < found@.len() ==> (#[trigger] found@[i]@) != (#[trigger] found@[j]@),
            forall|name: Seq<char>|
                self@.contains_key(name) && occurs_in(part@, name) ==> exists|i: int|
                    0 <= i < found@.len() && (#[trigger] found@[i]@) == name,
    {
        proof {
            use_type_invariant(self);
        }
        let mut found: Vec<&String> = Vec::new();
        let ghost mut slots: Seq<int> = Seq::empty();
        let mut i: usize = 0;
        while i < self.names.len()
            invariant
                i <= self.names@.len(),
                slots.len() == found@.len(),
                forall|k: int|
                    0 <= k < found@.len() ==> {
                        &&& 0 <= #[trigger] slots[k] < i
                        &&& found@[k]@ == self.names@[slots[k]]@
                        &&& occurs_in(part@, found@[k]@)
                    },
                forall|k: int, l: int| 0 <= k < l < found@.len() ==> slots[k] < slots[l],
                forall|slot: int|
                    0 <= slot < i && occurs_in(part@, (#[trigger] self.names@[slot])@)
                        ==> exists|k: int| 0 <= k < found@.len() && #[trigger] slots[k] == slot,
            decreases self.names@.len() - i,
        {
            if str_contains(self.names[i].as_str(), part) {
                found.push(&self.names[i]);
                proof {
                    let ghost before = slots;
                    slots = slots.push(i as int);
                    assert forall|slot: int|
                        0 <= slot < i + 1 && occurs_in(
                            part@,
                            (#[trigger] self.names@[slot])@,
                        ) implies exists|k: int|
                        0 <= k < found@.len() && #[trigger] slots[k] == slot by {
                        if slot < i {
                            let k = choose|k: int|
                                0 <= k < before.len() && #[trigger] before[k] == slot;
                            assert(slots[k] == slot);
                        } else {
                            assert(slots[found@.len() - 1] == slot);
                        }
                    }
                }
            }
            i += 1;
        }
        assert forall|name: Seq<char>|
            self@.contains_key(name) && occurs_in(part@, name) implies exists|i: int|
            0 <= i < found@.len() && (#[trigger] found@[i]@) == name by {
            let slot = self.slots@[name] as int;
            let k = choose|k: int| 0 <= k < found@.len() && #[trigger] slots[k] == slot;
            assert(found@[k]@ == name);
        }
        assert forall|i: int, j: int| 0 <= i < j < found@.len() implies (#[trigger] found@[i]@)
            != (#[trigger] found@[j]@) by {
            assert(slots[i] < slots[j]);
        }
        assert forall|i: int| 0 <= i < found@.len() implies self@.contains_key(
            #[trigger] found@[i]@,
        ) && occurs_in(part@, found@[i]@) by {
            assert(found@[i]@ == self.names@[slots[i]]@);
        }
        found
    }

    /// There are as many names listed as names in the index.
    proof fn lemma_names_count(&self)
        requires
            self.well_formed(),
        ensures
            self.names@.len() == self@.dom().len(),
    {
        let listed = Seq::new(self.names@.len(), |i: int| self.names@[i]@);
        assert(listed.to_set() =~= self@.dom()) by {
            assert forall|name: Seq<char>| self@.dom().contains(name) implies listed.to_set().contains(
                name,
            ) by {
                let slot = self.slots@[name] as int;
                assert(listed[slot] == name);
            }
        }
        listed.unique_seq_to_set();
    }

    /// The index with `entry` put under its name.
    fn with(self, entry: BigEntry) -> (index: EntryIndex)
        ensures
            index@ == self@.insert(entry.name@, entry@),
    {
        proof {
            use_type_invariant(&self);
        }
        let EntryIndex { mut names, mut entries, mut slots } = self;
        let found = match slots.get(entry.name.as_str()) {
            Some(slot) => Some(*slot),
            None => None,
        };
        match found {
            Some(slot) => {
                entries.set(slot, entry);
            },
            None => {
                let slot = entries.len();
                slots.insert(entry.name.clone(), slot);
                names.push(entry.name.clone());
                entries.push(entry);
            },
        }
        EntryIndex { names, entries, slots }
    }
}

} // verus!
