//! A repo held in memory.

use vstd::prelude::*;
use vstd::slice::slice_to_vec;
use crate::capability::{Backend, Fallible, HasKey, Read, Remove, Write};

verus! {

/// The failure of a repo that never fails.
#[derive(Debug)]
pub struct Infallible;

/// Whether two byte strings are the same.
fn same_bytes(left: &[u8], right: &[u8]) -> (same: bool)
    ensures
        same == (left@ == right@),
{
    if left.len() != right.len() {
        return false;
    }
    let mut index: usize = 0;
    while index < left.len()
        invariant
            left@.len() == right@.len(),
            index <= left@.len(),
            left@.take(index as int) == right@.take(index as int),
        decreases left@.len() - index,
    {
        if left[index] != right[index] {
            return false;
        }
        index = index + 1;
        assert(left@.take(index as int) =~= left@.take(index - 1).push(left@[index - 1]));
        assert(right@.take(index as int) =~= right@.take(index - 1).push(right@[index - 1]));
    }
    assert(left@ =~= left@.take(index as int));
    assert(right@ =~= right@.take(index as int));
    true
}

/// A repo in memory: a list of keys with the bytes under each, no key twice.
pub struct MemoryRepo {
    slots: Vec<(Vec<u8>, Vec<u8>)>,
}

/// Whether no key occurs twice in `slots`.
spec fn distinct_keys(slots: Seq<(Vec<u8>, Vec<u8>)>) -> bool {
    forall|i: int, j: int|
        0 <= i < j < slots.len() ==> (#[trigger] slots[i]).0@ != (#[trigger] slots[j]).0@
}

/// Whether `slots` hold `key` at `index`.
spec fn held_at(slots: Seq<(Vec<u8>, Vec<u8>)>, key: Seq<u8>, index: int) -> bool {
    0 <= index < slots.len() && slots[index].0@ == key
}

/// The entries that `slots` stand for.
spec fn entries_of(slots: Seq<(Vec<u8>, Vec<u8>)>) -> Map<Seq<u8>, Seq<u8>> {
    Map::new(
        |key: Seq<u8>| exists|index: int| held_at(slots, key, index),
        |key: Seq<u8>| slots[choose|index: int| held_at(slots, key, index)].1@,
    )
}

/// The place of `key` in `slots`, if it is there.
fn position(slots: &Vec<(Vec<u8>, Vec<u8>)>, key: &[u8]) -> (found: Option<usize>)
    ensures
        match found {
            Some(index) => held_at(slots@, key@, index as int),
            None => forall|index: int| !held_at(slots@, key@, index),
        },
{
    let mut index: usize = 0;
    while index < slots.len()
        invariant
            index <= slots@.len(),
            forall|earlier: int| 0 <= earlier < index ==> !held_at(slots@, key@, earlier),
        decreases slots@.len() - index,
    {
        if same_bytes(slots[index].0.as_slice(), key) {
            return Some(index);
        }
        index = index + 1;
    }
    None
}

impl MemoryRepo {
    #[verifier::type_invariant]
    spec fn inv(&self) -> bool {
        distinct_keys(self.slots@)
    }

    /// A repo that holds nothing.
    pub fn new() -> (repo: Self)
        ensures
            repo.entries() == Map::<Seq<u8>, Seq<u8>>::empty(),
    {
        let repo = MemoryRepo { slots: Vec::new() };
        assert(repo.entries() =~= Map::<Seq<u8>, Seq<u8>>::empty());
        repo
    }
}

impl Default for MemoryRepo {
    fn default() -> (repo: Self)
        ensures
            repo.entries() == Map::<Seq<u8>, Seq<u8>>::empty(),
    {
        MemoryRepo::new()
    }
}

impl Fallible for MemoryRepo {
    type Error = Infallible;

    open spec fn infallible() -> bool {
        true
    }
}

impl Backend for MemoryRepo {
    closed spec fn entries(&self) -> Map<Seq<u8>, Seq<u8>> {
        entries_of(self.slots@)
    }
}

impl MemoryRepo {
    /// Takes the slots out, leaving none behind.
    fn take_slots(&mut self) -> (slots: Vec<(Vec<u8>, Vec<u8>)>)
        ensures
            slots@ == old(self).slots@,
            distinct_keys(slots@),
    {
        proof { use_type_invariant(&*self); }
        let mut slots: Vec<(Vec<u8>, Vec<u8>)> = Vec::new();
        core::mem::swap(&mut self.slots, &mut slots);
        slots
    }

    /// Puts `slots` in place of the slots held.
    fn put_slots(&mut self, slots: Vec<(Vec<u8>, Vec<u8>)>)
        requires
            distinct_keys(slots@),
        ensures
            final(self).slots@ == slots@,
    {
        let mut slots = slots;
        core::mem::swap(&mut self.slots, &mut slots);
    }
}

impl Write for MemoryRepo {
    /// Never fails.
    fn write(&mut self, key: &[u8], bytes: &[u8]) -> (result: Result<(), Self::Error>)
        ensures
            result is Ok,
    {
        let mut slots = self.take_slots();
        let ghost before = slots@;
        let slot = (slice_to_vec(key), slice_to_vec(bytes));
        match position(&slots, key) {
            Some(index) => {
                slots[index] = slot;
                proof { lemma_replaced(before, slots@, index as int); }
            },
            None => {
                slots.push(slot);
                proof {
                    assert(slots@.drop_last() =~= before);
                    lemma_pushed(before, slots@);
                }
            },
        }
        self.put_slots(slots);
        Ok(())
    }
}

impl Read for MemoryRepo {
    /// Never fails.
    fn read(&self, key: &[u8]) -> (result: Result<Option<Vec<u8>>, Self::Error>)
        ensures
            result is Ok,
    {
        proof { use_type_invariant(self); }
        match position(&self.slots, key) {
            Some(index) => {
                proof { lemma_held(self.slots@, key@, index as int); }
                Ok(Some(slice_to_vec(self.slots[index].1.as_slice())))
            },
            None => Ok(None),
        }
    }
}

impl HasKey for MemoryRepo {
    /// Never fails.
    fn has_key(&self, key: &[u8]) -> (result: Result<bool, Self::Error>)
        ensures
            result is Ok,
    {
        Ok(position(&self.slots, key).is_some())
    }
}

impl Remove for MemoryRepo {
    /// Never fails.
    fn remove(&mut self, key: &[u8]) -> (result: Result<(), Self::Error>)
        ensures
            result is Ok,
    {
        let mut slots = self.take_slots();
        let ghost before = slots@;
        match position(&slots, key) {
            Some(index) => {
                slots.remove(index);
                proof { lemma_removed(before, slots@, index as int); }
            },
            None => {
                assert(entries_of(before).remove(key@) =~= entries_of(before));
            },
        }
        self.put_slots(slots);
        Ok(())
    }
}

/// Among distinct keys, a key is held at one place only: what it holds is what lies
/// there.
proof fn lemma_held(slots: Seq<(Vec<u8>, Vec<u8>)>, key: Seq<u8>, index: int)
    requires
        distinct_keys(slots),
        held_at(slots, key, index),
    ensures
        entries_of(slots).contains_key(key),
        entries_of(slots)[key] == slots[index].1@,
{
    let chosen = choose|at: int| held_at(slots, key, at);
    if chosen < index {
        assert(slots[chosen].0@ != slots[index].0@);
    }
    if index < chosen {
        assert(slots[index].0@ != slots[chosen].0@);
    }
}

/// Replacing the slot of a key by another slot of that key keeps the keys distinct and
/// inserts the new bytes.
proof fn lemma_replaced(before: Seq<(Vec<u8>, Vec<u8>)>, after: Seq<(Vec<u8>, Vec<u8>)>, index: int)
    requires
        distinct_keys(before),
        0 <= index < before.len(),
        after.len() == before.len(),
        after[index].0@ == before[index].0@,
        forall|other: int| 0 <= other < before.len() && other != index ==> after[other] == before[other],
    ensures
        distinct_keys(after),
        entries_of(after) == entries_of(before).insert(after[index].0@, after[index].1@),
{
    assert forall|i: int, j: int| 0 <= i < j < after.len() implies (#[trigger] after[i]).0@ != (
    #[trigger] after[j]).0@ by {
        assert(before[i].0@ != before[j].0@);
    }
    let wanted = entries_of(before).insert(after[index].0@, after[index].1@);
    assert forall|key: Seq<u8>|
        (#[trigger] entries_of(after).dom().contains(key)) == wanted.dom().contains(key) && (
        wanted.dom().contains(key) ==> entries_of(after)[key] == wanted[key]) by {
        if key == after[index].0@ {
            lemma_held(after, key, index);
        } else {
            if entries_of(after).contains_key(key) {
                let at = choose|at: int| held_at(after, key, at);
                assert(held_at(before, key, at));
                lemma_held(after, key, at);
                lemma_held(before, key, at);
            }
            if entries_of(before).contains_key(key) {
                let at = choose|at: int| held_at(before, key, at);
                assert(held_at(after, key, at));
                lemma_held(after, key, at);
                lemma_held(before, key, at);
            }
        }
    }
    assert(entries_of(after) =~= wanted);
}

/// Adding a slot for a key that was absent keeps the keys distinct and inserts its
/// bytes.
proof fn lemma_pushed(before: Seq<(Vec<u8>, Vec<u8>)>, after: Seq<(Vec<u8>, Vec<u8>)>)
    requires
        distinct_keys(before),
        after.len() == before.len() + 1,
        after.drop_last() == before,
        forall|index: int| !held_at(before, after.last().0@, index),
    ensures
        distinct_keys(after),
        entries_of(after) == entries_of(before).insert(after.last().0@, after.last().1@),
{
    let last = after.len() - 1;
    assert(forall|i: int| 0 <= i < before.len() ==> after[i] == before[i]);
    assert forall|i: int, j: int| 0 <= i < j < after.len() implies (#[trigger] after[i]).0@ != (
    #[trigger] after[j]).0@ by {
        if j == last {
            assert(!held_at(before, after.last().0@, i));
        } else {
            assert(before[i].0@ != before[j].0@);
        }
    }
    let wanted = entries_of(before).insert(after.last().0@, after.last().1@);
    assert forall|key: Seq<u8>|
        (#[trigger] entries_of(after).dom().contains(key)) == wanted.dom().contains(key) && (
        wanted.dom().contains(key) ==> entries_of(after)[key] == wanted[key]) by {
        if key == after.last().0@ {
            lemma_held(after, key, last);
        } else {
            if entries_of(after).contains_key(key) {
                let at = choose|at: int| held_at(after, key, at);
                assert(held_at(before, key, at));
                lemma_held(after, key, at);
                lemma_held(before, key, at);
            }
            if entries_of(before).contains_key(key) {
                let at = choose|at: int| held_at(before, key, at);
                assert(held_at(after, key, at));
                lemma_held(after, key, at);
                lemma_held(before, key, at);
            }
        }
    }
    assert(entries_of(after) =~= wanted);
}

/// Taking out the slot of a key keeps the keys distinct and removes the key.
proof fn lemma_removed(before: Seq<(Vec<u8>, Vec<u8>)>, after: Seq<(Vec<u8>, Vec<u8>)>, index: int)
    requires
        distinct_keys(before),
        0 <= index < before.len(),
        after == before.remove(index),
    ensures
        distinct_keys(after),
        entries_of(after) == entries_of(before).remove(before[index].0@),
{
    assert forall|i: int, j: int| 0 <= i < j < after.len() implies (#[trigger] after[i]).0@ != (
    #[trigger] after[j]).0@ by {
        let from_i = if i < index { i } else { i + 1 };
        let from_j = if j < index { j } else { j + 1 };
        assert(after[i] == before[from_i]);
        assert(after[j] == before[from_j]);
        assert(before[from_i].0@ != before[from_j].0@);
    }
    let gone = before[index].0@;
    let wanted = entries_of(before).remove(gone);
    assert forall|key: Seq<u8>|
        (#[trigger] entries_of(after).dom().contains(key)) == wanted.dom().contains(key) && (
        wanted.dom().contains(key) ==> entries_of(after)[key] == wanted[key]) by {
        if entries_of(after).contains_key(key) {
            let at = choose|at: int| held_at(after, key, at);
            let from = if at < index { at } else { at + 1 };
            assert(after[at] == before[from]);
            assert(held_at(before, key, from));
            if key == gone {
                if from < index {
                    assert(before[from].0@ != before[index].0@);
                } else {
                    assert(before[index].0@ != before[from].0@);
                }
            }
            lemma_held(after, key, at);
            lemma_held(before, key, from);
        }
        if wanted.contains_key(key) {
            let from = choose|from: int| held_at(before, key, from);
            assert(from != index);
            let at = if from < index { from } else { from - 1 };
            assert(after[at] == before[from]);
            assert(held_at(after, key, at));
            lemma_held(after, key, at);
            lemma_held(before, key, from);
        }
    }
    assert(entries_of(after) =~= wanted);
}

} // verus!
