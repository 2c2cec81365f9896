//! The table of stored entries, with entries that expire when they are read.

use crate::text::bytes_eq;
use vstd::prelude::*;
use vstd::slice::slice_to_vec;

verus! {

/// One stored value with what was stored beside it.
#[derive(Debug)]
pub struct Entry {
    /// A number that the client chose; it is handed back unchanged.
    pub flags: u32,
    /// The seconds that the entry lives after it was stored; zero for an
    /// entry that never expires.
    pub ttl_seconds: u64,
    /// The length that the client declared for the data. It is handed back
    /// as declared and never held against the data.
    pub byte_len: u32,
    /// The stored bytes.
    pub data: Vec<u8>,
    /// The Unix time, in seconds, at which the entry was stored.
    pub stored_at: u64,
}

/// What an `Entry` holds, as a mathematical value.
pub ghost struct EntryView {
    pub flags: u32,
    pub ttl_seconds: u64,
    pub byte_len: u32,
    pub data: Seq<u8>,
    pub stored_at: u64,
}

impl View for Entry {
    type V = EntryView;

    open spec fn view(&self) -> EntryView {
        EntryView {
            flags: self.flags,
            ttl_seconds: self.ttl_seconds,
            byte_len: self.byte_len,
            data: self.data@,
            stored_at: self.stored_at,
        }
    }
}

impl Clone for Entry {
    fn clone(&self) -> (copy: Entry)
        ensures
            copy@ == self@,
    {
        Entry {
            flags: self.flags,
            ttl_seconds: self.ttl_seconds,
            byte_len: self.byte_len,
            data: slice_to_vec(self.data.as_slice()),
            stored_at: self.stored_at,
        }
    }
}

/// Whether an entry can still be read at the time `now`: it never expires,
/// or the end of its life has not passed yet.
pub open spec fn is_live(e: EntryView, now: u64) -> bool {
    e.ttl_seconds == 0 || e.stored_at + e.ttl_seconds >= now
}

/// What a read of `key` at the time `now` finds in the table `m`: the entry
/// under `key` where there is one and it is live.
pub open spec fn live_entry(m: Map<Seq<u8>, EntryView>, key: Seq<u8>, now: u64) -> Option<
    EntryView,
> {
    if m.dom().contains(key) && is_live(m[key], now) {
        Some(m[key])
    } else {
        None
    }
}

/// The table that a read of `key` at the time `now` leaves behind: `m`
/// without the entry under `key` where that one has expired, else `m`.
pub open spec fn after_read(m: Map<Seq<u8>, EntryView>, key: Seq<u8>, now: u64) -> Map<
    Seq<u8>,
    EntryView,
> {
    if m.dom().contains(key) && !is_live(m[key], now) {
        m.remove(key)
    } else {
        m
    }
}

impl Entry {
    /// Whether the entry can still be read at the time `now`.
    pub fn live_at(&self, now: u64) -> (r: bool)
        ensures
            r == is_live(self@, now),
    {
        self.ttl_seconds == 0 || now <= self.stored_at || now - self.stored_at
            <= self.ttl_seconds
    }
}

struct Slot {
    key: Vec<u8>,
    entry: Entry,
}

spec fn distinct_keys(slots: Seq<Slot>) -> bool {
    forall|i: int, j: int|
        0 <= i < j < slots.len() ==> (#[trigger] slots[i]).key@ != (#[trigger] slots[j]).key@
}

spec fn holds_key(slots: Seq<Slot>, key: Seq<u8>) -> bool {
    exists|i: int| 0 <= i < slots.len() && (#[trigger] slots[i]).key@ == key
}

spec fn slot_of(slots: Seq<Slot>, key: Seq<u8>) -> int {
    choose|i: int| 0 <= i < slots.len() && (#[trigger] slots[i]).key@ == key
}

spec fn table(slots: Seq<Slot>) -> Map<Seq<u8>, EntryView> {
    Map::new(|key: Seq<u8>| holds_key(slots, key), |key: Seq<u8>| slots[slot_of(slots, key)].entry@)
}

proof fn lemma_table_at(slots: Seq<Slot>, i: int)
    requires
        distinct_keys(slots),
        0 <= i < slots.len(),
    ensures
        table(slots).dom().contains(slots[i].key@),
        table(slots)[slots[i].key@] == slots[i].entry@,
        slot_of(slots, slots[i].key@) == i,
{
    let key = slots[i].key@;
    assert(holds_key(slots, key));
    let j = slot_of(slots, key);
    assert(0 <= j < slots.len() && slots[j].key@ == key);
    if j != i {
        if j < i {
            assert(slots[j].key@ != slots[i].key@);
        } else {
            assert(slots[i].key@ != slots[j].key@);
        }
    }
}

proof fn lemma_table_absent(slots: Seq<Slot>, key: Seq<u8>)
    requires
        forall|i: int| 0 <= i < slots.len() ==> (#[trigger] slots[i]).key@ != key,
    ensures
        !table(slots).dom().contains(key),
{
}

/// The table of stored entries: at most one entry under each key.
pub struct Store {
    slots: Vec<Slot>,
}

impl View for Store {
    type V = Map<Seq<u8>, EntryView>;

    closed spec fn view(&self) -> Map<Seq<u8>, EntryView> {
        table(self.slots@)
    }
}

impl Store {
    #[verifier::type_invariant]
    spec fn well_formed(self) -> bool {
        distinct_keys(self.slots@)
    }

    /// A table without entries.
    pub fn new() -> (store: Store)
        ensures
            store@ == Map::<Seq<u8>, EntryView>::empty(),
    {
        let store = Store { slots: Vec::new() };
        assert(store@ =~= Map::<Seq<u8>, EntryView>::empty());
        store
    }

    fn position(&self, key: &[u8]) -> (r: Option<usize>)
        ensures
            match r {
                Some(i) => i < self.slots.len() && self.slots[i as int].key@ == key@,
                None => forall|i: int|
                    0 <= i < self.slots.len() ==> (#[trigger] self.slots[i]).key@ != key@,
            },
    {
        let mut i: usize = 0;
        while i < self.slots.len()
            invariant
                i <= self.slots.len(),
                forall|j: int| 0 <= j < i ==> (#[trigger] self.slots[j]).key@ != key@,
            decreases self.slots.len() - i,
        {
            if bytes_eq(self.slots[i].key.as_slice(), key) {
                return Some(i);
            }
            i += 1;
        }
        None
    }

    fn take_slots(&mut self) -> (slots: Vec<Slot>)
        ensures
            slots == old(self).slots,
            final(self).slots@.len() == 0,
    {
        let mut taken = Store { slots: Vec::new() };
        core::mem::swap(self, &mut taken);
        let Store { slots } = taken;
        slots
    }

    /// Whether an entry is stored under `key`, live or not.
    pub fn contains_key(&self, key: &[u8]) -> (r: bool)
        ensures
            r == self@.dom().contains(key@),
    {
        proof {
            use_type_invariant(self);
        }
        match self.position(key) {
            Some(i) => {
                proof {
                    lemma_table_at(self.slots@, i as int);
                }
                true
            },
            None => {
                proof {
                    lemma_table_absent(self.slots@, key@);
                }
                false
            },
        }
    }

    /// Stores `entry` under `key`, in place of the entry that was stored
    /// under that key before, if there was one.
    pub fn put(&mut self, key: Vec<u8>, entry: Entry)
        ensures
            final(self)@ == old(self)@.insert(key@, entry@),
    {
        proof {
            use_type_invariant(&*self);
        }
        let found = self.position(key.as_slice());
        let mut slots = self.take_slots();
        let ghost before = slots@;
        let slot = Slot { key, entry };
        match found {
            Some(i) => {
                proof {
                    let after = before.update(i as int, slot);
                    assert(distinct_keys(after)) by {
                        assert forall|a: int, b: int| 0 <= a < b < after.len() implies (
                        #[trigger] after[a]).key@ != (#[trigger] after[b]).key@ by {
                            assert(after[a].key@ == before[a].key@);
                            assert(after[b].key@ == before[b].key@);
                        }
                    }
                    assert(table(after) =~= table(before).insert(slot.key@, slot.entry@)) by {
                        assert forall|k: Seq<u8>| holds_key(after, k) == holds_key(before, k) by {
                            if holds_key(after, k) {
                                let a = slot_of(after, k);
                                assert(before[a].key@ == k);
                            }
                            if holds_key(before, k) {
                                let a = slot_of(before, k);
                                assert(after[a].key@ == k);
                            }
                        }
                        assert forall|k: Seq<u8>| holds_key(after, k) implies #[trigger] table(
                            after,
                        )[k] == table(before).insert(slot.key@, slot.entry@)[k] by {
                            let a = slot_of(after, k);
                            lemma_table_at(after, a);
                            assert(before[a].key@ == k);
                            lemma_table_at(before, a);
                        }
                    }
                }
                slots.set(i, slot);
            },
            None => {
                proof {
                    let after = before.push(slot);
                    assert(distinct_keys(after)) by {
                        assert forall|a: int, b: int| 0 <= a < b < after.len() implies (
                        #[trigger] after[a]).key@ != (#[trigger] after[b]).key@ by {
                            assert(after[a] == before[a]);
                            if b < before.len() {
                                assert(after[b] == before[b]);
                            }
                        }
                    }
                    assert(table(after) =~= table(before).insert(slot.key@, slot.entry@)) by {
                        assert(after[before.len() as int] == slot);
                        assert forall|k: Seq<u8>| holds_key(after, k) == (holds_key(before, k) || k
                            == slot.key@) by {
                            if holds_key(after, k) {
                                let a = slot_of(after, k);
                                if a < before.len() {
                                    assert(before[a].key@ == k);
                                }
                            }
                            if holds_key(before, k) {
                                let a = slot_of(before, k);
                                assert(after[a].key@ == k);
                            }
                        }
                        assert forall|k: Seq<u8>| holds_key(after, k) implies #[trigger] table(
                            after,
                        )[k] == table(before).insert(slot.key@, slot.entry@)[k] by {
                            let a = slot_of(after, k);
                            lemma_table_at(after, a);
                            if a < before.len() {
                                assert(before[a] == after[a]);
                                lemma_table_at(before, a);
                            }
                        }
                    }
                }
                slots.push(slot);
            },
        }
        *self = Store { slots };
    }

    /// Reads the entry under `key` at the time `now`. A live entry is handed
    /// out and stays stored. An expired one is removed and nothing is handed
    /// out, as where no entry is stored under `key`. No other entry changes.
    pub fn get_if_live(&mut self, key: &[u8], now: u64) -> (found: Option<Entry>)
        ensures
            match live_entry(old(self)@, key@, now) {
                Some(e) => found matches Some(entry) && entry@ == e,
                None => found is None,
            },
            final(self)@ == after_read(old(self)@, key@, now),
    {
        proof {
            use_type_invariant(&*self);
        }
        let ghost before = self.slots@;
        match self.position(key) {
            None => {
                proof {
                    lemma_table_absent(before, key@);
                }
                None
            },
            Some(i) => {
                proof {
                    lemma_table_at(before, i as int);
                }
                if self.slots[i].entry.live_at(now) {
                    Some(self.slots[i].entry.clone())
                } else {
                    proof {
                        let after = before.remove(i as int);
                        assert forall|a: int| 0 <= a < after.len() implies #[trigger] after[a]
                            == before[if a < i { a } else { a + 1 }] by {}
                        assert(distinct_keys(after)) by {
                            assert forall|a: int, b: int| 0 <= a < b < after.len() implies (
                            #[trigger] after[a]).key@ != (#[trigger] after[b]).key@ by {
                                let a0 = if a < i { a } else { a + 1 };
                                let b0 = if b < i { b } else { b + 1 };
                                assert(after[a] == before[a0]);
                                assert(after[b] == before[b0]);
                                assert(before[a0].key@ != before[b0].key@);
                            }
                        }
                        assert(table(after) =~= table(before).remove(key@)) by {
                            assert forall|k: Seq<u8>| holds_key(after, k) == (holds_key(before, k)
                                && k != key@) by {
                                if holds_key(after, k) {
                                    let a = slot_of(after, k);
                                    let a0 = if a < i { a } else { a + 1 };
                                    assert(after[a] == before[a0]);
                                    assert(before[a0].key@ == k);
                                    if a0 < i {
                                        assert(before[a0].key@ != before[i as int].key@);
                                    } else {
                                        assert(before[i as int].key@ != before[a0].key@);
                                    }
                                }
                                if holds_key(before, k) && k != key@ {
                                    let a0 = slot_of(before, k);
                                    let a = if a0 < i { a0 } else { a0 - 1 };
                                    assert(after[a] == before[a0]);
                                    assert(after[a].key@ == k);
                                }
                            }
                            assert forall|k: Seq<u8>| holds_key(after, k) implies #[trigger] table(
                                after,
                            )[k] == table(before).remove(key@)[k] by {
                                let a = slot_of(after, k);
                                let a0 = if a < i { a } else { a + 1 };
                                assert(after[a] == before[a0]);
                                lemma_table_at(after, a);
                                lemma_table_at(before, a0);
                            }
                        }
                    }
                    let mut slots = self.take_slots();
                    slots.remove(i);
                    *self = Store { slots };
                    None
                }
            },
        }
    }
}

} // verus!
