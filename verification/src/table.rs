//! A table from identifiers to values: the values lie in slots, and a hash map
//! finds the slot of an identifier.

use crate::sequences::lemma_fresh_in_prefix;
use ahash::AHashMap;
use vstd::prelude::*;

verus! {

/// The hash map type that finds the slots of a [`Table`].
#[verifier::external_type_specification]
#[verifier::external_body]
#[verifier::reject_recursive_types(K)]
#[verifier::reject_recursive_types(V)]
#[verifier::reject_recursive_types(S)]
pub struct ExAHashMap<K, V, S>(AHashMap<K, V, S>);

/// The hash map from identifiers to slots.
pub type SlotIndex = AHashMap<u64, usize>;

/// The slot that a hash map holds for each identifier.
pub uninterp spec fn slot_entries(m: SlotIndex) -> Map<u64, usize>;

/// `AHashMap::new`: a fresh hash map holds nothing.
#[verifier::external_body]
fn hash_map_new() -> (fresh: SlotIndex)
    ensures
        slot_entries(fresh).dom() == Set::<u64>::empty(),
{
    AHashMap::new()
}

/// `AHashMap::get`: the slot held for the identifier, if there is one.
#[verifier::external_body]
fn hash_map_get(m: &SlotIndex, id: u64) -> (slot: Option<usize>)
    ensures
        slot == (if slot_entries(*m).contains_key(id) {
            Some(slot_entries(*m)[id])
        } else {
            None
        }),
{
    m.get(&id).copied()
}

/// `AHashMap::insert`: the identifier now has the given slot, the other entries stay.
#[verifier::external_body]
fn hash_map_insert(m: &mut SlotIndex, id: u64, slot: usize)
    ensures
        slot_entries(*final(m)) == slot_entries(*old(m)).insert(id, slot),
{
    m.insert(id, slot);
}

/// `AHashMap::remove`: the identifier has no slot any more, the other entries stay.
#[verifier::external_body]
fn hash_map_remove(m: &mut SlotIndex, id: u64)
    ensures
        slot_entries(*final(m)) == slot_entries(*old(m)).remove(id),
{
    m.remove(&id);
}

/// The slots agree with the keys: every key lies in the slot that the hash map
/// names for it, and the hash map names no other slot.
spec fn consistent<V>(slots: Map<u64, usize>, keys: Seq<u64>, values: Seq<V>) -> bool {
    &&& keys.len() == values.len()
    &&& forall|i: int|
        0 <= i < keys.len() ==> slots.contains_key(#[trigger] keys[i]) && slots[keys[i]] == i
    &&& forall|k: u64| #[trigger]
        slots.contains_key(k) ==> slots[k] < keys.len() && keys[slots[k] as int] == k
}

/// The map that slots and values stand for.
spec fn content<V>(slots: Map<u64, usize>, values: Seq<V>) -> Map<u64, V> {
    Map::new(|k: u64| slots.contains_key(k), |k: u64| values[slots[k] as int])
}

/// In a consistent table no key occurs twice, and the keys are the domain.
proof fn lemma_consistent_keys<V>(slots: Map<u64, usize>, keys: Seq<u64>, values: Seq<V>)
    requires
        consistent(slots, keys, values),
    ensures
        keys.no_duplicates(),
        keys.to_set() == content(slots, values).dom(),
        forall|i: int| 0 <= i < keys.len() ==> content(slots, values)[#[trigger] keys[i]] == values[i],
{
    assert forall|k: u64| keys.to_set().contains(k) <==> content(slots, values).dom().contains(
        k,
    ) by {
        if keys.contains(k) {
            let i = choose|i: int| 0 <= i < keys.len() && keys[i] == k;
            assert(slots.contains_key(keys[i]));
        }
        if slots.contains_key(k) {
            assert(keys[slots[k] as int] == k);
        }
    }
    assert(keys.to_set() =~= content(slots, values).dom());
}

fn parts_insert<V>(
    slots: &mut SlotIndex,
    keys: &mut Vec<u64>,
    values: &mut Vec<V>,
    id: u64,
    value: V,
) -> (previous: Option<V>)
    requires
        consistent(slot_entries(*old(slots)), old(keys)@, old(values)@),
    ensures
        consistent(slot_entries(*final(slots)), final(keys)@, final(values)@),
        content(slot_entries(*final(slots)), final(values)@) == content(
            slot_entries(*old(slots)),
            old(values)@,
        ).insert(id, value),
        previous == (if content(slot_entries(*old(slots)), old(values)@).contains_key(id) {
            Some(content(slot_entries(*old(slots)), old(values)@)[id])
        } else {
            None
        }),
        final(keys)@ == (if content(slot_entries(*old(slots)), old(values)@).contains_key(id) {
            old(keys)@
        } else {
            old(keys)@.push(id)
        }),
{
    let found = hash_map_get(slots, id);
    match found {
        Some(slot) => {
            values.push(value);
            let previous = values.swap_remove(slot);
            assert(content(slot_entries(*slots), values@) =~= content(
                slot_entries(*old(slots)),
                old(values)@,
            ).insert(id, value));
            Some(previous)
        },
        None => {
            let slot = keys.len();
            keys.push(id);
            values.push(value);
            hash_map_insert(slots, id, slot);
            assert(content(slot_entries(*slots), values@) =~= content(
                slot_entries(*old(slots)),
                old(values)@,
            ).insert(id, value));
            None
        },
    }
}

/// The order of the identifiers once `id` is taken out: the last identifier takes
/// the slot that `id` had.
pub open spec fn swapped_out(order: Seq<u64>, id: u64) -> Seq<u64> {
    if order.contains(id) {
        order.update(order.index_of(id), order.last()).drop_last()
    } else {
        order
    }
}

fn parts_remove<V>(
    slots: &mut SlotIndex,
    keys: &mut Vec<u64>,
    values: &mut Vec<V>,
    id: u64,
) -> (previous: Option<V>)
    requires
        consistent(slot_entries(*old(slots)), old(keys)@, old(values)@),
    ensures
        consistent(slot_entries(*final(slots)), final(keys)@, final(values)@),
        content(slot_entries(*final(slots)), final(values)@) == content(
            slot_entries(*old(slots)),
            old(values)@,
        ).remove(id),
        previous == (if content(slot_entries(*old(slots)), old(values)@).contains_key(id) {
            Some(content(slot_entries(*old(slots)), old(values)@)[id])
        } else {
            None
        }),
        final(keys)@ == swapped_out(old(keys)@, id),
{
    let found = hash_map_get(slots, id);
    proof {
        lemma_consistent_keys(slot_entries(*slots), keys@, values@);
        if keys@.contains(id) {
            let at = keys@.index_of(id);
            assert(keys@[at] == id);
            assert(slot_entries(*slots).contains_key(keys@[at]));
        } else if slot_entries(*slots).contains_key(id) {
            assert(keys@[slot_entries(*slots)[id] as int] == id);
        }
    }
    match found {
        Some(slot) => {
            let last = keys.len() - 1;
            keys.swap_remove(slot);
            let previous = values.swap_remove(slot);
            hash_map_remove(slots, id);
            if slot != last {
                let moved = keys[slot];
                hash_map_insert(slots, moved, slot);
            }
            assert(content(slot_entries(*slots), values@) =~= content(
                slot_entries(*old(slots)),
                old(values)@,
            ).remove(id));
            Some(previous)
        },
        None => {
            assert(content(slot_entries(*slots), values@) =~= content(
                slot_entries(*old(slots)),
                old(values)@,
            ).remove(id));
            None
        },
    }
}

/// A table from identifiers to values.
///
/// Its view is the map from each identifier to its value. The entries also have an
/// order, [`Table::key_order`], in which [`Table::key_at`] and [`Table::value_at`]
/// walk them.
pub struct Table<V> {
    parts: Parts<V>,
}

struct Parts<V> {
    slots: SlotIndex,
    keys: Vec<u64>,
    values: Vec<V>,
}

impl<V> Parts<V> {
    fn new() -> (p: Parts<V>)
        ensures
            slot_entries(p.slots).dom() == Set::<u64>::empty(),
            p.keys@ == Seq::<u64>::empty(),
            p.values@ == Seq::<V>::empty(),
    {
        Parts { slots: hash_map_new(), keys: Vec::new(), values: Vec::new() }
    }
}

impl<V> View for Table<V> {
    type V = Map<u64, V>;

    closed spec fn view(&self) -> Map<u64, V> {
        content(slot_entries(self.parts.slots), self.parts.values@)
    }
}

impl<V> Table<V> {
    #[verifier::type_invariant]
    spec fn well_formed(self) -> bool {
        consistent(slot_entries(self.parts.slots), self.parts.keys@, self.parts.values@)
    }

    /// The identifiers in the order of their slots.
    pub closed spec fn key_order(&self) -> Seq<u64> {
        self.parts.keys@
    }

    /// The empty table.
    pub fn new() -> (t: Table<V>)
        ensures
            t@ == Map::<u64, V>::empty(),
            t.key_order() == Seq::<u64>::empty(),
    {
        let t = Table { parts: Parts::new() };
        assert(t@ =~= Map::<u64, V>::empty());
        t
    }

    /// The number of entries. Each identifier of the table has one slot.
    pub fn len(&self) -> (n: usize)
        ensures
            n == self.key_order().len(),
            self.key_order().no_duplicates(),
            self.key_order().to_set() == self@.dom(),
    {
        proof {
            use_type_invariant(self);
            lemma_consistent_keys(
                slot_entries(self.parts.slots),
                self.parts.keys@,
                self.parts.values@,
            );
        }
        self.parts.keys.len()
    }

    /// Whether the table has an entry for `id`.
    pub fn contains_key(&self, id: u64) -> (found: bool)
        ensures
            found == self@.contains_key(id),
    {
        hash_map_get(&self.parts.slots, id).is_some()
    }

    /// The value held for `id`, if there is one.
    pub fn get(&self, id: u64) -> (value: Option<&V>)
        ensures
            value == (if self@.contains_key(id) {
                Some(&self@[id])
            } else {
                None
            }),
    {
        proof {
            use_type_invariant(self);
        }
        match hash_map_get(&self.parts.slots, id) {
            Some(slot) => Some(&self.parts.values[slot]),
            None => None,
        }
    }

    /// The identifier in slot `i`.
    pub fn key_at(&self, i: usize) -> (id: u64)
        requires
            i < self.key_order().len(),
        ensures
            id == self.key_order()[i as int],
            self@.contains_key(id),
    {
        proof {
            use_type_invariant(self);
            lemma_consistent_keys(
                slot_entries(self.parts.slots),
                self.parts.keys@,
                self.parts.values@,
            );
        }
        self.parts.keys[i]
    }

    /// The value in slot `i`.
    pub fn value_at(&self, i: usize) -> (value: &V)
        requires
            i < self.key_order().len(),
        ensures
            self@.contains_key(self.key_order()[i as int]),
            *value == self@[self.key_order()[i as int]],
    {
        proof {
            use_type_invariant(self);
            lemma_consistent_keys(
                slot_entries(self.parts.slots),
                self.parts.keys@,
                self.parts.values@,
            );
        }
        &self.parts.values[i]
    }

    /// The identifiers, each once, in the order of their slots.
    pub fn keys(&self) -> (ids: Vec<u64>)
        ensures
            ids@ == self.key_order(),
            ids@.no_duplicates(),
            ids@.to_set() == self@.dom(),
    {
        proof {
            use_type_invariant(self);
            lemma_consistent_keys(
                slot_entries(self.parts.slots),
                self.parts.keys@,
                self.parts.values@,
            );
        }
        self.parts.keys.clone()
    }

    /// Sets the value of `id`, and gives back the value it had.
    pub fn insert(&mut self, id: u64, value: V) -> (previous: Option<V>)
        ensures
            final(self)@ == old(self)@.insert(id, value),
            previous == (if old(self)@.contains_key(id) {
                Some(old(self)@[id])
            } else {
                None
            }),
            final(self).key_order() == (if old(self)@.contains_key(id) {
                old(self).key_order()
            } else {
                old(self).key_order().push(id)
            }),
    {
        proof {
            use_type_invariant(&*self);
        }
        let mut parts = Parts::new();
        core::mem::swap(&mut parts, &mut self.parts);
        let previous = parts_insert(&mut parts.slots, &mut parts.keys, &mut parts.values, id, value);
        self.parts = parts;
        previous
    }

    /// Takes the entry of `id` out, and gives back the value it had.
    pub fn remove(&mut self, id: u64) -> (previous: Option<V>)
        ensures
            final(self)@ == old(self)@.remove(id),
            final(self).key_order() == swapped_out(old(self).key_order(), id),
            previous == (if old(self)@.contains_key(id) {
                Some(old(self)@[id])
            } else {
                None
            }),
    {
        proof {
            use_type_invariant(&*self);
        }
        let mut parts = Parts::new();
        core::mem::swap(&mut parts, &mut self.parts);
        let previous = parts_remove(&mut parts.slots, &mut parts.keys, &mut parts.values, id);
        self.parts = parts;
        previous
    }
}

impl<V: Copy> Clone for Table<V> {
    fn clone(&self) -> (copy: Table<V>)
        ensures
            copy@ == self@,
            copy.key_order() == self.key_order(),
    {
        let mut copy: Table<V> = Table::new();
        let n = self.len();
        let mut i: usize = 0;
        proof {
            assert(self.key_order().take(0) =~= Seq::<u64>::empty());
            assert(copy@ =~= self@.restrict(self.key_order().take(0).to_set()));
        }
        while i < n
            invariant
                i <= n,
                n == self.key_order().len(),
                self.key_order().no_duplicates(),
                self.key_order().to_set() == self@.dom(),
                copy.key_order() == self.key_order().take(i as int),
                copy@ == self@.restrict(self.key_order().take(i as int).to_set()),
            decreases n - i,
        {
            let id = self.key_at(i);
            let value = *self.value_at(i);
            proof {
                let order = self.key_order();
                lemma_fresh_in_prefix(order, i as int);
            }
            copy.insert(id, value);
            proof {
                let order = self.key_order();
                assert(order.take(i + 1) =~= order.take(i as int).push(id));
                assert forall|k: u64|
                    order.take(i + 1).to_set().contains(k) <==> (order.take(
                        i as int,
                    ).to_set().contains(k) || k == id) by {
                    let before = order.take(i as int);
                    let after = order.take(i + 1);
                    if after.contains(k) {
                        let j = choose|j: int| 0 <= j < after.len() && after[j] == k;
                        if j < i {
                            assert(before[j] == k);
                        }
                    }
                    if before.contains(k) {
                        let j = choose|j: int| 0 <= j < before.len() && before[j] == k;
                        assert(after[j] == k);
                    }
                    if k == id {
                        assert(after[i as int] == k);
                    }
                }
                assert(copy@ =~= self@.restrict(order.take(i + 1).to_set()));
            }
            i += 1;
        }
        proof {
            assert(self.key_order().take(n as int) =~= self.key_order());
            assert(copy@ =~= self@);
        }
        copy
    }
}

} // verus!
