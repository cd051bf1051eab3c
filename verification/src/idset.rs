//! Sets of identifiers, kept in a hash set.

use crate::sequences::lemma_take_push_to_set;
use ahash::AHashSet;
use vstd::prelude::*;

verus! {

/// The hash set type that backs [`IdSet`].
#[verifier::external_type_specification]
#[verifier::external_body]
#[verifier::reject_recursive_types(T)]
#[verifier::reject_recursive_types(S)]
pub struct ExAHashSet<T, S>(AHashSet<T, S>);

/// The hasher state that the hash set is built with.
#[verifier::external_type_specification]
#[verifier::external_body]
pub struct ExRandomState(ahash::RandomState);

/// The identifiers that a hash set holds.
pub uninterp spec fn set_members(s: AHashSet<u64>) -> Set<u64>;

/// `AHashSet::new`: a fresh hash set holds nothing.
#[verifier::external_body]
fn hash_set_new() -> (s: AHashSet<u64>)
    ensures
        set_members(s) == Set::<u64>::empty(),
{
    AHashSet::new()
}

/// `HashSet::insert`, reached through `AHashSet`: the value joins the set, and the
/// result tells whether it was absent before.
#[verifier::external_body]
fn hash_set_insert(s: &mut AHashSet<u64>, id: u64) -> (fresh: bool)
    ensures
        set_members(*final(s)) == set_members(*old(s)).insert(id),
        fresh == !set_members(*old(s)).contains(id),
{
    s.insert(id)
}

/// `HashSet::contains`, reached through `AHashSet`: membership of the value.
#[verifier::external_body]
fn hash_set_contains(s: &AHashSet<u64>, id: u64) -> (found: bool)
    ensures
        found == set_members(*s).contains(id),
{
    s.contains(&id)
}

/// `HashSet::len`, reached through `AHashSet`: the number of members, which is zero
/// exactly for the empty set.
#[verifier::external_body]
fn hash_set_len(s: &AHashSet<u64>) -> (n: usize)
    ensures
        n == set_members(*s).len(),
        (n == 0) == (set_members(*s) == Set::<u64>::empty()),
{
    s.len()
}

/// `HashSet::iter`, reached through `AHashSet`: every member comes out exactly once.
/// The order in which they come is not fixed.
#[verifier::external_body]
fn hash_set_to_vec(s: &AHashSet<u64>) -> (v: Vec<u64>)
    ensures
        v@.no_duplicates(),
        v@.to_set() == set_members(*s),
{
    s.iter().copied().collect()
}

/// `AHashSet::clone`: the copy has the same members.
#[verifier::external_body]
fn hash_set_clone(s: &AHashSet<u64>) -> (c: AHashSet<u64>)
    ensures
        set_members(c) == set_members(*s),
{
    s.clone()
}

/// A set of identifiers.
pub struct IdSet {
    items: AHashSet<u64>,
}

impl View for IdSet {
    type V = Set<u64>;

    closed spec fn view(&self) -> Set<u64> {
        set_members(self.items)
    }
}

impl IdSet {
    /// The empty set.
    pub fn new() -> (s: IdSet)
        ensures
            s@ == Set::<u64>::empty(),
    {
        IdSet { items: hash_set_new() }
    }

    /// Adds `id`; tells whether it was absent before.
    pub fn insert(&mut self, id: u64) -> (fresh: bool)
        ensures
            final(self)@ == old(self)@.insert(id),
            fresh == !old(self)@.contains(id),
    {
        hash_set_insert(&mut self.items, id)
    }

    /// Whether `id` is in the set.
    pub fn contains(&self, id: u64) -> (found: bool)
        ensures
            found == self@.contains(id),
    {
        hash_set_contains(&self.items, id)
    }

    /// The number of members.
    pub fn len(&self) -> (n: usize)
        ensures
            n == self@.len(),
    {
        hash_set_len(&self.items)
    }

    /// Whether the set has no member.
    pub fn is_empty(&self) -> (empty: bool)
        ensures
            empty == (self@ == Set::<u64>::empty()),
    {
        hash_set_len(&self.items) == 0
    }

    /// The members, each once, in no particular order.
    pub fn to_vec(&self) -> (v: Vec<u64>)
        ensures
            v@.no_duplicates(),
            v@.to_set() == self@,
    {
        hash_set_to_vec(&self.items)
    }

    /// Adds every member of `other`.
    pub fn extend_from(&mut self, other: &IdSet)
        ensures
            final(self)@ == old(self)@.union(other@),
    {
        let added = other.to_vec();
        let mut i: usize = 0;
        while i < added.len()
            invariant
                i <= added.len(),
                added@.to_set() == other@,
                self@ == old(self)@.union(added@.take(i as int).to_set()),
            decreases added.len() - i,
        {
            self.insert(added[i]);
            proof {
                lemma_take_push_to_set(added@, i as int);
                assert(self@ =~= old(self)@.union(added@.take(i + 1).to_set()));
            }
            i += 1;
        }
        proof {
            assert(added@.take(added.len() as int) == added@);
        }
    }

    /// The set of the values of `ids`.
    pub fn from_vec(ids: &Vec<u64>) -> (s: IdSet)
        ensures
            s@ == ids@.to_set(),
    {
        let mut s = IdSet::new();
        let mut i: usize = 0;
        while i < ids.len()
            invariant
                i <= ids.len(),
                s@ == ids@.take(i as int).to_set(),
            decreases ids.len() - i,
        {
            s.insert(ids[i]);
            proof {
                lemma_take_push_to_set(ids@, i as int);
            }
            i += 1;
        }
        proof {
            assert(ids@.take(ids.len() as int) == ids@);
        }
        s
    }
}

impl Clone for IdSet {
    fn clone(&self) -> (c: IdSet)
        ensures
            c@ == self@,
    {
        IdSet { items: hash_set_clone(&self.items) }
    }
}

} // verus!
