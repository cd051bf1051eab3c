//! Facts about sequences that the proofs of the engine share.

use vstd::prelude::*;

verus! {

/// Taking one more element of a sequence adds that element to the set of those
/// taken.
pub proof fn lemma_take_push_to_set<T>(s: Seq<T>, i: int)
    requires
        0 <= i < s.len(),
    ensures
        s.take(i + 1).to_set() == s.take(i).to_set().insert(s[i]),
{
    let before = s.take(i);
    let after = s.take(i + 1);
    assert(after == before.push(s[i]));
    lemma_push_to_set(before, s[i]);
}

/// One more element at the end of a sequence is one more member of its set.
pub proof fn lemma_push_to_set<T>(s: Seq<T>, x: T)
    ensures
        s.push(x).to_set() == s.to_set().insert(x),
{
    let after = s.push(x);
    assert forall|y: T| after.to_set().contains(y) <==> s.to_set().insert(x).contains(y) by {
        if after.contains(y) {
            let j = choose|j: int| 0 <= j < after.len() && after[j] == y;
            if j < s.len() {
                assert(s[j] == y);
            }
        }
        if s.contains(y) {
            let j = choose|j: int| 0 <= j < s.len() && s[j] == y;
            assert(after[j] == y);
        }
        if y == x {
            assert(after[s.len() as int] == y);
        }
    }
    assert(after.to_set() =~= s.to_set().insert(x));
}

/// One more element of a sequence is among those taken: the new one, or one that
/// was taken before.
pub proof fn lemma_take_contains<T>(s: Seq<T>, i: int, x: T)
    requires
        0 <= i < s.len(),
    ensures
        s.take(i + 1).contains(x) <==> (s.take(i).contains(x) || x == s[i]),
{
    let before = s.take(i);
    let after = s.take(i + 1);
    if after.contains(x) {
        let j = choose|j: int| 0 <= j < after.len() && after[j] == x;
        if j < i {
            assert(before[j] == x);
        }
    }
    if before.contains(x) {
        let j = choose|j: int| 0 <= j < before.len() && before[j] == x;
        assert(after[j] == x);
    }
    if x == s[i] {
        assert(after[i] == x);
    }
}

/// In a sequence without duplicates an element is not among those before it.
pub proof fn lemma_fresh_in_prefix<T>(s: Seq<T>, i: int)
    requires
        0 <= i < s.len(),
        s.no_duplicates(),
    ensures
        !s.take(i).contains(s[i]),
        !s.take(i).to_set().contains(s[i]),
{
    if s.take(i).contains(s[i]) {
        let j = choose|j: int| 0 <= j < s.take(i).len() && s.take(i)[j] == s[i];
        assert(s[j] == s[i]);
    }
}

/// A rearrangement of a sequence has its length and its values, and no others.
pub proof fn lemma_rearranged<T>(before: Seq<T>, after: Seq<T>)
    requires
        after.to_multiset() == before.to_multiset(),
    ensures
        after.len() == before.len(),
        forall|x: T| after.contains(x) <==> before.contains(x),
        before.no_duplicates() ==> after.no_duplicates(),
{
    broadcast use vstd::seq_lib::to_multiset_len;

    before.to_multiset_ensures();
    after.to_multiset_ensures();
    assert forall|x: T| after.contains(x) <==> before.contains(x) by {
        assert(after.contains(x) <==> after.to_multiset().count(x) > 0);
        assert(before.contains(x) <==> before.to_multiset().count(x) > 0);
    }
    if before.no_duplicates() {
        before.lemma_multiset_has_no_duplicates();
        after.lemma_multiset_has_no_duplicates_conv();
    }
}

} // verus!
