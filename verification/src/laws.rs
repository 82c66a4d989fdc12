//! General laws of the table, stated over the mathematical model that the
//! operation contracts use: a finite `Map` from 128-bit keys to values.
//! Each operation's `ensures` pins its effect on that map, so the laws here
//! hold of any sequence of table operations.
use vstd::prelude::*;

verus! {

/// Round trip: looking up the key under which a value was just added finds
/// exactly that value.
pub proof fn lemma_add_get_round_trip<T>(m: Map<u128, T>, k: u128, v: T)
    ensures
        m.insert(k, v).contains_key(k),
        m.insert(k, v)[k] == v,
{
}

/// Idempotent removal: once a key has been removed, removing it again finds
/// nothing and leaves the table unchanged.
pub proof fn lemma_remove_idempotent<T>(m: Map<u128, T>, k: u128)
    ensures
        !m.remove(k).contains_key(k),
        m.remove(k).remove(k) == m.remove(k),
{
    assert(m.remove(k).remove(k) =~= m.remove(k));
}

/// Swap-compaction safety: removing one key neither disturbs any other live
/// key nor corrupts its value.
pub proof fn lemma_remove_preserves_others<T>(m: Map<u128, T>, k: u128, other: u128)
    requires
        other != k,
    ensures
        m.remove(k).contains_key(other) <==> m.contains_key(other),
        m.contains_key(other) ==> m.remove(k)[other] == m[other],
{
}

/// Overwrite policy: adding twice under one key keeps the later value, and
/// the second add leaves the count unchanged.
pub proof fn lemma_overwrite<T>(m: Map<u128, T>, k: u128, v1: T, v2: T)
    requires
        m.dom().finite(),
    ensures
        m.insert(k, v1).insert(k, v2) == m.insert(k, v2),
        m.insert(k, v1).insert(k, v2)[k] == v2,
        m.insert(k, v1).insert(k, v2).len() == m.insert(k, v1).len(),
{
    assert(m.insert(k, v1).insert(k, v2) =~= m.insert(k, v2));
    assert(m.insert(k, v1).insert(k, v2).dom() =~= m.insert(k, v1).dom());
}

/// The table after a batch of adds: each key of `ks`, in order, bound to the
/// value of `vs` at the same position.
pub open spec fn after_adds<T>(m: Map<u128, T>, ks: Seq<u128>, vs: Seq<T>) -> Map<u128, T>
    decreases ks.len(),
{
    if ks.len() == 0 {
        m
    } else {
        after_adds(m.insert(ks[0], vs[0]), ks.skip(1), vs.skip(1))
    }
}

/// The table after a batch of removals, one per key of `rs`, in order.
pub open spec fn after_removes<T>(m: Map<u128, T>, rs: Seq<u128>) -> Map<u128, T>
    decreases rs.len(),
{
    if rs.len() == 0 {
        m
    } else {
        after_removes(m.remove(rs[0]), rs.skip(1))
    }
}

/// A nonempty sequence holds its head and, shifted by one, its tail.
proof fn lemma_seq_head_tail<A>(s: Seq<A>)
    requires
        s.len() > 0,
    ensures
        s.skip(1).len() == s.len() - 1,
        s.no_duplicates() ==> s.skip(1).no_duplicates(),
        s.no_duplicates() ==> !s.skip(1).contains(s[0]),
        forall|x: A| s.contains(x) <==> x == s[0] || s.skip(1).contains(x),
{
    assert forall|x: A| s.contains(x) <==> x == s[0] || s.skip(1).contains(x) by {
        if s.contains(x) {
            let i = choose|i: int| 0 <= i < s.len() && s[i] == x;
            if i > 0 {
                assert(s.skip(1)[i - 1] == x);
            }
        }
        if s.skip(1).contains(x) {
            let j = choose|j: int| 0 <= j < s.skip(1).len() && s.skip(1)[j] == x;
            assert(s[j + 1] == x);
        }
    }
    if s.no_duplicates() {
        assert forall|i: int, j: int|
            0 <= i < s.skip(1).len() && 0 <= j < s.skip(1).len() && i != j implies
            s.skip(1)[i] != s.skip(1)[j] by {
            assert(s.skip(1)[i] == s[i + 1]);
            assert(s.skip(1)[j] == s[j + 1]);
        }
        if s.skip(1).contains(s[0]) {
            let j = choose|j: int| 0 <= j < s.skip(1).len() && s.skip(1)[j] == s[0];
            assert(s[j + 1] == s[0]);
        }
    }
}

/// Adding a batch of fresh, pairwise-distinct keys grows the table by the
/// batch size, and the live keys afterwards are the old ones plus the batch.
proof fn lemma_after_adds_count<T>(m: Map<u128, T>, ks: Seq<u128>, vs: Seq<T>)
    requires
        m.dom().finite(),
        ks.no_duplicates(),
        vs.len() == ks.len(),
        forall|i: int| 0 <= i < ks.len() ==> !m.contains_key(#[trigger] ks[i]),
    ensures
        after_adds(m, ks, vs).dom() =~= m.dom().union(ks.to_set()),
        after_adds(m, ks, vs).dom().finite(),
        after_adds(m, ks, vs).len() == m.len() + ks.len(),
    decreases ks.len(),
{
    if ks.len() == 0 {
        assert(after_adds(m, ks, vs).dom() =~= m.dom().union(ks.to_set()));
    } else {
        lemma_seq_head_tail(ks);
        let m1 = m.insert(ks[0], vs[0]);
        assert forall|i: int| 0 <= i < ks.skip(1).len() implies !m1.contains_key(
            #[trigger] ks.skip(1)[i],
        ) by {
            assert(ks.skip(1)[i] == ks[i + 1]);
        }
        lemma_after_adds_count(m1, ks.skip(1), vs.skip(1));
        assert(m1.dom() =~= m.dom().insert(ks[0]));
        assert(m1.dom().union(ks.skip(1).to_set()) =~= m.dom().union(ks.to_set()));
        assert(m1.len() == m.len() + 1);
    }
}

/// Removing a batch of live, pairwise-distinct keys shrinks the table by the
/// batch size.
proof fn lemma_after_removes_count<T>(m: Map<u128, T>, rs: Seq<u128>)
    requires
        m.dom().finite(),
        rs.no_duplicates(),
        forall|i: int| 0 <= i < rs.len() ==> m.contains_key(#[trigger] rs[i]),
    ensures
        after_removes(m, rs).dom().finite(),
        after_removes(m, rs).len() == m.len() - rs.len(),
    decreases rs.len(),
{
    if rs.len() > 0 {
        lemma_seq_head_tail(rs);
        let m1 = m.remove(rs[0]);
        assert(m1.dom() =~= m.dom().remove(rs[0]));
        assert forall|i: int| 0 <= i < rs.skip(1).len() implies m1.contains_key(
            #[trigger] rs.skip(1)[i],
        ) by {
            assert(rs.skip(1)[i] == rs[i + 1]);
        }
        lemma_after_removes_count(m1, rs.skip(1));
        assert(m1.len() == m.len() - 1);
    }
}

/// Count invariant: starting from an empty table, `n` adds under distinct
/// fresh keys followed by `m` removals of distinct keys among them leave
/// exactly `n - m` live entries.
pub proof fn lemma_count_after_adds_and_removes<T>(ks: Seq<u128>, vs: Seq<T>, rs: Seq<u128>)
    requires
        ks.no_duplicates(),
        vs.len() == ks.len(),
        rs.no_duplicates(),
        forall|i: int| 0 <= i < rs.len() ==> ks.contains(#[trigger] rs[i]),
    ensures
        after_removes(after_adds(Map::empty(), ks, vs), rs).len() == ks.len() - rs.len(),
{
    let empty = Map::<u128, T>::empty();
    assert(empty.dom() =~= Set::empty());
    lemma_after_adds_count(empty, ks, vs);
    let added = after_adds(empty, ks, vs);
    assert(added.len() == ks.len());
    assert forall|i: int| 0 <= i < rs.len() implies added.contains_key(#[trigger] rs[i]) by {
        assert(ks.to_set().contains(rs[i]));
    }
    lemma_after_removes_count(added, rs);
}

} // verus!
