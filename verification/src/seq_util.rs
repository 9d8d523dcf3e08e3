use vstd::prelude::*;
use vstd::pervasive::VecAdditionalExecFns;
use vstd::seq_lib::group_to_multiset_ensures;

verus! {

/// The sequence `s` with the values at positions `i` and `j` exchanged.
pub open spec fn seq_swap(s: Seq<i64>, i: int, j: int) -> Seq<i64> {
    s.update(i, s[j]).update(j, s[i])
}

/// Exchanging two positions keeps the multiset of values.
pub proof fn lemma_seq_swap_multiset(s: Seq<i64>, i: int, j: int)
    requires
        0 <= i < s.len(),
        0 <= j < s.len(),
    ensures
        seq_swap(s, i, j).to_multiset() == s.to_multiset(),
        seq_swap(s, i, j).len() == s.len(),
{
    broadcast use group_to_multiset_ensures;

    let s1 = s.update(i, s[j]);
    if i == j {
        assert(seq_swap(s, i, j) =~= s);
    } else {
        assert(s1[j] == s[j]);
        assert(seq_swap(s, i, j).to_multiset() =~= s.to_multiset());
    }
}

/// Exchanges the elements of `v` at positions `i` and `j`.
pub fn swap_elements(v: &mut Vec<i64>, i: usize, j: usize)
    requires
        i < old(v)@.len(),
        j < old(v)@.len(),
    ensures
        final(v)@ == seq_swap(old(v)@, i as int, j as int),
        final(v)@.len() == old(v)@.len(),
        final(v)@.to_multiset() == old(v)@.to_multiset(),
{
    proof {
        lemma_seq_swap_multiset(v@, i as int, j as int);
    }
    let a = v[i];
    let b = v[j];
    v.set(i, b);
    v.set(j, a);
}

/// A value standing in one of two sequences with equal multisets also
/// stands somewhere in the other: returns such a position.
pub proof fn lemma_multiset_source_index(s1: Seq<i64>, s2: Seq<i64>, i: int) -> (j: int)
    requires
        s1.to_multiset() == s2.to_multiset(),
        0 <= i < s2.len(),
    ensures
        0 <= j < s1.len(),
        s1[j] == s2[i],
{
    broadcast use group_to_multiset_ensures;

    let x = s2[i];
    assert(s2.contains(x));
    assert(s2.to_multiset().count(x) > 0);
    assert(s1.to_multiset().count(x) > 0);
    assert(s1.contains(x));
    choose|j: int| 0 <= j < s1.len() && s1[j] == x
}

} // verus!
