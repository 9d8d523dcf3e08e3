use vstd::prelude::*;
use vstd::pervasive::VecAdditionalExecFns;
use vstd::seq_lib::{group_to_multiset_ensures, lemma_multiset_commutative};

use crate::collapse::CollapseExt;
use crate::sorter::{sorted_asc, Sorter};

verus! {

broadcast use group_to_multiset_ensures, vstd::multiset::group_multiset_axioms;

/// Insertion sort that finds each element's place in the sorted prefix by
/// binary search, then rotates the displaced block one step to the right.
pub struct InsertionSortSmart;

impl Sorter for InsertionSortSmart {
    fn sort(&self, xs: &mut Vec<i64>) {
        sort(xs);
    }
}

/// Binary search for `key` in the sorted prefix `xs[..hi]`: the position
/// of some occurrence on success, the position where `key` would keep the
/// prefix sorted on failure.
fn search(xs: &Vec<i64>, hi: usize, key: i64) -> (r: Result<usize, usize>)
    requires
        hi <= xs@.len(),
        forall|a: int, b: int| 0 <= a <= b < hi ==> #[trigger] xs@[a] <= #[trigger] xs@[b],
    ensures
        match r {
            Ok(p) => p < hi && xs@[p as int] == key,
            Err(p) => {
                &&& p <= hi
                &&& forall|a: int| 0 <= a < p ==> #[trigger] xs@[a] < key
                &&& forall|a: int| p <= a < hi ==> #[trigger] xs@[a] > key
            },
        },
{
    let mut lo: usize = 0;
    let mut up: usize = hi;
    while lo < up
        invariant
            lo <= up <= hi <= xs@.len(),
            forall|a: int, b: int| 0 <= a <= b < hi ==> #[trigger] xs@[a] <= #[trigger] xs@[b],
            forall|a: int| 0 <= a < lo ==> #[trigger] xs@[a] < key,
            forall|a: int| up <= a < hi ==> #[trigger] xs@[a] > key,
        decreases up - lo,
    {
        let mid = lo + (up - lo) / 2;
        if xs[mid] < key {
            lo = mid + 1;
        } else if xs[mid] > key {
            up = mid;
        } else {
            return Ok(mid);
        }
    }
    Err(lo)
}

/// Rotates the block `xs[target..=last]` one step to the right: the last
/// element of the block moves to its front, the rest shift one slot up.
fn rotate_block(xs: &mut Vec<i64>, target: usize, last: usize)
    requires
        target <= last < old(xs)@.len(),
    ensures
        final(xs)@.len() == old(xs)@.len(),
        final(xs)@[target as int] == old(xs)@[last as int],
        forall|a: int| target < a <= last ==> #[trigger] final(xs)@[a] == old(xs)@[a - 1],
        forall|a: int|
            (0 <= a < target || last < a < old(xs)@.len()) ==> #[trigger] final(xs)@[a] == old(
                xs,
            )@[a],
        final(xs)@.to_multiset() == old(xs)@.to_multiset(),
{
    let v = xs[last];
    let mut k = last;
    while k > target
        invariant
            target <= k <= last < xs@.len(),
            xs@.len() == old(xs)@.len(),
            forall|a: int| 0 <= a <= k ==> #[trigger] xs@[a] == old(xs)@[a],
            forall|a: int| k < a <= last ==> #[trigger] xs@[a] == old(xs)@[a - 1],
            forall|a: int| last < a < xs@.len() ==> #[trigger] xs@[a] == old(xs)@[a],
        decreases k,
    {
        let w = xs[k - 1];
        xs.set(k, w);
        k = k - 1;
    }
    xs.set(target, v);
    proof {
        let o = old(xs)@;
        let t = target as int;
        let l = last as int;
        assert(xs@ =~= o.take(t) + seq![o[l]] + o.subrange(t, l) + o.skip(l + 1));
        assert(o =~= o.take(t) + o.subrange(t, l) + seq![o[l]] + o.skip(l + 1));
        let blk = o.subrange(t, l);
        lemma_multiset_commutative(o.take(t) + seq![o[l]] + blk, o.skip(l + 1));
        lemma_multiset_commutative(o.take(t) + seq![o[l]], blk);
        lemma_multiset_commutative(o.take(t), seq![o[l]]);
        lemma_multiset_commutative(o.take(t) + blk + seq![o[l]], o.skip(l + 1));
        lemma_multiset_commutative(o.take(t) + blk, seq![o[l]]);
        lemma_multiset_commutative(o.take(t), blk);
        assert(xs@.to_multiset() =~= o.to_multiset());
    }
}

fn sort(xs: &mut Vec<i64>)
    ensures
        sorted_asc(final(xs)@),
        final(xs)@.to_multiset() == old(xs)@.to_multiset(),
{
    let n = xs.len();
    let mut i: usize = 1;
    while i < n
        invariant
            n == xs@.len(),
            1 <= i,
            xs@.to_multiset() == old(xs)@.to_multiset(),
            forall|a: int, b: int| 0 <= a <= b < i ==> #[trigger] xs@[a] <= #[trigger] xs@[b],
        decreases n - i,
    {
        let ghost before = xs@;
        let key = xs[i];
        let found = search(xs, i, key);
        let target = found.collapse();
        proof {
            assert(target <= i);
            assert forall|a: int| 0 <= a < target implies #[trigger] xs@[a] <= key by {
                if found is Ok {
                    assert(xs@[a] <= xs@[target as int]);
                }
            }
            assert forall|a: int| target <= a < i implies #[trigger] xs@[a] >= key by {
                if found is Ok {
                    assert(xs@[target as int] <= xs@[a]);
                }
            }
        }
        rotate_block(xs, target, i);
        proof {
            assert forall|a: int, b: int|
                0 <= a <= b < i + 1 implies #[trigger] xs@[a] <= #[trigger] xs@[b] by {
                let t = target as int;
                if a < t {
                    assert(xs@[a] == before[a]);
                }
                if b < t {
                    assert(xs@[b] == before[b]);
                }
                if t < a {
                    assert(xs@[a] == before[a - 1]);
                }
                if t < b {
                    assert(xs@[b] == before[b - 1]);
                }
            }
        }
        i = i + 1;
    }
}

} // verus!
