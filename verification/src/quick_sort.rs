use vstd::prelude::*;
use vstd::seq_lib::{group_to_multiset_ensures, lemma_multiset_commutative};

use crate::seq_util::{lemma_multiset_source_index, lemma_seq_swap_multiset, seq_swap, swap_elements};
use crate::sorter::Sorter;

verus! {

broadcast use group_to_multiset_ensures, vstd::multiset::group_multiset_axioms;

/// Recursive quicksort: the first element of each range is the pivot, the
/// rest is split around it by a pair of cursors walking inwards.
pub struct QuickSortAlloc;

impl Sorter for QuickSortAlloc {
    fn sort(&self, xs: &mut Vec<i64>) {
        let n = xs.len();
        sort_range(xs, 0, n);
        proof {
            assert(old(xs)@.subrange(0, n as int) =~= old(xs)@);
            assert(xs@.subrange(0, n as int) =~= xs@);
        }
    }
}

/// Sorts `xs[lo..hi]` in place, leaving the rest of the vector untouched.
fn sort_range(xs: &mut Vec<i64>, lo: usize, hi: usize)
    requires
        lo <= hi <= old(xs)@.len(),
    ensures
        final(xs)@.len() == old(xs)@.len(),
        forall|a: int|
            (0 <= a < lo || hi <= a < old(xs)@.len()) ==> #[trigger] final(xs)@[a] == old(
                xs,
            )@[a],
        final(xs)@.subrange(lo as int, hi as int).to_multiset() == old(xs)@.subrange(
            lo as int,
            hi as int,
        ).to_multiset(),
        forall|a: int, b: int|
            lo <= a <= b < hi ==> #[trigger] final(xs)@[a] <= #[trigger] final(xs)@[b],
    decreases hi - lo,
{
    if hi - lo <= 1 {
        return ;
    }
    if hi - lo == 2 {
        if xs[lo] > xs[lo + 1] {
            let ghost before = xs@;
            swap_elements(xs, lo, lo + 1);
            proof {
                assert(xs@.subrange(lo as int, hi as int) =~= seq_swap(
                    before.subrange(lo as int, hi as int),
                    0,
                    1,
                ));
                lemma_seq_swap_multiset(before.subrange(lo as int, hi as int), 0, 1);
            }
        }
        return ;
    }
    let ghost w0 = xs@;
    let pivot = xs[lo];
    let mut left = lo + 1;
    let mut right = hi - 1;
    loop
        invariant_except_break
            xs@.len() == w0.len(),
            lo + 3 <= hi <= w0.len(),
            lo + 1 <= left <= hi,
            lo <= right < hi,
            left <= right + 1,
            xs@[lo as int] == pivot,
            forall|a: int|
                (0 <= a < lo || hi <= a < w0.len()) ==> #[trigger] xs@[a] == w0[a],
            xs@.subrange(lo as int, hi as int).to_multiset() == w0.subrange(
                lo as int,
                hi as int,
            ).to_multiset(),
            forall|a: int| lo + 1 <= a < left ==> #[trigger] xs@[a] <= pivot,
            forall|a: int| right < a < hi ==> #[trigger] xs@[a] > pivot,
        ensures
            xs@.len() == w0.len(),
            lo + 1 <= left <= hi,
            xs@[lo as int] == pivot,
            forall|a: int|
                (0 <= a < lo || hi <= a < w0.len()) ==> #[trigger] xs@[a] == w0[a],
            xs@.subrange(lo as int, hi as int).to_multiset() == w0.subrange(
                lo as int,
                hi as int,
            ).to_multiset(),
            forall|a: int| lo + 1 <= a < left ==> #[trigger] xs@[a] <= pivot,
            forall|a: int| left <= a < hi ==> #[trigger] xs@[a] > pivot,
        decreases right + hi - left,
    {
        if left > right {
            break ;
        }
        if xs[left] <= pivot {
            left = left + 1;
        } else if xs[right] > pivot {
            if right == lo + 1 {
                proof {
                    assert(left == lo + 1);
                }
                break ;
            }
            right = right - 1;
        } else {
            let ghost before = xs@;
            swap_elements(xs, left, right);
            proof {
                assert(xs@.subrange(lo as int, hi as int) =~= seq_swap(
                    before.subrange(lo as int, hi as int),
                    left - lo,
                    right - lo,
                ));
                lemma_seq_swap_multiset(
                    before.subrange(lo as int, hi as int),
                    left - lo,
                    right - lo,
                );
            }
            left = left + 1;
            if right == lo + 1 {
                break ;
            }
            right = right - 1;
        }
    }
    let boundary = left;
    let ghost w1 = xs@;
    swap_elements(xs, lo, boundary - 1);
    proof {
        assert(xs@.subrange(lo as int, hi as int) =~= seq_swap(
            w1.subrange(lo as int, hi as int),
            0,
            boundary - 1 - lo,
        ));
        lemma_seq_swap_multiset(w1.subrange(lo as int, hi as int), 0, boundary - 1 - lo);
    }
    let ghost w2 = xs@;
    proof {
        assert forall|a: int| lo <= a < boundary - 1 implies #[trigger] xs@[a] <= pivot by {
            if a == lo {
                assert(xs@[a] == w1[boundary - 1]);
            }
        }
        assert(xs@[boundary - 1] == pivot);
        assert forall|a: int| boundary <= a < hi implies #[trigger] xs@[a] > pivot by {
            assert(xs@[a] == w1[a]);
        }
    }
    sort_range(xs, lo, boundary - 1);
    let ghost w3 = xs@;
    proof {
        let lo_i = lo as int;
        let b1 = boundary as int - 1;
        // the left part still holds only values at most the pivot
        assert forall|a: int| lo <= a < boundary - 1 implies #[trigger] xs@[a] <= pivot by {
            let s_new = xs@.subrange(lo_i, b1);
            let s_old = w2.subrange(lo_i, b1);
            let j = lemma_multiset_source_index(s_old, s_new, a - lo_i);
            assert(s_old[j] == xs@[a]);
            assert(w2[j + lo_i] <= pivot);
        }
        // the rest of the range is untouched
        assert(xs@[boundary - 1] == pivot);
        assert forall|a: int| boundary <= a < hi implies #[trigger] xs@[a] > pivot by {
            assert(xs@[a] == w2[a]);
        }
        // the whole range keeps its multiset
        assert(w3.subrange(lo_i, hi as int) =~= w3.subrange(lo_i, b1) + w3.subrange(
            b1,
            hi as int,
        ));
        assert(w2.subrange(lo_i, hi as int) =~= w2.subrange(lo_i, b1) + w2.subrange(
            b1,
            hi as int,
        ));
        assert(w3.subrange(b1, hi as int) =~= w2.subrange(b1, hi as int));
        lemma_multiset_commutative(w3.subrange(lo_i, b1), w3.subrange(b1, hi as int));
        lemma_multiset_commutative(w2.subrange(lo_i, b1), w2.subrange(b1, hi as int));
        assert(w3.subrange(lo_i, hi as int).to_multiset() == w2.subrange(
            lo_i,
            hi as int,
        ).to_multiset());
    }
    sort_range(xs, boundary, hi);
    proof {
        let lo_i = lo as int;
        let b = boundary as int;
        let hi_i = hi as int;
        // the right part still holds only values above the pivot
        assert forall|a: int| boundary <= a < hi implies #[trigger] xs@[a] > pivot by {
            let s_new = xs@.subrange(b, hi_i);
            let s_old = w3.subrange(b, hi_i);
            let j = lemma_multiset_source_index(s_old, s_new, a - b);
            assert(s_old[j] == xs@[a]);
            assert(w3[j + b] > pivot);
        }
        // the left part and the pivot slot are untouched
        assert forall|a: int| lo <= a < boundary implies #[trigger] xs@[a] == w3[a] by {}
        // the whole range is sorted
        assert forall|a: int, b2: int|
            lo <= a <= b2 < hi implies #[trigger] xs@[a] <= #[trigger] xs@[b2] by {
            if a < boundary - 1 && b2 < boundary - 1 {
                assert(w3[a] <= w3[b2]);
            } else if b2 == boundary - 1 {
                if a < b2 {
                    assert(xs@[a] == w3[a]);
                    assert(w3[a] <= pivot);
                }
            } else if b2 >= boundary {
                if a < boundary {
                    assert(xs@[a] <= pivot);
                    assert(xs@[b2] > pivot);
                }
            }
        }
        // the whole range keeps its multiset
        assert(xs@.subrange(lo_i, hi_i) =~= xs@.subrange(lo_i, b) + xs@.subrange(b, hi_i));
        assert(w3.subrange(lo_i, hi_i) =~= w3.subrange(lo_i, b) + w3.subrange(b, hi_i));
        assert(xs@.subrange(lo_i, b) =~= w3.subrange(lo_i, b));
        lemma_multiset_commutative(xs@.subrange(lo_i, b), xs@.subrange(b, hi_i));
        lemma_multiset_commutative(w3.subrange(lo_i, b), w3.subrange(b, hi_i));
        assert(xs@.subrange(lo_i, hi_i).to_multiset() == w0.subrange(lo_i, hi_i).to_multiset());
    }
}

} // verus!
