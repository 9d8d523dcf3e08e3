use vstd::prelude::*;

use crate::seq_util::swap_elements;
use crate::sorter::{sorted_asc, Sorter};

verus! {

/// Insertion sort: swaps each element leftwards, one position at a time,
/// until it sits among the already sorted prefix.
pub struct InsertionSort;

impl Sorter for InsertionSort {
    fn sort(&self, xs: &mut Vec<i64>) {
        sort(xs);
    }
}

/// Sorted on the positions `0..=hi` other than `skip`, with the element
/// at `skip` no larger than any element after it up to `hi`.
spec fn sorted_but_dip(s: Seq<i64>, hi: int, skip: int) -> bool {
    &&& forall|a: int, b: int|
        0 <= a <= b <= hi && a != skip && b != skip ==> #[trigger] s[a] <= #[trigger] s[b]
    &&& forall|b: int| skip < b <= hi ==> s[skip] <= #[trigger] s[b]
}

fn sort(xs: &mut Vec<i64>)
    ensures
        sorted_asc(final(xs)@),
        final(xs)@.to_multiset() == old(xs)@.to_multiset(),
{
    let n = xs.len();
    let mut i: usize = 1;
    while i < n
        invariant
            n == xs@.len(),
            1 <= i,
            xs@.to_multiset() == old(xs)@.to_multiset(),
            forall|a: int, b: int| 0 <= a <= b < i ==> #[trigger] xs@[a] <= #[trigger] xs@[b],
        decreases n - i,
    {
        let mut prev = i - 1;
        loop
            invariant
                n == xs@.len(),
                1 <= i < n,
                0 <= prev < i,
                xs@.to_multiset() == old(xs)@.to_multiset(),
                sorted_but_dip(xs@, i as int, prev + 1),
            ensures
                n == xs@.len(),
                xs@.to_multiset() == old(xs)@.to_multiset(),
                forall|a: int, b: int|
                    0 <= a <= b <= i ==> #[trigger] xs@[a] <= #[trigger] xs@[b],
            decreases prev,
        {
            if xs[prev] > xs[prev + 1] {
                let ghost before = xs@;
                swap_elements(xs, prev, prev + 1);
                proof {
                    assert forall|a: int, b: int|
                        0 <= a <= b <= i && a != prev && b != prev implies #[trigger] xs@[a]
                        <= #[trigger] xs@[b] by {
                        if b == prev + 1 {
                            assert(xs@[b] == before[prev as int]);
                            if a < b {
                                assert(xs@[a] == before[a]);
                                assert(before[a] <= before[prev as int]);
                            }
                        } else if a == prev + 1 {
                            assert(xs@[a] == before[prev as int]);
                            assert(before[prev as int] <= before[b]);
                        }
                    }
                    assert forall|b: int| prev < b <= i implies xs@[prev as int]
                        <= #[trigger] xs@[b] by {
                        assert(xs@[prev as int] == before[prev + 1]);
                        if b == prev + 1 {
                            assert(xs@[b] == before[prev as int]);
                        } else {
                            assert(before[prev + 1] <= before[b]);
                        }
                    }
                }
                if prev == 0 {
                    proof {
                        assert forall|a: int, b: int|
                            0 <= a <= b <= i implies #[trigger] xs@[a] <= #[trigger] xs@[b] by {
                            if a == 0 && b > 0 {
                                assert(xs@[0] <= xs@[b]);
                            }
                        }
                    }
                    break;
                }
                prev = prev - 1;
            } else {
                proof {
                    assert forall|a: int, b: int|
                        0 <= a <= b <= i implies #[trigger] xs@[a] <= #[trigger] xs@[b] by {
                        if b == prev + 1 {
                            if a <= prev {
                                assert(xs@[a] <= xs@[prev as int]);
                            }
                        } else if a == prev + 1 {
                            assert(xs@[a] <= xs@[b]);
                        }
                    }
                }
                break;
            }
        }
        i = i + 1;
    }
}

} // verus!
