use vstd::prelude::*;

use crate::seq_util::swap_elements;
use crate::sorter::{sorted_asc, Sorter};

verus! {

/// Bubble sort: repeatedly bubbles the largest remaining element to the
/// end of the unsorted prefix.
pub struct BubbleSort;

impl Sorter for BubbleSort {
    fn sort(&self, xs: &mut Vec<i64>) {
        sort(xs);
    }
}

fn sort(xs: &mut Vec<i64>)
    ensures
        sorted_asc(final(xs)@),
        final(xs)@.to_multiset() == old(xs)@.to_multiset(),
{
    let n = xs.len();
    let mut i: usize = 0;
    while i < n
        invariant
            n == xs@.len(),
            i <= n,
            xs@.to_multiset() == old(xs)@.to_multiset(),
            forall|a: int, b: int|
                n - i <= a <= b < n ==> #[trigger] xs@[a] <= #[trigger] xs@[b],
            forall|a: int, b: int|
                0 <= a < n - i && n - i <= b < n ==> #[trigger] xs@[a] <= #[trigger] xs@[b],
        decreases n - i,
    {
        let mut j: usize = 0;
        while j + 1 < n - i
            invariant
                n == xs@.len(),
                i < n,
                j < n - i,
                xs@.to_multiset() == old(xs)@.to_multiset(),
                forall|a: int, b: int|
                    n - i <= a <= b < n ==> #[trigger] xs@[a] <= #[trigger] xs@[b],
                forall|a: int, b: int|
                    0 <= a < n - i && n - i <= b < n ==> #[trigger] xs@[a] <= #[trigger] xs@[b],
                forall|a: int| 0 <= a <= j ==> #[trigger] xs@[a] <= xs@[j as int],
            decreases n - i - j,
        {
            if xs[j] > xs[j + 1] {
                let ghost before = xs@;
                swap_elements(xs, j, j + 1);
                proof {
                    assert forall|a: int, b: int|
                        0 <= a < n - i && n - i <= b < n implies #[trigger] xs@[a]
                        <= #[trigger] xs@[b] by {
                        assert(xs@[b] == before[b]);
                        assert(xs@[a] == before[a] || xs@[a] == before[j as int] || xs@[a]
                            == before[j + 1]);
                    }
                }
            }
            j = j + 1;
        }
        proof {
            if n - i >= 1 {
                assert forall|a: int, b: int|
                    0 <= a < n - i - 1 && n - i - 1 <= b < n implies #[trigger] xs@[a]
                    <= #[trigger] xs@[b] by {
                    assert(xs@[a] <= xs@[j as int]);
                    if b > n - i - 1 {
                        assert(xs@[j as int] <= xs@[b]);
                    }
                }
            }
        }
        i = i + 1;
    }
    proof {
        assert forall|a: int, b: int| 0 <= a <= b < n implies #[trigger] xs@[a]
            <= #[trigger] xs@[b] by {
            assert(n - n <= a);
        }
    }
}

} // verus!
