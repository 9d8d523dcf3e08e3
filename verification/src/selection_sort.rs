use vstd::prelude::*;

use crate::seq_util::swap_elements;
use crate::sorter::{sorted_asc, Sorter};

verus! {

/// Selection sort: repeatedly selects the smallest remaining element and
/// moves it to the front of the unsorted suffix.
pub struct SelectionSort;

impl Sorter for SelectionSort {
    fn sort(&self, xs: &mut Vec<i64>) {
        sort(xs);
    }
}

fn sort(xs: &mut Vec<i64>)
    ensures
        sorted_asc(final(xs)@),
        final(xs)@.to_multiset() == old(xs)@.to_multiset(),
{
    let n = xs.len();
    let mut i: usize = 0;
    while i + 1 < n
        invariant
            n == xs@.len(),
            i < n || i == 0,
            xs@.to_multiset() == old(xs)@.to_multiset(),
            forall|a: int, b: int| 0 <= a <= b < i ==> #[trigger] xs@[a] <= #[trigger] xs@[b],
            forall|a: int, b: int|
                0 <= a < i && i <= b < n ==> #[trigger] xs@[a] <= #[trigger] xs@[b],
        decreases n - i,
    {
        let mut min: usize = i;
        let mut j = i + 1;
        while j < n
            invariant
                n == xs@.len(),
                i < n,
                i <= min < n,
                i < j <= n,
                min < j,
                forall|a: int| i <= a < j ==> xs@[min as int] <= #[trigger] xs@[a],
            decreases n - j,
        {
            if xs[min] > xs[j] {
                min = j;
            }
            j = j + 1;
        }
        let ghost before = xs@;
        swap_elements(xs, min, i);
        proof {
            assert forall|a: int, b: int|
                0 <= a <= b < i + 1 implies #[trigger] xs@[a] <= #[trigger] xs@[b] by {
                if b == i && a < i {
                    assert(xs@[b] == before[min as int]);
                    assert(xs@[a] == before[a]);
                    assert(before[a] <= before[min as int]);
                }
            }
            assert forall|a: int, b: int|
                0 <= a < i + 1 && i + 1 <= b < n implies #[trigger] xs@[a]
                <= #[trigger] xs@[b] by {
                assert(xs@[b] == before[b] || xs@[b] == before[i as int]);
                if a < i {
                    assert(xs@[a] == before[a]);
                } else {
                    assert(xs@[a] == before[min as int]);
                }
            }
        }
        i = i + 1;
    }
    proof {
        assert forall|a: int, b: int| 0 <= a <= b < n implies #[trigger] xs@[a]
            <= #[trigger] xs@[b] by {
            if b >= i {
                if a >= i {
                    if a == b {
                    } else {
                        assert(false);
                    }
                }
            }
        }
    }
}

} // verus!
