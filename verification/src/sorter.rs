use vstd::prelude::*;

verus! {

/// Numerically non-decreasing.
pub open spec fn sorted_asc(s: Seq<i64>) -> bool {
    forall|i: int, j: int| 0 <= i <= j < s.len() ==> #[trigger] s[i] <= #[trigger] s[j]
}

/// Represents a sorting algorithm.
pub trait Sorter {
    /// Sorts the provided vector in place: afterwards it is
    /// non-decreasing and holds exactly the values it held before.
    fn sort(&self, xs: &mut Vec<i64>)
        ensures
            sorted_asc(final(xs)@),
            final(xs)@.to_multiset() == old(xs)@.to_multiset(),
    ;
}

} // verus!
