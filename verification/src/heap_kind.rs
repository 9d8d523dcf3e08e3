use vstd::prelude::*;

verus! {

/// An ordering policy for the heap: `should_swap(child, parent)` decides
/// whether a child must rise above its parent, which selects max-heap or
/// min-heap behaviour without the heap code fixing a comparison direction.
pub trait HeapKind {
    /// The meaning of the policy's comparison, as a mathematical predicate.
    spec fn spec_should_swap(child: i64, parent: i64) -> bool;

    /// Checks if the child must be swapped with its parent.
    fn should_swap(child: i64, parent: i64) -> (r: bool)
        ensures
            r == Self::spec_should_swap(child, parent),
    ;

    /// The policy must be the strict part of a total order: taking
    /// "a stays below b" to mean `!spec_should_swap(a, b)`, that relation is
    /// total, transitive, and two elements below each other are equal.
    proof fn lemma_policy_total_order(a: i64, b: i64, c: i64)
        ensures
            !Self::spec_should_swap(a, b) || !Self::spec_should_swap(b, a),
            !Self::spec_should_swap(a, b) && !Self::spec_should_swap(b, c)
                ==> !Self::spec_should_swap(a, c),
            !Self::spec_should_swap(a, b) && !Self::spec_should_swap(b, a) ==> a == b,
    ;
}

/// Max heap kind: a child rises above a strictly smaller parent, so the
/// largest element sits at the root.
pub struct Max;

impl HeapKind for Max {
    open spec fn spec_should_swap(child: i64, parent: i64) -> bool {
        child > parent
    }

    fn should_swap(child: i64, parent: i64) -> (r: bool) {
        child > parent
    }

    proof fn lemma_policy_total_order(a: i64, b: i64, c: i64) {
    }
}

/// Min heap kind: a child rises above a strictly larger parent, so the
/// smallest element sits at the root.
pub struct Min;

impl HeapKind for Min {
    open spec fn spec_should_swap(child: i64, parent: i64) -> bool {
        child < parent
    }

    fn should_swap(child: i64, parent: i64) -> (r: bool) {
        child < parent
    }

    proof fn lemma_policy_total_order(a: i64, b: i64, c: i64) {
    }
}

} // verus!
