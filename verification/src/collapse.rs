use vstd::prelude::*;

verus! {

/// Collapsing a value of a two-sided type into one plain value.
pub trait CollapseExt<T>: Sized {
    /// The value that collapsing yields.
    spec fn collapsed(self) -> T;

    /// Collapses the value.
    fn collapse(self) -> (r: T)
        ensures
            r == self.collapsed(),
    ;
}

impl<T> CollapseExt<T> for Result<T, T> {
    /// Either side of the result, whichever is present.
    open spec fn collapsed(self) -> T {
        match self {
            Ok(v) => v,
            Err(v) => v,
        }
    }

    fn collapse(self) -> (r: T) {
        match self {
            Ok(v) => v,
            Err(v) => v,
        }
    }
}

} // verus!
