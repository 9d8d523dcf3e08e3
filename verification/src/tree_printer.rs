use vstd::prelude::*;

use crate::binary_tree::BinaryTree;

verus! {

/// The number of spaces one level of depth indents.
pub const INDENT_SIZE: usize = 4;

/// Recursive depth-first renderer for a binary search tree, for
/// diagnostics and tests.
pub struct BinaryTreePrinter<'a>(pub &'a BinaryTree);

impl<'a> BinaryTreePrinter<'a> {
    /// Renders the tree as a depth-indented, pre-order text dump.
    pub fn render(&self) -> (out: String)
        requires
            self.0.well_formed(),
            self.0.spec_depth() <= usize::MAX,
        ensures
            out@ == self.0.rendering(),
    {
        self.0.render_text()
    }
}

} // verus!
