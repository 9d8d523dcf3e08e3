use vstd::prelude::*;
use vstd::string::StringExecFns;

use crate::text::{int_rep, push_newline, push_signed, push_spaces, spaces};

verus! {

/// An unbalanced binary search tree of distinct values.
///
/// A node with an absent value is the empty tree; a populated node keeps
/// every value of its left subtree strictly smaller, and every value of
/// its right subtree strictly greater, than its own.
pub struct BinaryTree {
    pub(crate) value: Option<i64>,
    pub(crate) left: Option<Box<BinaryTree>>,
    pub(crate) right: Option<Box<BinaryTree>>,
}

/// The set of values held by an optional subtree.
pub closed spec fn optional_as_set(t: Option<Box<BinaryTree>>) -> Set<i64>
    decreases t,
{
    match t {
        None => Set::empty(),
        Some(b) => b.as_set(),
    }
}

/// The depth of an optional subtree.
pub closed spec fn optional_depth(t: Option<Box<BinaryTree>>) -> nat
    decreases t,
{
    match t {
        None => 0,
        Some(b) => b.spec_depth(),
    }
}

impl BinaryTree {
    /// The set of values held by the tree.
    pub closed spec fn as_set(self) -> Set<i64>
        decreases self,
    {
        match self.value {
            None => Set::empty(),
            Some(v) => optional_as_set(self.left).union(optional_as_set(self.right)).insert(v),
        }
    }

    /// The number of nodes on the longest path from the root down to a
    /// leaf; 0 for the empty tree.
    pub closed spec fn spec_depth(self) -> nat
        decreases self,
    {
        let l = optional_depth(self.left);
        let r = optional_depth(self.right);
        let m = if l >= r {
            l
        } else {
            r
        };
        if self.value is Some {
            m + 1
        } else {
            m
        }
    }

    /// The search-tree invariant: an empty node has no children, values on
    /// the left are smaller, values on the right are greater, and both
    /// subtrees are populated search trees themselves.
    pub closed spec fn well_formed(self) -> bool
        decreases self,
    {
        &&& (self.value is None ==> self.left is None && self.right is None)
        &&& (match self.value {
            Some(v) => {
                &&& (forall|e: i64| optional_as_set(self.left).contains(e) ==> e < v)
                &&& (forall|e: i64| optional_as_set(self.right).contains(e) ==> e > v)
            },
            None => true,
        })
        &&& (match self.left {
            Some(l) => l.well_formed() && l.value is Some,
            None => true,
        })
        &&& (match self.right {
            Some(r) => r.well_formed() && r.value is Some,
            None => true,
        })
    }

    /// The pre-order rendering of this node at the given indentation
    /// level: the node's value on a line of its own, indented four spaces
    /// per level, then the left subtree, then the right one; the empty
    /// node renders as nothing.
    pub closed spec fn render_at(self, depth: nat) -> Seq<char>
        decreases self,
    {
        match self.value {
            None => Seq::empty(),
            Some(v) => spaces(depth * 4) + int_rep(v as int) + seq!['\n'] + (match self.left {
                None => Seq::<char>::empty(),
                Some(b) => b.render_at(depth + 1),
            }) + (match self.right {
                None => Seq::<char>::empty(),
                Some(b) => b.render_at(depth + 1),
            }),
        }
    }

    /// The full text dump of the tree: a fixed note for the empty tree,
    /// the rendering of the root otherwise.
    pub closed spec fn rendering(self) -> Seq<char> {
        if self.value is None {
            seq![
                '(',
                'e',
                'm',
                'p',
                't',
                'y',
                ' ',
                'b',
                'i',
                'n',
                'a',
                'r',
                'y',
                ' ',
                't',
                'r',
                'e',
                'e',
                ')',
                '\n',
            ]
        } else {
            self.render_at(0)
        }
    }

    /// Renders the tree as a depth-indented, pre-order text dump.
    pub fn render_text(&self) -> (out: String)
        requires
            self.well_formed(),
            self.spec_depth() <= usize::MAX,
        ensures
            out@ == self.rendering(),
    {
        let mut out = String::new();
        if self.value.is_none() {
            proof {
                reveal_strlit("(empty binary tree)\n");
                assert("(empty binary tree)\n"@ =~= self.rendering());
            }
            out.append("(empty binary tree)\n");
        } else {
            render_go(self, 0, &mut out);
            proof {
                assert(out@ =~= self.rendering());
            }
        }
        out
    }

    /// Creates a new, empty, binary search tree.
    pub fn new() -> (t: Self)
        ensures
            t.well_formed(),
            t.as_set() == Set::<i64>::empty(),
            t.spec_depth() == 0,
    {
        Self::default()
    }

    /// Checks if the tree is empty.
    pub fn is_empty(&self) -> (r: bool)
        requires
            self.well_formed(),
        ensures
            r == (self.as_set() == Set::<i64>::empty()),
    {
        let r = self.value.is_none();
        proof {
            if self.value is Some {
                assert(self.as_set().contains(self.value->0));
                assert(self.as_set() != Set::<i64>::empty());
            } else {
                assert(self.as_set() =~= Set::<i64>::empty());
            }
        }
        r
    }

    /// Returns the tree's depth.
    pub fn depth(&self) -> (d: usize)
        requires
            self.well_formed(),
            self.spec_depth() <= usize::MAX,
        ensures
            d == self.spec_depth(),
        decreases *self,
    {
        let l = match &self.left {
            None => 0,
            Some(b) => b.depth(),
        };
        let r = match &self.right {
            None => 0,
            Some(b) => b.depth(),
        };
        let m = if l >= r {
            l
        } else {
            r
        };
        if self.value.is_some() {
            m + 1
        } else {
            m
        }
    }

    /// Inserts the given value, keeping the search-tree invariant.
    ///
    /// Returns the rejected value as an error, leaving the tree untouched,
    /// when the tree already contains it; otherwise the tree gains exactly
    /// that value, and its depth grows by at most one.
    pub fn insert(&mut self, value: i64) -> (r: Result<(), i64>)
        requires
            old(self).well_formed(),
        ensures
            final(self).well_formed(),
            old(self).as_set().contains(value) ==> (r == Result::<(), i64>::Err(value)
                && *final(self) == *old(self)),
            !old(self).as_set().contains(value) ==> {
                &&& r == Result::<(), i64>::Ok(())
                &&& final(self).as_set() == old(self).as_set().insert(value)
                &&& old(self).spec_depth() <= final(self).spec_depth() <= old(self).spec_depth()
                    + 1
                &&& final(self).spec_depth() >= 1
            },
        decreases *old(self),
    {
        let current = match self.value {
            None => {
                self.value = Some(value);
                proof {
                    assert(self.as_set() =~= old(self).as_set().insert(value));
                }
                return Ok(());
            },
            Some(c) => c,
        };
        if value == current {
            return Err(value);
        }
        if value < current {
            proof {
                assert(!optional_as_set(old(self).right).contains(value));
                assert(old(self).as_set().contains(value) == optional_as_set(
                    old(self).left,
                ).contains(value));
            }
            let mut l = self.left.take();
            let r = Self::insert_into(&mut l, value);
            self.left = l;
            proof {
                if !old(self).as_set().contains(value) {
                    assert(self.as_set() =~= old(self).as_set().insert(value));
                } else {
                    assert(*self == *old(self));
                }
            }
            r
        } else {
            proof {
                assert(!optional_as_set(old(self).left).contains(value));
                assert(old(self).as_set().contains(value) == optional_as_set(
                    old(self).right,
                ).contains(value));
            }
            let mut rt = self.right.take();
            let r = Self::insert_into(&mut rt, value);
            self.right = rt;
            proof {
                if !old(self).as_set().contains(value) {
                    assert(self.as_set() =~= old(self).as_set().insert(value));
                } else {
                    assert(*self == *old(self));
                }
            }
            r
        }
    }

    /// Inserts into an optional subtree, creating a fresh node when the
    /// subtree is absent.
    fn insert_into(node: &mut Option<Box<BinaryTree>>, value: i64) -> (r: Result<(), i64>)
        requires
            match *old(node) {
                Some(b) => b.well_formed() && b.value is Some,
                None => true,
            },
        ensures
            match *final(node) {
                Some(b) => b.well_formed() && b.value is Some,
                None => false,
            },
            optional_as_set(*old(node)).contains(value) ==> r == Result::<(), i64>::Err(value)
                && *final(node) == *old(node),
            !optional_as_set(*old(node)).contains(value) ==> {
                &&& r == Result::<(), i64>::Ok(())
                &&& optional_as_set(*final(node)) == optional_as_set(*old(node)).insert(value)
                &&& optional_depth(*old(node)) <= optional_depth(*final(node)) <= optional_depth(
                    *old(node),
                ) + 1
                &&& optional_depth(*final(node)) >= 1
            },
        decreases *old(node),
    {
        match node.take() {
            None => {
                *node = Some(
                    Box::new(BinaryTree { value: Some(value), left: None, right: None }),
                );
                proof {
                    assert(optional_as_set(*node) =~= optional_as_set(
                        *old(node),
                    ).insert(value));
                }
                Ok(())
            },
            Some(mut boxed) => {
                let r = (&mut *boxed).insert(value);
                *node = Some(boxed);
                r
            },
        }
    }

    /// Checks whether the given value exists in the tree.
    pub fn contains(&self, value: i64) -> (r: bool)
        requires
            self.well_formed(),
        ensures
            r == self.as_set().contains(value),
        decreases *self,
    {
        let current = match self.value {
            None => {
                return false;
            },
            Some(c) => c,
        };
        if value == current {
            return true;
        }
        if value < current {
            proof {
                assert(!optional_as_set(self.right).contains(value));
                assert(self.as_set().contains(value) == optional_as_set(self.left).contains(
                    value,
                ));
            }
            match &self.left {
                None => false,
                Some(b) => b.contains(value),
            }
        } else {
            proof {
                assert(!optional_as_set(self.left).contains(value));
                assert(self.as_set().contains(value) == optional_as_set(self.right).contains(
                    value,
                ));
            }
            match &self.right {
                None => false,
                Some(b) => b.contains(value),
            }
        }
    }
}

/// Appends four spaces per indentation level to `out`.
fn push_indent(out: &mut String, levels: usize)
    ensures
        final(out)@ == old(out)@ + spaces((levels * 4) as nat),
{
    let mut k: usize = 0;
    while k < levels
        invariant
            k <= levels,
            out@ == old(out)@ + spaces((k * 4) as nat),
        decreases levels - k,
    {
        proof {
            assert(spaces((k * 4) as nat) + spaces(4) =~= spaces(((k + 1) * 4) as nat));
        }
        push_spaces(out, 4);
        k = k + 1;
        proof {
            assert(out@ =~= old(out)@ + spaces((k * 4) as nat));
        }
    }
}

/// Writes the pre-order rendering of the subtree rooted at `t`.
fn render_go(t: &BinaryTree, depth: usize, out: &mut String)
    requires
        t.well_formed(),
        depth + t.spec_depth() <= usize::MAX,
    ensures
        final(out)@ == old(out)@ + t.render_at(depth as nat),
    decreases *t,
{
    let v = match t.value {
        None => {
            proof {
                assert(old(out)@ + t.render_at(depth as nat) =~= old(out)@);
            }
            return ;
        },
        Some(v) => v,
    };
    push_indent(out, depth);
    push_signed(out, v);
    push_newline(out);
    match &t.left {
        None => {
        },
        Some(b) => {
            render_go(b, depth + 1, out);
        },
    }
    match &t.right {
        None => {
        },
        Some(b) => {
            render_go(b, depth + 1, out);
        },
    }
    proof {
        assert(out@ =~= old(out)@ + t.render_at(depth as nat));
    }
}

impl Default for BinaryTree {
    fn default() -> (t: Self)
        ensures
            t.well_formed(),
            t.as_set() == Set::<i64>::empty(),
            t.spec_depth() == 0,
    {
        let t = BinaryTree { value: None, left: None, right: None };
        proof {
            assert(t.as_set() =~= Set::<i64>::empty());
        }
        t
    }
}

} // verus!
