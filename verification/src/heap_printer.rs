use vstd::prelude::*;
use vstd::string::StringExecFns;

use crate::heap::{depth_of, lemma_depth_of_fits, Heap};
use crate::heap_kind::HeapKind;
use crate::text::{int_rep, push_newline, push_signed, push_spaces, spaces};

verus! {

/// The number of spaces one level of depth indents.
pub const INDENT_SIZE: usize = 4;

/// The pre-order rendering of the subtree rooted at slot `i`: the node's
/// value on a line of its own, indented by its depth, then the left
/// subtree, then the right one; empty for an absent slot.
pub open spec fn render_slot(s: Seq<i64>, i: int) -> Seq<char>
    decreases (if i < s.len() { s.len() - i } else { 0int }) when 0 <= i
{
    if i >= s.len() {
        Seq::empty()
    } else {
        spaces(((depth_of((i + 1) as nat) - 1) * INDENT_SIZE) as nat) + int_rep(s[i] as int)
            + seq!['\n'] + render_slot(s, 2 * i + 1) + render_slot(s, 2 * i + 2)
    }
}

/// The full text dump of a heap: a fixed note for the empty heap, the
/// rendering of the root's subtree otherwise.
pub open spec fn render_heap(s: Seq<i64>) -> Seq<char> {
    if s.len() == 0 {
        seq!['(', 'e', 'm', 'p', 't', 'y', ' ', 'h', 'e', 'a', 'p', ')', '\n']
    } else {
        render_slot(s, 0)
    }
}

/// Recursive depth-first renderer for a heap, for diagnostics and tests.
pub struct HeapPrinter<'a, K: HeapKind>(pub &'a Heap<K>);

impl<'a, K: HeapKind> HeapPrinter<'a, K> {
    /// Renders the heap as a depth-indented, pre-order text dump.
    pub fn render(&self) -> (out: String)
        ensures
            out@ == render_heap(self.0@),
    {
        let mut out = String::new();
        if self.0.is_empty() {
            proof {
                reveal_strlit("(empty heap)\n");
                assert("(empty heap)\n"@ =~= render_heap(self.0@));
            }
            out.append("(empty heap)\n");
        } else {
            render_go(self.0, 0, &mut out);
            proof {
                assert(out@ =~= render_heap(self.0@));
            }
        }
        out
    }
}

fn render_go<K: HeapKind>(heap: &Heap<K>, index: usize, out: &mut String)
    ensures
        final(out)@ == old(out)@ + render_slot(heap@, index as int),
    decreases heap@.len() - index,
{
    let n = heap.len();
    match heap.get(index) {
        None => {
            proof {
                assert(old(out)@ + render_slot(heap@, index as int) =~= old(out)@);
            }
        },
        Some(value) => {
            let depth = Heap::<K>::depth_at(index);
            proof {
                lemma_depth_of_fits((index + 1) as nat);
            }
            let indent = (depth - 1) * INDENT_SIZE;
            push_spaces(out, indent);
            push_signed(out, value);
            push_newline(out);
            if index <= (usize::MAX - 2) / 2 {
                let first = index * 2 + 1;
                if first < n {
                    render_go(heap, first, out);
                } else {
                    proof {
                        assert(render_slot(heap@, 2 * index as int + 1) =~= Seq::<char>::empty());
                    }
                }
                if first < n && first + 1 < n {
                    render_go(heap, first + 1, out);
                } else {
                    proof {
                        assert(render_slot(heap@, 2 * index as int + 2) =~= Seq::<char>::empty());
                    }
                }
            } else {
                proof {
                    assert(2 * index as int + 1 >= heap@.len());
                    assert(render_slot(heap@, 2 * index as int + 1) =~= Seq::<char>::empty());
                    assert(render_slot(heap@, 2 * index as int + 2) =~= Seq::<char>::empty());
                }
            }
            proof {
                assert(out@ =~= old(out)@ + render_slot(heap@, index as int));
            }
        },
    }
}

} // verus!
