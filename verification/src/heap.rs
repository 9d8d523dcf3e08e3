use vstd::prelude::*;
use vstd::arithmetic::power2::pow2;
use vstd::seq_lib::group_to_multiset_ensures;

use crate::heap_kind::HeapKind;
use crate::seq_util::{lemma_seq_swap_multiset, seq_swap, swap_elements};

verus! {

broadcast use group_to_multiset_ensures, vstd::multiset::group_multiset_axioms;

/// The array slot holding the parent of the node at position `i` (for `i >= 1`).
pub open spec fn parent_of(i: int) -> int {
    (i - 1) / 2
}

/// The heap-order invariant: no element must rise above its parent under the
/// policy `K`. This is what every public mutation of `Heap` preserves.
pub open spec fn heap_ordered<K: HeapKind>(s: Seq<i64>) -> bool {
    forall|i: int|
        #![trigger s[i]]
        1 <= i < s.len() ==> !K::spec_should_swap(s[i], s[parent_of(i)])
}

/// The depth of the slot whose one-based position is `pos`: the number of
/// times `pos` can be halved before it reaches 1, plus one. The root
/// (position 1) has depth 1.
pub open spec fn depth_of(pos: nat) -> nat
    decreases pos,
{
    if pos < 2 {
        1
    } else {
        1 + depth_of(pos / 2)
    }
}

/// What sifting the element at position `c` up towards the root leaves
/// behind: while the policy says the element must rise above its parent, the
/// two are exchanged.
pub open spec fn sift_up<K: HeapKind>(s: Seq<i64>, c: int) -> Seq<i64>
    decreases c,
{
    if c <= 0 {
        s
    } else {
        let p = parent_of(c);
        if 0 <= c < s.len() && K::spec_should_swap(s[c], s[p]) {
            sift_up::<K>(seq_swap(s, c, p), p)
        } else {
            s
        }
    }
}

/// Heap order everywhere except that the element at position `c` may still
/// have to rise: every other parent link is in order, and the children of
/// `c` would also sit correctly under the parent of `c`.
pub open spec fn heap_ordered_except_up<K: HeapKind>(s: Seq<i64>, c: int) -> bool {
    &&& forall|i: int|
        #![trigger s[i]]
        1 <= i < s.len() && i != c ==> !K::spec_should_swap(s[i], s[parent_of(i)])
    &&& (1 <= c < s.len() ==> forall|i: int|
        #![trigger s[i]]
        1 <= i < s.len() && parent_of(i) == c ==> !K::spec_should_swap(s[i], s[parent_of(c)]))
}

/// Sifting up from a position whose link is the only one possibly out of
/// order restores the heap-order invariant, keeping the multiset of values.
pub proof fn lemma_sift_up_ok<K: HeapKind>(s: Seq<i64>, c: int)
    requires
        0 <= c < s.len(),
        heap_ordered_except_up::<K>(s, c),
    ensures
        heap_ordered::<K>(sift_up::<K>(s, c)),
        sift_up::<K>(s, c).to_multiset() == s.to_multiset(),
        sift_up::<K>(s, c).len() == s.len(),
    decreases c,
{
    if c == 0 {
        assert(heap_ordered::<K>(s));
    } else {
        let p = parent_of(c);
        if K::spec_should_swap(s[c], s[p]) {
            let t = seq_swap(s, c, p);
            lemma_seq_swap_multiset(s, c, p);
            assert forall|i: int|
                1 <= i < t.len() && i != p implies !K::spec_should_swap(
                #[trigger] t[i],
                t[parent_of(i)],
            ) by {
                if i == c {
                    K::lemma_policy_total_order(s[p], s[c], s[c]);
                } else if parent_of(i) == c {
                    assert(!K::spec_should_swap(s[i], s[parent_of(c)]));
                } else if parent_of(i) == p {
                    K::lemma_policy_total_order(s[p], s[c], s[c]);
                    K::lemma_policy_total_order(s[i], s[p], s[c]);
                } else {
                    assert(!K::spec_should_swap(s[i], s[parent_of(i)]));
                }
            }
            if p >= 1 {
                assert forall|i: int|
                    1 <= i < t.len() && parent_of(i) == p implies !K::spec_should_swap(
                    #[trigger] t[i],
                    t[parent_of(p)],
                ) by {
                    let gp = parent_of(p);
                    if i == c {
                        assert(!K::spec_should_swap(s[p], s[gp]));
                    } else {
                        K::lemma_policy_total_order(s[i], s[p], s[gp]);
                    }
                }
            }
            assert(heap_ordered_except_up::<K>(t, p));
            lemma_sift_up_ok::<K>(t, p);
        } else {
            assert(heap_ordered::<K>(s));
        }
    }
}

/// What sifting the element at position `d` down into the tree leaves
/// behind: while the policy says the higher-priority child must rise above
/// the element, the two are exchanged. When both children exist and neither
/// is strictly higher than the other, the right child is preferred.
pub open spec fn sift_down<K: HeapKind>(s: Seq<i64>, d: int) -> Seq<i64>
    decreases s.len() - d when 0 <= d
{
    let l = 2 * d + 1;
    let r = 2 * d + 2;
    if l >= s.len() {
        s
    } else {
        let c = if r >= s.len() || K::spec_should_swap(s[l], s[r]) {
            l
        } else {
            r
        };
        if K::spec_should_swap(s[c], s[d]) {
            sift_down::<K>(seq_swap(s, d, c), c)
        } else {
            s
        }
    }
}

/// Heap order everywhere except that the element at position `d` may still
/// have to descend: every parent link not ending at `d` is in order, and
/// the children of `d` would also sit correctly under the parent of `d`.
pub open spec fn heap_ordered_except_down<K: HeapKind>(s: Seq<i64>, d: int) -> bool {
    &&& forall|i: int|
        #![trigger s[i]]
        1 <= i < s.len() && parent_of(i) != d ==> !K::spec_should_swap(s[i], s[parent_of(i)])
    &&& (1 <= d ==> forall|i: int|
        #![trigger s[i]]
        1 <= i < s.len() && parent_of(i) == d ==> !K::spec_should_swap(s[i], s[parent_of(d)]))
}

/// Sifting down from a position whose child links are the only ones
/// possibly out of order restores the heap-order invariant, keeping the
/// multiset of values.
pub proof fn lemma_sift_down_ok<K: HeapKind>(s: Seq<i64>, d: int)
    requires
        0 <= d <= s.len(),
        heap_ordered_except_down::<K>(s, d),
    ensures
        heap_ordered::<K>(sift_down::<K>(s, d)),
        sift_down::<K>(s, d).to_multiset() == s.to_multiset(),
        sift_down::<K>(s, d).len() == s.len(),
    decreases s.len() - d,
{
    let l = 2 * d + 1;
    let r = 2 * d + 2;
    if l >= s.len() {
        assert forall|i: int| 1 <= i < s.len() implies !K::spec_should_swap(
            #[trigger] s[i],
            s[parent_of(i)],
        ) by {
            assert(parent_of(i) != d);
        }
    } else {
        let c = if r >= s.len() || K::spec_should_swap(s[l], s[r]) {
            l
        } else {
            r
        };
        assert(parent_of(c) == d);
        if K::spec_should_swap(s[c], s[d]) {
            let t = seq_swap(s, d, c);
            lemma_seq_swap_multiset(s, d, c);
            assert forall|i: int|
                1 <= i < t.len() && parent_of(i) != c implies !K::spec_should_swap(
                #[trigger] t[i],
                t[parent_of(i)],
            ) by {
                if i == c {
                    K::lemma_policy_total_order(s[d], s[c], s[c]);
                } else if i == d {
                    assert(!K::spec_should_swap(s[c], s[parent_of(d)]));
                } else if parent_of(i) == d {
                    if c == l && i == r {
                        K::lemma_policy_total_order(s[r], s[l], s[l]);
                    }
                    assert(!K::spec_should_swap(s[i], s[c]));
                } else {
                    assert(!K::spec_should_swap(s[i], s[parent_of(i)]));
                }
            }
            assert forall|i: int|
                1 <= i < t.len() && parent_of(i) == c implies !K::spec_should_swap(
                #[trigger] t[i],
                t[parent_of(c)],
            ) by {
                assert(t[i] == s[i]);
                assert(!K::spec_should_swap(s[i], s[c]));
            }
            assert(heap_ordered_except_down::<K>(t, c));
            lemma_sift_down_ok::<K>(t, c);
        } else {
            assert forall|i: int| 1 <= i < s.len() implies !K::spec_should_swap(
                #[trigger] s[i],
                s[parent_of(i)],
            ) by {
                if parent_of(i) == d {
                    if i != c {
                        if c == l {
                            K::lemma_policy_total_order(s[r], s[l], s[d]);
                        } else {
                            K::lemma_policy_total_order(s[l], s[r], s[d]);
                        }
                    }
                }
            }
        }
    }
}

/// The window left behind by one logical removal on the non-empty window
/// `w`: the root and the last element exchange places, the window shrinks
/// by one, and the new root is sifted down.
pub open spec fn removed_window<K: HeapKind>(w: Seq<i64>) -> Seq<i64> {
    sift_down::<K>(seq_swap(w, 0, w.len() - 1).take(w.len() - 1), 0)
}

/// Sorted by rising priority under the policy `K`: the policy never asks
/// to swap an earlier element above a later (or the same) one.
pub open spec fn sorted_by<K: HeapKind>(s: Seq<i64>) -> bool {
    forall|i: int, j: int|
        0 <= i <= j < s.len() ==> !K::spec_should_swap(#[trigger] s[i], #[trigger] s[j])
}

/// Under the `Max` policy, sorted by rising priority is numerically
/// non-decreasing.
pub proof fn lemma_max_sorted_is_non_decreasing(s: Seq<i64>)
    requires
        sorted_by::<crate::heap_kind::Max>(s),
    ensures
        forall|i: int, j: int| 0 <= i <= j < s.len() ==> #[trigger] s[i] <= #[trigger] s[j],
{
}

/// Under the `Min` policy, sorted by rising priority is numerically
/// non-increasing.
pub proof fn lemma_min_sorted_is_non_increasing(s: Seq<i64>)
    requires
        sorted_by::<crate::heap_kind::Min>(s),
    ensures
        forall|i: int, j: int| 0 <= i <= j < s.len() ==> #[trigger] s[i] >= #[trigger] s[j],
{
}

/// In a heap-ordered sequence, no element must rise above the root.
pub proof fn lemma_heap_ordered_root_top<K: HeapKind>(s: Seq<i64>)
    requires
        heap_ordered::<K>(s),
    ensures
        forall|i: int| 0 <= i < s.len() ==> !K::spec_should_swap(#[trigger] s[i], s[0]),
{
    assert forall|i: int| 0 <= i < s.len() implies !K::spec_should_swap(
        #[trigger] s[i],
        s[0],
    ) by {
        lemma_stays_below_root::<K>(s, i);
    }
}

proof fn lemma_stays_below_root<K: HeapKind>(s: Seq<i64>, i: int)
    requires
        heap_ordered::<K>(s),
        0 <= i < s.len(),
    ensures
        !K::spec_should_swap(s[i], s[0]),
    decreases i,
{
    if i == 0 {
        K::lemma_policy_total_order(s[0], s[0], s[0]);
    } else {
        lemma_stays_below_root::<K>(s, parent_of(i));
        K::lemma_policy_total_order(s[i], s[parent_of(i)], s[0]);
    }
}

/// Array-backed binary heap over a pluggable ordering policy.
///
/// Index 0 is the root; the children of slot `i` live at `2 * i + 1` and
/// `2 * i + 2`. The policy `K` decides max-heap or min-heap behaviour.
pub struct Heap<K: HeapKind> {
    inner: Vec<i64>,
    kind: core::marker::PhantomData<K>,
}

impl<K: HeapKind> View for Heap<K> {
    type V = Seq<i64>;

    closed spec fn view(&self) -> Seq<i64> {
        self.inner@
    }
}

impl<K: HeapKind> Heap<K> {
    /// The heap-order invariant, phrased on the heap itself.
    pub open spec fn well_formed(self) -> bool {
        heap_ordered::<K>(self@)
    }

    /// Constructs a new, empty, heap.
    pub fn new() -> (h: Self)
        ensures
            h.well_formed(),
            h@ == Seq::<i64>::empty(),
    {
        Self { inner: Vec::new(), kind: core::marker::PhantomData }
    }

    /// Returns the length of the heap.
    pub fn len(&self) -> (n: usize)
        ensures
            n == self@.len(),
    {
        self.inner.len()
    }

    /// Checks whether the heap is empty.
    pub fn is_empty(&self) -> (r: bool)
        ensures
            r == (self@.len() == 0),
    {
        self.inner.len() == 0
    }

    /// Returns the element at the given position, or absence when the
    /// position is out of bounds.
    pub fn get(&self, index: usize) -> (r: Option<i64>)
        ensures
            r == if index < self@.len() {
                Some(self@[index as int])
            } else {
                None::<i64>
            },
    {
        if index < self.inner.len() {
            Some(self.inner[index])
        } else {
            None
        }
    }

    /// Returns the root element, or absence when the heap is empty.
    pub fn root(&self) -> (r: Option<i64>)
        ensures
            r == if self@.len() > 0 {
                Some(self@[0])
            } else {
                None::<i64>
            },
    {
        self.get(0)
    }

    /// Returns the parent slot of the given position: absence for the root,
    /// `Ok` for a populated position, and `Err` (a hypothetical future slot)
    /// when the position itself is beyond the current bounds.
    pub fn parent_index(&self, index: usize) -> (r: Option<Result<usize, usize>>)
        ensures
            index == 0 ==> r is None,
            0 < index < self@.len() ==> r == Some(Result::<usize, usize>::Ok(
                parent_of(index as int) as usize,
            )),
            index >= self@.len() && index > 0 ==> r == Some(Result::<usize, usize>::Err(
                parent_of(index as int) as usize,
            )),
    {
        if index == 0 {
            None
        } else if index < self.inner.len() {
            Some(Ok((index - 1) / 2))
        } else {
            Some(Err((index - 1) / 2))
        }
    }

    /// Returns the value of the parent of the node at the given position,
    /// dereferencing the populated case of `parent_index` only.
    pub fn parent(&self, index: usize) -> (r: Option<i64>)
        ensures
            r == if 0 < index < self@.len() {
                Some(self@[parent_of(index as int)])
            } else {
                None::<i64>
            },
    {
        if index > 0 && index < self.inner.len() {
            Some(self.inner[(index - 1) / 2])
        } else {
            None
        }
    }

    /// Returns the slots where the children of the node at the given
    /// position live; pure arithmetic, no bounds check.
    pub fn children_indexes(index: usize) -> (r: (usize, usize))
        requires
            index <= (usize::MAX - 2) / 2,
        ensures
            r.0 == 2 * index + 1,
            r.1 == 2 * index + 2,
    {
        let first = index * 2 + 1;
        (first, first + 1)
    }

    /// Returns the values of the two children of the node at the given
    /// position, each absent when its slot is out of bounds.
    pub fn children(&self, index: usize) -> (r: (Option<i64>, Option<i64>))
        ensures
            r.0 == if 2 * index + 1 < self@.len() {
                Some(self@[2 * index + 1])
            } else {
                None::<i64>
            },
            r.1 == if 2 * index + 2 < self@.len() {
                Some(self@[2 * index + 2])
            } else {
                None::<i64>
            },
    {
        let len = self.inner.len();
        if index < len / 2 {
            let first = index * 2 + 1;
            let a = Some(self.inner[first]);
            let b = if first + 1 < len {
                Some(self.inner[first + 1])
            } else {
                None
            };
            (a, b)
        } else {
            (None, None)
        }
    }

    /// Inserts a new element at the end of the internal buffer and returns
    /// its slot.
    fn put(&mut self, value: i64) -> (c: usize)
        ensures
            final(self)@ == old(self)@.push(value),
            c == old(self)@.len(),
    {
        self.inner.push(value);
        self.inner.len() - 1
    }

    /// Swaps the node at the given position with its parent and returns the
    /// parent position; a no-op returning absence when no populated parent
    /// exists (the root, or a position out of bounds).
    pub fn swap_with_parent(&mut self, index: usize) -> (r: Option<usize>)
        ensures
            (index == 0 || index >= old(self)@.len()) ==> r is None && final(self)@ == old(
                self,
            )@,
            0 < index < old(self)@.len() ==> {
                &&& r == Some(parent_of(index as int) as usize)
                &&& final(self)@ == seq_swap(old(self)@, index as int, parent_of(index as int))
            },
    {
        if index == 0 || index >= self.inner.len() {
            None
        } else {
            let p = (index - 1) / 2;
            swap_elements(&mut self.inner, index, p);
            Some(p)
        }
    }

    /// Inserts the given value: appends it and restores heap order by
    /// sifting it up. The result is exactly `sift_up` applied to the
    /// appended sequence, so the length grows by one and the values gain
    /// one occurrence of `value`.
    pub fn insert(&mut self, value: i64)
        requires
            old(self).well_formed(),
        ensures
            final(self).well_formed(),
            final(self)@ == sift_up::<K>(old(self)@.push(value), old(self)@.len() as int),
            final(self)@.len() == old(self)@.len() + 1,
            final(self)@.to_multiset() == old(self)@.to_multiset().insert(value),
    {
        let mut c = self.put(value);
        let ghost s0 = self@;
        let ghost c0 = c as int;
        proof {
            assert(heap_ordered_except_up::<K>(s0, c0));
            lemma_sift_up_ok::<K>(s0, c0);
        }
        loop
            invariant
                c < self@.len(),
                self@.len() == s0.len(),
                sift_up::<K>(self@, c as int) == sift_up::<K>(s0, c0),
            ensures
                self@ == sift_up::<K>(s0, c0),
            decreases c,
        {
            if c == 0 {
                proof {
                    assert(sift_up::<K>(self@, 0) == self@);
                }
                break;
            }
            let p = (c - 1) / 2;
            if K::should_swap(self.inner[c], self.inner[p]) {
                self.swap_with_parent(c);
                c = p;
            } else {
                proof {
                    assert(sift_up::<K>(self@, c as int) == self@);
                }
                break;
            }
        }
    }

    /// Removes the root element: the highest-priority element under the
    /// policy. The root and the last element exchange places, the heap
    /// shrinks by one, and the new root is sifted down; absence is returned
    /// on an empty heap, which is left untouched.
    pub fn remove(&mut self) -> (r: Option<i64>)
        requires
            old(self).well_formed(),
        ensures
            final(self).well_formed(),
            old(self)@.len() == 0 ==> r is None && final(self)@ == old(self)@,
            old(self)@.len() > 0 ==> {
                &&& r == Some(old(self)@[0])
                &&& final(self)@ == removed_window::<K>(old(self)@)
                &&& final(self)@.len() == old(self)@.len() - 1
                &&& final(self)@.to_multiset().insert(old(self)@[0]) == old(self)@.to_multiset()
                &&& forall|j: int|
                    0 <= j < final(self)@.len() ==> !K::spec_should_swap(
                        #[trigger] final(self)@[j],
                        old(self)@[0],
                    )
            },
    {
        let n = self.inner.len();
        if n == 0 {
            return None;
        }
        let ghost s = self.inner@;
        proof {
            assert(s.take(n as int) =~= s);
        }
        Self::logical_remove(&mut self.inner, n);
        proof {
            let res = removed_window::<K>(s);
            assert(self.inner@ == res + seq![s[0]] + s.skip(n as int));
            assert(s.skip(n as int) =~= Seq::<i64>::empty());
            assert(self.inner@ =~= res.push(s[0]));
            assert(self.inner@.subrange(0, self.inner@.len() - 1) =~= res);
        }
        self.inner.pop()
    }

    /// Consumes the heap, returning its elements ordered by rising
    /// priority: the policy never asks to swap an earlier element above a
    /// later one. A max-policy heap thus comes out non-decreasing, a
    /// min-policy heap non-increasing, with exactly the values the heap
    /// held.
    pub fn sorted(self) -> (r: Vec<i64>)
        requires
            self.well_formed(),
        ensures
            r@.len() == self@.len(),
            r@.to_multiset() == self@.to_multiset(),
            sorted_by::<K>(r@),
    {
        let mut xs = self.inner;
        let ghost orig = xs@;
        let n = xs.len();
        let mut len = n;
        proof {
            assert(orig.take(n as int) =~= orig);
        }
        while len > 1
            invariant
                1 <= len <= n || (len == n == 0),
                n == xs@.len(),
                heap_ordered::<K>(xs@.take(len as int)),
                xs@.to_multiset() == orig.to_multiset(),
                forall|i: int, j: int|
                    len <= i <= j < n ==> !K::spec_should_swap(#[trigger] xs@[i], #[trigger] xs@[j]),
                forall|i: int, j: int|
                    0 <= i < len <= j < n ==> !K::spec_should_swap(
                        #[trigger] xs@[i],
                        #[trigger] xs@[j],
                    ),
            decreases len,
        {
            let ghost prev = xs@;
            let ghost w = prev.take(len as int);
            Self::logical_remove(&mut xs, len);
            proof {
                let res = removed_window::<K>(w);
                assert(xs@ == res + seq![w[0]] + prev.skip(len as int));
                assert(res.len() == len - 1);
                assert forall|i: int| 0 <= i < n implies ((i < len - 1 ==> xs@[i] == res[i]) && (i
                    == len - 1 ==> xs@[i] == w[0]) && (i >= len ==> xs@[i] == prev[i])) by {
                    if i >= len {
                        assert(prev.skip(len as int)[i - len] == prev[i]);
                    }
                }
                assert(xs@.take(len - 1) =~= res);
                // the multiset of the whole vector is unchanged
                vstd::seq_lib::lemma_multiset_commutative(res + seq![w[0]], prev.skip(len as int));
                assert(res + seq![w[0]] =~= res.push(w[0]));
                assert(res.push(w[0]).to_multiset() == res.to_multiset().insert(w[0]));
                assert((res + seq![w[0]]).to_multiset() == w.to_multiset());
                assert(prev =~= w + prev.skip(len as int));
                vstd::seq_lib::lemma_multiset_commutative(w, prev.skip(len as int));
                assert(xs@.to_multiset() == prev.to_multiset());
                // every element of the shrunk window stays below every
                // parked element
                assert forall|i: int, j: int|
                    0 <= i < len - 1 <= j < n implies !K::spec_should_swap(
                    #[trigger] xs@[i],
                    #[trigger] xs@[j],
                ) by {
                    let x = res[i];
                    assert(res[i] == x && 0 <= i < res.len());
                    assert(res.contains(x));
                    assert(res.to_multiset().count(x) > 0);
                    assert(res.to_multiset().insert(w[0]).count(x) > 0);
                    assert(w.to_multiset().count(x) > 0);
                    assert(w.contains(x));
                    let k = choose|k: int| 0 <= k < w.len() && w[k] == x;
                    if j == len - 1 {
                        assert(!K::spec_should_swap(res[i], w[0]));
                    } else {
                        assert(prev[k] == w[k]);
                        assert(!K::spec_should_swap(prev[k], prev[j]));
                    }
                }
                // the parked elements stay sorted among themselves
                assert forall|i: int, j: int|
                    len - 1 <= i <= j < n implies !K::spec_should_swap(
                    #[trigger] xs@[i],
                    #[trigger] xs@[j],
                ) by {
                    if i == len - 1 {
                        if j == len - 1 {
                            K::lemma_policy_total_order(w[0], w[0], w[0]);
                        } else {
                            assert(!K::spec_should_swap(prev[0], prev[j]));
                        }
                    } else {
                        assert(!K::spec_should_swap(prev[i], prev[j]));
                    }
                }
            }
            len = len - 1;
        }
        proof {
            assert forall|i: int, j: int| 0 <= i <= j < n implies !K::spec_should_swap(
                #[trigger] xs@[i],
                #[trigger] xs@[j],
            ) by {
                if i == j {
                    K::lemma_policy_total_order(xs@[i], xs@[i], xs@[i]);
                } else if i < len {
                    assert(!K::spec_should_swap(xs@[i], xs@[j]));
                }
            }
        }
        xs
    }

    /// Checks whether the slot `index` is a leaf in a heap of length `len`.
    fn is_leaf(len: usize, index: usize) -> (r: bool)
        ensures
            r == (index >= len / 2),
    {
        index >= len / 2
    }

    /// Checks whether the slot `index` has any children in a heap of length
    /// `len`.
    fn has_any_children(len: usize, index: usize) -> (r: bool)
        ensures
            r == (index < len / 2),
    {
        !Self::is_leaf(len, index)
    }

    /// Returns the position of the child of `parent` that takes priority
    /// under the policy, within the window of the first `len` slots of
    /// `xs`; absence when `parent` has no child there. When both children
    /// exist and neither is strictly higher than the other, the right one
    /// is returned.
    fn highest_child(xs: &Vec<i64>, len: usize, parent: usize) -> (r: Option<usize>)
        requires
            len <= xs@.len(),
        ensures
            parent >= len / 2 ==> r is None,
            parent < len / 2 ==> {
                let l = 2 * parent as int + 1;
                let rr = 2 * parent as int + 2;
                let c = if rr >= len || K::spec_should_swap(xs@[l], xs@[rr]) {
                    l
                } else {
                    rr
                };
                r == Some(c as usize) && parent < c < len
            },
    {
        if !Self::has_any_children(len, parent) {
            return None;
        }
        let l = 2 * parent + 1;
        let r = l + 1;
        let has_right_child = r < len;
        if !has_right_child || K::should_swap(xs[l], xs[r]) {
            Some(l)
        } else {
            Some(r)
        }
    }

    /// Logically removes the root of the window made of the first `len`
    /// slots of `xs`: the root is exchanged with the window's last element
    /// and parked there, and the shrunk window is sifted back into heap
    /// order. Returns whether anything was removed (the window was not
    /// empty). Slots beyond the window are untouched.
    fn logical_remove(xs: &mut Vec<i64>, len: usize) -> (r: bool)
        requires
            len <= old(xs)@.len(),
            heap_ordered::<K>(old(xs)@.take(len as int)),
        ensures
            r == (len > 0),
            final(xs)@.len() == old(xs)@.len(),
            len == 0 ==> final(xs)@ == old(xs)@,
            len > 0 ==> ({
                let w = old(xs)@.take(len as int);
                let res = removed_window::<K>(w);
                &&& final(xs)@ == res + seq![w[0]] + old(xs)@.skip(len as int)
                &&& res.len() == len - 1
                &&& heap_ordered::<K>(res)
                &&& res.to_multiset().insert(w[0]) == w.to_multiset()
                &&& forall|j: int|
                    0 <= j < res.len() ==> !K::spec_should_swap(#[trigger] res[j], w[0])
            }),
    {
        if len == 0 {
            return false;
        }
        let ghost orig = xs@;
        let ghost w = orig.take(len as int);
        let last = len - 1;
        swap_elements(xs, 0, last);
        let ghost w0 = xs@.take(last as int);
        let ghost tail0 = xs@.skip(last as int);
        proof {
            assert(w0 =~= seq_swap(w, 0, last as int).take(last as int));
            assert forall|i: int|
                1 <= i < w0.len() && parent_of(i) != 0 implies !K::spec_should_swap(
                #[trigger] w0[i],
                w0[parent_of(i)],
            ) by {
                assert(w0[i] == w[i]);
                assert(w0[parent_of(i)] == w[parent_of(i)]);
            }
            assert(heap_ordered_except_down::<K>(w0, 0));
            lemma_sift_down_ok::<K>(w0, 0);
        }
        let mut parent: usize = 0;
        loop
            invariant
                len == last + 1,
                len <= orig.len(),
                xs@.len() == orig.len(),
                parent <= last,
                sift_down::<K>(xs@.take(last as int), parent as int) == sift_down::<K>(w0, 0),
                xs@.skip(last as int) == tail0,
            ensures
                xs@.take(last as int) == sift_down::<K>(w0, 0),
                xs@.skip(last as int) == tail0,
                xs@.len() == orig.len(),
            decreases last - parent,
        {
            let ghost win = xs@.take(last as int);
            match Self::highest_child(xs, last, parent) {
                None => {
                    proof {
                        assert(sift_down::<K>(win, parent as int) == win);
                    }
                    break;
                },
                Some(child) => {
                    if K::should_swap(xs[child], xs[parent]) {
                        proof {
                            assert(sift_down::<K>(win, parent as int) == sift_down::<K>(
                                seq_swap(win, parent as int, child as int),
                                child as int,
                            ));
                        }
                        swap_elements(xs, parent, child);
                        proof {
                            assert(xs@.take(last as int) =~= seq_swap(
                                win,
                                parent as int,
                                child as int,
                            ));
                            assert(xs@.skip(last as int) =~= tail0);
                        }
                        parent = child;
                    } else {
                        proof {
                            assert(sift_down::<K>(win, parent as int) == win);
                        }
                        break;
                    }
                },
            }
        }
        proof {
            let res = sift_down::<K>(w0, 0);
            assert(res.len() == last);
            assert(tail0 =~= seq![w[0]] + orig.skip(len as int));
            assert(xs@ =~= xs@.take(last as int) + xs@.skip(last as int));
            assert(xs@ =~= res + seq![w[0]] + orig.skip(len as int));
            let sw = seq_swap(w, 0, last as int);
            lemma_seq_swap_multiset(w, 0, last as int);
            assert(sw =~= sw.take(last as int).push(sw[last as int]));
            assert(sw.to_multiset() == w0.to_multiset().insert(w[0]));
            lemma_heap_ordered_root_top::<K>(w);
            assert forall|j: int| 0 <= j < res.len() implies !K::spec_should_swap(
                #[trigger] res[j],
                w[0],
            ) by {
                let x = res[j];
                assert(res.contains(x));
                assert(res.to_multiset().count(x) > 0);
                assert(w.to_multiset().count(x) > 0);
                assert(w.contains(x));
                let k = choose|k: int| 0 <= k < w.len() && w[k] == x;
                assert(!K::spec_should_swap(w[k], w[0]));
            }
        }
        true
    }

    /// Returns the theoretical depth of the slot at the given position;
    /// a pure function of the position, independent of the heap contents.
    pub fn depth_at(index: usize) -> (d: usize)
        requires
            index < usize::MAX,
        ensures
            d == depth_of((index + 1) as nat),
            d >= 1,
    {
        let ghost pos0 = (index + 1) as nat;
        let mut p: usize = index + 1;
        let mut d: usize = 1;
        proof {
            lemma_depth_of_at_least_one(p as nat);
            vstd::arithmetic::power2::lemma2_to64();
            lemma_depth_of_bound(pos0, 64);
        }
        while p >= 2
            invariant
                1 <= p,
                depth_of(pos0) == depth_of(p as nat) + d - 1,
                1 <= d <= depth_of(pos0),
                depth_of(pos0) <= 64,
            decreases p,
        {
            proof {
                lemma_depth_of_at_least_one((p / 2) as nat);
            }
            p = p / 2;
            d = d + 1;
        }
        d
    }

    /// Returns the depth of the deepest populated slot, or 0 for an empty
    /// heap.
    pub fn depth(&self) -> (d: usize)
        ensures
            self@.len() == 0 ==> d == 0,
            self@.len() > 0 ==> d == depth_of(self@.len() as nat),
    {
        let n = self.inner.len();
        if n == 0 {
            0
        } else {
            Self::depth_at(n - 1)
        }
    }
}

/// The chain of values from position `i` up to the root: the value at `i`
/// first, then those of its ancestors; empty when `i` is out of bounds.
pub open spec fn ancestors_of(s: Seq<i64>, i: int) -> Seq<i64>
    decreases i,
{
    if !(0 <= i < s.len()) {
        Seq::empty()
    } else if i == 0 {
        seq![s[0]]
    } else {
        seq![s[i]] + ancestors_of(s, parent_of(i))
    }
}

/// Collects the value at the given position and the values of all its
/// ancestors, walking `parent_index` up to the root; empty when the
/// position is not populated.
pub fn ancestors<K: HeapKind>(heap: &Heap<K>, index: usize) -> (r: Vec<i64>)
    ensures
        r@ == ancestors_of(heap@, index as int),
{
    let mut out: Vec<i64> = Vec::new();
    let mut c = index;
    loop
        invariant_except_break
            out@ + ancestors_of(heap@, c as int) == ancestors_of(heap@, index as int),
        ensures
            out@ == ancestors_of(heap@, index as int),
        decreases c,
    {
        match heap.get(c) {
            None => {
                proof {
                    assert(out@ + ancestors_of(heap@, c as int) =~= out@);
                }
                break;
            },
            Some(value) => {
                out.push(value);
                if c == 0 {
                    proof {
                        assert(out@ =~= ancestors_of(heap@, index as int));
                    }
                    break;
                }
                proof {
                    assert(out@ + ancestors_of(heap@, parent_of(c as int)) =~= ancestors_of(
                        heap@,
                        index as int,
                    ));
                }
                c = (c - 1) / 2;
            },
        }
    }
    out
}

/// Every slot has depth at least 1.
proof fn lemma_depth_of_at_least_one(pos: nat)
    ensures
        depth_of(pos) >= 1,
    decreases pos,
{
    if pos >= 2 {
        lemma_depth_of_at_least_one(pos / 2);
    }
}

/// Any position that fits in memory has a small depth.
pub proof fn lemma_depth_of_fits(pos: nat)
    requires
        1 <= pos <= usize::MAX,
    ensures
        depth_of(pos) <= 64,
{
    vstd::arithmetic::power2::lemma2_to64();
    lemma_depth_of_bound(pos, 64);
}

/// A position below `pow2(k)` has depth at most `k`.
proof fn lemma_depth_of_bound(pos: nat, k: nat)
    requires
        1 <= pos < pow2(k),
    ensures
        depth_of(pos) <= k,
    decreases pos,
{
    vstd::arithmetic::power2::lemma2_to64();
    if k == 0 {
        assert(false);
    } else {
        vstd::arithmetic::power2::lemma_pow2_unfold(k);
        if pos >= 2 {
            lemma_depth_of_bound(pos / 2, (k - 1) as nat);
        }
    }
}

} // verus!
