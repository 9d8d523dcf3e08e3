use dskit::heap::{ancestors, Heap};
use dskit::heap_kind::{Max, Min};
use dskit::heap_printer::HeapPrinter;

#[test]
fn test_heap_sort() {
    let mut h = Heap::<Max>::new();
    for i in [2, 4, 5, 1, 3] {
        h.insert(i);
    }
    let s = h.sorted();
    assert_eq!(s, vec![1, 2, 3, 4, 5]);
}

#[test]
fn test_heap_sort_desc() {
    let mut h = Heap::<Min>::new();
    for i in [2, 4, 5, 1, 3] {
        h.insert(i);
    }
    let s = h.sorted();
    assert_eq!(s, vec![5, 4, 3, 2, 1]);
}

#[test]
fn test_pretty_print() {
    let mut h = Heap::<Max>::new();
    let mut f = Vec::new();
    for i in [2, 4, 6, 1, 3, 5] {
        h.insert(i);
        f.push(HeapPrinter(&h).render());
    }
    assert_eq!(
        f,
        vec![
            "2\n",
            "4\n    2\n",
            "6\n    2\n    4\n",
            "6\n    2\n        1\n    4\n",
            "6\n    3\n        1\n        2\n    4\n",
            "6\n    3\n        1\n        2\n    5\n        4\n",
        ]
    );
}

#[test]
fn test_print_empty_heap() {
    let h = Heap::<Max>::new();
    assert_eq!(HeapPrinter(&h).render(), "(empty heap)\n");
}

#[test]
fn test_empty_heap_behavior() {
    let mut h = Heap::<Max>::new();
    assert_eq!(h.remove(), None);
    assert_eq!(h.root(), None);
    assert_eq!(h.depth(), 0);
    assert!(h.is_empty());
    assert_eq!(h.len(), 0);
}

#[test]
fn test_size_changes_by_one() {
    let mut h = Heap::<Max>::new();
    for (k, i) in [7, 1, 9, 3].into_iter().enumerate() {
        h.insert(i);
        assert_eq!(h.len(), k + 1);
    }
    assert_eq!(h.remove(), Some(9));
    assert_eq!(h.len(), 3);
    assert_eq!(h.remove(), Some(7));
    assert_eq!(h.len(), 2);
    let mut empty = Heap::<Max>::new();
    assert_eq!(empty.remove(), None);
    assert_eq!(empty.len(), 0);
}

#[test]
fn test_tie_break_prefers_right_child() {
    // Children of the root carry equal priority; the removal must descend
    // into the right one, which the final layout shows.
    let mut h = Heap::<Max>::new();
    for i in [5, 3, 3, 1, 2] {
        h.insert(i);
    }
    for (k, v) in [5, 3, 3, 1, 2].into_iter().enumerate() {
        assert_eq!(h.get(k), Some(v));
    }
    assert_eq!(h.remove(), Some(5));
    assert_eq!(h.get(0), Some(3));
    assert_eq!(h.get(1), Some(3));
    assert_eq!(h.get(2), Some(2));
    assert_eq!(h.get(3), Some(1));
    assert_eq!(h.get(4), None);
}

#[test]
fn test_heap_order_after_mixed_calls() {
    let mut h = Heap::<Max>::new();
    for i in [5, 3, 4, 5, 2, 1, 6, 9, 8] {
        h.insert(i);
    }
    h.remove();
    h.remove();
    h.insert(7);
    // every child stays at or below its parent
    let n = h.len();
    for c in 1..n {
        let child = h.get(c).unwrap();
        let parent = h.parent(c).unwrap();
        assert!(child <= parent);
    }
}

#[test]
fn test_navigation() {
    let mut h = Heap::<Max>::new();
    for i in [6, 3, 5, 1, 2, 4] {
        h.insert(i);
    }
    assert_eq!(h.parent_index(0), None);
    assert_eq!(h.parent_index(1), Some(Ok(0)));
    assert_eq!(h.parent_index(2), Some(Ok(0)));
    assert_eq!(h.parent_index(5), Some(Ok(2)));
    assert_eq!(h.parent_index(6), Some(Err(2)));
    assert_eq!(h.parent_index(100), Some(Err(49)));
    assert_eq!(h.parent(3), Some(h.get(1).unwrap()));
    assert_eq!(h.parent(0), None);
    assert_eq!(Heap::<Max>::children_indexes(0), (1, 2));
    assert_eq!(Heap::<Max>::children_indexes(2), (5, 6));
    assert_eq!(h.children(2), (h.get(5), None));
    assert_eq!(h.children(5), (None, None));
    assert_eq!(h.root(), Some(6));
}

#[test]
fn test_depth_at() {
    assert_eq!(Heap::<Max>::depth_at(0), 1);
    assert_eq!(Heap::<Max>::depth_at(1), 2);
    assert_eq!(Heap::<Max>::depth_at(2), 2);
    assert_eq!(Heap::<Max>::depth_at(3), 3);
    assert_eq!(Heap::<Max>::depth_at(6), 3);
    assert_eq!(Heap::<Max>::depth_at(7), 4);
    let mut h = Heap::<Max>::new();
    for i in 0..7 {
        h.insert(i);
    }
    assert_eq!(h.depth(), 3);
}

#[test]
fn test_swap_with_parent() {
    let mut h = Heap::<Max>::new();
    h.insert(5);
    h.insert(3);
    assert_eq!(h.swap_with_parent(0), None);
    assert_eq!(h.swap_with_parent(7), None);
    assert_eq!(h.swap_with_parent(1), Some(0));
    assert_eq!(h.get(0), Some(3));
    assert_eq!(h.get(1), Some(5));
}

#[test]
fn test_ancestors() {
    let mut h = Heap::<Max>::new();
    for i in [9, 8, 6, 5, 3, 4, 2, 1] {
        h.insert(i);
    }
    // the heap lays out as inserted: each parent already dominates
    assert_eq!(ancestors(&h, 5), vec![4, 6, 9]);
    assert_eq!(ancestors(&h, 0), vec![9]);
    assert_eq!(ancestors(&h, 100), Vec::<i64>::new());
}

#[test]
fn test_sorted_with_duplicates() {
    let mut h = Heap::<Max>::new();
    for i in [4, 4, 1, 3, 1, 4] {
        h.insert(i);
    }
    assert_eq!(h.sorted(), vec![1, 1, 3, 4, 4, 4]);
}
