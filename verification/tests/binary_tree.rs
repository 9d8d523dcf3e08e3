use dskit::binary_tree::BinaryTree;
use dskit::tree_printer::BinaryTreePrinter;

#[test]
fn lib_test_pretty_print() {
    let mut h = BinaryTree::new();
    let mut f = Vec::new();
    for i in [2, 4, 6, 1, 3, 5] {
        h.insert(i).unwrap();
        f.push(BinaryTreePrinter(&h).render());
    }
    assert_eq!(
        f,
        vec![
            "2\n",
            "2\n    4\n",
            "2\n    4\n        6\n",
            "2\n    1\n    4\n        6\n",
            "2\n    1\n    4\n        3\n        6\n",
            "2\n    1\n    4\n        3\n        6\n            5\n",
        ]
    );
}

#[test]
fn test_print_empty_tree() {
    let h = BinaryTree::new();
    assert_eq!(BinaryTreePrinter(&h).render(), "(empty binary tree)\n");
}

#[test]
fn test_depth_empty() {
    assert_eq!(BinaryTree::new().depth(), 0);
}

#[test]
fn test_depth_balanced() {
    let mut h = BinaryTree::new();
    for i in [4, 2, 6, 1, 3, 5, 7] {
        h.insert(i).unwrap();
    }
    assert_eq!(h.depth(), 3);
}

#[test]
fn test_depth_unbalanced() {
    let mut h = BinaryTree::new();
    for i in [1, 2, 3, 4, 5, 6, 7] {
        h.insert(i).unwrap();
    }
    assert_eq!(h.depth(), 7);
}

#[test]
fn test_contains() {
    let mut h = BinaryTree::new();
    for i in [4, 2, 6, 1, 3, 5, 7] {
        h.insert(i).unwrap();
    }
    for i in [1, 2, 3, 4, 5, 6, 7] {
        assert!(h.contains(i));
    }
    for i in [-2, -1, 0, 8, 9, 10] {
        assert!(!h.contains(i));
    }
}

#[test]
fn test_repeated_element() {
    let mut h = BinaryTree::new();
    h.insert(1).unwrap();
    h.insert(2).unwrap();
    assert_eq!(h.insert(2).unwrap_err(), 2);
}

#[test]
fn test_is_empty() {
    let mut h = BinaryTree::new();
    assert!(h.is_empty());
    h.insert(10).unwrap();
    assert!(!h.is_empty());
}
