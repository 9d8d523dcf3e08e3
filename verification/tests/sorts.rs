use dskit::bubble_sort::BubbleSort;
use dskit::collapse::CollapseExt;
use dskit::insertion_sort::InsertionSort;
use dskit::insertion_sort_smart::InsertionSortSmart;
use dskit::quick_sort::QuickSortAlloc;
use dskit::selection_sort::SelectionSort;
use dskit::sorter::Sorter;

fn check_all_cases<S: Sorter>(sorter: S) {
    let cases: Vec<(Vec<i64>, Vec<i64>)> = vec![
        (vec![1, 2, 3, 4, 5], vec![1, 2, 3, 4, 5]),
        (vec![5, 4, 3, 2, 1], vec![1, 2, 3, 4, 5]),
        (vec![1, 2, 5, 3, 4], vec![1, 2, 3, 4, 5]),
        (vec![3, 5, 2, 1, 4], vec![1, 2, 3, 4, 5]),
        (vec![], vec![]),
        (vec![1], vec![1]),
        (vec![1, 2], vec![1, 2]),
        (vec![2, 1], vec![1, 2]),
        (vec![2, -7, 2, 0, -7, 9], vec![-7, -7, 0, 2, 2, 9]),
    ];
    for (input, expected) in cases {
        let mut i = input.clone();
        sorter.sort(&mut i);
        assert_eq!(i, expected);
    }
}

#[test]
fn test_bubble_sort() {
    check_all_cases(BubbleSort);
}

#[test]
fn test_insertion_sort() {
    check_all_cases(InsertionSort);
}

#[test]
fn test_insertion_sort_smart() {
    check_all_cases(InsertionSortSmart);
}

#[test]
fn test_quick_sort() {
    check_all_cases(QuickSortAlloc);
}

#[test]
fn test_selection_sort() {
    check_all_cases(SelectionSort);
}

#[test]
fn test_collapse() {
    let a: Result<i64, i64> = Ok(5);
    let b: Result<i64, i64> = Err(7);
    assert_eq!(a.collapse(), 5);
    assert_eq!(b.collapse(), 7);
}
