pub mod binary_tree;
pub mod bubble_sort;
pub mod collapse;
pub mod heap;
pub mod heap_kind;
pub mod heap_printer;
pub mod insertion_sort;
pub mod insertion_sort_smart;
pub mod quick_sort;
pub mod selection_sort;
pub mod seq_util;
pub mod sorter;
pub mod text;
pub mod tree_printer;
