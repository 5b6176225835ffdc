//! Algorithms and data structures from an introductory algorithms course:
//! union-find variants, a percolation model, elementary and advanced sorts,
//! a binary-heap priority queue, linked lists, a double-ended queue, graphs
//! with depth- and breadth-first search, and left-leaning red-black
//! binary search trees.

pub mod black_red_bst;
pub mod deque;
pub mod graph;
pub mod graph_alg;
pub mod index_ops;
pub mod insertion_sort;
pub mod is_sorted;
pub mod knuth_shuffle;
pub mod linked_list;
pub mod max_pq;
pub mod merge_sort;
pub mod percolation;
pub mod performance;
pub mod quick_find;
pub mod quick_sort;
pub mod quick_union;
pub mod red_black_bst;
pub mod red_black_bst_2;
pub mod selection_sort;
pub mod shell_sort;
pub mod step;
pub mod weighted_quick_union;
