use algorithms::is_sorted::is_sorted;
use algorithms::max_pq::{heap_sort, make_heap, sink, MaxPQ};

fn parent_of(k: usize) -> usize {
    ((k + 1) / 2) - 1
}

fn is_binary_heap(vec: &Vec<i64>) -> bool {
    let size = vec.len();
    if size <= 1 {
        true
    } else {
        for k in 1..size {
            if vec[parent_of(k)] < vec[k] {
                return false;
            }
        }
        true
    }
}

#[test]
fn test_is_binary_heap() {
    assert_eq!(is_binary_heap(&vec!(19, 18, 17, 16, 15, 14, 13, 12, 11, 10)), true);
    assert_eq!(is_binary_heap(&vec!(10, 10, 10, 10, 10, 10, 10, 10, 10, 10)), true);
    assert_eq!(is_binary_heap(&vec!(34, 30, 29, 27, 25, 17, 16, 19, 22, 24)), true);
    assert_eq!(is_binary_heap(&vec!(30, 27, 23, 17, 16, 15, 14, 13, 18, 11)), false);
}

#[test]
fn test_insert() {
    {
        let mut vec: Vec<i64> = vec![19, 18, 17, 16, 15, 14, 13, 12, 11, 10];
        vec.heap_insert(16);
        assert!(is_binary_heap(&vec));
    }
    {
        let mut vec: Vec<i64> = vec![19, 18, 17, 16, 15, 14, 13, 12, 11, 10];
        vec.heap_insert(12);
        assert!(is_binary_heap(&vec));
    }
    {
        let mut vec: Vec<i64> = vec![10, 10, 10, 10, 10, 10, 10, 10, 10, 10];
        vec.heap_insert(9);
        assert!(is_binary_heap(&vec));
    }
    {
        let mut vec: Vec<i64> = vec![10, 10, 10, 10, 10, 10, 10, 10, 10, 10];
        vec.heap_insert(12);
        assert!(is_binary_heap(&vec));
    }
    {
        let mut vec: Vec<i64> = vec![10, 10, 10, 10, 10, 10, 10, 10, 10, 10];
        vec.heap_insert(10);
        assert!(is_binary_heap(&vec));
    }
}

#[test]
fn test_del_max() {
    {
        let mut vec: Vec<i64> = vec![];
        assert_eq!(vec.del_max(), None);
        assert!(is_binary_heap(&vec));
    }
    {
        let mut vec: Vec<i64> = vec![32];
        assert_eq!(vec.del_max(), Some(32));
        assert!(is_binary_heap(&vec));
        assert!(MaxPQ::is_empty(&vec));
    }
    {
        let mut vec: Vec<i64> = vec![19, 18, 17, 16, 15, 14, 13, 12, 11, 10];
        assert_eq!(vec.del_max(), Some(19));
        assert!(is_binary_heap(&vec));
        assert_eq!(vec.len(), 9);
    }
    {
        let mut vec: Vec<i64> = vec![10, 10, 10, 10, 10, 10, 10, 10, 10, 10];
        assert_eq!(vec.del_max(), Some(10));
        assert!(is_binary_heap(&vec));
        assert_eq!(vec.len(), 9);
    }
}

#[test]
fn test_manual_sinking() {
    let mut vec: Vec<i64> = vec![1, 89, 4, 78, 4, 9, 346, 9, 3, 56, 2, 56, 2, 6];
    sink(&mut vec, 6);
    assert_eq!(vec, vec!(1, 89, 4, 78, 4, 9, 346, 9, 3, 56, 2, 56, 2, 6));
    sink(&mut vec, 5);
    assert_eq!(vec, vec!(1, 89, 4, 78, 4, 56, 346, 9, 3, 56, 2, 9, 2, 6));
    sink(&mut vec, 4);
    assert_eq!(vec, vec!(1, 89, 4, 78, 56, 56, 346, 9, 3, 4, 2, 9, 2, 6));
    sink(&mut vec, 3);
    assert_eq!(vec, vec!(1, 89, 4, 78, 56, 56, 346, 9, 3, 4, 2, 9, 2, 6));
    sink(&mut vec, 2);
    assert_eq!(vec, vec!(1, 89, 346, 78, 56, 56, 6, 9, 3, 4, 2, 9, 2, 4));
    sink(&mut vec, 1);
    assert_eq!(vec, vec!(1, 89, 346, 78, 56, 56, 6, 9, 3, 4, 2, 9, 2, 4));
    sink(&mut vec, 0);
    assert_eq!(vec, vec!(346, 89, 56, 78, 56, 9, 6, 9, 3, 4, 2, 1, 2, 4));
    assert!(is_binary_heap(&vec));
}

#[test]
fn test_make_heap() {
    let mut vec: Vec<i64> = vec![1, 89, 4, 78, 4, 9, 346, 9, 3, 56, 2, 56, 2, 6];
    make_heap(&mut vec);
    assert!(is_binary_heap(&vec));
}

#[test]
fn test_heap_sort() {
    let mut vec: Vec<i64> = vec![1, 89, 4, 78, 4, 9, 346, 9, 3, 56, 2, 56, 2, 6];
    make_heap(&mut vec);
    assert!(is_binary_heap(&vec));
    heap_sort(&mut vec);
    assert!(is_sorted(&vec));
}
