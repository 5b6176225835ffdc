use algorithms::quick_find::QuickFind;
use algorithms::quick_union::QuickUnion;
use algorithms::weighted_quick_union::{WeightedQuickUnion, WQU};

#[test]
fn lib_test_3() {
    let vec: Vec<u32> = QuickFind::new(3);
    assert!(!vec.is_connected(0, 1));
    assert!(!vec.is_connected(0, 2));
    assert!(!vec.is_connected(1, 2));

    assert!(vec.is_connected(0, 0));
    assert!(vec.is_connected(1, 1));
    assert!(vec.is_connected(2, 2));
}

#[test]
fn lib_test_3_c() {
    let mut vec: Vec<u32> = QuickFind::new(3);

    vec.connect(0, 1);
    assert!(vec.is_connected(0, 1));
    assert!(!vec.is_connected(0, 2));
    assert!(!vec.is_connected(1, 2));

    vec.connect(1, 2);
    assert!(vec.is_connected(0, 2));
}

#[test]
fn quick_find_test_3() {
    let vec: Vec<u32> = QuickFind::new(3);
    assert!(!vec.is_connected(0, 1));
    assert!(!vec.is_connected(0, 2));
    assert!(!vec.is_connected(1, 2));

    assert!(vec.is_connected(0, 0));
    assert!(vec.is_connected(1, 1));
    assert!(vec.is_connected(2, 2));
}

#[test]
fn quick_find_test_3_c() {
    let mut vec: Vec<u32> = QuickFind::new(3);

    vec.connect(0, 1);
    assert!(vec.is_connected(0, 1));
    assert!(!vec.is_connected(0, 2));
    assert!(!vec.is_connected(1, 2));

    vec.connect(1, 2);
    assert!(vec.is_connected(0, 2));
}

#[test]
fn quick_union_test_3() {
    let vec: Vec<usize> = QuickUnion::new(3);
    assert!(!QuickUnion::is_connected(&vec, 0, 1));
    assert!(!QuickUnion::is_connected(&vec, 0, 2));
    assert!(!QuickUnion::is_connected(&vec, 1, 2));

    assert!(QuickUnion::is_connected(&vec, 0, 0));
    assert!(QuickUnion::is_connected(&vec, 1, 1));
    assert!(QuickUnion::is_connected(&vec, 2, 2));
}

#[test]
fn quick_union_test_3_c() {
    let mut vec: Vec<usize> = QuickUnion::new(3);

    QuickUnion::connect(&mut vec, 0, 1);
    assert!(QuickUnion::is_connected(&vec, 0, 1));
    assert!(!QuickUnion::is_connected(&vec, 0, 2));
    assert!(!QuickUnion::is_connected(&vec, 1, 2));

    QuickUnion::connect(&mut vec, 1, 2);
    assert!(QuickUnion::is_connected(&vec, 0, 2));
}

#[test]
fn weighted_quick_union_test_3() {
    let wqu: WQU = WeightedQuickUnion::new(3);
    assert!(!wqu.is_connected(0, 1));
    assert!(!wqu.is_connected(0, 2));
    assert!(!wqu.is_connected(1, 2));

    assert!(wqu.is_connected(0, 0));
    assert!(wqu.is_connected(1, 1));
    assert!(wqu.is_connected(2, 2));
}

#[test]
fn weighted_quick_union_test_3_c() {
    let mut wqu: WQU = WeightedQuickUnion::new(3);

    wqu.connect(0, 1);
    assert!(wqu.is_connected(0, 1));
    assert!(!wqu.is_connected(0, 2));
    assert!(!wqu.is_connected(1, 2));

    wqu.connect(1, 2);
    assert!(wqu.is_connected(0, 2));
}
