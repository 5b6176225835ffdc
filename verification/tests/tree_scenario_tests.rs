use algorithms::red_black_bst_2::Link::End;
use algorithms::red_black_bst_2::Tree;
use rand::RngExt;

#[test]
fn two_inserts_shape_and_membership() {
    let mut tree = Tree::new();
    tree.insert(32);
    tree.insert(20);

    assert!(tree.contains(&32));
    assert!(tree.contains(&20));
    assert!(!tree.contains(&45));

    let link = End.insert(32).make_black().insert(20).make_black();
    assert!(!link.has_right_leaning_red_links());
    assert!(!link.has_consecutive_red_links());
    assert!(link.is_bst());
    assert!(link.is_black_balanced());
}

#[test]
fn duplicate_insert_keeps_size_one() {
    let mut tree = Tree::new();
    tree.insert(32);
    tree.insert(32);

    assert_eq!(1, tree.size());
}

#[test]
fn duplicate_insert_is_idempotent() {
    let mut once = Tree::new();
    once.insert(32);
    once.insert(20);

    let mut twice = Tree::new();
    twice.insert(32);
    twice.insert(20);
    twice.insert(20);

    assert_eq!(once.size(), twice.size());
    for key in [20, 32, 45, -7] {
        assert_eq!(once.contains(&key), twice.contains(&key));
    }
}

#[test]
fn random_inserts_keep_all_invariants() {
    let mut rng = rand::rng();
    let mut link = End;
    let mut inserted: Vec<i64> = Vec::new();

    for _ in 0..20 {
        let new_value: i64 = rng.random_range(0..100);
        inserted.push(new_value);
        link = link.insert(new_value).make_black();
    }

    assert!(link.is_bst());
    assert!(link.is_black_balanced());
    assert!(!link.has_right_leaning_red_links());
    assert!(!link.has_consecutive_red_links());
}

#[test]
fn into_iter_collects_sorted_deduplicated_inserts() {
    let mut rng = rand::rng();
    let mut tree = Tree::new();
    let mut inserted: Vec<i64> = Vec::new();

    for _ in 0..30 {
        let new_value: i64 = rng.random_range(0..50);
        inserted.push(new_value);
        tree.insert(new_value);
    }

    let mut expected = inserted.clone();
    expected.sort();
    expected.dedup();

    let mut collected: Vec<i64> = Vec::new();
    let mut iter = tree.into_iter();
    while let Some(value) = iter.next() {
        collected.push(value);
    }

    assert_eq!(expected, collected);
    for w in collected.windows(2) {
        assert!(w[0] < w[1]);
    }
}

#[test]
fn iteration_is_strictly_ascending() {
    let mut tree = Tree::new();
    for key in [5, 1, 9, 3, 7, 1, 5, 0, 8, 2] {
        tree.insert(key);
    }

    let mut previous: Option<i64> = None;
    let mut iter = tree.iter();
    while let Some(key) = iter.next() {
        if let Some(p) = previous {
            assert!(p < *key);
        }
        previous = Some(*key);
    }
}
