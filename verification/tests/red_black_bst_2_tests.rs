use algorithms::red_black_bst_2::Color::{Black, Red};
use algorithms::red_black_bst_2::Link;
use algorithms::red_black_bst_2::Link::{ColoredLink, End};
use algorithms::red_black_bst_2::Tree;
use rand::RngExt;

/// returns an exemplary tree that is used in various tests
fn link_1() -> Link {
    ColoredLink {
        color: Black,
        value: 32,
        left: Box::new(ColoredLink {
            color: Red,
            value: 20,
            left: Box::new(End),
            right: Box::new(ColoredLink {
                color: Black,
                value: 25,
                left: Box::new(End),
                right: Box::new(End),
            }),
        }),
        right: Box::new(ColoredLink {
            color: Black,
            value: 40,
            left: Box::new(End),
            right: Box::new(End),
        }),
    }
}

/// returns an exemplary tree that is used in various tests
fn link_2() -> Link {
    ColoredLink {
        color: Black,
        value: 32,
        left: Box::new(ColoredLink {
            color: Red,
            value: 20,
            left: Box::new(ColoredLink {
                color: Black,
                value: 18,
                left: Box::new(End),
                right: Box::new(End),
            }),
            right: Box::new(ColoredLink {
                color: Black,
                value: 25,
                left: Box::new(End),
                right: Box::new(End),
            }),
        }),
        right: Box::new(ColoredLink {
            color: Black,
            value: 40,
            left: Box::new(End),
            right: Box::new(End),
        }),
    }
}

#[test]
fn red_black_bst_2_test_is_bst() {
    let link = link_1();

    assert!(link.is_bst(), "{:?}", link);

    let link = ColoredLink {
        color: Black,
        value: 32,
        left: Box::new(ColoredLink {
            color: Red,
            value: 40,
            left: Box::new(End),
            right: Box::new(End),
        }),
        right: Box::new(ColoredLink {
            color: Black,
            value: 40,
            left: Box::new(End),
            right: Box::new(End),
        }),
    };

    assert!(!link.is_bst(), "{:?}", link);
}

#[test]
fn test_black_depth() {
    let link = link_1();

    let black_depth = link.black_depth();
    assert_eq!(black_depth, 1..3);

    let link = link_2();

    let black_depth = link.black_depth();
    assert_eq!(black_depth, 2..3);
}

#[test]
fn test_total_depth() {
    let link = link_1();

    let total_depth = link.total_depth();
    assert_eq!(total_depth, 2..4);

    let link = link_2();

    let total_depth = link.total_depth();
    assert_eq!(total_depth, 3..4);
}

#[test]
fn test_has_right_leaning_red_links() {
    let link = link_2();
    assert!(!link.has_right_leaning_red_links());

    let link = ColoredLink {
        color: Black,
        value: 32,
        left: Box::new(ColoredLink {
            color: Red,
            value: 20,
            left: Box::new(ColoredLink {
                color: Black,
                value: 18,
                left: Box::new(End),
                right: Box::new(End),
            }),
            right: Box::new(ColoredLink {
                color: Red,
                value: 25,
                left: Box::new(End),
                right: Box::new(End),
            }),
        }),
        right: Box::new(ColoredLink {
            color: Black,
            value: 40,
            left: Box::new(End),
            right: Box::new(End),
        }),
    };

    assert!(link.has_right_leaning_red_links());
}

#[test]
fn test_has_consecutive_red_links() {
    let link = link_1();
    assert!(!link.has_consecutive_red_links());

    let link = ColoredLink {
        color: Black,
        value: 32,
        left: Box::new(ColoredLink {
            color: Red,
            value: 20,
            left: Box::new(ColoredLink {
                color: Red,
                value: 18,
                left: Box::new(End),
                right: Box::new(End),
            }),
            right: Box::new(ColoredLink {
                color: Black,
                value: 25,
                left: Box::new(End),
                right: Box::new(End),
            }),
        }),
        right: Box::new(ColoredLink {
            color: Black,
            value: 40,
            left: Box::new(End),
            right: Box::new(End),
        }),
    };

    assert!(link.has_consecutive_red_links());
}

#[test]
fn red_black_bst_2_test_rotate_left() {
    let link = ColoredLink {
        color: Black,
        value: 32,
        left: Box::new(ColoredLink {
            color: Black,
            value: 20,
            left: Box::new(End),
            right: Box::new(End),
        }),
        right: Box::new(ColoredLink {
            color: Red,
            value: 40,
            left: Box::new(End),
            right: Box::new(End),
        }),
    };

    let link = link.rotate_left();

    let expectation = ColoredLink {
        color: Black,
        value: 40,
        left: Box::new(ColoredLink {
            color: Red,
            value: 32,
            left: Box::new(ColoredLink {
                color: Black,
                value: 20,
                left: Box::new(End),
                right: Box::new(End),
            }),
            right: Box::new(End),
        }),
        right: Box::new(End),
    };
    assert_eq!(expectation, link);
}

#[test]
fn red_black_bst_2_test_rotate_right() {
    let link = ColoredLink {
        color: Black,
        value: 40,
        left: Box::new(ColoredLink {
            color: Red,
            value: 32,
            left: Box::new(ColoredLink {
                color: Red,
                value: 20,
                left: Box::new(End),
                right: Box::new(End),
            }),
            right: Box::new(End),
        }),
        right: Box::new(End),
    };

    let link = link.rotate_right();

    let expectation = ColoredLink {
        color: Black,
        value: 32,
        left: Box::new(ColoredLink {
            color: Red,
            value: 20,
            left: Box::new(End),
            right: Box::new(End),
        }),
        right: Box::new(ColoredLink {
            color: Red,
            value: 40,
            left: Box::new(End),
            right: Box::new(End),
        }),
    };
    assert_eq!(expectation, link);
}

#[test]
fn test_color_flip() {
    let link = ColoredLink {
        color: Black,
        value: 32,
        left: Box::new(ColoredLink {
            color: Red,
            value: 20,
            left: Box::new(End),
            right: Box::new(End),
        }),
        right: Box::new(ColoredLink {
            color: Red,
            value: 40,
            left: Box::new(End),
            right: Box::new(End),
        }),
    };

    let link = link.color_flip();

    let expectation = ColoredLink {
        color: Red,
        value: 32,
        left: Box::new(ColoredLink {
            color: Black,
            value: 20,
            left: Box::new(End),
            right: Box::new(End),
        }),
        right: Box::new(ColoredLink {
            color: Black,
            value: 40,
            left: Box::new(End),
            right: Box::new(End),
        }),
    };

    assert_eq!(link, expectation);

    let link = ColoredLink {
        color: Black,
        value: 32,
        left: Box::new(ColoredLink {
            color: Red,
            value: 20,
            left: Box::new(End),
            right: Box::new(End),
        }),
        right: Box::new(ColoredLink {
            color: Black,
            value: 40,
            left: Box::new(End),
            right: Box::new(End),
        }),
    };

    let link = link.color_flip();

    let expectation = ColoredLink {
        color: Black,
        value: 32,
        left: Box::new(ColoredLink {
            color: Red,
            value: 20,
            left: Box::new(End),
            right: Box::new(End),
        }),
        right: Box::new(ColoredLink {
            color: Black,
            value: 40,
            left: Box::new(End),
            right: Box::new(End),
        }),
    };

    assert_eq!(link, expectation);
}

#[test]
fn test_insert_1() {
    let result = End.insert(32).make_black();

    let expectation = ColoredLink {
        color: Black,
        value: 32,
        left: Box::new(End),
        right: Box::new(End),
    };

    assert_eq!(expectation, result);
}

#[test]
fn test_insert_2() {
    let result = End.insert(32).make_black().insert(20).make_black();

    let expectation = ColoredLink {
        color: Black,
        value: 32,
        left: Box::new(ColoredLink {
            color: Red,
            value: 20,
            left: Box::new(End),
            right: Box::new(End),
        }),
        right: Box::new(End),
    };

    assert_eq!(expectation, result);
}

#[test]
fn test_insert_3() {
    let result = End.insert(32).make_black().insert(20).make_black().insert(40).make_black();

    let expectation = ColoredLink {
        color: Black,
        value: 32,
        left: Box::new(ColoredLink {
            color: Black,
            value: 20,
            left: Box::new(End),
            right: Box::new(End),
        }),
        right: Box::new(ColoredLink {
            color: Black,
            value: 40,
            left: Box::new(End),
            right: Box::new(End),
        }),
    };

    assert_eq!(expectation, result);
}

#[test]
fn red_black_bst_2_multiple_insertion_results_in_bst() {
    let mut tree: Link = End;
    let mut rng = rand::rng();

    let number_of_items = 20;

    for _ in 0..number_of_items {
        let new_value: i64 = rng.random_range(0..100);
        tree = tree.insert(new_value);
        tree = tree.make_black();
    }

    assert!(tree.is_bst(), "{:?}", tree);
    assert!(tree.is_black_balanced(), "{:?}", tree);
    assert!(!tree.has_right_leaning_red_links(), "{:?}", tree);
    assert!(!tree.has_consecutive_red_links(), "{:?}", tree);
}

#[test]
fn test_size() {
    let mut tree = Tree::new();
    tree.insert(32);
    tree.insert(20);
    tree.insert(45);

    assert_eq!(3, tree.size());
}

#[test]
fn test_contains() {
    let mut tree = Tree::new();
    tree.insert(32);
    tree.insert(20);
    tree.insert(45);

    assert!(tree.contains(&32));
    assert!(tree.contains(&20));
    assert!(tree.contains(&45));
    assert!(!tree.contains(&123));
}

#[test]
fn test_iter() {
    let mut tree = Tree::new();
    tree.insert(32);
    tree.insert(20);
    tree.insert(45);

    let mut iter = tree.iter();

    assert_eq!(Some(&20), iter.next());
    assert_eq!(Some(&32), iter.next());
    assert_eq!(Some(&45), iter.next());
    assert_eq!(None, iter.next());
}

#[test]
fn test_from_iter() {
    let tree: Tree = Tree::from_vec(&vec![32, 20, 45]);

    assert!(tree.contains(&32));
    assert!(tree.contains(&20));
    assert!(tree.contains(&45));
    assert!(!tree.contains(&123));
}

#[test]
fn test_into_iter() {
    let mut tree = Tree::new();
    tree.insert(32);
    tree.insert(20);
    tree.insert(45);

    let mut vec: Vec<i64> = Vec::new();
    let mut iter = tree.into_iter();
    while let Some(value) = iter.next() {
        vec.push(value);
    }

    assert_eq!(vec![20, 32, 45], vec);
}
