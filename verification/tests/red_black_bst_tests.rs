use algorithms::red_black_bst::Color::{Black, Red};
use algorithms::red_black_bst::Link;
use algorithms::red_black_bst::Link::{ColoredLink, End};
use algorithms::red_black_bst::Node;
use rand::RngExt;

#[test]
fn red_black_bst_test_new() {
    let node = Node::new(32);
    assert_eq!(node.value, 32);
}

#[test]
fn red_black_bst_test_left_value_ref() {
    let left_node = Node::new(20);
    let link = ColoredLink { color: Red, node_box: Box::new(left_node) };
    let node = Node { value: 30, left: link, right: End };

    assert_eq!(node.left_value_ref(), Some(&20));
}

#[test]
fn red_black_bst_test_left_value() {
    let left_node = Node::new(20);
    let link = ColoredLink { color: Red, node_box: Box::new(left_node) };
    let node = Node { value: 30, left: link, right: End };

    assert_eq!(node.left_value(), Some(20));
}

#[test]
fn insert_lower_value() {
    let mut link: Link = Link::End;
    link.insert_val(32);
    link.insert_val(20);

    let expected = ColoredLink {
        color: Red,
        node_box: Box::new(Node {
            value: 32,
            left: ColoredLink {
                color: Red,
                node_box: Box::new(Node { value: 20, left: End, right: End }),
            },
            right: End,
        }),
    };

    assert_eq!(expected, link);
    assert!(link.is_bst());
}

#[test]
fn insert_higher_value() {
    let mut link: Link = Link::End;
    link.insert_val(32);
    link.insert_val(40);

    let expected = ColoredLink {
        color: Red,
        node_box: Box::new(Node {
            value: 40,
            left: ColoredLink {
                color: Red,
                node_box: Box::new(Node { value: 32, left: End, right: End }),
            },
            right: End,
        }),
    };

    assert_eq!(expected, link);
    assert!(link.is_bst());
}

#[test]
fn red_black_bst_test_rotate_left() {
    let mut link = ColoredLink {
        color: Black,
        node_box: Box::new(Node {
            value: 32,
            left: ColoredLink {
                color: Black,
                node_box: Box::new(Node { value: 20, left: End, right: End }),
            },
            right: ColoredLink {
                color: Red,
                node_box: Box::new(Node { value: 40, left: End, right: End }),
            },
        }),
    };

    link.rotate_left();

    let expectation = ColoredLink {
        color: Black,
        node_box: Box::new(Node {
            value: 40,
            left: ColoredLink {
                color: Red,
                node_box: Box::new(Node {
                    value: 32,
                    left: ColoredLink {
                        color: Black,
                        node_box: Box::new(Node { value: 20, left: End, right: End }),
                    },
                    right: End,
                }),
            },
            right: End,
        }),
    };
    assert_eq!(expectation, link);
}

#[test]
fn red_black_bst_test_rotate_right() {
    let mut link = ColoredLink {
        color: Black,
        node_box: Box::new(Node {
            value: 40,
            left: ColoredLink {
                color: Red,
                node_box: Box::new(Node {
                    value: 32,
                    left: ColoredLink {
                        color: Red,
                        node_box: Box::new(Node { value: 20, left: End, right: End }),
                    },
                    right: End,
                }),
            },
            right: End,
        }),
    };

    link.rotate_right();

    let expectation = ColoredLink {
        color: Black,
        node_box: Box::new(Node {
            value: 32,
            left: ColoredLink {
                color: Red,
                node_box: Box::new(Node { value: 20, left: End, right: End }),
            },
            right: ColoredLink {
                color: Red,
                node_box: Box::new(Node { value: 40, left: End, right: End }),
            },
        }),
    };
    assert_eq!(expectation, link);
}

#[test]
fn color_flip() {
    let mut link = ColoredLink {
        color: Black,
        node_box: Box::new(Node {
            value: 32,
            left: ColoredLink { color: Red, node_box: Box::new(Node::new(20)) },
            right: ColoredLink { color: Red, node_box: Box::new(Node::new(40)) },
        }),
    };

    link.color_flip();

    let expected = ColoredLink {
        color: Red,
        node_box: Box::new(Node {
            value: 32,
            left: ColoredLink { color: Black, node_box: Box::new(Node::new(20)) },
            right: ColoredLink { color: Black, node_box: Box::new(Node::new(40)) },
        }),
    };

    assert_eq!(link, expected);
}

#[test]
fn depth() {
    let link = ColoredLink {
        color: Black,
        node_box: Box::new(Node {
            value: 32,
            left: ColoredLink { color: Red, node_box: Box::new(Node::new(20)) },
            right: ColoredLink { color: Black, node_box: Box::new(Node::new(40)) },
        }),
    };

    let result = link.black_depth();
    assert_eq!(result, 1..3);
    let result = link.total_depth();
    assert_eq!(result, 2..3);

    let link = ColoredLink {
        color: Black,
        node_box: Box::new(Node {
            value: 32,
            left: ColoredLink { color: Red, node_box: Box::new(Node::new(20)) },
            right: End,
        }),
    };

    let result = link.black_depth();
    assert_eq!(result, 1..2);
    let result = link.total_depth();
    assert_eq!(result, 1..3);
}

#[test]
fn red_black_bst_test_is_bst() {
    let node = Node {
        value: 32,
        left: ColoredLink { color: Red, node_box: Box::new(Node::new(20)) },
        right: ColoredLink { color: Black, node_box: Box::new(Node::new(40)) },
    };

    let result = node.is_bst();
    assert_eq!(result, true);

    let node = Node {
        value: 32,
        left: ColoredLink { color: Red, node_box: Box::new(Node::new(40)) },
        right: ColoredLink { color: Black, node_box: Box::new(Node::new(20)) },
    };

    let result = node.is_bst();
    assert_eq!(result, false);
}

#[test]
fn red_black_bst_multiple_insertion_results_in_bst() {
    let mut tree: Link = End;
    let mut rng = rand::rng();

    let number_of_nodes = 20;

    for _ in 0..number_of_nodes {
        let new_value: i64 = rng.random_range(0..100);
        tree.insert_val(new_value);
        tree.make_black()
    }
    assert!(tree.is_bst(), "{:?}", tree);
    assert!(tree.is_black_balanced(), "{:?}", tree);
    assert!(!tree.has_right_leaning_red_links(), "{:?}", tree);
    assert!(!tree.has_consecutive_red_links(), "{:?}", tree);
}
