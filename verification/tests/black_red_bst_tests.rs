use algorithms::black_red_bst::{Color, Link, Node};

#[test]
fn black_red_bst_test_new() {
    let node = Node::new(32);
    assert_eq!(node.value, 32);
}

#[test]
fn black_red_bst_test_left_value_ref() {
    let left_node = Node::new(20);
    let link = Link { to: Box::new(left_node), color: Color::Red };
    let node = Node { value: 30, left: Some(link), right: None };

    assert_eq!(node.left_value_ref(), Some(&20));
}

#[test]
fn black_red_bst_test_left_value() {
    let left_node = Node::new(20);
    let link = Link { to: Box::new(left_node), color: Color::Red };
    let node = Node { value: 30, left: Some(link), right: None };

    assert_eq!(node.left_value(), Some(20));
}

#[test]
fn insert_lower_node_into_empty_node() {
    let mut node = Node::new(32);
    node.insert_node(Node::new(20));

    assert_eq!(node.left_value(), Some(20));
}

#[test]
fn insert_lower_value_into_empty_node() {
    let mut node = Node::new(32);
    node.insert_val(20);

    assert_eq!(node.left_value(), Some(20));
}

#[test]
fn insert_higher_value_into_empty_node() {
    let mut node = Node::new(32);
    node.insert_val(40);

    assert_eq!(node.right_value(), Some(40));
}

#[test]
fn rotate_left() {
    let mut node = Node::new(32);
    node.insert_val(40);

    let mut link = Link::new_black(node);

    link.rotate_left();

    assert_eq!(link.value(), 40);
    let node = link.to.as_ref();
    let left_val = node.left.as_ref().unwrap().value();
    assert_eq!(left_val, 32);
    assert!(link.to.as_ref().right.is_none());
}
