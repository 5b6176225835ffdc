//! A red-black binary search tree built from two mutually recursive types:
//! a `Link` is `End` or a colored edge to a boxed `Node`, and a `Node` holds
//! a key and its two child links. Insertion descends by comparison and
//! applies rotate-left, rotate-right and color-flip at every link on the way
//! back up. Every mutating operation states exactly which keys the subtree
//! holds afterwards and that the binary-search order is kept.

use std::ops::Range;
use vstd::prelude::*;

verus! {

#[derive(PartialEq, Eq, Debug)]
pub enum Color {
    Red,
    Black,
}

#[derive(PartialEq, Eq, Debug)]
pub enum Link {
    End,
    ColoredLink { color: Color, node_box: Box<Node> },
}

#[derive(PartialEq, Eq, Debug)]
pub struct Node {
    pub value: i64,
    pub left: Link,
    pub right: Link,
}

impl Link {
    /// The set of keys stored under this link.
    pub closed spec fn keys(self) -> Set<i64>
        decreases self,
    {
        match self {
            Link::End => Set::empty(),
            Link::ColoredLink { node_box, .. } => node_box.keys(),
        }
    }

    /// Binary-search order under this link.
    pub closed spec fn bst_ordered(self) -> bool
        decreases self,
    {
        match self {
            Link::End => true,
            Link::ColoredLink { node_box, .. } => node_box.bst_ordered(),
        }
    }

    pub closed spec fn is_red(self) -> bool {
        self matches Link::ColoredLink { color: Color::Red, .. }
    }

    /// The key on this link's node, if there is one.
    pub fn value_ref(&self) -> (r: Option<&i64>)
        ensures
            match r {
                Option::None => self is End,
                Option::Some(v) => self matches Link::ColoredLink { node_box, .. } && *v
                    == node_box.value,
            },
    {
        match self {
            Link::End => Option::None,
            Link::ColoredLink { node_box, .. } => Option::Some(&node_box.value),
        }
    }

    /// The key on this link's node, if there is one, by value.
    pub fn value(&self) -> (r: Option<i64>)
        ensures
            match r {
                Option::None => self is End,
                Option::Some(v) => self matches Link::ColoredLink { node_box, .. } && v
                    == node_box.value,
            },
    {
        match self {
            Link::End => Option::None,
            Link::ColoredLink { node_box, .. } => Option::Some(node_box.value),
        }
    }
}

impl Node {
    /// The keys of the node and everything below it.
    pub closed spec fn keys(self) -> Set<i64>
        decreases self,
    {
        self.left.keys().union(self.right.keys()).insert(self.value)
    }

    /// Binary-search order: smaller keys on the left, greater on the right.
    pub closed spec fn bst_ordered(self) -> bool
        decreases self,
    {
        &&& self.left.bst_ordered()
        &&& self.right.bst_ordered()
        &&& forall|k: i64| self.left.keys().contains(k) ==> k < self.value
        &&& forall|k: i64| self.right.keys().contains(k) ==> k > self.value
    }

    /// A key with no children yet.
    pub fn new(value: i64) -> (r: Node)
        ensures
            r == (Node { value, left: Link::End, right: Link::End }),
            r.keys() == Set::empty().insert(value),
            r.bst_ordered(),
    {
        let r = Node { value, left: Link::End, right: Link::End };
        proof {
            assert(r.keys() =~= Set::empty().insert(value));
        }
        r
    }

    pub closed spec fn spec_rotate_left(self) -> Node {
        match self.right {
            Link::ColoredLink { color: Color::Red, node_box } => Node {
                value: node_box.value,
                left: Link::ColoredLink {
                    color: Color::Red,
                    node_box: Box::new(
                        Node { value: self.value, left: self.left, right: node_box.left },
                    ),
                },
                right: node_box.right,
            },
            _ => self,
        }
    }

    pub closed spec fn spec_rotate_right(self) -> Node {
        match self.left {
            Link::ColoredLink { color: Color::Red, node_box } => {
                if node_box.left.is_red() {
                    Node {
                        value: node_box.value,
                        left: node_box.left,
                        right: Link::ColoredLink {
                            color: Color::Red,
                            node_box: Box::new(
                                Node { value: self.value, left: node_box.right, right: self.right },
                            ),
                        },
                    }
                } else {
                    self
                }
            },
            _ => self,
        }
    }

    /// Rotating left keeps the keys and the search order.
    proof fn lemma_rotate_left_order(self)
        ensures
            self.spec_rotate_left().keys() == self.keys(),
            self.bst_ordered() ==> self.spec_rotate_left().bst_ordered(),
    {
        reveal_with_fuel(Node::keys, 4);
        reveal_with_fuel(Node::bst_ordered, 4);
        reveal_with_fuel(Link::keys, 4);
        reveal_with_fuel(Link::bst_ordered, 4);
        match self.right {
            Link::ColoredLink { color: Color::Red, node_box } => {
                let inner = Node { value: self.value, left: self.left, right: node_box.left };
                assert(inner.keys() =~= self.left.keys().union(node_box.left.keys()).insert(
                    self.value,
                ));
                assert(self.spec_rotate_left().keys() =~= self.keys());
                if self.bst_ordered() {
                    assert(forall|k: i64|
                        node_box.left.keys().contains(k) ==> self.right.keys().contains(k));
                    assert(forall|k: i64|
                        node_box.right.keys().contains(k) ==> self.right.keys().contains(k));
                    assert(self.right.keys().contains(node_box.value));
                    assert(inner.bst_ordered());
                    assert(self.spec_rotate_left().bst_ordered());
                }
            },
            _ => {},
        }
    }

    /// Rotating right keeps the keys and the search order.
    proof fn lemma_rotate_right_order(self)
        ensures
            self.spec_rotate_right().keys() == self.keys(),
            self.bst_ordered() ==> self.spec_rotate_right().bst_ordered(),
    {
        reveal_with_fuel(Node::keys, 4);
        reveal_with_fuel(Node::bst_ordered, 4);
        reveal_with_fuel(Link::keys, 4);
        reveal_with_fuel(Link::bst_ordered, 4);
        match self.left {
            Link::ColoredLink { color: Color::Red, node_box } => {
                if node_box.left.is_red() {
                    let inner = Node { value: self.value, left: node_box.right, right: self.right };
                    assert(inner.keys() =~= node_box.right.keys().union(self.right.keys()).insert(
                        self.value,
                    ));
                    assert(self.spec_rotate_right().keys() =~= self.keys());
                    if self.bst_ordered() {
                        assert(forall|k: i64|
                            node_box.left.keys().contains(k) ==> self.left.keys().contains(k));
                        assert(forall|k: i64|
                            node_box.right.keys().contains(k) ==> self.left.keys().contains(k));
                        assert(self.left.keys().contains(node_box.value));
                        assert(inner.bst_ordered());
                        assert(self.spec_rotate_right().bst_ordered());
                    }
                }
            },
            _ => {},
        }
    }

    /// When the right child link is red, lift that child's node to the top
    /// and push the old top down to the left over a red link; on any other
    /// shape, the identity.
    pub fn rotate_left(self) -> (r: Node)
        ensures
            r == self.spec_rotate_left(),
    {
        let Node { value, left, right } = self;
        match right {
            Link::ColoredLink { color: Color::Red, node_box } => {
                let inner = *node_box;
                Node {
                    value: inner.value,
                    left: Link::ColoredLink {
                        color: Color::Red,
                        node_box: Box::new(Node { value, left, right: inner.left }),
                    },
                    right: inner.right,
                }
            },
            other => Node { value, left, right: other },
        }
    }

    /// When the left child link and that child's own left link are both red,
    /// lift the left child's node to the top and push the old top down to the
    /// right over a red link; on any other shape, the identity.
    pub fn rotate_right(self) -> (r: Node)
        ensures
            r == self.spec_rotate_right(),
    {
        let Node { value, left, right } = self;
        match left {
            Link::ColoredLink { color: Color::Red, node_box } => {
                let inner = *node_box;
                let inner_left_red = matches!(
                    inner.left,
                    Link::ColoredLink { color: Color::Red, .. }
                );
                if inner_left_red {
                    Node {
                        value: inner.value,
                        left: inner.left,
                        right: Link::ColoredLink {
                            color: Color::Red,
                            node_box: Box::new(Node { value, left: inner.right, right }),
                        },
                    }
                } else {
                    Node {
                        value,
                        left: Link::ColoredLink { color: Color::Red, node_box: Box::new(inner) },
                        right,
                    }
                }
            },
            other => Node { value, left: other, right },
        }
    }
}

impl Link {
    pub closed spec fn spec_rotate_left(self) -> Link {
        match self {
            Link::End => self,
            Link::ColoredLink { color, node_box } => Link::ColoredLink {
                color,
                node_box: Box::new(node_box.spec_rotate_left()),
            },
        }
    }

    pub closed spec fn spec_rotate_right(self) -> Link {
        match self {
            Link::End => self,
            Link::ColoredLink { color, node_box } => Link::ColoredLink {
                color,
                node_box: Box::new(node_box.spec_rotate_right()),
            },
        }
    }

    pub closed spec fn spec_color_flip(self) -> Link {
        match self {
            Link::ColoredLink { color: Color::Black, node_box } => {
                match (node_box.left, node_box.right) {
                    (
                        Link::ColoredLink { color: Color::Red, node_box: left_box },
                        Link::ColoredLink { color: Color::Red, node_box: right_box },
                    ) => Link::ColoredLink {
                        color: Color::Red,
                        node_box: Box::new(
                            Node {
                                value: node_box.value,
                                left: Link::ColoredLink {
                                    color: Color::Black,
                                    node_box: left_box,
                                },
                                right: Link::ColoredLink {
                                    color: Color::Black,
                                    node_box: right_box,
                                },
                            },
                        ),
                    },
                    _ => Link::ColoredLink { color: Color::Black, node_box },
                }
            },
            _ => self,
        }
    }

    /// Rotating the node under this link keeps the keys and the order.
    proof fn lemma_rotate_left_order(self)
        ensures
            self.spec_rotate_left().keys() == self.keys(),
            self.bst_ordered() ==> self.spec_rotate_left().bst_ordered(),
    {
        match self {
            Link::End => {},
            Link::ColoredLink { color, node_box } => {
                node_box.lemma_rotate_left_order();
            },
        }
    }

    /// Rotating the node under this link keeps the keys and the order.
    proof fn lemma_rotate_right_order(self)
        ensures
            self.spec_rotate_right().keys() == self.keys(),
            self.bst_ordered() ==> self.spec_rotate_right().bst_ordered(),
    {
        match self {
            Link::End => {},
            Link::ColoredLink { color, node_box } => {
                node_box.lemma_rotate_right_order();
            },
        }
    }

    /// Flipping colors keeps the keys and the order.
    proof fn lemma_color_flip_order(self)
        ensures
            self.spec_color_flip().keys() == self.keys(),
            self.bst_ordered() ==> self.spec_color_flip().bst_ordered(),
    {
        reveal_with_fuel(Node::keys, 4);
        reveal_with_fuel(Node::bst_ordered, 4);
        reveal_with_fuel(Link::keys, 4);
        reveal_with_fuel(Link::bst_ordered, 4);
        match self {
            Link::ColoredLink { color: Color::Black, node_box } => {
                match (node_box.left, node_box.right) {
                    (
                        Link::ColoredLink { color: Color::Red, node_box: left_box },
                        Link::ColoredLink { color: Color::Red, node_box: right_box },
                    ) => {
                        let new_left = Link::ColoredLink { color: Color::Black, node_box: left_box };
                        let new_right = Link::ColoredLink {
                            color: Color::Black,
                            node_box: right_box,
                        };
                        assert(new_left.keys() =~= node_box.left.keys());
                        assert(new_right.keys() =~= node_box.right.keys());
                        assert(self.spec_color_flip().keys() =~= self.keys());
                        if self.bst_ordered() {
                            assert(new_left.bst_ordered());
                            assert(new_right.bst_ordered());
                            assert(self.spec_color_flip().bst_ordered());
                        }
                    },
                    _ => {},
                }
            },
            _ => {},
        }
    }

    /// Rotate the node under this link to the left, in place.
    pub fn rotate_left(&mut self)
        ensures
            *final(self) == old(self).spec_rotate_left(),
    {
        let mut owned = Link::End;
        core::mem::swap(self, &mut owned);
        match owned {
            Link::End => {
                *self = Link::End;
            },
            Link::ColoredLink { color, node_box } => {
                let rotated = (*node_box).rotate_left();
                *self = Link::ColoredLink { color, node_box: Box::new(rotated) };
            },
        }
    }

    /// Rotate the node under this link to the right, in place.
    pub fn rotate_right(&mut self)
        ensures
            *final(self) == old(self).spec_rotate_right(),
    {
        let mut owned = Link::End;
        core::mem::swap(self, &mut owned);
        match owned {
            Link::End => {
                *self = Link::End;
            },
            Link::ColoredLink { color, node_box } => {
                let rotated = (*node_box).rotate_right();
                *self = Link::ColoredLink { color, node_box: Box::new(rotated) };
            },
        }
    }

    /// When this link is black and the node's two child links are red, redden
    /// this link and blacken the children, in place.
    pub fn color_flip(&mut self)
        ensures
            *final(self) == old(self).spec_color_flip(),
    {
        let mut owned = Link::End;
        core::mem::swap(self, &mut owned);
        match owned {
            Link::ColoredLink { color: Color::Black, node_box } => {
                let node = *node_box;
                let Node { value, left, right } = node;
                match (left, right) {
                    (
                        Link::ColoredLink { color: Color::Red, node_box: left_box },
                        Link::ColoredLink { color: Color::Red, node_box: right_box },
                    ) => {
                        *self = Link::ColoredLink {
                            color: Color::Red,
                            node_box: Box::new(
                                Node {
                                    value,
                                    left: Link::ColoredLink {
                                        color: Color::Black,
                                        node_box: left_box,
                                    },
                                    right: Link::ColoredLink {
                                        color: Color::Black,
                                        node_box: right_box,
                                    },
                                },
                            ),
                        };
                    },
                    (l, r) => {
                        *self = Link::ColoredLink {
                            color: Color::Black,
                            node_box: Box::new(Node { value, left: l, right: r }),
                        };
                    },
                }
            },
            other => {
                *self = other;
            },
        }
    }

    /// Make the link black, whatever it was; used on the top of a tree.
    pub fn make_black(&mut self)
        ensures
            final(self).keys() == old(self).keys(),
            old(self).bst_ordered() ==> final(self).bst_ordered(),
            !final(self).is_red(),
    {
        let mut owned = Link::End;
        core::mem::swap(self, &mut owned);
        match owned {
            Link::End => {
                *self = Link::End;
            },
            Link::ColoredLink { node_box, .. } => {
                *self = Link::ColoredLink { color: Color::Black, node_box };
            },
        }
    }

    /// Insert a key under this link, rebalancing this link afterwards.
    /// An already-present key leaves the subtree's keys unchanged.
    pub fn insert_val(&mut self, value: i64)
        requires
            old(self).bst_ordered(),
        ensures
            final(self).keys() == old(self).keys().insert(value),
            final(self).bst_ordered(),
        decreases *old(self),
    {
        let node = Node::new(value);
        self.insert_node(node);
        proof {
            assert(old(self).keys().union(Set::empty().insert(value)) =~= old(
                self,
            ).keys().insert(value));
        }
    }

    /// Hang a childless node below this link at the position its key asks
    /// for, then apply rotate-left, rotate-right and color-flip to this link.
    pub fn insert_node(&mut self, node: Node)
        requires
            old(self).bst_ordered(),
            node.left == Link::End,
            node.right == Link::End,
        ensures
            final(self).keys() == old(self).keys().union(node.keys()),
            final(self).bst_ordered(),
        decreases *old(self), 1int,
    {
        let ghost node_spec = node;
        match self {
            Link::End => {
                proof {
                    assert(node.keys() =~= Set::empty().insert(node.value));
                }
                *self = Link::ColoredLink { color: Color::Red, node_box: Box::new(node) };
                proof {
                    assert(self.keys() =~= old(self).keys().union(node_spec.keys()));
                    assert(self.bst_ordered());
                }
            },
            Link::ColoredLink { node_box, .. } => {
                node_box.insert_node(node);
            },
        }
        proof {
            let before = *self;
            before.lemma_rotate_left_order();
            before.spec_rotate_left().lemma_rotate_right_order();
            before.spec_rotate_left().spec_rotate_right().lemma_color_flip_order();
        }
        self.rotate_left();
        self.rotate_right();
        self.color_flip();
    }
}

impl Node {
    /// Insert a key below this node.
    pub fn insert_val(&mut self, value: i64)
        requires
            old(self).bst_ordered(),
        ensures
            final(self).keys() == old(self).keys().union(Set::empty().insert(value)),
            final(self).bst_ordered(),
            final(self).value == old(self).value,
        decreases *old(self),
    {
        let node = Node::new(value);
        self.insert_node(node);
    }

    /// Hang a childless node below this one at the position its key asks
    /// for: equal keys change nothing, smaller keys descend to the left,
    /// greater keys to the right; each link crossed rebalances itself.
    pub fn insert_node(&mut self, node: Node)
        requires
            old(self).bst_ordered(),
            node.left == Link::End,
            node.right == Link::End,
        ensures
            final(self).keys() == old(self).keys().union(node.keys()),
            final(self).bst_ordered(),
            final(self).value == old(self).value,
        decreases *old(self), 0int,
    {
        proof {
            assert(node.keys() =~= Set::empty().insert(node.value));
        }
        let ghost node_spec = node;
        if self.value == node.value {
            proof {
                assert(old(self).keys().contains(node_spec.value));
                assert(self.keys() =~= old(self).keys().union(node_spec.keys()));
            }
        } else if self.value > node.value {
            let left_is_end = matches!(self.left, Link::End);
            if left_is_end {
                self.left = Link::ColoredLink { color: Color::Red, node_box: Box::new(node) };
                proof {
                    reveal_with_fuel(Node::keys, 3);
                    reveal_with_fuel(Node::bst_ordered, 3);
                    reveal_with_fuel(Link::keys, 3);
                    reveal_with_fuel(Link::bst_ordered, 3);
                    assert(node_spec.bst_ordered());
                    assert(self.left.keys() =~= Set::empty().insert(node_spec.value));
                    assert(self.keys() =~= old(self).keys().union(node_spec.keys()));
                    assert(self.bst_ordered());
                }
            } else {
                self.left.insert_node(node);
                proof {
                    reveal_with_fuel(Node::keys, 3);
                    reveal_with_fuel(Node::bst_ordered, 3);
                    reveal_with_fuel(Link::keys, 3);
                    reveal_with_fuel(Link::bst_ordered, 3);
                    assert(self.keys() =~= old(self).keys().union(node_spec.keys()));
                    assert(forall|k: i64|
                        self.left.keys().contains(k) ==> (old(self).left.keys().contains(k) || k
                            == node_spec.value));
                    assert(self.bst_ordered());
                }
            }
        } else {
            let right_is_end = matches!(self.right, Link::End);
            if right_is_end {
                self.right = Link::ColoredLink { color: Color::Red, node_box: Box::new(node) };
                proof {
                    reveal_with_fuel(Node::keys, 3);
                    reveal_with_fuel(Node::bst_ordered, 3);
                    reveal_with_fuel(Link::keys, 3);
                    reveal_with_fuel(Link::bst_ordered, 3);
                    assert(node_spec.bst_ordered());
                    assert(self.right.keys() =~= Set::empty().insert(node_spec.value));
                    assert(self.keys() =~= old(self).keys().union(node_spec.keys()));
                    assert(self.bst_ordered());
                }
            } else {
                self.right.insert_node(node);
                proof {
                    reveal_with_fuel(Node::keys, 3);
                    reveal_with_fuel(Node::bst_ordered, 3);
                    reveal_with_fuel(Link::keys, 3);
                    reveal_with_fuel(Link::bst_ordered, 3);
                    assert(self.keys() =~= old(self).keys().union(node_spec.keys()));
                    assert(forall|k: i64|
                        self.right.keys().contains(k) ==> (old(self).right.keys().contains(k) || k
                            == node_spec.value));
                    assert(self.bst_ordered());
                }
            }
        }
    }

    /// The number of nodes at or below this one.
    pub closed spec fn count(self) -> nat
        decreases self,
    {
        self.left.count() + self.right.count() + 1
    }

    /// The smallest count of black links on any path from this node down to
    /// an `End`.
    pub closed spec fn black_depth_low(self) -> nat
        decreases self,
    {
        if self.left.black_depth_low() <= self.right.black_depth_low() {
            self.left.black_depth_low()
        } else {
            self.right.black_depth_low()
        }
    }

    /// The largest count of black links on any path from this node down.
    pub closed spec fn black_depth_high(self) -> nat
        decreases self,
    {
        if self.left.black_depth_high() >= self.right.black_depth_high() {
            self.left.black_depth_high()
        } else {
            self.right.black_depth_high()
        }
    }

    /// The smallest count of links of any color on any path from this node down.
    pub closed spec fn total_depth_low(self) -> nat
        decreases self,
    {
        if self.left.total_depth_low() <= self.right.total_depth_low() {
            self.left.total_depth_low()
        } else {
            self.right.total_depth_low()
        }
    }

    /// The largest count of links of any color on any path from this node down.
    pub closed spec fn total_depth_high(self) -> nat
        decreases self,
    {
        if self.left.total_depth_high() >= self.right.total_depth_high() {
            self.left.total_depth_high()
        } else {
            self.right.total_depth_high()
        }
    }

    /// Somewhere at or below this node a red link leans right.
    pub closed spec fn has_right_red(self) -> bool
        decreases self,
    {
        self.right.is_red() || self.left.has_right_red() || self.right.has_right_red()
    }

    /// The key of the left child, if there is one.
    pub fn left_value_ref(&self) -> (r: Option<&i64>)
        ensures
            match r {
                Option::None => self.left is End,
                Option::Some(v) => self.left matches Link::ColoredLink { node_box, .. } && *v
                    == node_box.value,
            },
    {
        self.left.value_ref()
    }

    /// The key of the left child, if there is one, by value.
    pub fn left_value(&self) -> (r: Option<i64>)
        ensures
            match r {
                Option::None => self.left is End,
                Option::Some(v) => self.left matches Link::ColoredLink { node_box, .. } && v
                    == node_box.value,
            },
    {
        self.left.value()
    }

    /// The key of the right child, if there is one.
    pub fn right_value_ref(&self) -> (r: Option<&i64>)
        ensures
            match r {
                Option::None => self.right is End,
                Option::Some(v) => self.right matches Link::ColoredLink { node_box, .. } && *v
                    == node_box.value,
            },
    {
        self.right.value_ref()
    }

    /// The key of the right child, if there is one, by value.
    pub fn right_value(&self) -> (r: Option<i64>)
        ensures
            match r {
                Option::None => self.right is End,
                Option::Some(v) => self.right matches Link::ColoredLink { node_box, .. } && v
                    == node_box.value,
            },
    {
        self.right.value()
    }
}

impl Link {
    /// The number of nodes under this link.
    pub closed spec fn count(self) -> nat
        decreases self,
    {
        match self {
            Link::End => 0,
            Link::ColoredLink { node_box, .. } => node_box.count(),
        }
    }

    /// The smallest count of black links on any path down to an `End`,
    /// counting this link itself when it is black.
    pub closed spec fn black_depth_low(self) -> nat
        decreases self,
    {
        match self {
            Link::End => 0,
            Link::ColoredLink { color, node_box } => node_box.black_depth_low() + if color
                == Color::Black {
                1nat
            } else {
                0nat
            },
        }
    }

    /// The largest count of black links on any path down to an `End`.
    pub closed spec fn black_depth_high(self) -> nat
        decreases self,
    {
        match self {
            Link::End => 0,
            Link::ColoredLink { color, node_box } => node_box.black_depth_high() + if color
                == Color::Black {
                1nat
            } else {
                0nat
            },
        }
    }

    /// The smallest count of links of any color on any path down to an `End`.
    pub closed spec fn total_depth_low(self) -> nat
        decreases self,
    {
        match self {
            Link::End => 0,
            Link::ColoredLink { node_box, .. } => node_box.total_depth_low() + 1,
        }
    }

    /// The largest count of links of any color on any path down to an `End`.
    pub closed spec fn total_depth_high(self) -> nat
        decreases self,
    {
        match self {
            Link::End => 0,
            Link::ColoredLink { node_box, .. } => node_box.total_depth_high() + 1,
        }
    }

    /// Somewhere under this link a red link leans right.
    pub closed spec fn has_right_red(self) -> bool
        decreases self,
    {
        match self {
            Link::End => false,
            Link::ColoredLink { node_box, .. } => node_box.has_right_red(),
        }
    }

    /// Somewhere under this link a red link carries a node with a red child
    /// link.
    pub closed spec fn has_consec_red(self) -> bool
        decreases self,
    {
        match self {
            Link::End => false,
            Link::ColoredLink { color, node_box } => (color == Color::Red
                && (node_box.left.is_red() || node_box.right.is_red()))
                || node_box.left.has_consec_red() || node_box.right.has_consec_red(),
        }
    }

    /// Every depth is bounded by the number of nodes, which keeps the
    /// executable depth counters free of overflow.
    proof fn lemma_depth_bounds(self)
        ensures
            self.black_depth_low() <= self.black_depth_high(),
            self.black_depth_high() <= self.total_depth_high(),
            self.total_depth_low() <= self.total_depth_high(),
            self.total_depth_high() <= self.count(),
        decreases self,
    {
        match self {
            Link::End => {},
            Link::ColoredLink { node_box, .. } => {
                node_box.left.lemma_depth_bounds();
                node_box.right.lemma_depth_bounds();
            },
        }
    }

    /// Whether everything under this link is in binary-search order, within
    /// the open bounds.
    fn is_bst_between(&self, lo: Option<i64>, hi: Option<i64>) -> (r: bool)
        ensures
            r == (self.bst_ordered() && (forall|k: i64|
                self.keys().contains(k) ==> ((lo matches Some(l) ==> k > l) && (hi matches Some(h)
                    ==> k < h)))),
        decreases *self, 1int,
    {
        match self {
            Link::End => true,
            Link::ColoredLink { node_box, .. } => {
                let r = node_box.is_bst_between(lo, hi);
                proof {
                    assert(self.keys() == node_box.keys());
                    assert(self.bst_ordered() == node_box.bst_ordered());
                }
                r
            },
        }
    }

    /// Whether everything under this link is in binary-search order.
    pub fn is_bst(&self) -> (r: bool)
        ensures
            r == self.bst_ordered(),
    {
        self.is_bst_between(None, None)
    }

    /// The counts of black links over all paths from this link, as the range
    /// from the smallest count to one past the largest.
    pub fn black_depth(&self) -> (r: Range<usize>)
        requires
            self.count() < usize::MAX,
        ensures
            r.start == self.black_depth_low(),
            r.end == self.black_depth_high() + 1,
        decreases *self, 1int,
    {
        proof {
            self.lemma_depth_bounds();
        }
        match self {
            Link::End => Range { start: 0, end: 1 },
            Link::ColoredLink { color, node_box } => {
                let inner = node_box.black_depth();
                match color {
                    Color::Black => Range { start: inner.start + 1, end: inner.end + 1 },
                    Color::Red => inner,
                }
            },
        }
    }

    /// The counts of links of any color over all paths from this link, as
    /// the range from the smallest count to one past the largest.
    pub fn total_depth(&self) -> (r: Range<usize>)
        requires
            self.count() < usize::MAX,
        ensures
            r.start == self.total_depth_low(),
            r.end == self.total_depth_high() + 1,
        decreases *self, 1int,
    {
        proof {
            self.lemma_depth_bounds();
        }
        match self {
            Link::End => Range { start: 0, end: 1 },
            Link::ColoredLink { node_box, .. } => {
                let inner = node_box.total_depth();
                Range { start: inner.start + 1, end: inner.end + 1 }
            },
        }
    }

    /// Whether every path from this link crosses the same number of black
    /// links.
    pub fn is_black_balanced(&self) -> (r: bool)
        requires
            self.count() < usize::MAX,
        ensures
            r == (self.black_depth_high() == self.black_depth_low()),
    {
        proof {
            self.lemma_depth_bounds();
        }
        let black_depth = self.black_depth();
        black_depth.end - black_depth.start <= 1
    }

    /// Whether a red link leans right somewhere under this link.
    pub fn has_right_leaning_red_links(&self) -> (r: bool)
        ensures
            r == self.has_right_red(),
        decreases *self, 1int,
    {
        match self {
            Link::End => false,
            Link::ColoredLink { node_box, .. } => node_box.has_right_leaning_red_links(),
        }
    }

    /// Whether a red link carries a node with a red child link somewhere
    /// under this link.
    pub fn has_consecutive_red_links(&self) -> (r: bool)
        ensures
            r == self.has_consec_red(),
        decreases *self,
    {
        match self {
            Link::End => false,
            Link::ColoredLink { color, node_box } => {
                let here_red = matches!(color, Color::Red);
                let left_red = matches!(node_box.left, Link::ColoredLink { color: Color::Red, .. });
                let right_red = matches!(
                    node_box.right,
                    Link::ColoredLink { color: Color::Red, .. }
                );
                (here_red && (left_red || right_red)) || node_box.left.has_consecutive_red_links()
                    || node_box.right.has_consecutive_red_links()
            },
        }
    }
}

impl Node {
    /// Depth bounds at the node level, for the executable counters.
    proof fn lemma_depth_bounds(self)
        ensures
            self.black_depth_low() <= self.black_depth_high(),
            self.black_depth_high() <= self.total_depth_high(),
            self.total_depth_low() <= self.total_depth_high(),
            self.total_depth_high() < self.count(),
        decreases self,
    {
        self.left.lemma_depth_bounds();
        self.right.lemma_depth_bounds();
    }

    /// Whether everything at or below this node is in binary-search order,
    /// within the open bounds.
    fn is_bst_between(&self, lo: Option<i64>, hi: Option<i64>) -> (r: bool)
        ensures
            r == (self.bst_ordered() && (forall|k: i64|
                self.keys().contains(k) ==> ((lo matches Some(l) ==> k > l) && (hi matches Some(h)
                    ==> k < h)))),
        decreases *self, 0int,
    {
        let lo_ok = match lo {
            Option::None => true,
            Option::Some(l) => self.value > l,
        };
        let hi_ok = match hi {
            Option::None => true,
            Option::Some(h) => self.value < h,
        };
        let left_ok = self.left.is_bst_between(lo, Some(self.value));
        let right_ok = self.right.is_bst_between(Some(self.value), hi);
        let r = lo_ok && hi_ok && left_ok && right_ok;
        proof {
            let v = self.value;
            assert(self.keys() =~= self.left.keys().union(self.right.keys()).insert(v));
            if r {
                assert(self.bst_ordered());
                assert forall|k: i64|
                    self.keys().contains(k) implies ((lo matches Some(l) ==> k > l) && (
                hi matches Some(h) ==> k < h)) by {
                    if self.left.keys().contains(k) {
                        assert(k < v);
                    } else if self.right.keys().contains(k) {
                        assert(k > v);
                    } else {
                        assert(k == v);
                    }
                }
            }
            if self.bst_ordered() && (forall|k: i64|
                self.keys().contains(k) ==> ((lo matches Some(l) ==> k > l) && (hi matches Some(h)
                    ==> k < h))) {
                assert(self.keys().contains(v));
                assert(lo_ok && hi_ok);
                assert(forall|k: i64|
                    self.left.keys().contains(k) ==> self.keys().contains(k) && k < v);
                assert(forall|k: i64|
                    self.right.keys().contains(k) ==> self.keys().contains(k) && k > v);
                assert forall|k: i64| self.left.keys().contains(k) implies ((lo matches Some(l)
                    ==> k > l) && k < v) by {
                    assert(self.keys().contains(k));
                }
                assert forall|k: i64| self.right.keys().contains(k) implies ((hi matches Some(h)
                    ==> k < h) && k > v) by {
                    assert(self.keys().contains(k));
                }
                assert(left_ok);
                assert(right_ok);
            }
        }
        r
    }

    /// Whether everything at or below this node is in binary-search order.
    pub fn is_bst(&self) -> (r: bool)
        ensures
            r == self.bst_ordered(),
    {
        self.is_bst_between(None, None)
    }

    /// The counts of black links over all paths below this node, as the
    /// range from the smallest count to one past the largest.
    pub fn black_depth(&self) -> (r: Range<usize>)
        requires
            self.count() < usize::MAX,
        ensures
            r.start == self.black_depth_low(),
            r.end == self.black_depth_high() + 1,
        decreases *self, 0int,
    {
        proof {
            self.lemma_depth_bounds();
            self.left.lemma_depth_bounds();
            self.right.lemma_depth_bounds();
        }
        let left_depth = self.left.black_depth();
        let right_depth = self.right.black_depth();
        let start = if left_depth.start <= right_depth.start {
            left_depth.start
        } else {
            right_depth.start
        };
        let end = if left_depth.end >= right_depth.end {
            left_depth.end
        } else {
            right_depth.end
        };
        Range { start, end }
    }

    /// The counts of links of any color over all paths below this node, as
    /// the range from the smallest count to one past the largest.
    pub fn total_depth(&self) -> (r: Range<usize>)
        requires
            self.count() < usize::MAX,
        ensures
            r.start == self.total_depth_low(),
            r.end == self.total_depth_high() + 1,
        decreases *self, 0int,
    {
        proof {
            self.lemma_depth_bounds();
            self.left.lemma_depth_bounds();
            self.right.lemma_depth_bounds();
        }
        let left_depth = self.left.total_depth();
        let right_depth = self.right.total_depth();
        let start = if left_depth.start <= right_depth.start {
            left_depth.start
        } else {
            right_depth.start
        };
        let end = if left_depth.end >= right_depth.end {
            left_depth.end
        } else {
            right_depth.end
        };
        Range { start, end }
    }

    /// Whether a red link leans right somewhere at or below this node.
    pub fn has_right_leaning_red_links(&self) -> (r: bool)
        ensures
            r == self.has_right_red(),
        decreases *self, 0int,
    {
        let right_red = matches!(self.right, Link::ColoredLink { color: Color::Red, .. });
        right_red || self.left.has_right_leaning_red_links()
            || self.right.has_right_leaning_red_links()
    }
}

} // verus!
