//! The most primitive of the red-black tree variants: a `Link` is a colored
//! edge to a boxed `Node`, and a `Node` holds a key and two optional child
//! links. Only leaf insertion and the left rotation are provided; every
//! operation states exactly what the resulting structure looks like.

use vstd::prelude::*;

verus! {

pub enum Color {
    Red,
    Black,
}

pub struct Link {
    pub to: Box<Node>,
    pub color: Color,
}

pub struct Node {
    pub value: i64,
    pub left: Option<Link>,
    pub right: Option<Link>,
}

impl Node {
    /// The rotated-left shape: when the right child link is red, its node
    /// comes up, and the old top goes down to the left over a red link,
    /// adopting the middle subtree; any other shape stays as it is.
    pub closed spec fn spec_rotate_left(self) -> Node {
        match self.right {
            Option::Some(Link { to: right_node, color: Color::Red }) => Node {
                value: right_node.value,
                left: Option::Some(
                    Link {
                        to: Box::new(
                            Node { value: self.value, left: self.left, right: right_node.left },
                        ),
                        color: Color::Red,
                    },
                ),
                right: right_node.right,
            },
            _ => self,
        }
    }

    /// A key with no children yet.
    pub fn new(value: i64) -> (r: Node)
        ensures
            r.value == value,
            r.left is None,
            r.right is None,
    {
        Node { value, left: Option::None, right: Option::None }
    }

    /// Insert a key below a node that has no children yet: it is hung on a
    /// fresh red link, on the left when it is not greater than the node's
    /// key and on the right otherwise.
    pub fn insert_val(&mut self, value: i64)
        requires
            old(self).left is None,
            old(self).right is None,
        ensures
            final(self).value == old(self).value,
            old(self).value >= value ==> (final(self).left matches Some(l) && l.color
                == Color::Red && l.to.value == value && l.to.left is None && l.to.right is None
                && final(self).right is None),
            old(self).value < value ==> (final(self).right matches Some(l) && l.color == Color::Red
                && l.to.value == value && l.to.left is None && l.to.right is None
                && final(self).left is None),
    {
        let node = Node::new(value);
        self.insert_node(node);
    }

    /// Hang `node` below a node that has no children yet, on a fresh red
    /// link: on the left when its key is not greater than this node's key,
    /// on the right otherwise.
    pub fn insert_node(&mut self, node: Node)
        requires
            old(self).left is None,
            old(self).right is None,
        ensures
            final(self).value == old(self).value,
            old(self).value >= node.value ==> (final(self).left matches Some(l) && l.color
                == Color::Red && *l.to == node && final(self).right is None),
            old(self).value < node.value ==> (final(self).right matches Some(l) && l.color
                == Color::Red && *l.to == node && final(self).left is None),
    {
        if self.value >= node.value {
            self.left = Option::Some(Link::new_red(node));
        } else {
            self.right = Option::Some(Link::new_red(node));
        }
    }

    /// The key of the left child, if there is one.
    pub fn left_value_ref(&self) -> (r: Option<&i64>)
        ensures
            match r {
                Option::None => self.left is None,
                Option::Some(v) => self.left matches Some(l) && *v == l.to.value,
            },
    {
        match &self.left {
            Option::None => Option::None,
            Option::Some(l) => Option::Some(&l.to.value),
        }
    }

    /// The key of the left child, if there is one, by value.
    pub fn left_value(&self) -> (r: Option<i64>)
        ensures
            match r {
                Option::None => self.left is None,
                Option::Some(v) => self.left matches Some(l) && v == l.to.value,
            },
    {
        match &self.left {
            Option::None => Option::None,
            Option::Some(l) => Option::Some(l.to.value),
        }
    }

    /// The key of the right child, if there is one.
    pub fn right_value_ref(&self) -> (r: Option<&i64>)
        ensures
            match r {
                Option::None => self.right is None,
                Option::Some(v) => self.right matches Some(l) && *v == l.to.value,
            },
    {
        match &self.right {
            Option::None => Option::None,
            Option::Some(l) => Option::Some(&l.to.value),
        }
    }

    /// The key of the right child, if there is one, by value.
    pub fn right_value(&self) -> (r: Option<i64>)
        ensures
            match r {
                Option::None => self.right is None,
                Option::Some(v) => self.right matches Some(l) && v == l.to.value,
            },
    {
        match &self.right {
            Option::None => Option::None,
            Option::Some(l) => Option::Some(l.to.value),
        }
    }
}

impl Link {
    /// A red link to `node`.
    pub fn new_red(node: Node) -> (r: Link)
        ensures
            r.color == Color::Red,
            *r.to == node,
    {
        Link { to: Box::new(node), color: Color::Red }
    }

    /// A black link to `node`.
    pub fn new_black(node: Node) -> (r: Link)
        ensures
            r.color == Color::Black,
            *r.to == node,
    {
        Link { to: Box::new(node), color: Color::Black }
    }

    /// The key on the node this link points to.
    pub fn value_ref(&self) -> (r: &i64)
        ensures
            *r == self.to.value,
    {
        &self.to.value
    }

    /// The key on the node this link points to, by value.
    pub fn value(&self) -> (r: i64)
        ensures
            r == self.to.value,
    {
        self.to.value
    }

    /// Rotate the node under this link to the left, in place: when its right
    /// child link is red, the right node comes up and the old node goes down
    /// to the left over a red link. The link's own color never changes.
    pub fn rotate_left(&mut self)
        ensures
            final(self).color == old(self).color,
            *final(self).to == old(self).to.spec_rotate_left(),
    {
        let mut owned = Link {
            to: Box::new(Node { value: 0, left: Option::None, right: Option::None }),
            color: Color::Red,
        };
        core::mem::swap(self, &mut owned);
        let Link { to, color } = owned;
        let node = *to;
        let Node { value, left, right } = node;
        match right {
            Option::Some(Link { to: right_node, color: Color::Red }) => {
                let inner = *right_node;
                let rotated = Node {
                    value: inner.value,
                    left: Option::Some(
                        Link {
                            to: Box::new(Node { value, left, right: inner.left }),
                            color: Color::Red,
                        },
                    ),
                    right: inner.right,
                };
                *self = Link { to: Box::new(rotated), color };
            },
            other => {
                *self = Link { to: Box::new(Node { value, left, right: other }), color };
            },
        }
    }
}

} // verus!
