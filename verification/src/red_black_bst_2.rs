//! A left-leaning red-black binary search tree over a single recursive
//! `Link` type: a link is either `End` (no subtree) or a colored node that
//! owns its two children. A `Tree` wraps the top link and keeps the root
//! black. Insertion rebuilds the path to the new node on the way back up,
//! applying rotate-left, rotate-right and color-flip in that order at every
//! level, which maintains the binary-search order, perfect black balance,
//! and the left-leaning red discipline.

use std::ops::Range;
use vstd::prelude::*;
use vstd::seq_lib::seq_to_set_distributes_over_add;

verus! {

/// Each key of the sequence is strictly smaller than every later one.
pub open spec fn strictly_sorted(s: Seq<i64>) -> bool {
    forall|i: int, j: int| 0 <= i < j < s.len() ==> s[i] < s[j]
}

#[derive(PartialEq, Eq, Debug)]
pub enum Color {
    Red,
    Black,
}

#[derive(PartialEq, Eq, Debug)]
pub enum Link {
    End,
    ColoredLink { color: Color, value: i64, left: Box<Link>, right: Box<Link> },
}

impl Link {
    /// The set of keys stored in the subtree under this link.
    pub closed spec fn keys(self) -> Set<i64>
        decreases self,
    {
        match self {
            Link::End => Set::empty(),
            Link::ColoredLink { value, left, right, .. } => left.keys().union(right.keys()).insert(
                value,
            ),
        }
    }

    /// The keys of the subtree, left to right.
    pub closed spec fn in_order(self) -> Seq<i64>
        decreases self,
    {
        match self {
            Link::End => Seq::empty(),
            Link::ColoredLink { value, left, right, .. } => left.in_order() + seq![value]
                + right.in_order(),
        }
    }

    /// Binary-search order: at every node, the keys on the left are strictly
    /// smaller and the keys on the right strictly greater than the node's key.
    pub closed spec fn bst_ordered(self) -> bool
        decreases self,
    {
        match self {
            Link::End => true,
            Link::ColoredLink { value, left, right, .. } => {
                &&& left.bst_ordered()
                &&& right.bst_ordered()
                &&& forall|k: i64| left.keys().contains(k) ==> k < value
                &&& forall|k: i64| right.keys().contains(k) ==> k > value
            },
        }
    }

    pub closed spec fn is_red(self) -> bool {
        self matches Link::ColoredLink { color: Color::Red, .. }
    }

    /// The number of black links on the path that descends leftward;
    /// on a balanced link every path to an `End` crosses this many blacks.
    pub closed spec fn black_height(self) -> nat
        decreases self,
    {
        match self {
            Link::End => 0,
            Link::ColoredLink { color, left, .. } => left.black_height() + if color
                == Color::Black {
                1nat
            } else {
                0nat
            },
        }
    }

    /// Perfect black balance: under every node both children are balanced
    /// and carry the same number of black links on every path.
    pub closed spec fn balanced(self) -> bool
        decreases self,
    {
        match self {
            Link::End => true,
            Link::ColoredLink { left, right, .. } => {
                &&& left.balanced()
                &&& right.balanced()
                &&& left.black_height() == right.black_height()
            },
        }
    }

    /// The red-link discipline of a left-leaning red-black tree: no node has
    /// a red right child, and a red node has no red left child.
    pub closed spec fn reds_ok(self) -> bool
        decreases self,
    {
        match self {
            Link::End => true,
            Link::ColoredLink { color, left, right, .. } => {
                &&& left.reds_ok()
                &&& right.reds_ok()
                &&& !right.is_red()
                &&& color == Color::Red ==> !left.is_red()
            },
        }
    }

    /// The red-link discipline everywhere except that the top itself may be
    /// a red node with a red left child: the one violation an insertion may
    /// hand up to its caller.
    pub closed spec fn reds_almost_ok(self) -> bool {
        match self {
            Link::End => true,
            Link::ColoredLink { left, right, .. } => {
                &&& left.reds_ok()
                &&& right.reds_ok()
                &&& !right.is_red()
            },
        }
    }

    /// The top is a red node whose left child is red as well.
    pub closed spec fn top_and_left_red(self) -> bool {
        self.is_red() && (self matches Link::ColoredLink { left, .. } && left.is_red())
    }

    pub closed spec fn spec_rotate_left(self) -> Link {
        match self {
            Link::ColoredLink { color, value, left, right } => match *right {
                Link::ColoredLink {
                    color: Color::Red,
                    value: right_value,
                    left: middle,
                    right: right_right,
                } => Link::ColoredLink {
                    color,
                    value: right_value,
                    left: Box::new(
                        Link::ColoredLink { color: Color::Red, value, left, right: middle },
                    ),
                    right: right_right,
                },
                _ => self,
            },
            Link::End => self,
        }
    }

    pub closed spec fn spec_rotate_right(self) -> Link {
        match self {
            Link::ColoredLink { color, value, left, right } => match *left {
                Link::ColoredLink {
                    color: Color::Red,
                    value: left_value,
                    left: left_left,
                    right: middle,
                } => {
                    if left_left.is_red() {
                        Link::ColoredLink {
                            color,
                            value: left_value,
                            left: left_left,
                            right: Box::new(
                                Link::ColoredLink {
                                    color: Color::Red,
                                    value,
                                    left: middle,
                                    right,
                                },
                            ),
                        }
                    } else {
                        self
                    }
                },
                _ => self,
            },
            Link::End => self,
        }
    }

    pub closed spec fn spec_color_flip(self) -> Link {
        match self {
            Link::ColoredLink { color: Color::Black, value, left, right } => match (*left, *right) {
                (
                    Link::ColoredLink {
                        color: Color::Red,
                        value: left_value,
                        left: left_left,
                        right: left_right,
                    },
                    Link::ColoredLink {
                        color: Color::Red,
                        value: right_value,
                        left: right_left,
                        right: right_right,
                    },
                ) => Link::ColoredLink {
                    color: Color::Red,
                    value,
                    left: Box::new(
                        Link::ColoredLink {
                            color: Color::Black,
                            value: left_value,
                            left: left_left,
                            right: left_right,
                        },
                    ),
                    right: Box::new(
                        Link::ColoredLink {
                            color: Color::Black,
                            value: right_value,
                            left: right_left,
                            right: right_right,
                        },
                    ),
                },
                _ => self,
            },
            _ => self,
        }
    }

    /// Rotating left neither adds nor drops keys and keeps the search order.
    proof fn lemma_rotate_left_order(self)
        ensures
            self.spec_rotate_left().keys() == self.keys(),
            self.bst_ordered() ==> self.spec_rotate_left().bst_ordered(),
    {
        reveal_with_fuel(Link::keys, 4);
        reveal_with_fuel(Link::bst_ordered, 4);
        match self {
            Link::ColoredLink { color, value, left, right } => {
                match *right {
                    Link::ColoredLink {
                        color: Color::Red,
                        value: right_value,
                        left: middle,
                        right: right_right,
                    } => {
                        let new_left = Link::ColoredLink {
                            color: Color::Red,
                            value,
                            left,
                            right: middle,
                        };
                        assert(new_left.keys() =~= left.keys().union(middle.keys()).insert(value));
                        assert(self.spec_rotate_left().keys() =~= self.keys());
                        if self.bst_ordered() {
                            assert(forall|k: i64| middle.keys().contains(k) ==> right.keys().contains(k));
                            assert(forall|k: i64| right_right.keys().contains(k) ==> right.keys().contains(k));
                            assert(right.keys().contains(right_value));
                            assert(new_left.bst_ordered());
                            assert(self.spec_rotate_left().bst_ordered());
                        }
                    },
                    _ => {},
                }
            },
            Link::End => {},
        }
    }

    /// Rotating right neither adds nor drops keys and keeps the search order.
    proof fn lemma_rotate_right_order(self)
        ensures
            self.spec_rotate_right().keys() == self.keys(),
            self.bst_ordered() ==> self.spec_rotate_right().bst_ordered(),
    {
        reveal_with_fuel(Link::keys, 4);
        reveal_with_fuel(Link::bst_ordered, 4);
        match self {
            Link::ColoredLink { color, value, left, right } => {
                match *left {
                    Link::ColoredLink {
                        color: Color::Red,
                        value: left_value,
                        left: left_left,
                        right: middle,
                    } => {
                        if left_left.is_red() {
                            let new_right = Link::ColoredLink {
                                color: Color::Red,
                                value,
                                left: middle,
                                right,
                            };
                            assert(new_right.keys() =~= middle.keys().union(right.keys()).insert(
                                value,
                            ));
                            assert(self.spec_rotate_right().keys() =~= self.keys());
                            if self.bst_ordered() {
                                assert(forall|k: i64|
                                    middle.keys().contains(k) ==> left.keys().contains(k));
                                assert(forall|k: i64|
                                    left_left.keys().contains(k) ==> left.keys().contains(k));
                                assert(left.keys().contains(left_value));
                                assert(new_right.bst_ordered());
                                assert(self.spec_rotate_right().bst_ordered());
                            }
                        }
                    },
                    _ => {},
                }
            },
            Link::End => {},
        }
    }

    /// Flipping colors changes no key and keeps the search order.
    proof fn lemma_color_flip_order(self)
        ensures
            self.spec_color_flip().keys() == self.keys(),
            self.bst_ordered() ==> self.spec_color_flip().bst_ordered(),
    {
        reveal_with_fuel(Link::keys, 4);
        reveal_with_fuel(Link::bst_ordered, 4);
        match self {
            Link::ColoredLink { color: Color::Black, value, left, right } => {
                match (*left, *right) {
                    (
                        Link::ColoredLink {
                            color: Color::Red,
                            value: left_value,
                            left: left_left,
                            right: left_right,
                        },
                        Link::ColoredLink {
                            color: Color::Red,
                            value: right_value,
                            left: right_left,
                            right: right_right,
                        },
                    ) => {
                        let new_left = Link::ColoredLink {
                            color: Color::Black,
                            value: left_value,
                            left: left_left,
                            right: left_right,
                        };
                        let new_right = Link::ColoredLink {
                            color: Color::Black,
                            value: right_value,
                            left: right_left,
                            right: right_right,
                        };
                        assert(new_left.keys() =~= left.keys());
                        assert(new_right.keys() =~= right.keys());
                        assert(self.spec_color_flip().keys() =~= self.keys());
                        if self.bst_ordered() {
                            assert(new_left.bst_ordered());
                            assert(new_right.bst_ordered());
                            assert(self.spec_color_flip().bst_ordered());
                        }
                    },
                    _ => {},
                }
            },
            _ => {},
        }
    }

    /// After a node is rebuilt around a freshly inserted child, applying
    /// rotate-left, rotate-right and color-flip in that order restores the
    /// left-leaning red discipline everywhere except possibly a red top with
    /// a red left child, keeps the black balance and the black height, and,
    /// when the incoming top was not red, leaves no red top over a red left
    /// child at all.
    proof fn lemma_fixup_balance(self)
        requires
            self matches Link::ColoredLink { left, right, .. } && {
                &&& left.reds_almost_ok()
                &&& right.reds_ok()
                &&& (left.top_and_left_red() ==> !right.is_red() && !self.is_red())
                &&& (self.is_red() ==> !(left.is_red() && right.is_red()))
            },
            self.balanced(),
        ensures
            ({
                let s = self.spec_rotate_left().spec_rotate_right().spec_color_flip();
                &&& s.balanced()
                &&& s.black_height() == self.black_height()
                &&& s.reds_almost_ok()
                &&& (!self.is_red() ==> !s.top_and_left_red())
            }),
    {
        reveal_with_fuel(Link::black_height, 5);
        reveal_with_fuel(Link::balanced, 5);
        reveal_with_fuel(Link::reds_ok, 5);
        let s1 = self.spec_rotate_left();
        let s2 = s1.spec_rotate_right();
        let s3 = s2.spec_color_flip();
        assert(s3.balanced() && s3.black_height() == self.black_height() && s3.reds_almost_ok()
            && (!self.is_red() ==> !s3.top_and_left_red()));
    }

    /// When the right child is a red node, lift it to the top, keeping the
    /// top's color and pushing the old top down to the left as a red node;
    /// on any other shape, the identity.
    pub fn rotate_left(self) -> (r: Link)
        ensures
            r == self.spec_rotate_left(),
    {
        match self {
            Link::ColoredLink { color, value, left, right } => {
                let right_inner = *right;
                match right_inner {
                    Link::ColoredLink {
                        color: Color::Red,
                        value: right_value,
                        left: middle,
                        right: right_right,
                    } => Link::ColoredLink {
                        color,
                        value: right_value,
                        left: Box::new(
                            Link::ColoredLink { color: Color::Red, value, left, right: middle },
                        ),
                        right: right_right,
                    },
                    other => Link::ColoredLink { color, value, left, right: Box::new(other) },
                }
            },
            Link::End => Link::End,
        }
    }

    /// When the left child and its own left child are both red, lift the left
    /// child to the top, keeping the top's color and pushing the old top down
    /// to the right as a red node; on any other shape, the identity.
    pub fn rotate_right(self) -> (r: Link)
        ensures
            r == self.spec_rotate_right(),
    {
        match self {
            Link::ColoredLink { color, value, left, right } => {
                let left_inner = *left;
                match left_inner {
                    Link::ColoredLink {
                        color: Color::Red,
                        value: left_value,
                        left: left_left,
                        right: middle,
                    } => {
                        let left_left_red = matches!(&*left_left, Link::ColoredLink { color: Color::Red, .. });
                        if left_left_red {
                            Link::ColoredLink {
                                color,
                                value: left_value,
                                left: left_left,
                                right: Box::new(
                                    Link::ColoredLink {
                                        color: Color::Red,
                                        value,
                                        left: middle,
                                        right,
                                    },
                                ),
                            }
                        } else {
                            Link::ColoredLink {
                                color,
                                value,
                                left: Box::new(
                                    Link::ColoredLink {
                                        color: Color::Red,
                                        value: left_value,
                                        left: left_left,
                                        right: middle,
                                    },
                                ),
                                right,
                            }
                        }
                    },
                    other => Link::ColoredLink { color, value, left: Box::new(other), right },
                }
            },
            Link::End => Link::End,
        }
    }

    /// Insert `value` into the subtree, rebuilding the path down to it and
    /// re-balancing with rotate-left, rotate-right and color-flip on the way
    /// back up. A key already present leaves the subtree unchanged. The
    /// result may carry the one violation a caller must absorb: a red top,
    /// possibly over a red left child; the tree blackens its top after every
    /// insertion.
    pub fn insert(self, value: i64) -> (r: Link)
        requires
            self.bst_ordered(),
            self.balanced(),
            self.reds_ok(),
        ensures
            r.keys() == self.keys().insert(value),
            r.bst_ordered(),
            r.balanced(),
            r.black_height() == self.black_height(),
            r.reds_almost_ok(),
            !self.is_red() ==> !r.top_and_left_red(),
        decreases self,
    {
        match self {
            Link::End => {
                let r = Link::ColoredLink {
                    color: Color::Red,
                    value,
                    left: Box::new(Link::End),
                    right: Box::new(Link::End),
                };
                proof {
                    assert(r.keys() =~= self.keys().insert(value));
                }
                r
            },
            Link::ColoredLink { color, value: self_value, left, right } => {
                if value > self_value {
                    let new_right = Box::new((*right).insert(value));
                    let rebuilt = Link::ColoredLink { color, value: self_value, left, right: new_right };
                    proof {
                        assert(rebuilt.keys() =~= self.keys().insert(value));
                        assert(rebuilt.bst_ordered());
                        assert(rebuilt.balanced());
                        assert(new_right.reds_ok());
                        reveal_with_fuel(Link::reds_ok, 3);
                        assert(left.reds_almost_ok());
                        assert(!left.top_and_left_red());
                        rebuilt.lemma_fixup_balance();
                        rebuilt.lemma_rotate_left_order();
                        rebuilt.spec_rotate_left().lemma_rotate_right_order();
                        rebuilt.spec_rotate_left().spec_rotate_right().lemma_color_flip_order();
                    }
                    rebuilt.rotate_left().rotate_right().color_flip()
                } else if value < self_value {
                    let new_left = Box::new((*left).insert(value));
                    let rebuilt = Link::ColoredLink { color, value: self_value, left: new_left, right };
                    proof {
                        assert(rebuilt.keys() =~= self.keys().insert(value));
                        assert(rebuilt.bst_ordered());
                        assert(rebuilt.balanced());
                        assert(right.reds_ok() && !right.is_red());
                        assert(new_left.top_and_left_red() ==> !rebuilt.is_red());
                        rebuilt.lemma_fixup_balance();
                        rebuilt.lemma_rotate_left_order();
                        rebuilt.spec_rotate_left().lemma_rotate_right_order();
                        rebuilt.spec_rotate_left().spec_rotate_right().lemma_color_flip_order();
                    }
                    rebuilt.rotate_left().rotate_right().color_flip()
                } else {
                    let rebuilt = Link::ColoredLink { color, value: self_value, left, right };
                    proof {
                        assert(rebuilt == self);
                        assert(self.keys().contains(value));
                        assert(rebuilt.keys() =~= self.keys().insert(value));
                        reveal_with_fuel(Link::reds_ok, 3);
                        assert(left.reds_almost_ok());
                        assert(!left.top_and_left_red());
                        rebuilt.lemma_fixup_balance();
                        rebuilt.lemma_rotate_left_order();
                        rebuilt.spec_rotate_left().lemma_rotate_right_order();
                        rebuilt.spec_rotate_left().spec_rotate_right().lemma_color_flip_order();
                    }
                    rebuilt.rotate_left().rotate_right().color_flip()
                }
            },
        }
    }

    /// Force the top link black: the tree applies this after every insertion,
    /// which absorbs a red top handed up by `insert`.
    pub fn make_black(self) -> (r: Link)
        ensures
            r.keys() == self.keys(),
            !r.is_red(),
            self.bst_ordered() ==> r.bst_ordered(),
            self.balanced() ==> r.balanced(),
            self.reds_almost_ok() ==> r.reds_ok(),
            r.in_order() == self.in_order(),
    {
        match self {
            Link::End => Link::End,
            Link::ColoredLink { value, left, right, .. } => {
                let r = Link::ColoredLink { color: Color::Black, value, left, right };
                proof {
                    assert(r.keys() =~= self.keys());
                    assert(r.in_order() =~= self.in_order());
                }
                r
            },
        }
    }

    /// The number of keys under this link: zero for `End`, otherwise one plus
    /// the sizes of the two children.
    pub fn size(&self) -> (r: usize)
        requires
            self.in_order().len() <= usize::MAX,
        ensures
            r == self.in_order().len(),
        decreases self,
    {
        match self {
            Link::End => 0,
            Link::ColoredLink { left, right, .. } => left.size() + right.size() + 1,
        }
    }

    /// Whether `value` is stored somewhere under this link.
    pub fn contains(&self, value: &i64) -> (r: bool)
        ensures
            r == self.keys().contains(*value),
        decreases self,
    {
        match self {
            Link::End => false,
            Link::ColoredLink { value: self_value, left, right, .. } => {
                *value == *self_value || left.contains(value) || right.contains(value)
            },
        }
    }

    /// Somewhere under this link a node has a red right child.
    pub closed spec fn has_right_red(self) -> bool
        decreases self,
    {
        match self {
            Link::End => false,
            Link::ColoredLink { left, right, .. } => right.is_red() || left.has_right_red()
                || right.has_right_red(),
        }
    }

    /// Somewhere under this link a red node has a red child.
    pub closed spec fn has_consec_red(self) -> bool
        decreases self,
    {
        match self {
            Link::End => false,
            Link::ColoredLink { color, left, right, .. } => (color == Color::Red && (left.is_red()
                || right.is_red())) || left.has_consec_red() || right.has_consec_red(),
        }
    }

    /// The count of black links on the path that always descends leftward.
    pub closed spec fn black_depth_low(self) -> nat
        decreases self,
    {
        match self {
            Link::End => 0,
            Link::ColoredLink { color, left, .. } => left.black_depth_low() + if color
                == Color::Black {
                1nat
            } else {
                0nat
            },
        }
    }

    /// The largest count of black links on any path from this link to an `End`.
    pub closed spec fn black_depth_high(self) -> nat
        decreases self,
    {
        match self {
            Link::End => 0,
            Link::ColoredLink { color, left, right, .. } => (if left.black_depth_high()
                >= right.black_depth_high() {
                left.black_depth_high()
            } else {
                right.black_depth_high()
            }) + if color == Color::Black {
                1nat
            } else {
                0nat
            },
        }
    }

    /// The count of links of any color on the path that always descends leftward.
    pub closed spec fn total_depth_low(self) -> nat
        decreases self,
    {
        match self {
            Link::End => 0,
            Link::ColoredLink { left, .. } => left.total_depth_low() + 1,
        }
    }

    /// The largest count of links of any color on any path from this link to an `End`.
    pub closed spec fn total_depth_high(self) -> nat
        decreases self,
    {
        match self {
            Link::End => 0,
            Link::ColoredLink { left, right, .. } => (if left.total_depth_high()
                >= right.total_depth_high() {
                left.total_depth_high()
            } else {
                right.total_depth_high()
            }) + 1,
        }
    }

    /// Every depth is bounded by the number of keys, which keeps the
    /// executable depth counters free of overflow.
    proof fn lemma_depth_bounds(self)
        ensures
            self.black_depth_low() <= self.black_depth_high(),
            self.black_depth_high() <= self.total_depth_high(),
            self.total_depth_low() <= self.total_depth_high(),
            self.total_depth_high() <= self.in_order().len(),
        decreases self,
    {
        match self {
            Link::End => {},
            Link::ColoredLink { left, right, .. } => {
                left.lemma_depth_bounds();
                right.lemma_depth_bounds();
                assert(self.in_order().len() == left.in_order().len() + 1
                    + right.in_order().len());
            },
        }
    }

    /// On a black-balanced link every path carries the same count of black
    /// links, so the low and high black depths agree with the black height.
    pub proof fn lemma_balanced_black_depth(self)
        requires
            self.balanced(),
        ensures
            self.black_depth_low() == self.black_height(),
            self.black_depth_high() == self.black_height(),
        decreases self,
    {
        match self {
            Link::End => {},
            Link::ColoredLink { left, right, .. } => {
                left.lemma_balanced_black_depth();
                right.lemma_balanced_black_depth();
            },
        }
    }

    /// The left-leaning red discipline holds exactly when no node has a red
    /// right child and no red node has a red child.
    pub proof fn lemma_reds_ok_shape(self)
        ensures
            self.reds_ok() <==> (!self.has_right_red() && !self.has_consec_red()),
        decreases self,
    {
        match self {
            Link::End => {},
            Link::ColoredLink { left, right, .. } => {
                left.lemma_reds_ok_shape();
                right.lemma_reds_ok_shape();
            },
        }
    }

    /// Whether every node under this link is greater than all keys on its
    /// left and smaller than all keys on its right, within the open bounds.
    fn is_bst_between(&self, lo: Option<i64>, hi: Option<i64>) -> (r: bool)
        ensures
            r == (self.bst_ordered() && (forall|k: i64|
                self.keys().contains(k) ==> ((lo matches Some(l) ==> k > l) && (hi matches Some(h)
                    ==> k < h)))),
        decreases self,
    {
        match self {
            Link::End => true,
            Link::ColoredLink { value, left, right, .. } => {
                let lo_ok = match lo {
                    Option::None => true,
                    Option::Some(l) => *value > l,
                };
                let hi_ok = match hi {
                    Option::None => true,
                    Option::Some(h) => *value < h,
                };
                let left_ok = left.is_bst_between(lo, Some(*value));
                let right_ok = right.is_bst_between(Some(*value), hi);
                let r = lo_ok && hi_ok && left_ok && right_ok;
                proof {
                    let v = *value;
                    assert(self.keys() =~= left.keys().union(right.keys()).insert(v));
                    if r {
                        assert(self.bst_ordered());
                        assert forall|k: i64|
                            self.keys().contains(k) implies ((lo matches Some(l) ==> k > l) && (
                        hi matches Some(h) ==> k < h)) by {
                            if left.keys().contains(k) {
                                assert(k < v);
                            } else if right.keys().contains(k) {
                                assert(k > v);
                            } else {
                                assert(k == v);
                            }
                        }
                    }
                    if self.bst_ordered() && (forall|k: i64|
                        self.keys().contains(k) ==> ((lo matches Some(l) ==> k > l) && (
                    hi matches Some(h) ==> k < h))) {
                        assert(self.keys().contains(v));
                        assert(lo_ok && hi_ok);
                        assert(forall|k: i64|
                            left.keys().contains(k) ==> self.keys().contains(k) && k < v);
                        assert(forall|k: i64|
                            right.keys().contains(k) ==> self.keys().contains(k) && k > v);
                        assert(left_ok);
                        assert(right_ok);
                    }
                }
                r
            },
        }
    }

    /// Whether the subtree is in binary-search order: under every node the
    /// keys on the left are smaller and the keys on the right greater than
    /// the node's own key.
    pub fn is_bst(&self) -> (r: bool)
        ensures
            r == self.bst_ordered(),
    {
        self.is_bst_between(None, None)
    }

    /// The counts of black links along root-to-`End` paths, as the range
    /// from the count on the leftmost path to one past the largest count.
    pub fn black_depth(&self) -> (r: Range<usize>)
        requires
            self.in_order().len() < usize::MAX,
        ensures
            r.start == self.black_depth_low(),
            r.end == self.black_depth_high() + 1,
        decreases self,
    {
        proof {
            self.lemma_depth_bounds();
        }
        match self {
            Link::End => Range { start: 0, end: 1 },
            Link::ColoredLink { color, left, right, .. } => {
                let left_depth = left.black_depth();
                let right_depth = right.black_depth();
                let high_end = if left_depth.end >= right_depth.end {
                    left_depth.end
                } else {
                    right_depth.end
                };
                proof {
                    left.lemma_depth_bounds();
                    right.lemma_depth_bounds();
                    assert(self.in_order().len() == left.in_order().len() + 1
                        + right.in_order().len());
                }
                match color {
                    Color::Black => Range { start: left_depth.start + 1, end: high_end + 1 },
                    Color::Red => Range { start: left_depth.start, end: high_end },
                }
            },
        }
    }

    /// The counts of links of any color along root-to-`End` paths, as the
    /// range from the count on the leftmost path to one past the largest.
    pub fn total_depth(&self) -> (r: Range<usize>)
        requires
            self.in_order().len() < usize::MAX,
        ensures
            r.start == self.total_depth_low(),
            r.end == self.total_depth_high() + 1,
        decreases self,
    {
        proof {
            self.lemma_depth_bounds();
        }
        match self {
            Link::End => Range { start: 0, end: 1 },
            Link::ColoredLink { left, right, .. } => {
                let left_depth = left.total_depth();
                let right_depth = right.total_depth();
                let high_end = if left_depth.end >= right_depth.end {
                    left_depth.end
                } else {
                    right_depth.end
                };
                proof {
                    left.lemma_depth_bounds();
                    right.lemma_depth_bounds();
                    assert(self.in_order().len() == left.in_order().len() + 1
                        + right.in_order().len());
                }
                Range { start: left_depth.start + 1, end: high_end + 1 }
            },
        }
    }

    /// Whether every path from this link to an `End` crosses the same number
    /// of black links as the leftmost path does.
    pub fn is_black_balanced(&self) -> (r: bool)
        requires
            self.in_order().len() < usize::MAX,
        ensures
            r == (self.black_depth_high() == self.black_depth_low()),
    {
        proof {
            self.lemma_depth_bounds();
        }
        let black_depth = self.black_depth();
        black_depth.end - black_depth.start <= 1
    }

    /// Whether some node under this link has a red right child.
    pub fn has_right_leaning_red_links(&self) -> (r: bool)
        ensures
            r == self.has_right_red(),
        decreases self,
    {
        match self {
            Link::End => false,
            Link::ColoredLink { left, right, .. } => {
                let right_red = matches!(&**right, Link::ColoredLink { color: Color::Red, .. });
                right_red || left.has_right_leaning_red_links()
                    || right.has_right_leaning_red_links()
            },
        }
    }

    /// Whether some red node under this link has a red child.
    pub fn has_consecutive_red_links(&self) -> (r: bool)
        ensures
            r == self.has_consec_red(),
        decreases self,
    {
        match self {
            Link::End => false,
            Link::ColoredLink { color, left, right, .. } => {
                let here_red = matches!(color, Color::Red);
                let left_red = matches!(&**left, Link::ColoredLink { color: Color::Red, .. });
                let right_red = matches!(&**right, Link::ColoredLink { color: Color::Red, .. });
                (here_red && (left_red || right_red)) || left.has_consecutive_red_links()
                    || right.has_consecutive_red_links()
            },
        }
    }

    /// The facts that tie the in-order sequence to the key set: the keys are
    /// finite and are exactly the members of the sequence, and on a subtree
    /// in binary-search order the sequence is strictly ascending, so its
    /// length is the number of keys.
    pub proof fn lemma_in_order_props(self)
        ensures
            self.keys().finite(),
            self.in_order().to_set() == self.keys(),
            self.bst_ordered() ==> strictly_sorted(self.in_order()),
            self.bst_ordered() ==> self.in_order().len() == self.keys().len(),
        decreases self,
    {
        match self {
            Link::End => {
                assert(self.in_order().to_set() =~= self.keys());
            },
            Link::ColoredLink { value, left, right, .. } => {
                left.lemma_in_order_props();
                right.lemma_in_order_props();
                let mid = seq![value];
                assert(mid[0] == value);
                assert(mid.to_set() =~= Set::empty().insert(value));
                seq_to_set_distributes_over_add(left.in_order(), mid);
                seq_to_set_distributes_over_add(left.in_order() + mid, right.in_order());
                assert(self.in_order() == left.in_order() + mid + right.in_order());
                assert(self.in_order().to_set() =~= self.keys());
                if self.bst_ordered() {
                    let s = self.in_order();
                    let a = left.in_order();
                    let b = right.in_order();
                    let ll = a.len() as int;
                    assert(s[ll] == value);
                    assert forall|i: int, j: int| 0 <= i < j < s.len() implies s[i] < s[j] by {
                        if i < ll {
                            assert(s[i] == a[i]);
                            assert(a.contains(a[i]));
                            assert(left.keys().contains(a[i]));
                            assert(s[i] < value);
                        }
                        if ll < i {
                            assert(s[i] == b[i - ll - 1]);
                            assert(b.contains(b[i - ll - 1]));
                            assert(right.keys().contains(b[i - ll - 1]));
                            assert(s[i] > value);
                        }
                        if j < ll {
                            assert(s[j] == a[j]);
                            assert(a.contains(a[j]));
                            assert(left.keys().contains(a[j]));
                            assert(s[j] < value);
                        }
                        if ll < j {
                            assert(s[j] == b[j - ll - 1]);
                            assert(b.contains(b[j - ll - 1]));
                            assert(right.keys().contains(b[j - ll - 1]));
                            assert(s[j] > value);
                        }
                        if i < ll && j < ll {
                            assert(a[i] < a[j]);
                        }
                        if ll < i && ll < j {
                            assert(b[i - ll - 1] < b[j - ll - 1]);
                        }
                    }
                    assert(strictly_sorted(s));
                    assert(s.no_duplicates());
                    s.unique_seq_to_set();
                }
            },
        }
    }

    /// When a black node has two red children, redden the top and blacken
    /// both children; on any other shape, the identity.
    pub fn color_flip(self) -> (r: Link)
        ensures
            r == self.spec_color_flip(),
    {
        match self {
            Link::ColoredLink { color: Color::Black, value, left, right } => {
                let left_inner = *left;
                let right_inner = *right;
                match (left_inner, right_inner) {
                    (
                        Link::ColoredLink {
                            color: Color::Red,
                            value: left_value,
                            left: left_left,
                            right: left_right,
                        },
                        Link::ColoredLink {
                            color: Color::Red,
                            value: right_value,
                            left: right_left,
                            right: right_right,
                        },
                    ) => Link::ColoredLink {
                        color: Color::Red,
                        value,
                        left: Box::new(
                            Link::ColoredLink {
                                color: Color::Black,
                                value: left_value,
                                left: left_left,
                                right: left_right,
                            },
                        ),
                        right: Box::new(
                            Link::ColoredLink {
                                color: Color::Black,
                                value: right_value,
                                left: right_left,
                                right: right_right,
                            },
                        ),
                    },
                    (l, r) => Link::ColoredLink {
                        color: Color::Black,
                        value,
                        left: Box::new(l),
                        right: Box::new(r),
                    },
                }
            },
            other => other,
        }
    }
}

/// The key of a node followed by its right subtree's keys in order; what a
/// stacked node still owes an in-order traversal after its left spine has
/// been dealt with.
pub closed spec fn link_front(l: Link) -> Seq<i64> {
    match l {
        Link::End => Seq::empty(),
        Link::ColoredLink { value, right, .. } => seq![value] + right.in_order(),
    }
}

/// The keys a by-reference iterator has yet to yield: the top of the stack
/// contributes first, then the entries below it.
pub closed spec fn pending_refs(s: Seq<&Link>) -> Seq<i64>
    decreases s.len(),
{
    if s.len() == 0 {
        Seq::empty()
    } else {
        link_front(*s.last()) + pending_refs(s.drop_last())
    }
}

/// The keys a consuming iterator has yet to yield.
pub closed spec fn pending_owned(s: Seq<Link>) -> Seq<i64>
    decreases s.len(),
{
    if s.len() == 0 {
        Seq::empty()
    } else {
        link_front(s.last()) + pending_owned(s.drop_last())
    }
}

/// A lazy in-order traversal that yields references to the keys in ascending
/// order. It keeps an explicit stack of the nodes still awaiting their visit,
/// so no recursion is needed.
pub struct Iter<'a> {
    link_path: Vec<&'a Link>,
}

impl<'a> Iter<'a> {
    /// Every stacked link is a node awaiting its in-order visit.
    pub closed spec fn wf(self) -> bool {
        forall|i: int| 0 <= i < self.link_path@.len() ==> self.link_path@[i] is ColoredLink
    }

    /// The keys not yet yielded, in the order they will come out.
    pub closed spec fn pending(self) -> Seq<i64> {
        pending_refs(self.link_path@)
    }

    /// Stack the leftward spine of the tree; the deepest node is the first
    /// key of the traversal.
    pub fn new(tree: &'a Link) -> (it: Iter<'a>)
        ensures
            it.wf(),
            it.pending() == tree.in_order(),
    {
        let mut link_path: Vec<&'a Link> = Vec::new();
        let mut link: &'a Link = tree;
        loop
            invariant_except_break
                forall|i: int| 0 <= i < link_path@.len() ==> link_path@[i] is ColoredLink,
                link.in_order() + pending_refs(link_path@) == tree.in_order(),
            ensures
                forall|i: int| 0 <= i < link_path@.len() ==> link_path@[i] is ColoredLink,
                pending_refs(link_path@) == tree.in_order(),
            decreases *link,
        {
            match link {
                Link::End => {
                    proof {
                        assert(link.in_order() + pending_refs(link_path@) =~= pending_refs(
                            link_path@,
                        ));
                    }
                    break ;
                },
                Link::ColoredLink { left, .. } => {
                    let ghost old_stack = link_path@;
                    link_path.push(link);
                    proof {
                        assert(link_path@.drop_last() =~= old_stack);
                        assert(link_path@.last() == link);
                        assert((&**left).in_order() + pending_refs(link_path@) =~= tree.in_order());
                    }
                    link = &**left;
                },
            }
        }
        Iter { link_path }
    }

    /// Pop the next node, yield its key, and stack the leftward spine of its
    /// right subtree. Yields `None` once every key has been seen.
    pub fn next(&mut self) -> (r: Option<&'a i64>)
        requires
            old(self).wf(),
        ensures
            final(self).wf(),
            old(self).pending().len() == 0 ==> r is None && final(self).pending() == old(
                self,
            ).pending(),
            old(self).pending().len() > 0 ==> (r matches Some(v) && *v == old(self).pending()[0]
                && final(self).pending() == old(self).pending().drop_first()),
    {
        let tail = self.link_path.pop();
        match tail {
            Option::None => Option::None,
            Option::Some(link) => {
                match link {
                    Link::ColoredLink { value, right, .. } => {
                        proof {
                            assert(old(self).link_path@.last() == link);
                            assert(old(self).pending() == link_front(*link) + pending_refs(
                                self.link_path@,
                            ));
                        }
                        let ghost base = self.link_path@;
                        let mut cur: &'a Link = &**right;
                        loop
                            invariant_except_break
                                forall|i: int|
                                    0 <= i < self.link_path@.len() ==> self.link_path@[i]
                                        is ColoredLink,
                                cur.in_order() + pending_refs(self.link_path@) == (
                                &**right).in_order() + pending_refs(base),
                            ensures
                                forall|i: int|
                                    0 <= i < self.link_path@.len() ==> self.link_path@[i]
                                        is ColoredLink,
                                pending_refs(self.link_path@) == (&**right).in_order()
                                    + pending_refs(base),
                            decreases *cur,
                        {
                            match cur {
                                Link::End => {
                                    proof {
                                        assert(cur.in_order() + pending_refs(self.link_path@)
                                            =~= pending_refs(self.link_path@));
                                    }
                                    break ;
                                },
                                Link::ColoredLink { left, .. } => {
                                    let ghost old_stack = self.link_path@;
                                    self.link_path.push(cur);
                                    proof {
                                        assert(self.link_path@.drop_last() =~= old_stack);
                                        assert(self.link_path@.last() == cur);
                                        assert((&**left).in_order() + pending_refs(self.link_path@)
                                            =~= (&**right).in_order() + pending_refs(base));
                                    }
                                    cur = &**left;
                                },
                            }
                        }
                        proof {
                            assert(old(self).pending()[0] == *value);
                            assert(final(self).pending() =~= old(self).pending().drop_first());
                        }
                        Option::Some(value)
                    },
                    Link::End => {
                        proof {
                            assert(false);
                        }
                        Option::None
                    },
                }
            },
        }
    }
}

/// An in-order traversal that consumes the tree and yields owned keys in
/// ascending order. Each stacked node has already given its left subtree
/// away, so its left child is `End`.
pub struct IntoIter {
    link_path: Vec<Link>,
}

impl IntoIter {
    /// Every stacked link is a node whose left child has been replaced by
    /// `End`, because ownership of the left subtree was distributed into the
    /// stack when the node was pushed.
    pub closed spec fn wf(self) -> bool {
        forall|i: int| #![trigger self.link_path@[i]]
            0 <= i < self.link_path@.len() ==> (self.link_path@[i] matches Link::ColoredLink {
                left,
                ..
            } && *left == Link::End)
    }

    /// The keys not yet yielded, in the order they will come out.
    pub closed spec fn pending(self) -> Seq<i64> {
        pending_owned(self.link_path@)
    }

    /// Take the tree apart along its leftward spine, stacking each node with
    /// its left child detached.
    pub fn new(tree: Link) -> (it: IntoIter)
        ensures
            it.wf(),
            it.pending() == tree.in_order(),
    {
        let mut link_path: Vec<Link> = Vec::new();
        let mut link: Link = tree;
        loop
            invariant_except_break
                forall|i: int| #![trigger link_path@[i]]
                    0 <= i < link_path@.len() ==> (link_path@[i] matches Link::ColoredLink {
                        left,
                        ..
                    } && *left == Link::End),
                link.in_order() + pending_owned(link_path@) == tree.in_order(),
            ensures
                forall|i: int| #![trigger link_path@[i]]
                    0 <= i < link_path@.len() ==> (link_path@[i] matches Link::ColoredLink {
                        left,
                        ..
                    } && *left == Link::End),
                pending_owned(link_path@) == tree.in_order(),
            decreases link,
        {
            match link {
                Link::End => {
                    proof {
                        assert(Link::End.in_order() + pending_owned(link_path@) =~= pending_owned(
                            link_path@,
                        ));
                    }
                    break ;
                },
                Link::ColoredLink { color, value, left, right } => {
                    let elem = Link::ColoredLink {
                        color,
                        value,
                        left: Box::new(Link::End),
                        right,
                    };
                    let ghost old_stack = link_path@;
                    link_path.push(elem);
                    proof {
                        assert(link_path@.drop_last() =~= old_stack);
                        assert(link_path@.last() == elem);
                        assert((*left).in_order() + pending_owned(link_path@) =~= tree.in_order());
                    }
                    link = *left;
                },
            }
        }
        IntoIter { link_path }
    }

    /// Pop the next node, yield its key, and take its right subtree apart
    /// onto the stack. Yields `None` once every key has been handed out.
    pub fn next(&mut self) -> (r: Option<i64>)
        requires
            old(self).wf(),
        ensures
            final(self).wf(),
            old(self).pending().len() == 0 ==> r is None && final(self).pending() == old(
                self,
            ).pending(),
            old(self).pending().len() > 0 ==> (r == Some(old(self).pending()[0])
                && final(self).pending() == old(self).pending().drop_first()),
    {
        let tail = self.link_path.pop();
        match tail {
            Option::None => Option::None,
            Option::Some(link) => {
                match link {
                    Link::ColoredLink { value, right, .. } => {
                        proof {
                            assert(old(self).link_path@.last() == link);
                            assert(old(self).pending() == link_front(link) + pending_owned(
                                self.link_path@,
                            ));
                        }
                        let ghost base = self.link_path@;
                        let ghost right_snapshot = *right;
                        let mut cur: Link = *right;
                        loop
                            invariant_except_break
                                forall|i: int| #![trigger self.link_path@[i]]
                                    0 <= i < self.link_path@.len() ==> (self.link_path@[i]
                                        matches Link::ColoredLink { left, .. } && *left
                                        == Link::End),
                                cur.in_order() + pending_owned(self.link_path@)
                                    == right_snapshot.in_order() + pending_owned(base),
                            ensures
                                forall|i: int| #![trigger self.link_path@[i]]
                                    0 <= i < self.link_path@.len() ==> (self.link_path@[i]
                                        matches Link::ColoredLink { left, .. } && *left
                                        == Link::End),
                                pending_owned(self.link_path@) == right_snapshot.in_order()
                                    + pending_owned(base),
                            decreases cur,
                        {
                            match cur {
                                Link::End => {
                                    proof {
                                        assert(Link::End.in_order() + pending_owned(
                                            self.link_path@,
                                        ) =~= pending_owned(self.link_path@));
                                    }
                                    break ;
                                },
                                Link::ColoredLink { color, value, left, right } => {
                                    let elem = Link::ColoredLink {
                                        color,
                                        value,
                                        left: Box::new(Link::End),
                                        right,
                                    };
                                    let ghost old_stack = self.link_path@;
                                    self.link_path.push(elem);
                                    proof {
                                        assert(self.link_path@.drop_last() =~= old_stack);
                                        assert(self.link_path@.last() == elem);
                                        assert((*left).in_order() + pending_owned(self.link_path@)
                                            =~= right_snapshot.in_order() + pending_owned(base));
                                    }
                                    cur = *left;
                                },
                            }
                        }
                        proof {
                            assert(old(self).pending()[0] == value);
                            assert(final(self).pending() =~= old(self).pending().drop_first());
                        }
                        Option::Some(value)
                    },
                    Link::End => {
                        proof {
                            assert(false);
                        }
                        Option::None
                    },
                }
            },
        }
    }
}

/// The public handle: it owns the top link and keeps its color black, so the
/// structural invariants of a left-leaning red-black tree hold between any
/// two public calls.
pub struct Tree {
    top: Link,
}

impl View for Tree {
    type V = Set<i64>;

    /// A tree abstracts to the set of keys it holds.
    closed spec fn view(&self) -> Set<i64> {
        self.top.keys()
    }
}

impl Tree {
    /// The tree's invariants: binary-search order, perfect black balance,
    /// the left-leaning red discipline, and a black top.
    pub closed spec fn wf(self) -> bool {
        &&& self.top.bst_ordered()
        &&& self.top.balanced()
        &&& self.top.reds_ok()
        &&& !self.top.is_red()
    }

    /// The keys of the tree in ascending order.
    pub closed spec fn ordered_keys(self) -> Seq<i64> {
        self.top.in_order()
    }

    /// An empty tree.
    pub fn new() -> (t: Tree)
        ensures
            t.wf(),
            t@ == Set::<i64>::empty(),
            t.ordered_keys() == Seq::<i64>::empty(),
    {
        Tree { top: Link::End }
    }

    /// Insert a key; a key already present leaves the tree unchanged.
    pub fn insert(&mut self, value: i64)
        requires
            old(self).wf(),
        ensures
            final(self).wf(),
            final(self)@ == old(self)@.insert(value),
    {
        let mut top = Link::End;
        core::mem::swap(&mut self.top, &mut top);
        let top = top.insert(value);
        let top = top.make_black();
        self.top = top;
    }

    /// The number of keys in the tree.
    pub fn size(&self) -> (r: usize)
        requires
            self.wf(),
            self@.len() <= usize::MAX,
        ensures
            r == self@.len(),
    {
        proof {
            self.top.lemma_in_order_props();
        }
        self.top.size()
    }

    /// Whether the tree holds `value`.
    pub fn contains(&self, value: &i64) -> (r: bool)
        ensures
            r == self@.contains(*value),
    {
        self.top.contains(value)
    }

    /// An iterator over references to the keys, in ascending order.
    pub fn iter(&self) -> (it: Iter<'_>)
        ensures
            it.wf(),
            it.pending() == self.ordered_keys(),
    {
        Iter::new(&self.top)
    }

    /// An iterator that consumes the tree and yields its keys, ascending.
    pub fn into_iter(self) -> (it: IntoIter)
        ensures
            it.wf(),
            it.pending() == self.ordered_keys(),
    {
        IntoIter::new(self.top)
    }

    /// Build a tree by inserting the values one at a time, in order.
    pub fn from_vec(values: &Vec<i64>) -> (t: Tree)
        ensures
            t.wf(),
            t@ == values@.to_set(),
    {
        let mut tree = Tree::new();
        let ghost vals = values@;
        proof {
            assert(vals.subrange(0, 0) =~= Seq::<i64>::empty());
            assert(Seq::<i64>::empty().to_set() =~= Set::<i64>::empty());
        }
        let mut i: usize = 0;
        while i < values.len()
            invariant
                i <= values.len(),
                tree.wf(),
                values@ == vals,
                tree@ == vals.subrange(0, i as int).to_set(),
            decreases values.len() - i,
        {
            tree.insert(values[i]);
            proof {
                assert(vals.subrange(0, i + 1) =~= vals.subrange(0, i as int).push(vals[i as int]));
                vals.subrange(0, i as int).lemma_push_to_set_commute(vals[i as int]);
            }
            i = i + 1;
        }
        proof {
            assert(vals.subrange(0, vals.len() as int) =~= vals);
        }
        tree
    }

    /// Law: the in-order traversal of a well-formed tree is strictly
    /// ascending, its members are exactly the tree's keys, and its length is
    /// the number of keys; it is therefore the sorted, duplicate-free listing
    /// of everything ever inserted.
    pub proof fn lemma_in_order_sorted(self)
        requires
            self.wf(),
        ensures
            strictly_sorted(self.ordered_keys()),
            self.ordered_keys().to_set() == self@,
            self.ordered_keys().len() == self@.len(),
            self@.finite(),
    {
        self.top.lemma_in_order_props();
    }

    /// Law: a well-formed tree is perfectly black-balanced (the range of
    /// black depths over all paths has width zero), has no right-leaning red
    /// link, and no two consecutive red links.
    pub proof fn lemma_shape(self)
        requires
            self.wf(),
        ensures
            self.top_link().black_depth_low() == self.top_link().black_depth_high(),
            !self.top_link().has_right_red(),
            !self.top_link().has_consec_red(),
    {
        self.top.lemma_balanced_black_depth();
        self.top.lemma_reds_ok_shape();
    }

    /// The top link of the tree, for stating laws about its shape.
    pub closed spec fn top_link(self) -> Link {
        self.top
    }
}

/// Law: inserting a key that is already present changes nothing, so a tree
/// built by inserting a key twice holds the same keys — and so answers every
/// `contains` and `size` query the same — as one built by inserting it once.
pub proof fn lemma_duplicate_insert(s: Set<i64>, value: i64)
    ensures
        s.insert(value).insert(value) == s.insert(value),
{
    assert(s.insert(value).insert(value) =~= s.insert(value));
}

/// Law: a strictly ascending sequence is determined by the set of its
/// members; with `lemma_in_order_sorted`, collecting a tree's traversal
/// therefore gives exactly the sorted deduplication of the inserted keys.
pub proof fn lemma_sorted_unique(a: Seq<i64>, b: Seq<i64>)
    requires
        strictly_sorted(a),
        strictly_sorted(b),
        a.to_set() == b.to_set(),
    ensures
        a == b,
    decreases a.len(),
{
    if a.len() == 0 {
        if b.len() > 0 {
            assert(b.contains(b[0]));
            assert(b.to_set().contains(b[0]));
            assert(a.to_set().contains(b[0]));
            assert(false);
        }
        assert(a =~= b);
    } else {
        assert(a.contains(a[0]));
        assert(a.to_set().contains(a[0]));
        assert(b.to_set().contains(a[0]));
        assert(b.contains(a[0]));
        let j = choose|j: int| 0 <= j < b.len() && b[j] == a[0];
        assert(b.contains(b[0]));
        assert(a.to_set().contains(b[0]));
        let i = choose|i: int| 0 <= i < a.len() && a[i] == b[0];
        assert(a[0] <= a[i]);
        assert(b[0] <= b[j]);
        assert(a[0] == b[0]);
        let a_rest = a.drop_first();
        let b_rest = b.drop_first();
        assert forall|x: i64| a_rest.to_set().contains(x) implies b_rest.to_set().contains(x) by {
            assert(a_rest.contains(x));
            let k = choose|k: int| 0 <= k < a_rest.len() && a_rest[k] == x;
            assert(a[k + 1] == x);
            assert(a[0] < x);
            assert(a.to_set().contains(x));
            assert(b.contains(x));
            let m = choose|m: int| 0 <= m < b.len() && b[m] == x;
            assert(m != 0);
            assert(b_rest[m - 1] == x);
            assert(b_rest.contains(x));
        }
        assert forall|x: i64| b_rest.to_set().contains(x) implies a_rest.to_set().contains(x) by {
            assert(b_rest.contains(x));
            let k = choose|k: int| 0 <= k < b_rest.len() && b_rest[k] == x;
            assert(b[k + 1] == x);
            assert(b[0] < x);
            assert(b.to_set().contains(x));
            assert(a.contains(x));
            let m = choose|m: int| 0 <= m < a.len() && a[m] == x;
            assert(m != 0);
            assert(a_rest[m - 1] == x);
            assert(a_rest.contains(x));
        }
        assert(a_rest.to_set() =~= b_rest.to_set());
        lemma_sorted_unique(a_rest, b_rest);
        assert forall|k: int| 0 <= k < a.len() implies a[k] == b[k] by {
            if k > 0 {
                assert(a_rest[k - 1] == b_rest[k - 1]);
            }
        }
        assert(a =~= b);
    }
}

} // verus!
