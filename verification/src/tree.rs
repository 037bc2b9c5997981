//! The code tree: a binary tree with one symbol per node.
//!
//! A left edge stands for a dot and a right edge for a dash, so a run of dots
//! and dashes names at most one node: the one reached by following it from
//! the root. The empty run names the root itself.

use vstd::prelude::*;
use crate::signal::{DASH, DOT};

verus! {

/// A node of a code tree, with the subtree under its dot edge (`left`) and the
/// subtree under its dash edge (`right`).
pub struct BinaryTree<T> {
    pub value: T,
    pub left: Option<Box<BinaryTree<T>>>,
    pub right: Option<Box<BinaryTree<T>>>,
}

impl<T> BinaryTree<T> {
    /// The subtree that `code` leads to from the root of `tree`: none where an
    /// edge is missing on the way, or where `code` holds anything but dots and
    /// dashes.
    pub open spec fn subtree(tree: Option<Box<Self>>, code: Seq<char>) -> Option<Box<Self>>
        decreases code.len(),
    {
        if code.len() == 0 {
            tree
        } else {
            match tree {
                None => None,
                Some(node) => if code[0] == DOT {
                    Self::subtree(node.left, code.drop_first())
                } else if code[0] == DASH {
                    Self::subtree(node.right, code.drop_first())
                } else {
                    None
                },
            }
        }
    }

    /// The symbol of the node that `code` names in `tree`, if it names one.
    pub open spec fn symbol_at(tree: Option<Box<Self>>, code: Seq<char>) -> Option<T> {
        match Self::subtree(tree, code) {
            Some(node) => Some(node.value),
            None => None,
        }
    }

    /// How many nodes of `tree` hold `symbol`.
    pub open spec fn occurrences(tree: Option<Box<Self>>, symbol: T) -> nat
        decreases tree,
    {
        match tree {
            None => 0,
            Some(node) => (if node.value == symbol {
                1nat
            } else {
                0nat
            }) + Self::occurrences(node.left, symbol) + Self::occurrences(node.right, symbol),
        }
    }

    /// A leaf that holds `value`: the empty code names it, and no code names
    /// anything else.
    pub fn new(value: T) -> (tree: Self)
        ensures
            tree == (BinaryTree { value, left: None, right: None }),
            tree@ == Map::<Seq<char>, T>::empty().insert(Seq::empty(), value),
    {
        let tree = Self { value, left: None, right: None };
        proof {
            let root = Some(Box::new(tree));
            assert forall|code: Seq<char>| code.len() > 0 implies Self::subtree(root, code)
                is None by {
                reveal_with_fuel(BinaryTree::subtree, 2);
            }
            assert forall|code: Seq<char>| code.len() == 0 implies code == Seq::<char>::empty() by {}
        }
        tree
    }

    /// This node with `value` as its dot subtree, in place of the one it had:
    /// a code that begins with a dot now names what the rest of it names in
    /// `value`, and every other code names what it named.
    pub fn left(self, value: BinaryTree<T>) -> (tree: Self)
        ensures
            tree == (BinaryTree { value: self.value, left: Some(Box::new(value)), right: self.right }),
            forall|code: Seq<char>| #[trigger]
                tree@.get(code) == if code.len() > 0 && code[0] == DOT {
                    value@.get(code.drop_first())
                } else {
                    self@.get(code)
                },
    {
        let mut tree = self;
        tree.left = Some(Box::new(value));
        proof {
            let root = Some(Box::new(tree));
            let before = Some(Box::new(self));
            assert forall|code: Seq<char>| #[trigger]
                tree@.get(code) == if code.len() > 0 && code[0] == DOT {
                    value@.get(code.drop_first())
                } else {
                    self@.get(code)
                } by {
                if code.len() > 0 && code[0] == DOT {
                    assert(Self::subtree(root, code) == Self::subtree(
                        Some(Box::new(value)),
                        code.drop_first(),
                    ));
                } else if code.len() > 0 {
                    assert(Self::subtree(root, code) == Self::subtree(before, code));
                }
            }
        }
        tree
    }

    /// This node with `value` as its dash subtree, in place of the one it had:
    /// a code that begins with a dash now names what the rest of it names in
    /// `value`, and every other code names what it named.
    pub fn right(self, value: BinaryTree<T>) -> (tree: Self)
        ensures
            tree == (BinaryTree { value: self.value, left: self.left, right: Some(Box::new(value)) }),
            forall|code: Seq<char>| #[trigger]
                tree@.get(code) == if code.len() > 0 && code[0] == DASH {
                    value@.get(code.drop_first())
                } else {
                    self@.get(code)
                },
    {
        let mut tree = self;
        tree.right = Some(Box::new(value));
        proof {
            let root = Some(Box::new(tree));
            let before = Some(Box::new(self));
            assert forall|code: Seq<char>| #[trigger]
                tree@.get(code) == if code.len() > 0 && code[0] == DASH {
                    value@.get(code.drop_first())
                } else {
                    self@.get(code)
                } by {
                if code.len() > 0 && code[0] == DASH {
                    assert(Self::subtree(root, code) == Self::subtree(
                        Some(Box::new(value)),
                        code.drop_first(),
                    ));
                } else if code.len() > 0 {
                    assert(Self::subtree(root, code) == Self::subtree(before, code));
                }
            }
        }
        tree
    }
}

/// A tree is read as its code book: the map from each code that names a node
/// to that node's symbol.
impl<T> View for BinaryTree<T> {
    type V = Map<Seq<char>, T>;

    open spec fn view(&self) -> Map<Seq<char>, T> {
        Map::new(
            |code: Seq<char>| Self::subtree(Some(Box::new(*self)), code) is Some,
            |code: Seq<char>| Self::subtree(Some(Box::new(*self)), code)->0.value,
        )
    }
}

} // verus!
