//! How the code found for a symbol and the node named by a code go together.

use vstd::prelude::*;
use crate::encoder::code_of;
use crate::signal::{is_code, DASH, DOT, GAP};
use crate::tree::BinaryTree;

verus! {

/// Whether the search for a symbol comes to the node named by `first` no
/// later than to the node named by `second`: a node is met before the nodes
/// under it, and the nodes under a dot edge before those under the dash edge
/// beside it.
pub open spec fn met_before(first: Seq<char>, second: Seq<char>) -> bool
    decreases first.len(),
{
    if first.len() == 0 {
        true
    } else if second.len() == 0 {
        false
    } else if first[0] == second[0] {
        met_before(first.drop_first(), second.drop_first())
    } else {
        first[0] == DOT
    }
}

/// The code found for a symbol is made of dots and dashes and names a node
/// that holds the symbol.
pub proof fn lemma_code_names_symbol(tree: Option<Box<BinaryTree<char>>>, symbol: char)
    requires
        code_of(tree, symbol) is Some,
    ensures
        is_code(code_of(tree, symbol)->0),
        BinaryTree::symbol_at(tree, code_of(tree, symbol)->0) == Some(symbol),
    decreases tree,
{
    let node = tree->0;
    let code = code_of(tree, symbol)->0;
    if node.value != symbol {
        if code_of(node.left, symbol) is Some {
            lemma_code_names_symbol(node.left, symbol);
            assert(code.drop_first() == code_of(node.left, symbol)->0);
        } else {
            lemma_code_names_symbol(node.right, symbol);
            assert(code.drop_first() == code_of(node.right, symbol)->0);
        }
    }
}

/// Where some code names a node that holds the symbol, a code is found for
/// the symbol, and the node it names is met no later than that one.
pub proof fn lemma_code_is_first(tree: Option<Box<BinaryTree<char>>>, symbol: char, other: Seq<char>)
    requires
        BinaryTree::symbol_at(tree, other) == Some(symbol),
    ensures
        code_of(tree, symbol) is Some,
        met_before(code_of(tree, symbol)->0, other),
    decreases other.len(),
{
    let node = tree->0;
    let code = code_of(tree, symbol)->0;
    if node.value != symbol {
        let rest = other.drop_first();
        if other[0] == DOT {
            lemma_code_is_first(node.left, symbol, rest);
            assert(code.drop_first() == code_of(node.left, symbol)->0);
        } else {
            lemma_code_is_first(node.right, symbol, rest);
            if code_of(node.left, symbol) is None {
                assert(code.drop_first() == code_of(node.right, symbol)->0);
            }
        }
    }
}

/// The code book of a tree holds the code found for a symbol, with that
/// symbol, and no code with that symbol that is met earlier; where no code is
/// found for a symbol, the book holds the symbol nowhere.
pub proof fn theorem_code_is_first_in_book(tree: BinaryTree<char>, symbol: char)
    ensures
        match code_of(Some(Box::new(tree)), symbol) {
            Some(code) => tree@.contains_pair(code, symbol) && forall|other: Seq<char>|
                tree@.contains_pair(other, symbol) ==> met_before(code, other),
            None => forall|other: Seq<char>| !tree@.contains_pair(other, symbol),
        },
{
    let root = Some(Box::new(tree));
    if code_of(root, symbol) is Some {
        lemma_code_names_symbol(root, symbol);
    }
    assert forall|other: Seq<char>| tree@.contains_pair(other, symbol) implies code_of(
        root,
        symbol,
    ) is Some && met_before(code_of(root, symbol)->0, other) by {
        lemma_code_is_first(root, symbol, other);
    }
}

/// A symbol that some code names a node for occurs in the tree.
pub proof fn lemma_named_symbol_occurs(tree: Option<Box<BinaryTree<char>>>, symbol: char, code: Seq<char>)
    requires
        BinaryTree::symbol_at(tree, code) == Some(symbol),
    ensures
        BinaryTree::occurrences(tree, symbol) >= 1,
    decreases code.len(),
{
    if code.len() > 0 {
        if code[0] == DOT {
            lemma_named_symbol_occurs(tree->0.left, symbol, code.drop_first());
        } else {
            lemma_named_symbol_occurs(tree->0.right, symbol, code.drop_first());
        }
    }
}

/// A code is found for exactly the symbols that occur in the tree.
pub proof fn lemma_code_for_what_occurs(tree: Option<Box<BinaryTree<char>>>, symbol: char)
    ensures
        code_of(tree, symbol) is Some <==> BinaryTree::occurrences(tree, symbol) >= 1,
    decreases tree,
{
    match tree {
        None => {},
        Some(node) => {
            lemma_code_for_what_occurs(node.left, symbol);
            lemma_code_for_what_occurs(node.right, symbol);
        },
    }
}

/// For a symbol that occurs once in the tree, encoding and decoding are
/// inverse to each other: the one code that names its node is the code that
/// is found for it.
pub proof fn theorem_single_place(tree: Option<Box<BinaryTree<char>>>, symbol: char, code: Seq<char>)
    requires
        BinaryTree::occurrences(tree, symbol) <= 1,
    ensures
        BinaryTree::symbol_at(tree, code) == Some(symbol) <==> code_of(tree, symbol) == Some(code),
    decreases code.len(),
{
    if code_of(tree, symbol) == Some(code) {
        lemma_code_names_symbol(tree, symbol);
    }
    if BinaryTree::symbol_at(tree, code) == Some(symbol) {
        let node = tree->0;
        lemma_named_symbol_occurs(tree, symbol, code);
        lemma_code_for_what_occurs(node.left, symbol);
        lemma_code_for_what_occurs(node.right, symbol);
        if code.len() == 0 {
            assert(code == Seq::<char>::empty());
        } else {
            let rest = code.drop_first();
            if code[0] == DOT {
                lemma_named_symbol_occurs(node.left, symbol, rest);
                theorem_single_place(node.left, symbol, rest);
                assert(seq![DOT] + rest == code);
            } else {
                lemma_named_symbol_occurs(node.right, symbol, rest);
                theorem_single_place(node.right, symbol, rest);
                assert(seq![DASH] + rest == code);
            }
        }
    }
}

/// Only a run of dots and dashes names a node.
pub proof fn lemma_names_only_by_code(tree: Option<Box<BinaryTree<char>>>, code: Seq<char>)
    requires
        BinaryTree::subtree(tree, code) is Some,
    ensures
        is_code(code),
        !code.contains(GAP),
    decreases code.len(),
{
    if code.len() > 0 {
        let rest = code.drop_first();
        if code[0] == DOT {
            lemma_names_only_by_code(tree->0.left, rest);
        } else {
            lemma_names_only_by_code(tree->0.right, rest);
        }
        assert forall|i: int| 0 <= i < code.len() implies code[i] == DOT || code[i] == DASH by {
            if i > 0 {
                assert(code[i] == rest[i - 1]);
            }
        }
    }
}

} // verus!
