//! What holds of encoded text.

use vstd::prelude::*;
use crate::encoder::{code_of, encoded, letter_code};
use crate::laws::book::lemma_code_names_symbol;
use crate::signal::{is_signals, DASH, DOT, GAP};
use crate::tree::BinaryTree;

verus! {

/// Encoding goes character by character: the encoding of two texts joined
/// is the two encodings joined.
pub proof fn lemma_encoded_joined(first: Seq<char>, second: Seq<char>, tree: Option<Box<BinaryTree<char>>>)
    ensures
        encoded(first + second, tree) == encoded(first, tree) + encoded(second, tree),
    decreases second.len(),
{
    if second.len() > 0 {
        assert((first + second).drop_last() == first + second.drop_last());
        lemma_encoded_joined(first, second.drop_last(), tree);
    }
}

/// A character that the tree does not hold adds a gap to the encoding and
/// nothing else, and leaves the encoding of what stands around it as it is.
pub proof fn theorem_unmapped_symbol_adds_gap(
    before: Seq<char>,
    symbol: char,
    after: Seq<char>,
    tree: Option<Box<BinaryTree<char>>>,
)
    requires
        code_of(tree, symbol) is None,
    ensures
        encoded(before.push(symbol) + after, tree) == encoded(before, tree).push(GAP) + encoded(
            after,
            tree,
        ),
{
    lemma_encoded_joined(before.push(symbol), after, tree);
    assert(before.push(symbol).drop_last() == before);
}

/// Encoded text is made of dots, dashes and gaps, and ends in a gap unless
/// the text was empty.
pub proof fn theorem_encoded_signals(text: Seq<char>, tree: Option<Box<BinaryTree<char>>>)
    ensures
        is_signals(encoded(text, tree)),
        text.len() > 0 ==> encoded(text, tree).len() > 0 && encoded(text, tree).last() == GAP,
    decreases text.len(),
{
    if text.len() > 0 {
        theorem_encoded_signals(text.drop_last(), tree);
        if code_of(tree, text.last()) is Some {
            lemma_code_names_symbol(tree, text.last());
        }
        // a signal stands in what was encoded before, in the last letter
        // code, or is the last gap
        let whole = encoded(text, tree);
        let before = encoded(text.drop_last(), tree);
        let code = letter_code(tree, text.last());
        assert forall|i: int| 0 <= i < whole.len() implies whole[i] == DOT || whole[i] == DASH
            || whole[i] == GAP by {
            if i < before.len() {
                assert(whole[i] == before[i]);
            } else if i < before.len() + code.len() {
                assert(whole[i] == code[i - before.len()]);
            }
        }
    }
}

} // verus!
