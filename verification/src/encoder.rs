//! Text to code: each character becomes the code of the first node that
//! holds it, followed by one gap.

use vstd::prelude::*;
use crate::signal::{DASH, DOT, GAP};
use crate::text::{chars_of, lowercase_of, string_of, to_lowercase};
use crate::tree::BinaryTree;

verus! {

/// The code of the first node of `tree` that holds `symbol`, where a node
/// comes before the nodes under it and the nodes under its dot edge before
/// those under its dash edge; none where no node holds `symbol`.
pub open spec fn code_of(tree: Option<Box<BinaryTree<char>>>, symbol: char) -> Option<Seq<char>>
    decreases tree,
{
    match tree {
        None => None,
        Some(node) => if node.value == symbol {
            Some(Seq::empty())
        } else {
            match code_of(node.left, symbol) {
                Some(code) => Some(seq![DOT] + code),
                None => match code_of(node.right, symbol) {
                    Some(code) => Some(seq![DASH] + code),
                    None => None,
                },
            }
        },
    }
}

/// What `symbol` adds to encoded text before its gap: its code, or nothing
/// where the tree does not hold it.
pub open spec fn letter_code(tree: Option<Box<BinaryTree<char>>>, symbol: char) -> Seq<char> {
    match code_of(tree, symbol) {
        Some(code) => code,
        None => Seq::empty(),
    }
}

/// The encoding of `text` as it stands: for each character in turn, its
/// letter code and then one gap.
pub open spec fn encoded(text: Seq<char>, tree: Option<Box<BinaryTree<char>>>) -> Seq<char>
    decreases text.len(),
{
    if text.len() == 0 {
        Seq::empty()
    } else {
        encoded(text.drop_last(), tree) + letter_code(tree, text.last()).push(GAP)
    }
}

/// Searches `node` for `c` and, where a node holds it, puts the code of the
/// first such node in front of what `output` held. Tells whether one was
/// found; `output` is left as it was where none was.
pub fn get_morse_code(node: &Option<Box<BinaryTree<char>>>, c: char, output: &mut Vec<char>) -> (found: bool)
    ensures
        found == code_of(*node, c).is_some(),
        final(output)@ == letter_code(*node, c) + old(output)@,
    decreases *node,
{
    let Some(node) = node else {
        return false;
    };
    if node.value == c {
        return true;
    }
    if get_morse_code(&node.left, c, output) {
        output.insert(0, DOT);
        return true;
    }
    if get_morse_code(&node.right, c, output) {
        output.insert(0, DASH);
        return true;
    }
    false
}

/// Encodes `text` as it stands, with no change of case: a character that the
/// tree holds only in another case counts as one that it does not hold.
pub fn encode_verbatim(text: &str, tree: &Option<Box<BinaryTree<char>>>) -> (code: String)
    ensures
        code@ == encoded(text@, *tree),
{
    let chars = chars_of(text);
    let mut output: Vec<char> = Vec::new();
    let mut i: usize = 0;
    while i < chars.len()
        invariant
            i <= chars.len(),
            output@ == encoded(chars@.take(i as int), *tree),
        decreases chars.len() - i,
    {
        let mut letter: Vec<char> = Vec::new();
        get_morse_code(tree, chars[i], &mut letter);
        output.append(&mut letter);
        output.push(GAP);
        i += 1;
        assert(chars@.take(i as int).drop_last() == chars@.take(i - 1));
    }
    assert(chars@.take(i as int) == chars@);
    string_of(&output)
}

/// Encodes `text` after folding it to lower case: the tree holds lowercase
/// symbols only. Each character of the folded text gives its letter code and
/// one gap; a character that the tree does not hold gives the gap alone.
pub fn encode(text: &str, tree: &Option<Box<BinaryTree<char>>>) -> (code: String)
    ensures
        code@ == encoded(lowercase_of(text@), *tree),
{
    let folded = to_lowercase(text);
    encode_verbatim(folded.as_str(), tree)
}

} // verus!
