//! Code to text: words are parted by two gaps, the letter codes of a word by
//! one, and each letter code names a node of the tree by the path to it.
//!
//! The empty letter code names the root. A gap at either end of a word has an
//! empty letter code beside it, so a word that ends in a gap, as every encoded
//! word does, decodes to its letters, the symbol of the root, and the gap that
//! closes the word.

use vstd::prelude::*;
use crate::signal::{DASH, DOT, GAP};
use crate::split::{split, split_at_gaps, views};
use crate::text::{chars_of, string_of};
use crate::tree::BinaryTree;

verus! {

/// Why a code cannot be decoded.
#[derive(Clone, Copy, Debug, PartialEq, Eq)]
pub enum DecodeError {
    /// This character stood in a letter code, at a place that the tree
    /// reaches, and is neither a dot nor a dash.
    UnexpectedCharacter(char),
}

impl DecodeError {
    /// The error in words, with the character found between quotation marks.
    pub fn message(&self) -> (text: String)
        ensures
            match *self {
                DecodeError::UnexpectedCharacter(found) => text@ == "Unexpected character '"@.push(
                    found,
                ) + "', expected '.' or '-'"@,
            },
    {
        match self {
            DecodeError::UnexpectedCharacter(found) => {
                let mut text = String::from_str("Unexpected character '");
                text.push(*found);
                text.append("', expected '.' or '-'");
                text
            },
        }
    }
}

/// What one letter code stands for, read from the left with `tree` as the
/// place reached so far. Where the tree has run out, the code stands for
/// nothing, whatever is left of it. Where it has not, a dot leads on to the
/// left, a dash to the right, and any other character is an error. At the
/// end of the code stands the symbol of the node reached.
pub open spec fn letter(code: Seq<char>, tree: Option<Box<BinaryTree<char>>>) -> Result<
    Option<char>,
    DecodeError,
>
    decreases code.len(),
{
    match tree {
        None => Ok(None),
        Some(node) => if code.len() == 0 {
            Ok(Some(node.value))
        } else if code[0] == DOT {
            letter(code.drop_first(), node.left)
        } else if code[0] == DASH {
            letter(code.drop_first(), node.right)
        } else {
            Err(DecodeError::UnexpectedCharacter(code[0]))
        },
    }
}

/// What the letter codes `codes` stand for, taken in order: the symbols of
/// those that name a node, up to the first that is in error.
pub open spec fn letters(codes: Seq<Seq<char>>, tree: Option<Box<BinaryTree<char>>>) -> Result<
    Seq<char>,
    DecodeError,
>
    decreases codes.len(),
{
    if codes.len() == 0 {
        Ok(Seq::empty())
    } else {
        match letters(codes.drop_last(), tree) {
            Err(error) => Err(error),
            Ok(text) => match letter(codes.last(), tree) {
                Err(error) => Err(error),
                Ok(Some(symbol)) => Ok(text.push(symbol)),
                Ok(None) => Ok(text),
            },
        }
    }
}

/// What one word of code stands for: its letter codes are parted by single
/// gaps, and a gap closes the word.
pub open spec fn word(code: Seq<char>, tree: Option<Box<BinaryTree<char>>>) -> Result<
    Seq<char>,
    DecodeError,
> {
    match letters(split(code, seq![GAP]), tree) {
        Err(error) => Err(error),
        Ok(text) => Ok(text.push(GAP)),
    }
}

/// What the words `codes` stand for, taken in order, up to the first that is
/// in error.
pub open spec fn words(codes: Seq<Seq<char>>, tree: Option<Box<BinaryTree<char>>>) -> Result<
    Seq<char>,
    DecodeError,
>
    decreases codes.len(),
{
    if codes.len() == 0 {
        Ok(Seq::empty())
    } else {
        match words(codes.drop_last(), tree) {
            Err(error) => Err(error),
            Ok(text) => match word(codes.last(), tree) {
                Err(error) => Err(error),
                Ok(more) => Ok(text + more),
            },
        }
    }
}

/// What `code` stands for: its words are parted by double gaps.
pub open spec fn decoded(code: Seq<char>, tree: Option<Box<BinaryTree<char>>>) -> Result<
    Seq<char>,
    DecodeError,
> {
    words(split(code, seq![GAP, GAP]), tree)
}

/// Follows one letter code from `node` down: the symbol of the node it names,
/// nothing where the tree runs out on the way, and an error for a character
/// that is neither dot nor dash and stands where the tree has not run out.
pub fn get_letter(morse: &Vec<char>, node: &Option<Box<BinaryTree<char>>>) -> (symbol: Result<
    Option<char>,
    DecodeError,
>)
    ensures
        symbol == letter(morse@, *node),
{
    let mut place = node;
    let mut i: usize = 0;
    assert(morse@.skip(0) == morse@);
    while i < morse.len()
        invariant
            i <= morse.len(),
            letter(morse@, *node) == letter(morse@.skip(i as int), *place),
        decreases morse.len() - i,
    {
        let Some(n) = place else {
            return Ok(None);
        };
        let c = morse[i];
        assert(morse@.skip(i as int).drop_first() == morse@.skip(i + 1));
        if c == DOT {
            place = &n.left;
        } else if c == DASH {
            place = &n.right;
        } else {
            return Err(DecodeError::UnexpectedCharacter(c));
        }
        i += 1;
    }
    let Some(n) = place else {
        return Ok(None);
    };
    Ok(Some(n.value))
}

/// An error among the first `n` letter codes is the outcome for all of them.
proof fn lemma_letters_error(codes: Seq<Seq<char>>, n: int, tree: Option<Box<BinaryTree<char>>>)
    requires
        0 <= n <= codes.len(),
        letters(codes.take(n), tree) is Err,
    ensures
        letters(codes, tree) == letters(codes.take(n), tree),
    decreases codes.len(),
{
    if n == codes.len() {
        assert(codes.take(n) == codes);
    } else {
        assert(codes.drop_last().take(n) == codes.take(n));
        lemma_letters_error(codes.drop_last(), n, tree);
    }
}

/// An error among the first `n` words is the outcome for all of them.
proof fn lemma_words_error(codes: Seq<Seq<char>>, n: int, tree: Option<Box<BinaryTree<char>>>)
    requires
        0 <= n <= codes.len(),
        words(codes.take(n), tree) is Err,
    ensures
        words(codes, tree) == words(codes.take(n), tree),
    decreases codes.len(),
{
    if n == codes.len() {
        assert(codes.take(n) == codes);
    } else {
        assert(codes.drop_last().take(n) == codes.take(n));
        lemma_words_error(codes.drop_last(), n, tree);
    }
}

/// Decodes one word: each of its letter codes in turn, then the gap that
/// closes it.
pub fn decode_word(code: &Vec<char>, tree: &Option<Box<BinaryTree<char>>>) -> (outcome: Result<
    Vec<char>,
    DecodeError,
>)
    ensures
        match outcome {
            Ok(text) => word(code@, *tree) == Ok::<Seq<char>, DecodeError>(text@),
            Err(error) => word(code@, *tree) == Err::<Seq<char>, DecodeError>(error),
        },
{
    let gap: Vec<char> = vec![GAP];
    assert(gap@ == seq![GAP]);
    let codes = split_at_gaps(code, &gap);
    let mut output: Vec<char> = Vec::new();
    let mut i: usize = 0;
    while i < codes.len()
        invariant
            i <= codes.len(),
            views(codes@) == split(code@, seq![GAP]),
            letters(views(codes@).take(i as int), *tree) == Ok::<Seq<char>, DecodeError>(output@),
        decreases codes.len() - i,
    {
        proof {
            assert(views(codes@).take(i + 1).drop_last() == views(codes@).take(i as int));
        }
        match get_letter(&codes[i], tree) {
            Err(error) => {
                proof {
                    lemma_letters_error(views(codes@), i + 1, *tree);
                }
                return Err(error);
            },
            Ok(Some(symbol)) => {
                output.push(symbol);
            },
            Ok(None) => {},
        }
        i += 1;
    }
    proof {
        assert(views(codes@).take(i as int) == views(codes@));
    }
    output.push(GAP);
    Ok(output)
}

/// Decodes `morse`, word by word. The outcome is the text that its letter
/// codes stand for, with a gap after each word, or the first character in
/// reading order that is neither dot nor dash and stands in a letter code at
/// a place that the tree reaches.
pub fn decode(morse: &str, tree: &Option<Box<BinaryTree<char>>>) -> (outcome: Result<String, DecodeError>)
    ensures
        match outcome {
            Ok(text) => decoded(morse@, *tree) == Ok::<Seq<char>, DecodeError>(text@),
            Err(error) => decoded(morse@, *tree) == Err::<Seq<char>, DecodeError>(error),
        },
{
    let chars = chars_of(morse);
    let gap: Vec<char> = vec![GAP, GAP];
    let codes = split_at_gaps(&chars, &gap);
    let mut output: Vec<char> = Vec::new();
    let mut i: usize = 0;
    while i < codes.len()
        invariant
            i <= codes.len(),
            views(codes@) == split(morse@, seq![GAP, GAP]),
            words(views(codes@).take(i as int), *tree) == Ok::<Seq<char>, DecodeError>(output@),
        decreases codes.len() - i,
    {
        proof {
            assert(views(codes@).take(i + 1).drop_last() == views(codes@).take(i as int));
        }
        match decode_word(&codes[i], tree) {
            Err(error) => {
                proof {
                    lemma_words_error(views(codes@), i + 1, *tree);
                }
                return Err(error);
            },
            Ok(mut text) => {
                output.append(&mut text);
            },
        }
        i += 1;
    }
    proof {
        assert(views(codes@).take(i as int) == views(codes@));
    }
    Ok(string_of(&output))
}

} // verus!
