//! What letter codes, words and whole codes stand for.

use vstd::prelude::*;
use crate::decoder::{decoded, letter, letters, word, words, DecodeError};
use crate::laws::book::lemma_names_only_by_code;
use crate::signal::{is_code, is_signals, DASH, DOT, GAP};
use crate::split::{lemma_split_around_gap, lemma_split_nonempty, lemma_split_whole, split};
use crate::tree::BinaryTree;

verus! {

/// What a letter code stands for, by the subtree that it names up to `n`,
/// the place of its first character that is neither dot nor dash, or its
/// length where it has none. Where that subtree is missing, the code stands
/// for nothing. Where it is there, the code stands for the symbol at its
/// root if the code ends at `n`, and is in error by the character at `n` if
/// not.
pub proof fn lemma_letter_reads_subtree(code: Seq<char>, tree: Option<Box<BinaryTree<char>>>, n: int)
    requires
        0 <= n <= code.len(),
        is_code(code.take(n)),
        n < code.len() ==> code[n] != DOT && code[n] != DASH,
    ensures
        letter(code, tree) == match BinaryTree::subtree(tree, code.take(n)) {
            None => Ok::<Option<char>, DecodeError>(None),
            Some(node) => if n == code.len() {
                Ok(Some(node.value))
            } else {
                Err(DecodeError::UnexpectedCharacter(code[n]))
            },
        },
    decreases n,
{
    if n > 0 {
        match tree {
            None => {},
            Some(node) => {
                let rest = code.drop_first();
                assert(code.take(n).drop_first() == rest.take(n - 1));
                if code[0] == DOT {
                    lemma_letter_reads_subtree(rest, node.left, n - 1);
                } else {
                    lemma_letter_reads_subtree(rest, node.right, n - 1);
                }
            },
        }
    }
}

/// A code made of dots and dashes stands for the symbol of the node it names,
/// and for nothing where it names none.
pub proof fn lemma_letter_of_code(code: Seq<char>, tree: Option<Box<BinaryTree<char>>>)
    requires
        is_code(code),
    ensures
        letter(code, tree) == Ok::<Option<char>, DecodeError>(BinaryTree::symbol_at(tree, code)),
{
    let n = code.len() as int;
    assert(code.take(n) == code);
    lemma_letter_reads_subtree(code, tree, n);
}

/// What a letter code stands for, read off the code book of a tree: up to
/// its first character that is neither dot nor dash, the code names a node or
/// it does not. Where there is no such character, the outcome is the symbol
/// of the node named, or nothing; where there is one, it is that character as
/// an error if the code before it names a node, and nothing if not.
pub proof fn theorem_letter_reads_book(code: Seq<char>, tree: BinaryTree<char>, n: int)
    requires
        0 <= n <= code.len(),
        is_code(code.take(n)),
        n < code.len() ==> code[n] != DOT && code[n] != DASH,
    ensures
        letter(code, Some(Box::new(tree))) == if !tree@.dom().contains(code.take(n)) {
            Ok::<Option<char>, DecodeError>(None)
        } else if n == code.len() {
            Ok(Some(tree@[code]))
        } else {
            Err(DecodeError::UnexpectedCharacter(code[n]))
        },
{
    lemma_letter_reads_subtree(code, Some(Box::new(tree)), n);
    if n == code.len() {
        assert(code.take(n) == code);
    }
}

/// One outcome after another: the first error, or the two texts joined.
pub open spec fn followed_by(first: Result<Seq<char>, DecodeError>, second: Result<Seq<char>, DecodeError>) -> Result<
    Seq<char>,
    DecodeError,
> {
    match first {
        Err(error) => Err(error),
        Ok(text) => match second {
            Err(error) => Err(error),
            Ok(more) => Ok(text + more),
        },
    }
}

/// Letter codes are read one after another: what two runs of them stand for
/// is what the first stands for, followed by what the second stands for.
pub proof fn lemma_letters_joined(
    first: Seq<Seq<char>>,
    second: Seq<Seq<char>>,
    tree: Option<Box<BinaryTree<char>>>,
)
    ensures
        letters(first + second, tree) == followed_by(letters(first, tree), letters(second, tree)),
    decreases second.len(),
{
    if second.len() > 0 {
        assert((first + second).drop_last() == first + second.drop_last());
        lemma_letters_joined(first, second.drop_last(), tree);
    }
}

/// A letter code on which the tree runs out is passed over: the codes around
/// it stand for what they would stand for without it.
pub proof fn theorem_exhausted_code_is_dropped(
    before: Seq<Seq<char>>,
    code: Seq<char>,
    after: Seq<Seq<char>>,
    tree: Option<Box<BinaryTree<char>>>,
)
    requires
        letter(code, tree) == Ok::<Option<char>, DecodeError>(None),
    ensures
        letters(before.push(code) + after, tree) == letters(before + after, tree),
{
    lemma_letters_joined(before.push(code), after, tree);
    lemma_letters_joined(before, after, tree);
    assert(before.push(code).drop_last() == before);
}

/// Within a word, a letter code on which the tree runs out can be left out
/// together with the gap after it: the letter codes on either side stand for
/// what they stood for.
pub proof fn theorem_exhausted_code_in_word(
    before: Seq<char>,
    code: Seq<char>,
    after: Seq<char>,
    tree: Option<Box<BinaryTree<char>>>,
)
    requires
        !code.contains(GAP),
        letter(code, tree) == Ok::<Option<char>, DecodeError>(None),
    ensures
        word(before.push(GAP) + (code.push(GAP) + after), tree) == word(
            before.push(GAP) + after,
            tree,
        ),
{
    let g = seq![GAP];
    lemma_split_around_gap(before, code.push(GAP) + after, GAP);
    lemma_split_around_gap(code, after, GAP);
    lemma_split_around_gap(before, after, GAP);
    lemma_split_whole(code, g);
    assert(split(before, g) + (seq![code] + split(after, g)) == split(before, g).push(code) + split(
        after,
        g,
    ));
    theorem_exhausted_code_is_dropped(split(before, g), code, split(after, g), tree);
}

/// A code with no gap in it is one word of one letter: it stands for what
/// that letter stands for, if anything, and the gap that closes the word.
pub proof fn theorem_lone_code(code: Seq<char>, tree: Option<Box<BinaryTree<char>>>)
    requires
        !code.contains(GAP),
    ensures
        decoded(code, tree) == match letter(code, tree) {
            Err(error) => Err::<Seq<char>, DecodeError>(error),
            Ok(Some(symbol)) => Ok(seq![symbol, GAP]),
            Ok(None) => Ok(seq![GAP]),
        },
{
    lemma_split_whole(code, seq![GAP]);
    lemma_split_whole(code, seq![GAP, GAP]);
    let one = seq![code];
    assert(letters(one.drop_last(), tree) == Ok::<Seq<char>, DecodeError>(Seq::empty()));
    assert(words(one.drop_last(), tree) == Ok::<Seq<char>, DecodeError>(Seq::empty()));
    if let Ok(Some(symbol)) = letter(code, tree) {
        assert(Seq::<char>::empty().push(symbol).push(GAP) == seq![symbol, GAP]);
    }
}

/// A code that names a node decodes to the symbol of that node and one gap.
pub proof fn theorem_letter_code_decodes(code: Seq<char>, symbol: char, tree: Option<Box<BinaryTree<char>>>)
    requires
        BinaryTree::symbol_at(tree, code) == Some(symbol),
    ensures
        decoded(code, tree) == Ok::<Seq<char>, DecodeError>(seq![symbol, GAP]),
{
    lemma_names_only_by_code(tree, code);
    lemma_letter_of_code(code, tree);
    theorem_lone_code(code, tree);
}

/// A lone character that is neither dot, dash nor gap cannot be decoded by
/// any tree that has a root: the outcome is that character as an error.
pub proof fn theorem_unexpected_character_is_fatal(found: char, tree: Option<Box<BinaryTree<char>>>)
    requires
        tree is Some,
        found != DOT,
        found != DASH,
        found != GAP,
    ensures
        decoded(seq![found], tree) == Err::<Seq<char>, DecodeError>(
            DecodeError::UnexpectedCharacter(found),
        ),
{
    theorem_lone_code(seq![found], tree);
}

/// The pieces of a run of signals are runs of signals, and those between
/// single gaps are letter codes.
proof fn lemma_pieces_of_signals(code: Seq<char>, gap: Seq<char>)
    requires
        is_signals(code),
    ensures
        forall|k: int| 0 <= k < split(code, gap).len() ==> is_signals(#[trigger] split(code, gap)[k]),
        gap == seq![GAP] ==> forall|k: int|
            0 <= k < split(code, gap).len() ==> is_code(#[trigger] split(code, gap)[k]),
    decreases code.len(),
{
    let pieces = split(code, gap);
    if gap.len() == 0 || code.len() < gap.len() {
        // one piece, which is the code
    } else if code.take(gap.len() as int) == gap {
        // an empty piece, then the pieces of the rest
        let rest = code.skip(gap.len() as int);
        lemma_pieces_of_signals(rest, gap);
        assert forall|k: int| 0 <= k < pieces.len() implies is_signals(#[trigger] pieces[k]) && (gap
            == seq![GAP] ==> is_code(pieces[k])) by {
            if k > 0 {
                assert(pieces[k] == split(rest, gap)[k - 1]);
            }
        }
    } else {
        // the first signal opens the first piece of the rest
        let rest = code.drop_first();
        lemma_pieces_of_signals(rest, gap);
        lemma_split_nonempty(rest, gap);
        if gap == seq![GAP] {
            assert(code[0] != GAP) by {
                if code[0] == GAP {
                    assert(code.take(1) == gap);
                }
            }
        }
        assert forall|k: int| 0 <= k < pieces.len() implies is_signals(#[trigger] pieces[k]) && (gap
            == seq![GAP] ==> is_code(pieces[k])) by {
            if k > 0 {
                assert(pieces[k] == split(rest, gap)[k]);
            }
        }
    }
}

/// Letter codes made of dots and dashes always stand for something.
proof fn lemma_letters_of_codes_decode(codes: Seq<Seq<char>>, tree: Option<Box<BinaryTree<char>>>)
    requires
        forall|k: int| 0 <= k < codes.len() ==> is_code(#[trigger] codes[k]),
    ensures
        letters(codes, tree) is Ok,
    decreases codes.len(),
{
    if codes.len() > 0 {
        lemma_letters_of_codes_decode(codes.drop_last(), tree);
        lemma_letter_of_code(codes.last(), tree);
    }
}

/// Words made of signals always stand for something.
proof fn lemma_words_of_signals_decode(codes: Seq<Seq<char>>, tree: Option<Box<BinaryTree<char>>>)
    requires
        forall|k: int| 0 <= k < codes.len() ==> is_signals(#[trigger] codes[k]),
    ensures
        words(codes, tree) is Ok,
    decreases codes.len(),
{
    if codes.len() > 0 {
        lemma_words_of_signals_decode(codes.drop_last(), tree);
        lemma_pieces_of_signals(codes.last(), seq![GAP]);
        lemma_letters_of_codes_decode(split(codes.last(), seq![GAP]), tree);
    }
}

/// A code made of dots, dashes and gaps alone can be decoded, whatever the
/// tree.
pub proof fn theorem_signals_decode(code: Seq<char>, tree: Option<Box<BinaryTree<char>>>)
    requires
        is_signals(code),
    ensures
        decoded(code, tree) is Ok,
{
    lemma_pieces_of_signals(code, seq![GAP, GAP]);
    lemma_words_of_signals_decode(split(code, seq![GAP, GAP]), tree);
}

} // verus!
