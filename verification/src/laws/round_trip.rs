//! Decoding what was encoded.

use vstd::prelude::*;
use crate::decoder::{decoded, letter, letters, word, words, DecodeError};
use crate::encoder::{code_of, encoded, letter_code};
use crate::laws::book::lemma_code_names_symbol;
use crate::laws::decoding::{followed_by, lemma_letter_of_code, lemma_letters_joined, theorem_signals_decode};
use crate::laws::encoding::theorem_encoded_signals;
use crate::signal::GAP;
use crate::split::{lemma_split_around_gap, lemma_split_nonempty, lemma_split_whole, split};
use crate::tree::BinaryTree;

verus! {

/// The letter codes of `codes`, word by word, with an empty code wherever
/// one word ends and the next begins.
spec fn letter_codes(codes: Seq<Seq<char>>) -> Seq<Seq<char>>
    decreases codes.len(),
{
    if codes.len() == 0 {
        Seq::empty()
    } else if codes.len() == 1 {
        split(codes[0], seq![GAP])
    } else {
        letter_codes(codes.drop_last()) + seq![Seq::empty()] + split(codes.last(), seq![GAP])
    }
}

/// The letter codes of a word and of the words after it.
proof fn lemma_letter_codes_from_front(head: Seq<char>, tail: Seq<Seq<char>>)
    requires
        tail.len() > 0,
    ensures
        letter_codes(seq![head] + tail) == split(head, seq![GAP]) + seq![Seq::<char>::empty()]
            + letter_codes(tail),
    decreases tail.len(),
{
    let all = seq![head] + tail;
    if tail.len() == 1 {
        assert(letter_codes(all.drop_last()) == split(head, seq![GAP]));
    } else {
        assert(all.drop_last() == seq![head] + tail.drop_last());
        lemma_letter_codes_from_front(head, tail.drop_last());
    }
}

/// Parting a code at single gaps gives the letter codes of its words, with
/// an empty code between any two words.
proof fn lemma_letter_codes_of_words(code: Seq<char>)
    ensures
        split(code, seq![GAP]) == letter_codes(split(code, seq![GAP, GAP])),
    decreases code.len(),
{
    let g = seq![GAP];
    let gg = seq![GAP, GAP];
    let none = seq![Seq::<char>::empty()];
    if code.len() < 2 {
        // one word, which is the whole code
    } else if code.take(2) == gg {
        // an empty word, then the words of the rest
        let rest = code.skip(2);
        lemma_letter_codes_of_words(rest);
        lemma_split_nonempty(rest, gg);
        lemma_letter_codes_from_front(Seq::empty(), split(rest, gg));
        assert(code.take(1) == g);
        assert(code.skip(1).take(1) == g);
        assert(code.skip(1).skip(1) == rest);
        assert(split(code.skip(1), g) == none + split(rest, g));
    } else {
        // the first character opens the first word of the rest
        let rest = code.drop_first();
        let words = split(rest, gg);
        let first = seq![code[0]] + words[0];
        lemma_letter_codes_of_words(rest);
        lemma_split_nonempty(rest, gg);
        lemma_split_nonempty(words[0], g);
        let inner = split(words[0], g);
        // what follows the letter codes of the first word
        let more = if words.len() > 1 {
            none + letter_codes(words.drop_first())
        } else {
            Seq::<Seq<char>>::empty()
        };
        assert(letter_codes(words) == inner + more) by {
            if words.len() > 1 {
                assert(words == seq![words[0]] + words.drop_first());
                lemma_letter_codes_from_front(words[0], words.drop_first());
            }
        }
        assert(letter_codes(split(code, gg)) == split(first, g) + more) by {
            if words.len() > 1 {
                lemma_letter_codes_from_front(first, words.drop_first());
            }
        }
        assert(first.skip(1) == words[0]);
        if code[0] == GAP {
            assert(first.take(1) == g);
            assert(code.take(1) == g);
        } else {
            assert(code.take(1)[0] != g[0]);
        }
    }
}

/// With a gap at the root, words read one after another as the letter codes
/// of all of them, with an empty code between any two, and one closing gap.
proof fn lemma_words_as_letters(codes: Seq<Seq<char>>, tree: Option<Box<BinaryTree<char>>>)
    requires
        codes.len() > 0,
        BinaryTree::symbol_at(tree, Seq::empty()) == Some(GAP),
    ensures
        words(codes, tree) == followed_by(
            letters(letter_codes(codes), tree),
            Ok(seq![GAP]),
        ),
    decreases codes.len(),
{
    let g = seq![GAP];
    let none = seq![Seq::<char>::empty()];
    let close: Result<Seq<char>, DecodeError> = Ok(seq![GAP]);
    let last = letters(split(codes.last(), g), tree);
    assert(word(codes.last(), tree) == followed_by(last, close)) by {
        if last is Ok {
            assert(last->Ok_0.push(GAP) == last->Ok_0 + seq![GAP]);
        }
    }
    if codes.len() > 1 {
        let front = codes.drop_last();
        lemma_words_as_letters(front, tree);
        let before = letters(letter_codes(front), tree);
        assert(letters(none, tree) == close) by {
            assert(letters(none.drop_last(), tree) == Ok::<Seq<char>, DecodeError>(Seq::empty()));
        }
        lemma_letters_joined(letter_codes(front), none, tree);
        lemma_letters_joined(letter_codes(front) + none, split(codes.last(), g), tree);
        if before is Ok && last is Ok {
            let a = before->Ok_0;
            let b = last->Ok_0;
            assert((a + seq![GAP]) + (b + seq![GAP]) == ((a + seq![GAP]) + b) + seq![GAP]);
        }
    }
}

/// With a gap at the root of the tree, parting the code into words changes
/// nothing: a code stands for what it would stand for as a single word,
/// because the empty letter code between two words stands for the gap that
/// would close the first of them.
pub proof fn theorem_gap_root_reads_as_one_word(code: Seq<char>, tree: Option<Box<BinaryTree<char>>>)
    requires
        BinaryTree::symbol_at(tree, Seq::empty()) == Some(GAP),
    ensures
        decoded(code, tree) == word(code, tree),
{
    let gg = seq![GAP, GAP];
    lemma_split_nonempty(code, gg);
    lemma_words_as_letters(split(code, gg), tree);
    lemma_letter_codes_of_words(code);
    let all = letters(split(code, seq![GAP]), tree);
    if all is Ok {
        assert(all->Ok_0.push(GAP) == all->Ok_0 + seq![GAP]);
    }
}

/// Whether the tree holds every character of `text`.
pub open spec fn holds_all(tree: Option<Box<BinaryTree<char>>>, text: Seq<char>) -> bool {
    forall|i: int| 0 <= i < text.len() ==> code_of(tree, #[trigger] text[i]) is Some
}

/// The letter code of each character of `text`, in order.
spec fn codes_of(text: Seq<char>, tree: Option<Box<BinaryTree<char>>>) -> Seq<Seq<char>> {
    Seq::new(text.len(), |i: int| letter_code(tree, text[i]))
}

/// No letter code holds a gap.
proof fn lemma_letter_code_gapless(tree: Option<Box<BinaryTree<char>>>, symbol: char)
    ensures
        !letter_code(tree, symbol).contains(GAP),
{
    if code_of(tree, symbol) is Some {
        lemma_code_names_symbol(tree, symbol);
    }
}

/// Parted at single gaps, encoded text with a gapless tail gives the letter
/// code of each character, and then the tail.
proof fn lemma_codes_of_encoded(text: Seq<char>, tail: Seq<char>, tree: Option<Box<BinaryTree<char>>>)
    requires
        !tail.contains(GAP),
    ensures
        split(encoded(text, tree) + tail, seq![GAP]) == codes_of(text, tree).push(tail),
    decreases text.len(),
{
    let g = seq![GAP];
    lemma_split_whole(tail, g);
    if text.len() > 0 {
        let front = text.drop_last();
        let code = letter_code(tree, text.last());
        lemma_letter_code_gapless(tree, text.last());
        lemma_codes_of_encoded(front, code, tree);
        lemma_split_around_gap(encoded(front, tree) + code, tail, GAP);
    }
}

/// The letter codes of a text that the tree holds stand for the text.
proof fn lemma_letters_of_codes(text: Seq<char>, tree: Option<Box<BinaryTree<char>>>)
    requires
        holds_all(tree, text),
    ensures
        letters(codes_of(text, tree), tree) == Ok::<Seq<char>, DecodeError>(text),
    decreases text.len(),
{
    if text.len() > 0 {
        let front = text.drop_last();
        let symbol = text.last();
        assert(holds_all(tree, front)) by {
            assert forall|i: int| 0 <= i < front.len() implies code_of(tree, #[trigger] front[i])
                is Some by {
                assert(front[i] == text[i]);
            }
        }
        lemma_letters_of_codes(front, tree);
        lemma_code_names_symbol(tree, symbol);
        lemma_letter_of_code(letter_code(tree, symbol), tree);
        assert(codes_of(text, tree).drop_last() == codes_of(front, tree));
        assert(front.push(symbol) == text);
    } else {
        assert(text == Seq::<char>::empty());
    }
}

/// Decoding undoes encoding. With a gap at the root of the tree, a text of
/// characters that the tree holds, however its gaps lie, encodes to a code
/// that decodes to the text and two gaps: one for the empty letter code that
/// follows the last gap of the code, and one that closes the last word.
pub proof fn theorem_round_trip(text: Seq<char>, tree: Option<Box<BinaryTree<char>>>)
    requires
        BinaryTree::symbol_at(tree, Seq::empty()) == Some(GAP),
        holds_all(tree, text),
    ensures
        decoded(encoded(text, tree), tree) == Ok::<Seq<char>, DecodeError>(text + seq![GAP, GAP]),
{
    let code = encoded(text, tree);
    let none = Seq::<char>::empty();
    theorem_gap_root_reads_as_one_word(code, tree);
    lemma_codes_of_encoded(text, none, tree);
    lemma_letters_of_codes(text, tree);
    let codes = codes_of(text, tree).push(none);
    assert(codes.drop_last() == codes_of(text, tree));
    assert(text.push(GAP).push(GAP) == text + seq![GAP, GAP]);
}

/// Whatever encoding gives can be decoded with the same tree.
pub proof fn theorem_encoded_decodes(text: Seq<char>, tree: Option<Box<BinaryTree<char>>>)
    ensures
        decoded(encoded(text, tree), tree) is Ok,
{
    theorem_encoded_signals(text, tree);
    theorem_signals_decode(encoded(text, tree), tree);
}

} // verus!
