//! The tree of the international Morse alphabet: the letters, the digits and
//! three marks, each at the place that its code names.

use vstd::prelude::*;
use crate::decoder::{decoded, DecodeError};
use crate::encoder::{code_of, encoded};
use crate::laws::book::{lemma_code_for_what_occurs, theorem_single_place};
use crate::laws::round_trip::{holds_all, theorem_round_trip};
use crate::signal::{DASH, DOT, GAP};
use crate::tree::BinaryTree;

verus! {

/// The symbol of the nodes whose codes the alphabet gives to no letter.
pub const PLACEHOLDER: char = '?';

/// The code that the alphabet gives each of its symbols. The gap is the root,
/// and the placeholder goes by the first of the nodes that hold it.
pub open spec fn morse_code(symbol: char) -> Option<Seq<char>> {
    match symbol {
        'a' => Some(seq![DOT, DASH]),
        'b' => Some(seq![DASH, DOT, DOT, DOT]),
        'c' => Some(seq![DASH, DOT, DASH, DOT]),
        'd' => Some(seq![DASH, DOT, DOT]),
        'e' => Some(seq![DOT]),
        'f' => Some(seq![DOT, DOT, DASH, DOT]),
        'g' => Some(seq![DASH, DASH, DOT]),
        'h' => Some(seq![DOT, DOT, DOT, DOT]),
        'i' => Some(seq![DOT, DOT]),
        'j' => Some(seq![DOT, DASH, DASH, DASH]),
        'k' => Some(seq![DASH, DOT, DASH]),
        'l' => Some(seq![DOT, DASH, DOT, DOT]),
        'm' => Some(seq![DASH, DASH]),
        'n' => Some(seq![DASH, DOT]),
        'o' => Some(seq![DASH, DASH, DASH]),
        'p' => Some(seq![DOT, DASH, DASH, DOT]),
        'q' => Some(seq![DASH, DASH, DOT, DASH]),
        'r' => Some(seq![DOT, DASH, DOT]),
        's' => Some(seq![DOT, DOT, DOT]),
        't' => Some(seq![DASH]),
        'u' => Some(seq![DOT, DOT, DASH]),
        'v' => Some(seq![DOT, DOT, DOT, DASH]),
        'w' => Some(seq![DOT, DASH, DASH]),
        'x' => Some(seq![DASH, DOT, DOT, DASH]),
        'y' => Some(seq![DASH, DOT, DASH, DASH]),
        'z' => Some(seq![DASH, DASH, DOT, DOT]),
        '0' => Some(seq![DASH, DASH, DASH, DASH, DASH]),
        '1' => Some(seq![DOT, DASH, DASH, DASH, DASH]),
        '2' => Some(seq![DOT, DOT, DASH, DASH, DASH]),
        '3' => Some(seq![DOT, DOT, DOT, DASH, DASH]),
        '4' => Some(seq![DOT, DOT, DOT, DOT, DASH]),
        '5' => Some(seq![DOT, DOT, DOT, DOT, DOT]),
        '6' => Some(seq![DASH, DOT, DOT, DOT, DOT]),
        '7' => Some(seq![DASH, DASH, DOT, DOT, DOT]),
        '8' => Some(seq![DASH, DASH, DASH, DOT, DOT]),
        '9' => Some(seq![DASH, DASH, DASH, DASH, DOT]),
        '+' => Some(seq![DOT, DASH, DOT, DASH, DOT]),
        '/' => Some(seq![DASH, DOT, DOT, DASH, DOT]),
        '=' => Some(seq![DASH, DOT, DOT, DOT, DASH]),
        ' ' => Some(Seq::empty()),
        '?' => Some(seq![DOT, DOT, DASH, DASH]),
        _ => None,
    }
}

/// Whether `code` is one of the four that the alphabet gives to no letter, on
/// the way to a digit or a mark.
pub open spec fn is_unassigned(code: Seq<char>) -> bool {
    ||| code == seq![DOT, DOT, DASH, DASH]
    ||| code == seq![DOT, DASH, DOT, DASH]
    ||| code == seq![DASH, DASH, DASH, DOT]
    ||| code == seq![DASH, DASH, DASH, DASH]
}

/// A node with nothing under it.
spec fn leaf(symbol: char) -> Option<Box<BinaryTree<char>>> {
    Some(Box::new(BinaryTree { value: symbol, left: None, right: None }))
}

/// A node with what is under its dot edge and under its dash edge.
spec fn fork(
    symbol: char,
    left: Option<Box<BinaryTree<char>>>,
    right: Option<Box<BinaryTree<char>>>,
) -> Option<Box<BinaryTree<char>>> {
    Some(Box::new(BinaryTree { value: symbol, left, right }))
}

/// The half of the alphabet whose codes begin with a dot.
spec fn dot_side() -> Option<Box<BinaryTree<char>>> {
    fork(
        'e',
        fork(
            'i',
            fork('s', fork('h', leaf('5'), leaf('4')), fork('v', None, leaf('3'))),
            fork('u', leaf('f'), fork(PLACEHOLDER, None, leaf('2'))),
        ),
        fork(
            'a',
            fork('r', leaf('l'), fork(PLACEHOLDER, leaf('+'), None)),
            fork('w', leaf('p'), fork('j', None, leaf('1'))),
        ),
    )
}

/// The half of the alphabet whose codes begin with a dash.
spec fn dash_side() -> Option<Box<BinaryTree<char>>> {
    fork(
        't',
        fork(
            'n',
            fork('d', fork('b', leaf('6'), leaf('=')), fork('x', leaf('/'), None)),
            fork('k', leaf('c'), leaf('y')),
        ),
        fork(
            'm',
            fork('g', fork('z', leaf('7'), None), leaf('q')),
            fork(
                'o',
                fork(PLACEHOLDER, leaf('8'), None),
                fork(PLACEHOLDER, leaf('9'), leaf('0')),
            ),
        ),
    )
}

/// The alphabet as a tree: what [`morse_alphabet`] builds.
spec fn alphabet() -> Option<Box<BinaryTree<char>>> {
    fork(GAP, dot_side(), dash_side())
}

/// How often the alphabet holds each symbol.
pub open spec fn morse_occurrences(symbol: char) -> nat {
    if symbol == PLACEHOLDER {
        4
    } else if morse_code(symbol) is Some {
        1
    } else {
        0
    }
}

/// The dot half holds two placeholders and, once each, the symbols whose
/// codes begin with a dot.
#[verifier::rlimit(40)]
proof fn lemma_dot_side_occurrences()
    ensures
        forall|symbol: char| #[trigger]
            BinaryTree::occurrences(dot_side(), symbol) == if symbol == PLACEHOLDER {
                2nat
            } else if morse_code(symbol) is Some && morse_code(symbol)->0.len() > 0 && morse_code(
                symbol,
            )->0[0] == DOT {
                1nat
            } else {
                0nat
            },
{
    reveal_with_fuel(BinaryTree::occurrences, 7);
}

/// The dash half holds two placeholders and, once each, the symbols whose
/// codes begin with a dash.
#[verifier::rlimit(40)]
proof fn lemma_dash_side_occurrences()
    ensures
        forall|symbol: char| #[trigger]
            BinaryTree::occurrences(dash_side(), symbol) == if symbol == PLACEHOLDER {
                2nat
            } else if morse_code(symbol) is Some && morse_code(symbol)->0.len() > 0 && morse_code(
                symbol,
            )->0[0] == DASH {
                1nat
            } else {
                0nat
            },
{
    reveal_with_fuel(BinaryTree::occurrences, 7);
}

/// The alphabet holds each symbol as often as [`morse_occurrences`] says.
proof fn lemma_occurrences()
    ensures
        forall|symbol: char| #[trigger]
            BinaryTree::occurrences(alphabet(), symbol) == morse_occurrences(symbol),
{
    lemma_dot_side_occurrences();
    lemma_dash_side_occurrences();
    assert forall|symbol: char| #[trigger]
        BinaryTree::occurrences(alphabet(), symbol) == morse_occurrences(symbol) by {
        let dots = BinaryTree::occurrences(dot_side(), symbol);
        let dashes = BinaryTree::occurrences(dash_side(), symbol);
        assert(BinaryTree::occurrences(alphabet(), symbol) == (if symbol == GAP {
            1nat
        } else {
            0nat
        }) + dots + dashes);
        if symbol != GAP && symbol != PLACEHOLDER && morse_code(symbol) is Some {
            let code = morse_code(symbol)->0;
            assert(code.len() > 0 && (code[0] == DOT || code[0] == DASH));
        }
    }
}

/// The first half of the letters stand where their codes lead.
#[verifier::rlimit(40)]
proof fn lemma_places_a_to_m()
    ensures
        BinaryTree::symbol_at(alphabet(), morse_code('a')->0) == Some('a'),
        BinaryTree::symbol_at(alphabet(), morse_code('b')->0) == Some('b'),
        BinaryTree::symbol_at(alphabet(), morse_code('c')->0) == Some('c'),
        BinaryTree::symbol_at(alphabet(), morse_code('d')->0) == Some('d'),
        BinaryTree::symbol_at(alphabet(), morse_code('e')->0) == Some('e'),
        BinaryTree::symbol_at(alphabet(), morse_code('f')->0) == Some('f'),
        BinaryTree::symbol_at(alphabet(), morse_code('g')->0) == Some('g'),
        BinaryTree::symbol_at(alphabet(), morse_code('h')->0) == Some('h'),
        BinaryTree::symbol_at(alphabet(), morse_code('i')->0) == Some('i'),
        BinaryTree::symbol_at(alphabet(), morse_code('j')->0) == Some('j'),
        BinaryTree::symbol_at(alphabet(), morse_code('k')->0) == Some('k'),
        BinaryTree::symbol_at(alphabet(), morse_code('l')->0) == Some('l'),
        BinaryTree::symbol_at(alphabet(), morse_code('m')->0) == Some('m'),
{
    reveal_with_fuel(BinaryTree::subtree, 8);
}

/// The second half of the letters stand where their codes lead.
#[verifier::rlimit(40)]
proof fn lemma_places_n_to_z()
    ensures
        BinaryTree::symbol_at(alphabet(), morse_code('n')->0) == Some('n'),
        BinaryTree::symbol_at(alphabet(), morse_code('o')->0) == Some('o'),
        BinaryTree::symbol_at(alphabet(), morse_code('p')->0) == Some('p'),
        BinaryTree::symbol_at(alphabet(), morse_code('q')->0) == Some('q'),
        BinaryTree::symbol_at(alphabet(), morse_code('r')->0) == Some('r'),
        BinaryTree::symbol_at(alphabet(), morse_code('s')->0) == Some('s'),
        BinaryTree::symbol_at(alphabet(), morse_code('t')->0) == Some('t'),
        BinaryTree::symbol_at(alphabet(), morse_code('u')->0) == Some('u'),
        BinaryTree::symbol_at(alphabet(), morse_code('v')->0) == Some('v'),
        BinaryTree::symbol_at(alphabet(), morse_code('w')->0) == Some('w'),
        BinaryTree::symbol_at(alphabet(), morse_code('x')->0) == Some('x'),
        BinaryTree::symbol_at(alphabet(), morse_code('y')->0) == Some('y'),
        BinaryTree::symbol_at(alphabet(), morse_code('z')->0) == Some('z'),
{
    reveal_with_fuel(BinaryTree::subtree, 8);
}

/// The digits and the marks stand where their codes lead.
#[verifier::rlimit(40)]
proof fn lemma_places_of_digits_and_marks()
    ensures
        BinaryTree::symbol_at(alphabet(), morse_code('0')->0) == Some('0'),
        BinaryTree::symbol_at(alphabet(), morse_code('1')->0) == Some('1'),
        BinaryTree::symbol_at(alphabet(), morse_code('2')->0) == Some('2'),
        BinaryTree::symbol_at(alphabet(), morse_code('3')->0) == Some('3'),
        BinaryTree::symbol_at(alphabet(), morse_code('4')->0) == Some('4'),
        BinaryTree::symbol_at(alphabet(), morse_code('5')->0) == Some('5'),
        BinaryTree::symbol_at(alphabet(), morse_code('6')->0) == Some('6'),
        BinaryTree::symbol_at(alphabet(), morse_code('7')->0) == Some('7'),
        BinaryTree::symbol_at(alphabet(), morse_code('8')->0) == Some('8'),
        BinaryTree::symbol_at(alphabet(), morse_code('9')->0) == Some('9'),
        BinaryTree::symbol_at(alphabet(), morse_code('+')->0) == Some('+'),
        BinaryTree::symbol_at(alphabet(), morse_code('/')->0) == Some('/'),
        BinaryTree::symbol_at(alphabet(), morse_code('=')->0) == Some('='),
{
    reveal_with_fuel(BinaryTree::subtree, 8);
}

/// Every symbol but the placeholder stands where its code leads.
proof fn lemma_places()
    ensures
        forall|symbol: char|
            symbol != PLACEHOLDER && morse_code(symbol) is Some ==> BinaryTree::symbol_at(
                alphabet(),
                #[trigger] morse_code(symbol)->0,
            ) == Some(symbol),
{
    lemma_places_a_to_m();
    lemma_places_n_to_z();
    lemma_places_of_digits_and_marks();
}

/// The four unassigned codes lead to placeholders.
#[verifier::rlimit(40)]
proof fn lemma_unassigned_places()
    ensures
        forall|code: Seq<char>| #[trigger]
            is_unassigned(code) ==> BinaryTree::symbol_at(alphabet(), code) == Some(PLACEHOLDER),
{
    reveal_with_fuel(BinaryTree::subtree, 8);
}

/// The code found for each symbol is the one in the table: a symbol held
/// once has the one code that leads to it, a symbol held nowhere has none,
/// and the placeholder is first met under the dot edge.
#[verifier::rlimit(40)]
proof fn lemma_codes()
    ensures
        forall|symbol: char| #[trigger] code_of(alphabet(), symbol) == morse_code(symbol),
{
    lemma_occurrences();
    lemma_places();
    assert forall|symbol: char| #[trigger] code_of(alphabet(), symbol) == morse_code(symbol) by {
        if symbol == PLACEHOLDER {
            reveal_with_fuel(code_of, 8);
        } else if morse_code(symbol) is Some {
            theorem_single_place(alphabet(), symbol, morse_code(symbol)->0);
        } else {
            lemma_code_for_what_occurs(alphabet(), symbol);
        }
    }
}

/// What makes a tree the tree of the alphabet. Encoding with it follows
/// [`morse_code`]; it holds each symbol as often as [`morse_occurrences`]
/// says, so that for every symbol but the placeholder the code found is the
/// one code that leads to it; the four codes that [`is_unassigned`] names
/// lead to placeholders; and the gap is at the root.
pub open spec fn is_morse_alphabet(tree: Option<Box<BinaryTree<char>>>) -> bool {
    &&& forall|symbol: char| #[trigger] code_of(tree, symbol) == morse_code(symbol)
    &&& forall|symbol: char| #[trigger]
        BinaryTree::occurrences(tree, symbol) == morse_occurrences(symbol)
    &&& forall|code: Seq<char>| #[trigger]
        is_unassigned(code) ==> BinaryTree::symbol_at(tree, code) == Some(PLACEHOLDER)
    &&& BinaryTree::symbol_at(tree, Seq::empty()) == Some(GAP)
}

/// Whether `text` is made of symbols of the alphabet alone, gaps among them.
pub open spec fn in_alphabet(text: Seq<char>) -> bool {
    forall|i: int| 0 <= i < text.len() ==> morse_code(#[trigger] text[i]) is Some
}

/// With the tree of the alphabet, a text made of its symbols encodes to a
/// code that decodes to the text and two gaps.
pub proof fn theorem_alphabet_round_trip(text: Seq<char>, tree: Option<Box<BinaryTree<char>>>)
    requires
        is_morse_alphabet(tree),
        in_alphabet(text),
    ensures
        decoded(encoded(text, tree), tree) == Ok::<Seq<char>, DecodeError>(text + seq![GAP, GAP]),
{
    assert(holds_all(tree, text)) by {
        assert forall|i: int| 0 <= i < text.len() implies code_of(tree, #[trigger] text[i])
            is Some by {
            assert(code_of(tree, text[i]) == morse_code(text[i]));
        }
    }
    theorem_round_trip(text, tree);
}

/// The tree of the alphabet.
pub fn morse_alphabet() -> (tree: Option<Box<BinaryTree<char>>>)
    ensures
        is_morse_alphabet(tree),
{
    let s = BinaryTree::new('s').left(
        BinaryTree::new('h').left(BinaryTree::new('5')).right(BinaryTree::new('4')),
    ).right(BinaryTree::new('v').right(BinaryTree::new('3')));
    let u = BinaryTree::new('u').left(BinaryTree::new('f')).right(
        BinaryTree::new(PLACEHOLDER).right(BinaryTree::new('2')),
    );
    let r = BinaryTree::new('r').left(BinaryTree::new('l')).right(
        BinaryTree::new(PLACEHOLDER).left(BinaryTree::new('+')),
    );
    let w = BinaryTree::new('w').left(BinaryTree::new('p')).right(
        BinaryTree::new('j').right(BinaryTree::new('1')),
    );
    let d = BinaryTree::new('d').left(
        BinaryTree::new('b').left(BinaryTree::new('6')).right(BinaryTree::new('=')),
    ).right(BinaryTree::new('x').left(BinaryTree::new('/')));
    let k = BinaryTree::new('k').left(BinaryTree::new('c')).right(BinaryTree::new('y'));
    let g = BinaryTree::new('g').left(BinaryTree::new('z').left(BinaryTree::new('7'))).right(
        BinaryTree::new('q'),
    );
    let o = BinaryTree::new('o').left(BinaryTree::new(PLACEHOLDER).left(BinaryTree::new('8'))).right(
        BinaryTree::new(PLACEHOLDER).left(BinaryTree::new('9')).right(BinaryTree::new('0')),
    );
    let e = BinaryTree::new('e').left(BinaryTree::new('i').left(s).right(u)).right(
        BinaryTree::new('a').left(r).right(w),
    );
    let t = BinaryTree::new('t').left(BinaryTree::new('n').left(d).right(k)).right(
        BinaryTree::new('m').left(g).right(o),
    );
    let tree = Some(Box::new(BinaryTree::new(GAP).left(e).right(t)));
    proof {
        assert(Some(Box::new(e)) == dot_side());
        assert(Some(Box::new(t)) == dash_side());
        assert(tree == alphabet());
        lemma_codes();
        lemma_occurrences();
        lemma_unassigned_places();
    }
    tree
}

} // verus!
