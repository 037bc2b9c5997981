use morse::{decode, encode, get_letter, morse_alphabet, BinaryTree};

const TABLE: [(char, &str); 39] = [
    ('a', ".-"), ('b', "-..."), ('c', "-.-."), ('d', "-.."), ('e', "."), ('f', "..-."),
    ('g', "--."), ('h', "...."), ('i', ".."), ('j', ".---"), ('k', "-.-"), ('l', ".-.."),
    ('m', "--"), ('n', "-."), ('o', "---"), ('p', ".--."), ('q', "--.-"), ('r', ".-."),
    ('s', "..."), ('t', "-"), ('u', "..-"), ('v', "...-"), ('w', ".--"), ('x', "-..-"),
    ('y', "-.--"), ('z', "--.."), ('0', "-----"), ('1', ".----"), ('2', "..---"),
    ('3', "...--"), ('4', "....-"), ('5', "....."), ('6', "-...."), ('7', "--..."),
    ('8', "---.."), ('9', "----."), ('+', ".-.-."), ('/', "-..-."), ('=', "-...-"),
];

fn count(tree: &Option<Box<BinaryTree<char>>>, symbol: Option<char>) -> usize {
    match tree {
        None => 0,
        Some(node) => {
            let here = if symbol.is_none() || symbol == Some(node.value) { 1 } else { 0 };
            here + count(&node.left, symbol) + count(&node.right, symbol)
        }
    }
}

#[test]
fn alphabet_has_the_gap_at_its_root() {
    let tree = morse_alphabet();
    assert_eq!(tree.as_ref().map(|root| root.value), Some(' '));
}

#[test]
fn alphabet_decodes_every_code_of_the_table() {
    let tree = morse_alphabet();
    for (symbol, code) in TABLE {
        let code: Vec<char> = code.chars().collect();
        assert_eq!(get_letter(&code, &tree), Ok(Some(symbol)));
    }
}

#[test]
fn alphabet_encodes_every_symbol_of_the_table() {
    let tree = morse_alphabet();
    for (symbol, code) in TABLE {
        assert_eq!(encode(&symbol.to_string(), &tree), format!("{} ", code));
        assert_eq!(decode(code, &tree), Ok(format!("{} ", symbol)));
    }
}

#[test]
fn alphabet_holds_each_symbol_once_and_the_placeholder_four_times() {
    let tree = morse_alphabet();
    assert_eq!(count(&tree, None), 44);
    assert_eq!(count(&tree, Some(' ')), 1);
    assert_eq!(count(&tree, Some('?')), 4);
    for (symbol, _) in TABLE {
        assert_eq!(count(&tree, Some(symbol)), 1);
    }
    assert_eq!(count(&tree, Some('!')), 0);
    assert_eq!(count(&tree, Some('E')), 0);
}

#[test]
fn alphabet_has_no_code_longer_than_five() {
    let tree = morse_alphabet();
    for code in ["......", ".....-", "------", "-....-", ".-.-.-"] {
        let code: Vec<char> = code.chars().collect();
        assert_eq!(get_letter(&code, &tree), Ok(None));
    }
}
