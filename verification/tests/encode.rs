use morse::{encode, encode_verbatim, get_morse_code, morse_alphabet, BinaryTree};

#[test]
fn encodes_hello_world() {
    let tree = morse_alphabet();
    assert_eq!(encode("hello world", &tree), ".... . .-.. .-.. ---  .-- --- .-. .-.. -.. ");
}

#[test]
fn encoding_ignores_case() {
    let tree = morse_alphabet();
    assert_eq!(encode("HELLO", &tree), encode("hello", &tree));
    assert_eq!(encode("HELLO", &tree), ".... . .-.. .-.. --- ");
    assert_eq!(encode("HeLLo WoRLD", &tree), encode("hello world", &tree));
}

#[test]
fn verbatim_encoding_keeps_case() {
    let tree = morse_alphabet();
    assert_eq!(encode_verbatim("hello", &tree), ".... . .-.. .-.. --- ");
    assert_eq!(encode_verbatim("HELLO", &tree), "     ");
    assert_eq!(encode_verbatim("Hi", &tree), " .. ");
}

#[test]
fn unmapped_character_adds_a_bare_gap() {
    let tree = morse_alphabet();
    assert_eq!(encode("hello!world", &tree), ".... . .-.. .-.. ---  .-- --- .-. .-.. -.. ");
    assert_eq!(encode("!", &tree), " ");
    assert_eq!(encode("a!!b", &tree), ".-   -... ");
    assert_eq!(encode("é", &tree), " ");
}

#[test]
fn space_is_found_at_the_root() {
    let tree = morse_alphabet();
    assert_eq!(encode(" ", &tree), " ");
    assert_eq!(encode("e t", &tree), ".  - ");
    assert_eq!(encode("e  t", &tree), ".   - ");
}

#[test]
fn empty_text_encodes_to_nothing() {
    let tree = morse_alphabet();
    assert_eq!(encode("", &tree), "");
    assert_eq!(encode_verbatim("", &tree), "");
}

#[test]
fn encoded_text_ends_with_a_gap() {
    let tree = morse_alphabet();
    for text in ["e", "sos", "a b", "!", "73 de k"] {
        assert!(encode(text, &tree).ends_with(' '));
    }
}

#[test]
fn every_letter_has_its_code() {
    let tree = morse_alphabet();
    let table = [
        ('a', ".-"), ('b', "-..."), ('c', "-.-."), ('d', "-.."), ('e', "."), ('f', "..-."),
        ('g', "--."), ('h', "...."), ('i', ".."), ('j', ".---"), ('k', "-.-"), ('l', ".-.."),
        ('m', "--"), ('n', "-."), ('o', "---"), ('p', ".--."), ('q', "--.-"), ('r', ".-."),
        ('s', "..."), ('t', "-"), ('u', "..-"), ('v', "...-"), ('w', ".--"), ('x', "-..-"),
        ('y', "-.--"), ('z', "--.."),
    ];
    for (symbol, code) in table {
        assert_eq!(encode(&symbol.to_string(), &tree), format!("{} ", code));
    }
}

#[test]
fn every_digit_and_mark_has_its_code() {
    let tree = morse_alphabet();
    let table = [
        ('0', "-----"), ('1', ".----"), ('2', "..---"), ('3', "...--"), ('4', "....-"),
        ('5', "....."), ('6', "-...."), ('7', "--..."), ('8', "---.."), ('9', "----."),
        ('+', ".-.-."), ('/', "-..-."), ('=', "-...-"),
    ];
    for (symbol, code) in table {
        assert_eq!(encode(&symbol.to_string(), &tree), format!("{} ", code));
    }
}

#[test]
fn placeholder_goes_by_its_first_node() {
    let tree = morse_alphabet();
    assert_eq!(encode("?", &tree), "..-- ");
}

#[test]
fn encoding_with_no_tree_gives_gaps_only() {
    assert_eq!(encode("sos", &None), "   ");
}

#[test]
fn search_puts_the_code_in_front() {
    let tree = morse_alphabet();
    let mut output = vec!['#'];
    assert!(get_morse_code(&tree, 'l', &mut output));
    assert_eq!(output, vec!['.', '-', '.', '.', '#']);
}

#[test]
fn search_finds_the_root_with_an_empty_code() {
    let tree = morse_alphabet();
    let mut output = Vec::new();
    assert!(get_morse_code(&tree, ' ', &mut output));
    assert!(output.is_empty());
}

#[test]
fn failed_search_leaves_the_output_alone() {
    let tree = morse_alphabet();
    let mut output = vec!['.', '-'];
    assert!(!get_morse_code(&tree, '!', &mut output));
    assert_eq!(output, vec!['.', '-']);
    assert!(!get_morse_code(&None, 'e', &mut output));
    assert_eq!(output, vec!['.', '-']);
}

#[test]
fn search_tries_dots_before_dashes_and_parents_first() {
    let tree = Some(Box::new(
        BinaryTree::new('r')
            .left(BinaryTree::new('x').right(BinaryTree::new('k')))
            .right(BinaryTree::new('k').left(BinaryTree::new('x'))),
    ));
    let mut output = Vec::new();
    assert!(get_morse_code(&tree, 'k', &mut output));
    assert_eq!(output, vec!['.', '-']);
    let mut output = Vec::new();
    assert!(get_morse_code(&tree, 'x', &mut output));
    assert_eq!(output, vec!['.']);
}
