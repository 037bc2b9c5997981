use morse::split::split_at_gaps;
use morse::text::string_of;
use morse::{decode, decode_word, encode, morse_alphabet, BinaryTree};

fn chars(text: &str) -> Vec<char> {
    text.chars().collect()
}

const CODES: [&str; 14] = [
    "", " ", "  ", "   ", ".", ". ", " .", ". -", ".  -", ".   -", ".    -", "...... .",
    ".... . .-.. .-.. ---  .-- --- .-. .-.. -.. ", "--- -.-  -.. .  .-- .---- .- .--  ",
];

#[test]
fn encoded_text_holds_signals_only() {
    let tree = morse_alphabet();
    for text in ["hello world", "Grüße!", "1 + 1 = 2", "?", "\t\n", "a/b"] {
        let code = encode(text, &tree);
        assert!(code.chars().all(|signal| signal == '.' || signal == '-' || signal == ' '));
        assert!(code.ends_with(' '));
    }
}

#[test]
fn encoded_text_can_always_be_decoded() {
    let alphabet = morse_alphabet();
    let small = Some(Box::new(BinaryTree::new('#').left(BinaryTree::new('a'))));
    for tree in [alphabet, small, None] {
        for text in ["", "a", "a#a", "hello world", "Grüße!", "##", "a  a"] {
            assert!(decode(&encode(text, &tree), &tree).is_ok());
        }
    }
}

#[test]
fn signals_can_always_be_decoded() {
    let tree = morse_alphabet();
    for code in CODES {
        assert!(decode(code, &tree).is_ok());
    }
    for code in ["....... ------- .-.-.-.-", "- - -   . . .", "     ", ".-.-.-  -.-.-.  "] {
        assert!(decode(code, &tree).is_ok());
        assert!(decode(code, &None).is_ok());
    }
}

#[test]
fn with_a_gap_at_the_root_a_code_reads_as_one_word() {
    let tree = morse_alphabet();
    for code in CODES {
        let whole = decode(code, &tree);
        let word = decode_word(&chars(code), &tree).map(|text| string_of(&text));
        assert_eq!(whole, word);
    }
    for code in ["x", ". x", ".  x  .", "......x  y"] {
        let whole = decode(code, &tree);
        let word = decode_word(&chars(code), &tree).map(|text| string_of(&text));
        assert_eq!(whole, word);
    }
}

#[test]
fn exhausted_code_can_be_left_out_of_a_word() {
    let tree = morse_alphabet();
    assert_eq!(decode_word(&chars(". ...... -"), &tree), decode_word(&chars(". -"), &tree));
    assert_eq!(decode_word(&chars(" ...-. "), &tree), decode_word(&chars(" "), &tree));
    assert_eq!(
        decode_word(&chars("... .-.-.- --- ..."), &tree),
        decode_word(&chars("... --- ..."), &tree)
    );
}

#[test]
fn pieces_rejoin_to_the_text() {
    for gap in [" ", "  ", "ab"] {
        for text in ["", " ", "  ", "   ", "a b", "a  b", "a   b ", "abab", " ab ab "] {
            let pieces: Vec<String> =
                split_at_gaps(&chars(text), &chars(gap)).iter().map(string_of).collect();
            assert_eq!(pieces.join(gap), text);
        }
    }
}

#[test]
fn symbol_held_once_has_one_code_both_ways() {
    let tree = morse_alphabet();
    for symbol in "abcdefghijklmnopqrstuvwxyz0123456789+/=".chars() {
        let code = encode(&symbol.to_string(), &tree);
        let code = code.trim_end();
        assert_eq!(decode(code, &tree), Ok(format!("{} ", symbol)));
        assert_eq!(encode(&symbol.to_string(), &tree), format!("{} ", code));
    }
}

#[test]
fn symbol_held_twice_decodes_from_both_codes_and_encodes_to_the_first() {
    let tree = morse_alphabet();
    assert_eq!(decode("..--", &tree), Ok("? ".to_string()));
    assert_eq!(decode("----", &tree), Ok("? ".to_string()));
    assert_eq!(encode("?", &tree), "..-- ");
}

#[test]
fn empty_gap_parts_nothing() {
    let pieces = split_at_gaps(&chars("a b"), &Vec::new());
    assert_eq!(pieces, vec![chars("a b")]);
    let pieces = split_at_gaps(&Vec::new(), &Vec::new());
    assert_eq!(pieces, vec![Vec::<char>::new()]);
}

#[test]
fn each_piece_ends_at_the_first_gap() {
    for gap in [" ", "  ", "ab", "aa"] {
        for text in ["", " ", "   ", "a   b", "a    b ", "abab", "aaa", "aaaa", "baab aab"] {
            let pieces: Vec<String> =
                split_at_gaps(&chars(text), &chars(gap)).iter().map(string_of).collect();
            let last = pieces.len() - 1;
            for (k, piece) in pieces.iter().enumerate() {
                if k < last {
                    assert_eq!(format!("{}{}", piece, gap).find(gap), Some(piece.len()));
                } else {
                    assert_eq!(piece.find(gap), None);
                }
            }
        }
    }
}
