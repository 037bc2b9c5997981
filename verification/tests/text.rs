use morse::split::split_at_gaps;
use morse::text::{chars_of, string_of};

fn chars(text: &str) -> Vec<char> {
    text.chars().collect()
}

fn pieces(text: &str, gap: &str) -> Vec<String> {
    split_at_gaps(&chars(text), &chars(gap)).iter().map(string_of).collect()
}

#[test]
fn chars_and_strings_convert_both_ways() {
    assert_eq!(chars_of("sos"), vec!['s', 'o', 's']);
    assert_eq!(chars_of(""), Vec::<char>::new());
    assert_eq!(chars_of("é ü"), vec!['é', ' ', 'ü']);
    assert_eq!(string_of(&vec!['.', '-', ' ']), ".- ");
    assert_eq!(string_of(&Vec::new()), "");
    assert_eq!(string_of(&chars_of("73 de k")), "73 de k");
}

#[test]
fn split_parts_at_single_gaps() {
    assert_eq!(pieces("a b c", " "), vec!["a", "b", "c"]);
    assert_eq!(pieces("a b ", " "), vec!["a", "b", ""]);
    assert_eq!(pieces(" a", " "), vec!["", "a"]);
    assert_eq!(pieces("a  b", " "), vec!["a", "", "b"]);
    assert_eq!(pieces("", " "), vec![""]);
    assert_eq!(pieces(" ", " "), vec!["", ""]);
    assert_eq!(pieces("abc", " "), vec!["abc"]);
}

#[test]
fn split_parts_at_double_gaps_from_the_left() {
    assert_eq!(pieces("a  b", "  "), vec!["a", "b"]);
    assert_eq!(pieces("a   b", "  "), vec!["a", " b"]);
    assert_eq!(pieces("a    b", "  "), vec!["a", "", "b"]);
    assert_eq!(pieces("a b", "  "), vec!["a b"]);
    assert_eq!(pieces("a  ", "  "), vec!["a", ""]);
    assert_eq!(pieces("  a", "  "), vec!["", "a"]);
    assert_eq!(pieces(" ", "  "), vec![" "]);
    assert_eq!(pieces("", "  "), vec![""]);
}

#[test]
fn split_agrees_with_the_standard_split() {
    let texts = [
        "", " ", "  ", "   ", "    ", "a", "a ", " a", "a b", "a  b", "a   b", "a    b", "a     b",
        ".... . .-.. .-.. ---  .-- --- .-. .-.. -.. ", "  .  ", " . . ", ".  -   .    -",
        "ab", "aab", "aaab", "baaaab", "abab", "aabaa",
    ];
    for gap in [" ", "  ", "a", "aa", "ab", "aba"] {
        for text in texts {
            let expected: Vec<String> = text.split(gap).map(|piece| piece.to_string()).collect();
            assert_eq!(pieces(text, gap), expected);
        }
    }
}
