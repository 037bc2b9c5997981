//! A Morse codec over a binary code tree.
//!
//! A [`BinaryTree`] holds one symbol per node; its left edges stand for a dot
//! and its right edges for a dash, so every node is named by the code that
//! leads to it from the root. [`encode`] turns text into such codes, each
//! followed by a gap, and [`decode`] turns them back into text.
//!
//! - [`signal`]: the dot, the dash and the gap.
//! - [`tree`]: the tree, its builders, and what a code names in it.
//! - [`alphabet`]: the tree of the international Morse alphabet.
//! - [`encoder`] and [`decoder`]: the two directions of the codec.
//! - [`split`] and [`text`]: parting a text at gaps, and moving between
//!   strings and characters.
//! - [`laws`]: what holds of all this, whatever the tree and the text.

pub mod alphabet;
pub mod decoder;
pub mod encoder;
pub mod laws;
pub mod signal;
pub mod split;
pub mod text;
pub mod tree;

pub use alphabet::morse_alphabet;
pub use decoder::{decode, decode_word, get_letter, DecodeError};
pub use encoder::{encode, encode_verbatim, get_morse_code};
pub use tree::BinaryTree;
