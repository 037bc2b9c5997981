//! What holds of the codec whatever the tree and the text.

pub mod book;
pub mod decoding;
pub mod encoding;
pub mod round_trip;
