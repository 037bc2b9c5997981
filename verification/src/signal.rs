//! The three signals of a code: the dot and the dash that make up a letter
//! code, and the gap that parts one letter code from the next.

use vstd::prelude::*;

verus! {

/// The signal of a left edge.
pub const DOT: char = '.';

/// The signal of a right edge.
pub const DASH: char = '-';

/// The signal that closes a letter code; two of them part two words.
pub const GAP: char = ' ';

/// Whether `code` is made of dots and dashes alone.
pub open spec fn is_code(code: Seq<char>) -> bool {
    forall|i: int| 0 <= i < code.len() ==> code[i] == DOT || code[i] == DASH
}

/// Whether `code` is made of dots, dashes and gaps alone.
pub open spec fn is_signals(code: Seq<char>) -> bool {
    forall|i: int| 0 <= i < code.len() ==> code[i] == DOT || code[i] == DASH || code[i] == GAP
}

} // verus!
