//! Failures that the decoder and the checksum selector report.

use vstd::prelude::*;

verus! {

/// Why a sequence of die rolls could not be turned into a word index.
#[derive(Clone, Copy, Debug, PartialEq, Eq, Structural)]
pub enum DecodeError {
    /// A roll that is not a face of the die; carries the offending value.
    InvalidRoll(usize),
    /// Fewer rolls than the scheme needs; carries how many came and how
    /// many are needed.
    InsufficientRolls(usize, usize),
    /// The index, after the offset, does not name a dictionary word;
    /// carries the index and the dictionary size.
    DictionaryOverflow(usize, usize),
}

/// Why no checksum word could be selected.
#[derive(Clone, Copy, Debug, PartialEq, Eq, Structural)]
pub enum ChecksumError {
    /// The phrase holds no word to select from.
    EmptyPhrase,
}

} // verus!
