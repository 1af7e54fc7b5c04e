//! Validation failures of the cipher.

use vstd::prelude::*;

verus! {

/// What can be wrong with the parameters, the key or a block.
#[derive(Debug, PartialEq, Eq, Structural)]
pub enum RC5Error {
    /// The requested word size is not 32 bits.
    UnsupportedWordSize,
    /// The key does not have the configured number of bytes.
    UnsupportedKeyLength,
    /// The block is not exactly two words long.
    InvalidPhraseSize,
}

impl RC5Error {
    /// The text that describes each error.
    pub open spec fn message_text(self) -> Seq<char> {
        match self {
            RC5Error::InvalidPhraseSize =>
                "Size of phrase param is invalid, must be two times the word size!"@,
            RC5Error::UnsupportedWordSize => "Currently only 32bit word size is supported!"@,
            RC5Error::UnsupportedKeyLength => "Secret key too long!"@,
        }
    }

    /// Describes the error in words.
    pub fn message(&self) -> (text: String)
        ensures
            text@ == self.message_text(),
    {
        match self {
            RC5Error::InvalidPhraseSize =>
                "Size of phrase param is invalid, must be two times the word size!".to_owned(),
            RC5Error::UnsupportedWordSize =>
                "Currently only 32bit word size is supported!".to_owned(),
            RC5Error::UnsupportedKeyLength => "Secret key too long!".to_owned(),
        }
    }
}

} // verus!
