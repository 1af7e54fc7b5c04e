//! Cipher parameters.

use crate::rc5::error::RC5Error;
use vstd::prelude::*;

verus! {

/// The parameters of one cipher profile, with the sizes derived from them.
#[derive(Debug, Clone, Copy)]
pub struct RC5Config {
    /// Bits in a word; 32 is the one supported size.
    pub word_size: u8,
    /// How many rounds a block goes through.
    pub number_of_rounds: u8,
    /// Bytes in the secret key.
    pub bytes_in_key: u8,
    /// Words in the secret key: `bytes_in_key / bytes_in_word`.
    pub word_in_key: u8,
    /// Bytes in a word: `word_size / 8`.
    pub bytes_in_word: usize,
}

impl RC5Config {
    /// The derived sizes agree with the chosen ones, and the key is a whole,
    /// positive number of words.
    pub open spec fn wf(&self) -> bool {
        &&& self.word_size == 32
        &&& self.bytes_in_word == 4
        &&& self.word_in_key == self.bytes_in_key / 4
        &&& self.bytes_in_key % 4 == 0
        &&& self.word_in_key >= 1
    }

    /// Checks the word size and derives the remaining sizes. Round count and
    /// key length are taken as given.
    pub fn new(word_size: &u8, number_of_rounds: &u8, bytes_in_key: &u8) -> (res: Result<
        Self,
        RC5Error,
    >)
        ensures
            *word_size != 32 <==> res == Err::<Self, RC5Error>(RC5Error::UnsupportedWordSize),
            *word_size == 32 <==> res is Ok,
            res matches Ok(config) ==> {
                &&& config.word_size == 32
                &&& config.number_of_rounds == *number_of_rounds
                &&& config.bytes_in_key == *bytes_in_key
                &&& config.word_in_key == *bytes_in_key / 4
                &&& config.bytes_in_word == 4
                &&& config.wf() <==> *bytes_in_key % 4 == 0 && *bytes_in_key >= 4
            },
    {
        if *word_size != 32 {
            return Err(RC5Error::UnsupportedWordSize);
        }
        let word_in_key = *bytes_in_key / (*word_size / 8);
        let bytes_in_word = (*word_size / 8) as usize;

        Ok(
            Self {
                word_size: *word_size,
                number_of_rounds: *number_of_rounds,
                bytes_in_key: *bytes_in_key,
                word_in_key,
                bytes_in_word,
            },
        )
    }
}

} // verus!
