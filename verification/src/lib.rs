//! RC5 block cipher with 32-bit words: key schedule and single-block
//! encryption and decryption, with machine-checked contracts.

use crate::rc5::block::{
    decrypted_block, encrypted_block, lemma_decrypt_encrypt_block, lemma_encrypt_decrypt_block,
};
use crate::rc5::config::RC5Config;
use crate::rc5::error::RC5Error;
use crate::rc5::schedule::expanded_key;
use crate::rc5::{outcome_of, RC5};
use vstd::prelude::*;

pub mod rc5;

verus! {

/// Bits in a word of the RC5-32/12/16 profile.
pub const WORD_SIZE: u8 = 32;

/// Rounds of the RC5-32/12/16 profile.
pub const NUMBER_OF_ROUNDS: u8 = 12;

/// Key bytes of the RC5-32/12/16 profile.
pub const BYTES_IN_KEY: u8 = 16;

/// What `encode` gives: the key is checked first, then the block.
pub open spec fn encode_outcome(key: Seq<u8>, plain_text: Seq<u8>) -> Result<Seq<u8>, RC5Error> {
    if key.len() != BYTES_IN_KEY {
        Err(RC5Error::UnsupportedKeyLength)
    } else if plain_text.len() != 8 {
        Err(RC5Error::InvalidPhraseSize)
    } else {
        Ok(
            encrypted_block(
                expanded_key(NUMBER_OF_ROUNDS as nat, key),
                NUMBER_OF_ROUNDS as nat,
                plain_text,
            ),
        )
    }
}

/// What `decode` gives: the key is checked first, then the block.
pub open spec fn decode_outcome(key: Seq<u8>, cipher_text: Seq<u8>) -> Result<Seq<u8>, RC5Error> {
    if key.len() != BYTES_IN_KEY {
        Err(RC5Error::UnsupportedKeyLength)
    } else if cipher_text.len() != 8 {
        Err(RC5Error::InvalidPhraseSize)
    } else {
        Ok(
            decrypted_block(
                expanded_key(NUMBER_OF_ROUNDS as nat, key),
                NUMBER_OF_ROUNDS as nat,
                cipher_text,
            ),
        )
    }
}

/// Encrypts one block under a 16-byte key with the RC5-32/12/16 profile:
/// 32-bit words and 12 rounds.
pub fn encode(key: Vec<u8>, plain_text: Vec<u8>) -> (res: Result<Vec<u8>, RC5Error>)
    ensures
        outcome_of(res) == encode_outcome(key@, plain_text@),
{
    let config = RC5Config::new(&WORD_SIZE, &NUMBER_OF_ROUNDS, &BYTES_IN_KEY)?;
    let rc5 = RC5::new(config, key)?;
    let cypher_text = rc5.encrypt(plain_text)?;

    Ok(cypher_text)
}

/// Decrypts one block under a 16-byte key with the RC5-32/12/16 profile:
/// 32-bit words and 12 rounds.
pub fn decode(key: Vec<u8>, cipher_text: Vec<u8>) -> (res: Result<Vec<u8>, RC5Error>)
    ensures
        outcome_of(res) == decode_outcome(key@, cipher_text@),
{
    let config = RC5Config::new(&WORD_SIZE, &NUMBER_OF_ROUNDS, &BYTES_IN_KEY)?;
    let rc5 = RC5::new(config, key)?;
    let plain_text = rc5.decrypt(cipher_text)?;

    Ok(plain_text)
}

/// Decoding undoes encoding and encoding undoes decoding, for every 16-byte
/// key and every block of eight bytes.
pub proof fn lemma_decode_encode(key: Seq<u8>, block: Seq<u8>)
    requires
        key.len() == 16,
        block.len() == 8,
    ensures
        encode_outcome(key, block) matches Ok(cipher_text) && decode_outcome(key, cipher_text)
            == Ok::<Seq<u8>, RC5Error>(block),
        decode_outcome(key, block) matches Ok(plain_text) && encode_outcome(key, plain_text)
            == Ok::<Seq<u8>, RC5Error>(block),
{
    let table = expanded_key(NUMBER_OF_ROUNDS as nat, key);
    lemma_decrypt_encrypt_block(table, NUMBER_OF_ROUNDS as nat, block);
    lemma_encrypt_decrypt_block(table, NUMBER_OF_ROUNDS as nat, block);
}

} // verus!
