//! The cipher engine: a validated configuration and the table of round keys
//! derived from a secret key, ready to encrypt and decrypt single blocks.

use crate::rc5::block::{
    decrypt_words, decrypted_block, encrypt_words, encrypted_block, lemma_decrypt_encrypt_block,
    lemma_encrypt_decrypt_block,
};
use crate::rc5::config::RC5Config;
use crate::rc5::error::RC5Error;
use crate::rc5::schedule::{expand_key, expanded_key, lemma_expanded_key_len};
use crate::rc5::word::{push_word, read_word};
use vstd::prelude::*;

pub mod block;
pub mod config;
pub mod error;
pub mod schedule;
pub mod word;

verus! {

/// An engine for one key: the configuration and the table of round keys.
#[derive(Debug)]
pub struct RC5 {
    config: RC5Config,
    table_size: usize,
    table: Vec<u32>,
}

/// What an engine is to its callers.
pub struct RC5View {
    /// The configuration that the engine was built with.
    pub config: RC5Config,
    /// The table of round keys.
    pub table: Seq<u32>,
}

impl View for RC5 {
    type V = RC5View;

    closed spec fn view(&self) -> RC5View {
        RC5View { config: self.config, table: self.table@ }
    }
}

impl Clone for RC5 {
    /// A second engine for the same key.
    fn clone(&self) -> (copy: Self)
        ensures
            copy@ == self@,
    {
        proof {
            use_type_invariant(self);
        }
        Self { config: self.config, table_size: self.table_size, table: self.table.clone() }
    }
}

/// The outcome of an operation with the bytes as a sequence.
pub open spec fn outcome_of(res: Result<Vec<u8>, RC5Error>) -> Result<Seq<u8>, RC5Error> {
    match res {
        Ok(bytes) => Ok(bytes@),
        Err(e) => Err(e),
    }
}

impl RC5 {
    /// The configuration is sound and the table has two words per round and
    /// two more.
    #[verifier::type_invariant]
    spec fn inv(&self) -> bool {
        &&& self.config.wf()
        &&& self.table_size == 2 * (self.config.number_of_rounds + 1)
        &&& self.table.len() == self.table_size
    }

    /// The number of rounds that the engine applies.
    pub open spec fn rounds(&self) -> nat {
        self@.config.number_of_rounds as nat
    }

    /// What `encrypt` gives for `input`.
    pub open spec fn encrypt_outcome(&self, input: Seq<u8>) -> Result<Seq<u8>, RC5Error> {
        if input.len() != 8 {
            Err(RC5Error::InvalidPhraseSize)
        } else {
            Ok(encrypted_block(self@.table, self.rounds(), input))
        }
    }

    /// What `decrypt` gives for `input`.
    pub open spec fn decrypt_outcome(&self, input: Seq<u8>) -> Result<Seq<u8>, RC5Error> {
        if input.len() != 8 {
            Err(RC5Error::InvalidPhraseSize)
        } else {
            Ok(decrypted_block(self@.table, self.rounds(), input))
        }
    }

    /// Builds the engine for `key`. The key must have exactly the configured
    /// number of bytes.
    pub fn new(config: RC5Config, key: Vec<u8>) -> (res: Result<Self, RC5Error>)
        requires
            config.wf(),
        ensures
            match res {
                Ok(engine) => {
                    &&& key.len() == config.bytes_in_key
                    &&& engine@ == (RC5View {
                        config,
                        table: expanded_key(config.number_of_rounds as nat, key@),
                    })
                },
                Err(e) => key.len() != config.bytes_in_key && e == RC5Error::UnsupportedKeyLength,
            },
    {
        let table_size: usize = 2 * (config.number_of_rounds as usize + 1);
        let mut rc5 = Self { config, table_size, table: vec![0; table_size] };

        match rc5.setup(key) {
            Ok(()) => Ok(rc5),
            Err(e) => Err(e),
        }
    }

    /// Replaces the table of round keys by the one that `key` gives. A key of
    /// the wrong length leaves the engine as it was.
    pub fn setup(&mut self, key: Vec<u8>) -> (res: Result<(), RC5Error>)
        ensures
            match res {
                Ok(()) => {
                    &&& key.len() == old(self)@.config.bytes_in_key
                    &&& final(self)@ == (RC5View {
                        config: old(self)@.config,
                        table: expanded_key(old(self).rounds(), key@),
                    })
                },
                Err(e) => {
                    &&& key.len() != old(self)@.config.bytes_in_key
                    &&& e == RC5Error::UnsupportedKeyLength
                    &&& *final(self) == *old(self)
                },
            },
    {
        proof {
            use_type_invariant(&*self);
        }
        if key.len() != self.config.bytes_in_key as usize {
            return Err(RC5Error::UnsupportedKeyLength);
        }
        let table = expand_key(self.config.number_of_rounds, &key);
        proof {
            lemma_expanded_key_len(self.config.number_of_rounds as nat, key@);
        }
        self.table = table;
        Ok(())
    }

    /// Encrypts one block of eight bytes.
    pub fn encrypt(&self, plain_text: Vec<u8>) -> (res: Result<Vec<u8>, RC5Error>)
        ensures
            outcome_of(res) == self.encrypt_outcome(plain_text@),
    {
        proof {
            use_type_invariant(self);
        }
        if plain_text.len() != self.config.bytes_in_word * 2 {
            return Err(RC5Error::InvalidPhraseSize);
        }
        let a = read_word(&plain_text, 0);
        let b = read_word(&plain_text, self.config.bytes_in_word);
        let (a, b) = encrypt_words(&self.table, self.config.number_of_rounds as usize, a, b);

        let mut cipher_text: Vec<u8> = Vec::new();
        push_word(&mut cipher_text, a);
        push_word(&mut cipher_text, b);

        Ok(cipher_text)
    }

    /// Decrypts one block of eight bytes.
    pub fn decrypt(&self, cipher_text: Vec<u8>) -> (res: Result<Vec<u8>, RC5Error>)
        ensures
            outcome_of(res) == self.decrypt_outcome(cipher_text@),
    {
        proof {
            use_type_invariant(self);
        }
        if cipher_text.len() != self.config.bytes_in_word * 2 {
            return Err(RC5Error::InvalidPhraseSize);
        }
        let a = read_word(&cipher_text, 0);
        let b = read_word(&cipher_text, self.config.bytes_in_word);
        let (a, b) = decrypt_words(&self.table, self.config.number_of_rounds as usize, a, b);

        let mut plain_text: Vec<u8> = Vec::new();
        push_word(&mut plain_text, a);
        push_word(&mut plain_text, b);

        Ok(plain_text)
    }

    /// Decryption undoes encryption and encryption undoes decryption: on
    /// every engine and every block of eight bytes, either operation
    /// succeeds, and the other one gives the block back from its result.
    pub proof fn lemma_round_trip(self, block: Seq<u8>)
        requires
            block.len() == 8,
        ensures
            self.encrypt_outcome(block) matches Ok(cipher_text) && self.decrypt_outcome(cipher_text)
                == Ok::<Seq<u8>, RC5Error>(block),
            self.decrypt_outcome(block) matches Ok(plain_text) && self.encrypt_outcome(plain_text)
                == Ok::<Seq<u8>, RC5Error>(block),
    {
        lemma_decrypt_encrypt_block(self@.table, self.rounds(), block);
        lemma_encrypt_decrypt_block(self@.table, self.rounds(), block);
    }

    /// Encryption keeps no state: two results that it may give for one
    /// engine and one input are the same.
    pub proof fn lemma_encrypt_repeats(
        self,
        input: Seq<u8>,
        first: Result<Vec<u8>, RC5Error>,
        second: Result<Vec<u8>, RC5Error>,
    )
        requires
            outcome_of(first) == self.encrypt_outcome(input),
            outcome_of(second) == self.encrypt_outcome(input),
        ensures
            outcome_of(first) == outcome_of(second),
    {
    }

    /// Decryption keeps no state: two results that it may give for one
    /// engine and one input are the same.
    pub proof fn lemma_decrypt_repeats(
        self,
        input: Seq<u8>,
        first: Result<Vec<u8>, RC5Error>,
        second: Result<Vec<u8>, RC5Error>,
    )
        requires
            outcome_of(first) == self.decrypt_outcome(input),
            outcome_of(second) == self.decrypt_outcome(input),
        ensures
            outcome_of(first) == outcome_of(second),
    {
    }

    /// A block that is not eight bytes long is refused, by both operations,
    /// and every block of eight bytes is accepted.
    pub proof fn lemma_block_size_decides(self, input: Seq<u8>)
        ensures
            input.len() != 8 <==> self.encrypt_outcome(input) == Err::<Seq<u8>, RC5Error>(
                RC5Error::InvalidPhraseSize,
            ),
            input.len() != 8 <==> self.decrypt_outcome(input) == Err::<Seq<u8>, RC5Error>(
                RC5Error::InvalidPhraseSize,
            ),
            input.len() == 8 <==> self.encrypt_outcome(input) is Ok,
            input.len() == 8 <==> self.decrypt_outcome(input) is Ok,
    {
    }
}

} // verus!
