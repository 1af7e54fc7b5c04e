//! The cipher on one block: two words in, two words out.

use crate::rc5::word::{
    lemma_bytes_of_word, lemma_rotl_rotr, lemma_rotr_rotl, lemma_word_of_bytes,
    lemma_wrapping_inverse, lemma_xor_twice, rotate_left, rotate_right, rotl, rotr, word_at,
    word_bytes,
};
use vstd::prelude::*;

verus! {

/// Round `r` of encryption, with entries `2r` and `2r + 1` of the table.
pub open spec fn encrypt_round(table: Seq<u32>, r: int, a: u32, b: u32) -> (u32, u32) {
    let a2 = rotl(a ^ b, b).wrapping_add(table[2 * r]);
    let b2 = rotl(b ^ a2, a2).wrapping_add(table[2 * r + 1]);
    (a2, b2)
}

/// Round `r` of decryption: the second word is restored first, from the
/// first word as it came in, then the first word from the restored second.
pub open spec fn decrypt_round(table: Seq<u32>, r: int, a: u32, b: u32) -> (u32, u32) {
    let b2 = rotr(b.wrapping_sub(table[2 * r + 1]), a) ^ a;
    let a2 = rotr(a.wrapping_sub(table[2 * r]), b2) ^ b2;
    (a2, b2)
}

/// The two words of a block after the first two table entries were added
/// and rounds `1 ..= rounds` were applied.
pub open spec fn encrypted_words(table: Seq<u32>, rounds: nat, a: u32, b: u32) -> (u32, u32)
    decreases rounds,
{
    if rounds == 0 {
        (a.wrapping_add(table[0]), b.wrapping_add(table[1]))
    } else {
        let (x, y) = encrypted_words(table, (rounds - 1) as nat, a, b);
        encrypt_round(table, rounds as int, x, y)
    }
}

/// The two words of a block after rounds `rounds`, ..., `1` were undone
/// and the first two table entries were subtracted.
pub open spec fn decrypted_words(table: Seq<u32>, rounds: nat, a: u32, b: u32) -> (u32, u32)
    decreases rounds,
{
    if rounds == 0 {
        (a.wrapping_sub(table[0]), b.wrapping_sub(table[1]))
    } else {
        let (x, y) = decrypt_round(table, rounds as int, a, b);
        decrypted_words(table, (rounds - 1) as nat, x, y)
    }
}

/// The ciphertext of an eight-byte block: its two little-endian words
/// encrypted and written out again.
pub open spec fn encrypted_block(table: Seq<u32>, rounds: nat, block: Seq<u8>) -> Seq<u8> {
    let (a, b) = encrypted_words(table, rounds, word_at(block, 0), word_at(block, 4));
    word_bytes(a) + word_bytes(b)
}

/// The plaintext of an eight-byte block: its two little-endian words
/// decrypted and written out again.
pub open spec fn decrypted_block(table: Seq<u32>, rounds: nat, block: Seq<u8>) -> Seq<u8> {
    let (a, b) = decrypted_words(table, rounds, word_at(block, 0), word_at(block, 4));
    word_bytes(a) + word_bytes(b)
}

/// A round of decryption undoes the same round of encryption.
pub proof fn lemma_decrypt_round_undoes_encrypt(table: Seq<u32>, r: int, a: u32, b: u32)
    ensures
        ({
            let (x, y) = encrypt_round(table, r, a, b);
            decrypt_round(table, r, x, y) == (a, b)
        }),
{
    let (x, y) = encrypt_round(table, r, a, b);
    lemma_wrapping_inverse(rotl(b ^ x, x), table[2 * r + 1]);
    lemma_rotr_rotl(b ^ x, x);
    lemma_xor_twice(b, x);
    lemma_wrapping_inverse(rotl(a ^ b, b), table[2 * r]);
    lemma_rotr_rotl(a ^ b, b);
    lemma_xor_twice(a, b);
}

/// A round of encryption undoes the same round of decryption.
pub proof fn lemma_encrypt_round_undoes_decrypt(table: Seq<u32>, r: int, a: u32, b: u32)
    ensures
        ({
            let (x, y) = decrypt_round(table, r, a, b);
            encrypt_round(table, r, x, y) == (a, b)
        }),
{
    let (x, y) = decrypt_round(table, r, a, b);
    let u = rotr(a.wrapping_sub(table[2 * r]), y);
    lemma_xor_twice(u, y);
    lemma_rotl_rotr(a.wrapping_sub(table[2 * r]), y);
    lemma_wrapping_inverse(a, table[2 * r]);
    let v = rotr(b.wrapping_sub(table[2 * r + 1]), a);
    lemma_xor_twice(v, a);
    lemma_rotl_rotr(b.wrapping_sub(table[2 * r + 1]), a);
    lemma_wrapping_inverse(b, table[2 * r + 1]);
}

/// Decrypting the encrypted words gives the words back, whatever the table
/// and the number of rounds.
pub proof fn lemma_decrypt_encrypt_words(table: Seq<u32>, rounds: nat, a: u32, b: u32)
    ensures
        ({
            let (x, y) = encrypted_words(table, rounds, a, b);
            decrypted_words(table, rounds, x, y) == (a, b)
        }),
    decreases rounds,
{
    if rounds == 0 {
        lemma_wrapping_inverse(a, table[0]);
        lemma_wrapping_inverse(b, table[1]);
    } else {
        let (p, q) = encrypted_words(table, (rounds - 1) as nat, a, b);
        lemma_decrypt_round_undoes_encrypt(table, rounds as int, p, q);
        lemma_decrypt_encrypt_words(table, (rounds - 1) as nat, a, b);
    }
}

/// Encrypting the decrypted words gives the words back, whatever the table
/// and the number of rounds.
pub proof fn lemma_encrypt_decrypt_words(table: Seq<u32>, rounds: nat, a: u32, b: u32)
    ensures
        ({
            let (x, y) = decrypted_words(table, rounds, a, b);
            encrypted_words(table, rounds, x, y) == (a, b)
        }),
    decreases rounds,
{
    if rounds == 0 {
        lemma_wrapping_inverse(a, table[0]);
        lemma_wrapping_inverse(b, table[1]);
    } else {
        let (p, q) = decrypt_round(table, rounds as int, a, b);
        lemma_encrypt_decrypt_words(table, (rounds - 1) as nat, p, q);
        lemma_encrypt_round_undoes_decrypt(table, rounds as int, a, b);
    }
}

/// A block written out as two words reads back as those two words.
proof fn lemma_words_of_block(a: u32, b: u32)
    ensures
        (word_bytes(a) + word_bytes(b)).len() == 8,
        word_at(word_bytes(a) + word_bytes(b), 0) == a,
        word_at(word_bytes(a) + word_bytes(b), 4) == b,
{
    lemma_word_of_bytes(a);
    lemma_word_of_bytes(b);
}

/// The two words read from an eight-byte block write out as the block.
proof fn lemma_block_of_words(block: Seq<u8>)
    requires
        block.len() == 8,
    ensures
        word_bytes(word_at(block, 0)) + word_bytes(word_at(block, 4)) == block,
{
    lemma_bytes_of_word(block, 0);
    lemma_bytes_of_word(block, 4);
    assert(block.subrange(0, 4) + block.subrange(4, 8) =~= block);
}

/// Decryption undoes encryption: for every table, every number of rounds and
/// every eight-byte block, decrypting the ciphertext gives the block back.
pub proof fn lemma_decrypt_encrypt_block(table: Seq<u32>, rounds: nat, block: Seq<u8>)
    requires
        block.len() == 8,
    ensures
        encrypted_block(table, rounds, block).len() == 8,
        decrypted_block(table, rounds, encrypted_block(table, rounds, block)) == block,
{
    let a = word_at(block, 0);
    let b = word_at(block, 4);
    let (x, y) = encrypted_words(table, rounds, a, b);
    lemma_words_of_block(x, y);
    lemma_decrypt_encrypt_words(table, rounds, a, b);
    lemma_block_of_words(block);
}

/// Encryption undoes decryption: for every table, every number of rounds and
/// every eight-byte block, encrypting the plaintext gives the block back.
pub proof fn lemma_encrypt_decrypt_block(table: Seq<u32>, rounds: nat, block: Seq<u8>)
    requires
        block.len() == 8,
    ensures
        decrypted_block(table, rounds, block).len() == 8,
        encrypted_block(table, rounds, decrypted_block(table, rounds, block)) == block,
{
    let a = word_at(block, 0);
    let b = word_at(block, 4);
    let (x, y) = decrypted_words(table, rounds, a, b);
    lemma_words_of_block(x, y);
    lemma_encrypt_decrypt_words(table, rounds, a, b);
    lemma_block_of_words(block);
}

/// Encrypts the two words of a block.
pub fn encrypt_words(table: &Vec<u32>, rounds: usize, a: u32, b: u32) -> (out: (u32, u32))
    requires
        table.len() >= 2 * (rounds + 1),
    ensures
        out == encrypted_words(table@, rounds as nat, a, b),
{
    let mut x: u32 = a.wrapping_add(table[0]);
    let mut y: u32 = b.wrapping_add(table[1]);
    for idx in 1..rounds + 1
        invariant
            table.len() >= 2 * (rounds + 1),
            (x, y) == encrypted_words(table@, (idx - 1) as nat, a, b),
    {
        x = rotate_left(x ^ y, y).wrapping_add(table[2 * idx]);
        y = rotate_left(y ^ x, x).wrapping_add(table[2 * idx + 1]);
    }
    (x, y)
}

/// Decrypts the two words of a block.
pub fn decrypt_words(table: &Vec<u32>, rounds: usize, a: u32, b: u32) -> (out: (u32, u32))
    requires
        table.len() >= 2 * (rounds + 1),
    ensures
        out == decrypted_words(table@, rounds as nat, a, b),
{
    let mut x: u32 = a;
    let mut y: u32 = b;
    let mut idx: usize = rounds;
    while idx > 0
        invariant
            idx <= rounds,
            table.len() >= 2 * (rounds + 1),
            decrypted_words(table@, idx as nat, x, y) == decrypted_words(
                table@,
                rounds as nat,
                a,
                b,
            ),
        decreases idx,
    {
        y = rotate_right(y.wrapping_sub(table[2 * idx + 1]), x) ^ x;
        x = rotate_right(x.wrapping_sub(table[2 * idx]), y) ^ y;
        idx -= 1;
    }
    (x.wrapping_sub(table[0]), y.wrapping_sub(table[1]))
}

} // verus!
