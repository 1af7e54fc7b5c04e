//! Arithmetic on 32-bit words: rotations, addition modulo 2^32, and words as
//! little-endian bytes.

use vstd::prelude::*;

verus! {

/// `x` rotated left; only the low five bits of `amount` count.
pub open spec fn rotl(x: u32, amount: u32) -> u32 {
    let s = amount % 32;
    if s == 0 {
        x
    } else {
        (x << s) | (x >> ((32 - s) as u32))
    }
}

/// `x` rotated right; only the low five bits of `amount` count.
pub open spec fn rotr(x: u32, amount: u32) -> u32 {
    let s = amount % 32;
    if s == 0 {
        x
    } else {
        (x >> s) | (x << ((32 - s) as u32))
    }
}

/// Rotating left moves the bit at place `i` to place `i + amount` modulo 32.
pub proof fn lemma_rotl_moves_bits(x: u32, amount: u32, i: u32)
    requires
        i < 32,
    ensures
        (rotl(x, amount) >> (((i + amount % 32) % 32) as u32)) & 1 == (x >> i) & 1,
{
    assert((rotl(x, amount) >> (((i + amount % 32) % 32) as u32)) & 1 == (x >> i) & 1)
        by (bit_vector)
        requires
            i < 32,
    ;
}

/// Rotating right moves the bit at place `i + amount` modulo 32 to place `i`.
pub proof fn lemma_rotr_moves_bits(x: u32, amount: u32, i: u32)
    requires
        i < 32,
    ensures
        (rotr(x, amount) >> i) & 1 == (x >> (((i + amount % 32) % 32) as u32)) & 1,
{
    assert((rotr(x, amount) >> i) & 1 == (x >> (((i + amount % 32) % 32) as u32)) & 1)
        by (bit_vector)
        requires
            i < 32,
    ;
}

/// Rotating right undoes rotating left by the same amount.
pub proof fn lemma_rotr_rotl(x: u32, amount: u32)
    ensures
        rotr(rotl(x, amount), amount) == x,
{
    assert(rotr(rotl(x, amount), amount) == x) by (bit_vector);
}

/// Rotating left undoes rotating right by the same amount.
pub proof fn lemma_rotl_rotr(x: u32, amount: u32)
    ensures
        rotl(rotr(x, amount), amount) == x,
{
    assert(rotl(rotr(x, amount), amount) == x) by (bit_vector);
}

/// Xor with the same word twice gives the word back.
pub proof fn lemma_xor_twice(x: u32, y: u32)
    ensures
        (x ^ y) ^ y == x,
{
    assert((x ^ y) ^ y == x) by (bit_vector);
}

/// Subtraction modulo 2^32 undoes addition modulo 2^32, and the reverse.
pub proof fn lemma_wrapping_inverse(x: u32, k: u32)
    ensures
        x.wrapping_add(k).wrapping_sub(k) == x,
        x.wrapping_sub(k).wrapping_add(k) == x,
{
}

/// Rotates `x` left by `amount` modulo 32.
pub fn rotate_left(x: u32, amount: u32) -> (r: u32)
    ensures
        r == rotl(x, amount),
{
    let s: u32 = amount % 32;
    if s == 0 {
        x
    } else {
        (x << s) | (x >> (32 - s))
    }
}

/// Rotates `x` right by `amount` modulo 32.
pub fn rotate_right(x: u32, amount: u32) -> (r: u32)
    ensures
        r == rotr(x, amount),
{
    let s: u32 = amount % 32;
    if s == 0 {
        x
    } else {
        (x >> s) | (x << (32 - s))
    }
}

/// The word whose bytes, from the lowest up, are `b0`, `b1`, `b2`, `b3`.
pub open spec fn word_of(b0: u8, b1: u8, b2: u8, b3: u8) -> u32 {
    (b0 + 0x100 * b1 + 0x1_0000 * b2 + 0x100_0000 * b3) as u32
}

/// The word that `bytes[at .. at + 4]` holds in little-endian order.
pub open spec fn word_at(bytes: Seq<u8>, at: int) -> u32 {
    word_of(bytes[at], bytes[at + 1], bytes[at + 2], bytes[at + 3])
}

/// The four bytes of `w` in little-endian order.
pub open spec fn word_bytes(w: u32) -> Seq<u8> {
    seq![
        (w % 0x100) as u8,
        (w / 0x100 % 0x100) as u8,
        (w / 0x1_0000 % 0x100) as u8,
        (w / 0x100_0000) as u8,
    ]
}

/// The bytes that a word is made of are the bytes it is written as.
pub proof fn lemma_word_of_parts(b0: u8, b1: u8, b2: u8, b3: u8)
    ensures
        word_bytes(word_of(b0, b1, b2, b3)) == seq![b0, b1, b2, b3],
{
    let w = word_of(b0, b1, b2, b3);
    let n: int = b0 + 0x100 * b1 + 0x1_0000 * b2 + 0x100_0000 * b3;
    assert(0 <= n <= 0xffff_ffff);
    assert(w == n);
    assert(n / 0x100 == b1 + 0x100 * b2 + 0x1_0000 * b3);
    assert(n / 0x1_0000 == b2 + 0x100 * b3);
    assert(n / 0x100_0000 == b3);
    assert(word_bytes(w) =~= seq![b0, b1, b2, b3]);
}

/// Reading back the bytes of a word gives the word.
pub proof fn lemma_word_of_bytes(w: u32)
    ensures
        word_bytes(w).len() == 4,
        word_at(word_bytes(w), 0) == w,
{
    let b0 = w % 0x100;
    let b1 = w / 0x100 % 0x100;
    let b2 = w / 0x1_0000 % 0x100;
    let b3 = w / 0x100_0000;
    assert(w == b0 + 0x100 * b1 + 0x1_0000 * b2 + 0x100_0000 * b3);
}

/// Writing out the word read from four bytes gives the four bytes.
pub proof fn lemma_bytes_of_word(bytes: Seq<u8>, at: int)
    requires
        0 <= at,
        at + 4 <= bytes.len(),
    ensures
        word_bytes(word_at(bytes, at)) == bytes.subrange(at, at + 4),
{
    lemma_word_of_parts(bytes[at], bytes[at + 1], bytes[at + 2], bytes[at + 3]);
    assert(bytes.subrange(at, at + 4) =~= seq![
        bytes[at],
        bytes[at + 1],
        bytes[at + 2],
        bytes[at + 3],
    ]);
}

/// Reads the little-endian word at `bytes[at .. at + 4]`.
pub fn read_word(bytes: &Vec<u8>, at: usize) -> (w: u32)
    requires
        at + 4 <= bytes.len(),
    ensures
        w == word_at(bytes@, at as int),
{
    let b0 = bytes[at] as u32;
    let b1 = bytes[at + 1] as u32;
    let b2 = bytes[at + 2] as u32;
    let b3 = bytes[at + 3] as u32;
    assert((b0 | (b1 << 8) | (b2 << 16) | (b3 << 24)) == b0 + 0x100 * b1 + 0x1_0000 * b2
        + 0x100_0000 * b3) by (bit_vector)
        requires
            b0 < 0x100,
            b1 < 0x100,
            b2 < 0x100,
            b3 < 0x100,
    ;
    b0 | (b1 << 8) | (b2 << 16) | (b3 << 24)
}

/// Appends the four little-endian bytes of `w` to `out`.
pub fn push_word(out: &mut Vec<u8>, w: u32)
    ensures
        final(out)@ == old(out)@ + word_bytes(w),
{
    assert((w & 0xff) == w % 0x100 && ((w >> 8) & 0xff) == w / 0x100 % 0x100 && ((w >> 16) & 0xff)
        == w / 0x1_0000 % 0x100 && (w >> 24) == w / 0x100_0000) by (bit_vector);
    out.push((w & 0xff) as u8);
    out.push(((w >> 8) & 0xff) as u8);
    out.push(((w >> 16) & 0xff) as u8);
    out.push((w >> 24) as u8);
}

} // verus!
