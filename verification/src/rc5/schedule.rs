//! Key schedule: from the secret key to the table of round keys.

use crate::rc5::word::{rotate_left, rotl, word_at};
use vstd::arithmetic::div_mod::{
    lemma_add_mod_noop_right, lemma_mod_add_multiples_vanish, lemma_small_mod,
};
use vstd::prelude::*;

verus! {

/// First magic constant of the schedule, derived from e.
pub const P: u32 = 0xb7e15163;

/// Second magic constant of the schedule, derived from the golden ratio.
pub const Q: u32 = 0x9e3779b9;

/// Number of words in the table of round keys for `rounds` rounds.
pub open spec fn table_len(rounds: nat) -> nat {
    2 * (rounds + 1)
}

/// The key as words: four bytes to a word, lowest byte first.
pub open spec fn key_words(key: Seq<u8>) -> Seq<u32> {
    Seq::new(key.len() / 4, |w: int| word_at(key, 4 * w))
}

/// Entry `i` of the table before mixing: `P + i * Q` modulo 2^32.
pub open spec fn initial_entry(i: int) -> u32 {
    ((P + i * Q) % 0x1_0000_0000) as u32
}

/// The table before mixing: `P`, `P + Q`, `P + 2Q`, ... modulo 2^32.
pub open spec fn initial_table(len: nat) -> Seq<u32> {
    Seq::new(len, |i: int| initial_entry(i))
}

/// Where the mixing stands: the table, the key words, and the two words
/// carried from one step to the next.
pub struct MixState {
    /// The table of round keys so far.
    pub table: Seq<u32>,
    /// The key words so far.
    pub key: Seq<u32>,
    /// The table entry written last.
    pub a: u32,
    /// The key word written last.
    pub b: u32,
}

/// One step of mixing, on entry `i` of the table and word `j` of the key.
pub open spec fn mix_step(st: MixState, i: int, j: int) -> MixState {
    let a = rotl(st.table[i].wrapping_add(st.a).wrapping_add(st.b), 3);
    let b = rotl(st.key[j].wrapping_add(a).wrapping_add(st.b), a.wrapping_add(st.b));
    MixState { table: st.table.update(i, a), key: st.key.update(j, b), a, b }
}

/// The state after `steps` steps of mixing, each on the next entry of the
/// table and the next word of the key, both taken round and round.
pub open spec fn mix(table: Seq<u32>, key: Seq<u32>, steps: nat) -> MixState
    decreases steps,
{
    if steps == 0 {
        MixState { table, key, a: 0, b: 0 }
    } else {
        let before = (steps - 1) as nat;
        mix_step(
            mix(table, key, before),
            before as int % table.len() as int,
            before as int % key.len() as int,
        )
    }
}

/// The table of round keys that `key` gives for `rounds` rounds: the initial
/// table mixed with the key words in three passes over the table.
pub open spec fn expanded_key(rounds: nat, key: Seq<u8>) -> Seq<u32> {
    mix(initial_table(table_len(rounds)), key_words(key), 3 * table_len(rounds)).table
}

/// Mixing changes no lengths.
pub proof fn lemma_mix_len(table: Seq<u32>, key: Seq<u32>, steps: nat)
    requires
        table.len() >= 1,
        key.len() >= 1,
    ensures
        mix(table, key, steps).table.len() == table.len(),
        mix(table, key, steps).key.len() == key.len(),
    decreases steps,
{
    if steps > 0 {
        lemma_mix_len(table, key, (steps - 1) as nat);
    }
}

/// The table of round keys has two words per round and two more.
pub proof fn lemma_expanded_key_len(rounds: nat, key: Seq<u8>)
    requires
        key.len() >= 4,
    ensures
        expanded_key(rounds, key).len() == table_len(rounds),
{
    lemma_mix_len(initial_table(table_len(rounds)), key_words(key), 3 * table_len(rounds));
}

/// What word `w` of the key holds once the bytes from `from` upwards have
/// been folded in, highest byte first.
spec fn folded(key: Seq<u8>, w: int, from: int) -> int {
    let at = 4 * w;
    if from >= at + 4 {
        0
    } else if from == at + 3 {
        key[at + 3] as int
    } else if from == at + 2 {
        key[at + 2] + 0x100 * key[at + 3]
    } else if from == at + 1 {
        key[at + 1] + 0x100 * key[at + 2] + 0x1_0000 * key[at + 3]
    } else {
        word_at(key, at) as int
    }
}

/// Each entry of the table before mixing is the one before it plus `Q`.
proof fn lemma_next_entry(i: int)
    requires
        0 <= i,
    ensures
        initial_entry(i).wrapping_add(Q) == initial_entry(i + 1),
{
    let m: int = 0x1_0000_0000;
    let x: int = P + i * Q;
    let low: int = x % m;
    assert(P + (i + 1) * Q == Q + x) by (nonlinear_arith)
        requires
            x == P + i * Q,
    ;
    assert((Q + low) % m == (Q + x) % m) by {
        lemma_add_mod_noop_right(Q as int, x, m);
    }
    assert(0 <= low < m);
    assert((Q + low) % m == if Q + low >= m {
        Q + low - m
    } else {
        Q + low
    }) by {
        if Q + low >= m {
            lemma_small_mod((Q + low - m) as nat, m as nat);
            lemma_mod_add_multiples_vanish(Q + low - m, m);
        } else {
            lemma_small_mod((Q + low) as nat, m as nat);
        }
    }
}

/// Packs the key into words, four bytes to a word, lowest byte first.
pub fn pack_key(key: &Vec<u8>) -> (words: Vec<u32>)
    requires
        key.len() % 4 == 0,
    ensures
        words@ == key_words(key@),
{
    let mut words: Vec<u32> = vec![0; key.len() / 4];
    let mut idx: usize = key.len();
    while idx > 0
        invariant
            idx <= key.len(),
            key.len() % 4 == 0,
            words.len() == key.len() / 4,
            forall|w: int|
                0 <= w < words.len() ==> #[trigger] words@[w] == folded(key@, w, idx as int),
        decreases idx,
    {
        idx -= 1;
        let w: usize = idx / 4;
        let old_word: u32 = words[w];
        assert(old_word == folded(key@, w as int, idx + 1));
        assert((old_word << 8) == old_word * 0x100) by (bit_vector)
            requires
                old_word < 0x100_0000,
        ;
        words[w] = (old_word << 8) + (key[idx] as u32);
    }
    assert(words@ =~= key_words(key@));
    words
}

/// Builds the table before mixing.
pub fn fill_table(len: usize) -> (table: Vec<u32>)
    ensures
        table@ == initial_table(len as nat),
{
    let mut table: Vec<u32> = Vec::with_capacity(len);
    let mut entry: u32 = P;
    for idx in 0..len
        invariant
            table.len() == idx,
            entry == initial_entry(idx as int),
            forall|i: int| 0 <= i < idx ==> #[trigger] table@[i] == initial_entry(i),
    {
        table.push(entry);
        proof {
            lemma_next_entry(idx as int);
        }
        entry = entry.wrapping_add(Q);
    }
    assert(table@ =~= initial_table(len as nat));
    table
}

/// Mixes the key words into the table in three passes over the table.
pub fn mix_key(table: &mut Vec<u32>, words: &mut Vec<u32>)
    requires
        old(table).len() == 0 || old(words).len() >= 1,
        3 * old(table).len() <= usize::MAX,
    ensures
        final(table)@ == mix(old(table)@, old(words)@, (3 * old(table).len()) as nat).table,
        final(words)@ == mix(old(table)@, old(words)@, (3 * old(table).len()) as nat).key,
{
    let table_size: usize = table.len();
    let word_count: usize = words.len();
    let mut a: u32 = 0;
    let mut b: u32 = 0;
    let mut i: usize = 0;
    let mut j: usize = 0;
    proof {
        if table_size > 0 {
            lemma_small_mod(0, table_size as nat);
            lemma_small_mod(0, word_count as nat);
        }
    }
    for step in 0..table_size * 3
        invariant
            table.len() == table_size,
            words.len() == word_count,
            table_size == old(table).len(),
            word_count == old(words).len(),
            table_size == 0 || word_count >= 1,
            table_size > 0 ==> i == step % table_size && j == step % word_count,
            mix(old(table)@, old(words)@, step as nat) == (MixState {
                table: table@,
                key: words@,
                a,
                b,
            }),
    {
        table[i] = rotate_left(table[i].wrapping_add(a).wrapping_add(b), 3);
        a = table[i];

        words[j] = rotate_left(words[j].wrapping_add(a).wrapping_add(b), a.wrapping_add(b));
        b = words[j];

        proof {
            lemma_add_mod_noop_right(1, step as int, table_size as int);
            lemma_add_mod_noop_right(1, step as int, word_count as int);
        }
        i = (i + 1) % table_size;
        j = (j + 1) % word_count;
    }
}

/// Derives the table of round keys from the key.
pub fn expand_key(rounds: u8, key: &Vec<u8>) -> (table: Vec<u32>)
    requires
        key.len() % 4 == 0,
        key.len() >= 4,
    ensures
        table@ == expanded_key(rounds as nat, key@),
{
    let mut words = pack_key(key);
    let mut table = fill_table(2 * (rounds as usize + 1));
    mix_key(&mut table, &mut words);
    table
}

} // verus!
