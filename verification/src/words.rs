//! Little-endian conversion between bytes and 64-bit words, and between
//! 32-byte blocks and four-word states.

use vstd::prelude::*;

verus! {

/// Size of a block in bytes.
pub const BLOCK_SIZE: usize = 32;

/// The word whose little-endian encoding is the first eight bytes of `b`:
/// byte `j` carries weight `256^j`.
pub open spec fn le_word(b: Seq<u8>) -> u64 {
    (b[0] + b[1] * 0x100 + b[2] * 0x1_0000 + b[3] * 0x100_0000 + b[4] * 0x1_0000_0000 + b[5]
        * 0x100_0000_0000 + b[6] * 0x1_0000_0000_0000 + b[7] * 0x100_0000_0000_0000) as u64
}

/// The eight bytes of the little-endian encoding of `x`.
pub open spec fn word_le_bytes(x: u64) -> Seq<u8> {
    seq![
        (x % 0x100) as u8,
        (x / 0x100 % 0x100) as u8,
        (x / 0x1_0000 % 0x100) as u8,
        (x / 0x100_0000 % 0x100) as u8,
        (x / 0x1_0000_0000 % 0x100) as u8,
        (x / 0x100_0000_0000 % 0x100) as u8,
        (x / 0x1_0000_0000_0000 % 0x100) as u8,
        (x / 0x100_0000_0000_0000 % 0x100) as u8,
    ]
}

/// The four words of a block: word `i` is encoded in bytes `8 i .. 8 i + 8`.
#[verifier::opaque]
pub open spec fn block_words(b: Seq<u8>) -> Seq<u64> {
    Seq::new(4, |i: int| le_word(b.subrange(8 * i, 8 * i + 8)))
}

/// The block that encodes a state: byte `n` is byte `n % 8` of word `n / 8`.
#[verifier::opaque]
pub open spec fn words_block(w: Seq<u64>) -> Seq<u8> {
    Seq::new(32, |n: int| word_le_bytes(w[n / 8])[n % 8])
}

proof fn lemma_shifted_bytes(
    b0: u8,
    b1: u8,
    b2: u8,
    b3: u8,
    b4: u8,
    b5: u8,
    b6: u8,
    b7: u8,
)
    by (bit_vector)
    ensures
        (b0 as u64) | ((b1 as u64) << 8) | ((b2 as u64) << 16) | ((b3 as u64) << 24) | ((b4 as u64)
            << 32) | ((b5 as u64) << 40) | ((b6 as u64) << 48) | ((b7 as u64) << 56) == b0 + b1
            * 0x100 + b2 * 0x1_0000 + b3 * 0x100_0000 + b4 * 0x1_0000_0000 + b5 * 0x100_0000_0000
            + b6 * 0x1_0000_0000_0000 + b7 * 0x100_0000_0000_0000,
{
}

proof fn lemma_masked_shifts(x: u64)
    by (bit_vector)
    ensures
        x & 0xff == x % 0x100,
        (x >> 8) & 0xff == x / 0x100 % 0x100,
        (x >> 16) & 0xff == x / 0x1_0000 % 0x100,
        (x >> 24) & 0xff == x / 0x100_0000 % 0x100,
        (x >> 32) & 0xff == x / 0x1_0000_0000 % 0x100,
        (x >> 40) & 0xff == x / 0x100_0000_0000 % 0x100,
        (x >> 48) & 0xff == x / 0x1_0000_0000_0000 % 0x100,
        (x >> 56) & 0xff == x / 0x100_0000_0000_0000 % 0x100,
{
}

/// Decoding the encoding of a word gives the word back.
pub proof fn lemma_le_word_of_bytes(x: u64)
    ensures
        word_le_bytes(x).len() == 8,
        le_word(word_le_bytes(x)) == x,
{
    assert(x % 0x100 + (x / 0x100 % 0x100) * 0x100 + (x / 0x1_0000 % 0x100) * 0x1_0000 + (x
        / 0x100_0000 % 0x100) * 0x100_0000 + (x / 0x1_0000_0000 % 0x100) * 0x1_0000_0000 + (x
        / 0x100_0000_0000 % 0x100) * 0x100_0000_0000 + (x / 0x1_0000_0000_0000 % 0x100)
        * 0x1_0000_0000_0000 + (x / 0x100_0000_0000_0000 % 0x100) * 0x100_0000_0000_0000 == x)
        by (bit_vector);
}

/// Encoding the word decoded from eight bytes gives the bytes back.
pub proof fn lemma_bytes_of_le_word(b: Seq<u8>)
    requires
        b.len() == 8,
    ensures
        word_le_bytes(le_word(b)) == b,
{
    let x = le_word(b);
    let (b0, b1, b2, b3, b4, b5, b6, b7) = (b[0], b[1], b[2], b[3], b[4], b[5], b[6], b[7]);
    assert(x % 0x100 == b0 && x / 0x100 % 0x100 == b1 && x / 0x1_0000 % 0x100 == b2 && x
        / 0x100_0000 % 0x100 == b3 && x / 0x1_0000_0000 % 0x100 == b4 && x / 0x100_0000_0000
        % 0x100 == b5 && x / 0x1_0000_0000_0000 % 0x100 == b6 && x / 0x100_0000_0000_0000 % 0x100
        == b7) by (bit_vector)
        requires
            x == b0 + b1 * 0x100 + b2 * 0x1_0000 + b3 * 0x100_0000 + b4 * 0x1_0000_0000 + b5
                * 0x100_0000_0000 + b6 * 0x1_0000_0000_0000 + b7 * 0x100_0000_0000_0000,
    ;
    assert(word_le_bytes(x) =~= b);
}

/// Reading any bytes as a block gives a state.
pub proof fn lemma_block_words_is_state(b: Seq<u8>)
    ensures
        block_words(b).len() == 4,
{
    reveal(block_words);
}

/// A state survives being written to a block and read back.
pub proof fn lemma_block_words_of_words(w: Seq<u64>)
    requires
        w.len() == 4,
    ensures
        words_block(w).len() == 32,
        block_words(words_block(w)) == w,
{
    reveal(block_words);
    reveal(words_block);
    let b = words_block(w);
    assert forall|i: int| 0 <= i < 4 implies #[trigger] block_words(b)[i] == w[i] by {
        lemma_le_word_of_bytes(w[i]);
        assert(b.subrange(8 * i, 8 * i + 8) =~= word_le_bytes(w[i]));
    }
    assert(block_words(b) =~= w);
}

/// A block survives being read as a state and written back.
pub proof fn lemma_words_block_of_block(b: Seq<u8>)
    requires
        b.len() == 32,
    ensures
        block_words(b).len() == 4,
        words_block(block_words(b)) == b,
{
    reveal(block_words);
    reveal(words_block);
    let w = block_words(b);
    assert forall|n: int| 0 <= n < 32 implies #[trigger] words_block(w)[n] == b[n] by {
        let i = n / 8;
        lemma_bytes_of_le_word(b.subrange(8 * i, 8 * i + 8));
        assert(b.subrange(8 * i, 8 * i + 8)[n % 8] == b[n]);
    }
    assert(words_block(w) =~= b);
}

/// Reads the little-endian word stored in `bytes[at .. at + 8]`.
pub fn load_le_word(bytes: &[u8], at: usize) -> (w: u64)
    requires
        at + 8 <= bytes@.len(),
    ensures
        w == le_word(bytes@.subrange(at as int, at + 8)),
{
    let b0: u8 = bytes[at];
    let b1: u8 = bytes[at + 1];
    let b2: u8 = bytes[at + 2];
    let b3: u8 = bytes[at + 3];
    let b4: u8 = bytes[at + 4];
    let b5: u8 = bytes[at + 5];
    let b6: u8 = bytes[at + 6];
    let b7: u8 = bytes[at + 7];
    proof {
        lemma_shifted_bytes(b0, b1, b2, b3, b4, b5, b6, b7);
    }
    (b0 as u64) | ((b1 as u64) << 8) | ((b2 as u64) << 16) | ((b3 as u64) << 24) | ((b4 as u64)
        << 32) | ((b5 as u64) << 40) | ((b6 as u64) << 48) | ((b7 as u64) << 56)
}

/// Returns byte `j` of the little-endian encoding of `x`.
pub fn le_byte(x: u64, j: usize) -> (b: u8)
    requires
        j < 8,
    ensures
        b == word_le_bytes(x)[j as int],
{
    proof {
        lemma_masked_shifts(x);
    }
    let shifted: u64 = if j == 0 {
        x
    } else if j == 1 {
        x >> 8
    } else if j == 2 {
        x >> 16
    } else if j == 3 {
        x >> 24
    } else if j == 4 {
        x >> 32
    } else if j == 5 {
        x >> 40
    } else if j == 6 {
        x >> 48
    } else {
        x >> 56
    };
    (shifted & 0xff) as u8
}

/// Reads the first 32 bytes of `bytes` as four little-endian words.
pub fn block_to_words_prefix(bytes: &[u8]) -> (state: [u64; 4])
    requires
        32 <= bytes@.len(),
    ensures
        state@ == block_words(bytes@),
{
    let state: [u64; 4] = [
        load_le_word(bytes, 0),
        load_le_word(bytes, 8),
        load_le_word(bytes, 16),
        load_le_word(bytes, 24),
    ];
    proof {
        reveal(block_words);
    }
    assert(state@ =~= block_words(bytes@));
    state
}

/// Reads a block as four little-endian words.
pub fn block_to_words(block: &[u8; BLOCK_SIZE]) -> (state: [u64; 4])
    ensures
        state@ == block_words(block@),
{
    block_to_words_prefix(block)
}

/// Writes four words as a block of little-endian bytes.
pub fn words_to_block(state: &[u64; 4]) -> (block: [u8; BLOCK_SIZE])
    ensures
        block@ == words_block(state@),
{
    let mut block: [u8; BLOCK_SIZE] = [0u8; BLOCK_SIZE];
    let mut n: usize = 0;
    proof {
        reveal(words_block);
    }
    while n < 32
        invariant
            n <= 32,
            forall|m: int| 0 <= m < n ==> block@[m] == words_block(state@)[m],
        decreases 32 - n,
    {
        proof {
            reveal(words_block);
        }
        block[n] = le_byte(state[n / 8], n % 8);
        n += 1;
    }
    proof {
        reveal(words_block);
    }
    assert(block@ =~= words_block(state@));
    block
}

} // verus!
