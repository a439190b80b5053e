//! The extra-rounds path of the adaptive mode, the choice between the two
//! paths, and the byte histogram that an entropy score is computed from.
//!
//! The extra-rounds path runs the schedule twice over. Which path a block
//! takes is decided by the caller, who scores the block's histogram: the
//! score is a floating-point quantity and is computed outside this library.
//! The functions here do everything else.

use crate::block::{
    apply_iv, backward_rounds, encrypt_block_spec, forward_rounds, lemma_backward_inverts_forward,
    lemma_forward_rounds_concat, lemma_forward_rounds_is_state, lemma_mask_iv_involution, mask_iv,
    qarx256_encrypt_block, rounds_reversible,
};
use crate::context::{CtxModel, Qarx256Ctx, ROUNDS};
use crate::round::{is_state, round_decrypt, round_encrypt};
use crate::words::{
    block_to_words, block_words, lemma_block_words_is_state, lemma_block_words_of_words,
    lemma_words_block_of_block, words_block, words_to_block, BLOCK_SIZE,
};
use vstd::prelude::*;

verus! {

/// Number of rounds of the extra-rounds path.
pub const EXTRA_ROUNDS: usize = 48;

/// The two encryption paths of the adaptive mode.
#[derive(Clone, Copy, Debug, PartialEq, Eq, Structural)]
pub enum Qarx256Mode {
    /// `ROUNDS` rounds, one per round key.
    Standard,
    /// Twice `ROUNDS` rounds, the schedule wrapping around once.
    ExtraRounds,
}

/// Number of positions of `s` that hold the byte `v`.
pub open spec fn occurrences(s: Seq<u8>, v: u8) -> nat
    decreases s.len(),
{
    if s.len() == 0 {
        0
    } else {
        occurrences(s.drop_last(), v) + if s.last() == v {
            1nat
        } else {
            0nat
        }
    }
}

/// The ciphertext of `block` on the extra-rounds path: mask with the initial
/// value, run the rounds of the schedule followed by the same rounds again,
/// write the state out.
pub open spec fn encrypt_extra_rounds_spec(ctx: CtxModel, block: Seq<u8>) -> Seq<u8> {
    words_block(
        forward_rounds(mask_iv(block_words(block), ctx.iv), ctx.round_keys + ctx.round_keys),
    )
}

/// The decryption of `block` on the extra-rounds path: the backward rounds
/// of the doubled schedule from its last key to its first, then the unmasking.
pub open spec fn decrypt_extra_rounds_spec(ctx: CtxModel, block: Seq<u8>) -> Seq<u8> {
    words_block(
        mask_iv(backward_rounds(block_words(block), ctx.round_keys + ctx.round_keys), ctx.iv),
    )
}

/// The ciphertext of `block` on the path that `mode` names.
pub open spec fn encrypt_with_mode_spec(ctx: CtxModel, mode: Qarx256Mode, block: Seq<u8>) -> Seq<
    u8,
> {
    match mode {
        Qarx256Mode::Standard => encrypt_block_spec(ctx, block),
        Qarx256Mode::ExtraRounds => encrypt_extra_rounds_spec(ctx, block),
    }
}

/// Counts how often each byte value occurs in `input`.
pub fn byte_histogram(input: &[u8; BLOCK_SIZE]) -> (counts: [u32; 256])
    ensures
        forall|v: u8| counts@[v as int] == occurrences(input@, v),
{
    let mut counts: [u32; 256] = [0u32; 256];
    let mut n: usize = 0;
    assert(input@.take(0) =~= Seq::<u8>::empty());
    while n < BLOCK_SIZE
        invariant
            n <= BLOCK_SIZE,
            forall|v: u8| counts@[v as int] == occurrences(input@.take(n as int), v),
            forall|v: u8| occurrences(input@.take(n as int), v) <= n,
        decreases BLOCK_SIZE - n,
    {
        let byte: u8 = input[n];
        proof {
            let seen = input@.take(n as int);
            let next = input@.take(n + 1);
            assert(next.drop_last() =~= seen);
            assert forall|v: u8| #[trigger]
                occurrences(next, v) == occurrences(seen, v) + if byte == v {
                    1nat
                } else {
                    0nat
                } by {}
        }
        counts[byte as usize] = counts[byte as usize] + 1;
        n += 1;
    }
    assert(input@.take(BLOCK_SIZE as int) =~= input@);
    counts
}

/// Encrypts one block on the extra-rounds path.
pub fn qarx256_encrypt_extra_rounds(
    ctx: &Qarx256Ctx,
    input: &[u8; BLOCK_SIZE],
) -> (output: [u8; BLOCK_SIZE])
    ensures
        output@ == encrypt_extra_rounds_spec(ctx@, input@),
{
    let ghost keys = ctx@.round_keys + ctx@.round_keys;
    let start = apply_iv(ctx, block_to_words(input));
    let mut state = start;
    let mut j: usize = 0;
    while j < EXTRA_ROUNDS
        invariant
            j <= EXTRA_ROUNDS,
            keys == ctx@.round_keys + ctx@.round_keys,
            state@ == forward_rounds(start@, keys.take(j as int)),
        decreases EXTRA_ROUNDS - j,
    {
        assert(keys.take(j + 1).drop_last() =~= keys.take(j as int));
        assert(keys[j as int] == ctx@.round_keys[(j % ROUNDS) as int]);
        state = round_encrypt(state, ctx.rk[j % ROUNDS]);
        j += 1;
    }
    assert(keys.take(EXTRA_ROUNDS as int) =~= keys);
    words_to_block(&state)
}

/// Decrypts one block on the extra-rounds path: the backward rounds of the
/// doubled schedule in reverse order, then the unmasking. Like the standard
/// decryption, this undoes the encryption only where every round of it is
/// reversible.
pub fn qarx256_decrypt_extra_rounds(
    ctx: &Qarx256Ctx,
    input: &[u8; BLOCK_SIZE],
) -> (output: [u8; BLOCK_SIZE])
    ensures
        output@ == decrypt_extra_rounds_spec(ctx@, input@),
{
    let ghost keys = ctx@.round_keys + ctx@.round_keys;
    let start = block_to_words(input);
    let mut state = start;
    let mut j: usize = EXTRA_ROUNDS;
    assert(keys.take(EXTRA_ROUNDS as int) =~= keys);
    while j > 0
        invariant
            j <= EXTRA_ROUNDS,
            keys == ctx@.round_keys + ctx@.round_keys,
            backward_rounds(state@, keys.take(j as int)) == backward_rounds(start@, keys),
        decreases j,
    {
        assert(keys.take(j as int).drop_last() =~= keys.take(j - 1));
        j -= 1;
        assert(keys[j as int] == ctx@.round_keys[(j % ROUNDS) as int]);
        state = round_decrypt(state, ctx.rk[j % ROUNDS]);
    }
    words_to_block(&apply_iv(ctx, state))
}

/// Encrypts one block on the path that `mode` names.
pub fn qarx256_encrypt_with_mode(
    ctx: &Qarx256Ctx,
    mode: Qarx256Mode,
    input: &[u8; BLOCK_SIZE],
) -> (output: [u8; BLOCK_SIZE])
    ensures
        output@ == encrypt_with_mode_spec(ctx@, mode, input@),
{
    match mode {
        Qarx256Mode::Standard => qarx256_encrypt_block(ctx, input),
        Qarx256Mode::ExtraRounds => qarx256_encrypt_extra_rounds(ctx, input),
    }
}

/// Extra-rounds round trip: decrypting on the extra-rounds path what was
/// encrypted on it gives the block back, on every block on which each of the
/// rounds of the doubled schedule is reversible.
pub proof fn lemma_decrypt_inverts_encrypt_extra_rounds(ctx: CtxModel, block: Seq<u8>)
    requires
        ctx.wf(),
        block.len() == BLOCK_SIZE,
        rounds_reversible(mask_iv(block_words(block), ctx.iv), ctx.round_keys + ctx.round_keys),
    ensures
        decrypt_extra_rounds_spec(ctx, encrypt_extra_rounds_spec(ctx, block)) == block,
{
    let keys = ctx.round_keys + ctx.round_keys;
    let plain = block_words(block);
    let start = mask_iv(plain, ctx.iv);
    let end = forward_rounds(start, keys);
    assert(is_state(plain)) by {
        lemma_block_words_is_state(block);
    }
    assert(is_state(start));
    assert(is_state(end)) by {
        lemma_forward_rounds_is_state(start, keys);
    }
    assert(block_words(words_block(end)) == end) by {
        lemma_block_words_of_words(end);
    }
    assert(backward_rounds(end, keys) == start) by {
        lemma_backward_inverts_forward(start, keys);
    }
    assert(mask_iv(start, ctx.iv) == plain) by {
        lemma_mask_iv_involution(plain, ctx.iv);
    }
    assert(words_block(plain) == block) by {
        lemma_words_block_of_block(block);
    }
}

/// The extra-rounds path is the standard path followed by a second pass over
/// the schedule without the initial value.
pub proof fn lemma_extra_rounds_is_second_pass(ctx: CtxModel, block: Seq<u8>)
    requires
        ctx.wf(),
        block.len() == BLOCK_SIZE,
    ensures
        encrypt_extra_rounds_spec(ctx, block) == encrypt_block_spec(
            CtxModel { round_keys: ctx.round_keys, iv: None },
            encrypt_block_spec(ctx, block),
        ),
{
    let start = mask_iv(block_words(block), ctx.iv);
    let middle = forward_rounds(start, ctx.round_keys);
    assert(is_state(block_words(block))) by {
        lemma_block_words_is_state(block);
    }
    assert(is_state(start));
    assert(is_state(middle)) by {
        lemma_forward_rounds_is_state(start, ctx.round_keys);
    }
    assert(block_words(words_block(middle)) == middle) by {
        lemma_block_words_of_words(middle);
    }
    lemma_forward_rounds_concat(start, ctx.round_keys, ctx.round_keys);
}

/// Determinism of the adaptive encryption: the ciphertext depends on the
/// content of the context, the path and the block alone. Two calls that
/// agree on these agree on the ciphertext.
pub proof fn lemma_encrypt_with_mode_deterministic(
    ctx_a: CtxModel,
    ctx_b: CtxModel,
    mode_a: Qarx256Mode,
    mode_b: Qarx256Mode,
    block_a: Seq<u8>,
    block_b: Seq<u8>,
)
    requires
        ctx_a.round_keys == ctx_b.round_keys,
        ctx_a.iv == ctx_b.iv,
        mode_a == mode_b,
        block_a == block_b,
    ensures
        encrypt_with_mode_spec(ctx_a, mode_a, block_a) == encrypt_with_mode_spec(
            ctx_b,
            mode_b,
            block_b,
        ),
{
}

} // verus!
