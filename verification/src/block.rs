//! Encryption and decryption of one 32-byte block.
//!
//! Encryption masks the block with the initial value, if one is set, and
//! runs one forward round per round key. Decryption runs the backward rounds
//! from the last key to the first and unmasks. Because a forward round is not
//! injective, decryption gives an encrypted block back only where the
//! encryption lost nothing: [`lemma_decrypt_inverts_encrypt`] states on which
//! blocks it does, [`lemma_round_trip_needs_half_balanced`] names blocks on
//! which it cannot.

use crate::context::{CtxModel, Qarx256Ctx, ROUNDS};
use crate::round::{
    half_balanced, is_state, lemma_round_decrypt_inverts_encrypt, lemma_round_decrypt_range,
    lemma_round_trip_needs_reversible, lemma_xor_cancel, mixed_state, round_decrypt,
    round_decrypt_spec, round_encrypt, round_encrypt_spec, round_reversible,
};
use crate::words::{
    block_to_words, block_words, lemma_block_words_is_state, lemma_block_words_of_words,
    lemma_words_block_of_block, words_block, words_to_block, BLOCK_SIZE,
};
use vstd::prelude::*;

verus! {

/// Word-wise XOR of two states.
pub open spec fn xor_words(x: Seq<u64>, m: Seq<u64>) -> Seq<u64> {
    seq![x[0] ^ m[0], x[1] ^ m[1], x[2] ^ m[2], x[3] ^ m[3]]
}

/// The state masked by the initial value, or unchanged where none is set.
pub open spec fn mask_iv(x: Seq<u64>, iv: Option<Seq<u64>>) -> Seq<u64> {
    match iv {
        Some(m) => xor_words(x, m),
        None => x,
    }
}

/// The forward round applied once per key, in the order of `keys`.
pub open spec fn forward_rounds(x: Seq<u64>, keys: Seq<Seq<u64>>) -> Seq<u64>
    decreases keys.len(),
{
    if keys.len() == 0 {
        x
    } else {
        round_encrypt_spec(forward_rounds(x, keys.drop_last()), keys.last())
    }
}

/// The backward round applied once per key, from the last key of `keys` to
/// the first.
pub open spec fn backward_rounds(x: Seq<u64>, keys: Seq<Seq<u64>>) -> Seq<u64>
    decreases keys.len(),
{
    if keys.len() == 0 {
        x
    } else {
        backward_rounds(round_decrypt_spec(x, keys.last()), keys.drop_last())
    }
}

/// The ciphertext of the block `block`: mask with the initial value, run
/// every round in order, write the state out.
pub open spec fn encrypt_block_spec(ctx: CtxModel, block: Seq<u8>) -> Seq<u8> {
    words_block(forward_rounds(mask_iv(block_words(block), ctx.iv), ctx.round_keys))
}

/// The decryption of the block `block`: run every backward round from the
/// last key to the first, unmask with the initial value, write the state out.
pub open spec fn decrypt_block_spec(ctx: CtxModel, block: Seq<u8>) -> Seq<u8> {
    words_block(mask_iv(backward_rounds(block_words(block), ctx.round_keys), ctx.iv))
}

/// XORs the initial value of `ctx`, if any, into `state`.
pub fn apply_iv(ctx: &Qarx256Ctx, state: [u64; 4]) -> (masked: [u64; 4])
    ensures
        masked@ == mask_iv(state@, ctx@.iv),
{
    match ctx.iv {
        Some(iv) => {
            let masked: [u64; 4] = [
                state[0] ^ iv[0],
                state[1] ^ iv[1],
                state[2] ^ iv[2],
                state[3] ^ iv[3],
            ];
            assert(masked@ =~= xor_words(state@, iv@));
            masked
        },
        None => state,
    }
}

/// Encrypts one block under `ctx`: the masking, then the forward rounds in
/// key order.
pub fn qarx256_encrypt_block(
    ctx: &Qarx256Ctx,
    input: &[u8; BLOCK_SIZE],
) -> (output: [u8; BLOCK_SIZE])
    ensures
        output@ == encrypt_block_spec(ctx@, input@),
{
    let start = apply_iv(ctx, block_to_words(input));
    let mut state = start;
    let mut i: usize = 0;
    while i < ROUNDS
        invariant
            i <= ROUNDS,
            state@ == forward_rounds(start@, ctx@.round_keys.take(i as int)),
        decreases ROUNDS - i,
    {
        assert(ctx@.round_keys.take(i + 1).drop_last() =~= ctx@.round_keys.take(i as int));
        state = round_encrypt(state, ctx.rk[i]);
        i += 1;
    }
    assert(ctx@.round_keys.take(ROUNDS as int) =~= ctx@.round_keys);
    words_to_block(&state)
}

/// Decrypts one block under `ctx`: the backward rounds in reverse key order,
/// then the unmasking. This undoes [`qarx256_encrypt_block`] on the blocks
/// that [`block_reversible`] describes, not on every block.
pub fn qarx256_decrypt_block(
    ctx: &Qarx256Ctx,
    input: &[u8; BLOCK_SIZE],
) -> (output: [u8; BLOCK_SIZE])
    ensures
        output@ == decrypt_block_spec(ctx@, input@),
{
    let start = block_to_words(input);
    let mut state = start;
    let mut i: usize = ROUNDS;
    assert(ctx@.round_keys.take(ROUNDS as int) =~= ctx@.round_keys);
    while i > 0
        invariant
            i <= ROUNDS,
            backward_rounds(state@, ctx@.round_keys.take(i as int)) == backward_rounds(
                start@,
                ctx@.round_keys,
            ),
        decreases i,
    {
        assert(ctx@.round_keys.take(i as int).drop_last() =~= ctx@.round_keys.take(i - 1));
        i -= 1;
        state = round_decrypt(state, ctx.rk[i]);
    }
    words_to_block(&apply_iv(ctx, state))
}

/// The backward rounds retrace the forward rounds: after undoing the rounds
/// of the keys from `i` on, the state is the one that the forward rounds
/// reached after the first `i` keys, for every `i`.
pub open spec fn rounds_retraced(x: Seq<u64>, keys: Seq<Seq<u64>>) -> bool {
    forall|i: int|
        0 <= i <= keys.len() ==> #[trigger] backward_rounds(
            forward_rounds(x, keys),
            keys.skip(i),
        ) == forward_rounds(x, keys.take(i))
}

/// Every forward round of the chain starts from a state on which the
/// backward round undoes it.
pub open spec fn rounds_reversible(x: Seq<u64>, keys: Seq<Seq<u64>>) -> bool
    decreases keys.len(),
{
    keys.len() == 0 || (rounds_reversible(x, keys.drop_last()) && round_reversible(
        forward_rounds(x, keys.drop_last()),
        keys.last(),
    ))
}

/// Every round of the encryption of `block` under `ctx` is reversible.
/// Decryption then retraces the encryption round by round, see
/// [`lemma_reversible_iff_retraced`], and ends on `block`.
pub open spec fn block_reversible(ctx: CtxModel, block: Seq<u8>) -> bool {
    rounds_reversible(mask_iv(block_words(block), ctx.iv), ctx.round_keys)
}

/// A chain of forward rounds maps states to states.
pub proof fn lemma_forward_rounds_is_state(x: Seq<u64>, keys: Seq<Seq<u64>>)
    requires
        is_state(x),
    ensures
        is_state(forward_rounds(x, keys)),
    decreases keys.len(),
{
    if keys.len() > 0 {
        lemma_forward_rounds_is_state(x, keys.drop_last());
    }
}

/// Masking twice with the same initial value restores the state.
pub proof fn lemma_mask_iv_involution(x: Seq<u64>, iv: Option<Seq<u64>>)
    requires
        is_state(x),
    ensures
        mask_iv(mask_iv(x, iv), iv) == x,
{
    if let Some(m) = iv {
        lemma_xor_cancel(x[0], m[0]);
        lemma_xor_cancel(x[1], m[1]);
        lemma_xor_cancel(x[2], m[2]);
        lemma_xor_cancel(x[3], m[3]);
        assert(xor_words(xor_words(x, m), m) =~= x);
    }
}

/// On a chain whose every round is reversible, the backward rounds under the
/// same keys restore the state that the forward rounds started from.
pub proof fn lemma_backward_inverts_forward(x: Seq<u64>, keys: Seq<Seq<u64>>)
    requires
        is_state(x),
        rounds_reversible(x, keys),
    ensures
        backward_rounds(forward_rounds(x, keys), keys) == x,
    decreases keys.len(),
{
    if keys.len() > 0 {
        let before = forward_rounds(x, keys.drop_last());
        lemma_forward_rounds_is_state(x, keys.drop_last());
        lemma_round_decrypt_inverts_encrypt(before, keys.last());
        lemma_backward_inverts_forward(x, keys.drop_last());
    }
}

/// What one step back from the end of a chain leaves to undo: the backward
/// rounds over the keys from `i` on are one backward round under the last
/// key followed by the backward rounds over the keys from `i` to the last
/// but one.
proof fn lemma_backward_rounds_skip(y: Seq<u64>, keys: Seq<Seq<u64>>, i: int)
    requires
        0 <= i < keys.len(),
    ensures
        backward_rounds(y, keys.skip(i)) == backward_rounds(
            round_decrypt_spec(y, keys.last()),
            keys.drop_last().skip(i),
        ),
{
    assert(keys.skip(i).drop_last() =~= keys.drop_last().skip(i));
    assert(keys.skip(i).last() == keys.last());
}

/// A chain is reversible exactly when the backward rounds retrace it. The
/// chains that [`lemma_backward_inverts_forward`] leaves out are thus those
/// on which some backward round fails to restore the state before the
/// matching forward round.
pub proof fn lemma_reversible_iff_retraced(x: Seq<u64>, keys: Seq<Seq<u64>>)
    requires
        is_state(x),
    ensures
        rounds_reversible(x, keys) <==> rounds_retraced(x, keys),
    decreases keys.len(),
{
    let y = forward_rounds(x, keys);
    if keys.len() == 0 {
        assert forall|i: int| 0 <= i <= keys.len() implies #[trigger] backward_rounds(
            y,
            keys.skip(i),
        ) == forward_rounds(x, keys.take(i)) by {
            assert(keys.skip(i) =~= keys);
            assert(keys.take(i) =~= keys);
        }
    } else {
        let n = keys.len() as int;
        let front = keys.drop_last();
        let before = forward_rounds(x, front);
        let undone = round_decrypt_spec(y, keys.last());
        lemma_forward_rounds_is_state(x, front);
        lemma_reversible_iff_retraced(x, front);
        assert(keys.take(n) =~= keys);
        assert(keys.take(n - 1) =~= front);
        assert(backward_rounds(y, keys.skip(n)) == y) by {
            assert(keys.skip(n).len() == 0);
        }
        assert(backward_rounds(y, keys.skip(n - 1)) == undone) by {
            lemma_backward_rounds_skip(y, keys, n - 1);
            assert(front.skip(n - 1).len() == 0);
        }
        if rounds_reversible(x, keys) {
            lemma_round_decrypt_inverts_encrypt(before, keys.last());
            assert(undone == before);
            assert forall|i: int| 0 <= i <= keys.len() implies #[trigger] backward_rounds(
                y,
                keys.skip(i),
            ) == forward_rounds(x, keys.take(i)) by {
                if i < n {
                    lemma_backward_rounds_skip(y, keys, i);
                    assert(keys.take(i) =~= front.take(i));
                    assert(backward_rounds(before, front.skip(i)) == forward_rounds(
                        x,
                        front.take(i),
                    ));
                }
            }
        }
        if rounds_retraced(x, keys) {
            assert(backward_rounds(y, keys.skip(n - 1)) == forward_rounds(x, keys.take(n - 1)));
            assert(undone == before);
            lemma_round_trip_needs_reversible(before, keys.last());
            assert forall|i: int| 0 <= i <= front.len() implies #[trigger] backward_rounds(
                before,
                front.skip(i),
            ) == forward_rounds(x, front.take(i)) by {
                lemma_backward_rounds_skip(y, keys, i);
                assert(keys.take(i) =~= front.take(i));
                assert(backward_rounds(y, keys.skip(i)) == forward_rounds(x, keys.take(i)));
            }
            assert(rounds_retraced(x, front));
        }
    }
}

/// Block round trip: decrypting the encryption of a block under the same
/// context gives the block back, with or without an initial value, on every
/// block on which each round of the encryption is reversible.
pub proof fn lemma_decrypt_inverts_encrypt(ctx: CtxModel, block: Seq<u8>)
    requires
        ctx.wf(),
        block.len() == BLOCK_SIZE,
        block_reversible(ctx, block),
    ensures
        decrypt_block_spec(ctx, encrypt_block_spec(ctx, block)) == block,
{
    let plain = block_words(block);
    let start = mask_iv(plain, ctx.iv);
    let end = forward_rounds(start, ctx.round_keys);
    assert(is_state(plain)) by {
        lemma_block_words_is_state(block);
    }
    assert(is_state(start));
    assert(is_state(end)) by {
        lemma_forward_rounds_is_state(start, ctx.round_keys);
    }
    assert(block_words(words_block(end)) == end) by {
        lemma_block_words_of_words(end);
    }
    assert(backward_rounds(end, ctx.round_keys) == start) by {
        lemma_backward_inverts_forward(start, ctx.round_keys);
    }
    assert(mask_iv(start, ctx.iv) == plain) by {
        lemma_mask_iv_involution(plain, ctx.iv);
    }
    assert(words_block(plain) == block) by {
        lemma_words_block_of_block(block);
    }
}

/// Running the rounds of `a` and then the rounds of `b` is running the
/// rounds of `a + b`.
pub proof fn lemma_forward_rounds_concat(x: Seq<u64>, a: Seq<Seq<u64>>, b: Seq<Seq<u64>>)
    ensures
        forward_rounds(x, a + b) == forward_rounds(forward_rounds(x, a), b),
    decreases b.len(),
{
    if b.len() == 0 {
        assert(a + b =~= a);
    } else {
        assert((a + b).drop_last() =~= a + b.drop_last());
        lemma_forward_rounds_concat(x, a, b.drop_last());
    }
}

/// The backward rounds end with the backward round of the first key.
pub proof fn lemma_backward_rounds_end(x: Seq<u64>, keys: Seq<Seq<u64>>)
    requires
        keys.len() > 0,
    ensures
        backward_rounds(x, keys) == round_decrypt_spec(
            backward_rounds(x, keys.drop_first()),
            keys.first(),
        ),
    decreases keys.len(),
{
    let next = round_decrypt_spec(x, keys.last());
    let rest = keys.drop_first();
    assert(backward_rounds(x, keys) == backward_rounds(next, keys.drop_last()));
    if keys.len() == 1 {
        assert(backward_rounds(next, keys.drop_last()) == next);
        assert(backward_rounds(x, rest) == x);
    } else {
        lemma_backward_rounds_end(next, keys.drop_last());
        assert(keys.drop_last().drop_first() =~= rest.drop_last());
        assert(rest.last() == keys.last());
        assert(backward_rounds(x, rest) == backward_rounds(next, rest.drop_last()));
    }
}

/// A chain of backward rounds maps states to states.
pub proof fn lemma_backward_rounds_is_state(x: Seq<u64>, keys: Seq<Seq<u64>>)
    requires
        is_state(x),
    ensures
        is_state(backward_rounds(x, keys)),
    decreases keys.len(),
{
    if keys.len() > 0 {
        lemma_backward_rounds_is_state(round_decrypt_spec(x, keys.last()), keys.drop_last());
    }
}

/// Where decryption does give back an encrypted block, the first round of
/// the encryption started from a state whose mixed form is half-balanced.
/// On every other block the round trip fails, whatever the later round keys.
pub proof fn lemma_round_trip_needs_half_balanced(ctx: CtxModel, block: Seq<u8>)
    requires
        ctx.wf(),
        block.len() == BLOCK_SIZE,
        decrypt_block_spec(ctx, encrypt_block_spec(ctx, block)) == block,
    ensures
        half_balanced(mixed_state(mask_iv(block_words(block), ctx.iv), ctx.round_keys[0])),
{
    let plain = block_words(block);
    let start = mask_iv(plain, ctx.iv);
    let cipher = block_words(encrypt_block_spec(ctx, block));
    let back = backward_rounds(cipher, ctx.round_keys);
    assert(is_state(cipher)) by {
        lemma_block_words_is_state(encrypt_block_spec(ctx, block));
    }
    assert(is_state(back)) by {
        lemma_backward_rounds_is_state(cipher, ctx.round_keys);
    }
    assert(is_state(mask_iv(back, ctx.iv)));
    assert(mask_iv(back, ctx.iv) == plain) by {
        lemma_block_words_of_words(mask_iv(back, ctx.iv));
    }
    assert(back == start) by {
        lemma_mask_iv_involution(back, ctx.iv);
    }
    lemma_backward_rounds_end(cipher, ctx.round_keys);
    lemma_round_decrypt_range(
        backward_rounds(cipher, ctx.round_keys.drop_first()),
        ctx.round_keys[0],
    );
}

} // verus!
