//! The key schedule: one round key per round, each taken from the SHA3-512
//! digest of the master key followed by the round index.

use crate::context::{CtxModel, Qarx256Ctx, ROUNDS};
use crate::hash::{sha3_512, sha3_512_digest, DIGEST_SIZE};
use crate::words::{
    block_to_words_prefix, block_words, le_byte, lemma_block_words_is_state, word_le_bytes,
};
use vstd::prelude::*;

verus! {

/// Size of a master key in bytes.
pub const KEY_SIZE: usize = 64;

/// Size of the hash input of one round: the master key and an eight-byte
/// round index.
pub const ROUND_INPUT_SIZE: usize = 72;

/// The hash input of round `round`: the master key followed by the round
/// index as eight little-endian bytes.
pub open spec fn round_key_input_spec(key: Seq<u8>, round: u64) -> Seq<u8> {
    key + word_le_bytes(round)
}

/// The round key held in a digest: its first 32 bytes read as four
/// little-endian words.
pub open spec fn digest_round_key(digest: Seq<u8>) -> Seq<u64> {
    block_words(digest)
}

/// The key of round `round` under the master key `key`.
pub open spec fn round_key(key: Seq<u8>, round: u64) -> Seq<u64> {
    digest_round_key(sha3_512_digest(round_key_input_spec(key, round)))
}

/// The whole schedule of a master key.
pub open spec fn key_schedule(key: Seq<u8>) -> Seq<Seq<u64>> {
    Seq::new(ROUNDS as nat, |i: int| round_key(key, i as u64))
}

/// The context after key setup: the schedule of `key` in place of every
/// earlier round key, the initial value as before.
pub open spec fn key_setup_spec(ctx: CtxModel, key: Seq<u8>) -> CtxModel {
    CtxModel { round_keys: key_schedule(key), iv: ctx.iv }
}

/// Builds the hash input of one round.
pub fn round_key_input(key: &[u8; KEY_SIZE], round: u64) -> (input: [u8; ROUND_INPUT_SIZE])
    ensures
        input@ == round_key_input_spec(key@, round),
{
    let mut input: [u8; ROUND_INPUT_SIZE] = [0u8; ROUND_INPUT_SIZE];
    let mut n: usize = 0;
    while n < KEY_SIZE
        invariant
            n <= KEY_SIZE,
            forall|m: int| 0 <= m < n ==> input@[m] == key@[m],
        decreases KEY_SIZE - n,
    {
        input[n] = key[n];
        n += 1;
    }
    let mut j: usize = 0;
    while j < 8
        invariant
            j <= 8,
            forall|m: int| 0 <= m < KEY_SIZE ==> input@[m] == key@[m],
            forall|m: int| 0 <= m < j ==> input@[KEY_SIZE + m] == word_le_bytes(round)[m],
        decreases 8 - j,
    {
        input[KEY_SIZE + j] = le_byte(round, j);
        j += 1;
    }
    assert(input@ =~= round_key_input_spec(key@, round));
    input
}

/// Reads the round key out of a digest.
pub fn round_key_from_digest(digest: &[u8; DIGEST_SIZE]) -> (rk: [u64; 4])
    ensures
        rk@ == digest_round_key(digest@),
{
    block_to_words_prefix(digest)
}

/// Derives the key of one round from the master key.
pub fn derive_round_key(key: &[u8; KEY_SIZE], round: u64) -> (rk: [u64; 4])
    ensures
        rk@ == round_key(key@, round),
{
    let input = round_key_input(key, round);
    let digest = sha3_512(&input);
    round_key_from_digest(&digest)
}

/// Replaces every round key of `ctx` by the schedule of `key`. The initial
/// value is left as it was.
pub fn qarx256_key_setup(ctx: &mut Qarx256Ctx, key: &[u8; KEY_SIZE])
    ensures
        final(ctx)@ == key_setup_spec(old(ctx)@, key@),
{
    let mut i: usize = 0;
    while i < ROUNDS
        invariant
            i <= ROUNDS,
            ctx.iv == old(ctx).iv,
            forall|j: int| 0 <= j < i ==> ctx.rk[j]@ == round_key(key@, j as u64),
        decreases ROUNDS - i,
    {
        let rk = derive_round_key(key, i as u64);
        ctx.rk[i] = rk;
        i += 1;
    }
    assert(ctx@.round_keys =~= key_schedule(key@));
}

/// Key setup leaves a well-formed context well formed.
pub proof fn lemma_key_setup_wf(ctx: CtxModel, key: Seq<u8>)
    requires
        ctx.wf(),
    ensures
        key_setup_spec(ctx, key).wf(),
{
    assert forall|i: int| 0 <= i < ROUNDS implies (#[trigger] key_schedule(key)[i]).len() == 4 by {
        lemma_block_words_is_state(sha3_512_digest(round_key_input_spec(key, i as u64)));
    }
}

/// Key-schedule determinism: the round keys after key setup depend on the
/// master key alone. Two contexts set up with the same master key hold the
/// same round keys, whatever either held before.
pub proof fn lemma_key_setup_deterministic(
    ctx_a: CtxModel,
    ctx_b: CtxModel,
    key_a: Seq<u8>,
    key_b: Seq<u8>,
)
    requires
        key_a == key_b,
    ensures
        key_setup_spec(ctx_a, key_a).round_keys == key_setup_spec(ctx_b, key_b).round_keys,
{
}

/// Key setup overwrites: setting up a context a second time leaves no trace
/// of the first master key.
pub proof fn lemma_key_setup_overwrites(ctx: CtxModel, first: Seq<u8>, second: Seq<u8>)
    ensures
        key_setup_spec(key_setup_spec(ctx, first), second) == key_setup_spec(ctx, second),
{
}

} // verus!
