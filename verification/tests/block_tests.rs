use qarx256::block::apply_iv;
use qarx256::round::{DIFFUSION_0, DIFFUSION_1, DIFFUSION_2, DIFFUSION_3};
use qarx256::words::{block_to_words, words_to_block};
use qarx256::{
    qarx256_decrypt_block, qarx256_encrypt_block, qarx256_key_setup, round_decrypt, round_encrypt,
    Qarx256Ctx, BLOCK_SIZE, KEY_SIZE, ROUNDS,
};

fn keyed(key: &[u8; KEY_SIZE]) -> Qarx256Ctx {
    let mut ctx = Qarx256Ctx::default();
    qarx256_key_setup(&mut ctx, key);
    ctx
}

fn counting_block() -> [u8; BLOCK_SIZE] {
    let mut block = [0u8; BLOCK_SIZE];
    for (n, b) in block.iter_mut().enumerate() {
        *b = n as u8;
    }
    block
}

fn masked(block: &[u8; BLOCK_SIZE], iv: Option<[u64; 4]>) -> [u64; 4] {
    let mut state = block_to_words(block);
    if let Some(iv) = iv {
        for i in 0..4 {
            state[i] ^= iv[i];
        }
    }
    state
}

/// A context whose every round, on `block`, starts from a state that the
/// round key sends to the all-zero mixed state.
fn context_cancelling(block: &[u8; BLOCK_SIZE], iv: Option<[u64; 4]>) -> Qarx256Ctx {
    let mut ctx = Qarx256Ctx::default();
    ctx.iv = iv;
    let mut state = masked(block, iv);
    for i in 0..ROUNDS {
        ctx.rk[i] = [
            state[0].wrapping_neg(),
            state[1].wrapping_neg(),
            state[2].wrapping_neg(),
            state[3].wrapping_neg(),
        ];
        state = round_encrypt(state, ctx.rk[i]);
    }
    ctx
}

/// A context whose every round, on `block`, starts from a state with a
/// balanced, non-zero mixed form.
fn context_balancing(block: &[u8; BLOCK_SIZE], iv: Option<[u64; 4]>) -> Qarx256Ctx {
    let mut ctx = Qarx256Ctx::default();
    ctx.iv = iv;
    let mut state = masked(block, iv);
    for i in 0..ROUNDS {
        let a = 0x1111u64.wrapping_mul(i as u64 + 1);
        let m = 0xabcdef0123u64.wrapping_mul(i as u64 + 3);
        let d = 0x2222u64.wrapping_mul(i as u64 + 5);
        let target = round_decrypt(
            [a ^ DIFFUSION_0, m ^ DIFFUSION_1, m ^ DIFFUSION_2, d ^ DIFFUSION_3],
            [0; 4],
        );
        ctx.rk[i] = [
            target[0].wrapping_sub(state[0]),
            target[1].wrapping_sub(state[1]),
            target[2].wrapping_sub(state[2]),
            target[3].wrapping_sub(state[3]),
        ];
        state = round_encrypt(state, ctx.rk[i]);
    }
    ctx
}

#[test]
fn zero_key_zero_block_vector() {
    let ctx = keyed(&[0u8; KEY_SIZE]);
    let plaintext = [0u8; BLOCK_SIZE];
    let ciphertext = qarx256_encrypt_block(&ctx, &plaintext);
    let expected: [u8; BLOCK_SIZE] = [
        126, 126, 50, 54, 161, 113, 145, 82, 9, 166, 248, 6, 196, 1, 97, 122, 137, 236, 90, 149,
        136, 120, 15, 37, 233, 56, 11, 143, 118, 41, 180, 3,
    ];
    assert_eq!(ciphertext, expected);
    assert_eq!(qarx256_encrypt_block(&ctx, &plaintext), expected);
    assert_eq!(qarx256_encrypt_block(&keyed(&[0u8; KEY_SIZE]), &plaintext), expected);
}

#[test]
fn encrypt_block_known_values() {
    let ctx = keyed(&[42u8; KEY_SIZE]);
    let expected: [u8; BLOCK_SIZE] = [
        228, 159, 15, 10, 117, 57, 81, 213, 100, 245, 156, 50, 45, 35, 143, 104, 228, 191, 62,
        161, 97, 90, 225, 55, 128, 97, 66, 185, 31, 2, 16, 30,
    ];
    assert_eq!(qarx256_encrypt_block(&ctx, &counting_block()), expected);
}

#[test]
fn decrypt_block_known_values() {
    let ctx = keyed(&[42u8; KEY_SIZE]);
    let expected: [u8; BLOCK_SIZE] = [
        25, 163, 59, 247, 171, 24, 103, 200, 109, 236, 107, 70, 72, 186, 140, 82, 201, 96, 114,
        129, 181, 212, 76, 211, 46, 181, 86, 122, 98, 33, 3, 247,
    ];
    assert_eq!(qarx256_decrypt_block(&ctx, &counting_block()), expected);
}

#[test]
fn encrypt_block_with_iv_known_values() {
    let mut ctx = keyed(&[42u8; KEY_SIZE]);
    ctx.iv = Some([1, 2, 3, 4]);
    let expected: [u8; BLOCK_SIZE] = [
        162, 67, 229, 159, 248, 141, 34, 158, 146, 140, 222, 104, 218, 64, 139, 150, 18, 198, 124,
        251, 150, 57, 229, 201, 163, 74, 154, 199, 115, 190, 104, 140,
    ];
    assert_eq!(qarx256_encrypt_block(&ctx, &counting_block()), expected);
}

#[test]
fn iv_masks_the_plaintext_before_the_first_round() {
    let plain = keyed(&[42u8; KEY_SIZE]);
    let mut with_iv = plain.clone();
    let iv = [0x0102030405060708, u64::MAX, 0, 0x8000000000000000];
    with_iv.iv = Some(iv);
    let block = counting_block();
    let pre_masked = words_to_block(&masked(&block, Some(iv)));
    assert_eq!(
        qarx256_encrypt_block(&with_iv, &block),
        qarx256_encrypt_block(&plain, &pre_masked)
    );
    assert_ne!(qarx256_encrypt_block(&with_iv, &block), qarx256_encrypt_block(&plain, &block));
}

#[test]
fn iv_unmasks_the_state_after_the_last_backward_round() {
    let plain = keyed(&[42u8; KEY_SIZE]);
    let mut with_iv = plain.clone();
    let iv = [5, 6, 7, 8];
    with_iv.iv = Some(iv);
    let block = counting_block();
    let without = qarx256_decrypt_block(&plain, &block);
    let unmasked = words_to_block(&masked(&without, Some(iv)));
    assert_eq!(qarx256_decrypt_block(&with_iv, &block), unmasked);
}

#[test]
fn apply_iv_xors_word_by_word() {
    let mut ctx = Qarx256Ctx::default();
    assert_eq!(apply_iv(&ctx, [1, 2, 3, 4]), [1, 2, 3, 4]);
    ctx.iv = Some([1, 1, 1, u64::MAX]);
    assert_eq!(apply_iv(&ctx, [1, 2, 3, 4]), [0, 3, 2, u64::MAX ^ 4]);
    assert_eq!(apply_iv(&ctx, apply_iv(&ctx, [1, 2, 3, 4])), [1, 2, 3, 4]);
}

#[test]
fn encrypt_block_runs_the_rounds_in_key_order() {
    let ctx = keyed(&[3u8; KEY_SIZE]);
    let block = counting_block();
    let mut state = block_to_words(&block);
    for i in 0..ROUNDS {
        state = round_encrypt(state, ctx.rk[i]);
    }
    assert_eq!(qarx256_encrypt_block(&ctx, &block), words_to_block(&state));
}

#[test]
fn decrypt_block_runs_the_rounds_in_reverse_key_order() {
    let ctx = keyed(&[3u8; KEY_SIZE]);
    let block = counting_block();
    let mut state = block_to_words(&block);
    for i in (0..ROUNDS).rev() {
        state = round_decrypt(state, ctx.rk[i]);
    }
    assert_eq!(qarx256_decrypt_block(&ctx, &block), words_to_block(&state));
}

#[test]
fn round_trip_where_every_round_is_reversible() {
    let block = counting_block();
    let ctx = context_cancelling(&block, None);
    assert_eq!(
        ctx.rk[0],
        [17940646550795321088, 17361925168090707704, 16783203785386094320, 16204482402681480936]
    );
    let ciphertext = qarx256_encrypt_block(&ctx, &block);
    let expected: [u8; BLOCK_SIZE] = [
        240, 222, 188, 154, 120, 86, 52, 18, 16, 50, 84, 118, 152, 186, 220, 254, 144, 120, 246,
        229, 212, 195, 178, 161, 220, 254, 16, 50, 84, 118, 152, 0,
    ];
    assert_eq!(ciphertext, expected);
    assert_eq!(qarx256_decrypt_block(&ctx, &ciphertext), block);

    let ctx = context_balancing(&block, None);
    let ciphertext = qarx256_encrypt_block(&ctx, &block);
    assert_ne!(ciphertext, block);
    assert_eq!(qarx256_decrypt_block(&ctx, &ciphertext), block);
}

#[test]
fn round_trip_with_iv_where_every_round_is_reversible() {
    let block = counting_block();
    let iv = Some([1u64, 2, 3, 4]);
    let ctx = context_cancelling(&block, iv);
    assert_eq!(
        ctx.rk[0],
        [17940646550795321087, 17361925168090707702, 16783203785386094317, 16204482402681480932]
    );
    let ciphertext = qarx256_encrypt_block(&ctx, &block);
    assert_eq!(qarx256_decrypt_block(&ctx, &ciphertext), block);

    let zero = [0u8; BLOCK_SIZE];
    let ctx = context_balancing(&zero, Some([u64::MAX, 0, 7, 1 << 63]));
    let ciphertext = qarx256_encrypt_block(&ctx, &zero);
    assert_eq!(qarx256_decrypt_block(&ctx, &ciphertext), zero);
}

#[test]
fn hashed_schedule_does_not_recover_the_zero_block() {
    // The diffusion layer discards part of the state, so decryption under
    // a hashed schedule lands elsewhere.
    let ctx = keyed(&[0u8; KEY_SIZE]);
    let plaintext = [0u8; BLOCK_SIZE];
    let ciphertext = qarx256_encrypt_block(&ctx, &plaintext);
    let recovered = qarx256_decrypt_block(&ctx, &ciphertext);
    assert_ne!(recovered, plaintext);
    let expected: [u8; BLOCK_SIZE] = [
        85, 11, 103, 226, 13, 209, 26, 46, 173, 250, 171, 224, 24, 11, 25, 246, 74, 144, 62, 175,
        233, 139, 32, 203, 131, 137, 68, 73, 161, 156, 155, 129,
    ];
    assert_eq!(recovered, expected);
}

#[test]
fn unkeyed_context_known_values() {
    let ctx = Qarx256Ctx::default();
    let expected: [u8; BLOCK_SIZE] = [
        58, 204, 174, 236, 84, 205, 141, 238, 9, 53, 188, 19, 18, 231, 152, 44, 137, 127, 30, 128,
        94, 158, 246, 115, 14, 120, 222, 132, 145, 13, 24, 237,
    ];
    assert_eq!(qarx256_encrypt_block(&ctx, &[0u8; BLOCK_SIZE]), expected);
}

#[test]
fn round_trip_fails_where_the_first_mix_is_not_half_balanced() {
    // Under the unkeyed context the block [1, 0, ...] mixes to
    // [1, 129, 1, 1] in the first round.
    let ctx = Qarx256Ctx::default();
    let mut block = [0u8; BLOCK_SIZE];
    block[0] = 1;
    let recovered = qarx256_decrypt_block(&ctx, &qarx256_encrypt_block(&ctx, &block));
    assert_ne!(recovered, block);
    let expected: [u8; BLOCK_SIZE] = [
        44, 118, 218, 239, 35, 58, 201, 51, 64, 213, 255, 153, 41, 123, 104, 8, 214, 225, 201, 225,
        137, 255, 61, 163, 253, 53, 152, 216, 20, 137, 227, 208,
    ];
    assert_eq!(recovered, expected);
}

#[test]
fn single_bit_flips_change_about_half_the_output_bits() {
    let ctx = keyed(&[42u8; KEY_SIZE]);
    let mut total: u32 = 0;
    let mut samples: u32 = 0;
    for t in 0..32usize {
        let mut base = [0u8; BLOCK_SIZE];
        for (j, b) in base.iter_mut().enumerate() {
            *b = (t * 7 + j * 13 + 5) as u8;
        }
        let reference = qarx256_encrypt_block(&ctx, &base);
        for bit in (0..256usize).step_by(8) {
            let pos = (bit + t) % 256;
            let mut flipped = base;
            flipped[pos / 8] ^= 1 << (pos % 8);
            let other = qarx256_encrypt_block(&ctx, &flipped);
            let mut changed: u32 = 0;
            for n in 0..BLOCK_SIZE {
                changed += (reference[n] ^ other[n]).count_ones();
            }
            assert!(changed > 0);
            total += changed;
            samples += 1;
        }
    }
    assert_eq!(samples, 1024);
    assert_eq!(total, 131163);
    assert!(total > samples * 112 && total < samples * 144);
}
