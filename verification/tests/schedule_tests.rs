use qarx256::schedule::{derive_round_key, round_key_from_digest, round_key_input};
use qarx256::{qarx256_key_setup, Qarx256Ctx, KEY_SIZE, ROUNDS};
use sha3::{Digest, Sha3_512};

fn keyed(key: &[u8; KEY_SIZE]) -> Qarx256Ctx {
    let mut ctx = Qarx256Ctx::default();
    qarx256_key_setup(&mut ctx, key);
    ctx
}

#[test]
fn default_context_is_unkeyed() {
    let ctx = Qarx256Ctx::default();
    assert_eq!(ctx.rk, [[0u64; 4]; ROUNDS]);
    assert_eq!(ctx.iv, None);
    assert_eq!(ctx.rk.len(), 24);
}

#[test]
fn round_key_input_is_key_then_index() {
    let mut key = [0u8; KEY_SIZE];
    for (n, b) in key.iter_mut().enumerate() {
        *b = n as u8;
    }
    let input = round_key_input(&key, 0x0102030405060708);
    assert_eq!(input.len(), 72);
    assert_eq!(&input[..64], &key[..]);
    assert_eq!(&input[64..], &[8u8, 7, 6, 5, 4, 3, 2, 1][..]);
    let input = round_key_input(&key, 23);
    assert_eq!(&input[64..], &[23u8, 0, 0, 0, 0, 0, 0, 0][..]);
}

#[test]
fn round_key_from_digest_reads_the_first_half() {
    let mut digest = [0u8; 64];
    for (n, b) in digest.iter_mut().enumerate() {
        *b = n as u8;
    }
    assert_eq!(
        round_key_from_digest(&digest),
        [0x0706050403020100, 0x0f0e0d0c0b0a0908, 0x1716151413121110, 0x1f1e1d1c1b1a1918]
    );
    let mut other = digest;
    other[32] ^= 0xff;
    other[63] ^= 0xff;
    assert_eq!(round_key_from_digest(&other), round_key_from_digest(&digest));
}

#[test]
fn zero_key_schedule_vector() {
    let ctx = keyed(&[0u8; KEY_SIZE]);
    assert_eq!(
        ctx.rk[0],
        [7433763527442028536, 9711038780055989226, 17278609424978582219, 3537647375083231439]
    );
    assert_eq!(
        ctx.rk[0],
        [0x672a088add6fd7f8, 0x86c48a51b547abea, 0xefc9f3b9dc909acb, 0x31183f8b5c6dd8cf]
    );
    assert_eq!(
        ctx.rk[1],
        [13130919263054799539, 12764497689883755932, 6107459350867332983, 6981434657940764960]
    );
    assert_eq!(
        ctx.rk[23],
        [13372430141222541482, 11965772500729759850, 12494555380057559273, 16494359417858520897]
    );
    assert_eq!(ctx.iv, None);
}

#[test]
fn schedule_matches_the_hash_of_key_and_index() {
    let key = [42u8; KEY_SIZE];
    let ctx = keyed(&key);
    assert_eq!(
        ctx.rk[0],
        [9652889754310306185, 11263753719287718249, 8332349304891829811, 283471274727557759]
    );
    for i in 0..ROUNDS {
        let mut input = key.to_vec();
        input.extend_from_slice(&(i as u64).to_le_bytes());
        let digest = Sha3_512::digest(&input);
        for j in 0..4 {
            let mut word = [0u8; 8];
            word.copy_from_slice(&digest[8 * j..8 * j + 8]);
            assert_eq!(ctx.rk[i][j], u64::from_le_bytes(word));
        }
        assert_eq!(derive_round_key(&key, i as u64), ctx.rk[i]);
    }
}

#[test]
fn round_keys_are_not_the_hash_input() {
    let mut key = [0u8; KEY_SIZE];
    for (n, b) in key.iter_mut().enumerate() {
        *b = n as u8;
    }
    let as_words = round_key_from_digest(&key);
    assert_ne!(derive_round_key(&key, 0), as_words);
}

#[test]
fn key_setup_is_deterministic() {
    let key = [7u8; KEY_SIZE];
    let a = keyed(&key);
    let b = keyed(&key);
    assert_eq!(a.rk, b.rk);
    let mut c = Qarx256Ctx::default();
    c.rk = [[u64::MAX; 4]; ROUNDS];
    qarx256_key_setup(&mut c, &key);
    assert_eq!(c.rk, a.rk);
}

#[test]
fn key_setup_overwrites_and_keeps_the_iv() {
    let mut ctx = keyed(&[1u8; KEY_SIZE]);
    ctx.iv = Some([1, 2, 3, 4]);
    qarx256_key_setup(&mut ctx, &[2u8; KEY_SIZE]);
    assert_eq!(ctx.rk, keyed(&[2u8; KEY_SIZE]).rk);
    assert_eq!(ctx.iv, Some([1, 2, 3, 4]));
}

#[test]
fn single_bit_key_flip_changes_the_schedule() {
    let key = [0u8; KEY_SIZE];
    let base = keyed(&key);
    for byte in [0usize, 31, 63] {
        for bit in [0u8, 7] {
            let mut flipped = key;
            flipped[byte] ^= 1 << bit;
            let other = keyed(&flipped);
            assert_ne!(other.rk, base.rk);
            for i in 0..ROUNDS {
                assert_ne!(other.rk[i], base.rk[i]);
            }
        }
    }
}

#[test]
fn round_keys_differ_between_rounds() {
    let ctx = keyed(&[0u8; KEY_SIZE]);
    for i in 0..ROUNDS {
        for j in 0..i {
            assert_ne!(ctx.rk[i], ctx.rk[j]);
        }
    }
}

#[test]
fn cloned_context_holds_the_same_keys() {
    let mut ctx = keyed(&[9u8; KEY_SIZE]);
    ctx.iv = Some([4, 3, 2, 1]);
    let copy = ctx.clone();
    assert_eq!(copy.rk, ctx.rk);
    assert_eq!(copy.iv, ctx.iv);
}
