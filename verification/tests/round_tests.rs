use qarx256::round::{
    rotate_left, rotate_right, DIFFUSION_0, DIFFUSION_1, DIFFUSION_2, DIFFUSION_3, ROT0, ROT1,
    ROT2, ROT3,
};
use qarx256::{round_decrypt, round_encrypt};

const KEY: [u64; 4] = [
    0x0123456789abcdef,
    0xfedcba9876543210,
    0xdeadbeefcafebabe,
    0x0f0f0f0f0f0f0f0f,
];

#[test]
fn rotation_matches_std() {
    assert_eq!(rotate_left(1, 13), 8192);
    assert_eq!(rotate_left(0x8000000000000001, 7), 192);
    assert_eq!(rotate_right(1, 13), 2251799813685248);
    let x: u64 = 0x0123456789abcdef;
    for r in [ROT0, ROT1, ROT2, ROT3, 1, 63] {
        assert_eq!(rotate_left(x, r), x.rotate_left(r));
        assert_eq!(rotate_right(x, r), x.rotate_right(r));
        assert_eq!(rotate_right(rotate_left(x, r), r), x);
    }
}

#[test]
fn round_of_zero_state_is_the_constants() {
    let y = round_encrypt([0; 4], [0; 4]);
    assert_eq!(y, [DIFFUSION_0, DIFFUSION_1, DIFFUSION_2, DIFFUSION_3]);
    assert_eq!(
        y,
        [1311768467463790320, 18364758544493064720, 11651590505119512720, 42914300449324764]
    );
}

#[test]
fn round_encrypt_known_values() {
    assert_eq!(
        round_encrypt([1, 0, 0, 0], [0; 4]),
        [1311768467463790193, 18364758544493064720, 11651590505119512720, 42914300449324765]
    );
    assert_eq!(
        round_encrypt([1, 2, 3, 4], [5, 6, 7, 8]),
        [1334286465525209556, 18333233347168580112, 11602050909285546128, 11389103259123448]
    );
}

#[test]
fn round_decrypt_known_values() {
    assert_eq!(
        round_decrypt([1, 2, 3, 4], [5, 6, 7, 8]),
        [13031633159583305279, 18320392707409032392, 15113523754553266098, 9138132425574783413]
    );
}

#[test]
fn key_addition_wraps() {
    let max = u64::MAX;
    assert_eq!(round_encrypt([max; 4], [1; 4]), round_encrypt([0; 4], [0; 4]));
    assert_eq!(round_decrypt(round_encrypt([max; 4], [1; 4]), [1; 4]), [max; 4]);
}

#[test]
fn round_trip_on_zero_state() {
    assert_eq!(round_decrypt(round_encrypt([0; 4], [0; 4]), [0; 4]), [0; 4]);
}

#[test]
fn round_trip_on_states_with_balanced_mix() {
    // A backward round applied to a word pattern with equal middle words
    // (constants removed) lands on a state whose mixed form is balanced.
    for (a, m, d) in [(0x1111u64, 0xabcdefu64, 0x2222u64), (0, u64::MAX, 7), (5, 5, 5)] {
        let y = [a ^ DIFFUSION_0, m ^ DIFFUSION_1, m ^ DIFFUSION_2, d ^ DIFFUSION_3];
        let x = round_decrypt(y, KEY);
        assert_eq!(round_decrypt(round_encrypt(x, KEY), KEY), x);
    }
    let y = [
        0x1111 ^ DIFFUSION_0,
        0xabcdef ^ DIFFUSION_1,
        0xabcdef ^ DIFFUSION_2,
        0x2222 ^ DIFFUSION_3,
    ];
    assert_eq!(
        round_decrypt(y, KEY),
        [9331434893380022194, 9115309180233424924, 13482603645759206569, 17376960406437818609]
    );
}

#[test]
fn round_trip_fails_off_the_balanced_states() {
    // [1, 0, 0, 0] under the zero key mixes to [1, 129, 1, 1].
    let x = [1u64, 0, 0, 0];
    let back = round_decrypt(round_encrypt(x, [0; 4]), [0; 4]);
    assert_ne!(back, x);
    assert_eq!(
        back,
        [18444492273894817921, 2251799813685120, 18446603336221196288, 140737488355328]
    );
    let x = [1u64, 2, 3, 4];
    assert_eq!(
        round_decrypt(round_encrypt(x, [5, 6, 7, 8]), [5, 6, 7, 8]),
        [18349916612995385119, 96827391980075258, 9221401709065011215, 9225342364644540408]
    );
}

#[test]
fn round_output_has_tied_middle_words() {
    let states = [[0u64; 4], [1, 2, 3, 4], [u64::MAX; 4], KEY];
    for s in states {
        for k in states {
            let y = round_encrypt(s, k);
            assert_eq!(y[1] ^ y[2], DIFFUSION_1 ^ DIFFUSION_2);
        }
    }
}

#[test]
fn round_encrypt_is_not_injective() {
    // Two backward-round outputs whose mixed forms differ only by what the
    // diffusion layer discards.
    let e: u64 = 0x5a5a;
    let y = [11u64, 22, 33, 44];
    let a = round_decrypt(y, KEY);
    let b = round_decrypt([y[0] ^ e, y[1] ^ e, y[2], y[3]], KEY);
    assert_ne!(a, b);
    assert_eq!(round_encrypt(a, KEY), round_encrypt(b, KEY));
}
