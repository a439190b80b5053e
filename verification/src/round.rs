//! The single-round transform on a state of four 64-bit words.
//!
//! A round adds the round key, runs two add-rotate-xor mixing layers, applies
//! an XOR-only diffusion layer and finally XORs in four fixed constants.
//! Every layer except the diffusion is a bijection on states. The diffusion
//! layer is linear but not injective: it always produces equal middle words.
//! [`round_decrypt`] therefore recovers the input of [`round_encrypt`] exactly
//! on the states that [`round_reversible`] describes, and the laws at the end
//! of this module prove that characterisation in both directions.

use vstd::prelude::*;

verus! {

/// Rotation amount of the first word pair in mixing layer A.
pub const ROT0: u32 = 13;

/// Rotation amount of the second word pair in mixing layer A.
pub const ROT1: u32 = 37;

/// Rotation amount of the first word pair in mixing layer B.
pub const ROT2: u32 = 51;

/// Rotation amount of the second word pair in mixing layer B.
pub const ROT3: u32 = 7;

/// Constant XORed into word 0 at the end of a round.
pub const DIFFUSION_0: u64 = 0x123456789ABCDEF0;

/// Constant XORed into word 1 at the end of a round.
pub const DIFFUSION_1: u64 = 0xFEDCBA9876543210;

/// Constant XORed into word 2 at the end of a round.
pub const DIFFUSION_2: u64 = 0xA1B2C3D4E5F67890;

/// Constant XORed into word 3 at the end of a round.
pub const DIFFUSION_3: u64 = 0x09876543210FEDC;

/// A cipher state or a round key: exactly four words.
pub open spec fn is_state(x: Seq<u64>) -> bool {
    x.len() == 4
}

/// Left rotation of a 64-bit word by `r` positions, for `0 < r < 64`.
pub open spec fn rotl(x: u64, r: u32) -> u64 {
    (x << r) | (x >> ((64 - r) as u32))
}

/// Right rotation of a 64-bit word by `r` positions, for `0 < r < 64`.
pub open spec fn rotr(x: u64, r: u32) -> u64 {
    (x >> r) | (x << ((64 - r) as u32))
}

/// Addition modulo 2^64.
pub open spec fn wadd(a: u64, b: u64) -> u64 {
    a.wrapping_add(b)
}

/// Subtraction modulo 2^64.
pub open spec fn wsub(a: u64, b: u64) -> u64 {
    a.wrapping_sub(b)
}

/// Word-wise modular addition of the round key.
pub open spec fn add_round_key(x: Seq<u64>, k: Seq<u64>) -> Seq<u64> {
    seq![wadd(x[0], k[0]), wadd(x[1], k[1]), wadd(x[2], k[2]), wadd(x[3], k[3])]
}

/// Word-wise modular subtraction of the round key.
pub open spec fn sub_round_key(x: Seq<u64>, k: Seq<u64>) -> Seq<u64> {
    seq![wsub(x[0], k[0]), wsub(x[1], k[1]), wsub(x[2], k[2]), wsub(x[3], k[3])]
}

/// Mixing layer A: pairs (0, 1) and (2, 3), each pair summed into its first
/// word and the rotated second word XORed with that sum.
pub open spec fn mix_a(x: Seq<u64>) -> Seq<u64> {
    let x0 = wadd(x[0], x[1]);
    let x1 = rotl(x[1], ROT0) ^ x0;
    let x2 = wadd(x[2], x[3]);
    let x3 = rotl(x[3], ROT1) ^ x2;
    seq![x0, x1, x2, x3]
}

/// Inverse of [`mix_a`].
pub open spec fn unmix_a(x: Seq<u64>) -> Seq<u64> {
    let x3 = rotr(x[3] ^ x[2], ROT1);
    let x2 = wsub(x[2], x3);
    let x1 = rotr(x[1] ^ x[0], ROT0);
    let x0 = wsub(x[0], x1);
    seq![x0, x1, x2, x3]
}

/// Mixing layer B: pairs (0, 3) and (2, 1), treated as in [`mix_a`].
pub open spec fn mix_b(x: Seq<u64>) -> Seq<u64> {
    let x0 = wadd(x[0], x[3]);
    let x3 = rotl(x[3], ROT2) ^ x0;
    let x2 = wadd(x[2], x[1]);
    let x1 = rotl(x[1], ROT3) ^ x2;
    seq![x0, x1, x2, x3]
}

/// Inverse of [`mix_b`].
pub open spec fn unmix_b(x: Seq<u64>) -> Seq<u64> {
    let x1 = rotr(x[1] ^ x[2], ROT3);
    let x2 = wsub(x[2], x1);
    let x3 = rotr(x[3] ^ x[0], ROT2);
    let x0 = wsub(x[0], x3);
    seq![x0, x1, x2, x3]
}

/// The XOR-only diffusion layer. Words 0 and 3 absorb the XOR of the
/// opposite pair; words 1 and 2 then absorb the updated words 0 and 3.
pub open spec fn diffuse(x: Seq<u64>) -> Seq<u64> {
    let t0 = x[0] ^ x[2];
    let t1 = x[1] ^ x[3];
    let x0 = x[0] ^ t1;
    let x3 = x[3] ^ t0;
    let x1 = x[1] ^ x0;
    let x2 = x[2] ^ x3;
    seq![x0, x1, x2, x3]
}

/// The step that [`round_decrypt`] runs in place of an inverse of
/// [`diffuse`]. `diffuse` has no inverse; see [`lemma_undiffuse_diffuse`]
/// for what the composition yields.
pub open spec fn undiffuse(x: Seq<u64>) -> Seq<u64> {
    let x2 = x[2] ^ x[3];
    let x1 = x[1] ^ x[0];
    let t1 = x1 ^ x[3];
    let t0 = x[0] ^ x2;
    let x3 = x[3] ^ t0;
    let x0 = x[0] ^ t1;
    seq![x0, x1, x2, x3]
}

/// XOR of the four diffusion constants into the state. An involution.
pub open spec fn inject_constants(x: Seq<u64>) -> Seq<u64> {
    seq![x[0] ^ DIFFUSION_0, x[1] ^ DIFFUSION_1, x[2] ^ DIFFUSION_2, x[3] ^ DIFFUSION_3]
}

/// The state after key addition and both mixing layers, before diffusion.
pub open spec fn mixed_state(x: Seq<u64>, k: Seq<u64>) -> Seq<u64> {
    mix_b(mix_a(add_round_key(x, k)))
}

/// One forward round.
pub open spec fn round_encrypt_spec(x: Seq<u64>, k: Seq<u64>) -> Seq<u64> {
    inject_constants(diffuse(mixed_state(x, k)))
}

/// One backward round.
pub open spec fn round_decrypt_spec(x: Seq<u64>, k: Seq<u64>) -> Seq<u64> {
    sub_round_key(unmix_a(unmix_b(undiffuse(inject_constants(x)))), k)
}

/// A state is balanced when its two halves coincide: word 0 equals word 2
/// and word 1 equals word 3.
pub open spec fn balanced(x: Seq<u64>) -> bool {
    x[0] == x[2] && x[1] == x[3]
}

/// A state is half-balanced when its even words XOR to the same value as its
/// odd words. Every balanced state is half-balanced.
pub open spec fn half_balanced(x: Seq<u64>) -> bool {
    x[0] ^ x[2] == x[1] ^ x[3]
}

/// The inputs on which a backward round undoes a forward round: those whose
/// mixed state is balanced.
pub open spec fn round_reversible(x: Seq<u64>, k: Seq<u64>) -> bool {
    balanced(mixed_state(x, k))
}

/// Rotates `x` left by `r` bit positions.
pub fn rotate_left(x: u64, r: u32) -> (y: u64)
    requires
        0 < r < 64,
    ensures
        y == rotl(x, r),
{
    (x << r) | (x >> (64 - r))
}

/// Rotates `x` right by `r` bit positions.
pub fn rotate_right(x: u64, r: u32) -> (y: u64)
    requires
        0 < r < 64,
    ensures
        y == rotr(x, r),
{
    (x >> r) | (x << (64 - r))
}

/// Applies one forward round to `x` under the round key `rk`.
pub fn round_encrypt(x: [u64; 4], rk: [u64; 4]) -> (y: [u64; 4])
    ensures
        y@ == round_encrypt_spec(x@, rk@),
{
    let mut x0: u64 = x[0].wrapping_add(rk[0]);
    let mut x1: u64 = x[1].wrapping_add(rk[1]);
    let mut x2: u64 = x[2].wrapping_add(rk[2]);
    let mut x3: u64 = x[3].wrapping_add(rk[3]);
    assert(seq![x0, x1, x2, x3] =~= add_round_key(x@, rk@));

    x0 = x0.wrapping_add(x1);
    x1 = rotate_left(x1, ROT0) ^ x0;
    x2 = x2.wrapping_add(x3);
    x3 = rotate_left(x3, ROT1) ^ x2;
    assert(seq![x0, x1, x2, x3] =~= mix_a(add_round_key(x@, rk@)));

    x0 = x0.wrapping_add(x3);
    x3 = rotate_left(x3, ROT2) ^ x0;
    x2 = x2.wrapping_add(x1);
    x1 = rotate_left(x1, ROT3) ^ x2;
    assert(seq![x0, x1, x2, x3] =~= mixed_state(x@, rk@));

    let t0: u64 = x0 ^ x2;
    let t1: u64 = x1 ^ x3;
    x0 = x0 ^ t1;
    x3 = x3 ^ t0;
    x1 = x1 ^ x0;
    x2 = x2 ^ x3;
    assert(seq![x0, x1, x2, x3] =~= diffuse(mixed_state(x@, rk@)));

    let y: [u64; 4] = [x0 ^ DIFFUSION_0, x1 ^ DIFFUSION_1, x2 ^ DIFFUSION_2, x3 ^ DIFFUSION_3];
    assert(y@ =~= round_encrypt_spec(x@, rk@));
    y
}

/// Applies one backward round to `x` under the round key `rk`.
pub fn round_decrypt(x: [u64; 4], rk: [u64; 4]) -> (y: [u64; 4])
    ensures
        y@ == round_decrypt_spec(x@, rk@),
{
    let mut x0: u64 = x[0] ^ DIFFUSION_0;
    let mut x1: u64 = x[1] ^ DIFFUSION_1;
    let mut x2: u64 = x[2] ^ DIFFUSION_2;
    let mut x3: u64 = x[3] ^ DIFFUSION_3;
    assert(seq![x0, x1, x2, x3] =~= inject_constants(x@));

    x2 = x2 ^ x3;
    x1 = x1 ^ x0;
    let t1: u64 = x1 ^ x3;
    let t0: u64 = x0 ^ x2;
    x3 = x3 ^ t0;
    x0 = x0 ^ t1;
    assert(seq![x0, x1, x2, x3] =~= undiffuse(inject_constants(x@)));

    x1 = rotate_right(x1 ^ x2, ROT3);
    x2 = x2.wrapping_sub(x1);
    x3 = rotate_right(x3 ^ x0, ROT2);
    x0 = x0.wrapping_sub(x3);
    assert(seq![x0, x1, x2, x3] =~= unmix_b(undiffuse(inject_constants(x@))));

    x3 = rotate_right(x3 ^ x2, ROT1);
    x2 = x2.wrapping_sub(x3);
    x1 = rotate_right(x1 ^ x0, ROT0);
    x0 = x0.wrapping_sub(x1);
    assert(seq![x0, x1, x2, x3] =~= unmix_a(unmix_b(undiffuse(inject_constants(x@)))));

    let y: [u64; 4] = [
        x0.wrapping_sub(rk[0]),
        x1.wrapping_sub(rk[1]),
        x2.wrapping_sub(rk[2]),
        x3.wrapping_sub(rk[3]),
    ];
    assert(y@ =~= round_decrypt_spec(x@, rk@));
    y
}

/// Modular addition and subtraction of the same word cancel, in either order.
proof fn lemma_wadd_wsub(a: u64, b: u64)
    by (bit_vector)
    ensures
        wsub(wadd(a, b), b) == a,
        wadd(wsub(a, b), b) == a,
{
}

/// Rotations by the same amount in opposite directions cancel, for each of
/// the four rotation amounts of the mixing layers.
proof fn lemma_rot_cancel(x: u64)
    by (bit_vector)
    ensures
        rotr(rotl(x, ROT0), ROT0) == x,
        rotl(rotr(x, ROT0), ROT0) == x,
        rotr(rotl(x, ROT1), ROT1) == x,
        rotl(rotr(x, ROT1), ROT1) == x,
        rotr(rotl(x, ROT2), ROT2) == x,
        rotl(rotr(x, ROT2), ROT2) == x,
        rotr(rotl(x, ROT3), ROT3) == x,
        rotl(rotr(x, ROT3), ROT3) == x,
{
}

/// XOR with the same word twice cancels.
pub proof fn lemma_xor_cancel(a: u64, b: u64)
    by (bit_vector)
    ensures
        (a ^ b) ^ b == a,
{
}

/// One add-rotate-xor pair step and its inverse cancel, in either order.
proof fn lemma_pair_cancel(a: u64, b: u64, r: u32)
    requires
        r == ROT0 || r == ROT1 || r == ROT2 || r == ROT3,
    ensures
        rotr((rotl(b, r) ^ wadd(a, b)) ^ wadd(a, b), r) == b,
        wsub(wadd(a, b), b) == a,
        wadd(wsub(a, rotr(b ^ a, r)), rotr(b ^ a, r)) == a,
        rotl(rotr(b ^ a, r), r) ^ a == b,
{
    lemma_xor_cancel(rotl(b, r), wadd(a, b));
    lemma_rot_cancel(b);
    lemma_wadd_wsub(a, b);
    lemma_wadd_wsub(a, rotr(b ^ a, r));
    lemma_rot_cancel(b ^ a);
    lemma_xor_cancel(b, a);
}

/// Key subtraction undoes key addition, and key addition undoes key
/// subtraction.
pub proof fn lemma_round_key_cancel(x: Seq<u64>, k: Seq<u64>)
    requires
        is_state(x),
    ensures
        sub_round_key(add_round_key(x, k), k) == x,
        add_round_key(sub_round_key(x, k), k) == x,
{
    lemma_wadd_wsub(x[0], k[0]);
    lemma_wadd_wsub(x[1], k[1]);
    lemma_wadd_wsub(x[2], k[2]);
    lemma_wadd_wsub(x[3], k[3]);
    assert(sub_round_key(add_round_key(x, k), k) =~= x);
    assert(add_round_key(sub_round_key(x, k), k) =~= x);
}

/// Mixing layer A is a bijection on states, with inverse [`unmix_a`].
pub proof fn lemma_mix_a_bijective(x: Seq<u64>)
    requires
        is_state(x),
    ensures
        unmix_a(mix_a(x)) == x,
        mix_a(unmix_a(x)) == x,
{
    lemma_pair_cancel(x[0], x[1], ROT0);
    lemma_pair_cancel(x[2], x[3], ROT1);
    assert(unmix_a(mix_a(x)) =~= x);
    assert(mix_a(unmix_a(x)) =~= x);
}

/// Mixing layer B is a bijection on states, with inverse [`unmix_b`].
pub proof fn lemma_mix_b_bijective(x: Seq<u64>)
    requires
        is_state(x),
    ensures
        unmix_b(mix_b(x)) == x,
        mix_b(unmix_b(x)) == x,
{
    lemma_pair_cancel(x[0], x[3], ROT2);
    lemma_pair_cancel(x[2], x[1], ROT3);
    assert(unmix_b(mix_b(x)) =~= x);
    assert(mix_b(unmix_b(x)) =~= x);
}

/// Injecting the diffusion constants twice restores the state.
pub proof fn lemma_inject_involution(x: Seq<u64>)
    requires
        is_state(x),
    ensures
        inject_constants(inject_constants(x)) == x,
{
    lemma_xor_cancel(x[0], DIFFUSION_0);
    lemma_xor_cancel(x[1], DIFFUSION_1);
    lemma_xor_cancel(x[2], DIFFUSION_2);
    lemma_xor_cancel(x[3], DIFFUSION_3);
    assert(inject_constants(inject_constants(x)) =~= x);
}

/// The diffusion layer in closed form. Its two middle output words are
/// always equal, so it maps distinct states to the same output.
pub proof fn lemma_diffuse_closed_form(x: Seq<u64>)
    ensures
        diffuse(x) == seq![x[0] ^ x[1] ^ x[3], x[0] ^ x[3], x[0] ^ x[3], x[0] ^ x[2] ^ x[3]],
{
    let (a, b, c, d) = (x[0], x[1], x[2], x[3]);
    assert(a ^ (b ^ d) == a ^ b ^ d) by (bit_vector);
    assert(d ^ (a ^ c) == a ^ c ^ d) by (bit_vector);
    assert(b ^ (a ^ (b ^ d)) == a ^ d) by (bit_vector);
    assert(c ^ (d ^ (a ^ c)) == a ^ d) by (bit_vector);
    assert(diffuse(x) =~= seq![a ^ b ^ d, a ^ d, a ^ d, a ^ c ^ d]);
}

/// Running [`undiffuse`] after [`diffuse`] keeps words 1 and 2 and copies
/// them over words 3 and 0: it projects the state onto the balanced states.
pub proof fn lemma_undiffuse_diffuse(x: Seq<u64>)
    ensures
        undiffuse(diffuse(x)) == seq![x[2], x[1], x[2], x[1]],
{
    let (a, b, c, d) = (x[0], x[1], x[2], x[3]);
    let y0 = a ^ (b ^ d);
    let y3 = d ^ (a ^ c);
    let y1 = b ^ y0;
    let y2 = c ^ y3;
    assert(diffuse(x) =~= seq![y0, y1, y2, y3]);
    let z2 = y2 ^ y3;
    let z1 = y1 ^ y0;
    assert(z2 == c) by (bit_vector)
        requires
            z2 == y2 ^ y3,
            y2 == c ^ y3,
    ;
    assert(z1 == b) by (bit_vector)
        requires
            z1 == y1 ^ y0,
            y1 == b ^ y0,
    ;
    assert(y3 ^ (y0 ^ c) == b) by (bit_vector)
        requires
            y0 == a ^ (b ^ d),
            y3 == d ^ (a ^ c),
    ;
    assert(y0 ^ (b ^ y3) == c) by (bit_vector)
        requires
            y0 == a ^ (b ^ d),
            y3 == d ^ (a ^ c),
    ;
    assert(undiffuse(diffuse(x)) =~= seq![c, b, c, b]);
}

/// What a backward round makes of the output of a forward round, on every
/// state and key: the mixed state is projected onto the balanced states and
/// then unwound through the inverse mixing layers and the key subtraction.
pub proof fn lemma_round_decrypt_of_encrypt(x: Seq<u64>, k: Seq<u64>)
    requires
        is_state(x),
    ensures
        ({
            let w = mixed_state(x, k);
            round_decrypt_spec(round_encrypt_spec(x, k), k) == sub_round_key(
                unmix_a(unmix_b(seq![w[2], w[1], w[2], w[1]])),
                k,
            )
        }),
{
    let w = mixed_state(x, k);
    lemma_inject_involution(diffuse(w));
    lemma_undiffuse_diffuse(w);
}

/// Round invertibility: on a state whose mixed form is balanced, the
/// backward round under the same key restores the input of the forward round.
pub proof fn lemma_round_decrypt_inverts_encrypt(x: Seq<u64>, k: Seq<u64>)
    requires
        is_state(x),
        round_reversible(x, k),
    ensures
        round_decrypt_spec(round_encrypt_spec(x, k), k) == x,
{
    let w = mixed_state(x, k);
    lemma_round_decrypt_of_encrypt(x, k);
    assert(seq![w[2], w[1], w[2], w[1]] =~= w);
    lemma_mix_b_bijective(mix_a(add_round_key(x, k)));
    lemma_mix_a_bijective(add_round_key(x, k));
    lemma_round_key_cancel(x, k);
}

/// The converse of [`lemma_round_decrypt_inverts_encrypt`]: wherever the
/// backward round restores the input of the forward round, the mixed form of
/// that input is balanced. On every other state the round trip fails.
pub proof fn lemma_round_trip_needs_reversible(x: Seq<u64>, k: Seq<u64>)
    requires
        is_state(x),
        round_decrypt_spec(round_encrypt_spec(x, k), k) == x,
    ensures
        round_reversible(x, k),
{
    let w = mixed_state(x, k);
    let p = seq![w[2], w[1], w[2], w[1]];
    lemma_round_decrypt_of_encrypt(x, k);
    // Re-apply the forward layers to both sides of the round-trip equation.
    lemma_round_key_cancel(unmix_a(unmix_b(p)), k);
    assert(unmix_a(unmix_b(p)) == add_round_key(x, k));
    lemma_mix_a_bijective(unmix_b(p));
    assert(unmix_b(p) == mix_a(add_round_key(x, k)));
    lemma_mix_b_bijective(p);
    assert(p == w);
    assert(p[0] == w[0] && p[3] == w[3]);
}

/// Every round output has middle words that differ by a fixed constant, so
/// the forward round is not injective and no function inverts it everywhere.
pub proof fn lemma_round_output_middle_words(x: Seq<u64>, k: Seq<u64>)
    ensures
        round_encrypt_spec(x, k)[1] ^ round_encrypt_spec(x, k)[2] == DIFFUSION_1 ^ DIFFUSION_2,
{
    let w = mixed_state(x, k);
    lemma_diffuse_closed_form(w);
    let m = w[0] ^ w[3];
    assert((m ^ DIFFUSION_1) ^ (m ^ DIFFUSION_2) == DIFFUSION_1 ^ DIFFUSION_2) by (bit_vector);
}

/// Every output of [`undiffuse`] is half-balanced.
pub proof fn lemma_undiffuse_half_balanced(x: Seq<u64>)
    ensures
        half_balanced(undiffuse(x)),
{
    let (a, b, c, d) = (x[0], x[1], x[2], x[3]);
    assert((a ^ ((b ^ a) ^ d)) ^ (c ^ d) == (b ^ a) ^ (d ^ (a ^ (c ^ d)))) by (bit_vector);
}

/// Every state that a backward round returns has a half-balanced mixed form
/// under the same key. A state whose mixed form is not half-balanced is thus
/// returned by no backward round, whatever it is applied to.
pub proof fn lemma_round_decrypt_range(y: Seq<u64>, k: Seq<u64>)
    ensures
        is_state(round_decrypt_spec(y, k)),
        half_balanced(mixed_state(round_decrypt_spec(y, k), k)),
{
    let u = undiffuse(inject_constants(y));
    lemma_undiffuse_half_balanced(inject_constants(y));
    lemma_round_key_cancel(unmix_a(unmix_b(u)), k);
    lemma_mix_a_bijective(unmix_b(u));
    lemma_mix_b_bijective(u);
}

} // verus!
