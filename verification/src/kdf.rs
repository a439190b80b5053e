//! Key derivation from a password and a salt.
//!
//! The derivation here is a placeholder built on a fast hash. It is not
//! memory-hard, it is cheap to brute-force, and every output byte is drawn
//! from only the first eight bytes of a digest. Do not use it where the
//! strength of a password matters.

use crate::hash::{sha3_512, sha3_512_digest, DIGEST_SIZE};
use crate::schedule::KEY_SIZE;
use crate::words::{le_byte, word_le_bytes};
use vstd::prelude::*;

verus! {

/// Size of a salt in bytes.
pub const SALT_SIZE: usize = 16;

/// The hash input of key byte `index`: the password, the salt, and the index
/// as eight little-endian bytes.
pub open spec fn kdf_input_spec(password: Seq<u8>, salt: Seq<u8>, index: u64) -> Seq<u8> {
    password + salt + word_le_bytes(index)
}

/// The key byte that a digest yields at `index`: the digest byte at
/// `index % 8`.
pub open spec fn kdf_digest_byte(digest: Seq<u8>, index: int) -> u8 {
    digest[index % 8]
}

/// The derived key: byte `i` is taken from the digest of the `i`-th hash
/// input.
pub open spec fn kdf_sha3_spec(password: Seq<u8>, salt: Seq<u8>) -> Seq<u8> {
    Seq::new(
        KEY_SIZE as nat,
        |i: int| kdf_digest_byte(sha3_512_digest(kdf_input_spec(password, salt, i as u64)), i),
    )
}

/// Builds the hash input of one key byte.
pub fn kdf_input(password: &[u8], salt: &[u8; SALT_SIZE], index: u64) -> (input: Vec<u8>)
    ensures
        input@ == kdf_input_spec(password@, salt@, index),
{
    let mut input: Vec<u8> = Vec::new();
    let mut n: usize = 0;
    while n < password.len()
        invariant
            n <= password@.len(),
            input@ == password@.take(n as int),
        decreases password@.len() - n,
    {
        input.push(password[n]);
        assert(password@.take(n + 1) =~= password@.take(n as int).push(password@[n as int]));
        n += 1;
    }
    assert(password@.take(password@.len() as int) =~= password@);
    let mut m: usize = 0;
    while m < SALT_SIZE
        invariant
            m <= SALT_SIZE,
            input@ == password@ + salt@.take(m as int),
        decreases SALT_SIZE - m,
    {
        input.push(salt[m]);
        assert(password@ + salt@.take(m + 1) =~= (password@ + salt@.take(m as int)).push(
            salt@[m as int],
        ));
        m += 1;
    }
    assert(salt@.take(SALT_SIZE as int) =~= salt@);
    let mut j: usize = 0;
    while j < 8
        invariant
            j <= 8,
            input@ == password@ + salt@ + word_le_bytes(index).take(j as int),
        decreases 8 - j,
    {
        input.push(le_byte(index, j));
        assert(password@ + salt@ + word_le_bytes(index).take(j + 1) =~= (password@ + salt@
            + word_le_bytes(index).take(j as int)).push(word_le_bytes(index)[j as int]));
        j += 1;
    }
    assert(word_le_bytes(index).take(8) =~= word_le_bytes(index));
    input
}

/// Picks the key byte at `index` out of a digest.
pub fn kdf_byte_from_digest(digest: &[u8; DIGEST_SIZE], index: usize) -> (byte: u8)
    ensures
        byte == kdf_digest_byte(digest@, index as int),
{
    digest[index % 8]
}

/// Derives a master key from a password and a salt with SHA3-512 alone.
/// A placeholder, not a password hash.
pub fn qarx256_kdf_sha3(password: &[u8], salt: &[u8; SALT_SIZE]) -> (key: [u8; KEY_SIZE])
    ensures
        key@ == kdf_sha3_spec(password@, salt@),
{
    let mut key: [u8; KEY_SIZE] = [0u8; KEY_SIZE];
    let mut i: usize = 0;
    while i < KEY_SIZE
        invariant
            i <= KEY_SIZE,
            forall|n: int| 0 <= n < i ==> key@[n] == kdf_sha3_spec(password@, salt@)[n],
        decreases KEY_SIZE - i,
    {
        let input = kdf_input(password, salt, i as u64);
        let digest = sha3_512(input.as_slice());
        key[i] = kdf_byte_from_digest(&digest, i);
        i += 1;
    }
    assert(key@ =~= kdf_sha3_spec(password@, salt@));
    key
}

/// Derives a master key from a password and a salt. Stands where a
/// memory-hard derivation belongs; until one is in place it returns what
/// [`qarx256_kdf_sha3`] returns.
pub fn qarx256_kdf_argon2(password: &[u8], salt: &[u8; SALT_SIZE]) -> (key: [u8; KEY_SIZE])
    ensures
        key@ == kdf_sha3_spec(password@, salt@),
{
    qarx256_kdf_sha3(password, salt)
}

} // verus!
