//! Checked conversion of byte slices into the fixed-size buffers that the
//! cipher works on. Sizes are rejected here, at the boundary, so that no block
//! operation ever sees a buffer of the wrong length.

use crate::schedule::KEY_SIZE;
use crate::words::BLOCK_SIZE;
use vstd::prelude::*;

verus! {

/// What the boundary functions reject.
#[derive(Clone, Copy, Debug, PartialEq, Eq, Structural)]
pub enum Qarx256Error {
    /// A buffer did not have the size that the operation is defined for.
    SizeMismatch {
        /// The size the operation is defined for, in bytes.
        expected: usize,
        /// The size of the buffer that was supplied, in bytes.
        actual: usize,
    },
}

/// Takes a block from a slice of exactly `BLOCK_SIZE` bytes.
pub fn qarx256_block_from_slice(bytes: &[u8]) -> (r: Result<[u8; BLOCK_SIZE], Qarx256Error>)
    ensures
        match r {
            Ok(block) => bytes@.len() == BLOCK_SIZE && block@ == bytes@,
            Err(e) => bytes@.len() != BLOCK_SIZE && e == (Qarx256Error::SizeMismatch {
                expected: BLOCK_SIZE,
                actual: bytes@.len() as usize,
            }),
        },
{
    if bytes.len() != BLOCK_SIZE {
        return Err(Qarx256Error::SizeMismatch { expected: BLOCK_SIZE, actual: bytes.len() });
    }
    let mut block: [u8; BLOCK_SIZE] = [0u8; BLOCK_SIZE];
    let mut n: usize = 0;
    while n < BLOCK_SIZE
        invariant
            n <= BLOCK_SIZE,
            bytes@.len() == BLOCK_SIZE,
            forall|m: int| 0 <= m < n ==> block@[m] == bytes@[m],
        decreases BLOCK_SIZE - n,
    {
        block[n] = bytes[n];
        n += 1;
    }
    assert(block@ =~= bytes@);
    Ok(block)
}

/// Takes a master key from a slice of exactly `KEY_SIZE` bytes.
pub fn qarx256_key_from_slice(bytes: &[u8]) -> (r: Result<[u8; KEY_SIZE], Qarx256Error>)
    ensures
        match r {
            Ok(key) => bytes@.len() == KEY_SIZE && key@ == bytes@,
            Err(e) => bytes@.len() != KEY_SIZE && e == (Qarx256Error::SizeMismatch {
                expected: KEY_SIZE,
                actual: bytes@.len() as usize,
            }),
        },
{
    if bytes.len() != KEY_SIZE {
        return Err(Qarx256Error::SizeMismatch { expected: KEY_SIZE, actual: bytes.len() });
    }
    let mut key: [u8; KEY_SIZE] = [0u8; KEY_SIZE];
    let mut n: usize = 0;
    while n < KEY_SIZE
        invariant
            n <= KEY_SIZE,
            bytes@.len() == KEY_SIZE,
            forall|m: int| 0 <= m < n ==> key@[m] == bytes@[m],
        decreases KEY_SIZE - n,
    {
        key[n] = bytes[n];
        n += 1;
    }
    assert(key@ =~= bytes@);
    Ok(key)
}

} // verus!
