//! QARX-256: an experimental 256-bit-block, 512-bit-key Add-Rotate-XOR cipher.
//!
//! This construction is a research artefact. It has had no security analysis
//! and must not be used to protect real data.

pub mod block;
pub mod boundary;
pub mod context;
pub mod hash;
pub mod kdf;
pub mod modes;
pub mod round;
pub mod schedule;
pub mod words;

pub use block::{qarx256_decrypt_block, qarx256_encrypt_block};
pub use boundary::{qarx256_block_from_slice, qarx256_key_from_slice, Qarx256Error};
pub use context::{Qarx256Ctx, ROUNDS};
pub use kdf::{qarx256_kdf_argon2, qarx256_kdf_sha3, SALT_SIZE};
pub use modes::{
    byte_histogram, qarx256_decrypt_extra_rounds, qarx256_encrypt_extra_rounds,
    qarx256_encrypt_with_mode, Qarx256Mode, EXTRA_ROUNDS,
};
pub use round::{round_decrypt, round_encrypt};
pub use schedule::{qarx256_key_setup, KEY_SIZE};
pub use words::BLOCK_SIZE;
