use qarx256::{qarx256_block_from_slice, qarx256_key_from_slice, Qarx256Error};

#[test]
fn block_from_slice_accepts_thirty_two_bytes() {
    let bytes: Vec<u8> = (0..32u8).collect();
    let block = qarx256_block_from_slice(&bytes).unwrap();
    assert_eq!(&block[..], &bytes[..]);
}

#[test]
fn block_from_slice_rejects_other_sizes() {
    for len in [0usize, 1, 31, 33, 64] {
        let bytes = vec![7u8; len];
        assert_eq!(
            qarx256_block_from_slice(&bytes),
            Err(Qarx256Error::SizeMismatch { expected: 32, actual: len })
        );
    }
}

#[test]
fn key_from_slice_accepts_sixty_four_bytes() {
    let bytes: Vec<u8> = (0..64u8).map(|b| b.wrapping_mul(5)).collect();
    let key = qarx256_key_from_slice(&bytes).unwrap();
    assert_eq!(&key[..], &bytes[..]);
}

#[test]
fn key_from_slice_rejects_other_sizes() {
    for len in [0usize, 32, 63, 65, 128] {
        let bytes = vec![1u8; len];
        assert_eq!(
            qarx256_key_from_slice(&bytes),
            Err(Qarx256Error::SizeMismatch { expected: 64, actual: len })
        );
    }
}

#[test]
fn size_mismatch_reports_both_sizes() {
    let err = qarx256_block_from_slice(&[0u8; 5]).unwrap_err();
    assert!(matches!(err, Qarx256Error::SizeMismatch { expected: 32, actual: 5 }));
    assert_eq!(format!("{:?}", err), "SizeMismatch { expected: 32, actual: 5 }");
}
