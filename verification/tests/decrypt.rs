//! Decryptors.
use bluray::decrypt::{AACS_UNIT_LEN, Identity, StreamDecryptor};

#[test]
fn aacs_unit_len_matches_spec() {
    assert_eq!(AACS_UNIT_LEN, 32 * 192);
    assert_eq!(AACS_UNIT_LEN, 3 * 2048);
}

#[test]
fn identity_pass_through() {
    let mut d = Identity;
    let mut buf = vec![0xAAu8; AACS_UNIT_LEN];
    StreamDecryptor::decrypt_units(&mut d, &mut buf, 0).unwrap();
    assert!(buf.iter().all(|&b| b == 0xAA));
}
