//! The pattern vault: blob format, key derivation, round trips, and
//! password hashing.

use sift::encryption::{
    decrypt, encrypt, encrypt_then_decrypt, get_valid_key, hash_password, split_iv_data_mac,
    verify_password, DecryptError,
};
use sift::hexcode::{hex_decode, hex_encode};

#[test]
fn hex_round_trip() {
    let bytes: Vec<u8> = vec![0x00, 0x0f, 0xde, 0xad, 0xbe, 0xef, 0xff];
    let chars = hex_encode(&bytes);
    let s: String = chars.iter().collect();
    assert_eq!(s, "000fdeadbeefff");
    let back = hex_decode(&chars).unwrap();
    assert_eq!(back, bytes);
}

#[test]
fn hex_decode_mixed_case_and_failures() {
    let up: Vec<char> = "DEADBEEF".chars().collect();
    assert_eq!(hex_decode(&up).unwrap(), vec![0xde, 0xad, 0xbe, 0xef]);
    let odd: Vec<char> = "abc".chars().collect();
    assert!(hex_decode(&odd).is_none());
    let bad: Vec<char> = "zz".chars().collect();
    assert!(hex_decode(&bad).is_none());
}

#[test]
fn key_padding_and_truncation() {
    assert_eq!(
        get_valid_key("abc"),
        vec![97, 98, 99, 0, 0, 0, 0, 0, 0, 0, 0, 0, 0, 0, 0, 0]
    );
    let long = get_valid_key("0123456789abcdefEXTRA");
    assert_eq!(long, "0123456789abcdef".as_bytes().to_vec());
    assert_eq!(get_valid_key("").len(), 16);
}

#[test]
fn blob_splits_into_three_hex_segments() {
    let (iv, data, mac) = split_iv_data_mac("00ff/ab/0102").unwrap();
    assert_eq!(iv, vec![0x00, 0xff]);
    assert_eq!(data, vec![0xab]);
    assert_eq!(mac, vec![0x01, 0x02]);
    assert!(split_iv_data_mac("00ff/ab").is_none());
    assert!(split_iv_data_mac("00ff/ab/01/02").is_none());
    assert!(split_iv_data_mac("00ff/xy/0102").is_none());
}

#[test]
fn encrypt_decrypt_round_trip() {
    let plain = b"social security";
    let blob = encrypt(plain, "hunter2");
    let back = decrypt(&blob, "hunter2").unwrap();
    assert_eq!(back, plain.to_vec());
    let again = encrypt_then_decrypt(plain, "hunter2");
    assert_eq!(again, plain.to_vec());
}

#[test]
fn encrypt_produces_fresh_ivs() {
    let a = encrypt(b"same input", "pw");
    let b = encrypt(b"same input", "pw");
    // A fresh 12-byte IV per pattern makes the encoded blobs differ.
    assert_ne!(a, b);
}

#[test]
fn decrypt_rejects_wrong_password() {
    let blob = encrypt(b"payload", "correct horse");
    match decrypt(&blob, "battery staple") {
        Err(DecryptError::Rejected) => {}
        other => panic!("expected rejection, got {:?}", other.map(|_| ())),
    }
}

#[test]
fn decrypt_two_segments_fails_deterministically() {
    for _ in 0..3 {
        match decrypt("deadbeef/xx", "pw") {
            Err(DecryptError::Malformed) => {}
            other => panic!("expected malformed, got {:?}", other.map(|_| ())),
        }
    }
}

#[test]
fn decrypt_rejects_bad_iv_or_tag_length() {
    // Three hex segments, but an 8-byte IV.
    assert_eq!(
        decrypt("deadbeef/ab/000102030405060708090a0b0c0d0e0f", "pw"),
        Err(DecryptError::Malformed)
    );
    // Correct IV size, tag too short.
    assert_eq!(
        decrypt("000102030405060708090a0b/ab/0011", "pw"),
        Err(DecryptError::Malformed)
    );
}

#[test]
fn password_hash_round_trip() {
    let hash = hash_password("open sesame").unwrap();
    assert_eq!(verify_password("open sesame", &hash), Some(true));
    assert_eq!(verify_password("open sesam", &hash), Some(false));
    assert_eq!(verify_password("open sesame", "not a phc string"), None);
}
