use envelope_encryption::cipher::{key_text_from_material, read_opened, CipherHandle};
use envelope_encryption::error::EnvelopeError;

const VECTOR_KEY: &str = "cw_0x689RpI-jtRR7oE8h_eQsKImvJapLeSbXpwF4e4=";

fn cipher_of(seed: u8) -> CipherHandle {
    let material: Vec<u8> = (0..32u8).map(|i| i.wrapping_mul(7).wrapping_add(seed)).collect();
    CipherHandle::from_key_material(&material).ok().expect("32 bytes make a cipher")
}

#[test]
fn key_text_of_zero_bytes() {
    let text = key_text_from_material(&[0u8; 32]).unwrap();
    assert_eq!(text, format!("{}=", "A".repeat(43)));
}

#[test]
fn key_text_uses_the_url_safe_alphabet() {
    let text = key_text_from_material(&[0xFFu8; 32]).unwrap();
    assert_eq!(text, format!("{}8=", "_".repeat(42)));
    let text = key_text_from_material(&[0xFBu8; 32]).unwrap();
    assert!(text.contains('-'));
    assert!(!text.contains('+') && !text.contains('/'));
}

#[test]
fn key_text_is_that_of_base64() {
    let material: Vec<u8> = (100..132u8).collect();
    let text = key_text_from_material(&material).unwrap();
    assert_eq!(text, base64::encode_config(&material, base64::URL_SAFE));
    assert_eq!(text.len(), 44);
}

#[test]
fn key_text_ignores_what_follows_32_bytes() {
    let long: Vec<u8> = (0..64u8).collect();
    let short: Vec<u8> = (0..32u8).collect();
    assert_eq!(key_text_from_material(&long), key_text_from_material(&short));
}

#[test]
fn key_text_refuses_short_material() {
    assert_eq!(key_text_from_material(&[]), Err(EnvelopeError::KeyMaterialTooShort));
    assert_eq!(key_text_from_material(&[1u8; 31]), Err(EnvelopeError::KeyMaterialTooShort));
}

#[test]
fn new_takes_a_proper_key_text() {
    assert!(CipherHandle::new(VECTOR_KEY).is_some());
    assert!(CipherHandle::new(&"A".repeat(43)).is_some());
}

#[test]
fn new_refuses_what_is_no_key() {
    assert!(CipherHandle::new("").is_none());
    assert!(CipherHandle::new("not a key").is_none());
    assert!(CipherHandle::new("AAAA").is_none());
    assert!(CipherHandle::new(&"A".repeat(64)).is_none());
}

#[test]
fn from_key_material_refuses_short_material() {
    assert_eq!(
        CipherHandle::from_key_material(&[9u8; 31]).err(),
        Some(EnvelopeError::KeyMaterialTooShort)
    );
    assert_eq!(
        CipherHandle::from_key_material(&[]).err(),
        Some(EnvelopeError::KeyMaterialTooShort)
    );
}

#[test]
fn from_key_material_takes_any_32_bytes() {
    assert!(CipherHandle::from_key_material(&[0u8; 32]).is_ok());
    assert!(CipherHandle::from_key_material(&[0xFFu8; 32]).is_ok());
    assert!(CipherHandle::from_key_material(&[0x5Au8; 48]).is_ok());
}

#[test]
fn round_trip_of_values() {
    let cipher = cipher_of(1);
    let samples: [u32; 7] = [0, 1, 42, 1000, 0x7FFF_FFFF, 0x8000_0000, u32::MAX];
    for v in samples {
        let token = cipher.encrypt(v);
        assert_eq!(cipher.decrypt(&token), Ok(v));
    }
}

#[test]
fn tokens_differ_and_hold_the_same_value() {
    let cipher = cipher_of(2);
    let first = cipher.encrypt(77);
    let second = cipher.encrypt(77);
    assert_ne!(first, second);
    assert_eq!(cipher.decrypt(&first), Ok(77));
    assert_eq!(cipher.decrypt(&second), Ok(77));
}

#[test]
fn token_is_not_the_plaintext() {
    let cipher = cipher_of(3);
    let token = cipher.encrypt(0x4142_4344);
    assert!(token.len() > 4);
    assert!(!token.contains("ABCD"));
    assert!(token.starts_with("gA"));
}

#[test]
fn a_cipher_of_the_same_material_opens_the_token() {
    let long: Vec<u8> = (0..64u8).collect();
    let sealing = CipherHandle::from_key_material(&long).ok().unwrap();
    let opening = CipherHandle::from_key_material(&long[..32]).ok().unwrap();
    let token = sealing.encrypt(123_456);
    assert_eq!(opening.decrypt(&token), Ok(123_456));
}

#[test]
fn another_key_does_not_open_the_token() {
    let k1 = cipher_of(10);
    let k2 = cipher_of(11);
    let token = k1.encrypt(42);
    assert_eq!(k2.decrypt(&token), Err(EnvelopeError::Decryption));
    assert_eq!(k1.decrypt(&token), Ok(42));
}

#[test]
fn malformed_tokens_are_refused() {
    let cipher = cipher_of(4);
    assert_eq!(cipher.decrypt(""), Err(EnvelopeError::Decryption));
    assert_eq!(cipher.decrypt("not a token"), Err(EnvelopeError::Decryption));
    assert_eq!(cipher.decrypt("%%%%"), Err(EnvelopeError::Decryption));
    assert_eq!(cipher.decrypt("gAAAAA"), Err(EnvelopeError::Decryption));
}

#[test]
fn a_tampered_token_is_refused() {
    let cipher = cipher_of(5);
    let token = cipher.encrypt(9);
    let mut bytes = token.into_bytes();
    let at = bytes.len() / 2;
    bytes[at] = if bytes[at] == b'A' { b'B' } else { b'A' };
    let tampered = String::from_utf8(bytes).unwrap();
    assert_eq!(cipher.decrypt(&tampered), Err(EnvelopeError::Decryption));
}

#[test]
fn a_truncated_token_is_refused() {
    let cipher = cipher_of(6);
    let token = cipher.encrypt(9);
    assert_eq!(cipher.decrypt(&token[..token.len() - 8]), Err(EnvelopeError::Decryption));
}

#[test]
fn a_token_with_a_wrong_mac_is_refused() {
    let cipher = CipherHandle::new(VECTOR_KEY).unwrap();
    let token = "gAAAAAAdwJ6xAAECAwQFBgcICQoLDA0OD3HkMATM5lFqGaerZ-fWPAl1-szkFVzXTuGb4hR8AKtwcaX1YdykQUFBQUFBQUFBQQ==";
    assert_eq!(cipher.decrypt(token), Err(EnvelopeError::Decryption));
}

#[test]
fn a_token_that_holds_five_bytes_is_refused_for_its_length() {
    let cipher = CipherHandle::new(VECTOR_KEY).unwrap();
    let token = "gAAAAAAdwJ6wAAECAwQFBgcICQoLDA0ODy021cpGVWKZ_eEwCGM4BLLF_5CV9dOPmrhuVUPgJobwOz7JcbmrR64jVmpU4IwqDA==";
    assert_eq!(cipher.decrypt(token), Err(EnvelopeError::PlaintextLength));
}

#[test]
fn a_token_that_holds_three_bytes_is_refused_for_its_length() {
    let sealing = fernet::Fernet::new(VECTOR_KEY).unwrap();
    let token = sealing.encrypt(b"abc");
    let cipher = CipherHandle::new(VECTOR_KEY).unwrap();
    assert_eq!(cipher.decrypt(&token), Err(EnvelopeError::PlaintextLength));
    let empty = sealing.encrypt(b"");
    assert_eq!(cipher.decrypt(&empty), Err(EnvelopeError::PlaintextLength));
}

#[test]
fn a_token_sealed_by_fernet_itself_reads_big_endian() {
    let sealing = fernet::Fernet::new(VECTOR_KEY).unwrap();
    let token = sealing.encrypt(&[0u8, 0, 1, 2]);
    let cipher = CipherHandle::new(VECTOR_KEY).unwrap();
    assert_eq!(cipher.decrypt(&token), Ok(258));
}

#[test]
fn a_sealed_value_opens_under_fernet_itself_as_four_bytes() {
    let cipher = CipherHandle::new(VECTOR_KEY).unwrap();
    let token = cipher.encrypt(0x0A0B_0C0D);
    let opening = fernet::Fernet::new(VECTOR_KEY).unwrap();
    assert_eq!(opening.decrypt(&token).unwrap(), vec![0x0Au8, 0x0B, 0x0C, 0x0D]);
}

#[test]
fn read_opened_on_each_kind_of_answer() {
    assert_eq!(read_opened(None), Err(EnvelopeError::Decryption));
    assert_eq!(read_opened(Some(vec![0, 0, 0, 42])), Ok(42));
    assert_eq!(read_opened(Some(vec![1, 0, 0, 0])), Ok(0x0100_0000));
    assert_eq!(read_opened(Some(vec![1])), Err(EnvelopeError::PlaintextLength));
    assert_eq!(read_opened(Some(vec![])), Err(EnvelopeError::PlaintextLength));
    assert_eq!(read_opened(Some(vec![0; 5])), Err(EnvelopeError::PlaintextLength));
}

#[test]
fn key_text_of_32_bytes_has_44_characters() {
    for fill in [0u8, 0x33, 0xFF] {
        assert_eq!(key_text_from_material(&[fill; 32]).unwrap().len(), 44);
        assert_eq!(key_text_from_material(&[fill; 100]).unwrap().len(), 44);
    }
}

#[test]
fn open_token_hands_out_the_four_bytes() {
    let cipher = cipher_of(7);
    let token = cipher.encrypt(0x0102_0304);
    assert_eq!(cipher.open_token(&token), Some(vec![1u8, 2, 3, 4]));
}

#[test]
fn open_token_hands_out_a_plaintext_of_any_length() {
    let cipher = CipherHandle::new(VECTOR_KEY).unwrap();
    let token = "gAAAAAAdwJ6wAAECAwQFBgcICQoLDA0ODy021cpGVWKZ_eEwCGM4BLLF_5CV9dOPmrhuVUPgJobwOz7JcbmrR64jVmpU4IwqDA==";
    assert_eq!(cipher.open_token(token), Some(b"hello".to_vec()));
}

#[test]
fn open_token_hands_out_nothing_for_what_is_no_token() {
    let cipher = cipher_of(8);
    assert_eq!(cipher.open_token("not a token"), None);
    assert_eq!(cipher.open_token(""), None);
    let other = cipher_of(9);
    assert_eq!(cipher.open_token(&other.encrypt(1)), None);
}
