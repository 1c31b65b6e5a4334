use hiddenbox_crypto::cipher::{decode_key, decrypt, encode_key, encrypt};
use hiddenbox_crypto::error::{EngineError, ErrorKind};
use hiddenbox_crypto::hasher::{digest, digest_text};
use hiddenbox_crypto::hex::hex_lower;
use hiddenbox_crypto::ident::{identifier_from, new_identifier};
use hiddenbox_crypto::random::{CountingSource, RandomSource, SystemRandom};

fn cipher_error() -> EngineError {
    EngineError { kind: ErrorKind::CipherError, chunk: None }
}

fn unhex(text: &str) -> Vec<u8> {
    let digits: Vec<u8> = text.bytes().map(|b| (b as char).to_digit(16).unwrap() as u8).collect();
    digits.chunks(2).map(|pair| pair[0] * 16 + pair[1]).collect()
}

#[test]
fn hex_of_bytes() {
    assert_eq!(hex_lower(&[]), "");
    assert_eq!(hex_lower(&[0x00, 0xff, 0x1a, 0xa1, 0x09, 0x90]), "00ff1aa10990");
    let all: Vec<u8> = (0..=255u8).collect();
    let expected: String = all.iter().map(|b| format!("{:02x}", b)).collect();
    assert_eq!(hex_lower(&all), expected);
}

#[test]
fn digest_of_known_inputs() {
    assert_eq!(
        digest_text(b"abc"),
        "ba7816bf8f01cfea414140de5dae2223b00361a396177a9cb410ff61f20015ad"
    );
    assert_eq!(
        digest_text(b""),
        "e3b0c44298fc1c149afbf4c8996fb92427ae41e4649b934ca495991b7852b855"
    );
    assert_eq!(
        digest(b"abc"),
        unhex("ba7816bf8f01cfea414140de5dae2223b00361a396177a9cb410ff61f20015ad")
    );
    assert_eq!(digest(b"abc").len(), 32);
}

#[test]
fn encrypt_known_vectors() {
    let key = [0u8; 32];
    let nonce = [0u8; 12];
    assert_eq!(encrypt(&key, &nonce, &[]), Ok(unhex("530f8afbc74536b9a963b4f1c4cb738b")));
    assert_eq!(
        encrypt(&key, &nonce, &[0u8; 16]),
        Ok(unhex("cea7403d4d606b6e074ec5d3baf39d18d0d1c8a799996bf0265b98b5d48ab919"))
    );
}

#[test]
fn decrypt_known_vectors() {
    let key = [0u8; 32];
    let nonce = [0u8; 12];
    assert_eq!(decrypt(&key, &nonce, &unhex("530f8afbc74536b9a963b4f1c4cb738b")), Ok(vec![]));
    assert_eq!(
        decrypt(
            &key,
            &nonce,
            &unhex("cea7403d4d606b6e074ec5d3baf39d18d0d1c8a799996bf0265b98b5d48ab919")
        ),
        Ok(vec![0u8; 16])
    );
}

#[test]
fn encrypt_then_decrypt_gives_message_back() {
    let key: Vec<u8> = (0..32u8).collect();
    let nonce: Vec<u8> = (100..112u8).collect();
    let message = b"the quick brown fox jumps over the lazy dog".to_vec();
    let sealed = encrypt(&key, &nonce, &message).unwrap();
    assert_eq!(sealed.len(), message.len() + 16);
    assert_ne!(&sealed[..message.len()], &message[..]);
    assert_eq!(decrypt(&key, &nonce, &sealed), Ok(message));
}

#[test]
fn decrypt_detects_every_flipped_bit() {
    let key: Vec<u8> = (0..32u8).collect();
    let nonce: Vec<u8> = (100..112u8).collect();
    let sealed = encrypt(&key, &nonce, b"attack at dawn").unwrap();
    let failed = EngineError { kind: ErrorKind::AuthenticationFailed, chunk: None };
    for byte in 0..sealed.len() {
        for bit in 0..8 {
            let mut changed = sealed.clone();
            changed[byte] ^= 1 << bit;
            assert_eq!(decrypt(&key, &nonce, &changed), Err(failed));
        }
    }
    for byte in 0..32 {
        let mut other_key = key.clone();
        other_key[byte] ^= 1;
        assert_eq!(decrypt(&other_key, &nonce, &sealed), Err(failed));
    }
    for byte in 0..12 {
        let mut other_nonce = nonce.clone();
        other_nonce[byte] ^= 0x80;
        assert_eq!(decrypt(&key, &other_nonce, &sealed), Err(failed));
    }
}

#[test]
fn decrypt_refuses_input_shorter_than_a_tag() {
    let failed = EngineError { kind: ErrorKind::AuthenticationFailed, chunk: None };
    assert_eq!(decrypt(&[0u8; 32], &[0u8; 12], &[]), Err(failed));
    assert_eq!(decrypt(&[0u8; 32], &[0u8; 12], &[0u8; 15]), Err(failed));
}

#[test]
fn cipher_refuses_wrong_key_and_nonce_lengths() {
    assert_eq!(encrypt(&[0u8; 31], &[0u8; 12], b"x"), Err(cipher_error()));
    assert_eq!(encrypt(&[0u8; 33], &[0u8; 12], b"x"), Err(cipher_error()));
    assert_eq!(encrypt(&[0u8; 16], &[0u8; 12], b"x"), Err(cipher_error()));
    assert_eq!(encrypt(&[], &[0u8; 12], b"x"), Err(cipher_error()));
    assert_eq!(encrypt(&[0u8; 32], &[0u8; 11], b"x"), Err(cipher_error()));
    assert_eq!(encrypt(&[0u8; 32], &[0u8; 16], b"x"), Err(cipher_error()));
    assert_eq!(decrypt(&[0u8; 31], &[0u8; 12], &[0u8; 16]), Err(cipher_error()));
    assert_eq!(decrypt(&[0u8; 32], &[0u8; 13], &[0u8; 16]), Err(cipher_error()));
}

#[test]
fn key_text_of_known_keys() {
    assert_eq!(
        encode_key(&[0u8; 32]),
        Ok(String::from("AAAAAAAAAAAAAAAAAAAAAAAAAAAAAAAAAAAAAAAAAAA="))
    );
    let key: Vec<u8> = (0..32u8).collect();
    assert_eq!(
        encode_key(&key),
        Ok(String::from("AAECAwQFBgcICQoLDA0ODxAREhMUFRYXGBkaGxwdHh8="))
    );
    assert_eq!(decode_key("AAECAwQFBgcICQoLDA0ODxAREhMUFRYXGBkaGxwdHh8="), Ok(key));
}

#[test]
fn key_text_refuses_what_is_no_key() {
    assert_eq!(encode_key(&[0u8; 31]), Err(cipher_error()));
    assert_eq!(encode_key(&[]), Err(cipher_error()));
    assert_eq!(decode_key(""), Err(cipher_error()));
    assert_eq!(decode_key("not base64 at all!"), Err(cipher_error()));
    assert_eq!(decode_key("AAECAwQFBgcICQoLDA0ODxAREhMUFRYXGBkaGxwdHh8"), Err(cipher_error()));
    assert_eq!(decode_key("AAECAw=="), Err(cipher_error()));
}

#[test]
fn identifier_of_known_bytes() {
    let bytes = [70, 235, 208, 238, 14, 109, 67, 201, 185, 13, 204, 195, 90, 145, 63, 62];
    assert_eq!(
        identifier_from(&bytes),
        Some(String::from("46ebd0ee-0e6d-43c9-b90d-ccc35a913f3e"))
    );
    assert_eq!(
        identifier_from(&[0u8; 16]),
        Some(String::from("00000000-0000-4000-8000-000000000000"))
    );
    assert_eq!(
        identifier_from(&[0xffu8; 16]),
        Some(String::from("ffffffff-ffff-4fff-bfff-ffffffffffff"))
    );
}

#[test]
fn identifier_needs_sixteen_bytes() {
    assert_eq!(identifier_from(&[0u8; 15]), None);
    assert_eq!(identifier_from(&[0u8; 17]), None);
    assert_eq!(identifier_from(&[]), None);
}

#[test]
fn identifier_from_a_source() {
    let mut source = CountingSource::new(0x20);
    assert_eq!(new_identifier(&mut source), "20212223-2425-4627-a829-2a2b2c2d2e2f");
    assert_eq!(source.next, 0x30);
}

#[test]
fn counting_source_counts_and_wraps() {
    let mut source = CountingSource::new(254);
    assert_eq!(source.fill(4), vec![254, 255, 0, 1]);
    assert_eq!(source.fill(0), Vec::<u8>::new());
    assert_eq!(source.fill(2), vec![2, 3]);
    assert_eq!(source.next, 4);
}

#[test]
fn system_source_gives_the_length_asked_for() {
    let mut source = SystemRandom::new().unwrap();
    assert_eq!(source.fill(0).len(), 0);
    assert_eq!(source.fill(12).len(), 12);
    assert_eq!(source.fill(1000).len(), 1000);
    assert_ne!(source.fill(32), source.fill(32));
}
