use hiddenbox_crypto::cipher::decode_key;
use hiddenbox_crypto::engine::{
    fragment, location_hint, open_chunk, reassemble, seal_chunk, stored_form, unseal_chunk,
    verify_chunk, EncryptionService,
};
use hiddenbox_crypto::error::{EngineError, ErrorKind};
use hiddenbox_crypto::hasher::digest_text;
use hiddenbox_crypto::manifest::{ChunkInfo, Metadata};
use hiddenbox_crypto::random::{CountingSource, SystemRandom};
use hiddenbox_crypto::store::ChunkStore;

fn kind(kind: ErrorKind) -> EngineError {
    EngineError { kind, chunk: None }
}

fn at(kind: ErrorKind, chunk: usize) -> EngineError {
    EngineError { kind, chunk: Some(chunk) }
}

fn sample(length: usize) -> Vec<u8> {
    (0..length).map(|i| (i * 31 % 251) as u8).collect()
}

fn fragmented_sample(length: usize, chunk_size: usize) -> (Vec<u8>, Metadata, ChunkStore) {
    let data = sample(length);
    let mut store = ChunkStore::new("chunks");
    let mut source = CountingSource::new(0);
    let manifest = fragment("sample.bin", &data, chunk_size, &mut store, &mut source).unwrap();
    (data, manifest, store)
}

#[test]
fn ten_bytes_by_four_make_three_chunks_and_come_back() {
    let data: Vec<u8> = vec![10, 11, 12, 13, 14, 15, 16, 17, 18, 19];
    let mut store = ChunkStore::new("chunks");
    let mut source = SystemRandom::new().unwrap();
    let manifest = fragment("ten.bin", &data, 4, &mut store, &mut source).unwrap();
    let sizes: Vec<usize> = manifest.chunks.iter().map(|c| c.size).collect();
    assert_eq!(sizes, vec![4, 4, 2]);
    assert_eq!(manifest.total_chunks, 3);
    assert_eq!(manifest.total_size, 10);
    assert_eq!(manifest.chunk_size, 4);
    assert_eq!(manifest.original_name, "ten.bin");
    assert_eq!(store.locations().len(), 3);
    assert_eq!(reassemble(&manifest, &store), Ok(data));
}

#[test]
fn empty_file_makes_one_empty_chunk_and_comes_back() {
    let mut store = ChunkStore::new("chunks");
    let mut source = SystemRandom::new().unwrap();
    let manifest = fragment("empty", &[], 4, &mut store, &mut source).unwrap();
    assert_eq!(manifest.chunks.len(), 1);
    assert_eq!(manifest.total_chunks, 1);
    assert_eq!(manifest.total_size, 0);
    assert_eq!(manifest.chunks[0].size, 0);
    assert_eq!(manifest.chunks[0].order, 0);
    assert_eq!(store.get(&manifest.chunks[0].storage_location).unwrap().len(), 12 + 16);
    assert_eq!(reassemble(&manifest, &store), Ok(vec![]));
}

#[test]
fn corrupted_hash_is_an_integrity_mismatch_for_that_chunk() {
    let (_, manifest, store) = fragmented_sample(10, 4);
    for position in 0..3 {
        let mut changed = manifest.clone();
        let mut hash = changed.chunks[position].hash.clone().into_bytes();
        hash[0] = if hash[0] == b'0' { b'1' } else { b'0' };
        changed.chunks[position].hash = String::from_utf8(hash).unwrap();
        assert_eq!(
            reassemble(&changed, &store),
            Err(at(ErrorKind::IntegrityMismatch, position))
        );
    }
}

#[test]
fn round_trip_for_many_lengths_and_chunk_sizes() {
    let mut source = SystemRandom::new().unwrap();
    for length in [0usize, 1, 2, 15, 16, 17, 63, 64, 65, 255, 256, 1000] {
        for chunk_size in [1usize, 2, 3, 16, 17, 64, 1000, 4096] {
            let data = sample(length);
            let mut store = ChunkStore::new("chunks");
            let manifest = fragment("sample.bin", &data, chunk_size, &mut store, &mut source)
                .unwrap();
            assert!(manifest.is_consistent());
            assert_eq!(manifest.total_chunks, if length == 0 { 1 } else { length.div_ceil(chunk_size) });
            assert_eq!(store.locations().len(), manifest.total_chunks);
            assert_eq!(reassemble(&manifest, &store), Ok(data));
        }
    }
}

#[test]
fn repeated_identifiers_are_caught_by_the_store() {
    // A counting source repeats after 256 bytes, and a chunk takes 28 of
    // them: chunk 64 gets the identifier of chunk 0.
    let data = sample(100);
    let mut store = ChunkStore::new("chunks");
    let mut source = CountingSource::new(0);
    let result = fragment("sample.bin", &data, 1, &mut store, &mut source);
    assert_eq!(result.unwrap_err(), at(ErrorKind::StoreWriteError, 64));
    assert_eq!(store.locations().len(), 64);
}

#[test]
fn manifest_counts_orders_and_sizes() {
    let (data, manifest, store) = fragmented_sample(1000, 64);
    assert_eq!(manifest.total_size, data.len());
    assert_eq!(manifest.total_chunks, 16);
    assert_eq!(manifest.chunks.len(), 16);
    let mut total = 0;
    for (i, chunk) in manifest.chunks.iter().enumerate() {
        assert_eq!(chunk.order, i);
        assert_eq!(chunk.size, if i < 15 { 64 } else { 40 });
        total += chunk.size;
        let stored = store.get(&chunk.storage_location).unwrap();
        assert_eq!(stored.len(), 12 + chunk.size + 16);
        assert_eq!(chunk.hash, digest_text(&stored));
    }
    assert_eq!(total, manifest.total_size);
    assert_eq!(manifest.nonce, "");
}

#[test]
fn fragment_with_known_bytes_gives_known_manifest() {
    let mut store = ChunkStore::new("out");
    let mut source = CountingSource::new(0);
    let manifest = fragment("four", b"0123", 4, &mut store, &mut source).unwrap();
    assert_eq!(manifest.encryption_key, "AAECAwQFBgcICQoLDA0ODxAREhMUFRYXGBkaGxwdHh8=");
    assert_eq!(manifest.file_id, "20212223-2425-4627-a829-2a2b2c2d2e2f");
    assert_eq!(manifest.chunks.len(), 1);
    let chunk = &manifest.chunks[0];
    assert_eq!(chunk.chunk_id, "3c3d3e3f-4041-4243-8445-464748494a4b");
    assert_eq!(
        chunk.storage_location,
        "out/20212223-2425-4627-a829-2a2b2c2d2e2f/3c3d3e3f-4041-4243-8445-464748494a4b"
    );
    let stored = store.get(&chunk.storage_location).unwrap();
    let mut expected: Vec<u8> = (48..60u8).collect();
    expected.extend_from_slice(&[
        0x83, 0x04, 0x03, 0xf3, 0xd1, 0x1d, 0x08, 0x50, 0x0f, 0x73, 0x83, 0x1c, 0x8b, 0xd2, 0x1d,
        0xfe, 0x2b, 0xbe, 0xd4, 0x29,
    ]);
    assert_eq!(stored, expected);
    assert_eq!(chunk.hash, digest_text(&expected));
    assert_eq!(source.next, 76);
}

#[test]
fn fragment_refuses_chunk_size_zero() {
    let mut store = ChunkStore::new("chunks");
    let mut source = CountingSource::new(0);
    let result = fragment("x", b"abc", 0, &mut store, &mut source);
    assert_eq!(result.unwrap_err(), kind(ErrorKind::InvalidConfiguration));
    assert!(store.locations().is_empty());
    let service = EncryptionService::new(0);
    assert_eq!(service.chunk_size(), 0);
    let result = service.encrypt_fragment_file("x", b"", &mut store, &mut source);
    assert_eq!(result.unwrap_err(), kind(ErrorKind::InvalidConfiguration));
}

#[test]
fn fragment_fails_where_the_store_refuses_a_write() {
    let data = sample(10);
    let mut store = ChunkStore::new("chunks");
    let mut first = CountingSource::new(0);
    let manifest = fragment("a", &data, 4, &mut store, &mut first).unwrap();
    let mut again = CountingSource::new(0);
    let result = fragment("a", &data, 4, &mut store, &mut again);
    assert_eq!(result.unwrap_err(), at(ErrorKind::StoreWriteError, 0));
    assert_eq!(store.locations().len(), 3);
    assert_eq!(reassemble(&manifest, &store), Ok(data));
}

#[test]
fn failed_fragment_leaves_earlier_chunks_in_the_store() {
    let data = sample(10);
    let mut store = ChunkStore::new("chunks");
    let mut first = CountingSource::new(0);
    let manifest = fragment("a", &data, 4, &mut store, &mut first).unwrap();
    store.remove(&manifest.chunks[0].storage_location).unwrap();
    let mut again = CountingSource::new(0);
    let result = fragment("a", &data, 4, &mut store, &mut again);
    assert_eq!(result.unwrap_err(), at(ErrorKind::StoreWriteError, 1));
    assert_eq!(store.locations().len(), 3);
}

#[test]
fn service_methods_fragment_and_reassemble() {
    let data = sample(100);
    let service = EncryptionService::new(32);
    assert_eq!(service.chunk_size(), 32);
    let mut store = ChunkStore::new("");
    let mut source = SystemRandom::new().unwrap();
    let manifest = service.encrypt_fragment_file("f", &data, &mut store, &mut source).unwrap();
    assert_eq!(manifest.total_chunks, 4);
    assert_eq!(service.decrypt_reassemble_file(&manifest, &store), Ok(data));
}

#[test]
fn encrypt_data_returns_ciphertext_and_nonce() {
    let service = EncryptionService::new(4);
    let key: Vec<u8> = (0..32u8).collect();
    let mut source = CountingSource::new(48);
    let (sealed, nonce) = service.encrypt_data(b"0123", &key, &mut source).unwrap();
    assert_eq!(nonce, (48..60u8).collect::<Vec<u8>>());
    assert_eq!(
        sealed,
        vec![
            0x83, 0x04, 0x03, 0xf3, 0xd1, 0x1d, 0x08, 0x50, 0x0f, 0x73, 0x83, 0x1c, 0x8b, 0xd2,
            0x1d, 0xfe, 0x2b, 0xbe, 0xd4, 0x29
        ]
    );
    let result = service.encrypt_data(b"0123", &[0u8; 16], &mut source);
    assert_eq!(result.unwrap_err(), kind(ErrorKind::CipherError));
}

#[test]
fn two_runs_on_one_file_share_no_key_nonce_or_bytes() {
    let data = sample(64);
    let mut source = SystemRandom::new().unwrap();
    let mut first_store = ChunkStore::new("a");
    let first = fragment("f", &data, 64, &mut first_store, &mut source).unwrap();
    let mut second_store = ChunkStore::new("a");
    let second = fragment("f", &data, 64, &mut second_store, &mut source).unwrap();
    let one = first_store.get(&first.chunks[0].storage_location).unwrap();
    let two = second_store.get(&second.chunks[0].storage_location).unwrap();
    assert_ne!(one[..12], two[..12]);
    assert_ne!(one[12..], two[12..]);
    assert_ne!(first.encryption_key, second.encryption_key);
    assert_ne!(first.file_id, second.file_id);
    assert_ne!(first.chunks[0].chunk_id, second.chunks[0].chunk_id);
    assert_ne!(first.chunks[0].hash, second.chunks[0].hash);
}

#[test]
fn same_key_and_plaintext_under_two_nonces_give_different_bytes() {
    let key: Vec<u8> = (0..32u8).collect();
    let one = seal_chunk(&key, &[1u8; 12], b"same plaintext").unwrap();
    let two = seal_chunk(&key, &[2u8; 12], b"same plaintext").unwrap();
    assert_ne!(one, two);
    assert_ne!(one[12..], two[12..]);
    assert_eq!(unseal_chunk(&key, &one), Ok(b"same plaintext".to_vec()));
    assert_eq!(unseal_chunk(&key, &two), Ok(b"same plaintext".to_vec()));
}

#[test]
fn every_flipped_bit_in_a_stored_chunk_is_detected() {
    let (_, manifest, store) = fragmented_sample(10, 4);
    let location = manifest.chunks[1].storage_location.clone();
    let stored = store.get(&location).unwrap();
    for byte in 0..stored.len() {
        for bit in 0..8 {
            let mut changed = stored.clone();
            changed[byte] ^= 1 << bit;
            let mut tampered = ChunkStore::new("chunks");
            for other in store.locations() {
                tampered.load(&other, store.get(&other).unwrap());
            }
            tampered.load(&location, changed);
            assert_eq!(
                reassemble(&manifest, &tampered),
                Err(at(ErrorKind::IntegrityMismatch, 1))
            );
        }
    }
}

#[test]
fn tampering_that_also_fixes_the_hash_fails_authentication() {
    let (_, manifest, mut store) = fragmented_sample(10, 4);
    let location = manifest.chunks[2].storage_location.clone();
    let stored = store.get(&location).unwrap();
    for byte in [0usize, 11, 12, 13, stored.len() - 1] {
        let mut changed = stored.clone();
        changed[byte] ^= 0x01;
        let mut forged = manifest.clone();
        forged.chunks[2].hash = digest_text(&changed);
        store.load(&location, changed);
        assert_eq!(
            reassemble(&forged, &store),
            Err(at(ErrorKind::AuthenticationFailed, 2))
        );
    }
}

#[test]
fn truncated_chunk_fails_authentication() {
    let (_, manifest, mut store) = fragmented_sample(10, 4);
    let location = manifest.chunks[0].storage_location.clone();
    for keep in [0usize, 5, 11, 12, 27] {
        let short = store.get(&location).unwrap()[..keep].to_vec();
        let mut forged = manifest.clone();
        forged.chunks[0].hash = digest_text(&short);
        let saved = store.get(&location).unwrap();
        store.load(&location, short);
        assert_eq!(
            reassemble(&forged, &store),
            Err(at(ErrorKind::AuthenticationFailed, 0))
        );
        store.load(&location, saved);
    }
}

#[test]
fn missing_chunk_is_a_store_read_error() {
    for position in 0..3 {
        let (_, manifest, mut store) = fragmented_sample(10, 4);
        store.remove(&manifest.chunks[position].storage_location).unwrap();
        assert_eq!(
            reassemble(&manifest, &store),
            Err(at(ErrorKind::StoreReadError, position))
        );
    }
    let (_, manifest, _) = fragmented_sample(10, 4);
    let empty = ChunkStore::new("chunks");
    assert_eq!(reassemble(&manifest, &empty), Err(at(ErrorKind::StoreReadError, 0)));
}

#[test]
fn first_missing_chunk_is_the_one_reported() {
    let (_, manifest, mut store) = fragmented_sample(20, 4);
    store.remove(&manifest.chunks[3].storage_location).unwrap();
    store.remove(&manifest.chunks[1].storage_location).unwrap();
    store.remove(&manifest.chunks[4].storage_location).unwrap();
    assert_eq!(reassemble(&manifest, &store), Err(at(ErrorKind::StoreReadError, 1)));
}

#[test]
fn first_failing_chunk_decides_the_error() {
    let (_, manifest, mut store) = fragmented_sample(10, 4);
    store.remove(&manifest.chunks[2].storage_location).unwrap();
    let mut changed = manifest.clone();
    changed.chunks[1].hash = digest_text(b"something else");
    assert_eq!(reassemble(&changed, &store), Err(at(ErrorKind::IntegrityMismatch, 1)));
}

#[test]
fn wrong_recorded_size_is_a_size_mismatch() {
    let (_, manifest, store) = fragmented_sample(10, 4);
    let mut changed = manifest.clone();
    changed.chunks[1].size = 3;
    assert_eq!(reassemble(&changed, &store), Err(at(ErrorKind::SizeMismatch, 1)));
    let mut changed = manifest.clone();
    changed.total_size = 11;
    assert_eq!(reassemble(&changed, &store), Err(kind(ErrorKind::SizeMismatch)));
    let mut changed = manifest.clone();
    changed.total_chunks = 2;
    assert_eq!(reassemble(&changed, &store), Err(kind(ErrorKind::SizeMismatch)));
}

#[test]
fn chunks_out_of_order_are_refused() {
    let (_, manifest, store) = fragmented_sample(10, 4);
    let mut changed = manifest.clone();
    changed.chunks.swap(0, 1);
    assert_eq!(reassemble(&changed, &store), Err(at(ErrorKind::SizeMismatch, 0)));
    let mut changed = manifest.clone();
    changed.chunks[2].order = 7;
    assert_eq!(reassemble(&changed, &store), Err(at(ErrorKind::SizeMismatch, 2)));
    let mut changed = manifest.clone();
    changed.chunks.pop();
    changed.total_chunks = 2;
    assert_eq!(reassemble(&changed, &store), Err(kind(ErrorKind::SizeMismatch)));
}

#[test]
fn manifest_without_a_key_is_a_cipher_error() {
    let (_, manifest, store) = fragmented_sample(10, 4);
    let mut changed = manifest.clone();
    changed.encryption_key = String::from("???");
    assert_eq!(reassemble(&changed, &store), Err(kind(ErrorKind::CipherError)));
    let mut changed = manifest.clone();
    changed.encryption_key = String::from("AAECAw==");
    assert_eq!(reassemble(&changed, &store), Err(kind(ErrorKind::CipherError)));
}

#[test]
fn manifest_with_another_key_fails_authentication() {
    let (_, manifest, store) = fragmented_sample(10, 4);
    let mut changed = manifest.clone();
    changed.encryption_key = String::from("AAAAAAAAAAAAAAAAAAAAAAAAAAAAAAAAAAAAAAAAAAA=");
    assert_eq!(reassemble(&changed, &store), Err(at(ErrorKind::AuthenticationFailed, 0)));
}

#[test]
fn chunk_functions_agree_with_reassembly() {
    let (data, manifest, store) = fragmented_sample(10, 4);
    let key = decode_key(&manifest.encryption_key).unwrap();
    assert_eq!(open_chunk(&key, &manifest.chunks[1], 1, &store), Ok(data[4..8].to_vec()));
    assert_eq!(
        open_chunk(&key, &manifest.chunks[1], 0, &store),
        Err(at(ErrorKind::SizeMismatch, 0))
    );
    let stored = store.get(&manifest.chunks[2].storage_location).unwrap();
    assert_eq!(verify_chunk(&key, &manifest.chunks[2], 2, &stored), Ok(data[8..].to_vec()));
    assert_eq!(
        verify_chunk(&key, &manifest.chunks[1], 1, &stored),
        Err(at(ErrorKind::IntegrityMismatch, 1))
    );
    assert_eq!(
        verify_chunk(&key[..31], &manifest.chunks[2], 2, &stored),
        Err(at(ErrorKind::CipherError, 2))
    );
    assert_eq!(unseal_chunk(&key, &stored), Ok(data[8..].to_vec()));
    assert_eq!(unseal_chunk(&key, &stored[..11]), Err(kind(ErrorKind::AuthenticationFailed)));
}

#[test]
fn stored_form_and_location_hint() {
    assert_eq!(stored_form(&[1, 2], &[3, 4, 5]), vec![1, 2, 3, 4, 5]);
    assert_eq!(stored_form(&[], &[]), Vec::<u8>::new());
    assert_eq!(location_hint("file", "chunk"), "file/chunk");
}

#[test]
fn seal_chunk_refuses_what_the_cipher_refuses() {
    assert_eq!(seal_chunk(&[0u8; 31], &[0u8; 12], b"x"), Err(kind(ErrorKind::CipherError)));
    assert_eq!(seal_chunk(&[0u8; 32], &[0u8; 8], b"x"), Err(kind(ErrorKind::CipherError)));
}

#[test]
fn manifest_consistency() {
    let chunk = |order: usize, size: usize| ChunkInfo {
        chunk_id: String::new(),
        order,
        size,
        hash: String::new(),
        storage_location: String::new(),
    };
    let manifest = |total_size: usize, total_chunks: usize, chunks: Vec<ChunkInfo>| Metadata {
        original_name: String::new(),
        file_id: String::new(),
        total_size,
        total_chunks,
        chunk_size: 4,
        encryption_key: String::new(),
        nonce: String::new(),
        chunks,
    };
    assert!(manifest(10, 3, vec![chunk(0, 4), chunk(1, 4), chunk(2, 2)]).is_consistent());
    assert!(manifest(0, 0, vec![]).is_consistent());
    assert!(manifest(0, 1, vec![chunk(0, 0)]).is_consistent());
    assert!(!manifest(10, 2, vec![chunk(0, 4), chunk(1, 4), chunk(2, 2)]).is_consistent());
    assert!(!manifest(10, 3, vec![chunk(0, 4), chunk(2, 4), chunk(1, 2)]).is_consistent());
    assert!(!manifest(10, 3, vec![chunk(0, 4), chunk(1, 4), chunk(1, 2)]).is_consistent());
    assert!(!manifest(11, 3, vec![chunk(0, 4), chunk(1, 4), chunk(2, 2)]).is_consistent());
    assert!(!manifest(9, 3, vec![chunk(0, 4), chunk(1, 4), chunk(2, 2)]).is_consistent());
    assert!(!manifest(10, 2, vec![chunk(0, usize::MAX), chunk(1, 11)]).is_consistent());
}

#[test]
fn error_messages_name_the_kind() {
    assert_eq!(
        EngineError::new(ErrorKind::InvalidConfiguration).message(),
        "invalid configuration: chunk size must be positive"
    );
    assert_eq!(
        EngineError::at_chunk(ErrorKind::IntegrityMismatch, 3).message(),
        "the digest of a stored chunk does not match"
    );
    assert_eq!(EngineError::at_chunk(ErrorKind::StoreReadError, 3), at(ErrorKind::StoreReadError, 3));
    let kinds = [
        ErrorKind::InvalidConfiguration,
        ErrorKind::SourceReadError,
        ErrorKind::StoreWriteError,
        ErrorKind::StoreReadError,
        ErrorKind::CipherError,
        ErrorKind::AuthenticationFailed,
        ErrorKind::IntegrityMismatch,
        ErrorKind::SizeMismatch,
        ErrorKind::SerializationError,
    ];
    for (i, a) in kinds.iter().enumerate() {
        for (j, b) in kinds.iter().enumerate() {
            assert_eq!(a == b, i == j);
            assert_eq!(
                EngineError::new(*a).message() == EngineError::new(*b).message(),
                i == j
            );
        }
    }
}
