//! What holds of fragmentation and reassembly together.

use vstd::prelude::*;
use crate::chunker::{
    lemma_chunk_bounds, lemma_chunks_adjoin, lemma_last_chunk_len, spec_chunk_count,
    spec_chunk_len, spec_chunk_start,
};
use crate::cipher::{spec_decode_key, KEY_LEN, NONCE_LEN};
use crate::engine::{
    chunk_sealed, fragmented, spec_chunk_plain, spec_open_chunk, spec_reassemble,
    spec_reassemble_from, spec_stored_form, spec_unseal, spec_verify_chunk,
};
use crate::error::{chunk_error, EngineError, ErrorKind};
use crate::hasher::spec_digest_text;
use crate::manifest::{spec_sizes_total, ChunkRecord, ManifestRecord};

verus! {

/// A chunk that fragmentation wrote is fetched, checked and opened to the
/// plaintext of its range.
pub proof fn lemma_sealed_chunk_opens(
    key: Seq<u8>,
    file_id: Seq<char>,
    root: Seq<char>,
    chunk: ChunkRecord,
    position: nat,
    data: Seq<u8>,
    chunk_size: nat,
    store: Map<Seq<char>, Seq<u8>>,
)
    requires
        chunk_size > 0,
        position < spec_chunk_count(data.len(), chunk_size),
        chunk_sealed(key, file_id, root, chunk, position, data, chunk_size, store),
    ensures
        spec_open_chunk(key, chunk, position, store) == Ok::<Seq<u8>, EngineError>(
            spec_chunk_plain(data, chunk_size, position),
        ),
        spec_chunk_plain(data, chunk_size, position).len() == spec_chunk_len(
            data.len(),
            chunk_size,
            position,
        ),
{
    lemma_chunk_bounds(data.len(), chunk_size, position);
}

/// Where every chunk from `position` on opens to the plaintext of its range,
/// the chunks from `position` on give the file from that range to its end.
pub proof fn lemma_chunks_give_tail(
    key: Seq<u8>,
    chunks: Seq<ChunkRecord>,
    store: Map<Seq<char>, Seq<u8>>,
    data: Seq<u8>,
    chunk_size: nat,
    position: nat,
)
    requires
        chunk_size > 0,
        chunks.len() == spec_chunk_count(data.len(), chunk_size),
        position <= chunks.len(),
        forall|j: int|
            position <= j < chunks.len() ==> spec_open_chunk(
                key,
                #[trigger] chunks[j],
                j as nat,
                store,
            ) == Ok::<Seq<u8>, EngineError>(spec_chunk_plain(data, chunk_size, j as nat)),
    ensures
        spec_reassemble_from(key, chunks, store, position) == Ok::<Seq<u8>, EngineError>(
            data.subrange(
                spec_chunk_start(data.len(), chunk_size, position) as int,
                data.len() as int,
            ),
        ),
    decreases chunks.len() - position,
{
    let total = data.len();
    if position >= chunks.len() {
        assert(data.subrange(total as int, total as int) =~= Seq::<u8>::empty());
    } else {
        lemma_chunks_give_tail(key, chunks, store, data, chunk_size, position + 1);
        lemma_chunks_adjoin(total, chunk_size, position);
        let start = spec_chunk_start(total, chunk_size, position) as int;
        let next = spec_chunk_start(total, chunk_size, position + 1) as int;
        let plain = spec_chunk_plain(data, chunk_size, position);
        assert(spec_open_chunk(key, chunks[position as int], position, store) == Ok::<
            Seq<u8>,
            EngineError,
        >(plain));
        assert(plain == data.subrange(start, next));
        assert(data.subrange(start, next) + data.subrange(next, total as int) =~= data.subrange(
            start,
            total as int,
        ));
    }
}

/// Where the chunks from `first` up to `position` open and the chunk at
/// `position` fails, the chunks from `first` on fail with that chunk's error.
pub proof fn lemma_first_failure(
    key: Seq<u8>,
    chunks: Seq<ChunkRecord>,
    store: Map<Seq<char>, Seq<u8>>,
    first: nat,
    position: nat,
)
    requires
        first <= position < chunks.len(),
        forall|j: int|
            first <= j < position ==> spec_open_chunk(key, #[trigger] chunks[j], j as nat, store) is Ok,
        spec_open_chunk(key, chunks[position as int], position, store) is Err,
    ensures
        spec_reassemble_from(key, chunks, store, first) == Err::<Seq<u8>, EngineError>(
            spec_open_chunk(key, chunks[position as int], position, store)->Err_0,
        ),
    decreases position - first,
{
    if first < position {
        lemma_first_failure(key, chunks, store, first + 1, position);
        assert(spec_open_chunk(key, chunks[first as int], first, store) is Ok);
    }
}

/// Where the chunks from `position` on give an outcome in bytes, each of
/// them opens.
pub proof fn lemma_success_needs_every_chunk(
    key: Seq<u8>,
    chunks: Seq<ChunkRecord>,
    store: Map<Seq<char>, Seq<u8>>,
    position: nat,
)
    requires
        spec_reassemble_from(key, chunks, store, position) is Ok,
    ensures
        forall|j: int|
            position <= j < chunks.len() ==> spec_open_chunk(
                key,
                #[trigger] chunks[j],
                j as nat,
                store,
            ) is Ok,
    decreases chunks.len() - position,
{
    if position < chunks.len() {
        assert(spec_open_chunk(key, chunks[position as int], position, store) is Ok);
        lemma_success_needs_every_chunk(key, chunks, store, position + 1);
    }
}

/// The bytes that the chunks from `position` on give are as long as their
/// recorded lengths together.
pub proof fn lemma_reassembled_length(
    key: Seq<u8>,
    chunks: Seq<ChunkRecord>,
    store: Map<Seq<char>, Seq<u8>>,
    position: nat,
)
    requires
        position <= chunks.len(),
        spec_reassemble_from(key, chunks, store, position) is Ok,
    ensures
        spec_reassemble_from(key, chunks, store, position)->Ok_0.len() + spec_sizes_total(
            chunks.take(position as int),
        ) == spec_sizes_total(chunks),
    decreases chunks.len() - position,
{
    if position >= chunks.len() {
        assert(chunks.take(position as int) =~= chunks);
    } else {
        assert(spec_open_chunk(key, chunks[position as int], position, store) is Ok);
        lemma_reassembled_length(key, chunks, store, position + 1);
        let longer = chunks.take(position as int + 1);
        assert(longer.drop_last() =~= chunks.take(position as int));
        assert(longer.last() == chunks[position as int]);
    }
}

/// Round trip: reassembling what fragmentation produced, from the store as
/// fragmentation left it, gives the file back, for every file and every
/// chunk size above zero, the empty file included.
pub proof fn lemma_round_trip(
    manifest: ManifestRecord,
    before: Map<Seq<char>, Seq<u8>>,
    after: Map<Seq<char>, Seq<u8>>,
    root: Seq<char>,
    name: Seq<char>,
    data: Seq<u8>,
    chunk_size: nat,
)
    requires
        fragmented(manifest, before, after, root, name, data, chunk_size),
    ensures
        spec_reassemble(manifest, after) == Ok::<Seq<u8>, EngineError>(data),
{
    let key = spec_decode_key(manifest.encryption_key)->Ok_0;
    let chunks = manifest.chunks;
    assert forall|j: int| 0 <= j < chunks.len() implies spec_open_chunk(
        key,
        #[trigger] chunks[j],
        j as nat,
        after,
    ) == Ok::<Seq<u8>, EngineError>(spec_chunk_plain(data, chunk_size, j as nat)) by {
        lemma_sealed_chunk_opens(
            key,
            manifest.file_id,
            root,
            chunks[j],
            j as nat,
            data,
            chunk_size,
            after,
        );
    }
    lemma_chunks_give_tail(key, chunks, after, data, chunk_size, 0);
    lemma_last_chunk_len(data.len(), chunk_size);
    lemma_chunks_adjoin(data.len(), chunk_size, 0);
    assert(data.subrange(0, data.len() as int) =~= data);
}

/// The lengths of the first `count` chunks of a fragmentation add up to
/// where chunk `count` starts.
proof fn lemma_sizes_reach_start(
    key: Seq<u8>,
    file_id: Seq<char>,
    root: Seq<char>,
    chunks: Seq<ChunkRecord>,
    data: Seq<u8>,
    chunk_size: nat,
    store: Map<Seq<char>, Seq<u8>>,
    count: nat,
)
    requires
        chunk_size > 0,
        chunks.len() == spec_chunk_count(data.len(), chunk_size),
        count <= chunks.len(),
        forall|i: int|
            0 <= i < chunks.len() ==> chunk_sealed(
                key,
                file_id,
                root,
                #[trigger] chunks[i],
                i as nat,
                data,
                chunk_size,
                store,
            ),
    ensures
        spec_sizes_total(chunks.take(count as int)) == spec_chunk_start(
            data.len(),
            chunk_size,
            count,
        ),
    decreases count,
{
    if count == 0 {
        lemma_last_chunk_len(data.len(), chunk_size);
        lemma_chunks_adjoin(data.len(), chunk_size, 0);
        assert(chunks.take(0) =~= Seq::<ChunkRecord>::empty());
    } else {
        let last = (count - 1) as nat;
        lemma_sizes_reach_start(key, file_id, root, chunks, data, chunk_size, store, last);
        lemma_chunks_adjoin(data.len(), chunk_size, last);
        let longer = chunks.take(count as int);
        assert(longer.drop_last() =~= chunks.take(last as int));
        assert(longer.last() == chunks[last as int]);
        assert(chunk_sealed(
            key,
            file_id,
            root,
            chunks[last as int],
            last,
            data,
            chunk_size,
            store,
        ));
    }
}

/// The manifest that fragmentation produces agrees with itself: chunk `i`
/// has order `i`, there are `total_chunks` chunks, and their lengths add up
/// to `total_size`. Every chunk but the last is `chunk_size` long.
pub proof fn lemma_fragmented_manifest_consistent(
    manifest: ManifestRecord,
    before: Map<Seq<char>, Seq<u8>>,
    after: Map<Seq<char>, Seq<u8>>,
    root: Seq<char>,
    name: Seq<char>,
    data: Seq<u8>,
    chunk_size: nat,
)
    requires
        fragmented(manifest, before, after, root, name, data, chunk_size),
    ensures
        manifest.consistent(),
        forall|i: int|
            0 <= i < manifest.chunks.len() - 1 ==> (#[trigger] manifest.chunks[i]).size
                == chunk_size,
{
    let key = spec_decode_key(manifest.encryption_key)->Ok_0;
    let chunks = manifest.chunks;
    lemma_sizes_reach_start(
        key,
        manifest.file_id,
        root,
        chunks,
        data,
        chunk_size,
        after,
        chunks.len(),
    );
    assert(chunks.take(chunks.len() as int) =~= chunks);
    assert forall|i: int| 0 <= i < chunks.len() implies (#[trigger] chunks[i]).order == i by {
        assert(chunk_sealed(
            key,
            manifest.file_id,
            root,
            chunks[i],
            i as nat,
            data,
            chunk_size,
            after,
        ));
    }
    assert forall|i: int| 0 <= i < chunks.len() - 1 implies (#[trigger] chunks[i]).size
        == chunk_size by {
        assert(chunk_sealed(
            key,
            manifest.file_id,
            root,
            chunks[i],
            i as nat,
            data,
            chunk_size,
            after,
        ));
        lemma_chunk_bounds(data.len(), chunk_size, i as nat);
    }
}

/// A manifest from which reassembly succeeds agrees with itself, and every
/// chunk it names was found in the store and passed its checks.
pub proof fn lemma_reassembled_manifest_consistent(
    manifest: ManifestRecord,
    store: Map<Seq<char>, Seq<u8>>,
)
    requires
        spec_reassemble(manifest, store) is Ok,
    ensures
        manifest.consistent(),
        forall|i: int|
            0 <= i < manifest.chunks.len() ==> store.contains_key(
                (#[trigger] manifest.chunks[i]).storage_location,
            ) && spec_digest_text(store[manifest.chunks[i].storage_location])
                == manifest.chunks[i].hash,
{
    let key = spec_decode_key(manifest.encryption_key)->Ok_0;
    let chunks = manifest.chunks;
    lemma_success_needs_every_chunk(key, chunks, store, 0);
    lemma_reassembled_length(key, chunks, store, 0);
    assert(chunks.take(0) =~= Seq::<ChunkRecord>::empty());
    assert forall|i: int| 0 <= i < chunks.len() implies (#[trigger] chunks[i]).order == i
        && store.contains_key(chunks[i].storage_location) && spec_digest_text(
        store[chunks[i].storage_location],
    ) == chunks[i].hash by {
        assert(spec_open_chunk(key, chunks[i], i as nat, store) is Ok);
    }
}

/// Tampering is detected: where the stored bytes of one chunk of a
/// fragmentation are replaced, reassembly fails at that chunk, with
/// `IntegrityMismatch` where the digest of the new bytes is not the recorded
/// one and with `AuthenticationFailed` where it is. Left out are new bytes
/// that have the recorded digest and also open under the file's key.
pub proof fn lemma_tampering_detected(
    manifest: ManifestRecord,
    before: Map<Seq<char>, Seq<u8>>,
    after: Map<Seq<char>, Seq<u8>>,
    root: Seq<char>,
    name: Seq<char>,
    data: Seq<u8>,
    chunk_size: nat,
    position: nat,
    tampered: Seq<u8>,
)
    requires
        fragmented(manifest, before, after, root, name, data, chunk_size),
        position < manifest.chunks.len(),
        spec_digest_text(tampered) != manifest.chunks[position as int].hash || spec_unseal(
            spec_decode_key(manifest.encryption_key)->Ok_0,
            tampered,
        ) is Err,
    ensures
        spec_reassemble(
            manifest,
            after.insert(manifest.chunks[position as int].storage_location, tampered),
        ) == Err::<Seq<u8>, EngineError>(
            chunk_error(
                if spec_digest_text(tampered) != manifest.chunks[position as int].hash {
                    ErrorKind::IntegrityMismatch
                } else {
                    ErrorKind::AuthenticationFailed
                },
                position as int,
            ),
        ),
{
    let key = spec_decode_key(manifest.encryption_key)->Ok_0;
    let chunks = manifest.chunks;
    let location = chunks[position as int].storage_location;
    let store = after.insert(location, tampered);
    assert(key.len() == KEY_LEN);
    assert forall|j: int| 0 <= j < position implies spec_open_chunk(
        key,
        #[trigger] chunks[j],
        j as nat,
        store,
    ) is Ok by {
        lemma_sealed_chunk_opens(
            key,
            manifest.file_id,
            root,
            chunks[j],
            j as nat,
            data,
            chunk_size,
            after,
        );
        assert(chunks[j].storage_location != chunks[position as int].storage_location);
        assert(store[chunks[j].storage_location] == after[chunks[j].storage_location]);
    }
    assert(chunk_sealed(
        key,
        manifest.file_id,
        root,
        chunks[position as int],
        position,
        data,
        chunk_size,
        after,
    ));
    assert(store[location] == tampered);
    assert(spec_open_chunk(key, chunks[position as int], position, store) == spec_verify_chunk(
        key,
        chunks[position as int],
        position,
        tampered,
    ));
    lemma_first_failure(key, chunks, store, 0, position);
}

/// Missing chunks are detected: where chunks of a fragmentation are taken
/// out of the store and nothing else is changed, reassembly fails with
/// `StoreReadError` for the first chunk that is missing.
pub proof fn lemma_missing_chunk_detected(
    manifest: ManifestRecord,
    before: Map<Seq<char>, Seq<u8>>,
    after: Map<Seq<char>, Seq<u8>>,
    root: Seq<char>,
    name: Seq<char>,
    data: Seq<u8>,
    chunk_size: nat,
    store: Map<Seq<char>, Seq<u8>>,
    position: nat,
)
    requires
        fragmented(manifest, before, after, root, name, data, chunk_size),
        store.submap_of(after),
        position < manifest.chunks.len(),
        !store.contains_key(manifest.chunks[position as int].storage_location),
        forall|j: int|
            0 <= j < position ==> store.contains_key(
                (#[trigger] manifest.chunks[j]).storage_location,
            ),
    ensures
        spec_reassemble(manifest, store) == Err::<Seq<u8>, EngineError>(
            chunk_error(ErrorKind::StoreReadError, position as int),
        ),
{
    let key = spec_decode_key(manifest.encryption_key)->Ok_0;
    let chunks = manifest.chunks;
    assert forall|j: int| 0 <= j < position implies spec_open_chunk(
        key,
        #[trigger] chunks[j],
        j as nat,
        store,
    ) is Ok by {
        lemma_sealed_chunk_opens(
            key,
            manifest.file_id,
            root,
            chunks[j],
            j as nat,
            data,
            chunk_size,
            after,
        );
        assert(store.dom().contains(chunks[j].storage_location));
        assert(store[chunks[j].storage_location] == after[chunks[j].storage_location]);
    }
    assert(chunk_sealed(
        key,
        manifest.file_id,
        root,
        chunks[position as int],
        position,
        data,
        chunk_size,
        after,
    ));
    lemma_first_failure(key, chunks, store, 0, position);
}

/// A corrupted digest is detected: where the manifest of a fragmentation
/// records another digest for one chunk, reassembly fails with
/// `IntegrityMismatch` for that chunk.
pub proof fn lemma_corrupted_hash_detected(
    manifest: ManifestRecord,
    before: Map<Seq<char>, Seq<u8>>,
    after: Map<Seq<char>, Seq<u8>>,
    root: Seq<char>,
    name: Seq<char>,
    data: Seq<u8>,
    chunk_size: nat,
    position: nat,
    hash: Seq<char>,
)
    requires
        fragmented(manifest, before, after, root, name, data, chunk_size),
        position < manifest.chunks.len(),
        hash != manifest.chunks[position as int].hash,
    ensures
        spec_reassemble(
            ManifestRecord {
                chunks: manifest.chunks.update(
                    position as int,
                    ChunkRecord { hash, ..manifest.chunks[position as int] },
                ),
                ..manifest
            },
            after,
        ) == Err::<Seq<u8>, EngineError>(chunk_error(ErrorKind::IntegrityMismatch, position as int)),
{
    let key = spec_decode_key(manifest.encryption_key)->Ok_0;
    let chunks = manifest.chunks;
    let changed = chunks.update(position as int, ChunkRecord { hash, ..chunks[position as int] });
    assert forall|j: int| 0 <= j < position implies spec_open_chunk(
        key,
        #[trigger] changed[j],
        j as nat,
        after,
    ) is Ok by {
        assert(changed[j] == chunks[j]);
        lemma_sealed_chunk_opens(
            key,
            manifest.file_id,
            root,
            chunks[j],
            j as nat,
            data,
            chunk_size,
            after,
        );
    }
    assert(chunk_sealed(
        key,
        manifest.file_id,
        root,
        chunks[position as int],
        position,
        data,
        chunk_size,
        after,
    ));
    lemma_first_failure(key, changed, after, 0, position);
}

/// Two chunks sealed under different nonces have different stored bytes,
/// whatever their plaintexts: the stored bytes begin with the nonce.
pub proof fn lemma_nonce_shows_in_stored_bytes(
    nonce_a: Seq<u8>,
    sealed_a: Seq<u8>,
    nonce_b: Seq<u8>,
    sealed_b: Seq<u8>,
)
    requires
        nonce_a.len() == NONCE_LEN,
        nonce_b.len() == NONCE_LEN,
        nonce_a != nonce_b,
    ensures
        spec_stored_form(nonce_a, sealed_a) != spec_stored_form(nonce_b, sealed_b),
{
    let a = spec_stored_form(nonce_a, sealed_a);
    let b = spec_stored_form(nonce_b, sealed_b);
    assert(a.take(NONCE_LEN as int) =~= nonce_a);
    assert(b.take(NONCE_LEN as int) =~= nonce_b);
}

} // verus!
