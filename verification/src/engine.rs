//! The fragmentation engine: it turns a file into sealed chunks and a
//! manifest, and a manifest and its chunks back into the file.
//!
//! A chunk is stored as its 12-byte nonce followed by the AES-256-GCM
//! ciphertext and tag of its plaintext. The manifest records, for each chunk,
//! the SHA-256 digest of those stored bytes.

use vstd::prelude::*;
use vstd::slice::{slice_subrange, slice_to_vec};
use vstd::string::StringExecFns;
use crate::chunker::{
    chunk_count, chunk_range, lemma_chunk_bounds, spec_chunk_count, spec_chunk_len,
    spec_chunk_offset,
};
use crate::cipher::{
    base64_standard_encode, decode_key, decrypt, encode_key, encrypt, spec_decode_key,
    spec_decrypt, spec_encrypt, KEY_LEN, MAX_MESSAGE_LEN, NONCE_LEN, TAG_LEN,
};
use crate::error::{chunk_error, plain_error, same_outcome, EngineError, ErrorKind};
use crate::hasher::{digest_text, spec_digest_text};
use crate::ident::{is_identifier, new_identifier};
use crate::laws::{lemma_fragmented_manifest_consistent, lemma_round_trip};
use crate::manifest::{chunk_records, ChunkInfo, ChunkRecord, ManifestRecord, Metadata};
use crate::random::RandomSource;
use crate::store::{spec_assigned_location, ChunkStore};

verus! {

/// What opening the stored bytes of a chunk gives: the bytes after the nonce,
/// opened under the nonce in front of them. Bytes too short to hold a nonce
/// fail authentication.
pub open spec fn spec_unseal(key: Seq<u8>, stored: Seq<u8>) -> Result<Seq<u8>, EngineError> {
    if stored.len() < NONCE_LEN {
        Err(plain_error(ErrorKind::AuthenticationFailed))
    } else {
        spec_decrypt(key, stored.take(NONCE_LEN as int), stored.skip(NONCE_LEN as int))
    }
}

/// What checking and opening the stored bytes of the chunk at `position`
/// gives: `IntegrityMismatch` where their digest is not the recorded one,
/// then what opening them gives, then `SizeMismatch` where the plaintext has
/// not the recorded length.
pub open spec fn spec_verify_chunk(
    key: Seq<u8>,
    chunk: ChunkRecord,
    position: nat,
    stored: Seq<u8>,
) -> Result<Seq<u8>, EngineError> {
    if spec_digest_text(stored) != chunk.hash {
        Err(chunk_error(ErrorKind::IntegrityMismatch, position as int))
    } else {
        match spec_unseal(key, stored) {
            Err(e) => Err(chunk_error(e.kind, position as int)),
            Ok(plain) => if plain.len() != chunk.size {
                Err(chunk_error(ErrorKind::SizeMismatch, position as int))
            } else {
                Ok(plain)
            },
        }
    }
}

/// What fetching, checking and opening the chunk at `position` gives:
/// `SizeMismatch` where the chunk does not record that position,
/// `StoreReadError` where the store holds nothing at its location, then what
/// checking and opening the stored bytes gives.
pub open spec fn spec_open_chunk(
    key: Seq<u8>,
    chunk: ChunkRecord,
    position: nat,
    store: Map<Seq<char>, Seq<u8>>,
) -> Result<Seq<u8>, EngineError> {
    if chunk.order != position {
        Err(chunk_error(ErrorKind::SizeMismatch, position as int))
    } else if !store.contains_key(chunk.storage_location) {
        Err(chunk_error(ErrorKind::StoreReadError, position as int))
    } else {
        spec_verify_chunk(key, chunk, position, store[chunk.storage_location])
    }
}

/// The plaintexts of the chunks from `position` on, one after the other, or
/// the error of the first chunk that fails.
pub open spec fn spec_reassemble_from(
    key: Seq<u8>,
    chunks: Seq<ChunkRecord>,
    store: Map<Seq<char>, Seq<u8>>,
    position: nat,
) -> Result<Seq<u8>, EngineError>
    decreases chunks.len() - position,
{
    if position >= chunks.len() {
        Ok(Seq::empty())
    } else {
        match spec_open_chunk(key, chunks[position as int], position, store) {
            Err(e) => Err(e),
            Ok(plain) => spec_prepend(
                plain,
                spec_reassemble_from(key, chunks, store, position + 1),
            ),
        }
    }
}

/// `front` put before the bytes of an outcome; an error stays as it is.
pub open spec fn spec_prepend(front: Seq<u8>, rest: Result<Seq<u8>, EngineError>) -> Result<
    Seq<u8>,
    EngineError,
> {
    match rest {
        Ok(bytes) => Ok(front + bytes),
        Err(e) => Err(e),
    }
}

/// What reassembly gives: `CipherError` where the manifest's key text is no
/// key, `SizeMismatch` where the manifest does not count its chunks right,
/// the error of the first chunk that fails, `SizeMismatch` where the
/// plaintexts together have not the recorded length, else the plaintexts one
/// after the other.
pub open spec fn spec_reassemble(manifest: ManifestRecord, store: Map<Seq<char>, Seq<u8>>) -> Result<
    Seq<u8>,
    EngineError,
> {
    match spec_decode_key(manifest.encryption_key) {
        Err(e) => Err(e),
        Ok(key) => if manifest.total_chunks != manifest.chunks.len() {
            Err(plain_error(ErrorKind::SizeMismatch))
        } else {
            match spec_reassemble_from(key, manifest.chunks, store, 0) {
                Err(e) => Err(e),
                Ok(data) => if data.len() != manifest.total_size {
                    Err(plain_error(ErrorKind::SizeMismatch))
                } else {
                    Ok(data)
                },
            }
        },
    }
}

/// Opens the stored bytes of a chunk: splits off the nonce and decrypts the
/// rest under it.
pub fn unseal_chunk(key: &[u8], stored: &[u8]) -> (res: Result<Vec<u8>, EngineError>)
    ensures
        same_outcome(res, spec_unseal(key@, stored@)),
{
    if stored.len() < NONCE_LEN {
        return Err(EngineError::new(ErrorKind::AuthenticationFailed));
    }
    let nonce = slice_subrange(stored, 0, NONCE_LEN);
    let sealed = slice_subrange(stored, NONCE_LEN, stored.len());
    decrypt(key, nonce, sealed)
}

/// Checks the stored bytes of the chunk at `position` against the manifest
/// and opens them.
pub fn verify_chunk(key: &[u8], chunk: &ChunkInfo, position: usize, stored: &[u8]) -> (res: Result<
    Vec<u8>,
    EngineError,
>)
    ensures
        same_outcome(res, spec_verify_chunk(key@, chunk@, position as nat, stored@)),
{
    let text = digest_text(stored);
    if !(text == chunk.hash) {
        return Err(EngineError::at_chunk(ErrorKind::IntegrityMismatch, position));
    }
    match unseal_chunk(key, stored) {
        Err(e) => Err(EngineError::at_chunk(e.kind, position)),
        Ok(plain) => {
            if plain.len() != chunk.size {
                Err(EngineError::at_chunk(ErrorKind::SizeMismatch, position))
            } else {
                Ok(plain)
            }
        },
    }
}

/// Fetches the chunk at `position` from the store, checks it and opens it.
pub fn open_chunk(key: &[u8], chunk: &ChunkInfo, position: usize, store: &ChunkStore) -> (res:
    Result<Vec<u8>, EngineError>)
    ensures
        same_outcome(res, spec_open_chunk(key@, chunk@, position as nat, store@)),
{
    if chunk.order != position {
        return Err(EngineError::at_chunk(ErrorKind::SizeMismatch, position));
    }
    match store.get(chunk.storage_location.as_str()) {
        Err(_) => Err(EngineError::at_chunk(ErrorKind::StoreReadError, position)),
        Ok(stored) => verify_chunk(key, chunk, position, stored.as_slice()),
    }
}

/// Puts a file together again from its manifest and the chunks in `store`.
/// Every chunk is fetched, checked against its recorded digest, opened and
/// checked against its recorded length, in the order of the file; the first
/// failure ends the run, and no plaintext is returned unless every chunk
/// passed.
pub fn reassemble(manifest: &Metadata, store: &ChunkStore) -> (res: Result<Vec<u8>, EngineError>)
    ensures
        same_outcome(res, spec_reassemble(manifest@, store@)),
{
    let key = match decode_key(manifest.encryption_key.as_str()) {
        Err(e) => {
            return Err(e);
        },
        Ok(key) => key,
    };
    if manifest.total_chunks != manifest.chunks.len() {
        return Err(EngineError::new(ErrorKind::SizeMismatch));
    }
    let ghost records = manifest@.chunks;
    let ghost whole = spec_reassemble_from(key@, records, store@, 0);
    let mut data: Vec<u8> = Vec::new();
    let mut position: usize = 0;
    proof {
        assert(Seq::<u8>::empty() + Seq::<u8>::empty() =~= Seq::<u8>::empty());
        match whole {
            Ok(bytes) => {
                assert(Seq::<u8>::empty() + bytes =~= bytes);
            },
            Err(_) => {},
        }
    }
    while position < manifest.chunks.len()
        invariant
            position <= manifest.chunks@.len(),
            records == manifest@.chunks,
            manifest@.total_chunks == records.len(),
            spec_decode_key(manifest@.encryption_key) == Ok::<Seq<u8>, EngineError>(key@),
            whole == spec_reassemble_from(key@, records, store@, 0),
            whole == spec_prepend(
                data@,
                spec_reassemble_from(key@, records, store@, position as nat),
            ),
        decreases manifest.chunks@.len() - position,
    {
        let chunk = &manifest.chunks[position];
        proof {
            assert(records[position as int] == chunk@);
        }
        match open_chunk(key.as_slice(), chunk, position, store) {
            Err(e) => {
                return Err(e);
            },
            Ok(plain) => {
                let mut plain = plain;
                proof {
                    let rest = spec_reassemble_from(key@, records, store@, (position + 1) as nat);
                    match rest {
                        Ok(bytes) => {
                            assert(data@ + (plain@ + bytes) =~= (data@ + plain@) + bytes);
                        },
                        Err(_) => {},
                    }
                }
                data.append(&mut plain);
            },
        }
        position = position + 1;
    }
    proof {
        assert(data@ + Seq::<u8>::empty() =~= data@);
    }
    if data.len() != manifest.total_size {
        Err(EngineError::new(ErrorKind::SizeMismatch))
    } else {
        Ok(data)
    }
}

/// The stored bytes of a chunk: its nonce, then its ciphertext and tag.
pub open spec fn spec_stored_form(nonce: Seq<u8>, sealed: Seq<u8>) -> Seq<u8> {
    nonce + sealed
}

/// What sealing a chunk under a given nonce gives: the stored bytes, or the
/// error of the cipher.
pub open spec fn spec_seal_chunk(key: Seq<u8>, nonce: Seq<u8>, plain: Seq<u8>) -> Result<
    Seq<u8>,
    EngineError,
> {
    match spec_encrypt(key, nonce, plain) {
        Ok(sealed) => Ok(spec_stored_form(nonce, sealed)),
        Err(e) => Err(e),
    }
}

/// Whether `stored` is `plain` sealed under `key` and the nonce that
/// `stored` begins with, so that opening it gives `plain` back.
pub open spec fn is_sealed_form(key: Seq<u8>, plain: Seq<u8>, stored: Seq<u8>) -> bool {
    &&& stored.len() == NONCE_LEN + plain.len() + TAG_LEN
    &&& spec_seal_chunk(key, stored.take(NONCE_LEN as int), plain) == Ok::<Seq<u8>, EngineError>(
        stored,
    )
    &&& spec_unseal(key, stored) == Ok::<Seq<u8>, EngineError>(plain)
}

/// The hint under which a chunk is handed to the store: the file's
/// identifier, a slash, the chunk's identifier.
pub open spec fn spec_location_hint(file_id: Seq<char>, chunk_id: Seq<char>) -> Seq<char> {
    file_id + seq!['/'] + chunk_id
}

/// The plaintext of the chunk at `position` of a file.
pub open spec fn spec_chunk_plain(data: Seq<u8>, chunk_size: nat, position: nat) -> Seq<u8> {
    data.subrange(
        spec_chunk_offset(chunk_size, position) as int,
        (spec_chunk_offset(chunk_size, position) + spec_chunk_len(
            data.len(),
            chunk_size,
            position,
        )) as int,
    )
}

/// Whether `chunk` records the chunk at `position` of the file `data`, sealed
/// under `key` and kept in `store`.
pub open spec fn chunk_sealed(
    key: Seq<u8>,
    file_id: Seq<char>,
    root: Seq<char>,
    chunk: ChunkRecord,
    position: nat,
    data: Seq<u8>,
    chunk_size: nat,
    store: Map<Seq<char>, Seq<u8>>,
) -> bool {
    &&& chunk.order == position
    &&& chunk.size == spec_chunk_len(data.len(), chunk_size, position)
    &&& is_identifier(chunk.chunk_id)
    &&& chunk.storage_location == spec_assigned_location(
        root,
        spec_location_hint(file_id, chunk.chunk_id),
    )
    &&& store.contains_key(chunk.storage_location)
    &&& chunk.hash == spec_digest_text(store[chunk.storage_location])
    &&& is_sealed_form(key, spec_chunk_plain(data, chunk_size, position), store[chunk.storage_location])
}

/// Whether `chunks` record the first chunks of the file `data`, each sealed
/// under `key` and written to a location of its own that `before` did not
/// hold, and `after` is `before` with those chunks added.
pub open spec fn chunks_written(
    key: Seq<u8>,
    file_id: Seq<char>,
    root: Seq<char>,
    chunks: Seq<ChunkRecord>,
    data: Seq<u8>,
    chunk_size: nat,
    before: Map<Seq<char>, Seq<u8>>,
    after: Map<Seq<char>, Seq<u8>>,
) -> bool {
    &&& forall|i: int|
        0 <= i < chunks.len() ==> chunk_sealed(
            key,
            file_id,
            root,
            #[trigger] chunks[i],
            i as nat,
            data,
            chunk_size,
            after,
        )
    &&& forall|i: int, j: int|
        0 <= i < j < chunks.len() ==> (#[trigger] chunks[i]).storage_location != (
        #[trigger] chunks[j]).storage_location
    &&& forall|i: int|
        0 <= i < chunks.len() ==> !before.contains_key((#[trigger] chunks[i]).storage_location)
    &&& before.submap_of(after)
    &&& forall|location: Seq<char>| #[trigger]
        after.contains_key(location) ==> before.contains_key(location) || exists|i: int|
            0 <= i < chunks.len() && (#[trigger] chunks[i]).storage_location == location
}

/// Whether `manifest` and the store `after` are a fragmentation of the file
/// `data`, named `name`, into chunks of `chunk_size` bytes, written to a
/// store that held `before` and assigns locations under `root`.
pub open spec fn fragmented(
    manifest: ManifestRecord,
    before: Map<Seq<char>, Seq<u8>>,
    after: Map<Seq<char>, Seq<u8>>,
    root: Seq<char>,
    name: Seq<char>,
    data: Seq<u8>,
    chunk_size: nat,
) -> bool {
    &&& chunk_size > 0
    &&& manifest.original_name == name
    &&& is_identifier(manifest.file_id)
    &&& manifest.total_size == data.len()
    &&& manifest.chunk_size == chunk_size
    &&& manifest.total_chunks == spec_chunk_count(data.len(), chunk_size)
    &&& manifest.chunks.len() == manifest.total_chunks
    &&& manifest.nonce == Seq::<char>::empty()
    &&& spec_decode_key(manifest.encryption_key) matches Ok(key)
    &&& manifest.encryption_key == base64_standard_encode(key)
    &&& chunks_written(
        key,
        manifest.file_id,
        root,
        manifest.chunks,
        data,
        chunk_size,
        before,
        after,
    )
}

/// Whether a file cut into chunks of `chunk_size` bytes has a chunk too long
/// for the cipher.
pub open spec fn chunk_too_long(total_size: nat, chunk_size: nat) -> bool {
    total_size > MAX_MESSAGE_LEN && chunk_size > MAX_MESSAGE_LEN
}

/// Stored bytes made of a nonce and what the cipher gave under it open to
/// the plaintext again.
pub proof fn lemma_stored_form_opens(key: Seq<u8>, nonce: Seq<u8>, plain: Seq<u8>, sealed: Seq<u8>)
    requires
        nonce.len() == NONCE_LEN,
        sealed.len() == plain.len() + TAG_LEN,
        spec_encrypt(key, nonce, plain) == Ok::<Seq<u8>, EngineError>(sealed),
        spec_decrypt(key, nonce, sealed) == Ok::<Seq<u8>, EngineError>(plain),
    ensures
        is_sealed_form(key, plain, spec_stored_form(nonce, sealed)),
{
    let stored = spec_stored_form(nonce, sealed);
    assert(stored.take(NONCE_LEN as int) =~= nonce);
    assert(stored.skip(NONCE_LEN as int) =~= sealed);
}

/// Whether a run of fragmentation stopped at the chunk at `position` because
/// the store refused the write: the chunks before it were sealed under `key`
/// and written, and the location assigned to the chunk, the one of
/// `chunk_id`, was taken.
pub open spec fn write_refused(
    key: Seq<u8>,
    file_id: Seq<char>,
    chunk_id: Seq<char>,
    chunks: Seq<ChunkRecord>,
    root: Seq<char>,
    data: Seq<u8>,
    chunk_size: nat,
    before: Map<Seq<char>, Seq<u8>>,
    after: Map<Seq<char>, Seq<u8>>,
) -> bool {
    &&& key.len() == KEY_LEN
    &&& is_identifier(file_id)
    &&& is_identifier(chunk_id)
    &&& chunks_written(key, file_id, root, chunks, data, chunk_size, before, after)
    &&& after.contains_key(
        spec_assigned_location(root, spec_location_hint(file_id, chunk_id)),
    )
}

/// Whether `after` is a store that a run of fragmentation leaves behind when
/// the store refuses the write of the chunk at `position`, for some key and
/// identifiers: the chunks before that one are written, nothing else is.
pub open spec fn stopped_at(
    position: nat,
    root: Seq<char>,
    data: Seq<u8>,
    chunk_size: nat,
    before: Map<Seq<char>, Seq<u8>>,
    after: Map<Seq<char>, Seq<u8>>,
) -> bool {
    exists|key: Seq<u8>, file_id: Seq<char>, chunk_id: Seq<char>, chunks: Seq<ChunkRecord>|
        chunks.len() == position && #[trigger] write_refused(
            key,
            file_id,
            chunk_id,
            chunks,
            root,
            data,
            chunk_size,
            before,
            after,
        )
}

/// How fragmentation may fail: with `InvalidConfiguration` for a chunk size
/// of zero and with `CipherError` where a chunk would be too long for the
/// cipher, the store untouched in both cases; else with `StoreWriteError`
/// for the chunk whose write the store refused, the chunks before it
/// written.
pub open spec fn spec_fragment_failure(
    e: EngineError,
    root: Seq<char>,
    data: Seq<u8>,
    chunk_size: nat,
    before: Map<Seq<char>, Seq<u8>>,
    after: Map<Seq<char>, Seq<u8>>,
) -> bool {
    if chunk_size == 0 {
        e == plain_error(ErrorKind::InvalidConfiguration) && after == before
    } else if chunk_too_long(data.len(), chunk_size) {
        e == plain_error(ErrorKind::CipherError) && after == before
    } else {
        exists|position: int|
            0 <= position < spec_chunk_count(data.len(), chunk_size) && e == #[trigger] chunk_error(
                ErrorKind::StoreWriteError,
                position,
            ) && stopped_at(position as nat, root, data, chunk_size, before, after)
    }
}

/// Writing one more chunk to a free location keeps what was written before.
proof fn lemma_chunk_added(
    key: Seq<u8>,
    file_id: Seq<char>,
    root: Seq<char>,
    chunks: Seq<ChunkRecord>,
    chunk: ChunkRecord,
    data: Seq<u8>,
    chunk_size: nat,
    before: Map<Seq<char>, Seq<u8>>,
    mid: Map<Seq<char>, Seq<u8>>,
    stored: Seq<u8>,
)
    requires
        chunks_written(key, file_id, root, chunks, data, chunk_size, before, mid),
        !mid.contains_key(chunk.storage_location),
        chunk_sealed(
            key,
            file_id,
            root,
            chunk,
            chunks.len(),
            data,
            chunk_size,
            mid.insert(chunk.storage_location, stored),
        ),
    ensures
        chunks_written(
            key,
            file_id,
            root,
            chunks.push(chunk),
            data,
            chunk_size,
            before,
            mid.insert(chunk.storage_location, stored),
        ),
{
    let location = chunk.storage_location;
    let after = mid.insert(location, stored);
    let longer = chunks.push(chunk);
    assert forall|i: int| 0 <= i < longer.len() implies chunk_sealed(
        key,
        file_id,
        root,
        #[trigger] longer[i],
        i as nat,
        data,
        chunk_size,
        after,
    ) by {
        if i < chunks.len() {
            assert(longer[i] == chunks[i]);
            assert(chunk_sealed(key, file_id, root, chunks[i], i as nat, data, chunk_size, mid));
            assert(mid.contains_key(chunks[i].storage_location));
            assert(after[chunks[i].storage_location] == mid[chunks[i].storage_location]);
        }
    }
    assert forall|i: int, j: int| 0 <= i < j < longer.len() implies (#[trigger] longer[i]).storage_location
        != (#[trigger] longer[j]).storage_location by {
        assert(longer[i] == chunks[i]);
        assert(chunk_sealed(key, file_id, root, chunks[i], i as nat, data, chunk_size, mid));
        if j < chunks.len() {
            assert(longer[j] == chunks[j]);
        }
    }
    assert forall|i: int| 0 <= i < longer.len() implies !before.contains_key(
        (#[trigger] longer[i]).storage_location,
    ) by {
        if i < chunks.len() {
            assert(longer[i] == chunks[i]);
        } else {
            assert(before.dom().subset_of(mid.dom()));
        }
    }
    assert(before.submap_of(after)) by {
        assert forall|k: Seq<char>| #[trigger] before.dom().contains(k) implies after.dom().contains(k)
            && before[k] == after[k] by {
            assert(mid.dom().contains(k));
            assert(before[k] == mid[k]);
        }
    }
    assert forall|k: Seq<char>| #[trigger] after.contains_key(k) implies before.contains_key(k)
        || exists|i: int| 0 <= i < longer.len() && (#[trigger] longer[i]).storage_location == k by {
        if k == location {
            assert(longer[chunks.len() as int].storage_location == k);
        } else {
            assert(mid.contains_key(k));
            if !before.contains_key(k) {
                let i = choose|i: int|
                    0 <= i < chunks.len() && (#[trigger] chunks[i]).storage_location == k;
                assert(longer[i].storage_location == k);
            }
        }
    }
}

/// Joins a nonce and the sealed bytes into the stored bytes of a chunk.
pub fn stored_form(nonce: &[u8], sealed: &[u8]) -> (stored: Vec<u8>)
    ensures
        stored@ == spec_stored_form(nonce@, sealed@),
{
    let mut stored = slice_to_vec(nonce);
    let mut tail = slice_to_vec(sealed);
    stored.append(&mut tail);
    stored
}

/// Seals the plaintext of a chunk under `key` and `nonce` and returns its
/// stored bytes.
pub fn seal_chunk(key: &[u8], nonce: &[u8], plain: &[u8]) -> (res: Result<Vec<u8>, EngineError>)
    ensures
        same_outcome(res, spec_seal_chunk(key@, nonce@, plain@)),
        res matches Ok(stored) ==> is_sealed_form(key@, plain@, stored@),
{
    match encrypt(key, nonce, plain) {
        Err(e) => Err(e),
        Ok(sealed) => {
            proof {
                lemma_stored_form_opens(key@, nonce@, plain@, sealed@);
            }
            Ok(stored_form(nonce, sealed.as_slice()))
        },
    }
}

/// The hint under which a chunk is handed to the store.
pub fn location_hint(file_id: &str, chunk_id: &str) -> (hint: String)
    ensures
        hint@ == spec_location_hint(file_id@, chunk_id@),
{
    let mut hint = String::from_str(file_id);
    hint.append("/");
    hint.append(chunk_id);
    proof {
        reveal_strlit("/");
        assert("/"@ =~= seq!['/']);
    }
    hint
}

/// The service that fragments files into chunks of one fixed size.
pub struct EncryptionService {
    chunk_size: usize,
}

impl EncryptionService {
    /// The nominal chunk length of this service.
    pub closed spec fn chunk_size_view(&self) -> nat {
        self.chunk_size as nat
    }

    /// A service that cuts files into chunks of `chunk_size` bytes. A chunk
    /// size of zero is accepted here and refused when a file is fragmented.
    pub fn new(chunk_size: usize) -> (service: EncryptionService)
        ensures
            service.chunk_size_view() == chunk_size,
    {
        EncryptionService { chunk_size }
    }

    /// The nominal chunk length of this service.
    pub fn chunk_size(&self) -> (size: usize)
        ensures
            size == self.chunk_size_view(),
    {
        self.chunk_size
    }

    /// Encrypts `data` under `key` and a nonce drawn from `source`, and
    /// returns ciphertext with tag, and the nonce. It fails with
    /// `CipherError` exactly where the key is not 32 bytes or the data are
    /// too long for the cipher.
    pub fn encrypt_data<R: RandomSource>(&self, data: &[u8], key: &[u8], source: &mut R) -> (res:
        Result<(Vec<u8>, Vec<u8>), EngineError>)
        ensures
            res is Err <==> key@.len() != KEY_LEN || data@.len() > MAX_MESSAGE_LEN,
            res matches Err(e) ==> e == plain_error(ErrorKind::CipherError),
            res matches Ok((sealed, nonce)) ==> {
                &&& nonce@.len() == NONCE_LEN
                &&& sealed@.len() == data@.len() + TAG_LEN
                &&& spec_encrypt(key@, nonce@, data@) == Ok::<Seq<u8>, EngineError>(sealed@)
                &&& spec_decrypt(key@, nonce@, sealed@) == Ok::<Seq<u8>, EngineError>(data@)
            },
    {
        let nonce = source.fill(NONCE_LEN);
        match encrypt(key, nonce.as_slice(), data) {
            Err(e) => Err(e),
            Ok(sealed) => Ok((sealed, nonce)),
        }
    }

    /// Fragments the file `data`, named `name`: cuts it into chunks, seals
    /// each chunk under a fresh key for the file and a fresh nonce for the
    /// chunk, writes the stored bytes to `store`, and returns the manifest.
    ///
    /// Key, nonces and identifiers are drawn from `source`. The run fails as a
    /// whole on the first error. A chunk size of zero and a chunk too long for
    /// the cipher are refused before anything is written. Where the store
    /// refuses a write, the chunks written before it stay in the store.
    pub fn encrypt_fragment_file<R: RandomSource>(
        &self,
        name: &str,
        data: &[u8],
        store: &mut ChunkStore,
        source: &mut R,
    ) -> (res: Result<Metadata, EngineError>)
        ensures
            final(store).root_view() == old(store).root_view(),
            old(store)@.submap_of(final(store)@),
            self.chunk_size_view() == 0 || chunk_too_long(data@.len(), self.chunk_size_view())
                ==> res is Err,
            res matches Err(e) ==> spec_fragment_failure(
                e,
                old(store).root_view(),
                data@,
                self.chunk_size_view(),
                old(store)@,
                final(store)@,
            ),
            res matches Ok(manifest) ==> fragmented(
                manifest@,
                old(store)@,
                final(store)@,
                old(store).root_view(),
                name@,
                data@,
                self.chunk_size_view(),
            ),
            res matches Ok(manifest) ==> manifest@.consistent(),
            res matches Ok(manifest) ==> spec_reassemble(manifest@, final(store)@) == Ok::<
                Seq<u8>,
                EngineError,
            >(data@),
    {
        let chunk_size: usize = self.chunk_size;
        let total_size: usize = data.len();
        let count: usize = match chunk_count(total_size, chunk_size) {
            Err(e) => {
                return Err(e);
            },
            Ok(count) => count,
        };
        if total_size as u64 > MAX_MESSAGE_LEN && chunk_size as u64 > MAX_MESSAGE_LEN {
            return Err(EngineError::new(ErrorKind::CipherError));
        }
        let key = source.fill(KEY_LEN);
        let key_text = match encode_key(key.as_slice()) {
            Err(e) => {
                return Err(e);
            },
            Ok(text) => text,
        };
        let file_id = new_identifier(source);
        let ghost root = store.root_view();
        let ghost before = store@;
        let mut chunks: Vec<ChunkInfo> = Vec::new();
        let mut position: usize = 0;
        proof {
            assert(chunk_records(chunks@) =~= Seq::<ChunkRecord>::empty());
        }
        while position < count
            invariant
                chunk_size > 0,
                chunk_size == self.chunk_size_view(),
                !chunk_too_long(data@.len(), chunk_size as nat),
                total_size == data@.len(),
                count == spec_chunk_count(total_size as nat, chunk_size as nat),
                position <= count,
                chunks@.len() == position,
                key@.len() == KEY_LEN,
                is_identifier(file_id@),
                root == old(store).root_view(),
                before == old(store)@,
                store.root_view() == root,
                chunks_written(
                    key@,
                    file_id@,
                    root,
                    chunk_records(chunks@),
                    data@,
                    chunk_size as nat,
                    before,
                    store@,
                ),
            decreases count - position,
        {
            proof {
                lemma_chunk_bounds(total_size as nat, chunk_size as nat, position as nat);
            }
            let (offset, length) = match chunk_range(total_size, chunk_size, position) {
                None => {
                    return Err(EngineError::at_chunk(ErrorKind::SizeMismatch, position));
                },
                Some(range) => range,
            };
            let plain = slice_subrange(data, offset, offset + length);
            let (sealed, nonce) = match self.encrypt_data(plain, key.as_slice(), source) {
                Err(e) => {
                    return Err(e);
                },
                Ok(pair) => pair,
            };
            let stored = stored_form(nonce.as_slice(), sealed.as_slice());
            let hash = digest_text(stored.as_slice());
            let chunk_id = new_identifier(source);
            let hint = location_hint(file_id.as_str(), chunk_id.as_str());
            let ghost stored_bytes = stored@;
            let ghost mid = store@;
            match store.put(hint.as_str(), stored) {
                Err(_) => {
                    proof {
                        assert(write_refused(
                            key@,
                            file_id@,
                            chunk_id@,
                            chunk_records(chunks@),
                            root,
                            data@,
                            chunk_size as nat,
                            before,
                            store@,
                        ));
                        assert(stopped_at(
                            position as nat,
                            root,
                            data@,
                            chunk_size as nat,
                            before,
                            store@,
                        ));
                    }
                    return Err(EngineError::at_chunk(ErrorKind::StoreWriteError, position));
                },
                Ok(location) => {
                    let chunk = ChunkInfo {
                        chunk_id,
                        order: position,
                        size: length,
                        hash,
                        storage_location: location,
                    };
                    proof {
                        lemma_stored_form_opens(key@, nonce@, plain@, sealed@);
                        lemma_chunk_added(
                            key@,
                            file_id@,
                            root,
                            chunk_records(chunks@),
                            chunk@,
                            data@,
                            chunk_size as nat,
                            before,
                            mid,
                            stored_bytes,
                        );
                        assert(chunk_records(chunks@.push(chunk)) =~= chunk_records(chunks@).push(
                            chunk@,
                        ));
                    }
                    chunks.push(chunk);
                },
            }
            position = position + 1;
        }
        let manifest = Metadata {
            original_name: String::from_str(name),
            file_id,
            total_size,
            total_chunks: count,
            chunk_size,
            encryption_key: key_text,
            nonce: String::new(),
            chunks,
        };
        proof {
            lemma_fragmented_manifest_consistent(
                manifest@,
                before,
                store@,
                root,
                name@,
                data@,
                chunk_size as nat,
            );
            lemma_round_trip(manifest@, before, store@, root, name@, data@, chunk_size as nat);
        }
        Ok(manifest)
    }

    /// Puts a file together again from its manifest and the chunks in
    /// `store`; see `reassemble`.
    pub fn decrypt_reassemble_file(&self, manifest: &Metadata, store: &ChunkStore) -> (res: Result<
        Vec<u8>,
        EngineError,
    >)
        ensures
            same_outcome(res, spec_reassemble(manifest@, store@)),
    {
        reassemble(manifest, store)
    }
}

/// Fragments the file `data`, named `name`, into chunks of `chunk_size`
/// bytes; see `EncryptionService::encrypt_fragment_file`.
pub fn fragment<R: RandomSource>(
    name: &str,
    data: &[u8],
    chunk_size: usize,
    store: &mut ChunkStore,
    source: &mut R,
) -> (res: Result<Metadata, EngineError>)
    ensures
        final(store).root_view() == old(store).root_view(),
        old(store)@.submap_of(final(store)@),
        chunk_size == 0 || chunk_too_long(data@.len(), chunk_size as nat) ==> res is Err,
        res matches Err(e) ==> spec_fragment_failure(
            e,
            old(store).root_view(),
            data@,
            chunk_size as nat,
            old(store)@,
            final(store)@,
        ),
        res matches Ok(manifest) ==> fragmented(
            manifest@,
            old(store)@,
            final(store)@,
            old(store).root_view(),
            name@,
            data@,
            chunk_size as nat,
        ),
        res matches Ok(manifest) ==> manifest@.consistent(),
        res matches Ok(manifest) ==> spec_reassemble(manifest@, final(store)@) == Ok::<
            Seq<u8>,
            EngineError,
        >(data@),
{
    let service = EncryptionService::new(chunk_size);
    service.encrypt_fragment_file(name, data, store, source)
}

} // verus!
