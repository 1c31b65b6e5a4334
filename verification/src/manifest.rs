//! The manifest: the record of how one file was cut, sealed and stored, from
//! which the file can be put together again.

use vstd::prelude::*;

verus! {

/// One chunk of a file, as the manifest records it.
#[derive(Clone, Debug)]
pub struct ChunkInfo {
    /// Identifier of the chunk.
    pub chunk_id: String,
    /// Position of the chunk in the file, counted from zero.
    pub order: usize,
    /// Length of the chunk's plaintext in bytes.
    pub size: usize,
    /// Digest of the chunk's stored bytes, as hexadecimal text.
    pub hash: String,
    /// Where the store keeps the chunk's bytes.
    pub storage_location: String,
}

/// The manifest of one fragmented file.
#[derive(Clone, Debug)]
pub struct Metadata {
    /// Name of the source file; it is carried along and never looked up.
    pub original_name: String,
    /// Identifier of this fragmentation of the file.
    pub file_id: String,
    /// Length of the file's plaintext in bytes.
    pub total_size: usize,
    /// Number of chunks.
    pub total_chunks: usize,
    /// Nominal length of a chunk's plaintext.
    pub chunk_size: usize,
    /// The file's key, as base64 text.
    pub encryption_key: String,
    /// Kept for a file-wide nonce, which is not in use: every chunk carries
    /// its own nonce in front of its stored bytes, and this field is empty.
    pub nonce: String,
    /// The chunks, in the order of the file.
    pub chunks: Vec<ChunkInfo>,
}

/// What a `ChunkInfo` says, as plain values.
pub struct ChunkRecord {
    pub chunk_id: Seq<char>,
    pub order: nat,
    pub size: nat,
    pub hash: Seq<char>,
    pub storage_location: Seq<char>,
}

/// What a `Metadata` says, as plain values.
pub struct ManifestRecord {
    pub original_name: Seq<char>,
    pub file_id: Seq<char>,
    pub total_size: nat,
    pub total_chunks: nat,
    pub chunk_size: nat,
    pub encryption_key: Seq<char>,
    pub nonce: Seq<char>,
    pub chunks: Seq<ChunkRecord>,
}

impl View for ChunkInfo {
    type V = ChunkRecord;

    open spec fn view(&self) -> ChunkRecord {
        ChunkRecord {
            chunk_id: self.chunk_id@,
            order: self.order as nat,
            size: self.size as nat,
            hash: self.hash@,
            storage_location: self.storage_location@,
        }
    }
}

/// The records of a list of chunks.
pub open spec fn chunk_records(chunks: Seq<ChunkInfo>) -> Seq<ChunkRecord> {
    Seq::new(chunks.len(), |i: int| chunks[i]@)
}

impl View for Metadata {
    type V = ManifestRecord;

    open spec fn view(&self) -> ManifestRecord {
        ManifestRecord {
            original_name: self.original_name@,
            file_id: self.file_id@,
            total_size: self.total_size as nat,
            total_chunks: self.total_chunks as nat,
            chunk_size: self.chunk_size as nat,
            encryption_key: self.encryption_key@,
            nonce: self.nonce@,
            chunks: chunk_records(self.chunks@),
        }
    }
}

/// The plaintext lengths of a list of chunks, added up.
pub open spec fn spec_sizes_total(chunks: Seq<ChunkRecord>) -> nat
    decreases chunks.len(),
{
    if chunks.len() == 0 {
        0
    } else {
        spec_sizes_total(chunks.drop_last()) + chunks.last().size
    }
}

/// The lengths of a longer list add up to no less than those of its front.
pub proof fn lemma_sizes_total_grows(chunks: Seq<ChunkRecord>, count: int)
    requires
        0 <= count <= chunks.len(),
    ensures
        spec_sizes_total(chunks.take(count)) <= spec_sizes_total(chunks),
    decreases chunks.len(),
{
    if count == chunks.len() {
        assert(chunks.take(count) =~= chunks);
    } else {
        lemma_sizes_total_grows(chunks.drop_last(), count);
        assert(chunks.drop_last().take(count) =~= chunks.take(count));
    }
}

impl ManifestRecord {
    /// The chunks stand at their positions: chunk `i` has order `i`, and
    /// there are `total_chunks` of them.
    pub open spec fn ordered(self) -> bool {
        &&& self.total_chunks == self.chunks.len()
        &&& forall|i: int| 0 <= i < self.chunks.len() ==> (#[trigger] self.chunks[i]).order == i
    }

    /// The manifest agrees with itself: the chunks stand at their positions
    /// and their lengths add up to the length of the file.
    pub open spec fn consistent(self) -> bool {
        &&& self.ordered()
        &&& spec_sizes_total(self.chunks) == self.total_size
    }
}

impl Metadata {
    /// Whether the manifest agrees with itself.
    pub fn is_consistent(&self) -> (ok: bool)
        ensures
            ok == self@.consistent(),
    {
        if self.total_chunks != self.chunks.len() {
            return false;
        }
        let ghost records = self@.chunks;
        let mut total: usize = 0;
        let mut i: usize = 0;
        while i < self.chunks.len()
            invariant
                i <= self.chunks@.len(),
                records == chunk_records(self.chunks@),
                total == spec_sizes_total(records.take(i as int)),
                total <= self.total_size,
                forall|j: int| 0 <= j < i ==> (#[trigger] records[j]).order == j,
            decreases self.chunks@.len() - i,
        {
            let chunk = &self.chunks[i];
            proof {
                assert(records[i as int] == chunk@);
                assert(records.take(i + 1).drop_last() =~= records.take(i as int));
                assert(records.take(i + 1).last() == records[i as int]);
                lemma_sizes_total_grows(records, i + 1);
            }
            if chunk.order != i {
                return false;
            }
            if chunk.size > self.total_size - total {
                return false;
            }
            total = total + chunk.size;
            i = i + 1;
        }
        proof {
            assert(records.take(i as int) =~= records);
        }
        total == self.total_size
    }
}

} // verus!
