//! The binary embedding archive.
//!
//! Little-endian throughout. A header of 32 bytes is followed by one index
//! record of 32 bytes per embedding, and then by the embeddings themselves,
//! four bytes per component, in the order of the index.

use vstd::prelude::*;
use vstd::bytes::lemma_auto_spec_u128_to_from_le_bytes;
use vstd::bytes::lemma_auto_spec_u32_to_from_le_bytes;
use vstd::bytes::lemma_auto_spec_u64_to_from_le_bytes;
use vstd::bytes::spec_u128_from_le_bytes;
use vstd::bytes::spec_u128_to_le_bytes;
use vstd::bytes::spec_u32_from_le_bytes;
use vstd::bytes::spec_u32_to_le_bytes;
use vstd::bytes::spec_u64_from_le_bytes;
use vstd::bytes::spec_u64_to_le_bytes;
use vstd::bytes::u128_from_le_bytes;
use vstd::bytes::u128_to_le_bytes;
use vstd::bytes::u32_from_le_bytes;
use vstd::bytes::u32_to_le_bytes;
use vstd::bytes::u64_from_le_bytes;
use vstd::bytes::u64_to_le_bytes;
use vstd::slice::slice_subrange;
use crate::error::MemoryError;

verus! {

/// Size of the header in bytes.
pub const HEADER_SIZE: usize = 32;

/// Size of one index record in bytes.
pub const INDEX_ENTRY_SIZE: usize = 32;

/// The version this library writes.
pub const ARCHIVE_VERSION: u32 = 1;

/// The header of an archive.
#[derive(Debug, Clone, Copy, PartialEq, Eq, Structural)]
pub struct EmbeddingsHeader {
    pub version: u32,
    pub embedding_dim: u32,
    pub num_embeddings: u64,
    pub index_offset: u64,
    pub data_offset: u64,
}

/// One record of the index: which turn an embedding belongs to and where its
/// components lie in the data section.
#[derive(Debug, Clone, Copy, PartialEq, Eq, Structural)]
pub struct EmbeddingIndex {
    pub session_id: u128,
    pub turn_idx: u32,
    /// Offset of the first component, in bytes from the start of the data section.
    pub offset: u64,
    /// Number of components.
    pub size: u32,
}

/// The sixteen bytes of an identifier, most significant first.
pub open spec fn id_bytes_spec(id: u128) -> Seq<u8> {
    spec_u128_to_le_bytes(id).reverse()
}

/// The identifier that sixteen bytes denote, most significant first.
pub open spec fn id_of_bytes_spec(bytes: Seq<u8>) -> u128 {
    spec_u128_from_le_bytes(bytes.reverse())
}

/// The layout of a header: `version:u32, embedding_dim:u32, num_embeddings:u64,
/// index_offset:u64, data_offset:u64`.
pub open spec fn header_bytes_spec(header: EmbeddingsHeader) -> Seq<u8> {
    spec_u32_to_le_bytes(header.version) + spec_u32_to_le_bytes(header.embedding_dim)
        + spec_u64_to_le_bytes(header.num_embeddings) + spec_u64_to_le_bytes(header.index_offset)
        + spec_u64_to_le_bytes(header.data_offset)
}

/// The header that the first 32 bytes of `bytes` denote.
pub open spec fn header_of_spec(bytes: Seq<u8>) -> EmbeddingsHeader {
    EmbeddingsHeader {
        version: spec_u32_from_le_bytes(bytes.subrange(0, 4)),
        embedding_dim: spec_u32_from_le_bytes(bytes.subrange(4, 8)),
        num_embeddings: spec_u64_from_le_bytes(bytes.subrange(8, 16)),
        index_offset: spec_u64_from_le_bytes(bytes.subrange(16, 24)),
        data_offset: spec_u64_from_le_bytes(bytes.subrange(24, 32)),
    }
}

/// The layout of an index record: `session_id:16 bytes, turn_index:u32,
/// offset:u64, vector_length:u32`.
pub open spec fn index_bytes_spec(index: EmbeddingIndex) -> Seq<u8> {
    id_bytes_spec(index.session_id) + spec_u32_to_le_bytes(index.turn_idx) + spec_u64_to_le_bytes(
        index.offset,
    ) + spec_u32_to_le_bytes(index.size)
}

/// The index record that the first 32 bytes of `bytes` denote.
pub open spec fn index_of_spec(bytes: Seq<u8>) -> EmbeddingIndex {
    EmbeddingIndex {
        session_id: id_of_bytes_spec(bytes.subrange(0, 16)),
        turn_idx: spec_u32_from_le_bytes(bytes.subrange(16, 20)),
        offset: spec_u64_from_le_bytes(bytes.subrange(20, 28)),
        size: spec_u32_from_le_bytes(bytes.subrange(28, 32)),
    }
}

/// A header takes 32 bytes and reads back as it was written.
pub proof fn lemma_header_round_trip(header: EmbeddingsHeader)
    ensures
        header_bytes_spec(header).len() == 32,
        header_of_spec(header_bytes_spec(header)) == header,
{
    lemma_auto_spec_u32_to_from_le_bytes();
    lemma_auto_spec_u64_to_from_le_bytes();
    let bytes = header_bytes_spec(header);
    assert(bytes.subrange(0, 4) =~= spec_u32_to_le_bytes(header.version));
    assert(bytes.subrange(4, 8) =~= spec_u32_to_le_bytes(header.embedding_dim));
    assert(bytes.subrange(8, 16) =~= spec_u64_to_le_bytes(header.num_embeddings));
    assert(bytes.subrange(16, 24) =~= spec_u64_to_le_bytes(header.index_offset));
    assert(bytes.subrange(24, 32) =~= spec_u64_to_le_bytes(header.data_offset));
}

/// A header written before other bytes reads back as it was written.
pub proof fn lemma_header_prefix(header: EmbeddingsHeader, rest: Seq<u8>)
    ensures
        header_of_spec(header_bytes_spec(header) + rest) == header,
{
    lemma_header_round_trip(header);
    let bytes = header_bytes_spec(header);
    let all = bytes + rest;
    assert(all.subrange(0, 4) =~= bytes.subrange(0, 4));
    assert(all.subrange(4, 8) =~= bytes.subrange(4, 8));
    assert(all.subrange(8, 16) =~= bytes.subrange(8, 16));
    assert(all.subrange(16, 24) =~= bytes.subrange(16, 24));
    assert(all.subrange(24, 32) =~= bytes.subrange(24, 32));
}

/// An index record takes 32 bytes and reads back as it was written.
pub proof fn lemma_index_round_trip(index: EmbeddingIndex)
    ensures
        index_bytes_spec(index).len() == 32,
        index_of_spec(index_bytes_spec(index)) == index,
{
    lemma_auto_spec_u32_to_from_le_bytes();
    lemma_auto_spec_u64_to_from_le_bytes();
    lemma_auto_spec_u128_to_from_le_bytes();
    let bytes = index_bytes_spec(index);
    let id = spec_u128_to_le_bytes(index.session_id);
    assert(id.reverse().len() == 16);
    assert(bytes.subrange(0, 16) =~= id.reverse());
    assert(id.reverse().reverse() =~= id);
    assert(bytes.subrange(16, 20) =~= spec_u32_to_le_bytes(index.turn_idx));
    assert(bytes.subrange(20, 28) =~= spec_u64_to_le_bytes(index.offset));
    assert(bytes.subrange(28, 32) =~= spec_u32_to_le_bytes(index.size));
}

/// Copies the first 32 bytes of `bytes` into an array.
fn block_of(bytes: &Vec<u8>) -> (block: [u8; 32])
    requires
        bytes@.len() == 32,
    ensures
        block@ == bytes@,
{
    let mut block: [u8; 32] = [0u8; 32];
    let mut i: usize = 0;
    while i < 32
        invariant
            i <= 32,
            bytes@.len() == 32,
            block@.len() == 32,
            forall|j: int| 0 <= j < i ==> block@[j] == bytes@[j],
        decreases 32 - i,
    {
        block[i] = bytes[i];
        i = i + 1;
    }
    assert(block@ =~= bytes@);
    block
}

/// Reverses sixteen bytes.
fn reversed(bytes: &[u8]) -> (other: Vec<u8>)
    ensures
        other@ == bytes@.reverse(),
{
    let mut other: Vec<u8> = Vec::new();
    let mut i: usize = bytes.len();
    while i > 0
        invariant
            i <= bytes.len(),
            other@.len() == bytes.len() - i,
            forall|j: int| 0 <= j < other@.len() ==> other@[j] == bytes@[bytes.len() - 1 - j],
        decreases i,
    {
        i = i - 1;
        other.push(bytes[i]);
    }
    assert(other@ =~= bytes@.reverse());
    other
}

impl EmbeddingsHeader {
    /// Writes the header as 32 bytes.
    pub fn to_bytes(&self) -> (bytes: [u8; 32])
        ensures
            bytes@ == header_bytes_spec(*self),
    {
        let mut out = u32_to_le_bytes(self.version);
        let mut dim = u32_to_le_bytes(self.embedding_dim);
        let mut count = u64_to_le_bytes(self.num_embeddings);
        let mut index = u64_to_le_bytes(self.index_offset);
        let mut data = u64_to_le_bytes(self.data_offset);
        out.append(&mut dim);
        out.append(&mut count);
        out.append(&mut index);
        out.append(&mut data);
        proof {
            lemma_auto_spec_u32_to_from_le_bytes();
            lemma_auto_spec_u64_to_from_le_bytes();
        }
        block_of(&out)
    }

    /// Reads a header from the first 32 bytes of `data`.
    pub fn from_bytes(data: &[u8]) -> (header: EmbeddingsHeader)
        requires
            data@.len() >= 32,
        ensures
            header == header_of_spec(data@),
    {
        EmbeddingsHeader {
            version: u32_from_le_bytes(slice_subrange(data, 0, 4)),
            embedding_dim: u32_from_le_bytes(slice_subrange(data, 4, 8)),
            num_embeddings: u64_from_le_bytes(slice_subrange(data, 8, 16)),
            index_offset: u64_from_le_bytes(slice_subrange(data, 16, 24)),
            data_offset: u64_from_le_bytes(slice_subrange(data, 24, 32)),
        }
    }
}

impl EmbeddingIndex {
    /// Writes the index record as 32 bytes.
    pub fn to_bytes(&self) -> (bytes: [u8; 32])
        ensures
            bytes@ == index_bytes_spec(*self),
    {
        let id = u128_to_le_bytes(self.session_id);
        let mut out = reversed(id.as_slice());
        let mut turn = u32_to_le_bytes(self.turn_idx);
        let mut offset = u64_to_le_bytes(self.offset);
        let mut size = u32_to_le_bytes(self.size);
        out.append(&mut turn);
        out.append(&mut offset);
        out.append(&mut size);
        proof {
            lemma_auto_spec_u32_to_from_le_bytes();
            lemma_auto_spec_u64_to_from_le_bytes();
            lemma_auto_spec_u128_to_from_le_bytes();
        }
        block_of(&out)
    }

    /// Reads an index record from the first 32 bytes of `data`.
    pub fn from_bytes(data: &[u8]) -> (index: EmbeddingIndex)
        requires
            data@.len() >= 32,
        ensures
            index == index_of_spec(data@),
    {
        let id = reversed(slice_subrange(data, 0, 16));
        EmbeddingIndex {
            session_id: u128_from_le_bytes(id.as_slice()),
            turn_idx: u32_from_le_bytes(slice_subrange(data, 16, 20)),
            offset: u64_from_le_bytes(slice_subrange(data, 20, 28)),
            size: u32_from_le_bytes(slice_subrange(data, 28, 32)),
        }
    }
}

/// One archived embedding: the turn it belongs to and its components.
#[derive(Debug, Clone)]
pub struct ArchiveRecord {
    pub session_id: u128,
    pub turn_idx: u32,
    pub embedding: Vec<u32>,
}

/// The mathematical value of an `ArchiveRecord`.
pub struct ArchiveRecordView {
    pub session_id: u128,
    pub turn_idx: u32,
    pub embedding: Seq<u32>,
}

impl View for ArchiveRecord {
    type V = ArchiveRecordView;

    open spec fn view(&self) -> ArchiveRecordView {
        ArchiveRecordView {
            session_id: self.session_id,
            turn_idx: self.turn_idx,
            embedding: self.embedding@,
        }
    }
}

/// The values of a list of records.
pub open spec fn record_views(records: Seq<ArchiveRecord>) -> Seq<ArchiveRecordView> {
    Seq::new(records.len(), |i: int| records[i]@)
}

/// The bytes of a vector: four per component, in order.
pub open spec fn words_bytes_spec(words: Seq<u32>) -> Seq<u8>
    decreases words.len(),
{
    if words.len() == 0 {
        Seq::empty()
    } else {
        words_bytes_spec(words.drop_last()) + spec_u32_to_le_bytes(words.last())
    }
}

/// The vector of `count` components that `bytes` starts with.
pub open spec fn words_of_spec(bytes: Seq<u8>, count: nat) -> Seq<u32> {
    Seq::new(count, |i: int| spec_u32_from_le_bytes(bytes.subrange(4 * i, 4 * i + 4)))
}

/// The data section: the vectors of all records, one after the other.
pub open spec fn data_section_spec(records: Seq<ArchiveRecordView>) -> Seq<u8>
    decreases records.len(),
{
    if records.len() == 0 {
        Seq::empty()
    } else {
        data_section_spec(records.drop_last()) + words_bytes_spec(records.last().embedding)
    }
}

/// The index record of the `k`-th archived embedding: its vector starts where
/// the vectors of the records before it end.
pub open spec fn index_entry_spec(records: Seq<ArchiveRecordView>, k: int) -> EmbeddingIndex {
    EmbeddingIndex {
        session_id: records[k].session_id,
        turn_idx: records[k].turn_idx,
        offset: data_section_spec(records.take(k)).len() as u64,
        size: records[k].embedding.len() as u32,
    }
}

/// The index section: one index record per archived embedding.
pub open spec fn index_section_spec(records: Seq<ArchiveRecordView>) -> Seq<u8>
    decreases records.len(),
{
    if records.len() == 0 {
        Seq::empty()
    } else {
        index_section_spec(records.drop_last()) + index_bytes_spec(
            index_entry_spec(records, records.len() - 1),
        )
    }
}

/// The header of the archive of `records`.
pub open spec fn archive_header_spec(records: Seq<ArchiveRecordView>, embedding_dim: u32)
    -> EmbeddingsHeader {
    EmbeddingsHeader {
        version: ARCHIVE_VERSION,
        embedding_dim,
        num_embeddings: records.len() as u64,
        index_offset: 32,
        data_offset: (32 + 32 * records.len()) as u64,
    }
}

/// The archive of `records`: header, index section, data section.
pub open spec fn archive_bytes_spec(records: Seq<ArchiveRecordView>, embedding_dim: u32) -> Seq<
    u8,
> {
    header_bytes_spec(archive_header_spec(records, embedding_dim)) + index_section_spec(records)
        + data_section_spec(records)
}

/// Whether every number of the archive of `records` fits the field it is
/// written in: vector lengths in 32 bits, offsets in 64.
pub open spec fn fits_archive(records: Seq<ArchiveRecordView>) -> bool {
    &&& 32 + 32 * records.len() <= u64::MAX
    &&& forall|k: int| 0 <= k < records.len() ==> (#[trigger] records[k]).embedding.len() <= u32::MAX
}

/// A vector takes four bytes per component.
pub proof fn lemma_words_bytes_len(words: Seq<u32>)
    ensures
        words_bytes_spec(words).len() == 4 * words.len(),
    decreases words.len(),
{
    lemma_auto_spec_u32_to_from_le_bytes();
    if words.len() > 0 {
        lemma_words_bytes_len(words.drop_last());
    }
}

/// The index section takes 32 bytes per record.
pub proof fn lemma_index_section_len(records: Seq<ArchiveRecordView>)
    ensures
        index_section_spec(records).len() == 32 * records.len(),
    decreases records.len(),
{
    if records.len() > 0 {
        lemma_index_section_len(records.drop_last());
        lemma_index_round_trip(index_entry_spec(records, records.len() - 1));
    }
}

/// Appends the bytes of a vector to `out`.
fn append_words(out: &mut Vec<u8>, words: &Vec<u32>)
    ensures
        final(out)@ == old(out)@ + words_bytes_spec(words@),
{
    let mut i: usize = 0;
    assert(old(out)@ + words_bytes_spec(words@.take(0)) =~= old(out)@);
    while i < words.len()
        invariant
            i <= words.len(),
            out@ == old(out)@ + words_bytes_spec(words@.take(i as int)),
        decreases words.len() - i,
    {
        let mut piece = u32_to_le_bytes(words[i]);
        proof {
            assert(words@.take(i + 1).drop_last() =~= words@.take(i as int));
            assert(words@.take(i + 1).last() == words@[i as int]);
            assert(old(out)@ + (words_bytes_spec(words@.take(i as int)) + piece@) =~= (old(out)@
                + words_bytes_spec(words@.take(i as int))) + piece@);
        }
        out.append(&mut piece);
        i = i + 1;
    }
    proof {
        assert(words@.take(words@.len() as int) =~= words@);
    }
}

/// Appends the 32 bytes of a block to `out`.
fn append_block(out: &mut Vec<u8>, block: &[u8; 32])
    ensures
        final(out)@ == old(out)@ + block@,
{
    let mut i: usize = 0;
    assert(old(out)@ + block@.take(0) =~= old(out)@);
    while i < 32
        invariant
            i <= 32,
            block@.len() == 32,
            out@ == old(out)@ + block@.take(i as int),
        decreases 32 - i,
    {
        proof {
            assert(old(out)@ + block@.take(i + 1) =~= (old(out)@ + block@.take(i as int)).push(
                block@[i as int],
            ));
        }
        out.push(block[i]);
        i = i + 1;
    }
    proof {
        assert(block@.take(32) =~= block@);
    }
}

/// Writes the archive of `records`. Fails, writing nothing, where a number
/// does not fit its field.
pub fn encode_archive(records: &Vec<ArchiveRecord>, embedding_dim: u32) -> (outcome: Result<
    Vec<u8>,
    MemoryError,
>)
    ensures
        outcome is Ok <==> fits_archive(record_views(records@)),
        outcome is Ok ==> outcome->Ok_0@ == archive_bytes_spec(
            record_views(records@),
            embedding_dim,
        ),
        outcome is Err ==> outcome->Err_0 == MemoryError::ArchiveTooLarge,
{
    let ghost all = record_views(records@);
    let mut index: Vec<u8> = Vec::new();
    let mut data: Vec<u8> = Vec::new();
    let mut i: usize = 0;
    while i < records.len()
        invariant
            i <= records.len(),
            all == record_views(records@),
            index@ == index_section_spec(all.take(i as int)),
            data@ == data_section_spec(all.take(i as int)),
            forall|k: int| 0 <= k < i ==> (#[trigger] all[k]).embedding.len() <= u32::MAX,
        decreases records.len() - i,
    {
        let record = &records[i];
        if record.embedding.len() > u32::MAX as usize {
            assert(all[i as int].embedding.len() > u32::MAX);
            return Err(MemoryError::ArchiveTooLarge);
        }
        let entry = EmbeddingIndex {
            session_id: record.session_id,
            turn_idx: record.turn_idx,
            offset: data.len() as u64,
            size: record.embedding.len() as u32,
        };
        proof {
            let upto = all.take(i + 1);
            assert(upto.drop_last() =~= all.take(i as int));
            assert(upto.last() == all[i as int]);
            assert(upto.take(i as int) =~= all.take(i as int));
            assert(entry == index_entry_spec(upto, i as int));
        }
        let block = entry.to_bytes();
        append_block(&mut index, &block);
        append_words(&mut data, &record.embedding);
        i = i + 1;
    }
    proof {
        assert(all.take(i as int) =~= all);
        lemma_index_section_len(all);
    }
    if index.len() as u64 > u64::MAX - 32 {
        return Err(MemoryError::ArchiveTooLarge);
    }
    let header = EmbeddingsHeader {
        version: ARCHIVE_VERSION,
        embedding_dim,
        num_embeddings: records.len() as u64,
        index_offset: 32,
        data_offset: 32 + index.len() as u64,
    };
    let block = header.to_bytes();
    let mut out: Vec<u8> = Vec::new();
    append_block(&mut out, &block);
    out.append(&mut index);
    out.append(&mut data);
    proof {
        assert(header == archive_header_spec(all, embedding_dim));
        assert(out@ =~= archive_bytes_spec(all, embedding_dim));
    }
    Ok(out)
}

/// The `k`-th embedding of an archive, read for the dimension `dimension`:
/// nothing where the index record or the vector does not lie within `bytes`,
/// or where the vector has another length than `dimension`.
pub open spec fn decoded_record_spec(bytes: Seq<u8>, dimension: nat, k: nat) -> Option<
    ArchiveRecordView,
> {
    let header = header_of_spec(bytes);
    let start = 32 + 32 * k;
    if start + 32 > bytes.len() {
        None
    } else {
        let index = index_of_spec(bytes.subrange(start as int, (start + 32) as int));
        let from = header.data_offset + index.offset;
        let to = from + 4 * index.size;
        if to > bytes.len() || index.size != dimension {
            None
        } else {
            Some(
                ArchiveRecordView {
                    session_id: index.session_id,
                    turn_idx: index.turn_idx,
                    embedding: words_of_spec(bytes.subrange(from, to), index.size as nat),
                },
            )
        }
    }
}

/// The embeddings that the first `count` index records of an archive give.
pub open spec fn decoded_spec(bytes: Seq<u8>, dimension: nat, count: nat) -> Seq<ArchiveRecordView>
    decreases count,
{
    if count == 0 {
        Seq::empty()
    } else {
        let earlier = decoded_spec(bytes, dimension, (count - 1) as nat);
        match decoded_record_spec(bytes, dimension, (count - 1) as nat) {
            Some(record) => earlier.push(record),
            None => earlier,
        }
    }
}

/// What reading an archive gives: every embedding that its header announces,
/// that lies within the file and that has the expected dimension.
pub open spec fn decode_spec(bytes: Seq<u8>, dimension: nat) -> Seq<ArchiveRecordView> {
    decoded_spec(bytes, dimension, header_of_spec(bytes).num_embeddings as nat)
}

/// Index records beyond the end of the file give nothing.
proof fn lemma_decoded_beyond_end(bytes: Seq<u8>, dimension: nat, reached: nat, count: nat)
    requires
        reached <= count,
        32 + 32 * reached + 32 > bytes.len(),
    ensures
        decoded_spec(bytes, dimension, count) == decoded_spec(bytes, dimension, reached),
    decreases count,
{
    if count > reached {
        lemma_decoded_beyond_end(bytes, dimension, reached, (count - 1) as nat);
    }
}

/// Reads `count` components from the start of `bytes`.
fn read_words(bytes: &[u8], count: usize) -> (words: Vec<u32>)
    requires
        bytes@.len() == 4 * count,
    ensures
        words@ == words_of_spec(bytes@, count as nat),
{
    let mut words: Vec<u32> = Vec::new();
    let mut i: usize = 0;
    let total = bytes.len();
    while i < count
        invariant
            i <= count,
            total == 4 * count,
            bytes@.len() == 4 * count,
            words@ == words_of_spec(bytes@, i as nat),
        decreases count - i,
    {
        let word = u32_from_le_bytes(slice_subrange(bytes, 4 * i, 4 * i + 4));
        proof {
            assert(words_of_spec(bytes@, (i + 1) as nat) =~= words_of_spec(bytes@, i as nat).push(
                word,
            ));
        }
        words.push(word);
        i = i + 1;
    }
    words
}

/// Reads an archive for embeddings of dimension `dimension`. An archive
/// shorter than a header is an error. Otherwise every embedding that lies
/// within the file and has the expected dimension is returned, in the order of
/// the index; the others are passed over.
pub fn decode_archive(bytes: &[u8], dimension: usize) -> (outcome: Result<
    Vec<ArchiveRecord>,
    MemoryError,
>)
    ensures
        bytes@.len() < 32 ==> outcome == Err::<Vec<ArchiveRecord>, MemoryError>(
            MemoryError::ArchiveTooSmall { actual: bytes@.len() as usize },
        ),
        bytes@.len() >= 32 ==> outcome is Ok && record_views(outcome->Ok_0@) == decode_spec(
            bytes@,
            dimension as nat,
        ),
{
    if bytes.len() < 32 {
        return Err(MemoryError::ArchiveTooSmall { actual: bytes.len() });
    }
    let header = EmbeddingsHeader::from_bytes(bytes);
    let mut records: Vec<ArchiveRecord> = Vec::new();
    let mut k: u64 = 0;
    let mut start: usize = 32;
    assert(record_views(records@) =~= decoded_spec(bytes@, dimension as nat, 0));
    while k < header.num_embeddings
        invariant
            k <= header.num_embeddings,
            header == header_of_spec(bytes@),
            start == 32 + 32 * k,
            start <= bytes.len(),
            record_views(records@) == decoded_spec(bytes@, dimension as nat, k as nat),
        ensures
            record_views(records@) == decode_spec(bytes@, dimension as nat),
        decreases header.num_embeddings - k,
    {
        if bytes.len() - start < 32 {
            proof {
                lemma_decoded_beyond_end(
                    bytes@,
                    dimension as nat,
                    k as nat,
                    header.num_embeddings as nat,
                );
            }
            break ;
        }
        let index = EmbeddingIndex::from_bytes(slice_subrange(bytes, start, start + 32));
        let from: u128 = header.data_offset as u128 + index.offset as u128;
        let to: u128 = from + 4 * (index.size as u128);
        let ghost before = record_views(records@);
        if to <= bytes.len() as u128 && index.size as u128 == dimension as u128 {
            let words = read_words(
                slice_subrange(bytes, from as usize, to as usize),
                index.size as usize,
            );
            records.push(
                ArchiveRecord {
                    session_id: index.session_id,
                    turn_idx: index.turn_idx,
                    embedding: words,
                },
            );
            proof {
                assert(record_views(records@) =~= before.push(
                    decoded_record_spec(bytes@, dimension as nat, k as nat)->0,
                ));
            }
        }
        k = k + 1;
        start = start + 32;
    }
    Ok(records)
}

/// A vector reads back from its bytes as it was written.
pub proof fn lemma_words_round_trip(words: Seq<u32>)
    ensures
        words_of_spec(words_bytes_spec(words), words.len()) == words,
    decreases words.len(),
{
    lemma_auto_spec_u32_to_from_le_bytes();
    lemma_words_bytes_len(words);
    if words.len() > 0 {
        let front = words.drop_last();
        lemma_words_round_trip(front);
        lemma_words_bytes_len(front);
        let head = words_bytes_spec(front);
        let tail = spec_u32_to_le_bytes(words.last());
        let all = head + tail;
        let read = words_of_spec(all, words.len());
        assert forall|i: int| 0 <= i < words.len() implies read[i] == words[i] by {
            if i < front.len() {
                assert(all.subrange(4 * i, 4 * i + 4) =~= head.subrange(4 * i, 4 * i + 4));
                assert(words_of_spec(head, front.len())[i] == front[i]);
            } else {
                assert(all.subrange(4 * i, 4 * i + 4) =~= tail);
            }
        }
        assert(read =~= words);
    } else {
        assert(words_of_spec(words_bytes_spec(words), 0) =~= words);
    }
}

/// The data of the first `k` records is the start of the data of all.
proof fn lemma_data_prefix(records: Seq<ArchiveRecordView>, k: int)
    requires
        0 <= k <= records.len(),
    ensures
        data_section_spec(records.take(k)).len() <= data_section_spec(records).len(),
        data_section_spec(records).take(data_section_spec(records.take(k)).len() as int)
            == data_section_spec(records.take(k)),
    decreases records.len(),
{
    if k == records.len() {
        assert(records.take(k) =~= records);
        assert(data_section_spec(records).take(data_section_spec(records).len() as int)
            =~= data_section_spec(records));
    } else {
        let front = records.drop_last();
        lemma_data_prefix(front, k);
        assert(front.take(k) =~= records.take(k));
        let part = data_section_spec(records.take(k));
        assert(data_section_spec(records).take(part.len() as int) =~= data_section_spec(
            front,
        ).take(part.len() as int));
    }
}

/// The vector of the `k`-th record lies in the data section where its index
/// record says.
proof fn lemma_data_slice(records: Seq<ArchiveRecordView>, k: int)
    requires
        0 <= k < records.len(),
    ensures
        data_section_spec(records.take(k)).len() + 4 * records[k].embedding.len()
            <= data_section_spec(records).len(),
        data_section_spec(records).subrange(
            data_section_spec(records.take(k)).len() as int,
            (data_section_spec(records.take(k)).len() + 4 * records[k].embedding.len()) as int,
        ) == words_bytes_spec(records[k].embedding),
{
    lemma_data_prefix(records, k);
    lemma_data_prefix(records, k + 1);
    lemma_words_bytes_len(records[k].embedding);
    let upto = records.take(k + 1);
    assert(upto.drop_last() =~= records.take(k));
    assert(upto.last() == records[k]);
    let before = data_section_spec(records.take(k));
    let words = words_bytes_spec(records[k].embedding);
    let whole = data_section_spec(records);
    assert(data_section_spec(upto) == before + words);
    let low = before.len() as int;
    let high = (before.len() + words.len()) as int;
    assert(whole.subrange(low, high) =~= whole.take(high).subrange(low, high));
    assert((before + words).subrange(low, high) =~= words);
}

/// The `k`-th index record lies at byte `32 * k` of the index section.
proof fn lemma_index_slice(records: Seq<ArchiveRecordView>, k: int)
    requires
        0 <= k < records.len(),
    ensures
        32 * k + 32 <= index_section_spec(records).len(),
        index_section_spec(records).subrange(32 * k, 32 * k + 32) == index_bytes_spec(
            index_entry_spec(records, k),
        ),
    decreases records.len(),
{
    let front = records.drop_last();
    let last = index_bytes_spec(index_entry_spec(records, records.len() - 1));
    lemma_index_section_len(records);
    lemma_index_section_len(front);
    lemma_index_round_trip(index_entry_spec(records, records.len() - 1));
    let whole = index_section_spec(records);
    if k == records.len() - 1 {
        assert(whole.subrange(32 * k, 32 * k + 32) =~= last);
    } else {
        lemma_index_slice(front, k);
        assert(front.take(k) =~= records.take(k));
        assert(index_entry_spec(front, k) == index_entry_spec(records, k));
        assert(whole.subrange(32 * k, 32 * k + 32) =~= index_section_spec(front).subrange(
            32 * k,
            32 * k + 32,
        ));
    }
}

/// In the archive of `records`, the `k`-th embedding reads back as the `k`-th record.
proof fn lemma_record_round_trip(records: Seq<ArchiveRecordView>, embedding_dim: u32, k: int)
    requires
        0 <= k < records.len(),
        forall|i: int| 0 <= i < records.len() ==> (#[trigger] records[i]).embedding.len() == embedding_dim,
        archive_bytes_spec(records, embedding_dim).len() <= u64::MAX,
    ensures
        decoded_record_spec(archive_bytes_spec(records, embedding_dim), embedding_dim as nat, k as nat)
            == Some(records[k]),
{
    let header = archive_header_spec(records, embedding_dim);
    let head = header_bytes_spec(header);
    let index = index_section_spec(records);
    let data = data_section_spec(records);
    let bytes = archive_bytes_spec(records, embedding_dim);
    lemma_header_round_trip(header);
    lemma_index_section_len(records);
    assert(bytes =~= head + (index + data));
    lemma_header_prefix(header, index + data);
    lemma_index_slice(records, k);
    lemma_data_slice(records, k);
    lemma_data_prefix(records, k);
    let entry = index_entry_spec(records, k);
    lemma_index_round_trip(entry);
    let start = 32 + 32 * k;
    assert(bytes.subrange(start, start + 32) =~= index.subrange(32 * k, 32 * k + 32));
    assert(records[k].embedding.len() == embedding_dim);
    let offset = data_section_spec(records.take(k)).len();
    assert(entry.offset == offset);
    assert(entry.size == embedding_dim);
    let from = header.data_offset + entry.offset;
    let to = from + 4 * entry.size;
    assert(from == 32 + 32 * records.len() + offset);
    assert(bytes.subrange(from, to) =~= data.subrange(
        offset as int,
        (offset + 4 * embedding_dim) as int,
    ));
    lemma_words_round_trip(records[k].embedding);
}

/// Writing embeddings of one dimension to an archive and reading the archive
/// back for that dimension gives the same records, in the same order, with
/// every component bit for bit.
pub proof fn lemma_archive_round_trip(records: Seq<ArchiveRecordView>, embedding_dim: u32)
    requires
        forall|i: int| 0 <= i < records.len() ==> (#[trigger] records[i]).embedding.len() == embedding_dim,
        archive_bytes_spec(records, embedding_dim).len() <= u64::MAX,
    ensures
        decode_spec(archive_bytes_spec(records, embedding_dim), embedding_dim as nat) == records,
{
    let bytes = archive_bytes_spec(records, embedding_dim);
    let header = archive_header_spec(records, embedding_dim);
    lemma_header_round_trip(header);
    lemma_index_section_len(records);
    assert(bytes =~= header_bytes_spec(header) + (index_section_spec(records) + data_section_spec(
        records,
    )));
    lemma_header_prefix(header, index_section_spec(records) + data_section_spec(records));
    lemma_decoded_prefix(records, embedding_dim, records.len());
    assert(records.take(records.len() as int) =~= records);
}

/// The first `count` embeddings of an archive read back as the first `count` records.
proof fn lemma_decoded_prefix(records: Seq<ArchiveRecordView>, embedding_dim: u32, count: nat)
    requires
        count <= records.len(),
        forall|i: int| 0 <= i < records.len() ==> (#[trigger] records[i]).embedding.len() == embedding_dim,
        archive_bytes_spec(records, embedding_dim).len() <= u64::MAX,
    ensures
        decoded_spec(archive_bytes_spec(records, embedding_dim), embedding_dim as nat, count)
            == records.take(count as int),
    decreases count,
{
    if count == 0 {
        assert(records.take(0) =~= Seq::<ArchiveRecordView>::empty());
    } else {
        lemma_decoded_prefix(records, embedding_dim, (count - 1) as nat);
        lemma_record_round_trip(records, embedding_dim, count - 1);
        assert(records.take(count as int) =~= records.take(count - 1).push(records[count - 1]));
    }
}

/// Every embedding read for a dimension has that dimension.
pub proof fn lemma_decoded_dimension(bytes: Seq<u8>, dimension: nat, count: nat)
    ensures
        forall|k: int|
            0 <= k < decoded_spec(bytes, dimension, count).len() ==> (#[trigger] decoded_spec(
                bytes,
                dimension,
                count,
            )[k]).embedding.len() == dimension,
    decreases count,
{
    if count > 0 {
        lemma_decoded_dimension(bytes, dimension, (count - 1) as nat);
        let earlier = decoded_spec(bytes, dimension, (count - 1) as nat);
        let all = decoded_spec(bytes, dimension, count);
        assert forall|k: int| 0 <= k < all.len() implies (#[trigger] all[k]).embedding.len()
            == dimension by {
            if k < earlier.len() {
                assert(all[k] == earlier[k]);
            } else {
                let record = decoded_record_spec(bytes, dimension, (count - 1) as nat);
                assert(all[k] == record->0);
            }
        }
    }
}

/// The length that an archive should have by its own header, for embeddings
/// of dimension `dimension`: everything up to the data section, and four
/// bytes per component of every embedding announced.
pub open spec fn announced_length_spec(bytes: Seq<u8>, dimension: nat) -> int {
    let header = header_of_spec(bytes);
    header.data_offset + header.num_embeddings * dimension * 4
}

/// Whether an archive is shorter than its own header announces. Such an
/// archive can still be read: the embeddings that lie within it are read.
pub fn is_undersized(bytes: &[u8], dimension: usize) -> (short: bool)
    requires
        bytes@.len() >= 32,
    ensures
        short == (bytes@.len() < announced_length_spec(bytes@, dimension as nat)),
{
    let header = EmbeddingsHeader::from_bytes(bytes);
    let total = bytes.len();
    assert(header.num_embeddings * dimension <= 0xffff_ffff_ffff_ffff * 0xffff_ffff_ffff_ffff)
        by (nonlinear_arith)
        requires
            0 <= header.num_embeddings <= 0xffff_ffff_ffff_ffff,
            0 <= dimension <= 0xffff_ffff_ffff_ffff,
    ;
    let components: u128 = header.num_embeddings as u128 * dimension as u128;
    if components > 0x3fff_ffff_ffff_ffff_ffff {
        // more than any file can hold
        assert(header.num_embeddings * dimension * 4 > 0xffff_ffff_ffff_ffff) by (nonlinear_arith)
            requires
                header.num_embeddings * dimension > 0x3fff_ffff_ffff_ffff_ffff,
        ;
        assert(total < announced_length_spec(bytes@, dimension as nat));
        return true;
    }
    let announced: u128 = header.data_offset as u128 + components * 4;
    assert(announced == announced_length_spec(bytes@, dimension as nat)) by (nonlinear_arith)
        requires
            announced == header.data_offset + (header.num_embeddings * dimension) * 4,
            announced_length_spec(bytes@, dimension as nat) == header.data_offset
                + header.num_embeddings * dimension * 4,
    ;
    (total as u128) < announced
}

} // verus!
