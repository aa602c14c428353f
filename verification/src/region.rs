//! The region container: a table of 1024 slot headers, each a big-endian
//! word that locates a chunk record by sector, followed by the records.

use crate::error::ScanError;
use byteorder::{BigEndian, ReadBytesExt};
use vstd::prelude::*;
use vstd::slice::slice_subrange;

verus! {

/// Number of chunk slots in a region.
pub const SLOT_COUNT: usize = 1024;

/// Size in bytes of a sector, the unit of a slot header's offset and count.
pub const SECTOR_BYTES: u64 = 4096;

#[verifier::external_type_specification]
#[verifier::external_body]
pub struct ExIoError(std::io::Error);

/// The value of four bytes read as a big-endian word.
pub open spec fn be_word(b0: u8, b1: u8, b2: u8, b3: u8) -> int {
    b0 * 0x100_0000 + b1 * 0x1_0000 + b2 * 0x100 + b3
}

/// The big-endian word that starts at `at`, if four bytes are there.
pub open spec fn word_at(bytes: Seq<u8>, at: int) -> Option<int> {
    if 0 <= at && at + 4 <= bytes.len() {
        Some(be_word(bytes[at], bytes[at + 1], bytes[at + 2], bytes[at + 3]))
    } else {
        None
    }
}

/// The byte at `at`, if there is one.
pub open spec fn byte_at(bytes: Seq<u8>, at: int) -> Option<u8> {
    if 0 <= at < bytes.len() {
        Some(bytes[at])
    } else {
        None
    }
}

/// `byteorder::ReadBytesExt::read_u32::<BigEndian>` on a byte slice: the
/// first four bytes as a big-endian word; an error if and only if the slice
/// holds fewer than four bytes.
#[verifier::external_body]
fn read_u32_be(bytes: &[u8]) -> (word: Result<u32, std::io::Error>)
    ensures
        bytes@.len() >= 4 ==> word is Ok && word->Ok_0 == be_word(
            bytes@[0],
            bytes@[1],
            bytes@[2],
            bytes@[3],
        ),
        bytes@.len() < 4 ==> word is Err,
{
    let mut source = bytes;
    source.read_u32::<BigEndian>()
}

/// `byteorder::ReadBytesExt::read_u8` on a byte slice: the first byte; an
/// error if and only if the slice is empty.
#[verifier::external_body]
fn read_u8(bytes: &[u8]) -> (byte: Result<u8, std::io::Error>)
    ensures
        bytes@.len() >= 1 ==> byte is Ok && byte->Ok_0 == bytes@[0],
        bytes@.len() < 1 ==> byte is Err,
{
    let mut source = bytes;
    source.read_u8()
}

/// Reads the big-endian word at byte offset `at`. A position at or past the
/// end of the bytes holds no word.
pub fn read_word(bytes: &[u8], at: u64) -> (word: Option<u32>)
    ensures
        word is Some <==> word_at(bytes@, at as int) is Some,
        word is Some ==> word->0 == word_at(bytes@, at as int)->0,
{
    if at > bytes.len() as u64 {
        return None;
    }
    let rest = slice_subrange(bytes, at as usize, bytes.len());
    match read_u32_be(rest) {
        Ok(word) => Some(word),
        Err(_) => None,
    }
}

/// Reads the byte at offset `at`.
pub fn read_byte(bytes: &[u8], at: u64) -> (byte: Option<u8>)
    ensures
        byte == byte_at(bytes@, at as int),
{
    if at > bytes.len() as u64 {
        return None;
    }
    let rest = slice_subrange(bytes, at as usize, bytes.len());
    match read_u8(rest) {
        Ok(byte) => Some(byte),
        Err(_) => None,
    }
}

/// A slot of the header table: where a chunk's record lies, in sectors.
#[derive(Clone, Copy, Debug, PartialEq, Eq, Structural)]
pub struct SlotHeader {
    pub sector_offset: u32,
    pub sector_count: u8,
}

impl SlotHeader {
    /// The header packed into `word`: the count in the low eight bits, the
    /// offset in the twenty-four above them.
    pub open spec fn unpack(word: u32) -> SlotHeader {
        SlotHeader { sector_offset: word >> 8, sector_count: (word & 0xFF) as u8 }
    }

    /// A slot with no sectors stores no chunk.
    pub open spec fn is_empty(self) -> bool {
        self.sector_count == 0
    }

    /// Byte offset of the slot's record from the start of the region.
    pub open spec fn byte_offset(self) -> int {
        self.sector_offset * SECTOR_BYTES
    }

    /// Bytes set aside for the slot's record.
    pub open spec fn byte_length(self) -> int {
        self.sector_count * SECTOR_BYTES
    }

    pub fn from_word(word: u32) -> (header: SlotHeader)
        ensures
            header == SlotHeader::unpack(word),
    {
        SlotHeader { sector_offset: word >> 8, sector_count: (word & 0xFF) as u8 }
    }

    pub fn stores_chunk(&self) -> (b: bool)
        ensures
            b == !self.is_empty(),
    {
        self.sector_count != 0
    }

    pub fn offset_in_bytes(&self) -> (offset: u64)
        ensures
            offset == self.byte_offset(),
    {
        self.sector_offset as u64 * SECTOR_BYTES
    }

    pub fn length_in_bytes(&self) -> (length: u64)
        ensures
            length == self.byte_length(),
    {
        self.sector_count as u64 * SECTOR_BYTES
    }
}

/// The header packed into four big-endian bytes: the first three are the
/// sector offset, the last is the sector count.
pub proof fn lemma_unpack_bytes(b0: u8, b1: u8, b2: u8, b3: u8)
    ensures
        0 <= be_word(b0, b1, b2, b3) <= u32::MAX,
        SlotHeader::unpack(be_word(b0, b1, b2, b3) as u32).sector_count == b3,
        SlotHeader::unpack(be_word(b0, b1, b2, b3) as u32).sector_offset == b0 * 0x1_0000 + b1
            * 0x100 + b2,
{
    let word = be_word(b0, b1, b2, b3) as u32;
    assert(word >> 8 == word / 0x100) by (bit_vector);
    assert(word & 0xFF == word % 0x100) by (bit_vector);
}

/// Where slot `slot` keeps its header word.
pub open spec fn slot_position(slot: int) -> int {
    slot * 4
}

/// The header of slot `slot`: an error if the table ends before its word.
pub open spec fn header_at(region: Seq<u8>, slot: int) -> Result<SlotHeader, ScanError> {
    match word_at(region, slot_position(slot)) {
        Some(word) => Ok(SlotHeader::unpack(word as u32)),
        None => Err(ScanError::ChunkOffset),
    }
}

/// Reads the header of slot `slot` from the table at the start of `region`.
pub fn read_header(region: &[u8], slot: usize) -> (header: Result<SlotHeader, ScanError>)
    requires
        slot < SLOT_COUNT,
    ensures
        header == header_at(region@, slot as int),
{
    match read_word(region, slot as u64 * 4) {
        Some(word) => {
            proof {
                let at = slot_position(slot as int);
                lemma_unpack_bytes(region@[at], region@[at + 1], region@[at + 2], region@[at + 3]);
            }
            Ok(SlotHeader::from_word(word))
        },
        None => Err(ScanError::ChunkOffset),
    }
}

/// A chunk record as it lies in a region: the length prefix, the
/// compression scheme, and the compressed bytes that follow them.
#[derive(Clone, Copy, Debug, PartialEq, Eq)]
pub struct Record<'a> {
    /// The length that the record states for its scheme byte and payload.
    pub stated_length: u32,
    /// The compression-scheme byte.
    pub scheme: u8,
    /// Everything behind the scheme byte. The stated length does not cut it
    /// short: a compressed stream ends where it says it ends.
    pub payload: &'a [u8],
}

/// The mathematical value of a [`Record`].
pub struct RecordView {
    pub stated_length: int,
    pub scheme: u8,
    pub payload: Seq<u8>,
}

impl<'a> View for Record<'a> {
    type V = RecordView;

    open spec fn view(&self) -> RecordView {
        RecordView {
            stated_length: self.stated_length as int,
            scheme: self.scheme,
            payload: self.payload@,
        }
    }
}

/// The record that starts at byte `offset`: an error if the region ends
/// before its length prefix or before its scheme byte.
pub open spec fn record_at(region: Seq<u8>, offset: int) -> Result<RecordView, ScanError> {
    match word_at(region, offset) {
        None => Err(ScanError::ChunkSize),
        Some(length) => match byte_at(region, offset + 4) {
            None => Err(ScanError::CompressionScheme),
            Some(scheme) => Ok(
                RecordView { stated_length: length, scheme, payload: region.skip(offset + 5) },
            ),
        },
    }
}

/// Frames the record that starts at byte `offset` of `region`.
pub fn read_record<'a>(region: &'a [u8], offset: u64) -> (record: Result<Record<'a>, ScanError>)
    ensures
        match record {
            Ok(record) => record_at(region@, offset as int) == Ok::<RecordView, ScanError>(
                record@,
            ),
            Err(error) => record_at(region@, offset as int) == Err::<RecordView, ScanError>(
                error,
            ),
        },
{
    let total: usize = region.len();
    let stated_length: u32 = match read_word(region, offset) {
        Some(word) => word,
        None => {
            return Err(ScanError::ChunkSize);
        },
    };
    let scheme: u8 = match read_byte(region, offset + 4) {
        Some(byte) => byte,
        None => {
            return Err(ScanError::CompressionScheme);
        },
    };
    let start: usize = (offset + 5) as usize;
    let payload = slice_subrange(region, start, total);
    Ok(Record { stated_length, scheme, payload })
}

} // verus!
