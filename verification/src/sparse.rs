//! Headers of Android sparse images.

use vstd::prelude::*;

verus! {

/// Two bytes, least significant first.
pub open spec fn le16(n: nat) -> Seq<u8> {
    seq![(n % 256) as u8, (n / 256 % 256) as u8]
}

/// Four bytes, least significant first.
pub open spec fn le32(n: nat) -> Seq<u8> {
    le16(n % 65536) + le16(n / 65536 % 65536)
}

/// The number that bytes stand for, least significant first.
pub open spec fn le_value(bytes: Seq<u8>) -> nat
    decreases bytes.len(),
{
    if bytes.len() == 0 {
        0
    } else {
        bytes[0] as nat + 256 * le_value(bytes.skip(1))
    }
}

/// Length of the file header in bytes.
pub const FILE_HEADER_BYTES_LEN: usize = 28;

/// Length of a chunk header in bytes.
pub const CHUNK_HEADER_BYTES_LEN: usize = 12;

/// Header of a sparse image.
#[derive(Copy, Clone, Debug, PartialEq, Eq, Structural)]
pub struct FileHeader {
    /// Block size in bytes.
    pub block_size: u32,
    /// Number of blocks of the expanded image.
    pub blocks: u32,
    /// Number of chunks of the sparse image.
    pub chunks: u32,
    /// Optional checksum.
    pub checksum: u32,
}

/// What a chunk of a sparse image holds.
#[derive(Copy, Clone, Debug, PartialEq, Eq, Structural)]
pub enum ChunkType {
    /// Data to copy.
    Raw,
    /// Four bytes to fill the output with.
    Fill,
    /// Nothing: the output may hold anything.
    DontCare,
    /// A checksum.
    Crc32,
}

/// Header of a chunk of a sparse image.
#[derive(Copy, Clone, Debug, PartialEq, Eq, Structural)]
pub struct ChunkHeader {
    /// What the chunk holds.
    pub chunk_type: ChunkType,
    /// Size of the output of the chunk in blocks.
    pub chunk_size: u32,
    /// Size of the chunk in the sparse image in bytes.
    pub total_size: u32,
}

/// Why bytes are no header.
#[derive(Copy, Clone, Debug, PartialEq, Eq, Structural)]
pub enum ParseError {
    /// Not a sparse image.
    UnknownMagic,
    /// A sparse image of another version.
    UnknownVersion,
    /// Header or chunk headers of another size.
    UnexpectedSize,
    /// No such type of chunk.
    UnknownChunkType,
}

/// The number that stands for a type of chunk.
pub open spec fn chunk_type_number(t: ChunkType) -> nat {
    match t {
        ChunkType::Raw => 0xcac1,
        ChunkType::Fill => 0xcac2,
        ChunkType::DontCare => 0xcac3,
        ChunkType::Crc32 => 0xcac4,
    }
}

/// The bytes of a file header.
pub open spec fn file_header_bytes(h: FileHeader) -> Seq<u8> {
    le32(0xed26ff3a) + le16(1) + le16(0) + le16(28) + le16(12) + le32(h.block_size as nat) + le32(
        h.blocks as nat,
    ) + le32(h.chunks as nat) + le32(h.checksum as nat)
}

/// The bytes of a chunk header.
pub open spec fn chunk_header_bytes(h: ChunkHeader) -> Seq<u8> {
    le16(chunk_type_number(h.chunk_type)) + le16(0) + le32(h.chunk_size as nat) + le32(
        h.total_size as nat,
    )
}

/// The header that bytes of its length stand for.
pub open spec fn parsed_file_header(bytes: Seq<u8>) -> Result<FileHeader, ParseError> {
    if le_value(bytes.subrange(0, 4)) != 0xed26ff3a {
        Err(ParseError::UnknownMagic)
    } else if le_value(bytes.subrange(4, 6)) != 1 || le_value(bytes.subrange(6, 8)) != 0 {
        Err(ParseError::UnknownVersion)
    } else if le_value(bytes.subrange(8, 10)) != 28 || le_value(bytes.subrange(10, 12)) != 12 {
        Err(ParseError::UnexpectedSize)
    } else {
        Ok(
            FileHeader {
                block_size: le_value(bytes.subrange(12, 16)) as u32,
                blocks: le_value(bytes.subrange(16, 20)) as u32,
                chunks: le_value(bytes.subrange(20, 24)) as u32,
                checksum: le_value(bytes.subrange(24, 28)) as u32,
            },
        )
    }
}

/// The type of chunk that a number stands for.
pub open spec fn numbered_chunk_type(n: nat) -> Option<ChunkType> {
    if n == 0xcac1 {
        Some(ChunkType::Raw)
    } else if n == 0xcac2 {
        Some(ChunkType::Fill)
    } else if n == 0xcac3 {
        Some(ChunkType::DontCare)
    } else if n == 0xcac4 {
        Some(ChunkType::Crc32)
    } else {
        None
    }
}

/// The chunk header that bytes of its length stand for.
pub open spec fn parsed_chunk_header(bytes: Seq<u8>) -> Result<ChunkHeader, ParseError> {
    match numbered_chunk_type(le_value(bytes.subrange(0, 2))) {
        Some(chunk_type) => Ok(
            ChunkHeader {
                chunk_type,
                chunk_size: le_value(bytes.subrange(4, 8)) as u32,
                total_size: le_value(bytes.subrange(8, 12)) as u32,
            },
        ),
        None => Err(ParseError::UnknownChunkType),
    }
}

/// `android_sparse_image::FileHeader::to_bytes` lays the fields out behind magic, version and
/// the sizes of the two kinds of header, each least significant byte first.
#[verifier::external_body]
pub(crate) fn encode_file_header(h: &FileHeader) -> (bytes: [u8; 28])
    ensures
        bytes@ == file_header_bytes(*h),
{
    let header = android_sparse_image::FileHeader {
        block_size: h.block_size,
        blocks: h.blocks,
        chunks: h.chunks,
        checksum: h.checksum,
    };
    header.to_bytes()
}

/// `android_sparse_image::FileHeader::from_bytes` reads the fields back, least significant byte
/// first, and refuses another magic, another version than 1.0 and other header sizes, in this
/// order.
#[verifier::external_body]
pub(crate) fn decode_file_header(bytes: &[u8; 28]) -> (r: Result<FileHeader, ParseError>)
    ensures
        r == parsed_file_header(bytes@),
{
    match android_sparse_image::FileHeader::from_bytes(bytes) {
        Ok(h) => Ok(FileHeader {
            block_size: h.block_size, blocks: h.blocks, chunks: h.chunks, checksum: h.checksum,
        }),
        Err(e) => Err(match e {
            android_sparse_image::ParseError::UnknownMagic => ParseError::UnknownMagic,
            android_sparse_image::ParseError::UnknownVersion => ParseError::UnknownVersion,
            android_sparse_image::ParseError::UnexpectedSize => ParseError::UnexpectedSize,
            android_sparse_image::ParseError::UnknownChunkType => ParseError::UnknownChunkType,
        }),
    }
}

/// `android_sparse_image::ChunkHeader::to_bytes` lays out the number of the type, two zero
/// bytes and the two sizes, each least significant byte first.
#[verifier::external_body]
pub(crate) fn encode_chunk_header(h: &ChunkHeader) -> (bytes: [u8; 12])
    ensures
        bytes@ == chunk_header_bytes(*h),
{
    let chunk_type = match h.chunk_type {
        ChunkType::Raw => android_sparse_image::ChunkType::Raw,
        ChunkType::Fill => android_sparse_image::ChunkType::Fill,
        ChunkType::DontCare => android_sparse_image::ChunkType::DontCare,
        ChunkType::Crc32 => android_sparse_image::ChunkType::Crc32,
    };
    android_sparse_image::ChunkHeader {
        chunk_type, chunk_size: h.chunk_size, total_size: h.total_size,
    }.to_bytes()
}

/// `android_sparse_image::ChunkHeader::from_bytes` reads type and sizes back, least significant
/// byte first, passes over the two bytes between them and refuses numbers that stand for no
/// type.
#[verifier::external_body]
pub(crate) fn decode_chunk_header(bytes: &[u8; 12]) -> (r: Result<ChunkHeader, ParseError>)
    ensures
        r == parsed_chunk_header(bytes@),
{
    match android_sparse_image::ChunkHeader::from_bytes(bytes) {
        Ok(h) => {
            let chunk_type = match h.chunk_type {
                android_sparse_image::ChunkType::Raw => ChunkType::Raw,
                android_sparse_image::ChunkType::Fill => ChunkType::Fill,
                android_sparse_image::ChunkType::DontCare => ChunkType::DontCare,
                android_sparse_image::ChunkType::Crc32 => ChunkType::Crc32,
            };
            Ok(ChunkHeader { chunk_type, chunk_size: h.chunk_size, total_size: h.total_size })
        },
        Err(_) => Err(ParseError::UnknownChunkType),
    }
}

/// The largest number of four bytes, or the number itself where it is below.
pub open spec fn capped32(n: int) -> u32 {
    if n > u32::MAX {
        u32::MAX
    } else {
        n as u32
    }
}

/// Header of a chunk that skips blocks.
pub open spec fn dontcare_header(blocks: u32) -> ChunkHeader {
    ChunkHeader { chunk_type: ChunkType::DontCare, chunk_size: blocks, total_size: 12 }
}

/// Header of a chunk of blocks of data.
pub open spec fn raw_header(blocks: u32, block_size: u32) -> ChunkHeader {
    ChunkHeader {
        chunk_type: ChunkType::Raw,
        chunk_size: blocks,
        total_size: capped32(12 + capped32(blocks * block_size)),
    }
}

impl ChunkHeader {
    /// Header of a chunk that skips blocks.
    pub fn new_dontcare(blocks: u32) -> (r: ChunkHeader)
        ensures
            r == dontcare_header(blocks),
    {
        ChunkHeader { chunk_type: ChunkType::DontCare, chunk_size: blocks, total_size: 12 }
    }

    /// Header of a chunk of blocks of data; the data follows the header.
    pub fn new_raw(blocks: u32, block_size: u32) -> (r: ChunkHeader)
        ensures
            r == raw_header(blocks, block_size),
    {
        assert(0 <= blocks * block_size <= u32::MAX * u32::MAX) by (nonlinear_arith)
            requires
                0 <= blocks <= u32::MAX,
                0 <= block_size <= u32::MAX,
        ;
        let data: u64 = blocks as u64 * block_size as u64;
        let data: u64 = if data > 0xffff_ffff {
            0xffff_ffff
        } else {
            data
        };
        let total: u64 = 12 + data;
        let total: u64 = if total > 0xffff_ffff {
            0xffff_ffff
        } else {
            total
        };
        ChunkHeader { chunk_type: ChunkType::Raw, chunk_size: blocks, total_size: total as u32 }
    }

    /// How many bytes the chunk has in the output.
    pub fn out_size(&self, header: &FileHeader) -> (r: u64)
        ensures
            r == self.chunk_size * header.block_size,
    {
        let chunk_size = self.chunk_size;
        let block_size = header.block_size;
        assert(0 <= chunk_size * block_size <= u32::MAX * u32::MAX) by (nonlinear_arith)
            requires
                0 <= chunk_size <= u32::MAX,
                0 <= block_size <= u32::MAX,
        ;
        chunk_size as u64 * block_size as u64
    }
}

proof fn lemma_le16(n: nat)
    requires
        n < 65536,
    ensures
        le16(n).len() == 2,
        le_value(le16(n)) == n,
{
    let b = le16(n);
    reveal_with_fuel(le_value, 3);
    assert(b.skip(1).skip(1) =~= Seq::<u8>::empty());
    assert(b.skip(1)[0] == b[1]);
}

proof fn lemma_le32(n: nat)
    requires
        n <= u32::MAX,
    ensures
        le32(n).len() == 4,
        le_value(le32(n)) == n,
{
    let b = le32(n);
    let low = n % 65536;
    let high = n / 65536;
    lemma_le16(low);
    lemma_le16(high);
    reveal_with_fuel(le_value, 3);
    assert(b.skip(1).skip(1) =~= le16(high));
    assert(b.skip(1)[0] == b[1]);
    assert(b[0] == le16(low)[0] && b[1] == le16(low)[1]);
    assert(le16(low).skip(1).skip(1) =~= Seq::<u8>::empty());
    assert(le16(low).skip(1)[0] == le16(low)[1]);
}

/// Reading the bytes of a file header gives the header back.
pub proof fn law_file_header_round_trip(h: FileHeader)
    ensures
        file_header_bytes(h).len() == FILE_HEADER_BYTES_LEN,
        parsed_file_header(file_header_bytes(h)) == Ok::<FileHeader, ParseError>(h),
{
    let b = file_header_bytes(h);
    lemma_le32(0xed26ff3a);
    lemma_le16(1);
    lemma_le16(0);
    lemma_le16(28);
    lemma_le16(12);
    lemma_le32(h.block_size as nat);
    lemma_le32(h.blocks as nat);
    lemma_le32(h.chunks as nat);
    lemma_le32(h.checksum as nat);
    assert(b.subrange(0, 4) =~= le32(0xed26ff3a));
    assert(b.subrange(4, 6) =~= le16(1));
    assert(b.subrange(6, 8) =~= le16(0));
    assert(b.subrange(8, 10) =~= le16(28));
    assert(b.subrange(10, 12) =~= le16(12));
    assert(b.subrange(12, 16) =~= le32(h.block_size as nat));
    assert(b.subrange(16, 20) =~= le32(h.blocks as nat));
    assert(b.subrange(20, 24) =~= le32(h.chunks as nat));
    assert(b.subrange(24, 28) =~= le32(h.checksum as nat));
}

/// Reading the bytes of a chunk header gives the header back.
pub proof fn law_chunk_header_round_trip(h: ChunkHeader)
    ensures
        chunk_header_bytes(h).len() == CHUNK_HEADER_BYTES_LEN,
        parsed_chunk_header(chunk_header_bytes(h)) == Ok::<ChunkHeader, ParseError>(h),
{
    let b = chunk_header_bytes(h);
    lemma_le16(chunk_type_number(h.chunk_type));
    lemma_le16(0);
    lemma_le32(h.chunk_size as nat);
    lemma_le32(h.total_size as nat);
    assert(b.subrange(0, 2) =~= le16(chunk_type_number(h.chunk_type)));
    assert(b.subrange(4, 8) =~= le32(h.chunk_size as nat));
    assert(b.subrange(8, 12) =~= le32(h.total_size as nat));
}

/// Numbers are read least significant byte first.
pub proof fn law_least_significant_first(bytes: Seq<u8>)
    ensures
        bytes.len() == 0 ==> le_value(bytes) == 0,
        bytes.len() > 0 ==> le_value(bytes) == bytes[0] + 256 * le_value(bytes.skip(1)),
{
}

/// Numbers are written least significant byte first.
pub proof fn law_bytes_of_numbers(n: nat)
    ensures
        n < 65536 ==> le16(n).len() == 2 && le16(n)[0] == n % 256 && le16(n)[1] == n / 256,
        n <= u32::MAX ==> le32(n).len() == 4 && le32(n)[0] == n % 256 && le32(n)[1] == n / 256
            % 256 && le32(n)[2] == n / 65536 % 256 && le32(n)[3] == n / 16777216,
{
}

/// What skips blocks has no bytes of its own behind its header, and what holds blocks has them all
/// there, as far as that can be said in four bytes.
pub proof fn law_chunk_sizes(blocks: u32, block_size: u32)
    ensures
        dontcare_header(blocks).total_size == 12,
        dontcare_header(blocks).chunk_size == blocks,
        raw_header(blocks, block_size).chunk_size == blocks,
        12 + blocks * block_size <= u32::MAX ==> raw_header(blocks, block_size).total_size == 12
            + blocks * block_size,
        12 + blocks * block_size > u32::MAX ==> raw_header(blocks, block_size).total_size
            == u32::MAX,
{
    let a = blocks as int;
    let b = block_size as int;
    assert(0 <= a * b) by (nonlinear_arith)
        requires
            0 <= a,
            0 <= b,
    ;
}

} // verus!
