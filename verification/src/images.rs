//! Images that are written to volumes: sparse images, boot files of Rockchip, and the block maps
//! that go with images.

use vstd::prelude::*;

use crate::path::{
    extension_of, lemma_without_extension, strip_extension, without_extension,
};
use crate::fastboot::{
    chunk_holds, chunk_image, chunks_image, expanded_blocks, flash_chunks, holds, image, joined,
    law_joined_is_flat, zeros, ChunkView,
};
use crate::sparse::{
    chunk_header_bytes, decode_chunk_header, decode_file_header, dontcare_header,
    file_header_bytes, law_chunk_header_round_trip, law_file_header_round_trip,
    law_least_significant_first, le_value,
    parsed_chunk_header, parsed_file_header, raw_header, ChunkHeader, ChunkType, FileHeader,
    ParseError,
};
use crate::text::{chars_of, str_eq, texts};

verus! {

/// What to do next to write a sparse image.
#[derive(Copy, Clone, Debug, PartialEq, Eq)]
pub enum AimgAction {
    /// Read the next chunk header.
    ReadChunkHeader,
    /// Copy so many bytes of the image.
    Copy(u64),
    /// Read the four bytes to fill the output with.
    ReadFill,
    /// Write the four bytes so many times.
    Fill([u8; 4], u64),
    /// Move in the output.
    Seek(i64),
    /// Nothing to do for this chunk.
    Skip,
    /// All was written: shut the output down.
    Shutdown,
}

/// Why an image is not written.
#[derive(Copy, Clone, Debug, PartialEq, Eq, Structural)]
pub enum AimgError {
    /// Its header is none.
    FileHeader(ParseError),
    /// The header of a chunk is none.
    ChunkHeader(ParseError),
}

impl AimgError {
    /// What could not be done.
    pub fn message(&self) -> (r: &'static str)
        ensures
            r@ == match *self {
                AimgError::FileHeader(_) => "Parsing android sparse image header"@,
                AimgError::ChunkHeader(_) => "Parsing chunk header"@,
            },
    {
        match self {
            AimgError::FileHeader(_) => "Parsing android sparse image header",
            AimgError::ChunkHeader(_) => "Parsing chunk header",
        }
    }
}

/// How many bytes a chunk has in the output.
pub open spec fn out_bytes(header: FileHeader, chunk: ChunkHeader) -> int {
    chunk.chunk_size * header.block_size
}

/// The number of eight bytes as a signed one.
pub open spec fn as_signed(n: int) -> int {
    if n >= 0x8000_0000_0000_0000 {
        n - 0x1_0000_0000_0000_0000
    } else {
        n
    }
}

/// What to do for a chunk.
pub open spec fn chunk_action(header: FileHeader, chunk: ChunkHeader) -> AimgAction {
    match chunk.chunk_type {
        ChunkType::Raw => AimgAction::Copy(out_bytes(header, chunk) as u64),
        ChunkType::Fill => AimgAction::ReadFill,
        ChunkType::DontCare => AimgAction::Seek(as_signed(out_bytes(header, chunk)) as i64),
        ChunkType::Crc32 => AimgAction::Skip,
    }
}

/// Writes a sparse image, chunk by chunk.
#[derive(Copy, Clone, Debug)]
pub struct AimgWriter {
    /// The header of the image.
    pub header: FileHeader,
    /// How many chunks were begun.
    pub begun: u32,
    /// How many bytes the last of them has in the output.
    pub out_size: u64,
}

impl AimgWriter {
    /// Begins with the header of the image.
    pub fn new(bytes: &[u8; 28]) -> (r: Result<Self, AimgError>)
        ensures
            match parsed_file_header(bytes@) {
                Ok(header) => r is Ok && r->Ok_0.header == header && r->Ok_0.begun == 0
                    && r->Ok_0.out_size == 0,
                Err(e) => r == Err::<Self, AimgError>(AimgError::FileHeader(e)),
            },
    {
        match decode_file_header(bytes) {
            Ok(header) => Ok(AimgWriter { header, begun: 0, out_size: 0 }),
            Err(e) => Err(AimgError::FileHeader(e)),
        }
    }

    /// What to do once the chunks that were begun are written.
    pub fn next(&self) -> (r: AimgAction)
        ensures
            r == if self.begun < self.header.chunks {
                AimgAction::ReadChunkHeader
            } else {
                AimgAction::Shutdown
            },
    {
        if self.begun < self.header.chunks {
            AimgAction::ReadChunkHeader
        } else {
            AimgAction::Shutdown
        }
    }

    /// What to do for the chunk with this header.
    pub fn on_chunk_header(&mut self, bytes: &[u8; 12]) -> (r: Result<AimgAction, AimgError>)
        requires
            old(self).begun < old(self).header.chunks,
        ensures
            final(self).header == old(self).header,
            match parsed_chunk_header(bytes@) {
                Ok(chunk) => {
                    &&& r == Ok::<AimgAction, AimgError>(chunk_action(old(self).header, chunk))
                    &&& final(self).begun == old(self).begun + 1
                    &&& final(self).out_size == out_bytes(old(self).header, chunk)
                },
                Err(e) => {
                    &&& r == Err::<AimgAction, AimgError>(AimgError::ChunkHeader(e))
                    &&& *final(self) == *old(self)
                },
            },
    {
        match decode_chunk_header(bytes) {
            Ok(chunk) => {
                let out_size: u64 = chunk.out_size(&self.header);
                self.begun = self.begun + 1;
                self.out_size = out_size;
                Ok(
                    match chunk.chunk_type {
                        ChunkType::Raw => AimgAction::Copy(out_size),
                        ChunkType::Fill => AimgAction::ReadFill,
                        ChunkType::DontCare => {
                            if out_size >= 0x8000_0000_0000_0000 {
                                AimgAction::Seek(
                                    (out_size as i128 - 0x1_0000_0000_0000_0000) as i64,
                                )
                            } else {
                                AimgAction::Seek(out_size as i64)
                            }
                        },
                        ChunkType::Crc32 => AimgAction::Skip,
                    },
                )
            },
            Err(e) => Err(AimgError::ChunkHeader(e)),
        }
    }

    /// What to do once the four bytes to fill the output with are read.
    pub fn on_fill(&self, pattern: [u8; 4]) -> (r: AimgAction)
        ensures
            r == AimgAction::Fill(pattern, self.out_size / 4),
    {
        AimgAction::Fill(pattern, self.out_size / 4)
    }
}

/// What a chunk of a sparse image brings to the output.
pub enum Written {
    /// Bytes.
    Data(Seq<u8>),
    /// Four bytes, so many times.
    Fill(Seq<u8>, int),
    /// Nothing, so many bytes long.
    Gap(int),
}

/// What so many chunks bring to the output, where the bytes are just these chunks: as
/// [`chunk_action`] says, one after the other.
pub open spec fn written(header: FileHeader, count: nat, bytes: Seq<u8>) -> Option<Seq<Written>>
    decreases count,
{
    if count == 0 {
        if bytes.len() == 0 {
            Some(Seq::empty())
        } else {
            None
        }
    } else if bytes.len() < 12 {
        None
    } else {
        match parsed_chunk_header(bytes.take(12)) {
            Err(_) => None,
            Ok(chunk) => {
                let n = out_bytes(header, chunk);
                let rest = bytes.skip(12);
                match chunk.chunk_type {
                    ChunkType::Raw => if 0 <= n <= rest.len() {
                        after(
                            Written::Data(rest.take(n)),
                            written(header, (count - 1) as nat, rest.skip(n)),
                        )
                    } else {
                        None
                    },
                    ChunkType::Fill => if 4 <= rest.len() {
                        after(
                            Written::Fill(rest.take(4), n / 4),
                            written(header, (count - 1) as nat, rest.skip(4)),
                        )
                    } else {
                        None
                    },
                    ChunkType::DontCare => after(
                        Written::Gap(n),
                        written(header, (count - 1) as nat, rest),
                    ),
                    ChunkType::Crc32 => written(header, (count - 1) as nat, rest),
                }
            },
        }
    }
}

/// One thing, and the others after it.
pub open spec fn after(first: Written, others: Option<Seq<Written>>) -> Option<Seq<Written>> {
    match others {
        Some(others) => Some(seq![first] + others),
        None => None,
    }
}

proof fn lemma_written_joined(header: FileHeader, a: nat, x: Seq<u8>, b: nat, y: Seq<u8>)
    requires
        written(header, a, x) is Some,
        written(header, b, y) is Some,
    ensures
        written(header, a + b, x + y) == Some(
            written(header, a, x)->0 + written(header, b, y)->0,
        ),
    decreases a,
{
    let o2 = written(header, b, y)->0;
    if a == 0 {
        assert(x + y =~= y);
        assert(Seq::<Written>::empty() + o2 =~= o2);
    } else {
        let chunk = parsed_chunk_header(x.take(12))->Ok_0;
        let n = out_bytes(header, chunk);
        let rest = x.skip(12);
        assert((x + y).take(12) =~= x.take(12));
        assert((x + y).skip(12) =~= rest + y);
        let k = match chunk.chunk_type {
            ChunkType::Raw => n,
            ChunkType::Fill => 4,
            _ => 0,
        };
        assert(rest.skip(0) =~= rest);
        assert((rest + y).skip(0) =~= rest + y);
        assert((rest + y).take(k) =~= rest.take(k));
        assert((rest + y).skip(k) =~= rest.skip(k) + y);
        lemma_written_joined(header, (a - 1) as nat, rest.skip(k), b, y);
        let o1 = written(header, (a - 1) as nat, rest.skip(k))->0;
        assert(((a - 1) as nat + b) as nat == (a + b - 1) as nat);
        match chunk.chunk_type {
            ChunkType::Raw => {
                let first = Written::Data(rest.take(n));
                assert(seq![first] + (o1 + o2) =~= (seq![first] + o1) + o2);
            },
            ChunkType::Fill => {
                let first = Written::Fill(rest.take(4), n / 4);
                assert(seq![first] + (o1 + o2) =~= (seq![first] + o1) + o2);
            },
            ChunkType::DontCare => {
                let first = Written::Gap(n);
                assert(seq![first] + (o1 + o2) =~= (seq![first] + o1) + o2);
            },
            ChunkType::Crc32 => {},
        }
    }
}

/// What flashing a chunk brings to the output, where the one before it ended at a block.
pub open spec fn chunk_output(chunk: ChunkView, from: nat) -> Seq<Written> {
    let data = Written::Data(joined(chunk.pieces) + zeros(chunk.end_padding()));
    if chunk.offset != from {
        seq![Written::Gap((chunk.offset - from) * 4096), data]
    } else {
        seq![data]
    }
}

/// What flashing chunks brings to the output: the data of each, filled up to whole blocks, with
/// gaps before them.
pub open spec fn output(chunks: Seq<ChunkView>) -> Seq<Written>
    decreases chunks.len(),
{
    if chunks.len() == 0 {
        Seq::empty()
    } else {
        output(chunks.drop_last()) + chunk_output(
            chunks.last(),
            expanded_blocks(chunks.drop_last()),
        )
    }
}

/// Chunks with a gap before each, but for one at the start.
pub open spec fn apart(chunks: Seq<ChunkView>) -> bool {
    &&& forall|i: int| 0 <= i < chunks.len() ==> (#[trigger] chunks[i]).wf()
    &&& forall|i: int, j: int|
        #![trigger chunks[i], chunks[j]]
        0 <= i && j == i + 1 && j < chunks.len() ==> chunks[i].end_blocks() < chunks[j].offset
}

/// The header of the image of chunks.
pub open spec fn image_header(chunks: Seq<ChunkView>) -> FileHeader {
    FileHeader {
        block_size: 4096,
        blocks: expanded_blocks(chunks) as u32,
        chunks: flash_chunks(chunks) as u32,
        checksum: 0,
    }
}

/// Writing the image of chunks brings their data to the output, each at its place, where there
/// is a gap before each chunk but one at the start.
pub proof fn law_image_is_written(chunks: Seq<ChunkView>)
    requires
        apart(chunks),
        flash_chunks(chunks) <= u32::MAX,
    ensures
        parsed_file_header(image(chunks).take(28)) == Ok::<FileHeader, ParseError>(
            image_header(chunks),
        ),
        written(
            image_header(chunks),
            image_header(chunks).chunks as nat,
            image(chunks).skip(28),
        ) == Some(output(chunks)),
{
    let header = image_header(chunks);
    law_file_header_round_trip(header);
    assert(image(chunks).take(28) =~= file_header_bytes(header));
    assert(image(chunks).skip(28) =~= chunks_image(chunks));
    lemma_chunks_written(chunks, header);
}

proof fn lemma_chunks_written(chunks: Seq<ChunkView>, header: FileHeader)
    requires
        apart(chunks),
        header.block_size == 4096,
    ensures
        written(header, flash_chunks(chunks), chunks_image(chunks)) == Some(output(chunks)),
    decreases chunks.len(),
{
    if chunks.len() > 0 {
        let rest = chunks.drop_last();
        let last = chunks.last();
        assert forall|i: int| 0 <= i < rest.len() implies (#[trigger] rest[i]).wf() by {
            assert(rest[i] == chunks[i]);
        }
        assert forall|i: int, j: int| #![trigger rest[i], rest[j]]
            0 <= i && j == i + 1 && j < rest.len() implies rest[i].end_blocks()
            < rest[j].offset by {
            assert(chunks[i].end_blocks() < chunks[j].offset);
        }
        lemma_chunks_written(rest, header);
        let from = expanded_blocks(rest);
        assert(chunks[chunks.len() - 1] == last);
        if rest.len() > 0 {
            assert(chunks[chunks.len() - 2].end_blocks() < chunks[chunks.len() - 1].offset);
            assert(rest.last() == chunks[chunks.len() - 2]);
            assert(rest[0] == chunks[0]);
        } else {
            assert(chunks[0] == last);
        }
        let count: nat = if last.offset != from {
            2
        } else {
            1
        };
        lemma_chunk_written(last, from, header);
        lemma_written_joined(
            header,
            flash_chunks(rest),
            chunks_image(rest),
            count,
            chunk_image(last, from),
        );
        assert(flash_chunks(chunks) == flash_chunks(rest) + count);
    }
}

#[verifier::spinoff_prover]
#[verifier::rlimit(50)]
proof fn lemma_chunk_written(chunk: ChunkView, from: nat, header: FileHeader)
    requires
        chunk.wf(),
        from <= chunk.offset,
        header.block_size == 4096,
    ensures
        written(
            header,
            if chunk.offset != from {
                2
            } else {
                1
            },
            chunk_image(chunk, from),
        ) == Some(chunk_output(chunk, from)),
{
    let raw = raw_header(chunk.blocks() as u32, 4096);
    let data = joined(chunk.pieces) + zeros(chunk.end_padding());
    let body = chunk_header_bytes(raw) + data;
    law_chunk_header_round_trip(raw);
    reveal_with_fuel(written, 3);
    assert(body.take(12) =~= chunk_header_bytes(raw));
    assert(body.skip(12) =~= data);
    assert(out_bytes(header, raw) == chunk.blocks() * 4096);
    assert(data.len() == chunk.blocks() * 4096);
    assert(data.take(data.len() as int) =~= data);
    assert(data.skip(data.len() as int) =~= Seq::empty());
    let first = Written::Data(data);
    assert(seq![first] + Seq::<Written>::empty() =~= seq![first]);
    assert(written(header, 1, body) == Some(seq![first]));
    if chunk.offset != from {
        let gap = dontcare_header((chunk.offset - from) as u32);
        law_chunk_header_round_trip(gap);
        let all = chunk_header_bytes(gap) + body;
        assert(chunk_image(chunk, from) =~= all);
        assert(all.take(12) =~= chunk_header_bytes(gap));
        assert(all.skip(12) =~= body);
        assert(out_bytes(header, gap) == (chunk.offset - from) * 4096);
        assert(written(header, 2, all) == Some(
            seq![Written::Gap((chunk.offset - from) * 4096)] + seq![first],
        ));
        assert(seq![Written::Gap((chunk.offset - from) * 4096)] + seq![first] =~= chunk_output(
            chunk,
            from,
        ));
    } else {
        assert(chunk_image(chunk, from) =~= body);
        assert(seq![first] =~= chunk_output(chunk, from));
    }
}

/// Blobs of one kind in a boot file.
#[derive(Copy, Clone, Debug, PartialEq, Eq, Structural)]
pub struct BootEntries {
    /// How many there are.
    pub count: u8,
    /// Where the first is described.
    pub offset: u32,
    /// How many bytes describe one.
    pub size: u8,
}

/// What a boot file holds.
#[derive(Copy, Clone, Debug, PartialEq, Eq, Structural)]
pub struct BootHeader {
    /// Blobs that set the memory up.
    pub entry_471: BootEntries,
    /// Blobs that go to the memory.
    pub entry_472: BootEntries,
}

/// The blobs of one kind that six bytes tell of.
pub open spec fn boot_entries(bytes: Seq<u8>) -> BootEntries {
    BootEntries {
        count: bytes[0],
        offset: le_value(bytes.subrange(1, 5)) as u32,
        size: bytes[5],
    }
}

/// Whether the bytes start like a boot file: with `BOOT` or `LDR `.
pub open spec fn is_boot_file(bytes: Seq<u8>) -> bool {
    let tag = bytes.take(4);
    tag == seq![0x42u8, 0x4f, 0x4f, 0x54] || tag == seq![0x4cu8, 0x44, 0x52, 0x20]
}

/// `rockfile::boot::RkBootHeader::from_bytes` refuses bytes that do not start like a boot file.
/// Of all others it reads, among other things, where the two kinds of blobs are, each least
/// significant byte first.
#[verifier::external_body]
fn parse_boot_header(bytes: &[u8; 102]) -> (r: Option<BootHeader>)
    ensures
        r == if is_boot_file(bytes@) {
            Some(
                BootHeader {
                    entry_471: boot_entries(bytes@.subrange(25, 31)),
                    entry_472: boot_entries(bytes@.subrange(31, 37)),
                },
            )
        } else {
            None
        },
{
    let header = rockfile::boot::RkBootHeader::from_bytes(bytes)?;
    let (a, b) = (header.entry_471, header.entry_472);
    Some(BootHeader {
        entry_471: BootEntries { count: a.count, offset: a.offset, size: a.size },
        entry_472: BootEntries { count: b.count, offset: b.offset, size: b.size },
    })
}

/// What describes a blob.
#[derive(Debug)]
pub struct BootEntry {
    /// Its name.
    pub name: Vec<u16>,
    /// Where it is.
    pub data_offset: u32,
    /// How long it is.
    pub data_size: u32,
    /// How many milliseconds to wait behind it.
    pub data_delay: u32,
}

/// Numbers of two bytes each.
pub open spec fn units(bytes: Seq<u8>) -> Seq<u16>
    decreases bytes.len(),
{
    if bytes.len() < 2 {
        Seq::empty()
    } else {
        seq![le_value(bytes.take(2)) as u16] + units(bytes.skip(2))
    }
}

/// `rockfile::boot::RkBootEntry::from_bytes` reads the name, twenty units of two bytes, and the
/// three numbers behind it, each least significant byte first.
#[verifier::external_body]
fn parse_boot_entry(bytes: &[u8; 57]) -> (r: BootEntry)
    ensures
        r.name@ == units(bytes@.subrange(5, 45)),
        r.data_offset == le_value(bytes@.subrange(45, 49)),
        r.data_size == le_value(bytes@.subrange(49, 53)),
        r.data_delay == le_value(bytes@.subrange(53, 57)),
{
    let entry = rockfile::boot::RkBootEntry::from_bytes(bytes);
    BootEntry {
        name: entry.name.to_vec(),
        data_offset: entry.data_offset,
        data_size: entry.data_size,
        data_delay: entry.data_delay,
    }
}

/// The text that units of UTF-16 stand for.
pub open spec fn utf16(units: Seq<u16>) -> Option<Seq<char>>
    decreases units.len(),
{
    if units.len() == 0 {
        Some(Seq::empty())
    } else if units[0] < 0xd800 || units[0] > 0xdfff {
        match utf16(units.skip(1)) {
            Some(rest) => Some(seq![units[0] as char] + rest),
            None => None,
        }
    } else if units[0] <= 0xdbff && units.len() > 1 && 0xdc00 <= units[1] <= 0xdfff {
        match utf16(units.skip(2)) {
            Some(rest) => Some(
                seq![(0x10000 + (units[0] - 0xd800) * 0x400 + (units[1] - 0xdc00)) as char] + rest,
            ),
            None => None,
        }
    } else {
        None
    }
}

/// A text with another behind it, where there is one.
spec fn followed_by(head: Seq<char>, rest: Option<Seq<char>>) -> Option<Seq<char>> {
    match rest {
        Some(rest) => Some(head + rest),
        None => None,
    }
}

fn decode_utf16(units: &Vec<u16>) -> (r: Option<String>)
    ensures
        match utf16(units@) {
            Some(text) => r is Some && r->0@ == text,
            None => r is None,
        },
{
    let ghost all = units@;
    let mut r = String::new();
    let n: usize = units.len();
    let mut i: usize = 0;
    proof {
        assert(all.skip(0) =~= all);
        if let Some(text) = utf16(all) {
            assert(r@ + text =~= text);
        }
    }
    while i < n
        invariant
            all == units@,
            n == all.len(),
            i <= n,
            utf16(all) == followed_by(r@, utf16(all.skip(i as int))),
        decreases n - i,
    {
        let ghost before = r@;
        let ghost rest = all.skip(i as int);
        let first: u32 = units[i] as u32;
        assert(rest[0] == all[i as int]);
        if first < 0xd800 || first > 0xdfff {
            assert(rest.skip(1) =~= all.skip(i + 1));
            match char::from_u32(first) {
                Some(c) => r.push(c),
                None => return None,
            }
            proof {
                if let Some(text) = utf16(all.skip(i + 1)) {
                    assert(before + (seq![first as char] + text) =~= r@ + text);
                }
            }
            i = i + 1;
        } else {
            if first > 0xdbff || n - i < 2 {
                return None;
            }
            let second: u32 = units[i + 1] as u32;
            assert(rest[1] == all[i + 1]);
            if second < 0xdc00 || second > 0xdfff {
                return None;
            }
            assert(rest.skip(2) =~= all.skip(i + 2));
            let code: u32 = 0x10000 + (first - 0xd800) * 0x400 + (second - 0xdc00);
            match char::from_u32(code) {
                Some(c) => r.push(c),
                None => return None,
            }
            proof {
                if let Some(text) = utf16(all.skip(i + 2)) {
                    assert(before + (seq![code as char] + text) =~= r@ + text);
                }
            }
            i = i + 2;
        }
    }
    assert(all.skip(n as int) =~= Seq::<u16>::empty());
    assert(r@ + Seq::<char>::empty() =~= r@);
    Some(r)
}

/// What a boot file holds, if the bytes are the start of one.
pub fn boot_header(bytes: &[u8; 102]) -> (r: Result<BootHeader, &'static str>)
    ensures
        if is_boot_file(bytes@) {
            &&& r is Ok
            &&& r->Ok_0.entry_471 == boot_entries(bytes@.subrange(25, 31))
            &&& r->Ok_0.entry_472 == boot_entries(bytes@.subrange(31, 37))
        } else {
            r is Err && r->Err_0@ == "Failed to parse header"@
        },
{
    match parse_boot_header(bytes) {
        Some(header) => Ok(header),
        None => Err("Failed to parse header"),
    }
}

/// A blob to upload.
#[derive(Debug)]
pub struct RockBlob {
    /// What it is called.
    pub name: String,
    /// Where it is in the boot file.
    pub offset: u64,
    /// How long it is.
    pub length: u64,
    /// How many milliseconds to wait once it was uploaded.
    pub delay: u64,
}

/// Uploads the blobs of one kind.
#[derive(Copy, Clone, Debug)]
pub struct RockDownload {
    /// The blobs.
    pub entries: BootEntries,
    /// How many were begun.
    pub begun: u8,
}

impl RockDownload {
    /// Before the first blob.
    pub fn new(entries: BootEntries) -> (r: Self)
        ensures
            r.entries == entries,
            r.begun == 0,
    {
        RockDownload { entries, begun: 0 }
    }

    /// Where the next blob is described, if there is one. The place counts in a byte from the
    /// first.
    pub fn next(&self) -> (r: Option<u64>)
        requires
            self.begun < self.entries.count ==> self.entries.size * self.begun <= u8::MAX,
        ensures
            r == if self.begun < self.entries.count {
                Some((self.entries.offset + self.entries.size * self.begun) as u64)
            } else {
                None
            },
    {
        if self.begun < self.entries.count {
            let place: u8 = self.entries.size * self.begun;
            Some(self.entries.offset as u64 + place as u64)
        } else {
            None
        }
    }

    /// The blob that is described, unless its name is no text.
    pub fn on_entry(&mut self, bytes: &[u8; 57]) -> (r: Option<RockBlob>)
        requires
            old(self).begun < old(self).entries.count,
        ensures
            final(self).entries == old(self).entries,
            final(self).begun == old(self).begun + 1,
            match utf16(units(bytes@.subrange(5, 45))) {
                Some(name) => {
                    &&& r is Some
                    &&& r->0.name@ == name
                    &&& r->0.offset == le_value(bytes@.subrange(45, 49))
                    &&& r->0.length == le_value(bytes@.subrange(49, 53))
                    &&& r->0.delay == le_value(bytes@.subrange(53, 57))
                },
                None => r is None,
            },
    {
        self.begun = self.begun + 1;
        let entry = parse_boot_entry(bytes);
        match decode_utf16(&entry.name) {
            Some(name) => Some(
                RockBlob {
                    name,
                    offset: entry.data_offset as u64,
                    length: entry.data_size as u64,
                    delay: entry.data_delay as u64,
                },
            ),
            None => None,
        }
    }
}

/// The names under which the block map of an image may be found: behind its name, then behind
/// its name with one extension less at a time.
pub open spec fn bmap_names(img: Seq<char>) -> Seq<Seq<char>>
    decreases img.len(),
    via bmap_names_shrink
{
    let first = seq![img + ".bmap"@];
    if img.len() == 0 || img.last() == '/' {
        first
    } else {
        match without_extension(img) {
            Some(shorter) => first + bmap_names(shorter),
            None => first,
        }
    }
}

#[via_fn]
proof fn bmap_names_shrink(img: Seq<char>) {
    lemma_without_extension(img);
}

/// The names under which the block map of an image may be found.
pub fn bmap_candidates(img: &str) -> (r: Vec<String>)
    ensures
        texts(r@) == bmap_names(img@),
{
    let mut r: Vec<String> = Vec::new();
    let mut current = img.to_owned();
    proof {
        assert(texts(r@) + bmap_names(current@) =~= bmap_names(img@));
    }
    loop
        invariant
            texts(r@) + bmap_names(current@) == bmap_names(img@),
        decreases current@.len(),
    {
        let ghost before = r@;
        let mut name = current.clone();
        name.append(".bmap");
        r.push(name);
        assert(texts(r@) =~= texts(before) + seq![current@ + ".bmap"@]);
        let chars = chars_of(current.as_str());
        let n: usize = chars.len();
        if n == 0 || chars[n - 1] == '/' {
            return r;
        }
        match strip_extension(current.as_str()) {
            Some(shorter) => {
                proof {
                    lemma_without_extension(current@);
                    assert(texts(r@) + bmap_names(shorter@) =~= texts(before) + bmap_names(
                        current@,
                    ));
                }
                current = shorter;
            },
            None => {
                return r;
            },
        }
    }
}

/// The names are those of the image, cut off at some place, with `.bmap` behind. The first is
/// the whole name.
pub proof fn law_bmap_names(img: Seq<char>, i: int)
    requires
        0 <= i < bmap_names(img).len(),
    ensures
        bmap_names(img)[0] == img + ".bmap"@,
        exists|k: int| 0 <= k <= img.len() && bmap_names(img)[i] == #[trigger] img.take(k)
            + ".bmap"@,
    decreases img.len(),
{
    assert(img.take(img.len() as int) =~= img);
    if i > 0 {
        lemma_without_extension(img);
        let shorter = without_extension(img)->0;
        law_bmap_names(shorter, i - 1);
        let k = choose|k: int| 0 <= k <= shorter.len() && bmap_names(shorter)[i - 1]
            == #[trigger] shorter.take(k) + ".bmap"@;
        assert(shorter.take(k) =~= img.take(k));
        assert(bmap_names(img)[i] == bmap_names(shorter)[i - 1]);
    }
}

/// The first of the names that exists.
pub open spec fn first_existing(names: Seq<Seq<char>>, present: Seq<bool>) -> Option<Seq<char>>
    decreases names.len(),
{
    if names.len() == 0 {
        None
    } else if present[0] {
        Some(names[0])
    } else {
        first_existing(names.skip(1), present.skip(1))
    }
}

/// The block map of an image: the first of the names that exists.
pub fn find_bmap(candidates: &Vec<String>, present: &Vec<bool>) -> (r: Option<String>)
    requires
        candidates@.len() == present@.len(),
    ensures
        match first_existing(texts(candidates@), present@) {
            Some(name) => r is Some && r->0@ == name,
            None => r is None,
        },
{
    proof {
        assert(texts(candidates@).skip(0) =~= texts(candidates@));
        assert(present@.skip(0) =~= present@);
    }
    for i in 0..candidates.len()
        invariant
            candidates@.len() == present@.len(),
            first_existing(texts(candidates@), present@) == first_existing(
                texts(candidates@).skip(i as int),
                present@.skip(i as int),
            ),
    {
        proof {
            assert(texts(candidates@).skip(i as int).skip(1) =~= texts(candidates@).skip(i + 1));
            assert(present@.skip(i as int).skip(1) =~= present@.skip(i + 1));
        }
        if present[i] {
            return Some(candidates[i].clone());
        }
    }
    None
}

/// Whether the image is compressed, by its extension.
pub fn is_compressed(img: &str) -> (r: bool)
    ensures
        r == match crate::path::extension(img@) {
            Some(extension) => extension == "gz"@,
            None => false,
        },
{
    match extension_of(img) {
        Some(extension) => str_eq(extension.as_str(), "gz"),
        None => false,
    }
}

/// A chunk of data is copied, a chunk that skips blocks is skipped, a chunk that repeats four bytes
/// asks for them, and a checksum does nothing to the output. Each is as long as its blocks.
pub proof fn law_chunks_are_told_apart(header: FileHeader, chunk: ChunkHeader)
    ensures
        chunk_action(header, chunk) is Copy <==> chunk.chunk_type == ChunkType::Raw,
        chunk_action(header, chunk) is ReadFill <==> chunk.chunk_type == ChunkType::Fill,
        chunk_action(header, chunk) is Seek <==> chunk.chunk_type == ChunkType::DontCare,
        chunk_action(header, chunk) is Skip <==> chunk.chunk_type == ChunkType::Crc32,
        chunk_action(header, chunk) matches AimgAction::Copy(n) ==> n == chunk.chunk_size
            * header.block_size,
        chunk_action(header, chunk) matches AimgAction::Seek(n) ==> {
            ||| n == chunk.chunk_size * header.block_size
            ||| chunk.chunk_size * header.block_size > i64::MAX
        },
        out_bytes(header, chunk) == chunk.chunk_size * header.block_size,
{
    let a = chunk.chunk_size as int;
    let b = header.block_size as int;
    assert(0 <= a * b <= 0xffff_ffff * 0xffff_ffff) by (nonlinear_arith)
        requires
            0 <= a <= 0xffff_ffff,
            0 <= b <= 0xffff_ffff,
    ;
}

/// How far something that is brought to the output moves it.
pub open spec fn width(w: Written) -> int {
    match w {
        Written::Data(data) => data.len() as int,
        Written::Fill(pattern, n) => 4 * n,
        Written::Gap(n) => n,
    }
}

/// The byte that is brought to a place of the output, if one is.
pub open spec fn brought(ws: Seq<Written>, at: int) -> Option<u8>
    decreases ws.len(),
{
    if ws.len() == 0 || at < 0 {
        None
    } else if at < width(ws[0]) {
        match ws[0] {
            Written::Data(data) => Some(data[at]),
            Written::Fill(pattern, n) => Some(pattern[at % 4]),
            Written::Gap(n) => None,
        }
    } else {
        brought(ws.skip(1), at - width(ws[0]))
    }
}

/// How far all that is brought to the output moves it.
pub open spec fn total_width(ws: Seq<Written>) -> int
    decreases ws.len(),
{
    if ws.len() == 0 {
        0
    } else {
        width(ws[0]) + total_width(ws.skip(1))
    }
}

/// Nothing is brought before the place where the output is.
pub open spec fn moves_on(ws: Seq<Written>) -> bool {
    forall|i: int| 0 <= i < ws.len() ==> width(#[trigger] ws[i]) >= 0
}

proof fn lemma_brought_by_both(a: Seq<Written>, b: Seq<Written>, at: int)
    requires
        moves_on(a),
        0 <= at,
    ensures
        total_width(a) >= 0,
        total_width(a + b) == total_width(a) + total_width(b),
        brought(a + b, at) == if at < total_width(a) {
            brought(a, at)
        } else {
            brought(b, at - total_width(a))
        },
    decreases a.len(),
{
    if a.len() == 0 {
        assert(a + b =~= b);
    } else {
        let rest = a.skip(1);
        assert((a + b).skip(1) =~= rest + b);
        assert((a + b)[0] == a[0]);
        assert forall|i: int| 0 <= i < rest.len() implies width(#[trigger] rest[i]) >= 0 by {
            assert(rest[i] == a[i + 1]);
        }
        assert(width(a[0]) >= 0);
        if at >= width(a[0]) {
            lemma_brought_by_both(rest, b, at - width(a[0]));
        } else {
            lemma_brought_by_both(rest, b, 0);
        }
    }
}

/// Flashing chunks brings each of their bytes to its place, zeros to what is missing to whole
/// blocks, and nothing to any other place.
pub proof fn law_flashed_bytes_are_in_place(chunks: Seq<ChunkView>, at: int)
    requires
        apart(chunks),
        0 <= at,
    ensures
        total_width(output(chunks)) == if chunks.len() == 0 {
            0nat
        } else {
            chunks.last().end_blocks() * 4096
        },
        forall|byte: u8|
            holds(chunks, at, byte) ==> #[trigger] brought(output(chunks), at)
                == Some(byte),
        brought(output(chunks), at) matches Some(byte) ==> {
            ||| holds(chunks, at, byte)
            ||| byte == 0 && exists|i: int|
                0 <= i < chunks.len() && (#[trigger] chunks[i]).offset * 4096
                    + chunks[i].pieces.flatten().len() <= at < chunks[i].offset * 4096
                    + chunks[i].pieces.flatten().len() + 4096
        },
{
    lemma_flashed(chunks, at);
}

proof fn lemma_flashed(chunks: Seq<ChunkView>, at: int)
    requires
        apart(chunks),
        0 <= at,
    ensures
        moves_on(output(chunks)),
        total_width(output(chunks)) == if chunks.len() == 0 {
            0nat
        } else {
            chunks.last().end_blocks() * 4096
        },
        forall|byte: u8|
            holds(chunks, at, byte) ==> #[trigger] brought(output(chunks), at)
                == Some(byte),
        brought(output(chunks), at) matches Some(byte) ==> {
            ||| holds(chunks, at, byte)
            ||| byte == 0 && exists|i: int|
                0 <= i < chunks.len() && (#[trigger] chunks[i]).offset * 4096
                    + chunks[i].pieces.flatten().len() <= at < chunks[i].offset * 4096
                    + chunks[i].pieces.flatten().len() + 4096
        },
    decreases chunks.len(),
{
    if chunks.len() > 0 {
        let rest = chunks.drop_last();
        let last = chunks.last();
        assert forall|i: int| 0 <= i < rest.len() implies (#[trigger] rest[i]).wf() by {
            assert(rest[i] == chunks[i]);
        }
        assert forall|i: int, j: int| #![trigger rest[i], rest[j]]
            0 <= i && j == i + 1 && j < rest.len() implies rest[i].end_blocks()
            < rest[j].offset by {
            assert(chunks[i].end_blocks() < chunks[j].offset);
        }
        lemma_flashed(rest, at);
        let from = expanded_blocks(rest);
        if rest.len() > 0 {
            assert(chunks[chunks.len() - 2].end_blocks() < chunks[chunks.len() - 1].offset);
            assert(rest.last() == chunks[chunks.len() - 2]);
        }
        assert(from <= last.offset);
        law_joined_is_flat(last.pieces);
        let bytes = last.pieces.flatten();
        let data = joined(last.pieces) + zeros(last.end_padding());
        let more = chunk_output(last, from);
        let before = output(rest);
        lemma_brought_by_both(before, more, at);
        assert(data.len() == last.blocks() * 4096);
        let place = at - from * 4096;
        let gap = (last.offset - from) * 4096;
        reveal_with_fuel(brought, 3);
        reveal_with_fuel(total_width, 3);
        if last.offset != from {
            assert(more.skip(1) =~= seq![Written::Data(data)]);
            assert(more.skip(1).skip(1) =~= Seq::<Written>::empty());
        } else {
            assert(more.skip(1) =~= Seq::<Written>::empty());
        }
        assert forall|i: int| 0 <= i < output(chunks).len() implies width(
            #[trigger] output(chunks)[i],
        ) >= 0 by {
            if i < before.len() {
                assert(output(chunks)[i] == before[i]);
            } else {
                assert(output(chunks)[i] == more[i - before.len()]);
            }
        }
        assert forall|byte: u8| holds(chunks, at, byte) implies #[trigger] brought(
            output(chunks),
            at,
        ) == Some(byte) by {
            let i = choose|i: int|
                0 <= i < chunks.len() && chunk_holds(
                    #[trigger] chunks[i],
                    at,
                    byte,
                );
            if i < rest.len() {
                assert(chunk_holds(rest[i], at, byte));
                assert(holds(rest, at, byte));
                lemma_before_end(rest, i);
                law_joined_is_flat(rest[i].pieces);
            }
        }
        if brought(output(chunks), at) is Some {
            let byte = brought(output(chunks), at)->0;
            if at < from * 4096 {
                if holds(rest, at, byte) {
                    let i = choose|i: int|
                        0 <= i < rest.len() && chunk_holds(
                            #[trigger] rest[i],
                            at,
                            byte,
                        );
                    assert(chunk_holds(chunks[i], at, byte));
                } else {
                    let i = choose|i: int|
                        0 <= i < rest.len() && (#[trigger] rest[i]).offset * 4096
                            + rest[i].pieces.flatten().len() <= at < rest[i].offset * 4096
                            + rest[i].pieces.flatten().len() + 4096;
                    assert(chunks[i] == rest[i]);
                }
            } else {
                let k = at - last.offset * 4096;
                assert(0 <= k < data.len() && byte == data[k]);
                assert(chunks[chunks.len() - 1] == last);
                if k < bytes.len() {
                    assert(chunk_holds(chunks[chunks.len() - 1], at, byte));
                }
            }
        }
    }
}

proof fn lemma_before_end(chunks: Seq<ChunkView>, i: int)
    requires
        apart(chunks),
        0 <= i < chunks.len(),
    ensures
        chunks[i].end_blocks() <= chunks.last().end_blocks(),
    decreases chunks.len() - i,
{
    if i < chunks.len() - 1 {
        assert(chunks[i].end_blocks() < chunks[i + 1].offset);
        lemma_before_end(chunks, i + 1);
    }
}

/// The first name that exists is taken, and none where none exists.
pub proof fn law_first_existing(names: Seq<Seq<char>>, present: Seq<bool>, i: int)
    requires
        names.len() == present.len(),
        0 <= i < names.len(),
        forall|j: int| 0 <= j < i ==> !(#[trigger] present[j]),
    ensures
        present[i] ==> first_existing(names, present) == Some(names[i]),
        i == names.len() - 1 && !present[i] ==> first_existing(names, present) is None,
    decreases names.len(),
{
    if i > 0 {
        assert(!present[0]);
        assert forall|j: int| 0 <= j < i - 1 implies !(#[trigger] present.skip(1)[j]) by {
            assert(!present[j + 1]);
        }
        law_first_existing(names.skip(1), present.skip(1), i - 1);
    } else if names.len() == 1 {
        assert(names.skip(1) =~= Seq::<Seq<char>>::empty());
        assert(first_existing(names.skip(1), present.skip(1)) is None);
    }
}

/// The units of UTF-16 for a text.
pub open spec fn utf16_units(text: Seq<char>) -> Seq<u16>
    decreases text.len(),
{
    if text.len() == 0 {
        Seq::empty()
    } else {
        let c = text[0] as u32;
        (if c < 0x10000 {
            seq![c as u16]
        } else {
            seq![
                (0xd800 + (c - 0x10000) / 0x400) as u16,
                (0xdc00 + (c - 0x10000) % 0x400) as u16,
            ]
        }) + utf16_units(text.skip(1))
    }
}

proof fn lemma_units_of_char(c: char)
    ensures
        0 <= c as u32 <= 0xd7ff || 0xe000 <= c as u32 <= 0x10ffff,
        (c as u32) as char == c,
{
}

/// Every text is read back out of its units.
pub proof fn law_utf16_round_trip(text: Seq<char>)
    ensures
        utf16(utf16_units(text)) == Some(text),
    decreases text.len(),
{
    if text.len() > 0 {
        let rest = utf16_units(text.skip(1));
        law_utf16_round_trip(text.skip(1));
        let all = utf16_units(text);
        lemma_units_of_char(text[0]);
        let c = text[0] as u32;
        if c < 0x10000 {
            assert(all.skip(1) =~= rest);
            assert(all[0] as char == text[0]);
        } else {
            assert(all.skip(2) =~= rest);
            let high = (c - 0x10000) / 0x400;
            let low = (c - 0x10000) % 0x400;
            assert(0x10000 + high * 0x400 + low == c);
            assert(all[0] == 0xd800 + high && all[1] == 0xdc00 + low);
            assert((0x10000 + (all[0] - 0xd800) * 0x400 + (all[1] - 0xdc00)) as char == text[0]);
        }
        assert(seq![text[0]] + text.skip(1) =~= text);
    } else {
        assert(text =~= Seq::<char>::empty());
    }
}

/// A unit is made of two bytes, the lower one first.
pub proof fn law_units_are_pairs(bytes: Seq<u8>, i: int)
    requires
        0 <= i < bytes.len() / 2,
    ensures
        units(bytes).len() == bytes.len() / 2,
        units(bytes)[i] == bytes[2 * i] + 256 * bytes[2 * i + 1],
    decreases bytes.len(),
{
    law_least_significant_first(bytes.take(2));
    law_least_significant_first(bytes.take(2).skip(1));
    assert(bytes.take(2).skip(1).skip(1) =~= Seq::<u8>::empty());
    assert(bytes.take(2).skip(1)[0] == bytes[1]);
    if bytes.len() >= 4 {
        if i > 0 {
            law_units_are_pairs(bytes.skip(2), i - 1);
        } else {
            law_units_are_pairs(bytes.skip(2), 0);
        }
    } else {
        assert(units(bytes.skip(2)) =~= Seq::<u16>::empty());
    }
}

} // verus!
