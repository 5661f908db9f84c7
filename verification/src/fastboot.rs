//! Flashing over fastboot: writes are collected into sparse images that fit into one download.

use vstd::prelude::*;

use crate::registry::Properties;
use crate::sparse::{
    chunk_header_bytes, dontcare_header, encode_chunk_header, encode_file_header,
    file_header_bytes, raw_header, ChunkHeader, FileHeader,
};
use crate::status::Status;
use crate::text::{parsed_number, str_eq};
use crate::volume_io::VolumeTarget;

verus! {

/// Name of the provider.
pub const PROVIDER: &'static str = "fastboot";

/// Size of a block.
pub const FASTBOOT_BLOCKSIZE: u64 = 4096;

/// Flash out when buffering 16 MB.
pub const FLASH_THRESHOLD: u64 = 16777216;

/// How many blocks so many bytes take.
pub open spec fn blocks_for(bytes: nat) -> nat {
    (bytes + 4095) / 4096
}

/// All bytes of a row of pieces.
pub open spec fn joined(pieces: Seq<Seq<u8>>) -> Seq<u8>
    decreases pieces.len(),
{
    if pieces.len() == 0 {
        Seq::empty()
    } else {
        joined(pieces.drop_last()) + pieces.last()
    }
}

/// The bytes that pieces take when each is rounded up to whole blocks.
pub open spec fn rounded_up(pieces: Seq<Seq<u8>>) -> nat
    decreases pieces.len(),
{
    if pieces.len() == 0 {
        0
    } else {
        rounded_up(pieces.drop_last()) + blocks_for(pieces.last().len()) * 4096
    }
}

/// So many zero bytes.
pub open spec fn zeros(n: nat) -> Seq<u8> {
    Seq::new(n, |i: int| 0u8)
}

/// Data to be flashed at an offset.
#[verifier::ext_equal]
pub struct ChunkView {
    /// Offset in blocks.
    pub offset: nat,
    /// The data, in pieces.
    pub pieces: Seq<Seq<u8>>,
}

impl ChunkView {
    /// Start in bytes.
    pub open spec fn offset_bytes(self) -> nat {
        self.offset * 4096
    }

    /// Amount of data in bytes.
    pub open spec fn data_bytes(self) -> nat {
        joined(self.pieces).len()
    }

    /// End in bytes.
    pub open spec fn end_bytes(self) -> nat {
        self.offset_bytes() + self.data_bytes()
    }

    /// Amount of data in whole blocks.
    pub open spec fn blocks(self) -> nat {
        blocks_for(self.data_bytes())
    }

    /// End in whole blocks.
    pub open spec fn end_blocks(self) -> nat {
        self.offset + self.blocks()
    }

    /// What is missing at the end to whole blocks, in bytes.
    pub open spec fn end_padding(self) -> nat {
        (self.blocks() * 4096 - self.data_bytes()) as nat
    }

    /// The room that is set aside for the chunk in a download.
    pub open spec fn flash_size(self) -> nat {
        (if self.offset > 0 {
            24nat
        } else {
            12nat
        }) + rounded_up(self.pieces)
    }

    /// The chunk ends within the range of block numbers.
    pub open spec fn wf(self) -> bool {
        self.end_blocks() <= u32::MAX && self.data_bytes() <= 0xffff_ffff_ffff
    }
}

/// The room that is set aside for chunks in a download.
pub open spec fn chunks_size(chunks: Seq<ChunkView>) -> nat
    decreases chunks.len(),
{
    if chunks.len() == 0 {
        0
    } else {
        chunks_size(chunks.drop_last()) + chunks.last().flash_size()
    }
}

/// The room that is set aside for a download.
pub open spec fn flash_size(chunks: Seq<ChunkView>) -> nat {
    28 + chunks_size(chunks)
}

/// Each chunk starts at or behind the end of the one before.
pub open spec fn ordered(chunks: Seq<ChunkView>) -> bool {
    forall|i: int, j: int|
        #![trigger chunks[i], chunks[j]]
        0 <= i && j == i + 1 && j < chunks.len() ==> chunks[i].end_blocks() <= chunks[j].offset
}

/// One chunk of an image whose previous chunk ended at a block.
pub open spec fn chunk_image(chunk: ChunkView, from: nat) -> Seq<u8> {
    (if chunk.offset != from {
        chunk_header_bytes(dontcare_header((chunk.offset - from) as u32))
    } else {
        Seq::empty()
    }) + chunk_header_bytes(raw_header(chunk.blocks() as u32, 4096)) + joined(chunk.pieces) + zeros(
        chunk.end_padding(),
    )
}

/// Where the chunks end, in blocks.
pub open spec fn expanded_blocks(chunks: Seq<ChunkView>) -> nat {
    if chunks.len() == 0 {
        0
    } else {
        chunks.last().end_blocks()
    }
}

/// The chunks of an image.
pub open spec fn chunks_image(chunks: Seq<ChunkView>) -> Seq<u8>
    decreases chunks.len(),
{
    if chunks.len() == 0 {
        Seq::empty()
    } else {
        chunks_image(chunks.drop_last()) + chunk_image(
            chunks.last(),
            expanded_blocks(chunks.drop_last()),
        )
    }
}

/// How many chunks the header of the image tells of: data, and what is skipped before it.
pub open spec fn flash_chunks(chunks: Seq<ChunkView>) -> nat {
    if chunks.len() > 0 && chunks[0].offset == 0 {
        (chunks.len() * 2 - 1) as nat
    } else {
        chunks.len() * 2
    }
}

/// The sparse image of the chunks.
pub open spec fn image(chunks: Seq<ChunkView>) -> Seq<u8> {
    file_header_bytes(
        FileHeader {
            block_size: 4096,
            blocks: expanded_blocks(chunks) as u32,
            chunks: flash_chunks(chunks) as u32,
            checksum: 0,
        },
    ) + chunks_image(chunks)
}

/// Data to be flashed at an offset.
#[derive(Debug)]
pub struct FastbootChunk {
    offset: u32,
    data: Vec<Vec<u8>>,
}

impl View for FastbootChunk {
    type V = ChunkView;

    closed spec fn view(&self) -> ChunkView {
        ChunkView { offset: self.offset as nat, pieces: views(self.data@) }
    }
}

/// The contents of a row of vectors.
pub open spec fn views(data: Seq<Vec<u8>>) -> Seq<Seq<u8>> {
    data.map_values(|d: Vec<u8>| d@)
}

proof fn lemma_joined_take(pieces: Seq<Seq<u8>>, i: int)
    requires
        0 <= i < pieces.len(),
    ensures
        joined(pieces.take(i + 1)) == joined(pieces.take(i)) + pieces[i],
        rounded_up(pieces.take(i + 1)) == rounded_up(pieces.take(i)) + blocks_for(pieces[i].len())
            * 4096,
{
    assert(pieces.take(i + 1).drop_last() =~= pieces.take(i));
}

proof fn lemma_joined_monotonic(pieces: Seq<Seq<u8>>, i: int)
    requires
        0 <= i <= pieces.len(),
    ensures
        joined(pieces.take(i)).len() <= joined(pieces).len(),
        rounded_up(pieces.take(i)) <= rounded_up(pieces),
    decreases pieces.len() - i,
{
    if i < pieces.len() {
        lemma_joined_take(pieces, i);
        lemma_joined_monotonic(pieces, i + 1);
    } else {
        assert(pieces.take(i) =~= pieces);
    }
}

impl FastbootChunk {
    /// Start in bytes.
    pub fn offset_bytes(&self) -> (r: u64)
        ensures
            r == self@.offset_bytes(),
    {
        self.offset as u64 * FASTBOOT_BLOCKSIZE
    }

    /// Amount of data in bytes.
    pub fn data_bytes(&self) -> (r: u64)
        requires
            self@.wf(),
        ensures
            r == self@.data_bytes(),
    {
        let mut sum: u64 = 0;
        let ghost pieces = views(self.data@);
        assert(pieces.take(0) =~= seq![]);
        for i in 0..self.data.len()
            invariant
                pieces == views(self.data@),
                joined(pieces).len() <= 0xffff_ffff_ffff,
                sum == joined(pieces.take(i as int)).len(),
        {
            proof {
                lemma_joined_take(pieces, i as int);
                lemma_joined_monotonic(pieces, i + 1);
            }
            sum = sum + self.data[i].len() as u64;
        }
        assert(pieces.take(pieces.len() as int) =~= pieces);
        sum
    }

    /// End in bytes.
    pub fn end_bytes(&self) -> (r: u64)
        requires
            self@.wf(),
        ensures
            r == self@.end_bytes(),
    {
        self.offset_bytes() + self.data_bytes()
    }

    /// Amount of data in whole blocks.
    pub fn blocks(&self) -> (r: u32)
        requires
            self@.wf(),
        ensures
            r == self@.blocks(),
    {
        ((self.data_bytes() + (FASTBOOT_BLOCKSIZE - 1)) / FASTBOOT_BLOCKSIZE) as u32
    }

    /// End in whole blocks.
    pub fn end_blocks(&self) -> (r: u32)
        requires
            self@.wf(),
        ensures
            r == self@.end_blocks(),
    {
        self.offset + self.blocks()
    }

    /// What is missing at the end to whole blocks, in bytes.
    pub fn end_padding(&self) -> (r: u64)
        requires
            self@.wf(),
        ensures
            r == self@.end_padding(),
    {
        let rem: u64 = self.data_bytes() % FASTBOOT_BLOCKSIZE;
        if rem > 0 {
            FASTBOOT_BLOCKSIZE - rem
        } else {
            0
        }
    }

    /// The room that is set aside for the chunk in a download.
    fn flash_size(&self) -> (r: u64)
        requires
            self@.flash_size() <= 0xffff_ffff_ffff,
        ensures
            r == self@.flash_size(),
    {
        let mut sum: u64 = 0;
        let ghost pieces = views(self.data@);
        assert(pieces.take(0) =~= seq![]);
        for i in 0..self.data.len()
            invariant
                pieces == views(self.data@),
                rounded_up(pieces) <= 0xffff_ffff_ffff,
                sum == rounded_up(pieces.take(i as int)),
        {
            proof {
                lemma_joined_take(pieces, i as int);
                lemma_joined_monotonic(pieces, i + 1);
            }
            let len: u64 = self.data[i].len() as u64;
            sum = sum + (len + 4095) / 4096 * 4096;
        }
        assert(pieces.take(pieces.len() as int) =~= pieces);
        if self.offset > 0 {
            24 + sum
        } else {
            12 + sum
        }
    }
}

/// What is to be flashed with one download.
#[derive(Debug)]
pub struct FastbootData {
    chunks: Vec<FastbootChunk>,
}

impl View for FastbootData {
    type V = Seq<ChunkView>;

    closed spec fn view(&self) -> Seq<ChunkView> {
        self.chunks@.map_values(|c: FastbootChunk| c@)
    }
}

/// All chunks end within the range of block numbers, and the room for them can be counted.
pub open spec fn chunks_wf(chunks: Seq<ChunkView>) -> bool {
    &&& flash_size(chunks) <= 0x1_ffff_ffff
    &&& forall|i: int| 0 <= i < chunks.len() ==> (#[trigger] chunks[i]).wf()
}

/// The bytes of whole blocks among so many.
pub open spec fn whole_blocks(n: int) -> int {
    n / 4096 * 4096
}

/// How many bytes can be appended at an offset, or that none can. The chunks may take
/// `max_size` bytes in all.
pub open spec fn appendable(chunks: Seq<ChunkView>, offset: nat, max_size: nat) -> Option<nat> {
    let remaining = max_size - flash_size(chunks);
    if chunks.len() > 0 && chunks.last().end_bytes() == offset {
        Some(whole_blocks(remaining) as nat)
    } else if chunks.len() > 0 && chunks.last().end_bytes() > offset {
        None
    } else if remaining - 24 < 4096 {
        None
    } else {
        Some((whole_blocks(remaining - 24) - offset % 4096) as nat)
    }
}

/// The chunks with data appended at an offset: to the last chunk where that ends there, else
/// in a new chunk, from the start of the block on.
pub open spec fn appended(chunks: Seq<ChunkView>, offset: nat, data: Seq<u8>) -> Seq<ChunkView> {
    if chunks.len() > 0 && chunks.last().end_bytes() == offset {
        chunks.drop_last().push(
            ChunkView {
                offset: chunks.last().offset,
                pieces: chunks.last().pieces.push(data),
            },
        )
    } else {
        chunks.push(
            ChunkView {
                offset: offset / 4096,
                pieces: if offset % 4096 > 0 {
                    seq![zeros(offset % 4096), data]
                } else {
                    seq![data]
                },
            },
        )
    }
}

/// The smaller of the two.
pub open spec fn at_most(a: nat, b: nat) -> nat {
    if a < b {
        a
    } else {
        b
    }
}

fn zero_bytes(n: u64) -> (r: Vec<u8>)
    requires
        n <= 4096,
    ensures
        r@ == zeros(n as nat),
{
    let mut r: Vec<u8> = Vec::new();
    for i in 0..n
        invariant
            r@ == zeros(i as nat),
    {
        r.push(0);
        assert(r@ =~= zeros((i + 1) as nat));
    }
    r
}

/// Takes the first so many bytes, or all where there are fewer.
fn split_to(data: &mut Vec<u8>, n: u64) -> (r: Vec<u8>)
    ensures
        r@ == old(data)@.take(at_most(n as nat, old(data)@.len()) as int),
        final(data)@ == old(data)@.skip(at_most(n as nat, old(data)@.len()) as int),
{
    let ghost before = data@;
    let len: u64 = data.len() as u64;
    let at: usize = if n < len {
        n as usize
    } else {
        data.len()
    };
    let mut rest = data.split_off(at);
    assert(rest@ =~= before.skip(at as int));
    assert(data@ =~= before.take(at as int));
    std::mem::swap(data, &mut rest);
    rest
}

proof fn lemma_chunks_size_take(chunks: Seq<ChunkView>, i: int)
    requires
        0 <= i < chunks.len(),
    ensures
        chunks_size(chunks.take(i + 1)) == chunks_size(chunks.take(i)) + chunks[i].flash_size(),
{
    assert(chunks.take(i + 1).drop_last() =~= chunks.take(i));
}

proof fn lemma_chunks_size_monotonic(chunks: Seq<ChunkView>, i: int)
    requires
        0 <= i <= chunks.len(),
    ensures
        chunks_size(chunks.take(i)) <= chunks_size(chunks),
        chunks.len() - i <= chunks_size(chunks) - chunks_size(chunks.take(i)),
    decreases chunks.len() - i,
{
    if i < chunks.len() {
        lemma_chunks_size_take(chunks, i);
        lemma_chunks_size_monotonic(chunks, i + 1);
    } else {
        assert(chunks.take(i) =~= chunks);
    }
}

/// Rounding up piece by piece takes at least as much as rounding up in one.
proof fn lemma_rounded_up(pieces: Seq<Seq<u8>>)
    ensures
        joined(pieces).len() <= rounded_up(pieces),
        blocks_for(joined(pieces).len()) * 4096 <= rounded_up(pieces),
        rounded_up(pieces) % 4096 == 0,
    decreases pieces.len(),
{
    if pieces.len() > 0 {
        lemma_rounded_up(pieces.drop_last());
    }
}

proof fn lemma_joined_push(pieces: Seq<Seq<u8>>, piece: Seq<u8>)
    ensures
        joined(pieces.push(piece)) == joined(pieces) + piece,
        rounded_up(pieces.push(piece)) == rounded_up(pieces) + blocks_for(piece.len()) * 4096,
{
    assert(pieces.push(piece).drop_last() =~= pieces);
}

impl FastbootData {
    /// Nothing to flash.
    pub fn new() -> (r: Self)
        ensures
            r@ == Seq::<ChunkView>::empty(),
            chunks_wf(r@),
    {
        let r = FastbootData { chunks: Vec::new() };
        assert(r@ =~= Seq::<ChunkView>::empty());
        r
    }

    /// Whether there is nothing to flash.
    pub fn is_empty(&self) -> (r: bool)
        ensures
            r == (self@.len() == 0),
    {
        self.chunks.len() == 0
    }

    /// Number of data chunks.
    pub fn n_chunks(&self) -> (r: usize)
        ensures
            r == self@.len(),
    {
        self.chunks.len()
    }

    /// Where the chunks end, in blocks.
    pub fn expanded_blocks(&self) -> (r: u32)
        requires
            chunks_wf(self@),
        ensures
            r == expanded_blocks(self@),
    {
        if self.chunks.len() > 0 {
            assert(self@[self@.len() - 1].wf());
            self.chunks[self.chunks.len() - 1].end_blocks()
        } else {
            0
        }
    }

    /// The room that is set aside for the download.
    pub fn flash_size(&self) -> (r: u64)
        requires
            chunks_wf(self@),
        ensures
            r == flash_size(self@),
    {
        let mut sum: u64 = 28;
        let ghost chunks = self@;
        assert(chunks.take(0) =~= seq![]);
        for i in 0..self.chunks.len()
            invariant
                chunks == self@,
                flash_size(chunks) <= 0x1_ffff_ffff,
                sum == 28 + chunks_size(chunks.take(i as int)),
        {
            proof {
                lemma_chunks_size_take(chunks, i as int);
                lemma_chunks_size_monotonic(chunks, i + 1);
            }
            sum = sum + self.chunks[i].flash_size();
        }
        assert(chunks.take(chunks.len() as int) =~= chunks);
        sum
    }

    /// How many chunks the header of the image tells of.
    pub fn flash_chunks(&self) -> (r: u32)
        requires
            chunks_wf(self@),
        ensures
            r == flash_chunks(self@) as u32,
    {
        proof {
            lemma_chunks_size_monotonic(self@, 0);
        }
        let n: u64 = self.chunks.len() as u64;
        if n > 0 && self.chunks[0].offset == 0 {
            (n * 2 - 1) as u32
        } else {
            (n * 2) as u32
        }
    }

    /// Whether each chunk starts at or behind the end of the one before, as an image needs it.
    pub fn is_ordered(&self) -> (r: bool)
        requires
            chunks_wf(self@),
        ensures
            r == ordered(self@),
    {
        let ghost chunks = self@;
        let mut i: usize = 1;
        while i < self.chunks.len()
            invariant
                1 <= i,
                chunks == self@,
                chunks_wf(chunks),
                forall|a: int, b: int|
                    #![trigger chunks[a], chunks[b]]
                    0 <= a && b == a + 1 && b < i && b < chunks.len() ==> chunks[a].end_blocks()
                        <= chunks[b].offset,
            decreases self.chunks@.len() - i,
        {
            assert(chunks[i - 1].wf());
            if self.chunks[i].offset < self.chunks[i - 1].end_blocks() {
                assert(chunks[i as int].offset < chunks[i - 1].end_blocks());
                return false;
            }
            assert(chunks[i - 1].end_blocks() <= chunks[i as int].offset);
            i += 1;
        }
        true
    }

    /// Appends as much data as possible at an offset and takes that from the data. Chunks can
    /// only be appended at the end.
    pub fn append(&mut self, offset: u64, data: &mut Vec<u8>, max_size: u64) -> (r: bool)
        requires
            chunks_wf(old(self)@),
            flash_size(old(self)@) <= max_size <= u32::MAX,
            offset + old(data)@.len() <= 4096 * u32::MAX,
        ensures
            chunks_wf(final(self)@),
            match appendable(old(self)@, offset as nat, max_size as nat) {
                Some(room) => {
                    let n = at_most(room, old(data)@.len()) as int;
                    &&& r
                    &&& final(self)@ == appended(old(self)@, offset as nat, old(data)@.take(n))
                    &&& final(data)@ == old(data)@.skip(n)
                    &&& flash_size(final(self)@) <= max_size + 4096
                },
                None => !r && final(self)@ == old(self)@ && final(data)@ == old(data)@,
            },
    {
        let ghost chunks = self@;
        let ghost all = data@;
        let remaining: u64 = max_size - self.flash_size();
        let count: usize = self.chunks.len();
        if count > 0 {
            assert(chunks[count - 1].wf());
            let end: u64 = self.chunks[count - 1].end_bytes();
            if end == offset {
                let room: u64 = (remaining / FASTBOOT_BLOCKSIZE) * FASTBOOT_BLOCKSIZE;
                let piece = split_to(data, room);
                let ghost n = at_most(room as nat, all.len()) as int;
                let mut last = self.chunks.pop().unwrap();
                let ghost before = last@;
                last.data.push(piece);
                proof {
                    assert(last@.pieces =~= before.pieces.push(all.take(n)));
                    lemma_joined_push(before.pieces, all.take(n));
                }
                self.chunks.push(last);
                proof {
                    assert(self@ =~= appended(chunks, offset as nat, all.take(n)));
                    assert(self@.drop_last() =~= chunks.drop_last());
                    lemma_wf_change_last(chunks, self@);
                }
                return true;
            }
            // Only appends at the end.
            if end > offset {
                return false;
            }
        }
        // A new chunk takes a header for what is skipped and one for the data.
        let remaining: u64 = remaining.saturating_sub(24);
        if remaining < FASTBOOT_BLOCKSIZE {
            return false;
        }
        let block_offset: u64 = offset / FASTBOOT_BLOCKSIZE;
        let remaining: u64 = (remaining / FASTBOOT_BLOCKSIZE) * FASTBOOT_BLOCKSIZE;
        let rem: u64 = offset % FASTBOOT_BLOCKSIZE;
        let mut pieces: Vec<Vec<u8>> = Vec::new();
        if rem > 0 {
            pieces.push(zero_bytes(rem));
        }
        let piece = split_to(data, remaining - rem);
        let ghost n = at_most((remaining - rem) as nat, all.len()) as int;
        pieces.push(piece);
        let chunk = FastbootChunk { offset: block_offset as u32, data: pieces };
        proof {
            let pad = if rem > 0 {
                seq![zeros(rem as nat)]
            } else {
                seq![]
            };
            assert(chunk@.pieces =~= pad.push(all.take(n)));
            lemma_joined_push(pad, all.take(n));
            lemma_joined_push(seq![], zeros(rem as nat));
            assert(seq![].push(zeros(rem as nat)) =~= seq![zeros(rem as nat)]);
            assert(chunk@ =~= ChunkView {
                offset: offset as nat / 4096,
                pieces: if offset as nat % 4096 > 0 {
                    seq![zeros(offset as nat % 4096), all.take(n)]
                } else {
                    seq![all.take(n)]
                },
            });
        }
        self.chunks.push(chunk);
        proof {
            assert(self@ =~= appended(chunks, offset as nat, all.take(n)));
            assert(self@.drop_last() =~= chunks);
            lemma_wf_push(chunks, self@);
        }
        true
    }

    /// The sparse image to download.
    pub fn sparse_image(&self) -> (r: Vec<u8>)
        requires
            chunks_wf(self@),
            ordered(self@),
        ensures
            r@ == image(self@),
    {
        let ghost chunks = self@;
        let header = FileHeader {
            block_size: 4096,
            blocks: self.expanded_blocks(),
            chunks: self.flash_chunks(),
            checksum: 0,
        };
        let mut out: Vec<u8> = Vec::new();
        let bytes = encode_file_header(&header);
        push_bytes(&mut out, bytes.as_slice());
        let ghost head = file_header_bytes(header);
        assert(chunks.take(0) =~= seq![]);
        assert(out@ =~= head + chunks_image(chunks.take(0)));
        let mut offset: u32 = 0;
        for i in 0..self.chunks.len()
            invariant
                chunks == self@,
                chunks_wf(chunks),
                ordered(chunks),
                offset == expanded_blocks(chunks.take(i as int)),
                out@ == head + chunks_image(chunks.take(i as int)),
        {
            let chunk = &self.chunks[i];
            let ghost so_far = chunks_image(chunks.take(i as int));
            let ghost next = chunk_image(chunks[i as int], offset as nat);
            proof {
                assert(chunk@ == chunks[i as int]);
                assert(chunks[i as int].wf());
                lemma_chunks_image_next(chunks, i as int);
            }
            chunk.push_image(&mut out, offset);
            proof {
                assert((head + so_far) + next =~= head + (so_far + next));
            }
            offset = chunk.end_blocks();
        }
        assert(chunks.take(chunks.len() as int) =~= chunks);
        out
    }
}

proof fn lemma_chunks_image_next(chunks: Seq<ChunkView>, i: int)
    requires
        ordered(chunks),
        0 <= i < chunks.len(),
    ensures
        expanded_blocks(chunks.take(i)) <= chunks[i].offset,
        expanded_blocks(chunks.take(i + 1)) == chunks[i].end_blocks(),
        chunks_image(chunks.take(i + 1)) == chunks_image(chunks.take(i)) + chunk_image(
            chunks[i],
            expanded_blocks(chunks.take(i)),
        ),
{
    assert(chunks.take(i + 1).drop_last() =~= chunks.take(i));
    assert(chunks.take(i + 1).last() == chunks[i]);
    if i > 0 {
        assert(chunks.take(i).last() == chunks[i - 1]);
        assert(chunks[i - 1].end_blocks() <= chunks[i].offset);
    }
}

impl FastbootChunk {
    /// Appends the chunk to an image whose previous chunk ended at a block.
    fn push_image(&self, out: &mut Vec<u8>, from: u32)
        requires
            self@.wf(),
            from <= self@.offset,
        ensures
            final(out)@ == old(out)@ + chunk_image(self@, from as nat),
    {
        let ghost pieces = self@.pieces;
        let ghost mut skipped: Seq<u8> = Seq::empty();
        if self.offset != from {
            let skip = encode_chunk_header(&ChunkHeader::new_dontcare(self.offset - from));
            push_bytes(out, skip.as_slice());
            proof {
                skipped = skip@;
            }
        }
        assert(out@ =~= old(out)@ + skipped);
        let header = encode_chunk_header(&ChunkHeader::new_raw(self.blocks(), 4096));
        push_bytes(out, header.as_slice());
        let ghost start = out@;
        assert(pieces.take(0) =~= seq![]);
        assert(start =~= start + joined(pieces.take(0)));
        for j in 0..self.data.len()
            invariant
                pieces == views(self.data@),
                out@ == start + joined(pieces.take(j as int)),
        {
            proof {
                lemma_joined_take(pieces, j as int);
            }
            push_bytes(out, self.data[j].as_slice());
            assert(out@ =~= start + joined(pieces.take(j + 1)));
        }
        assert(pieces.take(pieces.len() as int) =~= pieces);
        let padding = zero_bytes(self.end_padding());
        push_bytes(out, padding.as_slice());
        assert(out@ =~= old(out)@ + chunk_image(self@, from as nat));
    }
}

fn push_bytes(out: &mut Vec<u8>, bytes: &[u8])
    ensures
        final(out)@ == old(out)@ + bytes@,
{
    for i in 0..bytes.len()
        invariant
            out@ == old(out)@ + bytes@.take(i as int),
    {
        out.push(bytes[i]);
        assert(out@ =~= old(out)@ + bytes@.take(i + 1));
    }
    assert(bytes@.take(bytes@.len() as int) =~= bytes@);
}

proof fn lemma_wf_push(before: Seq<ChunkView>, after: Seq<ChunkView>)
    requires
        chunks_wf(before),
        after.len() == before.len() + 1,
        after.drop_last() == before,
        after.last().wf(),
        flash_size(before) + after.last().flash_size() <= 0x1_ffff_ffff,
    ensures
        chunks_wf(after),
        flash_size(after) == flash_size(before) + after.last().flash_size(),
{
    assert forall|i: int| 0 <= i < after.len() implies (#[trigger] after[i]).wf() by {
        if i < before.len() {
            assert(after[i] == before[i]);
        }
    }
}

proof fn lemma_wf_change_last(before: Seq<ChunkView>, after: Seq<ChunkView>)
    requires
        chunks_wf(before),
        before.len() > 0,
        after.len() == before.len(),
        after.drop_last() == before.drop_last(),
        after.last().wf(),
        flash_size(before) - before.last().flash_size() + after.last().flash_size()
            <= 0x1_ffff_ffff,
    ensures
        chunks_wf(after),
        flash_size(after) == flash_size(before) - before.last().flash_size()
            + after.last().flash_size(),
{
    assert forall|i: int| 0 <= i < after.len() implies (#[trigger] after[i]).wf() by {
        if i < before.len() - 1 {
            assert(after[i] == after.drop_last()[i]);
            assert(before[i] == before.drop_last()[i]);
        }
    }
}

/// `fastboot_protocol::protocol::parse_u64_hex` reads a hexadecimal number of 64 bits behind
/// `0x`, and refuses all else.
#[verifier::external_body]
fn parse_u64_hex(hex: &str) -> (r: Option<u64>)
    ensures
        match r {
            Some(n) => prefixed_hex(hex@, u64::MAX as nat) == Some(n as nat),
            None => prefixed_hex(hex@, u64::MAX as nat) is None,
        },
{
    fastboot_protocol::protocol::parse_u64_hex(hex).ok()
}

/// `fastboot_protocol::protocol::parse_u32_hex` reads a hexadecimal number of 32 bits behind
/// `0x`, and refuses all else.
#[verifier::external_body]
fn parse_u32_hex(hex: &str) -> (r: Option<u32>)
    ensures
        match r {
            Some(n) => prefixed_hex(hex@, u32::MAX as nat) == Some(n as nat),
            None => prefixed_hex(hex@, u32::MAX as nat) is None,
        },
{
    fastboot_protocol::protocol::parse_u32_hex(hex).ok()
}

/// The hexadecimal number of at most `max` behind `0x`.
pub open spec fn prefixed_hex(s: Seq<char>, max: nat) -> Option<nat> {
    if s.len() >= 2 && s[0] == '0' && s[1] == 'x' {
        parsed_number(s.skip(2), 16, max)
    } else {
        None
    }
}

/// The largest download that the device takes, out of its `max-download-size` variable.
pub fn max_download_size(value: &str) -> (r: Option<u32>)
    ensures
        match r {
            Some(n) => prefixed_hex(value@, u32::MAX as nat) == Some(n as nat),
            None => prefixed_hex(value@, u32::MAX as nat) is None,
        },
{
    parse_u32_hex(value)
}

/// The name in a variable of the device that tells the size of a partition.
pub open spec fn partition_name(variable: Seq<char>) -> Option<Seq<char>> {
    if "partition-size:"@.is_prefix_of(variable) {
        Some(variable.skip("partition-size:"@.len() as int))
    } else {
        None
    }
}

/// A target that can be flashed.
pub open spec fn flash_target(target: VolumeTarget, name: Seq<char>, size: Option<nat>) -> bool {
    &&& target.name@ == name
    &&& !target.readable
    &&& target.writable
    &&& target.seekable
    &&& match target.size {
        Some(n) => size == Some(n as nat),
        None => size is None,
    }
    &&& target.blocksize == Some(4096u32)
}

/// The targets that the variables of the device tell of, with their sizes.
pub open spec fn device_targets(vars: Seq<(String, String)>) -> Seq<(Seq<char>, Option<nat>)>
    decreases vars.len(),
{
    if vars.len() == 0 {
        Seq::empty()
    } else {
        let rest = device_targets(vars.drop_last());
        match partition_name(vars.last().0@) {
            Some(name) => rest.push((name, prefixed_hex(vars.last().1@, u64::MAX as nat))),
            None => rest,
        }
    }
}

/// Targets with those of a list added that are not among them.
pub open spec fn with_known(
    targets: Seq<(Seq<char>, Option<nat>)>,
    known: Seq<String>,
) -> Seq<(Seq<char>, Option<nat>)>
    decreases known.len(),
{
    if known.len() == 0 {
        targets
    } else {
        let rest = with_known(targets, known.drop_last());
        if names_target(rest, known.last()@) {
            rest
        } else {
            rest.push((known.last()@, None))
        }
    }
}

/// Whether one of the targets has the name.
pub open spec fn names_target(targets: Seq<(Seq<char>, Option<nat>)>, name: Seq<char>) -> bool {
    exists|i: int| 0 <= i < targets.len() && (#[trigger] targets[i]).0 == name
}

/// The targets are those that the list tells of.
pub open spec fn are_targets(
    targets: Seq<VolumeTarget>,
    expected: Seq<(Seq<char>, Option<nat>)>,
) -> bool {
    &&& targets.len() == expected.len()
    &&& forall|i: int|
        0 <= i < targets.len() ==> flash_target(
            #[trigger] targets[i],
            expected[i].0,
            expected[i].1,
        )
}

fn new_target(name: String, size: Option<u64>) -> (r: VolumeTarget)
    ensures
        flash_target(r, name@, match size {
            Some(n) => Some(n as nat),
            None => None,
        }),
{
    VolumeTarget {
        name,
        readable: false,
        writable: true,
        seekable: true,
        size,
        blocksize: Some(4096),
    }
}

/// The targets of a device: the partitions that its variables tell of, and those that are known
/// to exist. The variables come in no particular order, and neither do the targets out of them.
pub fn volume_targets(vars: &Vec<(String, String)>, known: &Vec<String>) -> (r: Vec<VolumeTarget>)
    ensures
        are_targets(r@, with_known(device_targets(vars@), known@)),
{
    let mut targets: Vec<VolumeTarget> = Vec::new();
    for i in 0..vars.len()
        invariant
            are_targets(targets@, device_targets(vars@.take(i as int))),
    {
        proof {
            assert(vars@.take(i + 1).drop_last() =~= vars@.take(i as int));
            assert(vars@.take(i + 1).last() == vars@[i as int]);
        }
        match crate::text::strip_prefix(vars[i].0.as_str(), "partition-size:") {
            Some(name) => {
                let size = parse_u64_hex(vars[i].1.as_str());
                targets.push(new_target(name, size));
            },
            None => {},
        }
    }
    assert(vars@.take(vars@.len() as int) =~= vars@);
    let ghost found = device_targets(vars@);
    for i in 0..known.len()
        invariant
            are_targets(targets@, with_known(found, known@.take(i as int))),
    {
        let ghost so_far = with_known(found, known@.take(i as int));
        proof {
            assert(known@.take(i + 1).drop_last() =~= known@.take(i as int));
            assert(known@.take(i + 1).last() == known@[i as int]);
        }
        let name = known[i].as_str();
        let mut present = false;
        for j in 0..targets.len()
            invariant
                are_targets(targets@, so_far),
                present <==> exists|x: int| 0 <= x < j && (#[trigger] so_far[x]).0 == name@,
        {
            assert(flash_target(targets@[j as int], so_far[j as int].0, so_far[j as int].1));
            if str_eq(targets[j].name.as_str(), name) {
                present = true;
            }
        }
        if !present {
            targets.push(new_target(name.to_owned(), None));
        }
    }
    assert(known@.take(known@.len() as int) =~= known@);
    targets
}

/// A device in fastboot mode as it is offered.
#[derive(Debug)]
pub struct FastbootSetup {
    /// The largest download that it takes.
    pub max_download: u32,
    /// What can be flashed.
    pub targets: Vec<VolumeTarget>,
    /// The properties of the volume.
    pub properties: Properties,
}

/// Why a device in fastboot mode is not offered, by what it says of its largest download and of
/// its version.
pub open spec fn setup_problem(
    max_download: Option<String>,
    version: Option<String>,
) -> Option<Seq<char>> {
    match max_download {
        None => Some("Missing max download size"@),
        Some(text) => if prefixed_hex(text@, u32::MAX as nat) is None {
            Some("Failed to parse max-download-size"@)
        } else if version is None {
            Some("Missing version"@)
        } else {
            None
        },
    }
}

/// Sets a device in fastboot mode up with what it says of itself. All its variables are only
/// asked for to find targets; the two others have to be there.
pub fn setup_volume(
    vars: Option<Vec<(String, String)>>,
    known_targets: &Vec<String>,
    max_download: Option<String>,
    version: Option<String>,
    properties: Properties,
) -> (r: Result<FastbootSetup, &'static str>)
    requires
        properties.wf(),
    ensures
        match setup_problem(max_download, version) {
            Some(problem) => r is Err && r->Err_0@ == problem,
            None => {
                &&& r is Ok
                &&& prefixed_hex(max_download->0@, u32::MAX as nat) == Some(
                    r->Ok_0.max_download as nat,
                )
                &&& are_targets(
                    r->Ok_0.targets@,
                    with_known(
                        match vars {
                            Some(vars) => device_targets(vars@),
                            None => Seq::empty(),
                        },
                        known_targets@,
                    ),
                )
                &&& r->Ok_0.properties.wf()
                &&& r->Ok_0.properties@ == properties@.insert("fastboot.version"@, version->0@)
            },
        },
{
    let vars = match vars {
        Some(vars) => vars,
        None => Vec::new(),
    };
    let targets = volume_targets(&vars, known_targets);
    let max_download: u32 = match max_download {
        Some(text) => match max_download_size(text.as_str()) {
            Some(n) => n,
            None => return Err("Failed to parse max-download-size"),
        },
        None => return Err("Missing max download size"),
    };
    match version {
        Some(version) => {
            let mut properties = properties;
            properties.insert("fastboot.version", version.as_str());
            Ok(FastbootSetup { max_download, targets, properties })
        },
        None => Err("Missing version"),
    }
}

/// A target of a fastboot device that is being written.
#[derive(Debug)]
pub struct FastbootVolumeTarget {
    max_download: u32,
    buffered: FastbootData,
}

/// What to do on a flush.
#[derive(Debug)]
pub enum FlushStep {
    /// Flash the data and wait for it.
    Flash(FastbootData),
    /// Nothing is left: only see that the device got to the end of what it was given.
    Ping,
}

/// How much is buffered at most before it is flashed.
pub open spec fn flash_threshold(max_download: u32) -> int {
    if max_download - 8192 < FLASH_THRESHOLD {
        max_download - 8192
    } else {
        FLASH_THRESHOLD as int
    }
}

/// What became of data on its way into the buffer.
pub struct Filled {
    /// What waits to be flashed.
    pub waiting: Seq<ChunkView>,
    /// The data that is left.
    pub rest: Seq<u8>,
    /// What is to be flashed.
    pub flash: Option<Seq<ChunkView>>,
}

/// What becomes of data of which as much as possible is taken in at the offset. All that waits is
/// flashed once there is more than the threshold, or where no data can be taken in there.
pub open spec fn step_after(
    waiting: Seq<ChunkView>,
    data: Seq<u8>,
    offset: nat,
    limit: u32,
) -> Filled {
    let room = appendable(waiting, offset, limit as nat);
    let n = match room {
        Some(room) => at_most(room, data.len()) as int,
        None => 0,
    };
    let now = match room {
        Some(_) => appended(waiting, offset, data.take(n)),
        None => waiting,
    };
    if room is None || flash_size(now) > flash_threshold(limit) {
        Filled { waiting: Seq::empty(), rest: data.skip(n), flash: Some(now) }
    } else {
        Filled { waiting: now, rest: data.skip(n), flash: None }
    }
}

/// What becomes of data that is taken in at the offset, until something is to be flashed or no
/// data is left.
pub open spec fn filled(
    waiting: Seq<ChunkView>,
    data: Seq<u8>,
    offset: nat,
    limit: u32,
) -> Filled
    decreases data.len(),
{
    if data.len() == 0 {
        Filled { waiting, rest: data, flash: None }
    } else {
        let next = step_after(waiting, data, offset, limit);
        if next.flash is Some || next.rest.len() >= data.len() {
            next
        } else {
            filled(next.waiting, next.rest, offset, limit)
        }
    }
}

/// Where a write is.
#[derive(Copy, Clone, Debug, PartialEq, Eq, Structural)]
pub enum WritePhase {
    /// Data is taken in and flashed.
    Filling,
    /// All data is taken in, and flashes are waited for.
    Waiting,
    /// It is answered.
    Over,
}

/// A write to a target of a fastboot device.
#[derive(Debug)]
pub struct FastbootWrite {
    rest: Vec<u8>,
    offset: u64,
    length: u64,
    unanswered: u64,
    phase: WritePhase,
}

/// A write to a target of a fastboot device.
pub struct WriteView {
    /// The data that is left.
    pub rest: Seq<u8>,
    /// Where it is written to, all of it.
    pub offset: nat,
    /// How much there was at first.
    pub length: u64,
    /// How many flashes the device was given and has not answered.
    pub unanswered: nat,
    /// Where the write is.
    pub phase: WritePhase,
}

/// What happens during a write.
#[derive(Debug)]
pub enum WriteEvent {
    /// It begins.
    Begin,
    /// The device was given what is to be flashed.
    Given,
    /// The device could not be given what is to be flashed.
    NotGiven(Status),
    /// The oldest flash that was waited for is done.
    Flashed,
    /// The oldest flash that was waited for failed.
    Failed(Status),
}

/// What to do then.
#[derive(Debug)]
pub enum WriteAction {
    /// Give this to the device, to flash it.
    Flash(FastbootData),
    /// Wait for the oldest flash that the device was given and has not answered. Meanwhile the
    /// target can be written on.
    Wait,
    /// Answer the write.
    Complete(Result<u64, Status>),
}

/// What to do then.
pub enum WriteActionView {
    /// Give this to the device.
    Flash(Seq<ChunkView>),
    /// Wait for the oldest flash.
    Wait,
    /// Answer the write.
    Complete(Result<u64, Status>),
}

impl View for WriteAction {
    type V = WriteActionView;

    open spec fn view(&self) -> WriteActionView {
        match *self {
            WriteAction::Flash(data) => WriteActionView::Flash(data@),
            WriteAction::Wait => WriteActionView::Wait,
            WriteAction::Complete(answer) => WriteActionView::Complete(answer),
        }
    }
}

/// A write and what waits to be flashed, after something happened, and what to do.
pub struct WriteNext {
    /// The write.
    pub write: WriteView,
    /// What waits to be flashed.
    pub waiting: Seq<ChunkView>,
    /// What to do.
    pub action: WriteActionView,
}

/// A write that has no data left: it is answered with how much there was, once all flashes are
/// done.
pub open spec fn settled(write: WriteView, waiting: Seq<ChunkView>) -> WriteNext {
    if write.unanswered == 0 {
        WriteNext {
            write: WriteView { phase: WritePhase::Over, ..write },
            waiting,
            action: WriteActionView::Complete(Ok(write.length)),
        }
    } else {
        WriteNext {
            write: WriteView { phase: WritePhase::Waiting, ..write },
            waiting,
            action: WriteActionView::Wait,
        }
    }
}

/// A write that takes data in, always at its offset, until something is to be flashed.
pub open spec fn refilled(write: WriteView, waiting: Seq<ChunkView>, limit: u32) -> WriteNext {
    let next = filled(waiting, write.rest, write.offset, limit);
    let after = WriteView { rest: next.rest, ..write };
    match next.flash {
        Some(flash) => WriteNext {
            write: after,
            waiting: next.waiting,
            action: WriteActionView::Flash(flash),
        },
        None => settled(after, next.waiting),
    }
}

/// What comes of something that happens during a write. The first failure answers it.
pub open spec fn write_next(
    write: WriteView,
    waiting: Seq<ChunkView>,
    limit: u32,
    event: WriteEvent,
) -> WriteNext {
    match event {
        WriteEvent::Begin => refilled(write, waiting, limit),
        WriteEvent::Given => refilled(
            WriteView { unanswered: write.unanswered + 1, ..write },
            waiting,
            limit,
        ),
        WriteEvent::Flashed => settled(
            WriteView { unanswered: (write.unanswered - 1) as nat, ..write },
            waiting,
        ),
        WriteEvent::NotGiven(status) => WriteNext {
            write: WriteView { phase: WritePhase::Over, ..write },
            waiting,
            action: WriteActionView::Complete(Err(status)),
        },
        WriteEvent::Failed(status) => WriteNext {
            write: WriteView { phase: WritePhase::Over, ..write },
            waiting,
            action: WriteActionView::Complete(Err(status)),
        },
    }
}

/// Whether something can happen where the write is.
pub open spec fn can_happen(write: WriteView, event: WriteEvent) -> bool {
    match event {
        WriteEvent::Begin => write.phase == WritePhase::Filling && write.unanswered == 0,
        WriteEvent::Given => write.phase == WritePhase::Filling,
        WriteEvent::NotGiven(_) => write.phase == WritePhase::Filling,
        WriteEvent::Flashed => write.phase == WritePhase::Waiting && write.unanswered > 0
            && write.rest.len() == 0,
        WriteEvent::Failed(_) => write.phase == WritePhase::Waiting && write.unanswered > 0
            && write.rest.len() == 0,
    }
}

impl View for FastbootWrite {
    type V = WriteView;

    closed spec fn view(&self) -> WriteView {
        WriteView {
            rest: self.rest@,
            offset: self.offset as nat,
            length: self.length,
            unanswered: self.unanswered as nat,
            phase: self.phase,
        }
    }
}

impl FastbootWrite {
    /// A write of data at an offset.
    pub fn new(data: Vec<u8>, offset: u64) -> (r: Self)
        ensures
            r@ == (WriteView {
                rest: data@,
                offset: offset as nat,
                length: data@.len() as u64,
                unanswered: 0,
                phase: WritePhase::Filling,
            }),
    {
        let length: u64 = data.len() as u64;
        FastbootWrite { rest: data, offset, length, unanswered: 0, phase: WritePhase::Filling }
    }

    /// What to do after something happened during the write. All data is written at the offset of
    /// the write, also what comes after a flash.
    pub fn step(&mut self, target: &mut FastbootVolumeTarget, event: WriteEvent) -> (r: WriteAction)
        requires
            old(target).wf(),
            old(target).limit() >= 8192,
            can_happen(old(self)@, event),
            old(self)@.offset + old(self)@.rest.len() <= 4096 * u32::MAX,
            old(self)@.unanswered < u64::MAX,
        ensures
            final(target).wf(),
            final(target).limit() == old(target).limit(),
            (WriteNext {
                write: final(self)@,
                waiting: final(target).waiting(),
                action: r@,
            }) == write_next(old(self)@, old(target).waiting(), old(target).limit(), event),
            match r {
                // Each flash comes with data that was taken in, or else empties the buffer.
                WriteAction::Flash(data) => {
                    &&& chunks_wf(data@)
                    &&& final(self)@.rest.len() < old(self)@.rest.len() || (
                    old(target).waiting().len() > 0 && final(target).waiting().len() == 0)
                },
                WriteAction::Wait => final(self)@.rest.len() == 0,
                WriteAction::Complete(answer) => answer is Ok ==> final(self)@.rest.len() == 0,
            },
    {
        match event {
            WriteEvent::Begin => self.refill(target),
            WriteEvent::Given => {
                self.unanswered = self.unanswered + 1;
                self.refill(target)
            },
            WriteEvent::NotGiven(status) => {
                self.phase = WritePhase::Over;
                WriteAction::Complete(Err(status))
            },
            WriteEvent::Flashed => {
                self.unanswered = self.unanswered - 1;
                self.settle()
            },
            WriteEvent::Failed(status) => {
                self.phase = WritePhase::Over;
                WriteAction::Complete(Err(status))
            },
        }
    }

    fn settle(&mut self) -> (r: WriteAction)
        ensures
            forall|waiting: Seq<ChunkView>|
                #[trigger] settled(old(self)@, waiting) == (WriteNext {
                    write: final(self)@,
                    waiting,
                    action: r@,
                }),
            r is Wait || r == WriteAction::Complete(Ok(old(self)@.length)),
            final(self)@.rest == old(self)@.rest,
    {
        if self.unanswered == 0 {
            self.phase = WritePhase::Over;
            WriteAction::Complete(Ok(self.length))
        } else {
            self.phase = WritePhase::Waiting;
            WriteAction::Wait
        }
    }

    fn refill(&mut self, target: &mut FastbootVolumeTarget) -> (r: WriteAction)
        requires
            old(target).wf(),
            old(target).limit() >= 8192,
            old(self)@.phase == WritePhase::Filling,
            old(self)@.offset + old(self)@.rest.len() <= 4096 * u32::MAX,
        ensures
            final(target).wf(),
            final(target).limit() == old(target).limit(),
            (WriteNext {
                write: final(self)@,
                waiting: final(target).waiting(),
                action: r@,
            }) == refilled(old(self)@, old(target).waiting(), old(target).limit()),
            match r {
                WriteAction::Flash(data) => {
                    &&& chunks_wf(data@)
                    &&& final(self)@.rest.len() < old(self)@.rest.len() || (
                    old(target).waiting().len() > 0 && final(target).waiting().len() == 0)
                },
                WriteAction::Wait => final(self)@.rest.len() == 0,
                WriteAction::Complete(answer) => answer is Ok && final(self)@.rest.len() == 0,
            },
    {
        let ghost offset = self.offset as nat;
        let ghost limit = target.limit();
        let ghost start = filled(target.waiting(), self.rest@, offset, limit);
        while self.rest.len() > 0
            invariant
                target.wf(),
                target.limit() == limit,
                limit >= 8192,
                limit == old(target).limit(),
                self@ == (WriteView { rest: self.rest@, ..old(self)@ }),
                self.offset == offset,
                self.phase == WritePhase::Filling,
                self.rest@.len() < old(self)@.rest.len() || (self.rest@ == old(self)@.rest
                    && target.waiting() == old(target).waiting()),
                offset + self.rest@.len() <= 4096 * u32::MAX,
                filled(target.waiting(), self.rest@, offset, limit) == start,
                start == filled(old(target).waiting(), old(self)@.rest, old(self)@.offset, limit),
            decreases self.rest@.len(),
        {
            match target.write_step(&mut self.rest, self.offset) {
                Some(flash) => {
                    return WriteAction::Flash(flash);
                },
                None => {},
            }
        }
        assert(start.flash is None && start.rest == self.rest@ && start.waiting
            == target.waiting());
        let ghost now = self@;
        let r = self.settle();
        assert(settled(now, target.waiting()) == (WriteNext {
            write: self@,
            waiting: target.waiting(),
            action: r@,
        }));
        r
    }
}

/// The answer to a write whose flashes are waited for and come out like this, one after the other,
/// if they are enough for an answer.
pub open spec fn answer_after(
    write: WriteView,
    waiting: Seq<ChunkView>,
    limit: u32,
    outcomes: Seq<Result<(), Status>>,
) -> Option<Result<u64, Status>>
    decreases outcomes.len(),
{
    if outcomes.len() == 0 {
        None
    } else {
        let event = match outcomes[0] {
            Ok(_) => WriteEvent::Flashed,
            Err(status) => WriteEvent::Failed(status),
        };
        let next = write_next(write, waiting, limit, event);
        match next.action {
            WriteActionView::Complete(answer) => Some(answer),
            _ => answer_after(next.write, next.waiting, limit, outcomes.skip(1)),
        }
    }
}

/// A write is answered with its whole length once all its flashes are done, and otherwise with the
/// first of them that failed.
pub proof fn law_first_failure_answers(
    write: WriteView,
    waiting: Seq<ChunkView>,
    limit: u32,
    outcomes: Seq<Result<(), Status>>,
    done: nat,
)
    requires
        write.phase == WritePhase::Waiting,
        done <= outcomes.len(),
        forall|i: int| 0 <= i < done ==> (#[trigger] outcomes[i]) is Ok,
        done == write.unanswered > 0 || (done < write.unanswered && done < outcomes.len()
            && outcomes[done as int] is Err),
    ensures
        answer_after(write, waiting, limit, outcomes) == Some(
            if done == write.unanswered {
                Ok::<u64, Status>(write.length)
            } else {
                Err::<u64, Status>(outcomes[done as int]->Err_0)
            },
        ),
    decreases done,
{
    if done > 0 {
        let next = write_next(write, waiting, limit, WriteEvent::Flashed);
        assert(outcomes[0] is Ok);
        if done < write.unanswered || done > 1 {
            let rest = outcomes.skip(1);
            assert forall|i: int| 0 <= i < done - 1 implies (#[trigger] rest[i]) is Ok by {
                assert(rest[i] == outcomes[i + 1]);
            }
            law_first_failure_answers(next.write, next.waiting, limit, rest, (done - 1) as nat);
        }
    }
}

/// A write that fits into the buffer is answered at once, with its whole length and without a
/// flash.
pub proof fn law_small_write_is_buffered(
    write: WriteView,
    waiting: Seq<ChunkView>,
    limit: u32,
)
    requires
        write.unanswered == 0,
        write.rest.len() > 0,
        appendable(waiting, write.offset, limit as nat) is Some,
        write.rest.len() <= appendable(waiting, write.offset, limit as nat)->0,
        flash_size(appended(waiting, write.offset, write.rest)) <= flash_threshold(limit),
    ensures
        ({
            let next = write_next(write, waiting, limit, WriteEvent::Begin);
            &&& next.action == WriteActionView::Complete(Ok(write.length))
            &&& next.waiting == appended(waiting, write.offset, write.rest)
        }),
{
    let n = write.rest.len() as int;
    assert(write.rest.take(n) =~= write.rest);
    let next = step_after(waiting, write.rest, write.offset, limit);
    assert(next.rest =~= Seq::<u8>::empty());
    assert(filled(next.waiting, next.rest, write.offset, limit) == next);
}

impl FastbootVolumeTarget {
    /// The largest download that the device takes.
    pub closed spec fn limit(self) -> u32 {
        self.max_download
    }

    /// What waits to be flashed.
    pub closed spec fn waiting(self) -> Seq<ChunkView> {
        self.buffered@
    }

    /// What waits is below the threshold.
    pub open spec fn wf(self) -> bool {
        &&& chunks_wf(self.waiting())
        &&& self.waiting().len() == 0 || flash_size(self.waiting()) <= flash_threshold(
            self.limit(),
        )
    }

    /// A target that nothing was written to.
    pub fn new(max_download: u32) -> (r: Self)
        ensures
            r.wf(),
            r.limit() == max_download,
            r.waiting() == Seq::<ChunkView>::empty(),
    {
        FastbootVolumeTarget { max_download, buffered: FastbootData::new() }
    }

    /// Takes some of the data in that is to be written at the offset. What is returned is to be
    /// flashed. To be repeated, with the same offset, until no data is left.
    pub fn write_step(&mut self, data: &mut Vec<u8>, offset: u64) -> (r: Option<FastbootData>)
        requires
            old(self).wf(),
            old(self).limit() >= 8192,
            old(data)@.len() > 0,
            offset + old(data)@.len() <= 4096 * u32::MAX,
        ensures
            final(self).wf(),
            final(self).limit() == old(self).limit(),
            step_after(old(self).waiting(), old(data)@, offset as nat, old(self).limit()) == (
            Filled {
                waiting: final(self).waiting(),
                rest: final(data)@,
                flash: match r {
                    Some(flash) => Some(flash@),
                    None => None,
                },
            }),
            r is Some ==> chunks_wf(r->0@),
            // Each step takes data in, or else empties the buffer, so that the next one does.
            final(data)@.len() < old(data)@.len() || (old(self).waiting().len() > 0
                && final(self).waiting().len() == 0),
    {
        let ghost all = data@;
        let max: u64 = self.max_download as u64;
        let threshold: u64 = if max - 8192 < FLASH_THRESHOLD {
            max - 8192
        } else {
            FLASH_THRESHOLD
        };
        let appended = self.buffered.append(offset, data, max);
        assert(all.skip(0) =~= all);
        if !appended || self.buffered.flash_size() > threshold {
            let mut buffer = FastbootData::new();
            std::mem::swap(&mut buffer, &mut self.buffered);
            Some(buffer)
        } else {
            None
        }
    }

    /// What to do on a flush.
    pub fn flush_step(&mut self) -> (r: FlushStep)
        requires
            old(self).wf(),
        ensures
            final(self).wf(),
            final(self).limit() == old(self).limit(),
            final(self).waiting() == Seq::<ChunkView>::empty(),
            match r {
                FlushStep::Flash(data) => old(self).waiting().len() > 0 && data@ == old(self).waiting(),
                FlushStep::Ping => old(self).waiting().len() == 0,
            },
    {
        if self.buffered.is_empty() {
            assert(self.waiting() =~= Seq::<ChunkView>::empty());
            FlushStep::Ping
        } else {
            let mut buffer = FastbootData::new();
            std::mem::swap(&mut buffer, &mut self.buffered);
            FlushStep::Flash(buffer)
        }
    }
}

/// Whether a chunk holds a byte at a place of the target: its pieces lie one after the other from
/// its first block on.
pub open spec fn chunk_holds(chunk: ChunkView, at: int, byte: u8) -> bool {
    let bytes = chunk.pieces.flatten();
    let start = chunk.offset * 4096;
    start <= at < start + bytes.len() && bytes[at - start] == byte
}

/// Whether one of the chunks holds a byte at a place of the target.
pub open spec fn holds(chunks: Seq<ChunkView>, at: int, byte: u8) -> bool {
    exists|i: int| 0 <= i < chunks.len() && chunk_holds(#[trigger] chunks[i], at, byte)
}

/// The pieces of a chunk are joined in their order, and nothing comes between them.
pub proof fn law_joined_is_flat(pieces: Seq<Seq<u8>>)
    ensures
        joined(pieces) == pieces.flatten(),
    decreases pieces.len(),
{
    if pieces.len() > 0 {
        law_joined_is_flat(pieces.drop_last());
        pieces.drop_last().lemma_flatten_push(pieces.last());
        assert(pieces.drop_last().push(pieces.last()) =~= pieces);
    }
}

/// Whether the bytes of the chunks end right at a place of the target.
pub open spec fn ends_at(chunks: Seq<ChunkView>, at: int) -> bool {
    chunks.len() > 0 && chunks.last().offset * 4096 + chunks.last().pieces.flatten().len() == at
}

/// Appending data at an offset changes what is flashed by that data alone: each byte that waited
/// still waits at the same place, the data lies from the offset on, and all else that can be new
/// are zeros from the start of the block where the data starts one of its own.
pub proof fn law_append_adds_data_alone(
    chunks: Seq<ChunkView>,
    offset: nat,
    data: Seq<u8>,
    at: int,
    byte: u8,
)
    ensures
        holds(appended(chunks, offset, data), at, byte) <==> {
            ||| holds(chunks, at, byte)
            ||| offset <= at < offset + data.len() && data[at - offset] == byte
            ||| !ends_at(chunks, offset as int) && offset - offset % 4096 <= at < offset && byte == 0
        },
{
    let after = appended(chunks, offset, data);
    if chunks.len() > 0 {
        law_joined_is_flat(chunks.last().pieces);
    }
    law_joined_is_flat(after.last().pieces);
    let rest = if ends_at(chunks, offset as int) {
        chunks.drop_last()
    } else {
        chunks
    };
    assert(after.drop_last() =~= rest);
    lemma_holds_last(after, at, byte);
    if ends_at(chunks, offset as int) {
        lemma_holds_last(chunks, at, byte);
        chunks.last().pieces.lemma_flatten_push(data);
        let old = chunks.last().pieces.flatten();
        assert(after.last().pieces.flatten() =~= old + data);
    } else {
        let pad = zeros(offset % 4096);
        if offset % 4096 > 0 {
            assert(seq![pad, data] =~= seq![pad].push(data));
            seq![pad].lemma_flatten_push(data);
            seq![pad].lemma_flatten_one_element();
            assert(after.last().pieces.flatten() =~= pad + data);
        } else {
            seq![data].lemma_flatten_one_element();
            assert(after.last().pieces.flatten() =~= data);
        }
        assert((offset / 4096) * 4096 == offset - offset % 4096);
    }
}

proof fn lemma_holds_last(chunks: Seq<ChunkView>, at: int, byte: u8)
    requires
        chunks.len() > 0,
    ensures
        holds(chunks, at, byte) <==> holds(chunks.drop_last(), at, byte) || chunk_holds(
            chunks.last(),
            at,
            byte,
        ),
{
    let rest = chunks.drop_last();
    if holds(rest, at, byte) {
        let i = choose|i: int| 0 <= i < rest.len() && chunk_holds(#[trigger] rest[i], at, byte);
        assert(chunk_holds(chunks[i], at, byte));
    }
    if holds(chunks, at, byte) {
        let i = choose|i: int| 0 <= i < chunks.len() && chunk_holds(#[trigger] chunks[i], at, byte);
        if i < rest.len() {
            assert(chunk_holds(rest[i], at, byte));
        }
    }
    assert(chunk_holds(chunks[chunks.len() - 1], at, byte) == chunk_holds(
        chunks.last(),
        at,
        byte,
    ));
}

/// Appending data keeps all chunks but the last as they are, and the last one where it is. A
/// chunk is added exactly where the data does not go on from the end of the last one.
pub proof fn law_append_keeps_chunks(chunks: Seq<ChunkView>, offset: nat, data: Seq<u8>, i: int)
    requires
        0 <= i < chunks.len(),
    ensures
        ({
            let after = appended(chunks, offset, data);
            &&& after.len() == chunks.len() + if ends_at(chunks, offset as int) {
                0int
            } else {
                1int
            }
            &&& after[i].offset == chunks[i].offset
            &&& chunks[i].pieces.is_prefix_of(after[i].pieces)
            &&& i < after.len() - 1 ==> after[i] == chunks[i]
        }),
{
    law_joined_is_flat(chunks.last().pieces);
    let after = appended(chunks, offset, data);
    assert(chunks[i].pieces.is_prefix_of(after[i].pieces)) by {
        if i == chunks.len() - 1 && ends_at(chunks, offset as int) {
            assert(after[i].pieces == chunks[i].pieces.push(data));
        }
    }
}

/// Data is refused where it would lie before the end of what waits, or where less than a block of
/// room is left behind the headers of a new chunk, and only there.
pub proof fn law_append_refusals(chunks: Seq<ChunkView>, offset: nat, max_size: nat)
    ensures
        appendable(chunks, offset, max_size) is None <==> !ends_at(chunks, offset as int) && ({
            ||| chunks.len() > 0 && chunks.last().offset * 4096
                + chunks.last().pieces.flatten().len() > offset
            ||| flash_size(chunks) + 24 + 4096 > max_size
        }),
{
    if chunks.len() > 0 {
        law_joined_is_flat(chunks.last().pieces);
    }
}

/// As much data is taken as fits: a byte more would be too much for the download.
pub proof fn law_append_fills_download(
    chunks: Seq<ChunkView>,
    offset: nat,
    data: Seq<u8>,
    max_size: nat,
)
    requires
        flash_size(chunks) <= max_size,
        appendable(chunks, offset, max_size) is Some,
        data.len() > appendable(chunks, offset, max_size)->0,
        offset >= 4096,
    ensures
        flash_size(appended(chunks, offset, data)) > max_size,
{
    let after = appended(chunks, offset, data);
    if chunks.len() > 0 && chunks.last().end_bytes() == offset {
        lemma_joined_push(chunks.last().pieces, data);
        assert(after.drop_last() =~= chunks.drop_last());
    } else {
        let pad = zeros(offset % 4096);
        lemma_joined_push(seq![], data);
        lemma_joined_push(seq![], pad);
        lemma_joined_push(seq![pad], data);
        assert(seq![].push(data) =~= seq![data]);
        assert(seq![].push(pad) =~= seq![pad]);
        assert(seq![pad].push(data) =~= seq![pad, data]);
        assert(after.drop_last() =~= chunks);
    }
}

/// The room that is set aside for a download is that of 28 bytes, of 12 bytes for each chunk and
/// 12 more for what is skipped before it, and of the whole blocks that its pieces take.
pub proof fn law_room_for_chunks(chunks: Seq<ChunkView>, chunk: ChunkView, piece: Seq<u8>)
    ensures
        flash_size(Seq::<ChunkView>::empty()) == 28,
        flash_size(chunks.push(chunk)) == flash_size(chunks) + chunk.flash_size(),
        (ChunkView { offset: chunk.offset, pieces: Seq::empty() }).flash_size() == if chunk.offset
            == 0 {
            12nat
        } else {
            24nat
        },
        ({
            let more = ChunkView { offset: chunk.offset, pieces: chunk.pieces.push(piece) };
            let taken = more.flash_size() - chunk.flash_size();
            taken % 4096 == 0 && piece.len() <= taken < piece.len() + 4096
        }),
{
    assert(chunks.push(chunk).drop_last() =~= chunks);
    lemma_joined_push(chunk.pieces, piece);
}

/// What is taken in by a step, or is flashed by it, is what waited before together with the head
/// of the data at its offset. What is flashed leaves nothing behind, and what waits on is within
/// the threshold.
pub proof fn law_step_moves_data(
    waiting: Seq<ChunkView>,
    data: Seq<u8>,
    offset: nat,
    limit: u32,
    at: int,
    byte: u8,
)
    ensures
        ({
            let next = step_after(waiting, data, offset, limit);
            let now = match next.flash {
                Some(flash) => flash,
                None => next.waiting,
            };
            let n = data.len() - next.rest.len();
            &&& 0 <= n <= data.len()
            &&& next.rest == data.skip(n)
            &&& holds(waiting, at, byte) ==> holds(now, at, byte)
            &&& offset <= at < offset + n && data[at - offset] == byte ==> holds(now, at, byte)
            &&& holds(now, at, byte) ==> {
                ||| holds(waiting, at, byte)
                ||| offset <= at < offset + n && data[at - offset] == byte
                ||| offset - offset % 4096 <= at < offset && byte == 0
            }
            &&& next.flash is Some ==> next.waiting == Seq::<ChunkView>::empty()
            &&& next.flash is None ==> flash_size(next.waiting) <= limit - 8192 && flash_size(
                next.waiting,
            ) <= 16 * 1024 * 1024
            &&& next.flash matches Some(flash) ==> {
                ||| flash == waiting && n == 0
                ||| flash_size(flash) > limit - 8192
                ||| flash_size(flash) > 16 * 1024 * 1024
            }
        }),
{
    let room = appendable(waiting, offset, limit as nat);
    if let Some(room) = room {
        let n = at_most(room, data.len()) as int;
        law_append_adds_data_alone(waiting, offset, data.take(n), at, byte);
    } else {
        assert(data.skip(0) =~= data);
    }
}

/// Data that is taken in until something is flashed waits or is flashed at its offset, with all
/// that waited before.
pub proof fn law_filling_keeps_data(
    waiting: Seq<ChunkView>,
    data: Seq<u8>,
    offset: nat,
    limit: u32,
    at: int,
    byte: u8,
)
    ensures
        ({
            let next = filled(waiting, data, offset, limit);
            let now = match next.flash {
                Some(flash) => flash,
                None => next.waiting,
            };
            let n = data.len() - next.rest.len();
            &&& 0 <= n <= data.len()
            &&& next.rest == data.skip(n)
            &&& holds(waiting, at, byte) ==> holds(now, at, byte)
            &&& next.flash is Some ==> next.waiting == Seq::<ChunkView>::empty()
            &&& offset <= at < offset + n && data[at - offset] == byte ==> holds(now, at, byte)
            &&& data.len() > 0 && next.flash is None ==> flash_size(next.waiting) <= limit - 8192
        }),
    decreases data.len(),
{
    if data.len() > 0 {
        let step = step_after(waiting, data, offset, limit);
        law_step_moves_data(waiting, data, offset, limit, at, byte);
        if !(step.flash is Some || step.rest.len() >= data.len()) {
            law_filling_keeps_data(step.waiting, step.rest, offset, limit, at, byte);
            let m = data.len() - step.rest.len();
            let k = step.rest.len() - filled(step.waiting, step.rest, offset, limit).rest.len();
            assert(data.skip(m).skip(k) =~= data.skip(m + k));
            if step.rest.len() == 0 {
                assert(filled(step.waiting, step.rest, offset, limit).waiting == step.waiting);
            } else {
                law_append_places_data(waiting, offset, data.take(m));
                assert(step.waiting.last().end_bytes() == offset + m);
                assert(appendable(step.waiting, offset, limit as nat) is None);
                assert(step.rest.skip(0) =~= step.rest);
            }
        }
    } else {
        assert(data.skip(0) =~= data);
    }
}

/// A write keeps its offset and its length whatever happens, the device owes an answer more for
/// each flash that it was given and one less for each that it gave, and nothing is flashed but on
/// the way to taking all data in.
pub proof fn law_write_counts(
    write: WriteView,
    waiting: Seq<ChunkView>,
    limit: u32,
    event: WriteEvent,
)
    requires
        can_happen(write, event),
    ensures
        ({
            let next = write_next(write, waiting, limit, event);
            &&& next.write.offset == write.offset
            &&& next.write.length == write.length
            &&& next.write.unanswered == write.unanswered + match event {
                WriteEvent::Given => 1int,
                WriteEvent::Flashed => -1int,
                _ => 0int,
            }
            &&& next.write.rest.len() <= write.rest.len()
            &&& next.write.rest == write.rest.skip(write.rest.len() - next.write.rest.len())
            &&& match event {
                WriteEvent::NotGiven(status) => next.action == WriteActionView::Complete(
                    Err(status),
                ),
                WriteEvent::Failed(status) => next.action == WriteActionView::Complete(Err(status)),
                _ => !(next.action matches WriteActionView::Complete(Err(_))),
            }
            &&& next.action matches WriteActionView::Complete(Ok(n)) ==> n == write.length
                && next.write.unanswered == 0
            &&& next.action is Wait ==> next.write.unanswered > 0 && next.write.phase
                == WritePhase::Waiting
            &&& next.action is Complete <==> next.write.phase == WritePhase::Over
            &&& next.action is Flash ==> (event is Begin || event is Given) && next.write.phase
                == WritePhase::Filling && next.waiting == Seq::<ChunkView>::empty()
            &&& !(event is Begin || event is Given) ==> next.waiting == waiting
        }),
{
    assert(write.rest.skip(0) =~= write.rest);
    law_filling_keeps_data(waiting, write.rest, write.offset, limit, 0, 0);
}

/// Data that is appended at an offset is flashed at that offset.
pub proof fn law_append_places_data(chunks: Seq<ChunkView>, offset: nat, data: Seq<u8>)
    ensures
        ({
            let chunk = appended(chunks, offset, data).last();
            let bytes = joined(chunk.pieces);
            &&& chunk.end_bytes() == offset + data.len()
            &&& bytes.len() >= data.len()
            &&& bytes.skip(bytes.len() - data.len()) == data
        }),
{
    let chunk = appended(chunks, offset, data).last();
    if chunks.len() > 0 && chunks.last().end_bytes() == offset {
        lemma_joined_push(chunks.last().pieces, data);
    } else {
        let pad = zeros(offset % 4096);
        lemma_joined_push(seq![], pad);
        assert(seq![].push(pad) =~= seq![pad]);
        lemma_joined_push(seq![pad], data);
        lemma_joined_push(seq![], data);
        assert(seq![].push(data) =~= seq![data]);
        assert(seq![pad].push(data) =~= seq![pad, data]);
    }
    let bytes = joined(chunk.pieces);
    assert(bytes.skip(bytes.len() - data.len()) =~= data);
}

/// What is appended at the start of a block, as much as fits, keeps the download within its
/// limit.
pub proof fn law_append_within_limit(
    chunks: Seq<ChunkView>,
    offset: nat,
    data: Seq<u8>,
    max_size: nat,
)
    requires
        flash_size(chunks) <= max_size,
        appendable(chunks, offset, max_size) is Some,
        data.len() <= appendable(chunks, offset, max_size)->0,
        offset % 4096 == 0 || (chunks.len() > 0 && chunks.last().end_bytes() == offset),
    ensures
        flash_size(appended(chunks, offset, data)) <= max_size,
{
    let after = appended(chunks, offset, data);
    if chunks.len() > 0 && chunks.last().end_bytes() == offset {
        lemma_joined_push(chunks.last().pieces, data);
        assert(after.drop_last() =~= chunks.drop_last());
    } else {
        lemma_joined_push(seq![], data);
        assert(seq![].push(data) =~= seq![data]);
        assert(after.drop_last() =~= chunks);
    }
}

/// Data that is appended behind the last block in use keeps the chunks in order.
pub proof fn law_append_keeps_order(chunks: Seq<ChunkView>, offset: nat, data: Seq<u8>)
    requires
        ordered(chunks),
        expanded_blocks(chunks) <= offset / 4096 || (chunks.len() > 0
            && chunks.last().end_bytes() == offset),
    ensures
        ordered(appended(chunks, offset, data)),
{
    let after = appended(chunks, offset, data);
    assert forall|i: int, j: int| #![trigger after[i], after[j]]
        0 <= i && j == i + 1 && j < after.len() implies after[i].end_blocks()
        <= after[j].offset by {
        if j < chunks.len() {
            assert(chunks[i].end_blocks() <= chunks[j].offset);
            assert(after[i] == chunks[i]);
        } else {
            assert(after[i] == chunks.last());
        }
    }
}

proof fn lemma_header_lengths(h: ChunkHeader)
    ensures
        chunk_header_bytes(h).len() == 12,
{
    crate::sparse::law_chunk_header_round_trip(h);
}

/// The image of chunks in order fits into the room that is set aside for it.
pub proof fn law_image_fits(chunks: Seq<ChunkView>)
    requires
        ordered(chunks),
    ensures
        image(chunks).len() <= flash_size(chunks),
{
    crate::sparse::law_file_header_round_trip(
        FileHeader {
            block_size: 4096,
            blocks: expanded_blocks(chunks) as u32,
            chunks: flash_chunks(chunks) as u32,
            checksum: 0,
        },
    );
    lemma_chunks_image_fits(chunks);
}

proof fn lemma_chunks_image_fits(chunks: Seq<ChunkView>)
    requires
        ordered(chunks),
    ensures
        chunks_image(chunks).len() <= chunks_size(chunks),
    decreases chunks.len(),
{
    if chunks.len() > 0 {
        let rest = chunks.drop_last();
        let last = chunks.last();
        assert(ordered(rest)) by {
            assert forall|i: int, j: int| #![trigger rest[i], rest[j]]
                0 <= i && j == i + 1 && j < rest.len() implies rest[i].end_blocks()
                <= rest[j].offset by {
                assert(chunks[i].end_blocks() <= chunks[j].offset);
            }
        }
        lemma_chunks_image_fits(rest);
        let from = expanded_blocks(rest);
        if rest.len() > 0 {
            assert(chunks[chunks.len() - 2].end_blocks() <= chunks[chunks.len() - 1].offset);
            assert(rest.last() == chunks[chunks.len() - 2]);
        }
        lemma_header_lengths(dontcare_header((last.offset - from) as u32));
        lemma_header_lengths(raw_header(last.blocks() as u32, 4096));
        lemma_rounded_up(last.pieces);
    }
}

/// The image takes exactly the room that is set aside for it where there is a gap before each
/// chunk but one at the start, and all pieces of a chunk but the last are whole blocks.
pub proof fn law_image_fills(chunks: Seq<ChunkView>)
    requires
        ordered(chunks),
        forall|i: int|
            0 <= i < chunks.len() ==> (#[trigger] chunks[i]).pieces.len() > 0 && whole_pieces(
                chunks[i].pieces.drop_last(),
            ),
        forall|i: int, j: int|
            #![trigger chunks[i], chunks[j]]
            0 <= i && j == i + 1 && j < chunks.len() ==> chunks[i].end_blocks()
                < chunks[j].offset,
    ensures
        image(chunks).len() == flash_size(chunks),
{
    crate::sparse::law_file_header_round_trip(
        FileHeader {
            block_size: 4096,
            blocks: expanded_blocks(chunks) as u32,
            chunks: flash_chunks(chunks) as u32,
            checksum: 0,
        },
    );
    lemma_chunks_image_fills(chunks);
}

/// All pieces are whole blocks.
pub open spec fn whole_pieces(pieces: Seq<Seq<u8>>) -> bool {
    forall|i: int| 0 <= i < pieces.len() ==> (#[trigger] pieces[i]).len() % 4096 == 0
}

proof fn lemma_whole_pieces(pieces: Seq<Seq<u8>>)
    requires
        whole_pieces(pieces),
    ensures
        rounded_up(pieces) == joined(pieces).len(),
    decreases pieces.len(),
{
    if pieces.len() > 0 {
        let rest = pieces.drop_last();
        assert forall|i: int| 0 <= i < rest.len() implies (#[trigger] rest[i]).len() % 4096
            == 0 by {
            assert(rest[i] == pieces[i]);
        }
        lemma_whole_pieces(rest);
        assert(pieces[pieces.len() - 1].len() % 4096 == 0);
    }
}

proof fn lemma_chunks_image_fills(chunks: Seq<ChunkView>)
    requires
        forall|i: int|
            0 <= i < chunks.len() ==> (#[trigger] chunks[i]).pieces.len() > 0 && whole_pieces(
                chunks[i].pieces.drop_last(),
            ),
        forall|i: int, j: int|
            #![trigger chunks[i], chunks[j]]
            0 <= i && j == i + 1 && j < chunks.len() ==> chunks[i].end_blocks()
                < chunks[j].offset,
    ensures
        chunks_image(chunks).len() == chunks_size(chunks),
    decreases chunks.len(),
{
    if chunks.len() > 0 {
        let rest = chunks.drop_last();
        let last = chunks.last();
        assert forall|i: int| 0 <= i < rest.len() implies (#[trigger] rest[i]).pieces.len() > 0
            && whole_pieces(rest[i].pieces.drop_last()) by {
            assert(rest[i] == chunks[i]);
        }
        assert forall|i: int, j: int| #![trigger rest[i], rest[j]]
            0 <= i && j == i + 1 && j < rest.len() implies rest[i].end_blocks()
            < rest[j].offset by {
            assert(chunks[i].end_blocks() < chunks[j].offset);
        }
        lemma_chunks_image_fills(rest);
        let from = expanded_blocks(rest);
        if rest.len() > 0 {
            assert(chunks[chunks.len() - 2].end_blocks() < chunks[chunks.len() - 1].offset);
            assert(rest.last() == chunks[chunks.len() - 2]);
        }
        assert(chunks[chunks.len() - 1] == last);
        lemma_chunk_image_fills(last, from);
    }
}

proof fn lemma_chunk_image_fills(chunk: ChunkView, from: nat)
    requires
        chunk.pieces.len() > 0,
        whole_pieces(chunk.pieces.drop_last()),
        from < chunk.offset || (from == 0 && chunk.offset == 0),
    ensures
        chunk_image(chunk, from).len() == chunk.flash_size(),
{
    lemma_header_lengths(dontcare_header((chunk.offset - from) as u32));
    lemma_header_lengths(raw_header(chunk.blocks() as u32, 4096));
    lemma_whole_pieces(chunk.pieces.drop_last());
    lemma_rounded_up(chunk.pieces.drop_last());
    let head = joined(chunk.pieces.drop_last()).len();
    let tail = chunk.pieces.last().len();
    assert(chunk.data_bytes() == head + tail);
    assert(blocks_for(head + tail) * 4096 == head + blocks_for(tail) * 4096) by (nonlinear_arith)
        requires
            head % 4096 == 0,
            blocks_for(head + tail) == (head + tail + 4095) / 4096,
            blocks_for(tail) == (tail + 4095) / 4096,
    ;
}

} // verus!
