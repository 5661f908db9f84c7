//! Collects small writes into large ones.

use vstd::prelude::*;

use crate::volume_io::{smaller, IoError, IoErrorView, SeekFrom, VolumeIoRW};

verus! {

/// Buffers writes up to close to the maximum write size of a [`VolumeIoRW`].
///
/// Optionally this helper can discard flush requests. A flush for volumes is relatively heavy
/// as it forces a network roundtrip and might cause non-optimal writes to the underlying
/// volumes. It is recommended to enable this by calling [`BatchWriter::discard_flush`] for
/// write-only use cases, especially with helpers that treat a flush as a low cost operation.
///
/// When the writer is dropped any outstanding data is lost. To avoid that, flush or shut down.
#[derive(Debug)]
pub struct BatchWriter {
    buffer_size: usize,
    batch: Option<Vec<u8>>,
    discard_flush: bool,
    pending_seek: Option<SeekFrom>,
}

/// What becomes of a write.
#[derive(Debug)]
pub enum BatchWrite {
    /// So many bytes were put aside: all there are.
    Kept(usize),
    /// The caller's bytes are to be written as they are; the outcome is the outcome of the write.
    PassOn,
    /// These bytes are to be written, and the outcome told to [`BatchWriter::batch_written`].
    Write(Vec<u8>),
}

/// What came of writing to the volume.
#[derive(Debug)]
pub enum WriteOutcome {
    /// Not possible yet.
    Pending,
    /// So many bytes were written.
    Written(usize),
    /// The write failed.
    Failed(IoError),
}

/// What there is to do before a flush is done.
#[derive(Debug)]
pub enum BatchFlush {
    /// Nothing.
    Done,
    /// Write what was put aside, and then flush the volume.
    FlushVolume,
}

/// What becomes of a seek.
#[derive(Debug)]
pub enum BatchSeek {
    /// Ask the volume for it.
    PassOn(SeekFrom),
    /// It waits until what was put aside is written.
    Kept,
    /// It is refused.
    Failed(IoError),
}

/// The size of a batch: the largest multiple of the block size that one write may have.
pub open spec fn batch_size(blocksize: Option<u32>) -> nat {
    let block = match blocksize {
        Some(size) => size as int,
        None => 4096,
    };
    (VolumeIoRW::MAX_WRITE_SIZE - VolumeIoRW::MAX_WRITE_SIZE as int % block) as nat
}

/// A full batch: what was put aside and the head of the new bytes.
pub open spec fn full_batch(kept: Seq<u8>, buf: Seq<u8>, size: nat) -> Seq<u8> {
    kept + buf.take(size - kept.len())
}

/// What is left of bytes of which the first so many have been written.
pub open spec fn left_over(data: Seq<u8>, written: nat) -> Seq<u8> {
    data.skip(smaller(written, data.len()) as int)
}

impl BatchWriter {
    /// The size of a full batch.
    pub closed spec fn size(self) -> nat {
        self.buffer_size as nat
    }

    /// Whether a batch was begun.
    pub closed spec fn batched(self) -> bool {
        self.batch is Some
    }

    /// The bytes that were put aside.
    pub closed spec fn kept(self) -> Seq<u8> {
        match self.batch {
            Some(b) => b@,
            None => Seq::empty(),
        }
    }

    /// Whether flush requests are discarded.
    pub closed spec fn discards(self) -> bool {
        self.discard_flush
    }

    /// The seek that waits.
    pub closed spec fn seek(self) -> Option<SeekFrom> {
        self.pending_seek
    }

    /// What was put aside fits into one write, and nothing is put aside without a batch.
    pub open spec fn wf(self) -> bool {
        &&& self.kept().len() <= self.size() <= VolumeIoRW::MAX_WRITE_SIZE
        &&& !self.batched() ==> self.kept().len() == 0
    }

    /// All but the batch is as it was before.
    pub open spec fn same_setup(self, before: Self) -> bool {
        &&& self.size() == before.size()
        &&& self.discards() == before.discards()
        &&& self.seek() == before.seek()
    }

    /// A writer on top of a volume's target.
    pub fn new(writer: &VolumeIoRW) -> (r: Self)
        requires
            writer.target().blocksize != Some(0u32),
        ensures
            r.wf(),
            r.size() == batch_size(writer.target().blocksize),
            !r.batched(),
            r.kept() == Seq::<u8>::empty(),
            !r.discards(),
            r.seek() is None,
    {
        let blocksize: usize = match writer.blocksize() {
            Some(size) => size as usize,
            None => 4096,
        };
        proof {
            vstd::arithmetic::div_mod::lemma_mod_decreases(
                VolumeIoRW::MAX_WRITE_SIZE as nat,
                blocksize as nat,
            );
        }
        let buffer_size: usize = VolumeIoRW::MAX_WRITE_SIZE - (VolumeIoRW::MAX_WRITE_SIZE
            % blocksize);
        BatchWriter { buffer_size, batch: None, discard_flush: false, pending_seek: None }
    }

    /// Discards flush requests from now on.
    pub fn discard_flush(self) -> (r: Self)
        ensures
            r.size() == self.size(),
            r.batched() == self.batched(),
            r.kept() == self.kept(),
            r.discards(),
            r.seek() == self.seek(),
    {
        let mut me = self;
        me.discard_flush = true;
        me
    }

    /// Takes bytes in. Where they fill the batch, it is to be written.
    pub fn poll_write(&mut self, buf: &[u8]) -> (r: BatchWrite)
        requires
            old(self).wf(),
        ensures
            final(self).wf(),
            final(self).same_setup(*old(self)),
            if !old(self).batched() && buf@.len() >= old(self).size() {
                r is PassOn && *final(self) == *old(self)
            } else if old(self).kept().len() + buf@.len() < old(self).size() {
                &&& r == BatchWrite::Kept(buf.len())
                &&& final(self).batched()
                &&& final(self).kept() == old(self).kept() + buf@
            } else {
                &&& *final(self) == *old(self)
                &&& r is Write
                &&& r->Write_0@ == full_batch(old(self).kept(), buf@, old(self).size())
            },
    {
        match &self.batch {
            None => {
                if buf.len() >= self.buffer_size {
                    BatchWrite::PassOn
                } else {
                    let batch = vstd::slice::slice_to_vec(buf);
                    self.batch = Some(batch);
                    assert(self.kept() =~= old(self).kept() + buf@);
                    BatchWrite::Kept(buf.len())
                }
            },
            Some(b) => {
                let cached: usize = b.len();
                let remaining: usize = self.buffer_size - cached;
                if buf.len() < remaining {
                    let batch = joined(b, buf, buf.len());
                    self.batch = Some(batch);
                    assert(buf@.take(buf@.len() as int) =~= buf@);
                    BatchWrite::Kept(buf.len())
                } else {
                    BatchWrite::Write(joined(b, buf, remaining))
                }
            },
        }
    }

    /// Tells what came of writing a full batch that the caller's bytes had filled up. Returned
    /// is the outcome for the caller: how many of their bytes were taken.
    pub fn batch_written(&mut self, data: Vec<u8>, outcome: WriteOutcome) -> (r: WriteOutcome)
        requires
            old(self).wf(),
            old(self).kept().is_prefix_of(data@),
            data@.len() == old(self).size(),
        ensures
            final(self).wf(),
            final(self).same_setup(*old(self)),
            match outcome {
                WriteOutcome::Written(n) => {
                    &&& r == WriteOutcome::Written((data@.len() - old(self).kept().len()) as usize)
                    &&& final(self).batched() == (n < data@.len())
                    &&& final(self).kept() == left_over(data@, n as nat)
                },
                _ => r == outcome && *final(self) == *old(self),
            },
    {
        match outcome {
            WriteOutcome::Written(n) => {
                let cached: usize = match &self.batch {
                    Some(b) => b.len(),
                    None => 0,
                };
                let taken: usize = data.len() - cached;
                self.data_written(data, n);
                WriteOutcome::Written(taken)
            },
            _ => outcome,
        }
    }

    fn data_written(&mut self, data: Vec<u8>, n: usize)
        requires
            data@.len() <= old(self).size() <= VolumeIoRW::MAX_WRITE_SIZE,
        ensures
            final(self).wf(),
            final(self).same_setup(*old(self)),
            final(self).batched() == (n < data@.len()),
            final(self).kept() == left_over(data@, n as nat),
    {
        if n >= data.len() {
            self.batch = None;
            assert(self.kept() =~= data@.skip(data@.len() as int));
        } else {
            let mut data = data;
            let ghost before = data@;
            let rest = data.split_off(n);
            assert(rest@ =~= before.skip(n as int));
            self.batch = Some(rest);
        }
    }

    /// The bytes that are still to be written before a flush, a shutdown or a seek.
    pub fn poll_flush_data(&self) -> (r: Option<Vec<u8>>)
        ensures
            r is Some <==> self.batched(),
            r is Some ==> r->0@ == self.kept(),
    {
        match &self.batch {
            None => None,
            Some(b) => Some(joined(b, b.as_slice(), 0)),
        }
    }

    /// Tells that so many of the bytes that were put aside have been written.
    pub fn flush_data_written(&mut self, written: usize)
        requires
            old(self).wf(),
            old(self).batched(),
        ensures
            final(self).wf(),
            final(self).same_setup(*old(self)),
            final(self).batched() == (written < old(self).kept().len()),
            final(self).kept() == left_over(old(self).kept(), written as nat),
    {
        if let Some(data) = self.batch.take() {
            self.data_written(data, written);
        }
    }

    /// What a flush comes to.
    pub fn poll_flush(&self) -> (r: BatchFlush)
        ensures
            r == if self.discards() {
                BatchFlush::Done
            } else {
                BatchFlush::FlushVolume
            },
    {
        if self.discard_flush {
            BatchFlush::Done
        } else {
            BatchFlush::FlushVolume
        }
    }

    /// Asks to move to another position. While a batch is begun, one such request can wait.
    pub fn start_seek(&mut self, position: SeekFrom) -> (r: BatchSeek)
        ensures
            final(self).size() == old(self).size(),
            final(self).batched() == old(self).batched(),
            final(self).kept() == old(self).kept(),
            final(self).discards() == old(self).discards(),
            if !old(self).batched() {
                r == BatchSeek::PassOn(position) && final(self).seek() == old(self).seek()
            } else if old(self).seek() is Some {
                &&& r is Failed
                &&& r->Failed_0@ == IoErrorView::Busy("Seek in progress"@)
                &&& final(self).seek() == old(self).seek()
            } else {
                r is Kept && final(self).seek() == Some(position)
            },
    {
        if self.batch.is_none() {
            BatchSeek::PassOn(position)
        } else if self.pending_seek.is_some() {
            BatchSeek::Failed(IoError::Busy("Seek in progress".to_owned()))
        } else {
            self.pending_seek = Some(position);
            BatchSeek::Kept
        }
    }

    /// The seek that waited, to be asked of the volume now that the batch is written.
    pub fn take_seek(&mut self) -> (r: Option<SeekFrom>)
        ensures
            r == old(self).seek(),
            final(self).seek() is None,
            final(self).size() == old(self).size(),
            final(self).batched() == old(self).batched(),
            final(self).kept() == old(self).kept(),
            final(self).discards() == old(self).discards(),
    {
        let seek = self.pending_seek;
        self.pending_seek = None;
        seek
    }
}

/// The bytes with the first so many of others behind them.
fn joined(a: &Vec<u8>, b: &[u8], n: usize) -> (r: Vec<u8>)
    requires
        n <= b@.len(),
    ensures
        r@ == a@ + b@.take(n as int),
{
    let mut r: Vec<u8> = Vec::new();
    for i in 0..a.len()
        invariant
            r@ == a@.take(i as int),
    {
        r.push(a[i]);
    }
    for i in 0..n
        invariant
            n <= b@.len(),
            r@ == a@ + b@.take(i as int),
    {
        r.push(b[i]);
        assert(b@.take(i + 1) =~= b@.take(i as int).push(b@[i as int]));
    }
    r
}

/// No byte is lost, doubled or reordered when a full batch is written: what had been put
/// aside, followed by the bytes of the caller that were taken, is what was written followed by
/// what is put aside now.
pub proof fn law_batch_keeps_bytes(kept: Seq<u8>, buf: Seq<u8>, size: nat, written: nat)
    requires
        kept.len() <= size,
        kept.len() + buf.len() >= size,
    ensures
        ({
            let data = full_batch(kept, buf, size);
            let n = smaller(written, data.len()) as int;
            &&& data.len() == size
            &&& kept + buf.take(size - kept.len()) == data.take(n) + left_over(data, written)
        }),
{
    let data = full_batch(kept, buf, size);
    let n = smaller(written, data.len()) as int;
    assert(data =~= data.take(n) + data.skip(n));
}

/// Writing what is left piece by piece writes all of it in order.
pub proof fn law_flush_keeps_bytes(kept: Seq<u8>, written: nat)
    ensures
        kept == kept.take(smaller(written, kept.len()) as int) + left_over(kept, written),
        written > 0 && kept.len() > 0 ==> left_over(kept, written).len() < kept.len(),
{
    let n = smaller(written, kept.len()) as int;
    assert(kept =~= kept.take(n) + kept.skip(n));
}

/// A batch is a whole number of blocks.
pub proof fn law_batch_is_whole_blocks(blocksize: u32)
    requires
        blocksize > 0,
    ensures
        batch_size(Some(blocksize)) % blocksize as nat == 0,
        batch_size(Some(blocksize)) <= VolumeIoRW::MAX_WRITE_SIZE,
{
    let m = VolumeIoRW::MAX_WRITE_SIZE as int;
    let b = blocksize as int;
    assert((m - m % b) % b == 0 && 0 <= m % b <= m) by (nonlinear_arith)
        requires
            b > 0,
            m >= 0,
    ;
}

/// A batch is as large as it can be: no more than three megabytes, and another block would be too
/// much. Blocks are of four kilobytes where the target does not say.
pub proof fn law_batches_are_large(blocksize: u32)
    requires
        0 < blocksize <= 3 * 1024 * 1024,
    ensures
        batch_size(Some(blocksize)) <= 3 * 1024 * 1024,
        batch_size(Some(blocksize)) + blocksize > 3 * 1024 * 1024,
        batch_size(Some(blocksize)) as int % blocksize as int == 0,
        batch_size(None) == batch_size(Some(4096)),
        batch_size(None) == 3 * 1024 * 1024,
{
    let m = VolumeIoRW::MAX_WRITE_SIZE as int;
    let b = blocksize as int;
    vstd::arithmetic::div_mod::lemma_fundamental_div_mod(m, b);
    let q = m / b;
    assert(m - m % b == b * q);
    vstd::arithmetic::div_mod::lemma_mod_multiples_basic(q, b);
    assert(b * q == q * b) by (nonlinear_arith);
}

/// A full batch is exactly of the size of a batch: all that was put aside, then the head of the new
/// bytes.
pub proof fn law_full_batch(kept: Seq<u8>, buf: Seq<u8>, size: nat, i: int)
    requires
        kept.len() <= size <= kept.len() + buf.len(),
    ensures
        full_batch(kept, buf, size).len() == size,
        0 <= i < kept.len() ==> full_batch(kept, buf, size)[i] == kept[i],
        kept.len() <= i < size ==> full_batch(kept, buf, size)[i] == buf[i - kept.len()],
{
}

/// What is left of bytes of which some were written are those behind.
pub proof fn law_left_over(data: Seq<u8>, written: nat, i: int)
    ensures
        written <= data.len() ==> left_over(data, written).len() == data.len() - written,
        written > data.len() ==> left_over(data, written).len() == 0,
        0 <= i < left_over(data, written).len() ==> left_over(data, written)[i] == data[written
            + i],
{
}

} // verus!
