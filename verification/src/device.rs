//! The block device that the reader reads from and `mkfs` writes to.
use crate::error::DeviceError;
use vstd::prelude::*;

verus! {

/// A request made of a block device, with the device's answer.
pub enum DeviceRequest {
    /// A read of `len` bytes at `offset`, answered with the bytes read or an
    /// error.
    Read { offset: u64, len: nat, answer: Result<Seq<u8>, DeviceError> },
    /// A write of `data` at `offset`, answered with success (`None`) or an
    /// error.
    Write { offset: u64, data: Seq<u8>, refusal: Option<DeviceError> },
}

/// A byte-addressed store that filesystem structures are read from and
/// written to. Users implement it for files, disks or memory.
///
/// The specifications follow a device through [`BlockDevice::requests`], the
/// record of the requests made of it and of its answers: each read and each
/// write adds one entry, whatever the answer. The record exists for the
/// specifications only; compiled code has no such method, and an
/// implementation need not define it.
pub trait BlockDevice {
    /// The requests made of this device so far, oldest first, each with the
    /// device's answer. The default body only spares implementations from
    /// defining it: code generic over the device, as all of this library is,
    /// does not see it, and knows of the record only what `read_at` and
    /// `write_at` state.
    open spec fn requests(&self) -> Seq<DeviceRequest> {
        arbitrary()
    }

    /// Reads `buf.len()` bytes at byte offset `offset` of the device into `buf`.
    ///
    /// # Errors
    ///
    /// * `DeviceError::Io` - If an I/O error occurs.
    /// * `DeviceError::ShortRead` - If fewer bytes than asked could be read.
    fn read_at(&mut self, offset: u64, buf: &mut [u8]) -> (r: Result<(), DeviceError>)
        ensures
            final(buf)@.len() == old(buf)@.len(),
            final(self).requests() == old(self).requests().push(
                DeviceRequest::Read {
                    offset,
                    len: old(buf)@.len(),
                    answer: match r {
                        Ok(()) => Ok(final(buf)@),
                        Err(e) => Err(e),
                    },
                },
            ),
    ;

    /// Writes `buf` at byte offset `offset` of the device.
    ///
    /// # Errors
    ///
    /// * `DeviceError::Io` - If an I/O error occurs.
    /// * `DeviceError::ShortWrite` - If fewer bytes than asked could be written.
    fn write_at(&mut self, offset: u64, buf: &[u8]) -> (r: Result<(), DeviceError>)
        ensures
            final(self).requests() == old(self).requests().push(
                DeviceRequest::Write {
                    offset,
                    data: buf@,
                    refusal: match r {
                        Ok(_) => None,
                        Err(e) => Some(e),
                    },
                },
            ),
    ;
}

/// The answer recorded for the request `f[i]`, when it is a read.
pub open spec fn read_answer(f: Seq<DeviceRequest>, i: int) -> Result<Seq<u8>, DeviceError> {
    match f[i] {
        DeviceRequest::Read { answer, .. } => answer,
        DeviceRequest::Write { .. } => Err(DeviceError::Io),
    }
}

/// The record `f` is the record `o` followed by reads at the places `rs`
/// ((offset, length) pairs), in that order, whatever their answers.
pub open spec fn followed_by_reads(o: Seq<DeviceRequest>, f: Seq<DeviceRequest>, rs: Seq<(u64, nat)>) -> bool {
    &&& f.len() == o.len() + rs.len()
    &&& f.subrange(0, o.len() as int) == o
    &&& forall|i: int|
        0 <= i < rs.len() ==> (#[trigger] f[o.len() + i] matches DeviceRequest::Read { offset, len, .. }
            && offset == rs[i].0 && len == rs[i].1)
}

/// A record followed by no request is followed by no reads.
pub proof fn lemma_no_reads(o: Seq<DeviceRequest>)
    ensures
        followed_by_reads(o, o, Seq::empty()),
{
    assert(o.subrange(0, o.len() as int) =~= o);
}

/// One more read extends the reads that follow `o`; the answers recorded
/// before it stay as they were.
pub proof fn lemma_one_more_read(
    o: Seq<DeviceRequest>,
    f: Seq<DeviceRequest>,
    rs: Seq<(u64, nat)>,
    offset: u64,
    len: nat,
    answer: Result<Seq<u8>, DeviceError>,
)
    requires
        followed_by_reads(o, f, rs),
    ensures
        followed_by_reads(
            o,
            f.push(DeviceRequest::Read { offset, len, answer }),
            rs.push((offset, len)),
        ),
        read_answer(f.push(DeviceRequest::Read { offset, len, answer }), f.len() as int) == answer,
        forall|i: int|
            0 <= i < f.len() ==> #[trigger] read_answer(
                f.push(DeviceRequest::Read { offset, len, answer }),
                i,
            ) == read_answer(f, i),
{
    let g = f.push(DeviceRequest::Read { offset, len, answer });
    assert(g.subrange(0, o.len() as int) =~= f.subrange(0, o.len() as int));
    assert forall|i: int| 0 <= i < rs.len() + 1 implies (#[trigger] g[o.len() + i] matches DeviceRequest::Read {
        offset: off,
        len: l,
        ..
    } && off == rs.push((offset, len))[i].0 && l == rs.push((offset, len))[i].1) by {
        if i < rs.len() {
            assert(g[o.len() + i] == f[o.len() + i]);
        }
    }
}

/// A record followed by a single read is the record with that read pushed.
pub proof fn lemma_single_read(o: Seq<DeviceRequest>, f: Seq<DeviceRequest>, offset: u64, len: nat)
    requires
        followed_by_reads(o, f, seq![(offset, len)]),
    ensures
        f == o.push(DeviceRequest::Read { offset, len, answer: read_answer(f, o.len() as int) }),
{
    let i = o.len() as int;
    assert(seq![(offset, len)][0] == (offset, len));
    assert(f[o.len() + 0int] == f[i]);
    match f[i] {
        DeviceRequest::Read { offset: a, len: b, answer } => {
            assert(f[i] == DeviceRequest::Read { offset, len, answer: read_answer(f, i) });
        },
        DeviceRequest::Write { .. } => {},
    }
    assert(f =~= o.push(DeviceRequest::Read { offset, len, answer: read_answer(f, i) })) by {
        assert forall|j: int| 0 <= j < o.len() implies f[j] == o[j] by {
            assert(f.subrange(0, o.len() as int)[j] == f[j]);
        }
    }
}

/// Requests made after those of `o` leave the answers recorded in `o` as
/// they were.
pub proof fn lemma_prefix_answers(o: Seq<DeviceRequest>, f: Seq<DeviceRequest>)
    requires
        o.len() <= f.len(),
        f.subrange(0, o.len() as int) == o,
    ensures
        forall|i: int| 0 <= i < o.len() ==> #[trigger] read_answer(f, i) == read_answer(o, i),
{
    assert forall|i: int| 0 <= i < o.len() implies #[trigger] read_answer(f, i) == read_answer(o, i) by {
        assert(f.subrange(0, o.len() as int)[i] == f[i]);
    }
}

/// A transfer of `len` bytes that stops short at `done` bytes, when nothing
/// more could be moved: a short write when `writing`, else a short read.
pub open spec fn short_transfer(len: usize, done: usize, writing: bool) -> DeviceError {
    if writing {
        DeviceError::ShortWrite { expected: len, actual: done }
    } else {
        DeviceError::ShortRead { expected: len, actual: done }
    }
}

/// One step of a transfer of `len` bytes done in pieces, `done` of them moved
/// so far, after a piece of `n` bytes: the transfer goes on from `done + n`,
/// or, when the piece was empty, stops with a short read or write.
pub fn transfer_step(len: usize, done: usize, n: usize, writing: bool) -> (r: Result<usize, DeviceError>)
    requires
        done < len,
        n <= len - done,
    ensures
        n == 0 ==> r == Err::<usize, DeviceError>(short_transfer(len, done, writing)),
        n > 0 ==> r == Ok::<usize, DeviceError>((done + n) as usize),
{
    if n == 0 {
        if writing {
            Err(DeviceError::ShortWrite { expected: len, actual: done })
        } else {
            Err(DeviceError::ShortRead { expected: len, actual: done })
        }
    } else {
        Ok(done + n)
    }
}

} // verus!
