//! The byte source and sink a stream runs against, modeled as the bytes
//! still to be read and the bytes written so far, and a memory-backed
//! implementation.

use vstd::prelude::*;
use crate::error::{CpError, ErrorText, IoErrorKind};

verus! {

/// A blocking byte source and sink.
///
/// `input` models the bytes the source will still deliver, `output` the
/// bytes the sink has accepted.  A chunked read hands out as much as is
/// available up to a cap, and reports the last chunk exactly when the
/// read came up short of the cap: an input that ends on a chunk boundary
/// is followed by one empty final chunk.
pub trait Io {
    /// The bytes the source will still deliver.  An endpoint over real
    /// streams may leave the default, vacuous model.
    open spec fn input(&self) -> Seq<u8> {
        Seq::empty()
    }

    /// The bytes the sink has accepted so far.
    open spec fn output(&self) -> Seq<u8> {
        Seq::empty()
    }

    /// Whether this endpoint itself never fails: with it, reads and
    /// writes succeed whenever enough input remains.  An endpoint over
    /// real streams leaves the default and promises nothing.
    open spec fn reliable(&self) -> bool {
        false
    }

    /// Reads up to `max` bytes into the front of `buffer`; returns how
    /// many arrived and whether this is the last chunk.
    fn read_chunk(&mut self, buffer: &mut Vec<u8>, max: usize) -> (r: Result<(usize, bool), CpError>)
        requires
            max <= old(buffer)@.len(),
        ensures
            final(buffer)@.len() == old(buffer)@.len(),
            final(self).output() == old(self).output(),
            final(self).reliable() == old(self).reliable(),
            old(self).reliable() ==> r is Ok,
            r is Ok ==> ({
                let n = r->Ok_0.0;
                let last = r->Ok_0.1;
                &&& n <= max
                &&& n as int == if old(self).input().len() <= max as int {
                    old(self).input().len() as int
                } else {
                    max as int
                }
                &&& last == (n < max)
                &&& final(buffer)@.subrange(0, n as int) == old(self).input().take(n as int)
                &&& final(self).input() == old(self).input().skip(n as int)
            }),
    ;

    /// Writes `data[..len]` to the sink.
    fn write_chunk(&mut self, data: &Vec<u8>, len: usize) -> (r: Result<(), CpError>)
        requires
            len <= data@.len(),
        ensures
            final(self).input() == old(self).input(),
            final(self).reliable() == old(self).reliable(),
            old(self).reliable() ==> r is Ok,
            r is Ok ==> final(self).output() == old(self).output() + data@.subrange(0, len as int),
    ;

    /// Fills `buffer` completely, or fails; a source that ends early
    /// reports an unexpected end of stream.
    fn read_exact(&mut self, buffer: &mut Vec<u8>) -> (r: Result<(), CpError>)
        ensures
            final(buffer)@.len() == old(buffer)@.len(),
            final(self).output() == old(self).output(),
            final(self).reliable() == old(self).reliable(),
            old(self).reliable() && old(self).input().len() >= old(buffer)@.len() ==> r is Ok,
            old(self).input().len() < old(buffer)@.len() ==> r is Err && r->Err_0
                == CpError::IOError(IoErrorKind::UnexpectedEof, ErrorText::FailedToReadStdin),
            r is Ok ==> old(self).input().len() >= old(buffer)@.len() && final(buffer)@ == old(
                self,
            ).input().take(old(buffer)@.len() as int) && final(self).input() == old(
                self,
            ).input().skip(old(buffer)@.len() as int),
    ;

    /// Writes all of `data` to the sink and flushes.
    fn write_exact(&mut self, data: &Vec<u8>) -> (r: Result<(), CpError>)
        ensures
            final(self).input() == old(self).input(),
            final(self).reliable() == old(self).reliable(),
            old(self).reliable() ==> r is Ok,
            r is Ok ==> final(self).output() == old(self).output() + data@,
    ;
}

/// A deterministic in-memory source and sink: reads come from a fixed
/// buffer, writes append to another.
pub struct MemoryIo {
    /// The fixed input bytes.
    pub stdin: Vec<u8>,
    /// How many input bytes have been read.
    pub consumed: usize,
    /// The bytes written so far.
    pub stdout: Vec<u8>,
}

impl MemoryIo {
    /// Whether the read position lies within the input.
    pub open spec fn wf(&self) -> bool {
        self.consumed <= self.stdin@.len()
    }

    /// A memory-backed endpoint over the given input bytes.  The output
    /// buffer grows as needed; `expected_output_size` only pre-allocates.
    pub fn new(stdin: Vec<u8>, expected_output_size: usize) -> (r: MemoryIo)
        ensures
            r.wf(),
            r.input() == stdin@,
            r.output() == Seq::<u8>::empty(),
    {
        let stdout: Vec<u8> = Vec::with_capacity(expected_output_size);
        MemoryIo { stdin, consumed: 0, stdout }
    }

    /// A copy of everything written so far.
    pub fn stdout(&self) -> (r: Vec<u8>)
        ensures
            r@ == self.output(),
    {
        let mut copy: Vec<u8> = Vec::new();
        let mut i: usize = 0;
        while i < self.stdout.len()
            invariant
                i <= self.stdout@.len(),
                copy@ == self.stdout@.subrange(0, i as int),
            decreases self.stdout@.len() - i,
        {
            copy.push(self.stdout[i]);
            i = i + 1;
            assert(copy@ =~= self.stdout@.subrange(0, i as int));
        }
        assert(copy@ =~= self.stdout@);
        copy
    }
}

impl Io for MemoryIo {
    open spec fn input(&self) -> Seq<u8> {
        if self.consumed <= self.stdin@.len() {
            self.stdin@.skip(self.consumed as int)
        } else {
            Seq::empty()
        }
    }

    open spec fn output(&self) -> Seq<u8> {
        self.stdout@
    }

    open spec fn reliable(&self) -> bool {
        true
    }

    fn read_chunk(&mut self, buffer: &mut Vec<u8>, max: usize) -> (r: Result<(usize, bool), CpError>)
    {
        proof {
            vstd::std_specs::vec::axiom_spec_len(&self.stdin);
        }
        let available = self.stdin.len() - if self.consumed <= self.stdin.len() {
            self.consumed
        } else {
            self.stdin.len()
        };
        let n = if available < max {
            available
        } else {
            max
        };
        let mut i: usize = 0;
        while i < n
            invariant
                i <= n,
                n == 0 || self.consumed + n <= self.stdin@.len(),
                self.stdin@.len() <= usize::MAX,
                n <= max <= buffer@.len(),
                buffer@.len() == old(buffer)@.len(),
                self == old(self),
                forall|j: int| 0 <= j < i ==> buffer@[j] == self.stdin@[self.consumed + j],
            decreases n - i,
        {
            buffer[i] = self.stdin[self.consumed + i];
            i = i + 1;
        }
        let ghost pre = *self;
        self.consumed = self.consumed + n;
        proof {
            assert(buffer@.subrange(0, n as int) =~= pre.input().take(n as int));
            assert(final(self).input() =~= pre.input().skip(n as int));
        }
        Ok((n, n < max))
    }

    fn write_chunk(&mut self, data: &Vec<u8>, len: usize) -> (r: Result<(), CpError>) {
        let mut i: usize = 0;
        while i < len
            invariant
                i <= len <= data@.len(),
                self.stdin == old(self).stdin,
                self.consumed == old(self).consumed,
                self.stdout@ == old(self).stdout@ + data@.subrange(0, i as int),
            decreases len - i,
        {
            self.stdout.push(data[i]);
            i = i + 1;
            assert(self.stdout@ =~= old(self).stdout@ + data@.subrange(0, i as int));
        }
        Ok(())
    }

    fn read_exact(&mut self, buffer: &mut Vec<u8>) -> (r: Result<(), CpError>) {
        proof {
            vstd::std_specs::vec::axiom_spec_len(&self.stdin);
        }
        let wanted = buffer.len();
        let available = self.stdin.len() - if self.consumed <= self.stdin.len() {
            self.consumed
        } else {
            self.stdin.len()
        };
        if available < wanted {
            return Err(CpError::IOError(IoErrorKind::UnexpectedEof, ErrorText::FailedToReadStdin));
        }
        let mut i: usize = 0;
        while i < wanted
            invariant
                i <= wanted,
                wanted == 0 || self.consumed + wanted <= self.stdin@.len(),
                self.stdin@.len() <= usize::MAX,
                wanted == buffer@.len() == old(buffer)@.len(),
                self == old(self),
                forall|j: int| 0 <= j < i ==> buffer@[j] == self.stdin@[self.consumed + j],
            decreases wanted - i,
        {
            buffer[i] = self.stdin[self.consumed + i];
            i = i + 1;
        }
        let ghost pre = *self;
        self.consumed = self.consumed + wanted;
        proof {
            assert(buffer@ =~= pre.input().take(wanted as int));
            assert(final(self).input() =~= pre.input().skip(wanted as int));
        }
        Ok(())
    }

    fn write_exact(&mut self, data: &Vec<u8>) -> (r: Result<(), CpError>) {
        let mut i: usize = 0;
        while i < data.len()
            invariant
                i <= data@.len(),
                self.stdin == old(self).stdin,
                self.consumed == old(self).consumed,
                self.stdout@ == old(self).stdout@ + data@.subrange(0, i as int),
            decreases data@.len() - i,
        {
            self.stdout.push(data[i]);
            i = i + 1;
            assert(self.stdout@ =~= old(self).stdout@ + data@.subrange(0, i as int));
        }
        proof {
            assert(self.stdout@ =~= old(self).stdout@ + data@);
        }
        Ok(())
    }
}

} // verus!
