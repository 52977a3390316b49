//! The fixed-layout container's runloop: drives an I/O processor against
//! a byte source and sink — header first, then chunk by chunk until the
//! source reports its last chunk.

use vstd::prelude::*;
use crate::error::CpError;
use crate::io::Io;
use crate::io_processor::{IoProcessor, spec_chunk_step_output};
use crate::primitives::zero_vec;

verus! {

/// What processing a whole chunk stream emits: one step per read of up
/// to `cin` bytes, the schedule offset advancing by 64 between steps,
/// until the short final read.
pub open spec fn spec_legacy_chunks(
    seals: bool,
    base: Seq<u8>,
    counter: u64,
    input: Seq<u8>,
    cin: nat,
) -> Option<Seq<u8>>
    decreases input.len(),
{
    if cin == 0 {
        Option::None
    } else {
        let n: int = if input.len() <= cin {
            input.len() as int
        } else {
            cin as int
        };
        let last = (n as nat) < cin;
        match spec_chunk_step_output(seals, base, counter, input.take(n), last) {
            Option::Some(out) => if last {
                Option::Some(out)
            } else if counter as int + 64 > u64::MAX as int {
                Option::None
            } else {
                match spec_legacy_chunks(seals, base, (counter + 64) as u64, input.skip(n), cin) {
                    Option::Some(rest) => Option::Some(out + rest),
                    Option::None => Option::None,
                }
            },
            Option::None => Option::None,
        }
    }
}

/// One run of a fixed-layout stream: a processor and an I/O endpoint.
pub struct IoRunloop<P: IoProcessor, T: Io> {
    /// The sealing or opening processor.
    pub io_processor: P,
    /// The byte source and sink.
    pub io_handle: T,
}

impl<P: IoProcessor, T: Io> IoRunloop<P, T> {
    /// Wraps the processor and the endpoint.
    pub fn new(io_processor: P, io_handle: T) -> (r: IoRunloop<P, T>)
        ensures
            r.io_processor == io_processor,
            r.io_handle == io_handle,
    {
        IoRunloop { io_processor, io_handle }
    }

    /// Processes the header, then every chunk until the last.  On success
    /// the source has been drained, and the sink received exactly the
    /// processed header followed by the processed chunk stream.
    #[verifier::rlimit(100)]
    pub fn start(&mut self) -> (r: Result<(), CpError>)
        ensures
            r is Ok ==> final(self).io_handle.input().len() == 0 && ({
                let p0 = old(self).io_processor;
                let input = old(self).io_handle.input();
                let hin = p0.header_in_len() as int;
                let header_buffer = input.take(hin) + Seq::new(
                    (p0.header_buf_len() - p0.header_in_len()) as nat,
                    |i: int| 0u8,
                );
                let opened = spec_legacy_chunks(
                    p0.seals(),
                    p0.header_base(header_buffer),
                    p0.header_counter(header_buffer),
                    input.skip(hin),
                    p0.chunk_in_len(),
                );
                &&& hin <= input.len()
                &&& opened is Some
                &&& final(self).io_handle.output() == old(self).io_handle.output()
                    + p0.header_output(header_buffer) + opened->Some_0
            }),
    {
        let ghost p0 = self.io_processor;
        let ghost input0 = self.io_handle.input();
        let ghost output0 = self.io_handle.output();
        let sizes = self.io_processor.header_buffer_and_in_sizes();
        let (header_buffer_size, header_in_size) = sizes;
        let mut header_buffer = zero_vec(header_in_size);
        match self.io_handle.read_exact(&mut header_buffer) {
            Ok(()) => {},
            Err(e) => {
                return Err(e);
            },
        }
        while header_buffer.len() < header_buffer_size
            invariant
                header_in_size <= header_buffer@.len() <= header_buffer_size,
                header_buffer@ == input0.take(header_in_size as int) + Seq::new(
                    (header_buffer@.len() - header_in_size) as nat,
                    |i: int| 0u8,
                ),
            decreases header_buffer_size - header_buffer@.len(),
        {
            header_buffer.push(0u8);
            proof {
                assert(header_buffer@ =~= input0.take(header_in_size as int) + Seq::new(
                    (header_buffer@.len() - header_in_size) as nat,
                    |i: int| 0u8,
                ));
            }
        }
        let chunk_sizes = self.io_processor.chunk_buffer_and_in_sizes();
        let (chunk_buffer_size, chunk_in_size) = chunk_sizes;
        let ghost header_view = header_buffer@;
        let header_out = match self.io_processor.process_header(&mut header_buffer) {
            Ok(n) => n,
            Err(e) => {
                return Err(e);
            },
        };
        match self.io_handle.write_chunk(&header_buffer, header_out) {
            Ok(()) => {},
            Err(e) => {
                return Err(e);
            },
        }
        let mut chunk_buffer = zero_vec(chunk_buffer_size);
        let ghost seals0 = self.io_processor.seals();
        let ghost base0 = self.io_processor.base();
        let ghost chunks_input = self.io_handle.input();
        let ghost chunks_output = self.io_handle.output();
        let ghost mut done: Seq<u8> = Seq::empty();
        loop
            invariant
                p0 == old(self).io_processor,
                input0 == old(self).io_handle.input(),
                output0 == old(self).io_handle.output(),
                chunk_buffer@.len() == chunk_buffer_size,
                1 <= chunk_in_size <= chunk_buffer_size,
                chunk_in_size == p0.chunk_in_len(),
                self.io_processor.seals() == seals0,
                self.io_processor.base() == base0,
                seals0 == p0.seals(),
                base0 == p0.header_base(header_view),
                chunks_input == input0.skip(header_in_size as int),
                chunks_output == output0 + p0.header_output(header_view),
                header_in_size as int <= input0.len(),
                header_view == input0.take(header_in_size as int) + Seq::new(
                    (p0.header_buf_len() - p0.header_in_len()) as nat,
                    |i: int| 0u8,
                ),
                header_in_size == p0.header_in_len(),
                self.io_handle.output() == chunks_output + done,
                (match spec_legacy_chunks(
                    seals0,
                    base0,
                    self.io_processor.counter(),
                    self.io_handle.input(),
                    chunk_in_size as nat,
                ) {
                    Option::Some(rest) => spec_legacy_chunks(
                        seals0,
                        base0,
                        p0.header_counter(header_view),
                        chunks_input,
                        chunk_in_size as nat,
                    ) == Option::Some(done + rest),
                    Option::None => spec_legacy_chunks(
                        seals0,
                        base0,
                        p0.header_counter(header_view),
                        chunks_input,
                        chunk_in_size as nat,
                    ) is None,
                }),
            decreases self.io_handle.input().len(),
        {
            let ghost pre_input = self.io_handle.input();
            let ghost pre_counter = self.io_processor.counter();
            let read = match self.io_handle.read_chunk(&mut chunk_buffer, chunk_in_size) {
                Ok(x) => x,
                Err(e) => {
                    return Err(e);
                },
            };
            let (chunk_length, is_last) = read;
            let chunk_out = match self.io_processor.process_chunk(
                &mut chunk_buffer,
                chunk_length,
                is_last,
            ) {
                Ok(n) => n,
                Err(e) => {
                    return Err(e);
                },
            };
            let ghost step = spec_chunk_step_output(
                seals0,
                base0,
                pre_counter,
                pre_input.take(chunk_length as int),
                is_last,
            );
            match self.io_handle.write_chunk(&chunk_buffer, chunk_out) {
                Ok(()) => {},
                Err(e) => {
                    return Err(e);
                },
            }
            let ghost done_old = done;
            proof {
                assert(step is Some && chunk_buffer@.subrange(0, chunk_out as int)
                    == step->Some_0);
                done = done_old + step->Some_0;
                assert(self.io_handle.output() == chunks_output + done) by {
                    assert((chunks_output + done_old) + step->Some_0 =~= chunks_output + (done_old
                        + step->Some_0));
                }
                if is_last {
                    assert(chunk_length == pre_input.len() && (chunk_length as int)
                        < chunk_in_size as int);
                    assert(spec_legacy_chunks(
                        seals0,
                        base0,
                        pre_counter,
                        pre_input,
                        chunk_in_size as nat,
                    ) == Option::Some(step->Some_0));
                } else {
                    assert(chunk_length == chunk_in_size && pre_input.len()
                        >= chunk_in_size as int);
                    assert(self.io_handle.input() == pre_input.skip(chunk_length as int));
                    match spec_legacy_chunks(
                        seals0,
                        base0,
                        self.io_processor.counter(),
                        self.io_handle.input(),
                        chunk_in_size as nat,
                    ) {
                        Option::Some(rest) => {
                            assert(spec_legacy_chunks(
                                seals0,
                                base0,
                                pre_counter,
                                pre_input,
                                chunk_in_size as nat,
                            ) == Option::Some(step->Some_0 + rest));
                            assert(done_old + (step->Some_0 + rest) =~= done + rest);
                        },
                        Option::None => {
                            assert(spec_legacy_chunks(
                                seals0,
                                base0,
                                pre_counter,
                                pre_input,
                                chunk_in_size as nat,
                            ) is None);
                        },
                    }
                }
            }
            if is_last {
                proof {
                    assert(self.io_handle.input().len() == 0);
                    assert(spec_legacy_chunks(
                        seals0,
                        base0,
                        p0.header_counter(header_view),
                        chunks_input,
                        chunk_in_size as nat,
                    ) == Option::Some(done));
                    let hb = input0.take(p0.header_in_len() as int) + Seq::new(
                        (p0.header_buf_len() - p0.header_in_len()) as nat,
                        |i: int| 0u8,
                    );
                    assert(hb =~= header_view);
                }
                return Ok(());
            }
        }
    }
}

} // verus!
