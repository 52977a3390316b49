//! The stream engine: the per-chunk key schedule with end-of-stream
//! domain separation, and the push-model runloops that seal a plaintext
//! stream into `header ‖ chunk*` and open it again.

use vstd::prelude::*;
use vstd::string::{is_ascii, is_ascii_spec_bytes, StringSliceAdditionalSpecFns};
use crate::constants::{CHUNK_DATA_SIZE, MAC_SIZE};
use crate::error::CpError;
use crate::error::{ErrorText, IoErrorKind};
use crate::primitives::{Key, argon2i_inputs_ok, argon2i_v13_of, erase_key, fit, zero_vec};
use crate::der::append_bytes;
use crate::kdf::{Kdf, spec_hmac_derived};
use crate::auth_enc::{AuthEnc, spec_sealed_chunk, spec_opened_chunk, lemma_chunk_roundtrip};
use crate::pbkdf::Pbkdf;
use crate::crypto::{StreamInstance, spec_header};
use crate::io::Io;

verus! {

/// A 64-bit counter as eight big-endian bytes.
pub open spec fn spec_be64(c: u64) -> Seq<u8> {
    seq![
        (c >> 56) as u8,
        (c >> 48) as u8,
        (c >> 40) as u8,
        (c >> 32) as u8,
        (c >> 24) as u8,
        (c >> 16) as u8,
        (c >> 8) as u8,
        c as u8,
    ]
}

/// The info string that marks the terminal chunk's key derivation.
pub open spec fn last_chunk_info() -> Seq<u8> {
    "#Last Chunk"@.map_values(|c: char| c as u8)
}

/// The terminal info string spans eleven octets.
pub proof fn lemma_last_chunk_info_len()
    ensures
        last_chunk_info().len() == 11,
{
    reveal_strlit("#Last Chunk");
}

/// The info block of one chunk-key derivation: the chunk counter in
/// big-endian, followed by the terminal marker exactly on the last chunk.
pub open spec fn spec_info(counter: nat, last: bool) -> Seq<u8> {
    spec_be64(counter as u64) + if last {
        last_chunk_info()
    } else {
        Seq::<u8>::empty()
    }
}

/// The key of one chunk: the stream KDF applied to the master key and the
/// chunk's info block.
pub open spec fn spec_chunk_key(base: Seq<u8>, counter: nat, last: bool) -> Seq<u8> {
    spec_hmac_derived(base, spec_info(counter, last))
}

/// The master key that the PBKDF derives for these header parameters.
pub open spec fn spec_master_key(password: Seq<u8>, n: Seq<u8>, t: u32, m: u32, p: u32) -> Seq<u8> {
    fit(argon2i_v13_of(password, n, t, (m * 1024) as u32, p, 32), 32)
}

/// Whether the PBKDF accepts these header parameters for this password:
/// the memory cost converts to kibibytes without overflow, and every
/// input lies in the primitive's accepted ranges.
pub open spec fn spec_params_accepted(
    password: Seq<u8>,
    n: Seq<u8>,
    t: u32,
    m: u32,
    p: u32,
) -> bool {
    &&& m as int * 1024 <= u32::MAX as int
    &&& argon2i_inputs_ok(password, n, t, (m * 1024) as u32, p, 32)
}

/// A sealed stream for these parameters stands on the input, and the
/// password derivation accepts them.
pub open spec fn spec_run_witness(
    password: Seq<u8>,
    input: Seq<u8>,
    n: Seq<u8>,
    t: u32,
    m: u32,
    p: u32,
) -> bool {
    &&& n.len() <= 0xFF00
    &&& spec_header(n, t, m, p).is_prefix_of(input)
    &&& spec_params_accepted(password, n, t, m, p)
}

/// What opening the bytes after the header yields under the master key
/// these parameters derive.
pub open spec fn spec_opened_stream(
    password: Seq<u8>,
    input: Seq<u8>,
    n: Seq<u8>,
    t: u32,
    m: u32,
    p: u32,
) -> Option<Seq<u8>> {
    spec_open_chunks(
        spec_master_key(password, n, t, m, p),
        input.skip(spec_header(n, t, m, p).len() as int),
        0,
    )
}

/// What sealing a whole plaintext stream emits after the header: full
/// chunks under ascending counters, and one terminal chunk (shorter than
/// a full chunk, possibly empty) under the terminal domain.
pub open spec fn spec_seal_chunks(base: Seq<u8>, data: Seq<u8>, counter: nat) -> Seq<u8>
    decreases data.len(),
{
    if data.len() >= CHUNK_DATA_SIZE {
        spec_sealed_chunk(spec_chunk_key(base, counter, false), data.take(CHUNK_DATA_SIZE as int))
            + spec_seal_chunks(base, data.skip(CHUNK_DATA_SIZE as int), counter + 1)
    } else {
        spec_sealed_chunk(spec_chunk_key(base, counter, true), data)
    }
}

/// What opening a sealed chunk stream yields: every full-sized read is a
/// non-terminal chunk, the final short read the terminal one; any tag
/// failure voids the whole stream.
pub open spec fn spec_open_chunks(base: Seq<u8>, stream: Seq<u8>, counter: nat) -> Option<Seq<u8>>
    decreases stream.len(),
{
    if stream.len() >= CHUNK_DATA_SIZE + MAC_SIZE {
        match spec_opened_chunk(
            spec_chunk_key(base, counter, false),
            stream.take((CHUNK_DATA_SIZE + MAC_SIZE) as int),
        ) {
            Option::Some(pt) => match spec_open_chunks(
                base,
                stream.skip((CHUNK_DATA_SIZE + MAC_SIZE) as int),
                counter + 1,
            ) {
                Option::Some(rest) => Option::Some(pt + rest),
                Option::None => Option::None,
            },
            Option::None => Option::None,
        }
    } else {
        spec_opened_chunk(spec_chunk_key(base, counter, true), stream)
    }
}

/// Round trip: opening what was sealed under the same master key, from
/// the same counter, yields the original plaintext, whatever its length.
pub proof fn lemma_stream_roundtrip(base: Seq<u8>, data: Seq<u8>, counter: nat)
    ensures
        spec_open_chunks(base, spec_seal_chunks(base, data, counter), counter) == Option::Some(
            data,
        ),
    decreases data.len(),
{
    if data.len() >= CHUNK_DATA_SIZE {
        let k = spec_chunk_key(base, counter, false);
        let head = data.take(CHUNK_DATA_SIZE as int);
        let chunk = spec_sealed_chunk(k, head);
        let rest = spec_seal_chunks(base, data.skip(CHUNK_DATA_SIZE as int), counter + 1);
        let stream = spec_seal_chunks(base, data, counter);
        assert(chunk.len() == CHUNK_DATA_SIZE + MAC_SIZE);
        assert(stream.take((CHUNK_DATA_SIZE + MAC_SIZE) as int) =~= chunk);
        assert(stream.skip((CHUNK_DATA_SIZE + MAC_SIZE) as int) =~= rest);
        lemma_chunk_roundtrip(k, head);
        lemma_stream_roundtrip(base, data.skip(CHUNK_DATA_SIZE as int), counter + 1);
        assert(head + data.skip(CHUNK_DATA_SIZE as int) =~= data);
    } else {
        let k = spec_chunk_key(base, counter, true);
        lemma_chunk_roundtrip(k, data);
        assert(spec_seal_chunks(base, data, counter).len() == data.len() + 16);
    }
}

/// The empty stream seals to exactly one terminal chunk — the terminal
/// domain marker is set even with no data — and opens back to nothing.
pub proof fn lemma_seal_empty(base: Seq<u8>)
    ensures
        spec_seal_chunks(base, Seq::<u8>::empty(), 0) == spec_sealed_chunk(
            spec_chunk_key(base, 0, true),
            Seq::<u8>::empty(),
        ),
        spec_open_chunks(base, spec_seal_chunks(base, Seq::<u8>::empty(), 0), 0) == Option::Some(
            Seq::<u8>::empty(),
        ),
{
    lemma_stream_roundtrip(base, Seq::<u8>::empty(), 0);
}

/// Domain separation of the terminal chunk: its info block differs from
/// every non-terminal info block, whatever the counters.
pub proof fn lemma_domain_separation(counter_last: nat, counter_other: nat)
    ensures
        spec_info(counter_last, true) != spec_info(counter_other, false),
{
    lemma_last_chunk_info_len();
    assert(spec_info(counter_last, true).len() == 19);
    assert(spec_info(counter_other, false).len() == 8);
}

/// Domain separation between chunks: distinct counters yield distinct
/// info blocks, so no two chunks of one stream share a key derivation.
pub proof fn lemma_counter_separation(c1: u64, c2: u64, last: bool)
    requires
        c1 != c2,
    ensures
        spec_info(c1 as nat, last) != spec_info(c2 as nat, last),
{
    if spec_info(c1 as nat, last) == spec_info(c2 as nat, last) {
        assert forall|i: int| 0 <= i < 8 implies spec_be64(c1)[i] == spec_be64(c2)[i] by {
            assert(spec_info(c1 as nat, last)[i] == spec_be64(c1)[i]);
            assert(spec_info(c2 as nat, last)[i] == spec_be64(c2)[i]);
        }
        assert(((c1 >> 56) as u8 == (c2 >> 56) as u8 && (c1 >> 48) as u8 == (c2 >> 48) as u8 && (c1
            >> 40) as u8 == (c2 >> 40) as u8 && (c1 >> 32) as u8 == (c2 >> 32) as u8 && (c1
            >> 24) as u8 == (c2 >> 24) as u8 && (c1 >> 16) as u8 == (c2 >> 16) as u8 && (c1
            >> 8) as u8 == (c2 >> 8) as u8 && c1 as u8 == c2 as u8) ==> c1 == c2) by (bit_vector);
    }
}

/// Round trip of a whole stream, header included: a sealed stream starts
/// with its header, and opening the bytes after the header under the
/// master key derived from the same password and parameters restores the
/// plaintext exactly.
pub proof fn lemma_seal_open_stream(
    password: Seq<u8>,
    n: Seq<u8>,
    t: u32,
    m: u32,
    p: u32,
    data: Seq<u8>,
)
    ensures
        ({
            let master = spec_master_key(password, n, t, m, p);
            let stream = spec_header(n, t, m, p) + spec_seal_chunks(master, data, 0);
            &&& spec_header(n, t, m, p).is_prefix_of(stream)
            &&& spec_open_chunks(master, stream.skip(spec_header(n, t, m, p).len() as int), 0)
                == Option::Some(data)
        }),
{
    let master = spec_master_key(password, n, t, m, p);
    let header = spec_header(n, t, m, p);
    let stream = header + spec_seal_chunks(master, data, 0);
    assert(stream.subrange(0, header.len() as int) =~= header);
    assert(stream.skip(header.len() as int) =~= spec_seal_chunks(master, data, 0));
    lemma_stream_roundtrip(master, data, 0);
}

/// The info block of one chunk: the counter in big-endian followed by the
/// terminal marker bytes.
pub fn kdf_info(counter: u64, info: &Vec<u8>) -> (r: Vec<u8>)
    ensures
        r@ == spec_be64(counter) + info@,
{
    let mut out: Vec<u8> = Vec::new();
    out.push((counter >> 56) as u8);
    out.push((counter >> 48) as u8);
    out.push((counter >> 40) as u8);
    out.push((counter >> 32) as u8);
    out.push((counter >> 24) as u8);
    out.push((counter >> 16) as u8);
    out.push((counter >> 8) as u8);
    out.push(counter as u8);
    assert(out@ =~= spec_be64(counter));
    append_bytes(&mut out, info);
    out
}

/// The terminal marker where this is the last chunk, and nothing
/// otherwise.
fn chunk_info(last: bool) -> (r: Vec<u8>)
    ensures
        r@ == if last {
            last_chunk_info()
        } else {
            Seq::<u8>::empty()
        },
{
    if last {
        let s = "#Last Chunk";
        proof {
            reveal_strlit("#Last Chunk");
            assert(is_ascii(s));
            is_ascii_spec_bytes(s);
            assert(s.spec_bytes() =~= last_chunk_info());
        }
        vstd::slice::slice_to_vec(s.as_bytes())
    } else {
        Vec::new()
    }
}

/// Seals a byte stream: writes the header, then one sealed chunk per full
/// plaintext chunk and a terminal chunk for the rest.
pub struct Encryptor {
    instance: StreamInstance,
    key: Option<Key>,
}

impl Encryptor {
    /// The stream instance this encryptor writes.
    pub closed spec fn instance(&self) -> StreamInstance {
        self.instance
    }

    /// The master key, until the single run has consumed it.
    pub closed spec fn master(&self) -> Option<Seq<u8>> {
        match self.key {
            Option::Some(k) => Option::Some(k@),
            Option::None => Option::None,
        }
    }

    /// Derives the master key from the password — zeroizing the password
    /// on every path — and arms a single-use encryptor.
    pub fn new(password: &mut Vec<u8>, stream_instance: StreamInstance) -> (r: Result<
        Encryptor,
        CpError,
    >)
        ensures
            final(password)@ == Seq::new(old(password)@.len(), |i: int| 0u8),
            r is Ok ==> r->Ok_0.instance() == stream_instance && r->Ok_0.master()
                == Option::Some(stream_instance.pbkdf.derived_key(old(password)@)),
            stream_instance.pbkdf.accepts(old(password)@) ==> (r is Ok || (r is Err && r->Err_0
                == CpError::ResourceError)),
            !stream_instance.pbkdf.accepts(old(password)@) ==> r is Err,
    {
        let key = match stream_instance.pbkdf.derive(password) {
            Ok(k) => k,
            Err(e) => {
                return Err(e);
            },
        };
        Ok(Encryptor { instance: stream_instance, key: Some(key) })
    }

    /// Drives one sealing run: header first, then the chunk loop.  The
    /// output appended to the sink is a function of the parameters, the
    /// master key and the input alone, so sealing with a fixed nonce is
    /// byte-identical across runs.  A second run on the same instance is
    /// refused.
    #[verifier::rlimit(100)]
    pub fn runloop<T: Io>(&mut self, io: &mut T) -> (r: Result<(), CpError>)
        ensures
            old(self).master() is None ==> r is Err && r->Err_0 == CpError::Unsupported,
            old(self).master() is Some && !old(self).instance().wf() ==> r is Err && r->Err_0
                == CpError::Unsupported,
            old(self).master() is Some && old(self).instance().wf() && old(io).reliable() && old(
                io,
            ).input().len() <= u64::MAX ==> r is Ok,
            r is Ok ==> old(self).master() is Some && final(self).master() is None && final(io).output() == old(io).output() + old(self).instance().header() + spec_seal_chunks(
                old(self).master()->Some_0,
                old(io).input(),
                0,
            ) && final(io).input().len() == 0,
    {
        let mut key = match self.key.take() {
            Some(k) => k,
            None => {
                return Err(CpError::Unsupported);
            },
        };
        if self.instance.pbkdf.nonce.len() > 0xFF00 {
            return Err(CpError::Unsupported);
        }
        let header = self.instance.as_serialized();
        match io.write_exact(&header) {
            Ok(()) => {},
            Err(e) => {
                return Err(e);
            },
        }
        let ghost master = key@;
        let ghost chunks_input = io.input();
        let ghost base_output = io.output();
        let mut counter: u64 = 0;
        let mut buffer = zero_vec(CHUNK_DATA_SIZE + MAC_SIZE);
        let ghost mut done: Seq<u8> = Seq::empty();
        loop
            invariant
                buffer@.len() == CHUNK_DATA_SIZE + MAC_SIZE,
                key@ == master,
                self.key is None,
                self.instance == old(self).instance(),
                chunks_input == old(io).input(),
                base_output == old(io).output() + old(self).instance().header(),
                old(self).master() == Option::Some(master),
                old(self).instance().wf(),
                io.output() == base_output + done,
                io.reliable() == old(io).reliable(),
                counter as nat + counter as nat + io.input().len() <= chunks_input.len(),
                spec_seal_chunks(master, chunks_input, 0) == done + spec_seal_chunks(
                    master,
                    io.input(),
                    counter as nat,
                ),
            decreases io.input().len(),
        {
            let ghost pre_input = io.input();
            let read = match io.read_chunk(&mut buffer, CHUNK_DATA_SIZE) {
                Ok(x) => x,
                Err(e) => {
                    return Err(e);
                },
            };
            let (n, last) = read;
            let info_tail = chunk_info(last);
            let info = kdf_info(counter, &info_tail);
            assert(info@ =~= spec_info(counter as nat, last));
            let chunk_key = match self.instance.kdf.derive(&key, &info) {
                Ok(k) => k,
                Err(e) => {
                    return Err(e);
                },
            };
            let ghost chunk_key_view = chunk_key@;
            assert(chunk_key_view == spec_chunk_key(master, counter as nat, last));
            let sealed_len = match self.instance.auth_enc.seal(&mut buffer, n, chunk_key) {
                Ok(l) => l,
                Err(e) => {
                    return Err(e);
                },
            };
            match io.write_chunk(&buffer, sealed_len) {
                Ok(()) => {},
                Err(e) => {
                    return Err(e);
                },
            }
            let ghost chunk = spec_sealed_chunk(chunk_key_view, pre_input.take(n as int));
            let ghost done_old = done;
            proof {
                assert(buffer@.subrange(0, sealed_len as int) == chunk);
                done = done_old + chunk;
                assert(io.output() == base_output + done) by {
                    assert((base_output + done_old) + chunk =~= base_output + (done_old + chunk));
                }
                if last {
                    assert(n == pre_input.len() && (n as int) < CHUNK_DATA_SIZE);
                    assert(pre_input.take(n as int) =~= pre_input);
                    assert(spec_seal_chunks(master, pre_input, counter as nat) == chunk);
                    assert(spec_seal_chunks(master, chunks_input, 0) == done);
                } else {
                    assert(n == CHUNK_DATA_SIZE && pre_input.len() >= CHUNK_DATA_SIZE);
                    let rest = spec_seal_chunks(
                        master,
                        pre_input.skip(CHUNK_DATA_SIZE as int),
                        counter as nat + 1,
                    );
                    assert(spec_seal_chunks(master, pre_input, counter as nat) == chunk + rest);
                    assert(done_old + (chunk + rest) =~= done + rest);
                }
            }
            if last {
                assert(io.input().len() == 0);
                return Ok(());
            }
            if counter == u64::MAX {
                return Err(CpError::Unsupported);
            }
            counter = counter + 1;
        }
    }
}


/// Reads a stream header from the source: one byte at a time until the
/// length prefix decodes, then the remainder in one exact read.  Returns
/// the header bytes and their count.  Against a reliable endpoint this
/// succeeds whenever a canonical header opens the input, and reports the
/// unexpected-end read error whenever the input cannot complete a header.
fn read_header<T: Io>(io: &mut T) -> (r: Result<(Vec<u8>, usize), CpError>)
    ensures
        final(io).reliable() == old(io).reliable(),
        final(io).output() == old(io).output(),
        r is Ok ==> r->Ok_0.1 as int <= old(io).input().len() && r->Ok_0.0@ == old(
            io,
        ).input().take(r->Ok_0.1 as int) && final(io).input() == old(io).input().skip(
            r->Ok_0.1 as int,
        ) && crate::der::spec_len_probe(old(io).input()) == crate::der::LenProbe::Total(
            r->Ok_0.1,
        ),
        forall|n: Seq<u8>, t: u32, m: u32, p: u32|
            (old(io).reliable() && n.len() <= 0xFF00 && (#[trigger] spec_header(
                n,
                t,
                m,
                p,
            )).is_prefix_of(old(io).input())) ==> r is Ok,
        old(io).reliable() && (crate::der::spec_len_probe(old(io).input()) is NeedMore || (
        crate::der::spec_len_probe(old(io).input()) is Total && crate::der::spec_len_probe(
            old(io).input(),
        )->Total_0 > old(io).input().len())) ==> r is Err && r->Err_0 == CpError::IOError(
            IoErrorKind::UnexpectedEof,
            ErrorText::FailedToReadStdin,
        ),
{
    let ghost input0 = io.input();
    let mut header_data: Vec<u8> = Vec::new();
    let mut header_total: usize = 0;
    let mut have_total: bool = false;
    while !have_total
        invariant
            header_data@.len() <= 4,
            header_data@.len() <= input0.len(),
            header_data@ == input0.take(header_data@.len() as int),
            io.input() == input0.skip(header_data@.len() as int),
            io.output() == old(io).output(),
            io.reliable() == old(io).reliable(),
            input0 == old(io).input(),
            forall|k: int|
                0 <= k < header_data@.len() ==> crate::der::spec_len_probe(
                    #[trigger] input0.take(k),
                ) is NeedMore,
            have_total ==> crate::der::spec_len_probe(header_data@) is Total && header_total
                == crate::der::spec_len_probe(header_data@)->Total_0 && header_total
                >= header_data@.len(),
        decreases 5 - header_data@.len() + (if have_total { 0int } else { 1int }),
    {
        match StreamInstance::try_parse_length(&header_data) {
            Ok(Some(total)) => {
                proof {
                    let hd = header_data@;
                    if hd.len() >= 3 {
                        let shorter = input0.take(hd.len() - 1);
                        assert(crate::der::spec_len_probe(shorter) is NeedMore);
                        assert forall|j: int| 0 <= j < hd.len() - 1 implies shorter[j] == hd[j] by {
                            assert(shorter[j] == input0[j] && hd[j] == input0[j]);
                        }
                        assert(total >= hd.len());
                    }
                }
                header_total = total;
                have_total = true;
            },
            Ok(None) => {
                let mut one = zero_vec(1);
                match io.read_exact(&mut one) {
                    Ok(()) => {},
                    Err(e) => {
                        proof {
                            let hl = header_data@.len() as int;
                            if old(io).reliable() {
                                assert(hl == input0.len());
                                assert forall|n: Seq<u8>, t: u32, m: u32, p: u32|
                                    (n.len() <= 0xFF00 && (#[trigger] spec_header(
                                        n,
                                        t,
                                        m,
                                        p,
                                    )).is_prefix_of(input0)) implies false by {
                                    crate::crypto::lemma_header_probe(input0, n, t, m, p, hl);
                                }
                                crate::der::lemma_len_probe_prefix(input0, hl);
                            }
                        }
                        return Err(e);
                    },
                }
                header_data.push(one[0]);
                proof {
                    assert(header_data@ =~= input0.take(header_data@.len() as int));
                    assert(io.input() =~= input0.skip(header_data@.len() as int));
                }
            },
            Err(e) => {
                proof {
                    let hl = header_data@.len() as int;
                    crate::der::lemma_len_probe_prefix(input0, hl);
                    assert forall|n: Seq<u8>, t: u32, m: u32, p: u32|
                        (n.len() <= 0xFF00 && (#[trigger] spec_header(n, t, m, p)).is_prefix_of(
                            input0,
                        )) implies false by {
                        crate::crypto::lemma_header_probe(input0, n, t, m, p, hl);
                    }
                }
                return Err(e);
            },
        }
    }
    proof {
        crate::der::lemma_len_probe_prefix(input0, header_data@.len() as int);
        assert(crate::der::spec_len_probe(input0) == crate::der::LenProbe::Total(header_total));
    }
    if header_total > header_data.len() {
        let mut rest = zero_vec(header_total - header_data.len());
        match io.read_exact(&mut rest) {
            Ok(()) => {},
            Err(e) => {
                proof {
                    if old(io).reliable() {
                        assert(input0.len() < header_total);
                        assert forall|n: Seq<u8>, t: u32, m: u32, p: u32|
                            (n.len() <= 0xFF00 && (#[trigger] spec_header(n, t, m, p)).is_prefix_of(
                                input0,
                            )) implies false by {
                            crate::crypto::lemma_header_probe(
                                input0,
                                n,
                                t,
                                m,
                                p,
                                input0.len() as int,
                            );
                        }
                    }
                }
                return Err(e);
            },
        }
        append_bytes(&mut header_data, &rest);
        proof {
            assert(header_data@ =~= input0.take(header_total as int));
            assert(io.input() =~= input0.skip(header_total as int));
        }
    }
    Ok((header_data, header_total))
}

/// Opens every chunk that remains on the source under the given master
/// key, writing each chunk's plaintext only after its tag verified.
/// Against a reliable endpoint of sane length this succeeds exactly when
/// the model opens the remaining bytes, and fails with the
/// authentication error otherwise.
#[verifier::rlimit(100)]
fn open_all_chunks<T: Io>(
    io: &mut T,
    instance: &StreamInstance,
    key: Key,
    Ghost(master): Ghost<Seq<u8>>,
) -> (r: Result<(), CpError>)
    requires
        key@ == master,
    ensures
        r is Ok ==> spec_open_chunks(master, old(io).input(), 0) is Some && final(io).output()
            == old(io).output() + spec_open_chunks(master, old(io).input(), 0)->Some_0 && final(io).input().len() == 0,
        old(io).reliable() && old(io).input().len() <= u64::MAX && spec_open_chunks(
            master,
            old(io).input(),
            0,
        ) is Some ==> r is Ok,
        old(io).reliable() && old(io).input().len() <= u64::MAX && spec_open_chunks(
            master,
            old(io).input(),
            0,
        ) is None ==> r is Err && r->Err_0 == CpError::InvalidData(
            ErrorText::InvalidAuthenticationTag,
        ),
{
    let mut key = key;
    let ghost chunks_input = io.input();
    let ghost base_output = io.output();
    let mut counter: u64 = 0;
    let mut buffer = zero_vec(CHUNK_DATA_SIZE + MAC_SIZE);
    let ghost mut done: Seq<u8> = Seq::empty();
    loop
        invariant
            buffer@.len() == CHUNK_DATA_SIZE + MAC_SIZE,
            key@ == master,
            chunks_input == old(io).input(),
            base_output == old(io).output(),
            io.reliable() == old(io).reliable(),
            counter as nat + counter as nat + io.input().len() <= chunks_input.len(),
            io.output() == base_output + done,
            (match spec_open_chunks(master, io.input(), counter as nat) {
                Option::Some(rest) => spec_open_chunks(master, chunks_input, 0) == Option::Some(
                    done + rest,
                ),
                Option::None => spec_open_chunks(master, chunks_input, 0) is None,
            }),
        decreases io.input().len(),
    {
        let ghost pre_input = io.input();
        let read = match io.read_chunk(&mut buffer, CHUNK_DATA_SIZE + MAC_SIZE) {
            Ok(x) => x,
            Err(e) => {
                return Err(e);
            },
        };
        let (n, last) = read;
        let info_tail = chunk_info(last);
        let info = kdf_info(counter, &info_tail);
        assert(info@ =~= spec_info(counter as nat, last));
        let chunk_key = match instance.kdf.derive(&key, &info) {
            Ok(k) => k,
            Err(e) => {
                return Err(e);
            },
        };
        let ghost chunk_key_view = chunk_key@;
        assert(chunk_key_view == spec_chunk_key(master, counter as nat, last));
        let pt_len = match instance.auth_enc.open(&mut buffer, n, chunk_key) {
            Ok(l) => l,
            Err(e) => {
                proof {
                    if !last {
                        assert(n == CHUNK_DATA_SIZE + MAC_SIZE && pre_input.len()
                            >= CHUNK_DATA_SIZE + MAC_SIZE);
                        assert(spec_open_chunks(master, pre_input, counter as nat) is None);
                    } else {
                        assert(n == pre_input.len() && (n as int) < CHUNK_DATA_SIZE + MAC_SIZE);
                        assert(pre_input.take(n as int) =~= pre_input);
                        assert(spec_open_chunks(master, pre_input, counter as nat) is None);
                    }
                    assert(spec_open_chunks(master, chunks_input, 0) is None);
                }
                return Err(e);
            },
        };
        let ghost pt = spec_opened_chunk(chunk_key_view, pre_input.take(n as int))->Some_0;
        match io.write_chunk(&buffer, pt_len) {
            Ok(()) => {},
            Err(e) => {
                return Err(e);
            },
        }
        let ghost done_old = done;
        proof {
            assert(buffer@.subrange(0, pt_len as int) == pt);
            done = done_old + pt;
            assert(io.output() == base_output + done) by {
                assert((base_output + done_old) + pt =~= base_output + (done_old + pt));
            }
            if last {
                assert(n == pre_input.len() && (n as int) < CHUNK_DATA_SIZE + MAC_SIZE);
                assert(pre_input.take(n as int) =~= pre_input);
                assert(spec_open_chunks(master, pre_input, counter as nat) == Option::Some(pt));
                assert(spec_open_chunks(master, chunks_input, 0) == Option::Some(done));
            } else {
                assert(n == CHUNK_DATA_SIZE + MAC_SIZE && pre_input.len() >= CHUNK_DATA_SIZE
                    + MAC_SIZE);
                assert(spec_opened_chunk(
                    chunk_key_view,
                    pre_input.take((CHUNK_DATA_SIZE + MAC_SIZE) as int),
                ) == Option::Some(pt));
                assert(io.input() == pre_input.skip((CHUNK_DATA_SIZE + MAC_SIZE) as int));
                match spec_open_chunks(master, io.input(), counter as nat + 1) {
                    Option::Some(rest) => {
                        assert(spec_open_chunks(master, pre_input, counter as nat)
                            == Option::Some(pt + rest));
                        assert(done_old + (pt + rest) =~= done + rest);
                    },
                    Option::None => {
                        assert(spec_open_chunks(master, pre_input, counter as nat) is None);
                    },
                }
            }
        }
        if last {
            proof {
                assert(io.input().len() == 0);
                assert(spec_open_chunks(master, chunks_input, 0) == Option::Some(done));
            }
            // The schedule ends here: release the master key.
            erase_key(&mut key);
            return Ok(());
        }
        if counter == u64::MAX {
            return Err(CpError::Unsupported);
        }
        counter = counter + 1;
    }
}

/// Opens a sealed byte stream: reads the header incrementally, derives
/// the master key, then opens one chunk per full-sized read and the
/// terminal chunk on the final short read.
pub struct Decryptor {
    password: Option<Vec<u8>>,
}

impl Decryptor {
    /// The password, until the single run has consumed it.
    pub closed spec fn password(&self) -> Option<Seq<u8>> {
        match self.password {
            Option::Some(p) => Option::Some(p@),
            Option::None => Option::None,
        }
    }

    /// Arms a single-use decryptor around the password.
    pub fn new(password: Vec<u8>) -> (r: Decryptor)
        ensures
            r.password() == Option::Some(password@),
    {
        Decryptor { password: Some(password) }
    }

    /// Drives one opening run: the header is read incrementally until its
    /// length is known, parsed, the master key derived, and then every
    /// chunk is opened — no plaintext is written before its chunk's tag
    /// has verified.  A second run on the same instance is refused.
    /// Drives one opening run: the header is read incrementally until its
    /// length is known, parsed, the master key derived, and then every
    /// chunk is opened — no plaintext is written before its chunk's tag
    /// has verified.  Against a reliable endpoint, a valid sealed stream
    /// under accepted parameters is owed success (short of resource
    /// exhaustion in the password derivation), a tag failure anywhere is
    /// owed the authentication error, and a stream whose header cannot be
    /// completed is owed the unexpected-end read error.  A second run on
    /// the same instance is refused.
    #[verifier::rlimit(100)]
    pub fn runloop<T: Io>(&mut self, io: &mut T) -> (r: Result<(), CpError>)
        ensures
            old(self).password() is None ==> r is Err && r->Err_0 == CpError::Unsupported,
            r is Ok ==> final(self).password() is None,
            r is Ok ==> exists|n: Seq<u8>, t: u32, m: u32, p: u32|
                {
                    let opened = spec_opened_stream(
                        old(self).password()->Some_0,
                        old(io).input(),
                        n,
                        t,
                        m,
                        p,
                    );
                    &&& n.len() <= 0xFF00
                    &&& (#[trigger] spec_header(n, t, m, p)).is_prefix_of(old(io).input())
                    &&& opened is Some
                    &&& final(io).output() == old(io).output() + opened->Some_0
                    &&& final(io).input().len() == 0
                },
            forall|n: Seq<u8>, t: u32, m: u32, p: u32|
                (old(self).password() is Some && old(io).reliable() && old(io).input().len()
                    <= u64::MAX && #[trigger] spec_run_witness(
                    old(self).password()->Some_0,
                    old(io).input(),
                    n,
                    t,
                    m,
                    p,
                ) && spec_opened_stream(
                    old(self).password()->Some_0,
                    old(io).input(),
                    n,
                    t,
                    m,
                    p,
                ) is Some) ==> (r is Ok || (r is Err && r->Err_0 == CpError::ResourceError)),
            forall|n: Seq<u8>, t: u32, m: u32, p: u32|
                (old(self).password() is Some && old(io).reliable() && old(io).input().len()
                    <= u64::MAX && #[trigger] spec_run_witness(
                    old(self).password()->Some_0,
                    old(io).input(),
                    n,
                    t,
                    m,
                    p,
                ) && spec_opened_stream(
                    old(self).password()->Some_0,
                    old(io).input(),
                    n,
                    t,
                    m,
                    p,
                ) is None) ==> r is Err && (r->Err_0 == CpError::InvalidData(
                    ErrorText::InvalidAuthenticationTag,
                ) || r->Err_0 == CpError::ResourceError),
            old(self).password() is Some && old(io).reliable() && (crate::der::spec_len_probe(
                old(io).input(),
            ) is NeedMore || (crate::der::spec_len_probe(old(io).input()) is Total
                && crate::der::spec_len_probe(old(io).input())->Total_0 > old(
                io,
            ).input().len())) ==> r is Err && r->Err_0 == CpError::IOError(
                IoErrorKind::UnexpectedEof,
                ErrorText::FailedToReadStdin,
            ),
    {
        let mut password = match self.password.take() {
            Some(p) => p,
            None => {
                return Err(CpError::Unsupported);
            },
        };
        let ghost input0 = io.input();
        let ghost password0 = password@;
        let header = match read_header(io) {
            Ok(h) => h,
            Err(e) => {
                return Err(e);
            },
        };
        let (header_data, header_total) = header;
        let instance = match StreamInstance::from_serialized(&header_data) {
            Ok(i) => i,
            Err(e) => {
                proof {
                    crate::crypto::lemma_header_prefix_none(
                        input0,
                        header_data@,
                        header_total,
                    );
                }
                return Err(e);
            },
        };
        let ghost nonce = instance.pbkdf.nonce@;
        let ghost tc = instance.pbkdf.time_cost;
        let ghost mc = instance.pbkdf.memory_cost_mib;
        let ghost pc = instance.pbkdf.parallelism;
        proof {
            assert(spec_header(nonce, tc, mc, pc).is_prefix_of(input0)) by {
                assert(input0.subrange(0, header_total as int) == header_data@);
            }
            // Any canonical header prefixing the input is this one.
            crate::crypto::lemma_header_prefix_pins(
                input0,
                header_data@,
                header_total,
                nonce,
                tc,
                mc,
                pc,
            );
        }
        let key = match instance.pbkdf.derive(&mut password) {
            Ok(k) => k,
            Err(e) => {
                proof {
                    assert forall|n: Seq<u8>, t: u32, m: u32, p: u32|
                        (n.len() <= 0xFF00 && (#[trigger] spec_header(n, t, m, p)).is_prefix_of(
                            input0,
                        ) && spec_params_accepted(password0, n, t, m, p)) implies e
                        == CpError::ResourceError by {}
                }
                return Err(e);
            },
        };
        let ghost master = key@;
        proof {
            assert(master == spec_master_key(password0, nonce, tc, mc, pc));
        }
        let ghost chunks_input = io.input();
        let outcome = open_all_chunks(io, &instance, key, Ghost(master));
        proof {
            let hlen = spec_header(nonce, tc, mc, pc).len() as int;
            assert(chunks_input == input0.skip(hlen));
            if outcome is Ok {
                assert(spec_open_chunks(master, input0.skip(hlen), 0) is Some);
            }
        }
        outcome
    }
}

} // verus!
