//! The fixed-layout container's framing: its 50-byte binary header, and
//! the processors that turn raw header and chunk buffers into sealed or
//! opened ones for the runloop.

use vstd::prelude::*;
use crate::constants::{
    CHUNK_DATA_SIZE, KDF_ALGO_ID, KDF_KEY_SIZE, MAC_SIZE, PBKDF_NONCE_SIZE, STREAM_HEADER_SIZE,
    STREAM_VERSION_MAJOR, STREAM_VERSION_MINOR, STREAM_VERSION_PATCH, PBKDF_ALGO_ID, AEAD_ALGO_ID,
};
use crate::error::CpError;
use crate::primitives::{random, zero_vec};
use crate::schedule::{Kdf, PbkdfInfo, spec_be32};
use crate::chunks::{Pbkdf, Aead};

verus! {

/// The serialized fixed-layout header: version triple, three algorithm
/// identifiers, the nonce, and the three cost integers.
pub open spec fn spec_stream_header_bytes(
    version: (u8, u8, u8),
    pbkdf_algo_id: u8,
    kdf_algo_id: u8,
    aead_algo_id: u8,
    nonce: Seq<u8>,
    iterations: u32,
    memory_requirements: u32,
    parallelism: u32,
) -> Seq<u8> {
    seq![version.0, version.1, version.2, pbkdf_algo_id, kdf_algo_id, aead_algo_id] + nonce
        + spec_be32(iterations) + spec_be32(memory_requirements) + spec_be32(parallelism)
}

/// The fixed-layout stream header.
#[derive(Debug)]
pub struct StreamHeader {
    /// The container version triple.
    pub version: (u8, u8, u8),
    /// Identifier of the PBKDF algorithm.
    pub pbkdf_algo_id: u8,
    /// Identifier of the KDF algorithm.
    pub kdf_algo_id: u8,
    /// Identifier of the AEAD algorithm.
    pub aead_algo_id: u8,
    /// The PBKDF salt.
    pub pbkdf_nonce: Vec<u8>,
    /// The number of passes.
    pub pbkdf_iterations: u32,
    /// The memory cost in kibibytes.
    pub pbkdf_memory_requirements: u32,
    /// The lane count.
    pub pbkdf_parallelism: u32,
}

impl StreamHeader {
    /// Whether the nonce has its fixed size.
    pub open spec fn wf(&self) -> bool {
        self.pbkdf_nonce@.len() == PBKDF_NONCE_SIZE
    }

    /// The serialized form.
    pub open spec fn bytes(&self) -> Seq<u8> {
        spec_stream_header_bytes(
            self.version,
            self.pbkdf_algo_id,
            self.kdf_algo_id,
            self.aead_algo_id,
            self.pbkdf_nonce@,
            self.pbkdf_iterations,
            self.pbkdf_memory_requirements,
            self.pbkdf_parallelism,
        )
    }

    /// A header for the current version and algorithms around the given
    /// PBKDF parameters.
    pub fn new(
        pbkdf_nonce: &Vec<u8>,
        pbkdf_iterations: u32,
        pbkdf_memory_requirements: u32,
        pbkdf_parallelism: u32,
    ) -> (r: Result<StreamHeader, CpError>)
        ensures
            r is Ok <==> pbkdf_nonce@.len() == PBKDF_NONCE_SIZE,
            r is Err ==> r->Err_0 == CpError::Unsupported,
            r is Ok ==> ({
                let h = r->Ok_0;
                &&& h.wf()
                &&& h.version == (STREAM_VERSION_MAJOR, STREAM_VERSION_MINOR, STREAM_VERSION_PATCH)
                &&& h.pbkdf_algo_id == PBKDF_ALGO_ID
                &&& h.kdf_algo_id == KDF_ALGO_ID
                &&& h.aead_algo_id == AEAD_ALGO_ID
                &&& h.pbkdf_nonce@ == pbkdf_nonce@
                &&& h.pbkdf_iterations == pbkdf_iterations
                &&& h.pbkdf_memory_requirements == pbkdf_memory_requirements
                &&& h.pbkdf_parallelism == pbkdf_parallelism
            }),
    {
        if pbkdf_nonce.len() != PBKDF_NONCE_SIZE {
            return Err(CpError::Unsupported);
        }
        let nonce_copy = vstd::slice::slice_to_vec(
            vstd::slice::slice_subrange(pbkdf_nonce.as_slice(), 0, PBKDF_NONCE_SIZE),
        );
        Ok(
            StreamHeader {
                version: (STREAM_VERSION_MAJOR, STREAM_VERSION_MINOR, STREAM_VERSION_PATCH),
                pbkdf_algo_id: PBKDF_ALGO_ID,
                kdf_algo_id: KDF_ALGO_ID,
                aead_algo_id: AEAD_ALGO_ID,
                pbkdf_nonce: nonce_copy,
                pbkdf_iterations,
                pbkdf_memory_requirements,
                pbkdf_parallelism,
            },
        )
    }

    /// Parses a header from the front of `data`.
    pub fn parse(data: &Vec<u8>) -> (r: Result<StreamHeader, CpError>)
        ensures
            r is Ok <==> data@.len() >= STREAM_HEADER_SIZE,
            r is Err ==> r->Err_0 == CpError::InvalidParameter,
            r is Ok ==> r->Ok_0.wf() && r->Ok_0.bytes() == data@.subrange(
                0,
                STREAM_HEADER_SIZE as int,
            ),
    {
        if data.len() < STREAM_HEADER_SIZE {
            return Err(CpError::InvalidParameter);
        }
        let nonce = vstd::slice::slice_to_vec(
            vstd::slice::slice_subrange(data.as_slice(), 6, 6 + PBKDF_NONCE_SIZE),
        );
        let r = StreamHeader {
            version: (data[0], data[1], data[2]),
            pbkdf_algo_id: data[3],
            kdf_algo_id: data[4],
            aead_algo_id: data[5],
            pbkdf_nonce: nonce,
            pbkdf_iterations: PbkdfInfo::read_u32_be(data, 6 + PBKDF_NONCE_SIZE),
            pbkdf_memory_requirements: PbkdfInfo::read_u32_be(data, 6 + PBKDF_NONCE_SIZE + 4),
            pbkdf_parallelism: PbkdfInfo::read_u32_be(data, 6 + PBKDF_NONCE_SIZE + 8),
        };
        proof {
            crate::schedule::lemma_be32_reconstruct_pub(
                data@,
                6 + PBKDF_NONCE_SIZE as int,
                r.pbkdf_iterations,
            );
            crate::schedule::lemma_be32_reconstruct_pub(
                data@,
                6 + PBKDF_NONCE_SIZE + 4,
                r.pbkdf_memory_requirements,
            );
            crate::schedule::lemma_be32_reconstruct_pub(
                data@,
                6 + PBKDF_NONCE_SIZE + 8,
                r.pbkdf_parallelism,
            );
            assert(r.bytes() =~= data@.subrange(0, STREAM_HEADER_SIZE as int));
        }
        Ok(r)
    }

    /// Writes the header over the front of `buffer`.
    pub fn serialize(&self, buffer: &mut Vec<u8>) -> (r: Result<(), CpError>)
        requires
            self.wf(),
        ensures
            final(buffer)@.len() == old(buffer)@.len(),
            r is Ok <==> old(buffer)@.len() >= STREAM_HEADER_SIZE,
            r is Err ==> final(buffer)@ == old(buffer)@ && r->Err_0 == CpError::InvalidParameter,
            r is Ok ==> final(buffer)@ == self.bytes() + old(buffer)@.skip(
                STREAM_HEADER_SIZE as int,
            ),
    {
        proof {
            vstd::std_specs::vec::axiom_spec_len(buffer);
        }
        if buffer.len() < STREAM_HEADER_SIZE {
            return Err(CpError::InvalidParameter);
        }
        buffer[0] = self.version.0;
        buffer[1] = self.version.1;
        buffer[2] = self.version.2;
        buffer[3] = self.pbkdf_algo_id;
        buffer[4] = self.kdf_algo_id;
        buffer[5] = self.aead_algo_id;
        let mut i: usize = 0;
        while i < PBKDF_NONCE_SIZE
            invariant
                i <= PBKDF_NONCE_SIZE,
                self.wf(),
                STREAM_HEADER_SIZE <= buffer@.len() == old(buffer)@.len() <= usize::MAX,
                buffer@[0] == self.version.0,
                buffer@[1] == self.version.1,
                buffer@[2] == self.version.2,
                buffer@[3] == self.pbkdf_algo_id,
                buffer@[4] == self.kdf_algo_id,
                buffer@[5] == self.aead_algo_id,
                forall|j: int| 0 <= j < i ==> buffer@[6 + j] == self.pbkdf_nonce@[j],
                forall|j: int| 6 + i <= j < buffer@.len() ==> buffer@[j] == old(buffer)@[j],
            decreases PBKDF_NONCE_SIZE - i,
        {
            buffer[6 + i] = self.pbkdf_nonce[i];
            i = i + 1;
        }
        PbkdfInfo::write_u32_be(buffer, 6 + PBKDF_NONCE_SIZE, self.pbkdf_iterations);
        PbkdfInfo::write_u32_be(buffer, 6 + PBKDF_NONCE_SIZE + 4, self.pbkdf_memory_requirements);
        PbkdfInfo::write_u32_be(buffer, 6 + PBKDF_NONCE_SIZE + 8, self.pbkdf_parallelism);
        proof {
            assert(final(buffer)@ =~= self.bytes() + old(buffer)@.skip(STREAM_HEADER_SIZE as int));
        }
        Ok(())
    }
}


/// The bytes one chunk step emits: sealing always succeeds on an armed
/// schedule, opening succeeds exactly when the tag verifies.
pub open spec fn spec_chunk_step_output(
    seals: bool,
    base: Seq<u8>,
    counter: u64,
    data: Seq<u8>,
    is_last: bool,
) -> Option<Seq<u8>> {
    let offset = counter as int + if is_last {
        0x8000000000000000int
    } else {
        0int
    };
    let ck = crate::schedule::spec_legacy_cipher_key(base, offset);
    let mk = crate::schedule::spec_legacy_mac_key(base, offset);
    if seals {
        Option::Some(crate::chunks::spec_legacy_sealed(ck, mk, data))
    } else {
        crate::chunks::spec_legacy_opened(ck, mk, data)
    }
}

/// The nonce field of a serialized fixed-layout header.
pub open spec fn spec_hdr_nonce(data: Seq<u8>) -> Seq<u8> {
    data.subrange(6, 6 + PBKDF_NONCE_SIZE as int)
}

/// One 32-bit big-endian field of a serialized fixed-layout header.
pub open spec fn spec_hdr_u32(data: Seq<u8>, pos: int) -> u32 {
    (data[pos] as u32) << 24 | (data[pos + 1] as u32) << 16 | (data[pos + 2] as u32) << 8 | (data[
        pos + 3] as u32)
}

/// The master key that opening a stream with this header derives from
/// `password`.
pub open spec fn spec_hdr_master(password: Seq<u8>, data: Seq<u8>) -> Seq<u8> {
    crate::primitives::fit(
        crate::primitives::argon2i_v13_of(
            password,
            spec_hdr_nonce(data),
            spec_hdr_u32(data, 6 + PBKDF_NONCE_SIZE as int),
            spec_hdr_u32(data, 6 + PBKDF_NONCE_SIZE + 4),
            spec_hdr_u32(data, 6 + PBKDF_NONCE_SIZE + 8),
            KDF_KEY_SIZE as nat,
        ),
        KDF_KEY_SIZE as nat,
    )
}

/// One side of the fixed-layout pipeline: tells the runloop how large its
/// buffers must be, and transforms the header and each chunk in place.
pub trait IoProcessor: Sized {
    /// Whether this processor seals chunks (or opens them).
    spec fn seals(&self) -> bool;

    /// The master key of the armed schedule.
    spec fn base(&self) -> Seq<u8>;

    /// The schedule's keystream offset.
    spec fn counter(&self) -> u64;

    /// How many of the header buffer's bytes are pre-filled from the
    /// source.
    spec fn header_in_len(&self) -> nat;

    /// The header buffer's size.
    spec fn header_buf_len(&self) -> nat;

    /// How many bytes each chunk read asks for.
    spec fn chunk_in_len(&self) -> nat;

    /// The bytes the header step emits for the given buffer.
    spec fn header_output(&self, data: Seq<u8>) -> Seq<u8>;

    /// The master key the header step arms.
    spec fn header_base(&self, data: Seq<u8>) -> Seq<u8>;

    /// The keystream offset the header step arms.
    spec fn header_counter(&self, data: Seq<u8>) -> u64;

    /// Header buffer size, and how many of its bytes to pre-fill from the
    /// source.
    fn header_buffer_and_in_sizes(&self) -> (r: (usize, usize))
        ensures
            r.1 <= r.0,
            r.0 == self.header_buf_len(),
            r.1 == self.header_in_len(),
    ;

    /// Chunk buffer size, and how many bytes to read per chunk.
    fn chunk_buffer_and_in_sizes(&self) -> (r: (usize, usize))
        ensures
            1 <= r.1 <= r.0,
            r.1 == self.chunk_in_len(),
    ;

    /// Transforms the header buffer in place; returns how many bytes to
    /// write out.
    fn process_header(&mut self, data: &mut Vec<u8>) -> (r: Result<usize, CpError>)
        ensures
            final(data)@.len() == old(data)@.len(),
            final(self).seals() == old(self).seals(),
            r is Ok ==> r->Ok_0 <= final(data)@.len() && final(data)@.subrange(
                0,
                r->Ok_0 as int,
            ) == old(self).header_output(old(data)@) && final(self).base() == old(self).header_base(old(data)@) && final(self).counter() == old(self).header_counter(
                old(data)@,
            ),
    ;

    /// Transforms one chunk in place; returns how many bytes to write
    /// out.
    fn process_chunk(&mut self, data: &mut Vec<u8>, data_len: usize, is_last: bool) -> (r: Result<
        usize,
        CpError,
    >)
        requires
            data_len <= old(data)@.len(),
        ensures
            final(data)@.len() == old(data)@.len(),
            final(self).seals() == old(self).seals(),
            r is Ok ==> ({
                let out = spec_chunk_step_output(
                    old(self).seals(),
                    old(self).base(),
                    old(self).counter(),
                    old(data)@.subrange(0, data_len as int),
                    is_last,
                );
                &&& out is Some
                &&& r->Ok_0 <= final(data)@.len()
                &&& final(data)@.subrange(0, r->Ok_0 as int) == out->Some_0
                &&& (is_last ==> final(self).base().len() == 0)
                &&& (!is_last ==> final(self).base() == old(self).base() && final(self).counter() as int == old(self).counter() as int + 64)
            }),
    ;
}

/// The sealing processor: emits the header, then seals every chunk.
pub struct IoEncryptor {
    aead: Aead,
    stream_header: StreamHeader,
}

impl IoEncryptor {
    /// A sealing processor with a fresh random nonce.
    pub fn new(
        password: &mut Vec<u8>,
        pbkdf_iterations: u32,
        pbkdf_memory_requirements: u32,
        pbkdf_parallelism: u32,
    ) -> (r: Result<IoEncryptor, CpError>)
        ensures
            final(password)@ == Seq::new(old(password)@.len(), |i: int| 0u8),
            r is Ok ==> r->Ok_0.seals() && r->Ok_0.counter() == 0 && r->Ok_0.base().len()
                == KDF_KEY_SIZE,
    {
        let mut pbkdf_nonce = zero_vec(PBKDF_NONCE_SIZE);
        random(&mut pbkdf_nonce);
        IoEncryptor::with_nonce(
            password,
            &pbkdf_nonce,
            pbkdf_iterations,
            pbkdf_memory_requirements,
            pbkdf_parallelism,
        )
    }

    /// A sealing processor around a pregenerated nonce: on success it
    /// holds the header for exactly these parameters, and a schedule
    /// armed at offset zero over the key the password derives.
    pub fn with_nonce(
        password: &mut Vec<u8>,
        pbkdf_nonce: &Vec<u8>,
        pbkdf_iterations: u32,
        pbkdf_memory_requirements: u32,
        pbkdf_parallelism: u32,
    ) -> (r: Result<IoEncryptor, CpError>)
        ensures
            final(password)@ == Seq::new(old(password)@.len(), |i: int| 0u8),
            r is Ok ==> r->Ok_0.seals() && r->Ok_0.counter() == 0 && r->Ok_0.base()
                == crate::primitives::fit(
                crate::primitives::argon2i_v13_of(
                    old(password)@,
                    pbkdf_nonce@,
                    pbkdf_iterations,
                    pbkdf_memory_requirements,
                    pbkdf_parallelism,
                    KDF_KEY_SIZE as nat,
                ),
                KDF_KEY_SIZE as nat,
            ) && (forall|d: Seq<u8>|
                #[trigger] r->Ok_0.header_output(d) == spec_stream_header_bytes(
                    (STREAM_VERSION_MAJOR, STREAM_VERSION_MINOR, STREAM_VERSION_PATCH),
                    PBKDF_ALGO_ID,
                    KDF_ALGO_ID,
                    AEAD_ALGO_ID,
                    pbkdf_nonce@,
                    pbkdf_iterations,
                    pbkdf_memory_requirements,
                    pbkdf_parallelism,
                )),
    {
        let stream_header = match StreamHeader::new(
            pbkdf_nonce,
            pbkdf_iterations,
            pbkdf_memory_requirements,
            pbkdf_parallelism,
        ) {
            Ok(h) => h,
            Err(e) => {
                crate::primitives::zeroize_bytes(password);
                return Err(e);
            },
        };
        let master_key = match Pbkdf::compute(
            stream_header.pbkdf_algo_id,
            password,
            &stream_header.pbkdf_nonce,
            pbkdf_iterations,
            pbkdf_memory_requirements,
            pbkdf_parallelism,
        ) {
            Ok(k) => k,
            Err(e) => {
                return Err(e);
            },
        };
        let kdf = Kdf::new(master_key);
        let aead = match Aead::new(stream_header.aead_algo_id, kdf) {
            Ok(a) => a,
            Err(e) => {
                return Err(e);
            },
        };
        Ok(IoEncryptor { aead, stream_header })
    }
}

impl IoProcessor for IoEncryptor {
    closed spec fn seals(&self) -> bool {
        true
    }

    closed spec fn base(&self) -> Seq<u8> {
        self.aead.base()
    }

    closed spec fn counter(&self) -> u64 {
        self.aead.counter()
    }

    closed spec fn header_in_len(&self) -> nat {
        0
    }

    closed spec fn header_buf_len(&self) -> nat {
        STREAM_HEADER_SIZE as nat
    }

    closed spec fn chunk_in_len(&self) -> nat {
        CHUNK_DATA_SIZE as nat
    }

    closed spec fn header_output(&self, data: Seq<u8>) -> Seq<u8> {
        self.stream_header.bytes()
    }

    closed spec fn header_base(&self, data: Seq<u8>) -> Seq<u8> {
        self.aead.base()
    }

    closed spec fn header_counter(&self, data: Seq<u8>) -> u64 {
        self.aead.counter()
    }

    fn header_buffer_and_in_sizes(&self) -> (r: (usize, usize)) {
        (STREAM_HEADER_SIZE, 0)
    }

    fn chunk_buffer_and_in_sizes(&self) -> (r: (usize, usize)) {
        (CHUNK_DATA_SIZE + MAC_SIZE, CHUNK_DATA_SIZE)
    }

    fn process_header(&mut self, data: &mut Vec<u8>) -> (r: Result<usize, CpError>) {
        if data.len() < STREAM_HEADER_SIZE {
            return Err(CpError::InvalidParameter);
        }
        if self.stream_header.pbkdf_nonce.len() != PBKDF_NONCE_SIZE {
            return Err(CpError::InvalidParameter);
        }
        match self.stream_header.serialize(data) {
            Ok(()) => {
                proof {
                    assert(data@.subrange(0, STREAM_HEADER_SIZE as int) =~= self.stream_header.bytes());
                }
                Ok(STREAM_HEADER_SIZE)
            },
            Err(e) => Err(e),
        }
    }

    fn process_chunk(&mut self, data: &mut Vec<u8>, data_len: usize, is_last: bool) -> (r: Result<
        usize,
        CpError,
    >) {
        self.aead.encrypt_chunk(data, data_len, is_last)
    }
}

/// The opening processor: parses the header, then opens every chunk.
pub struct IoDecryptor {
    password: Option<Vec<u8>>,
    aead: Option<Aead>,
}

impl IoDecryptor {
    /// An opening processor around the password: its header step derives
    /// the schedule key from that password and the parsed parameters, and
    /// emits nothing.
    pub fn new(password: Vec<u8>) -> (r: IoDecryptor)
        ensures
            !r.seals(),
            forall|d: Seq<u8>| #[trigger] r.header_base(d) == spec_hdr_master(password@, d),
            forall|d: Seq<u8>| (#[trigger] r.header_output(d)).len() == 0,
    {
        IoDecryptor { password: Some(password), aead: None }
    }
}

impl IoProcessor for IoDecryptor {
    closed spec fn seals(&self) -> bool {
        false
    }

    closed spec fn base(&self) -> Seq<u8> {
        match self.aead {
            Option::Some(a) => a.base(),
            Option::None => Seq::empty(),
        }
    }

    closed spec fn counter(&self) -> u64 {
        match self.aead {
            Option::Some(a) => a.counter(),
            Option::None => 0,
        }
    }

    closed spec fn header_in_len(&self) -> nat {
        STREAM_HEADER_SIZE as nat
    }

    closed spec fn header_buf_len(&self) -> nat {
        STREAM_HEADER_SIZE as nat
    }

    closed spec fn chunk_in_len(&self) -> nat {
        (CHUNK_DATA_SIZE + MAC_SIZE) as nat
    }

    closed spec fn header_output(&self, data: Seq<u8>) -> Seq<u8> {
        Seq::empty()
    }

    closed spec fn header_base(&self, data: Seq<u8>) -> Seq<u8> {
        match self.password {
            Option::Some(pw) => spec_hdr_master(pw@, data),
            Option::None => Seq::empty(),
        }
    }

    closed spec fn header_counter(&self, data: Seq<u8>) -> u64 {
        0
    }

    fn header_buffer_and_in_sizes(&self) -> (r: (usize, usize)) {
        (STREAM_HEADER_SIZE, STREAM_HEADER_SIZE)
    }

    fn chunk_buffer_and_in_sizes(&self) -> (r: (usize, usize)) {
        (CHUNK_DATA_SIZE + MAC_SIZE, CHUNK_DATA_SIZE + MAC_SIZE)
    }

    fn process_header(&mut self, data: &mut Vec<u8>) -> (r: Result<usize, CpError>) {
        let stream_header = match StreamHeader::parse(data) {
            Ok(h) => h,
            Err(e) => {
                return Err(e);
            },
        };
        if stream_header.kdf_algo_id != KDF_ALGO_ID {
            return Err(CpError::Unsupported);
        }
        let mut password = match self.password.take() {
            Some(p) => p,
            None => {
                return Err(CpError::Unsupported);
            },
        };
        let ghost password0 = password@;
        proof {
            lemma_stream_header_fields(data@, stream_header);
        }
        let master_key = match Pbkdf::compute(
            stream_header.pbkdf_algo_id,
            &mut password,
            &stream_header.pbkdf_nonce,
            stream_header.pbkdf_iterations,
            stream_header.pbkdf_memory_requirements,
            stream_header.pbkdf_parallelism,
        ) {
            Ok(k) => k,
            Err(e) => {
                return Err(e);
            },
        };
        proof {
            assert(master_key@ == spec_hdr_master(password0, data@));
        }
        let kdf = Kdf::new(master_key);
        let aead = match Aead::new(stream_header.aead_algo_id, kdf) {
            Ok(a) => a,
            Err(e) => {
                return Err(e);
            },
        };
        self.aead = Some(aead);
        Ok(0)
    }

    fn process_chunk(&mut self, data: &mut Vec<u8>, data_len: usize, is_last: bool) -> (r: Result<
        usize,
        CpError,
    >) {
        match &mut self.aead {
            Some(aead) => aead.decrypt_chunk(data, data_len, is_last),
            // A chunk before the header is a programming error.
            None => Err(CpError::InvalidParameter),
        }
    }
}

/// The parsed header's fields, read off its serialized bytes.
proof fn lemma_stream_header_fields(data: Seq<u8>, header: StreamHeader)
    requires
        data.len() >= STREAM_HEADER_SIZE,
        header.wf(),
        header.bytes() == data.subrange(0, STREAM_HEADER_SIZE as int),
    ensures
        header.pbkdf_nonce@ == spec_hdr_nonce(data),
        header.pbkdf_iterations == spec_hdr_u32(data, 6 + PBKDF_NONCE_SIZE as int),
        header.pbkdf_memory_requirements == spec_hdr_u32(data, 6 + PBKDF_NONCE_SIZE + 4),
        header.pbkdf_parallelism == spec_hdr_u32(data, 6 + PBKDF_NONCE_SIZE + 8),
{
    let b = header.bytes();
    assert forall|i: int| 0 <= i < STREAM_HEADER_SIZE implies data[i] == b[i] by {
        assert(data.subrange(0, STREAM_HEADER_SIZE as int)[i] == data[i]);
    }
    assert forall|j: int| 0 <= j < PBKDF_NONCE_SIZE implies b[6 + j] == header.pbkdf_nonce@[j] by {}
    assert(header.pbkdf_nonce@ =~= spec_hdr_nonce(data));
    let t = header.pbkdf_iterations;
    let m = header.pbkdf_memory_requirements;
    let p = header.pbkdf_parallelism;
    assert forall|j: int| 0 <= j < 4 implies b[6 + PBKDF_NONCE_SIZE + j] == spec_be32(t)[j] by {}
    assert forall|j: int| 0 <= j < 4 implies b[6 + PBKDF_NONCE_SIZE + 4 + j] == spec_be32(m)[j] by {}
    assert forall|j: int| 0 <= j < 4 implies b[6 + PBKDF_NONCE_SIZE + 8 + j] == spec_be32(p)[j] by {}
    crate::schedule::lemma_be32_fold(t);
    crate::schedule::lemma_be32_fold(m);
    crate::schedule::lemma_be32_fold(p);
}

} // verus!