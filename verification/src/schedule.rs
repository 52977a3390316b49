//! The fixed-layout container's key material: the PBKDF parameter block
//! that precedes the chunks, and the keystream-offset key schedule that
//! expands the master key into per-chunk cipher and MAC keys.

use vstd::prelude::*;
use crate::constants::{PBKDF_NONCE_SIZE, CIPHER_KEY_SIZE, MAC_KEY_SIZE};
use crate::error::CpError;
use crate::primitives::{
    Key, chacha20_keystream_byte, chacha20_xor, erase, random, zero_nonce, zero_vec,
};

verus! {

/// Serialized size of the parameter block: the nonce and three 32-bit
/// big-endian integers.
pub const PBKDF_INFO_SIZE: usize = 44;

/// A 32-bit value as four big-endian bytes.
pub open spec fn spec_be32(v: u32) -> Seq<u8> {
    seq![(v >> 24) as u8, (v >> 16) as u8, (v >> 8) as u8, v as u8]
}

/// The serialized parameter block.
pub open spec fn spec_pbkdf_info_bytes(nonce: Seq<u8>, t: u32, m: u32, p: u32) -> Seq<u8> {
    nonce + spec_be32(t) + spec_be32(m) + spec_be32(p)
}

/// Folding a value's four big-endian bytes yields the value again.
pub proof fn lemma_be32_fold(v: u32)
    ensures
        ((spec_be32(v)[0] as u32) << 24 | (spec_be32(v)[1] as u32) << 16 | (spec_be32(
            v,
        )[2] as u32) << 8 | (spec_be32(v)[3] as u32)) == v,
{
    assert((((v >> 24) as u8) as u32) << 24 | (((v >> 16) as u8) as u32) << 16 | (((v
        >> 8) as u8) as u32) << 8 | ((v as u8) as u32) == v) by (bit_vector);
}

/// The PBKDF parameters of the fixed-layout container: a 32-byte nonce
/// and the three Argon2i costs (memory in kibibytes here).
#[derive(Debug)]
pub struct PbkdfInfo {
    /// The salt.
    pub nonce: Vec<u8>,
    /// The number of passes.
    pub iterations: u32,
    /// The memory cost in kibibytes.
    pub memory_requirements: u32,
    /// The lane count.
    pub parallelism: u32,
}

impl PbkdfInfo {
    /// Whether the nonce has its fixed size.
    pub open spec fn wf(&self) -> bool {
        self.nonce@.len() == PBKDF_NONCE_SIZE
    }

    /// The serialized form.
    pub open spec fn bytes(&self) -> Seq<u8> {
        spec_pbkdf_info_bytes(
            self.nonce@,
            self.iterations,
            self.memory_requirements,
            self.parallelism,
        )
    }

    /// Parameters with a fresh random nonce.
    pub fn new(iterations: u32, memory_requirements: u32, parallelism: u32) -> (r: PbkdfInfo)
        ensures
            r.wf(),
            r.iterations == iterations,
            r.memory_requirements == memory_requirements,
            r.parallelism == parallelism,
    {
        let mut nonce = zero_vec(PBKDF_NONCE_SIZE);
        random(&mut nonce);
        PbkdfInfo { nonce, iterations, memory_requirements, parallelism }
    }

    /// Parses a parameter block from the front of `data`.
    pub fn parse(data: &Vec<u8>) -> (r: Result<PbkdfInfo, CpError>)
        ensures
            r is Ok <==> data@.len() >= PBKDF_INFO_SIZE,
            r is Ok ==> r->Ok_0.wf() && r->Ok_0.bytes() == data@.subrange(
                0,
                PBKDF_INFO_SIZE as int,
            ),
            r is Err ==> r->Err_0 == CpError::InvalidParameter,
    {
        if data.len() < PBKDF_INFO_SIZE {
            return Err(CpError::InvalidParameter);
        }
        let nonce = vstd::slice::slice_to_vec(
            vstd::slice::slice_subrange(data.as_slice(), 0, PBKDF_NONCE_SIZE),
        );
        let iterations = Self::read_u32_be(data, PBKDF_NONCE_SIZE);
        let memory_requirements = Self::read_u32_be(data, PBKDF_NONCE_SIZE + 4);
        let parallelism = Self::read_u32_be(data, PBKDF_NONCE_SIZE + 8);
        let r = PbkdfInfo { nonce, iterations, memory_requirements, parallelism };
        proof {
            lemma_be32_reconstruct_pub(data@, PBKDF_NONCE_SIZE as int, iterations);
            lemma_be32_reconstruct_pub(data@, PBKDF_NONCE_SIZE + 4, memory_requirements);
            lemma_be32_reconstruct_pub(data@, PBKDF_NONCE_SIZE + 8, parallelism);
            assert(r.bytes() =~= data@.subrange(0, PBKDF_INFO_SIZE as int));
        }
        Ok(r)
    }

    /// Writes the parameter block over the front of `buffer`.
    pub fn serialize(&self, buffer: &mut Vec<u8>) -> (r: Result<(), CpError>)
        requires
            self.wf(),
        ensures
            r is Ok <==> old(buffer)@.len() >= PBKDF_INFO_SIZE,
            final(buffer)@.len() == old(buffer)@.len(),
            r is Ok ==> final(buffer)@ == self.bytes() + old(buffer)@.skip(PBKDF_INFO_SIZE as int),
            r is Err ==> final(buffer)@ == old(buffer)@ && r->Err_0 == CpError::InvalidParameter,
    {
        if buffer.len() < PBKDF_INFO_SIZE {
            return Err(CpError::InvalidParameter);
        }
        let mut i: usize = 0;
        while i < PBKDF_NONCE_SIZE
            invariant
                i <= PBKDF_NONCE_SIZE,
                self.wf(),
                PBKDF_INFO_SIZE <= buffer@.len() == old(buffer)@.len(),
                forall|j: int| 0 <= j < i ==> buffer@[j] == self.nonce@[j],
                forall|j: int| i <= j < buffer@.len() ==> buffer@[j] == old(buffer)@[j],
            decreases PBKDF_NONCE_SIZE - i,
        {
            buffer[i] = self.nonce[i];
            i = i + 1;
        }
        Self::write_u32_be(buffer, PBKDF_NONCE_SIZE, self.iterations);
        Self::write_u32_be(buffer, PBKDF_NONCE_SIZE + 4, self.memory_requirements);
        Self::write_u32_be(buffer, PBKDF_NONCE_SIZE + 8, self.parallelism);
        proof {
            assert(final(buffer)@ =~= self.bytes() + old(buffer)@.skip(PBKDF_INFO_SIZE as int));
        }
        Ok(())
    }

    /// Reads a 32-bit big-endian integer at `pos`.
    pub fn read_u32_be(data: &Vec<u8>, pos: usize) -> (r: u32)
        requires
            pos + 4 <= data@.len(),
        ensures
            r == ((data@[pos as int] as u32) << 24 | (data@[pos + 1] as u32) << 16 | (data@[pos
                + 2] as u32) << 8 | (data@[pos + 3] as u32)),
    {
        proof {
            vstd::std_specs::vec::axiom_spec_len(data);
        }
        (data[pos] as u32) << 24 | (data[pos + 1] as u32) << 16 | (data[pos + 2] as u32) << 8 | (
        data[pos + 3] as u32)
    }

    /// Writes a 32-bit big-endian integer at `pos`.
    pub fn write_u32_be(buffer: &mut Vec<u8>, pos: usize, num: u32)
        requires
            pos + 4 <= old(buffer)@.len(),
        ensures
            final(buffer)@.len() == old(buffer)@.len(),
            final(buffer)@.subrange(pos as int, pos + 4) == spec_be32(num),
            forall|j: int|
                (0 <= j < pos || pos + 4 <= j < old(buffer)@.len()) ==> final(buffer)@[j] == old(
                    buffer,
                )@[j],
    {
        proof {
            vstd::std_specs::vec::axiom_spec_len(buffer);
        }
        buffer[pos] = (num >> 24) as u8;
        buffer[pos + 1] = (num >> 16) as u8;
        buffer[pos + 2] = (num >> 8) as u8;
        buffer[pos + 3] = num as u8;
        assert(final(buffer)@.subrange(pos as int, pos + 4) =~= spec_be32(num));
    }
}

/// Writing a value's bytes at `pos` and folding them back yields the
/// value; conversely a folded value's bytes are the ones read.
pub proof fn lemma_be32_reconstruct_pub(data: Seq<u8>, pos: int, v: u32)
    requires
        0 <= pos,
        pos + 4 <= data.len(),
        v == ((data[pos] as u32) << 24 | (data[pos + 1] as u32) << 16 | (data[pos + 2] as u32) << 8
            | (data[pos + 3] as u32)),
    ensures
        spec_be32(v) == data.subrange(pos, pos + 4),
{
    let b0 = data[pos];
    let b1 = data[pos + 1];
    let b2 = data[pos + 2];
    let b3 = data[pos + 3];
    assert((((b0 as u32) << 24 | (b1 as u32) << 16 | (b2 as u32) << 8 | (b3 as u32)) >> 24) as u8
        == b0) by (bit_vector);
    assert((((b0 as u32) << 24 | (b1 as u32) << 16 | (b2 as u32) << 8 | (b3 as u32)) >> 16) as u8
        == b1) by (bit_vector);
    assert((((b0 as u32) << 24 | (b1 as u32) << 16 | (b2 as u32) << 8 | (b3 as u32)) >> 8) as u8
        == b2) by (bit_vector);
    assert((((b0 as u32) << 24 | (b1 as u32) << 16 | (b2 as u32) << 8 | (b3 as u32))) as u8 == b3)
        by (bit_vector);
    assert(spec_be32(v) =~= data.subrange(pos, pos + 4));
}

/// The cipher key of the chunk whose keystream window starts at `offset`.
pub open spec fn spec_legacy_cipher_key(base: Seq<u8>, offset: int) -> Seq<u8> {
    Seq::new(CIPHER_KEY_SIZE as nat, |i: int| chacha20_keystream_byte(base, zero_nonce(), offset + i))
}

/// The MAC key of the chunk whose keystream window starts at `offset`.
pub open spec fn spec_legacy_mac_key(base: Seq<u8>, offset: int) -> Seq<u8> {
    Seq::new(
        MAC_KEY_SIZE as nat,
        |i: int| chacha20_keystream_byte(base, zero_nonce(), offset + CIPHER_KEY_SIZE + i),
    )
}

/// The fixed-layout key schedule: a master key and a strictly growing
/// keystream offset; the final chunk sets the top bit of the offset as
/// its domain separator, after which the master key is released.
pub struct Kdf {
    key: Key,
    state: u64,
}

impl Kdf {
    /// The master key, while the schedule is armed.
    pub closed spec fn base(&self) -> Seq<u8> {
        self.key@
    }

    /// The keystream offset of the next chunk.
    pub closed spec fn counter(&self) -> u64 {
        self.state
    }

    /// Whether further chunks may be derived: the domain separator has
    /// not been used yet.
    pub open spec fn armed(&self) -> bool {
        self.counter() < 0x8000000000000000 && self.base().len() == 32
    }

    /// A schedule over the given master key, starting at offset zero.
    pub fn new(key: Key) -> (r: Kdf)
        ensures
            r.base() == key@,
            r.counter() == 0,
    {
        Kdf { key, state: 0 }
    }

    /// Derives the next chunk's cipher and MAC keys.  With
    /// `end_of_stream` the keystream window starts at the offset with the
    /// top bit set, and the master key is released afterwards.
    pub fn next(&mut self, cipher_key: &mut Key, mac_key: &mut Key, end_of_stream: bool) -> (r:
        Result<(), CpError>)
        ensures
            r is Ok <==> old(self).armed(),
            r is Err ==> r->Err_0 == CpError::InvalidParameter && *final(self) == *old(self)
                && final(cipher_key)@ == old(cipher_key)@ && final(mac_key)@ == old(mac_key)@,
            r is Ok ==> ({
                let offset = old(self).counter() + if end_of_stream {
                    0x8000000000000000int
                } else {
                    0int
                };
                &&& final(cipher_key)@ == spec_legacy_cipher_key(old(self).base(), offset as int)
                &&& final(mac_key)@ == spec_legacy_mac_key(old(self).base(), offset as int)
                &&& end_of_stream ==> final(self).base().len() == 0
                &&& !end_of_stream ==> final(self).base() == old(self).base() && final(self).counter() == old(self).counter() + 64
            }),
    {
        if self.state >= 0x8000000000000000 || self.key.len() != 32 {
            // Use after the terminal derivation is a programming error.
            return Err(CpError::InvalidParameter);
        }
        let offset: u64 = if end_of_stream {
            self.state + 0x8000000000000000
        } else {
            self.state
        };
        let mut keys = zero_vec(CIPHER_KEY_SIZE + MAC_KEY_SIZE);
        let nonce = zero_vec(8);
        chacha20_xor(&mut keys, 0, CIPHER_KEY_SIZE + MAC_KEY_SIZE, offset, &self.key, &nonce);
        proof {
            assert forall|i: int| 0 <= i < CIPHER_KEY_SIZE + MAC_KEY_SIZE implies keys@[i]
                == chacha20_keystream_byte(self.key@, zero_nonce(), offset + i) by {
                let b = chacha20_keystream_byte(self.key@, zero_nonce(), offset + i);
                assert(0u8 ^ b == b) by (bit_vector);
            }
        }
        let cipher_half = vstd::slice::slice_to_vec(
            vstd::slice::slice_subrange(keys.as_slice(), 0, CIPHER_KEY_SIZE),
        );
        let mac_half = vstd::slice::slice_to_vec(
            vstd::slice::slice_subrange(keys.as_slice(), CIPHER_KEY_SIZE, CIPHER_KEY_SIZE + MAC_KEY_SIZE),
        );
        erase(&mut keys);
        *cipher_key = Key::from_bytes(cipher_half);
        *mac_key = Key::from_bytes(mac_half);
        proof {
            assert(final(cipher_key)@ =~= spec_legacy_cipher_key(old(self).base(), offset as int));
            assert(final(mac_key)@ =~= spec_legacy_mac_key(old(self).base(), offset as int));
        }
        if end_of_stream {
            // Release the master key, erasing its storage.
            match self.key.truncate(0) {
                Ok(()) => {},
                Err(_) => {},
            }
        } else {
            self.state = self.state + 64;
        }
        Ok(())
    }
}

} // verus!
