//! The fixed-layout container's chunk pipeline: the password derivation
//! entry and the authenticated chunk encryption driven by the
//! keystream-offset key schedule.

use vstd::prelude::*;
use crate::constants::{
    KDF_KEY_SIZE, CIPHER_KEY_SIZE, MAC_KEY_SIZE, MAC_SIZE, PBKDF_NONCE_SIZE, PBKDF_ALGO_ID,
    AEAD_ALGO_ID,
};
use crate::error::{CpError, ErrorText};
use crate::primitives::{
    Key, argon2i_inputs_ok, argon2i_v13, argon2i_v13_of, chacha_xor_seq, chacha20_xor,
    compare_constant_time, erase_key, fit, lemma_chacha_xor_involution, poly1305, poly1305_of,
    zero_nonce, zero_vec, zeroize_bytes,
};
use crate::schedule::{Kdf, spec_legacy_cipher_key, spec_legacy_mac_key};

verus! {

/// The ciphertext of a fixed-layout chunk: the plaintext XORed with the
/// cipher key's keystream from offset zero.
pub open spec fn spec_legacy_encrypted(cipher_key: Seq<u8>, data: Seq<u8>) -> Seq<u8> {
    chacha_xor_seq(data, cipher_key, zero_nonce(), 0)
}

/// A sealed fixed-layout chunk: ciphertext followed by its 16-byte tag
/// under the MAC key.
pub open spec fn spec_legacy_sealed(cipher_key: Seq<u8>, mac_key: Seq<u8>, data: Seq<u8>) -> Seq<
    u8,
> {
    spec_legacy_encrypted(cipher_key, data) + fit(
        poly1305_of(mac_key, spec_legacy_encrypted(cipher_key, data)),
        16,
    )
}

/// What opening a sealed fixed-layout chunk yields.
pub open spec fn spec_legacy_opened(
    cipher_key: Seq<u8>,
    mac_key: Seq<u8>,
    sealed: Seq<u8>,
) -> Option<Seq<u8>> {
    if sealed.len() < 16 {
        Option::None
    } else {
        let cipher = sealed.subrange(0, sealed.len() - 16);
        let tag = sealed.subrange(sealed.len() - 16, sealed.len() as int);
        if tag == fit(poly1305_of(mac_key, cipher), 16) {
            Option::Some(chacha_xor_seq(cipher, cipher_key, zero_nonce(), 0))
        } else {
            Option::None
        }
    }
}

/// Opening a sealed fixed-layout chunk under the keys it was sealed with
/// yields the original data.
pub proof fn lemma_legacy_chunk_roundtrip(cipher_key: Seq<u8>, mac_key: Seq<u8>, data: Seq<u8>)
    ensures
        spec_legacy_opened(cipher_key, mac_key, spec_legacy_sealed(cipher_key, mac_key, data))
            == Option::Some(data),
{
    let cipher = spec_legacy_encrypted(cipher_key, data);
    let sealed = spec_legacy_sealed(cipher_key, mac_key, data);
    assert(sealed.len() == data.len() + 16);
    assert(sealed.subrange(0, sealed.len() - 16) =~= cipher);
    assert(sealed.subrange(sealed.len() - 16, sealed.len() as int) =~= fit(
        poly1305_of(mac_key, cipher),
        16,
    ));
    lemma_chacha_xor_involution(data, cipher_key, zero_nonce(), 0);
}

/// The password derivation of the fixed-layout container.
pub struct Pbkdf;

impl Pbkdf {
    /// Derives the master key from the password under the fixed-layout
    /// parameters (memory cost already in kibibytes), zeroizing the
    /// password on every path.
    pub fn compute(
        algo_id: u8,
        password: &mut Vec<u8>,
        pbkdf_nonce: &Vec<u8>,
        pbkdf_iterations: u32,
        pbkdf_memory_requirements: u32,
        pbkdf_parallelism: u32,
    ) -> (r: Result<Key, CpError>)
        ensures
            final(password)@ == Seq::new(old(password)@.len(), |i: int| 0u8),
            r is Ok ==> r->Ok_0@ == argon2i_v13_of(
                old(password)@,
                pbkdf_nonce@,
                pbkdf_iterations,
                pbkdf_memory_requirements,
                pbkdf_parallelism,
                KDF_KEY_SIZE as nat,
            ) && r->Ok_0@.len() == KDF_KEY_SIZE,
            algo_id != PBKDF_ALGO_ID ==> r is Err && r->Err_0 == CpError::Unsupported,
            algo_id == PBKDF_ALGO_ID && pbkdf_nonce@.len() != PBKDF_NONCE_SIZE ==> r is Err
                && r->Err_0 == CpError::InvalidParameter,
            (algo_id == PBKDF_ALGO_ID && pbkdf_nonce@.len() == PBKDF_NONCE_SIZE
                && argon2i_inputs_ok(
                old(password)@,
                pbkdf_nonce@,
                pbkdf_iterations,
                pbkdf_memory_requirements,
                pbkdf_parallelism,
                KDF_KEY_SIZE as nat,
            )) ==> (r is Ok || (r is Err && r->Err_0 == CpError::ResourceError)),
    {
        if algo_id != PBKDF_ALGO_ID {
            zeroize_bytes(password);
            return Err(CpError::Unsupported);
        }
        if pbkdf_nonce.len() != PBKDF_NONCE_SIZE {
            zeroize_bytes(password);
            return Err(CpError::InvalidParameter);
        }
        let mut key = Key::new(KDF_KEY_SIZE);
        let outcome = argon2i_v13(
            &mut key,
            password,
            pbkdf_nonce,
            pbkdf_iterations,
            pbkdf_memory_requirements,
            pbkdf_parallelism,
        );
        zeroize_bytes(password);
        match outcome {
            Ok(()) => Ok(key),
            Err(e) => Err(e),
        }
    }
}

/// The authenticated chunk encryption of the fixed-layout container: a
/// key schedule plus in-place sealing and opening of one chunk.
pub struct Aead {
    kdf: Kdf,
}

impl Aead {
    /// The schedule's master key.
    pub closed spec fn base(&self) -> Seq<u8> {
        self.kdf.base()
    }

    /// The schedule's keystream offset.
    pub closed spec fn counter(&self) -> u64 {
        self.kdf.counter()
    }

    /// Whether another chunk may be processed.
    pub open spec fn armed(&self) -> bool {
        self.counter() < 0x8000000000000000 && self.base().len() == 32
    }

    /// Wraps a key schedule, validating the algorithm identifier.
    pub fn new(algo_id: u8, kdf: Kdf) -> (r: Result<Aead, CpError>)
        ensures
            r is Ok <==> algo_id == AEAD_ALGO_ID,
            r is Ok ==> r->Ok_0.base() == kdf.base() && r->Ok_0.counter() == kdf.counter(),
            r is Err ==> r->Err_0 == CpError::Unsupported,
    {
        if algo_id != AEAD_ALGO_ID {
            return Err(CpError::Unsupported);
        }
        Ok(Aead { kdf })
    }

    /// Seals `chunk_buffer[..chunk_len]` in place under the next chunk
    /// keys, appending the tag; returns the sealed length.
    pub fn encrypt_chunk(&mut self, chunk_buffer: &mut Vec<u8>, chunk_len: usize, is_last: bool) -> (r:
        Result<usize, CpError>)
        ensures
            final(chunk_buffer)@.len() == old(chunk_buffer)@.len(),
            r is Ok <==> old(self).armed() && chunk_len + MAC_SIZE <= old(chunk_buffer)@.len(),
            r is Err ==> final(chunk_buffer)@ == old(chunk_buffer)@ && r->Err_0
                == CpError::InvalidParameter,
            r is Ok ==> ({
                let offset = old(self).counter() + if is_last {
                    0x8000000000000000int
                } else {
                    0int
                };
                let ck = spec_legacy_cipher_key(old(self).base(), offset);
                let mk = spec_legacy_mac_key(old(self).base(), offset);
                &&& r->Ok_0 == chunk_len + MAC_SIZE
                &&& final(chunk_buffer)@.subrange(0, chunk_len + MAC_SIZE) == spec_legacy_sealed(
                    ck,
                    mk,
                    old(chunk_buffer)@.subrange(0, chunk_len as int),
                )
                &&& is_last ==> final(self).base().len() == 0
                &&& !is_last ==> final(self).base() == old(self).base() && final(self).counter()
                    == old(self).counter() + 64
            }),
    {
        proof {
            vstd::std_specs::vec::axiom_spec_len(chunk_buffer);
        }
        if chunk_len > chunk_buffer.len() || chunk_buffer.len() - chunk_len < MAC_SIZE {
            return Err(CpError::InvalidParameter);
        }
        let mut cipher_key = Key::new(CIPHER_KEY_SIZE);
        let mut mac_key = Key::new(MAC_KEY_SIZE);
        match self.kdf.next(&mut cipher_key, &mut mac_key, is_last) {
            Ok(()) => {},
            Err(e) => {
                return Err(e);
            },
        }
        let ghost plain = old(chunk_buffer)@.subrange(0, chunk_len as int);
        let nonce = zero_vec(8);
        chacha20_xor(chunk_buffer, 0, chunk_len, 0, &cipher_key, &nonce);
        let ghost cipher = spec_legacy_encrypted(cipher_key@, plain);
        assert(chunk_buffer@.subrange(0, chunk_len as int) =~= cipher);
        let tag = poly1305(chunk_buffer, 0, chunk_len, &mac_key);
        let mut i: usize = 0;
        while i < MAC_SIZE
            invariant
                i <= MAC_SIZE,
                tag@.len() == MAC_SIZE,
                chunk_len + MAC_SIZE <= chunk_buffer@.len() <= usize::MAX,
                chunk_buffer@.subrange(0, chunk_len as int) == cipher,
                forall|j: int| 0 <= j < i ==> chunk_buffer@[j + chunk_len] == tag@[j],
                chunk_buffer@.len() == old(chunk_buffer)@.len(),
            decreases MAC_SIZE - i,
        {
            chunk_buffer[chunk_len + i] = tag[i];
            assert(chunk_buffer@.subrange(0, chunk_len as int) =~= cipher);
            i = i + 1;
        }
        assert(chunk_buffer@.subrange(0, chunk_len + MAC_SIZE) =~= spec_legacy_sealed(
            cipher_key@,
            mac_key@,
            plain,
        ));
        erase_key(&mut cipher_key);
        erase_key(&mut mac_key);
        Ok(chunk_len + MAC_SIZE)
    }

    /// Opens the sealed chunk `chunk_buffer[..chunk_len]` in place under
    /// the next chunk keys; returns the data length.  No plaintext is
    /// written unless the tag verified.
    pub fn decrypt_chunk(&mut self, chunk_buffer: &mut Vec<u8>, chunk_len: usize, is_last: bool) -> (r:
        Result<usize, CpError>)
        ensures
            final(chunk_buffer)@.len() == old(chunk_buffer)@.len(),
            r is Ok <==> old(self).armed() && ({
                let offset = old(self).counter() + if is_last {
                    0x8000000000000000int
                } else {
                    0int
                };
                &&& chunk_len <= old(chunk_buffer)@.len()
                &&& spec_legacy_opened(
                    spec_legacy_cipher_key(old(self).base(), offset),
                    spec_legacy_mac_key(old(self).base(), offset),
                    old(chunk_buffer)@.subrange(0, chunk_len as int),
                ) is Some
            }),
            r is Ok ==> ({
                let offset = old(self).counter() + if is_last {
                    0x8000000000000000int
                } else {
                    0int
                };
                let opened = spec_legacy_opened(
                    spec_legacy_cipher_key(old(self).base(), offset),
                    spec_legacy_mac_key(old(self).base(), offset),
                    old(chunk_buffer)@.subrange(0, chunk_len as int),
                );
                &&& r->Ok_0 == chunk_len - MAC_SIZE
                &&& final(chunk_buffer)@.subrange(0, chunk_len - MAC_SIZE) == opened->Some_0
                &&& is_last ==> final(self).base().len() == 0
                &&& !is_last ==> final(self).base() == old(self).base() && final(self).counter()
                    == old(self).counter() + 64
            }),
            r is Err ==> final(chunk_buffer)@ == old(chunk_buffer)@,
            chunk_len > old(chunk_buffer)@.len() ==> r is Err && r->Err_0
                == CpError::InvalidParameter,
            chunk_len <= old(chunk_buffer)@.len() && chunk_len < MAC_SIZE ==> r is Err && r->Err_0
                == CpError::InvalidData(ErrorText::UnexpectedEndOfStream),
            chunk_len <= old(chunk_buffer)@.len() && chunk_len >= MAC_SIZE && !old(self).armed()
                ==> r is Err && r->Err_0 == CpError::InvalidParameter,
            r is Err && old(self).armed() && chunk_len <= old(chunk_buffer)@.len() && chunk_len
                >= MAC_SIZE ==> r->Err_0 == CpError::InvalidData(
                ErrorText::InvalidAuthenticationTag,
            ),
    {
        proof {
            vstd::std_specs::vec::axiom_spec_len(chunk_buffer);
        }
        if chunk_len > chunk_buffer.len() {
            return Err(CpError::InvalidParameter);
        }
        if chunk_len < MAC_SIZE {
            return Err(CpError::InvalidData(ErrorText::UnexpectedEndOfStream));
        }
        let mut cipher_key = Key::new(CIPHER_KEY_SIZE);
        let mut mac_key = Key::new(MAC_KEY_SIZE);
        match self.kdf.next(&mut cipher_key, &mut mac_key, is_last) {
            Ok(()) => {},
            Err(e) => {
                return Err(e);
            },
        }
        let ghost sealed = old(chunk_buffer)@.subrange(0, chunk_len as int);
        let cipher_len = chunk_len - MAC_SIZE;
        let ghost cipher = sealed.subrange(0, cipher_len as int);
        assert(cipher =~= chunk_buffer@.subrange(0, cipher_len as int));
        let tag = poly1305(chunk_buffer, 0, cipher_len, &mac_key);
        let stored_tag = vstd::slice::slice_subrange(
            chunk_buffer.as_slice(),
            cipher_len,
            chunk_len,
        );
        assert(stored_tag@ =~= sealed.subrange(cipher_len as int, chunk_len as int));
        if !compare_constant_time(tag.as_slice(), stored_tag) {
            erase_key(&mut cipher_key);
            erase_key(&mut mac_key);
            return Err(CpError::InvalidData(ErrorText::InvalidAuthenticationTag));
        }
        let nonce = zero_vec(8);
        chacha20_xor(chunk_buffer, 0, cipher_len, 0, &cipher_key, &nonce);
        assert(chunk_buffer@.subrange(0, cipher_len as int) =~= chacha_xor_seq(
            cipher,
            cipher_key@,
            zero_nonce(),
            0,
        ));
        erase_key(&mut cipher_key);
        erase_key(&mut mac_key);
        Ok(cipher_len)
    }
}

} // verus!
