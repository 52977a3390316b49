//! Thin adapters over the cryptographic primitives, and the secret-key
//! buffer that carries key material between them.
//!
//! The primitives themselves are outside code; each adapter's contract
//! names its result so that the modules above can reason about the key
//! schedule and the chunk pipeline exactly.

use vstd::prelude::*;
use zeroize::Zeroize;
use subtle::ConstantTimeEq;
use chacha20::cipher::{KeyIvInit, StreamCipher, StreamCipherSeek};
use chacha20::ChaCha20Legacy;
use poly1305::Poly1305;
use poly1305::universal_hash::KeyInit;
use hmac::{Hmac, KeyInit as HmacKeyInit, Mac};
use sha2::Sha512;
use crate::error::CpError;

verus! {

/// The raw hash that Argon2i v1.3 derives from a password and salt under
/// the given cost parameters, `out_len` bytes of it.
pub uninterp spec fn argon2i_v13_of(
    password: Seq<u8>,
    salt: Seq<u8>,
    iterations: u32,
    memory_cost_kib: u32,
    parallelism: u32,
    out_len: nat,
) -> Seq<u8>;

/// Byte `pos` of the ChaCha20 keystream (the legacy 64-bit-nonce variant)
/// under the given key and nonce.
pub uninterp spec fn chacha20_keystream_byte(key: Seq<u8>, nonce: Seq<u8>, pos: int) -> u8;

/// The Poly1305 one-time authenticator of `data` under `key`.
pub uninterp spec fn poly1305_of(key: Seq<u8>, data: Seq<u8>) -> Seq<u8>;

/// The HMAC-SHA-512 of `data` keyed with `key`.
pub uninterp spec fn hmac_sha2_512_of(key: Seq<u8>, data: Seq<u8>) -> Seq<u8>;

/// `s` when it has the expected length `n`, and an all-zero placeholder
/// otherwise.  The adapters below prove that the primitive outputs have
/// their documented lengths, so on every reachable path this is the
/// identity; it keeps the stream model well-typed without appealing to an
/// adapter call.
pub open spec fn fit(s: Seq<u8>, n: nat) -> Seq<u8> {
    if s.len() == n {
        s
    } else {
        Seq::new(n, |i: int| 0u8)
    }
}

/// The all-zero eight-byte nonce that every keystream of this scheme uses.
pub open spec fn zero_nonce() -> Seq<u8> {
    Seq::new(8, |i: int| 0u8)
}

/// `data` XORed with the ChaCha20 keystream starting at byte `offset`.
pub open spec fn chacha_xor_seq(data: Seq<u8>, key: Seq<u8>, nonce: Seq<u8>, offset: int) -> Seq<u8> {
    Seq::new(data.len(), |i: int| data[i] ^ chacha20_keystream_byte(key, nonce, offset + i))
}

/// XORing the same keystream twice restores the original bytes.
pub proof fn lemma_chacha_xor_involution(data: Seq<u8>, key: Seq<u8>, nonce: Seq<u8>, offset: int)
    ensures
        chacha_xor_seq(chacha_xor_seq(data, key, nonce, offset), key, nonce, offset) == data,
{
    let once = chacha_xor_seq(data, key, nonce, offset);
    let twice = chacha_xor_seq(once, key, nonce, offset);
    assert forall|i: int| 0 <= i < data.len() implies twice[i] == data[i] by {
        let a = data[i];
        let b = chacha20_keystream_byte(key, nonce, offset + i);
        assert((a ^ b) ^ b == a) by (bit_vector);
    }
    assert(twice =~= data);
}

/// A zero-filled byte buffer of `len` bytes.
pub fn zero_vec(len: usize) -> (r: Vec<u8>)
    ensures
        r@ == Seq::new(len as nat, |i: int| 0u8),
{
    let mut bytes: Vec<u8> = Vec::new();
    let mut i: usize = 0;
    while i < len
        invariant
            i <= len,
            bytes@ == Seq::new(i as nat, |j: int| 0u8),
        decreases len - i,
    {
        bytes.push(0u8);
        i = i + 1;
        assert(bytes@ =~= Seq::new(i as nat, |j: int| 0u8));
    }
    bytes
}

/// A buffer for key material.  It is created zero-initialized; truncation
/// erases the storage it releases, and the stream components erase a
/// key's bytes once its role is over.
#[derive(Debug)]
pub struct Key {
    bytes: Vec<u8>,
}

impl View for Key {
    type V = Seq<u8>;

    closed spec fn view(&self) -> Seq<u8> {
        self.bytes@
    }
}

impl Key {
    /// A fresh zero-filled key buffer of `size` bytes.
    pub fn new(size: usize) -> (r: Key)
        ensures
            r@ == Seq::new(size as nat, |i: int| 0u8),
    {
        Key { bytes: zero_vec(size) }
    }

    /// Overwrites the buffer with fresh randomness.
    pub fn fill_random(&mut self)
        ensures
            final(self)@.len() == old(self)@.len(),
    {
        random(&mut self.bytes);
    }

    /// Shortens the key to `new_length` bytes, keeping the prefix; the old
    /// storage is erased before it is released.
    pub fn truncate(&mut self, new_length: usize) -> (r: Result<(), CpError>)
        ensures
            new_length <= old(self)@.len() ==> r is Ok && final(self)@ == old(self)@.subrange(
                0,
                new_length as int,
            ),
            new_length > old(self)@.len() ==> r is Err && r->Err_0 == CpError::InvalidParameter
                && final(self)@ == old(self)@,
    {
        if new_length > self.bytes.len() {
            return Err(CpError::InvalidParameter);
        }
        let prefix = vstd::slice::slice_subrange(self.bytes.as_slice(), 0, new_length);
        let truncated = vstd::slice::slice_to_vec(prefix);
        erase(&mut self.bytes);
        self.bytes = truncated;
        Ok(())
    }

    /// Wraps the given bytes as a key buffer.
    pub fn from_bytes(bytes: Vec<u8>) -> (r: Key)
        ensures
            r@ == bytes@,
    {
        Key { bytes }
    }

    /// The key bytes.
    pub fn as_slice(&self) -> (r: &[u8])
        ensures
            r@ == self@,
    {
        self.bytes.as_slice()
    }

    /// The key bytes, for in-place filling.
    pub fn as_mut_slice(&mut self) -> (r: &mut Vec<u8>)
        ensures
            r@ == old(self)@,
            final(self)@ == final(r)@,
    {
        &mut self.bytes
    }

    /// The key length in bytes.
    pub fn len(&self) -> (r: usize)
        ensures
            r == self@.len(),
    {
        self.bytes.len()
    }
}

/// Erases a key that has served its purpose, releasing its storage
/// through the erasing truncation.
pub fn erase_key(key: &mut Key)
    ensures
        final(key)@.len() == 0,
{
    match key.truncate(0) {
        Ok(()) => {},
        Err(_) => {},
    }
}

/// Overwrites the buffer with a fixed non-zero sentinel (an `X` byte),
/// so that released key storage neither holds key material nor can be
/// mistaken for deliberately zeroed memory.
pub fn erase(buffer: &mut Vec<u8>)
    ensures
        final(buffer)@ == Seq::new(old(buffer)@.len(), |i: int| 0x58u8),
{
    let n = buffer.len();
    let mut i: usize = 0;
    while i < n
        invariant
            i <= n,
            buffer@.len() == n,
            forall|j: int| 0 <= j < i ==> buffer@[j] == 0x58u8,
        decreases n - i,
    {
        buffer[i] = 0x58u8;
        i = i + 1;
    }
    assert(buffer@ =~= Seq::new(buffer@.len(), |j: int| 0x58u8));
}

/// Relies on `zeroize`'s `Zeroize` implementation for byte slices:
/// overwrites every byte with zero through volatile writes and compiler
/// fences that the optimizer must not elide.
#[verifier::external_body]
pub(crate) fn zeroize_bytes(buffer: &mut Vec<u8>)
    ensures
        final(buffer)@ == Seq::new(old(buffer)@.len(), |i: int| 0u8),
{
    buffer.as_mut_slice().zeroize();
}

/// Relies on `getrandom::fill`: fills the buffer with bytes from the
/// operating system's random source.  Panics if that source fails; no
/// nonce may ever be made from anything weaker.
#[verifier::external_body]
pub fn random(buffer: &mut Vec<u8>)
    ensures
        final(buffer)@.len() == old(buffer)@.len(),
{
    getrandom::fill(buffer.as_mut_slice()).expect("the OS random source failed");
}

/// Relies on `subtle`'s `ConstantTimeEq` for slices: true exactly when
/// the two inputs have equal length and equal contents; the comparison
/// short-circuits only on length, never on the contents.
#[verifier::external_body]
pub fn compare_constant_time(data0: &[u8], data1: &[u8]) -> (r: bool)
    ensures
        r == (data0@ == data1@),
{
    data0.ct_eq(data1).into()
}

/// The parameter ranges under which the Argon2i primitive accepts a
/// derivation: the ranges that `argon2`'s `Params::new` and its password
/// and salt validation enforce.
pub open spec fn argon2i_inputs_ok(
    password: Seq<u8>,
    salt: Seq<u8>,
    iterations: u32,
    memory_cost_kib: u32,
    parallelism: u32,
    out_len: nat,
) -> bool {
    &&& iterations >= 1
    &&& 1 <= parallelism <= 0xFFFFFF
    &&& memory_cost_kib >= 8
    &&& memory_cost_kib as int >= 8 * parallelism as int
    &&& 8 <= salt.len() <= 0xFFFFFFFFint
    &&& password.len() <= 0xFFFFFFFFint
    &&& 4 <= out_len <= 0xFFFFFFFFint
}

/// Relies on `argon2`'s `hash_password_into` with `Algorithm::Argon2i` and
/// `Version::V0x13`: fills `buffer` with the raw Argon2i hash.  The
/// parameter ranges in the contract are the ones its `Params::new` and
/// input validation enforce; an allocation failure for the memory blocks
/// is reported, not fatal.
#[verifier::external_body]
pub fn argon2i_v13(
    buffer: &mut Key,
    password: &Vec<u8>,
    nonce: &Vec<u8>,
    iterations: u32,
    memory_cost_kib: u32,
    parallelism: u32,
) -> (r: Result<(), CpError>)
    ensures
        final(buffer)@.len() == old(buffer)@.len(),
        r is Ok ==> final(buffer)@ == argon2i_v13_of(
            password@,
            nonce@,
            iterations,
            memory_cost_kib,
            parallelism,
            old(buffer)@.len(),
        ),
        argon2i_inputs_ok(password@, nonce@, iterations, memory_cost_kib, parallelism, old(buffer)@.len())
            ==> (r is Ok || (r is Err && r->Err_0 == CpError::ResourceError)),
        !argon2i_inputs_ok(password@, nonce@, iterations, memory_cost_kib, parallelism, old(buffer)@.len())
            ==> (r is Err && r->Err_0 == CpError::InvalidParameter),
{
    let params = match argon2::Params::new(memory_cost_kib, iterations, parallelism, Some(buffer.bytes.len())) {
        Ok(params) => params,
        Err(_) => return Err(CpError::InvalidParameter),
    };
    let instance = argon2::Argon2::new(argon2::Algorithm::Argon2i, argon2::Version::V0x13, params);
    match instance.hash_password_into(password.as_slice(), nonce.as_slice(), buffer.bytes.as_mut_slice()) {
        Ok(()) => Ok(()),
        Err(argon2::Error::OutOfMemory) => Err(CpError::ResourceError),
        Err(_) => Err(CpError::InvalidParameter),
    }
}

/// Relies on `chacha20`'s `ChaCha20Legacy` (the 64-bit-nonce, 64-bit
/// block-counter construction) with `seek`: XORs the keystream, starting
/// at the given byte offset, into `buffer[start..end]` in place.  The
/// keystream spans 2^70 bytes, far past any reachable `u64` offset plus
/// buffer length, so the cipher never runs out.
#[verifier::external_body]
pub fn chacha20_xor(
    buffer: &mut Vec<u8>,
    start: usize,
    end: usize,
    keystream_offset: u64,
    key: &Key,
    nonce: &Vec<u8>,
)
    requires
        start <= end <= old(buffer)@.len(),
        key@.len() == 32,
        nonce@.len() == 8,
    ensures
        final(buffer)@.len() == old(buffer)@.len(),
        forall|i: int|
            start <= i < end ==> final(buffer)@[i] == (old(buffer)@[i] ^ chacha20_keystream_byte(
                key@,
                nonce@,
                keystream_offset + (i - start),
            )),
        forall|i: int|
            (0 <= i < start || end <= i < old(buffer)@.len()) ==> final(buffer)@[i] == old(
                buffer,
            )@[i],
{
    let mut cipher = ChaCha20Legacy::new_from_slices(key.bytes.as_slice(), nonce.as_slice())
        .expect("key and nonce lengths are fixed");
    cipher.seek(keystream_offset);
    cipher.apply_keystream(&mut buffer[start..end]);
}

/// Relies on `poly1305`'s `compute_unpadded`: the 16-byte one-time
/// authenticator of `buffer[start..end]` under `key`.
#[verifier::external_body]
pub fn poly1305(buffer: &Vec<u8>, start: usize, end: usize, key: &Key) -> (r: Vec<u8>)
    requires
        start <= end <= buffer@.len(),
        key@.len() == 32,
    ensures
        r@ == poly1305_of(key@, buffer@.subrange(start as int, end as int)),
        r@.len() == 16,
{
    let mac = Poly1305::new_from_slice(key.bytes.as_slice()).expect("key length is fixed");
    mac.compute_unpadded(&buffer[start..end]).to_vec()
}

/// Relies on `hmac` with `sha2`'s SHA-512: the 64-byte HMAC of `data`
/// keyed with `key`.  HMAC accepts keys of any length.
#[verifier::external_body]
pub fn hmac_sha2_512(data: &Vec<u8>, key: &Key) -> (r: Vec<u8>)
    ensures
        r@ == hmac_sha2_512_of(key@, data@),
        r@.len() == 64,
{
    let mut mac = <Hmac<Sha512> as HmacKeyInit>::new_from_slice(key.bytes.as_slice())
        .expect("HMAC accepts keys of any length");
    mac.update(data.as_slice());
    mac.finalize().into_bytes().to_vec()
}

} // verus!
