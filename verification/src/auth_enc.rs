//! The authenticated-encryption capability: seals one chunk under a fresh
//! key by appending an authentication tag, and opens it again, refusing
//! to decrypt before the tag has verified.
//!
//! One algorithm exists, a bespoke ChaCha20-Poly1305 composition:
//! the first 64 keystream bytes yield the Poly1305 one-time key (bytes 0
//! to 31), the chunk is XORed with the keystream from byte 64 on, and the
//! tag is computed over the ciphertext.

use vstd::prelude::*;
use vstd::string::{is_ascii, is_ascii_spec_bytes, StringSliceAdditionalSpecFns};
use crate::error::{CpError, ErrorText};
use crate::primitives::{
    Key, chacha20_keystream_byte, chacha_xor_seq, compare_constant_time, chacha20_xor, erase_key,
    fit, lemma_chacha_xor_involution, poly1305, poly1305_of, zero_nonce, zero_vec,
};
use crate::der::{spec_id_fragment, spec_der_tlv, der_tlv, parse_id_fragment, TAG_SEQUENCE, TAG_UTF8STRING};

verus! {

/// The wire identifier of the ChaCha20-Poly1305 scheme.
pub open spec fn aead_algorithm_id() -> Seq<u8> {
    "ChaCha20+Poly1305@de.KizzyCode.CryptoPipe.v1"@.map_values(|c: char| c as u8)
}

/// The identifier spans forty-four octets.
pub proof fn lemma_aead_algorithm_id_len()
    ensures
        aead_algorithm_id().len() == 44,
{
    reveal_strlit("ChaCha20+Poly1305@de.KizzyCode.CryptoPipe.v1");
}

/// The identifier, as bytes for the wire.
fn aead_algorithm_id_vec() -> (r: Vec<u8>)
    ensures
        r@ == aead_algorithm_id(),
        r@.len() == 44,
{
    let s = "ChaCha20+Poly1305@de.KizzyCode.CryptoPipe.v1";
    proof {
        reveal_strlit("ChaCha20+Poly1305@de.KizzyCode.CryptoPipe.v1");
        assert(is_ascii(s));
        is_ascii_spec_bytes(s);
        assert(s.spec_bytes() =~= aead_algorithm_id());
    }
    vstd::slice::slice_to_vec(s.as_bytes())
}

/// The AEAD fragment of the stream header.
pub open spec fn spec_aead_fragment() -> Seq<u8> {
    spec_id_fragment(aead_algorithm_id())
}

/// The Poly1305 one-time key of a chunk: the first 32 bytes of the
/// ChaCha20 keystream under the chunk key and the zero nonce.
pub open spec fn spec_poly_key(key: Seq<u8>) -> Seq<u8> {
    Seq::new(32, |i: int| chacha20_keystream_byte(key, zero_nonce(), i))
}

/// A chunk's ciphertext: the plaintext XORed with the keystream from byte
/// 64 on.
pub open spec fn spec_encrypted(key: Seq<u8>, data: Seq<u8>) -> Seq<u8> {
    chacha_xor_seq(data, key, zero_nonce(), 64)
}

/// A chunk's 16-byte tag: Poly1305 over the ciphertext under the chunk's
/// one-time key.
pub open spec fn spec_chunk_tag(key: Seq<u8>, cipher: Seq<u8>) -> Seq<u8> {
    fit(poly1305_of(spec_poly_key(key), cipher), 16)
}

/// A sealed chunk: ciphertext followed by its tag.
pub open spec fn spec_sealed_chunk(key: Seq<u8>, data: Seq<u8>) -> Seq<u8> {
    spec_encrypted(key, data) + spec_chunk_tag(key, spec_encrypted(key, data))
}

/// What opening a sealed chunk yields: the decrypted data where the tag
/// verifies, and nothing otherwise.
pub open spec fn spec_opened_chunk(key: Seq<u8>, sealed: Seq<u8>) -> Option<Seq<u8>> {
    if sealed.len() < 16 {
        Option::None
    } else {
        let cipher = sealed.subrange(0, sealed.len() - 16);
        let tag = sealed.subrange(sealed.len() - 16, sealed.len() as int);
        if tag == spec_chunk_tag(key, cipher) {
            Option::Some(chacha_xor_seq(cipher, key, zero_nonce(), 64))
        } else {
            Option::None
        }
    }
}

/// Opening what was sealed under the same key yields the original data.
pub proof fn lemma_chunk_roundtrip(key: Seq<u8>, data: Seq<u8>)
    ensures
        spec_opened_chunk(key, spec_sealed_chunk(key, data)) == Option::Some(data),
{
    let cipher = spec_encrypted(key, data);
    let sealed = spec_sealed_chunk(key, data);
    assert(sealed.len() == data.len() + 16);
    assert(sealed.subrange(0, sealed.len() - 16) =~= cipher);
    assert(sealed.subrange(sealed.len() - 16, sealed.len() as int) =~= spec_chunk_tag(
        key,
        cipher,
    ));
    lemma_chacha_xor_involution(data, key, zero_nonce(), 64);
}

/// An authenticated-encryption algorithm: seals a chunk in place by
/// appending a tag over the ciphertext, opens it only after the tag has
/// verified, and knows its own header fragment.
pub trait AuthEnc: Sized {
    /// What sealing `data` under `key` writes.
    spec fn sealed_spec(&self, key: Seq<u8>, data: Seq<u8>) -> Seq<u8>;

    /// What opening `sealed` under `key` yields, where the tag verifies.
    spec fn opened_spec(&self, key: Seq<u8>, sealed: Seq<u8>) -> Option<Seq<u8>>;

    /// The header fragment that `serialize` produces.
    spec fn fragment(&self) -> Seq<u8>;

    /// The wire identifier of the algorithm.
    spec fn algorithm_id(&self) -> Seq<u8>;

    /// Seals `data_buffer[..data_length]` in place under `key`, appending
    /// the tag; returns the sealed length.
    fn seal(&self, data_buffer: &mut Vec<u8>, data_length: usize, key: Key) -> (r: Result<
        usize,
        CpError,
    >)
        ensures
            final(data_buffer)@.len() == old(data_buffer)@.len(),
            r is Ok <==> key@.len() == 32 && data_length + 16 <= old(data_buffer)@.len(),
            r is Ok ==> r->Ok_0 == data_length + 16 && final(data_buffer)@.subrange(
                0,
                data_length + 16,
            ) == self.sealed_spec(key@, old(data_buffer)@.subrange(0, data_length as int)) && final(data_buffer)@.subrange(data_length + 16, old(data_buffer)@.len() as int) == old(data_buffer)@.subrange(data_length + 16, old(data_buffer)@.len() as int),
            r is Err ==> final(data_buffer)@ == old(data_buffer)@ && r->Err_0
                == CpError::InvalidParameter,
    ;

    /// Opens the sealed chunk `data_buffer[..data_length]` in place under
    /// `key`; returns the data length.  No plaintext is written unless
    /// the tag verified.
    fn open(&self, data_buffer: &mut Vec<u8>, data_length: usize, key: Key) -> (r: Result<
        usize,
        CpError,
    >)
        ensures
            final(data_buffer)@.len() == old(data_buffer)@.len(),
            r is Ok <==> key@.len() == 32 && data_length <= old(data_buffer)@.len()
                && self.opened_spec(
                key@,
                old(data_buffer)@.subrange(0, data_length as int),
            ) is Some,
            r is Ok ==> r->Ok_0 == data_length - 16 && final(data_buffer)@.subrange(
                0,
                data_length - 16,
            ) == self.opened_spec(key@, old(data_buffer)@.subrange(0, data_length as int))->Some_0
                && final(data_buffer)@.subrange(data_length - 16, old(data_buffer)@.len() as int)
                == old(data_buffer)@.subrange(data_length - 16, old(data_buffer)@.len() as int),
            r is Err ==> final(data_buffer)@ == old(data_buffer)@,
            r is Err ==> (r->Err_0 == CpError::InvalidParameter <==> !(key@.len() == 32
                && data_length <= old(data_buffer)@.len())),
            r is Err && r->Err_0 != CpError::InvalidParameter ==> r->Err_0 == CpError::InvalidData(
                ErrorText::InvalidAuthenticationTag,
            ),
    ;

    /// The byte overhead of sealing: the tag size.
    fn overhead(&self) -> (r: usize)
        ensures
            r == 16,
    ;

    /// The identifier of the algorithm instance.
    fn algorithm(&self) -> (r: &'static str)
        ensures
            r@.map_values(|c: char| c as u8) == self.algorithm_id(),
    ;

    /// Serializes the algorithm instance into its header fragment.
    fn serialize(&self) -> (r: Vec<u8>)
        ensures
            r@ == self.fragment(),
    ;
}

/// The ChaCha20-Poly1305 scheme.
#[derive(Debug)]
pub struct ChaCha20Poly1305;

impl ChaCha20Poly1305 {
    /// A fresh instance.
    pub fn new() -> (r: ChaCha20Poly1305) {
        ChaCha20Poly1305
    }

    /// Validates the chunk key and computes the Poly1305 one-time key
    /// from the first keystream bytes.
    pub fn prepare(&self, key: Key) -> (r: Result<(Key, Key), CpError>)
        ensures
            r is Ok <==> key@.len() == 32,
            r is Ok ==> r->Ok_0.0@ == key@ && r->Ok_0.1@ == spec_poly_key(key@),
            r is Err ==> r->Err_0 == CpError::InvalidParameter,
    {
        if key.len() != 32 {
            return Err(CpError::InvalidParameter);
        }
        let mut poly_key_bytes = zero_vec(32);
        let nonce = zero_vec(8);
        chacha20_xor(&mut poly_key_bytes, 0, 32, 0, &key, &nonce);
        assert(poly_key_bytes@ =~= spec_poly_key(key@)) by {
            assert forall|i: int| 0 <= i < 32 implies poly_key_bytes@[i] == spec_poly_key(key@)[i] by {
                let b = chacha20_keystream_byte(key@, zero_nonce(), i);
                assert(poly_key_bytes@[i] == 0u8 ^ b);
                assert(0u8 ^ b == b) by (bit_vector);
            }
        }
        Ok((key, Key::from_bytes(poly_key_bytes)))
    }
}

impl AuthEnc for ChaCha20Poly1305 {
    open spec fn sealed_spec(&self, key: Seq<u8>, data: Seq<u8>) -> Seq<u8> {
        spec_sealed_chunk(key, data)
    }

    open spec fn opened_spec(&self, key: Seq<u8>, sealed: Seq<u8>) -> Option<Seq<u8>> {
        spec_opened_chunk(key, sealed)
    }

    open spec fn fragment(&self) -> Seq<u8> {
        spec_aead_fragment()
    }

    open spec fn algorithm_id(&self) -> Seq<u8> {
        aead_algorithm_id()
    }

    fn seal(&self, data_buffer: &mut Vec<u8>, data_length: usize, key: Key) -> (r: Result<
        usize,
        CpError,
    >) {
        proof {
            vstd::std_specs::vec::axiom_spec_len(data_buffer);
        }
        let (mut chacha_key, mut poly_key) = match self.prepare(key) {
            Ok(keys) => keys,
            Err(e) => {
                return Err(e);
            },
        };
        if data_length > data_buffer.len() || data_buffer.len() - data_length < 16 {
            erase_key(&mut chacha_key);
            erase_key(&mut poly_key);
            return Err(CpError::InvalidParameter);
        }
        let ghost plain = old(data_buffer)@.subrange(0, data_length as int);
        let nonce = zero_vec(8);
        chacha20_xor(data_buffer, 0, data_length, 64, &chacha_key, &nonce);
        let ghost cipher = spec_encrypted(chacha_key@, plain);
        assert(data_buffer@.subrange(0, data_length as int) =~= cipher);
        let tag = poly1305(data_buffer, 0, data_length, &poly_key);
        assert(tag@ == spec_chunk_tag(chacha_key@, cipher));
        let mut i: usize = 0;
        while i < 16
            invariant
                i <= 16,
                tag@.len() == 16,
                data_length + 16 <= data_buffer@.len() <= usize::MAX,
                data_buffer@.subrange(0, data_length as int) == cipher,
                forall|j: int| 0 <= j < i ==> data_buffer@[data_length + j] == tag@[j],
                forall|j: int|
                    data_length + 16 <= j < data_buffer@.len() ==> data_buffer@[j] == old(data_buffer)@[j],
                data_buffer@.len() == old(data_buffer)@.len(),
            decreases 16 - i,
        {
            data_buffer[data_length + i] = tag[i];
            assert(data_buffer@.subrange(0, data_length as int) =~= cipher);
            i = i + 1;
        }
        assert(data_buffer@.subrange(0, data_length + 16) =~= spec_sealed_chunk(
            chacha_key@,
            plain,
        ));
        assert(data_buffer@.subrange(data_length + 16, old(data_buffer)@.len() as int) =~= old(data_buffer)@.subrange(data_length + 16, old(data_buffer)@.len() as int));
        erase_key(&mut chacha_key);
        erase_key(&mut poly_key);
        Ok(data_length + 16)
    }

    fn open(&self, data_buffer: &mut Vec<u8>, data_length: usize, key: Key) -> (r: Result<
        usize,
        CpError,
    >) {
        proof {
            vstd::std_specs::vec::axiom_spec_len(data_buffer);
        }
        let ghost key_view = key@;
        let (mut chacha_key, mut poly_key) = match self.prepare(key) {
            Ok(keys) => keys,
            Err(e) => {
                return Err(e);
            },
        };
        if data_length > data_buffer.len() {
            erase_key(&mut chacha_key);
            erase_key(&mut poly_key);
            return Err(CpError::InvalidParameter);
        }
        let ghost sealed = old(data_buffer)@.subrange(0, data_length as int);
        if data_length < 16 {
            erase_key(&mut chacha_key);
            erase_key(&mut poly_key);
            return Err(CpError::InvalidData(ErrorText::InvalidAuthenticationTag));
        }
        let cipher_len = data_length - 16;
        let ghost cipher = sealed.subrange(0, cipher_len as int);
        assert(cipher =~= data_buffer@.subrange(0, cipher_len as int));
        let tag = poly1305(data_buffer, 0, cipher_len, &poly_key);
        assert(tag@ == spec_chunk_tag(chacha_key@, cipher));
        let stored_tag = vstd::slice::slice_subrange(
            data_buffer.as_slice(),
            cipher_len,
            data_length,
        );
        assert(stored_tag@ =~= sealed.subrange(cipher_len as int, data_length as int));
        if !compare_constant_time(tag.as_slice(), stored_tag) {
            erase_key(&mut chacha_key);
            erase_key(&mut poly_key);
            return Err(CpError::InvalidData(ErrorText::InvalidAuthenticationTag));
        }
        let nonce = zero_vec(8);
        chacha20_xor(data_buffer, 0, cipher_len, 64, &chacha_key, &nonce);
        assert(data_buffer@.subrange(0, cipher_len as int) =~= chacha_xor_seq(
            cipher,
            chacha_key@,
            zero_nonce(),
            64,
        ));
        assert(data_buffer@.subrange(cipher_len as int, old(data_buffer)@.len() as int) =~= old(data_buffer)@.subrange(cipher_len as int, old(data_buffer)@.len() as int));
        erase_key(&mut chacha_key);
        erase_key(&mut poly_key);
        Ok(cipher_len)
    }

    fn overhead(&self) -> (r: usize) {
        16
    }

    fn algorithm(&self) -> (r: &'static str) {
        let s = "ChaCha20+Poly1305@de.KizzyCode.CryptoPipe.v1";
        proof {
            assert(s@.map_values(|c: char| c as u8) =~= aead_algorithm_id());
        }
        s
    }

    fn serialize(&self) -> (r: Vec<u8>) {
        let id = aead_algorithm_id_vec();
        let inner = der_tlv(TAG_UTF8STRING, &id);
        let r = der_tlv(TAG_SEQUENCE, &inner);
        r
    }
}

/// Parses the AEAD fragment `data[start..end]` of a stream header.
/// Succeeds exactly on the canonical fragment; a well-formed fragment
/// naming another algorithm is unsupported, anything else malformed.
pub fn from_serialized(data: &Vec<u8>, start: usize, end: usize) -> (r: Result<
    ChaCha20Poly1305,
    CpError,
>)
    requires
        start <= end <= data@.len(),
    ensures
        r is Ok <==> data@.subrange(start as int, end as int) == spec_aead_fragment(),
        r is Err ==> r->Err_0 == CpError::Unsupported || r->Err_0 == CpError::InvalidData(
            ErrorText::UnexpectedEndOfStream,
        ),
{
    proof {
        lemma_aead_algorithm_id_len();
    }
    let id = aead_algorithm_id_vec();
    match parse_id_fragment(data, start, end, &id) {
        Ok(()) => Ok(ChaCha20Poly1305),
        Err(e) => Err(e),
    }
}

} // verus!
