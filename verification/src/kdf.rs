//! The key-derivation capability: expands a base key and an info block
//! into a fresh 32-byte key.  One algorithm exists: HMAC-SHA-512
//! truncated to 32 bytes.

use vstd::prelude::*;
use vstd::string::{is_ascii, is_ascii_spec_bytes, StringSliceAdditionalSpecFns};
use crate::error::CpError;
use crate::primitives::{Key, fit, hmac_sha2_512, hmac_sha2_512_of};
use crate::der::{
    spec_der_tlv, spec_id_fragment, der_tlv, parse_id_fragment, TAG_SEQUENCE, TAG_UTF8STRING,
};

verus! {

/// The wire identifier of the HMAC-SHA-512 key-derivation algorithm.
pub open spec fn kdf_algorithm_id() -> Seq<u8> {
    "HMAC-SHA2-512"@.map_values(|c: char| c as u8)
}

/// The identifier spans thirteen octets.
pub proof fn lemma_kdf_algorithm_id_len()
    ensures
        kdf_algorithm_id().len() == 13,
{
    reveal_strlit("HMAC-SHA2-512");
}

/// The identifier, as bytes for the wire.
fn kdf_algorithm_id_vec() -> (r: Vec<u8>)
    ensures
        r@ == kdf_algorithm_id(),
        r@.len() == 13,
{
    let s = "HMAC-SHA2-512";
    proof {
        reveal_strlit("HMAC-SHA2-512");
        assert(is_ascii(s));
        is_ascii_spec_bytes(s);
        assert(s.spec_bytes() =~= kdf_algorithm_id());
    }
    vstd::slice::slice_to_vec(s.as_bytes())
}

/// The KDF fragment of the stream header: a SEQUENCE holding the
/// algorithm identifier as a UTF8String.
pub open spec fn spec_kdf_fragment() -> Seq<u8> {
    spec_id_fragment(kdf_algorithm_id())
}

/// A key-derivation algorithm: turns a base key and an info block into a
/// fresh 32-byte key, and knows its own header fragment.
pub trait Kdf: Sized {
    /// The key that `derive` produces.
    spec fn derived(&self, base_key: Seq<u8>, info: Seq<u8>) -> Seq<u8>;

    /// The header fragment that `serialize` produces.
    spec fn fragment(&self) -> Seq<u8>;

    /// The wire identifier of the algorithm.
    spec fn algorithm_id(&self) -> Seq<u8>;

    /// Derives a 32-byte key from a base key and an info block.
    fn derive(&self, base_key: &Key, info: &Vec<u8>) -> (r: Result<Key, CpError>)
        ensures
            r is Ok,
            r is Ok ==> r->Ok_0@ == self.derived(base_key@, info@) && r->Ok_0@.len() == 32,
    ;

    /// The identifier of the algorithm instance.
    fn algorithm(&self) -> (r: &'static str)
        ensures
            r@.map_values(|c: char| c as u8) == self.algorithm_id(),
    ;

    /// Serializes the algorithm instance into its header fragment.
    fn serialize(&self) -> (r: Vec<u8>)
        ensures
            r@ == self.fragment(),
    ;
}

/// The key that HMAC-SHA-512 derivation produces: the first 32 bytes of
/// the HMAC of the info block keyed with the base key.
pub open spec fn spec_hmac_derived(base_key: Seq<u8>, info: Seq<u8>) -> Seq<u8> {
    fit(hmac_sha2_512_of(base_key, info), 64).subrange(0, 32)
}

/// The HMAC-SHA-512 key-derivation algorithm.
#[derive(Debug)]
pub struct HmacSha2512;

impl HmacSha2512 {
    /// A fresh instance.
    pub fn new() -> (r: HmacSha2512) {
        HmacSha2512
    }
}

impl Kdf for HmacSha2512 {
    open spec fn derived(&self, base_key: Seq<u8>, info: Seq<u8>) -> Seq<u8> {
        spec_hmac_derived(base_key, info)
    }

    open spec fn fragment(&self) -> Seq<u8> {
        spec_kdf_fragment()
    }

    open spec fn algorithm_id(&self) -> Seq<u8> {
        kdf_algorithm_id()
    }

    fn derive(&self, base_key: &Key, info: &Vec<u8>) -> (r: Result<Key, CpError>)
    {
        let digest = hmac_sha2_512(info, base_key);
        let mut derived_key = Key::from_bytes(digest);
        match derived_key.truncate(32) {
            Ok(()) => {},
            Err(e) => {
                return Err(e);
            },
        }
        assert(derived_key@ == spec_hmac_derived(base_key@, info@));
        Ok(derived_key)
    }

    fn algorithm(&self) -> (r: &'static str) {
        let s = "HMAC-SHA2-512";
        proof {
            assert(s@.map_values(|c: char| c as u8) =~= kdf_algorithm_id());
        }
        s
    }

    fn serialize(&self) -> (r: Vec<u8>) {
        let id = kdf_algorithm_id_vec();
        let inner = der_tlv(TAG_UTF8STRING, &id);
        let r = der_tlv(TAG_SEQUENCE, &inner);
        r
    }
}

/// Parses the KDF fragment `data[start..end]` of a stream header.
/// Succeeds exactly on the canonical fragment; a well-formed fragment
/// naming another algorithm is unsupported, anything else malformed.
pub fn from_serialized(data: &Vec<u8>, start: usize, end: usize) -> (r: Result<
    HmacSha2512,
    CpError,
>)
    requires
        start <= end <= data@.len(),
    ensures
        r is Ok <==> data@.subrange(start as int, end as int) == spec_kdf_fragment(),
        r is Err ==> r->Err_0 == CpError::Unsupported || r->Err_0 == CpError::InvalidData(
            crate::error::ErrorText::UnexpectedEndOfStream,
        ),
{
    proof {
        lemma_kdf_algorithm_id_len();
    }
    let id = kdf_algorithm_id_vec();
    match parse_id_fragment(data, start, end, &id) {
        Ok(()) => Ok(HmacSha2512),
        Err(e) => Err(e),
    }
}

} // verus!
