//! The password-based key-derivation capability: turns a password into
//! the 32-byte master key, and carries its own parameters in the stream
//! header so that the receiver can recompute the key.  One algorithm
//! exists: Argon2i v1.3.

use vstd::prelude::*;
use vstd::string::{is_ascii, is_ascii_spec_bytes, StringSliceAdditionalSpecFns};
use crate::error::{CpError, ErrorText};
use crate::primitives::{
    Key, argon2i_inputs_ok, argon2i_v13, argon2i_v13_of, fit, random, zero_vec, zeroize_bytes,
};
use crate::der::{
    spec_der_tlv, spec_der_uint, spec_der_len_bytes, der_tlv, der_uint, der_read_tlv,
    der_read_uint, bytes_range_eq, append_bytes, lemma_prefix_at, lemma_concat_structure,
    lemma_der_uint_len, TAG_SEQUENCE, TAG_UTF8STRING, TAG_OCTET_STRING, TAG_INTEGER,
};

verus! {

/// The wire identifier of the Argon2i v1.3 algorithm.
pub open spec fn pbkdf_algorithm_id() -> Seq<u8> {
    "Argon2i@v1.3"@.map_values(|c: char| c as u8)
}

/// The identifier spans twelve octets.
pub proof fn lemma_pbkdf_algorithm_id_len()
    ensures
        pbkdf_algorithm_id().len() == 12,
{
    reveal_strlit("Argon2i@v1.3");
}

/// The identifier, as bytes for the wire.
fn pbkdf_algorithm_id_vec() -> (r: Vec<u8>)
    ensures
        r@ == pbkdf_algorithm_id(),
        r@.len() == 12,
{
    let s = "Argon2i@v1.3";
    proof {
        reveal_strlit("Argon2i@v1.3");
        assert(is_ascii(s));
        is_ascii_spec_bytes(s);
        assert(s.spec_bytes() =~= pbkdf_algorithm_id());
    }
    vstd::slice::slice_to_vec(s.as_bytes())
}

/// The parameter block of the PBKDF fragment: the nonce as an OCTET
/// STRING followed by the three cost INTEGERs.
pub open spec fn spec_pbkdf_params(nonce: Seq<u8>, t: u32, m: u32, p: u32) -> Seq<u8> {
    spec_der_tlv(TAG_OCTET_STRING, nonce) + spec_der_tlv(TAG_INTEGER, spec_der_uint(t as nat))
        + spec_der_tlv(TAG_INTEGER, spec_der_uint(m as nat)) + spec_der_tlv(
        TAG_INTEGER,
        spec_der_uint(p as nat),
    )
}

/// The PBKDF fragment of the stream header: a SEQUENCE holding the
/// algorithm identifier and the parameter SEQUENCE.
pub open spec fn spec_pbkdf_fragment(nonce: Seq<u8>, t: u32, m: u32, p: u32) -> Seq<u8> {
    spec_der_tlv(
        TAG_SEQUENCE,
        spec_der_tlv(TAG_UTF8STRING, pbkdf_algorithm_id()) + spec_der_tlv(
            TAG_SEQUENCE,
            spec_pbkdf_params(nonce, t, m, p),
        ),
    )
}

/// A password-based key-derivation algorithm: derives the 32-byte master
/// key from a password, zeroizing the password, and knows its own header
/// fragment.
pub trait Pbkdf: Sized {
    /// The master key that `derive` produces.
    spec fn derived_key(&self, password: Seq<u8>) -> Seq<u8>;

    /// The passwords and parameters on which derivation is owed (short of
    /// resource exhaustion).
    spec fn accepts(&self, password: Seq<u8>) -> bool;

    /// The header fragment that `serialize` produces.
    spec fn fragment(&self) -> Seq<u8>;

    /// The wire identifier of the algorithm.
    spec fn algorithm_id(&self) -> Seq<u8>;

    /// The error owed when derivation refuses the inputs.
    spec fn derive_rejection(&self, password: Seq<u8>) -> CpError;

    /// Whether the instance's parameters fit the wire format.
    spec fn wf(&self) -> bool;

    /// Derives the master key from `password`, and overwrites the
    /// password bytes with zero before returning, on every path.
    fn derive(&self, password: &mut Vec<u8>) -> (r: Result<Key, CpError>)
        ensures
            final(password)@ == Seq::new(old(password)@.len(), |i: int| 0u8),
            r is Ok ==> r->Ok_0@ == self.derived_key(old(password)@) && r->Ok_0@.len() == 32,
            self.accepts(old(password)@) ==> (r is Ok || (r is Err && r->Err_0
                == CpError::ResourceError)),
            !self.accepts(old(password)@) ==> r is Err && r->Err_0 == self.derive_rejection(
                old(password)@,
            ),
    ;

    /// The identifier of the algorithm instance.
    fn algorithm(&self) -> (r: &'static str)
        ensures
            r@.map_values(|c: char| c as u8) == self.algorithm_id(),
    ;

    /// Serializes the algorithm instance into its header fragment.
    fn serialize(&self) -> (r: Vec<u8>)
        requires
            self.wf(),
        ensures
            r@ == self.fragment(),
    ;
}

/// The Argon2i v1.3 algorithm, with its nonce and cost parameters.
/// Memory cost travels in mebibytes on the wire and is converted to
/// kibibytes at derivation time.
#[derive(Debug)]
pub struct Argon2i {
    /// The salt written into the stream header.
    pub nonce: Vec<u8>,
    /// The number of passes.
    pub time_cost: u32,
    /// The memory cost in mebibytes.
    pub memory_cost_mib: u32,
    /// The lane count.
    pub parallelism: u32,
}

impl Argon2i {
    /// An instance around a pregenerated nonce.
    pub fn with_nonce(nonce: Vec<u8>, time_cost: u32, memory_cost_mib: u32, parallelism: u32) -> (r:
        Argon2i)
        ensures
            r.nonce@ == nonce@,
            r.time_cost == time_cost,
            r.memory_cost_mib == memory_cost_mib,
            r.parallelism == parallelism,
    {
        Argon2i { nonce, time_cost, memory_cost_mib, parallelism }
    }

    /// An instance with a fresh random 32-byte nonce.
    pub fn new(time_cost: u32, memory_cost_mib: u32, parallelism: u32) -> (r: Argon2i)
        ensures
            r.nonce@.len() == 32,
            r.time_cost == time_cost,
            r.memory_cost_mib == memory_cost_mib,
            r.parallelism == parallelism,
    {
        let mut nonce = zero_vec(32);
        random(&mut nonce);
        Argon2i { nonce, time_cost, memory_cost_mib, parallelism }
    }
}

impl Pbkdf for Argon2i {
    open spec fn derived_key(&self, password: Seq<u8>) -> Seq<u8> {
        fit(
            argon2i_v13_of(
                password,
                self.nonce@,
                self.time_cost,
                (self.memory_cost_mib * 1024) as u32,
                self.parallelism,
                32,
            ),
            32,
        )
    }

    open spec fn accepts(&self, password: Seq<u8>) -> bool {
        &&& self.memory_cost_mib as int * 1024 <= u32::MAX
        &&& argon2i_inputs_ok(
            password,
            self.nonce@,
            self.time_cost,
            (self.memory_cost_mib * 1024) as u32,
            self.parallelism,
            32,
        )
    }

    open spec fn fragment(&self) -> Seq<u8> {
        spec_pbkdf_fragment(self.nonce@, self.time_cost, self.memory_cost_mib, self.parallelism)
    }

    open spec fn algorithm_id(&self) -> Seq<u8> {
        pbkdf_algorithm_id()
    }

    open spec fn derive_rejection(&self, password: Seq<u8>) -> CpError {
        if self.memory_cost_mib as int * 1024 > u32::MAX as int {
            CpError::Unsupported
        } else {
            CpError::InvalidParameter
        }
    }

    open spec fn wf(&self) -> bool {
        self.nonce@.len() <= 0xFF00
    }

    fn derive(&self, password: &mut Vec<u8>) -> (r: Result<Key, CpError>) {
        let memory_cost_u64: u64 = (self.memory_cost_mib as u64) * 1024;
        let memory_cost_kib = match u64_to_u32(memory_cost_u64) {
            Ok(v) => v,
            Err(_) => {
                zeroize_bytes(password);
                return Err(CpError::Unsupported);
            },
        };
        let mut key = Key::new(32);
        let outcome = argon2i_v13(
            &mut key,
            password,
            &self.nonce,
            self.time_cost,
            memory_cost_kib,
            self.parallelism,
        );
        zeroize_bytes(password);
        match outcome {
            Ok(()) => Ok(key),
            Err(e) => Err(e),
        }
    }

    fn algorithm(&self) -> (r: &'static str) {
        let s = "Argon2i@v1.3";
        proof {
            assert(s@.map_values(|c: char| c as u8) =~= pbkdf_algorithm_id());
        }
        s
    }

    fn serialize(&self) -> (r: Vec<u8>) {
        pbkdf_fragment_vec(&self.nonce, self.time_cost, self.memory_cost_mib, self.parallelism)
    }
}

impl Argon2i {
    /// Parses the PBKDF fragment `data[start..end]`; the instance's own
    /// entry to the free parser, for callers that already know the
    /// algorithm family.
    pub fn from_serialized(data: &Vec<u8>, start: usize, end: usize) -> (r: Result<
        Argon2i,
        CpError,
    >)
        requires
            start <= end <= data@.len(),
        ensures
            r is Ok ==> r->Ok_0.nonce@.len() <= 0xFF00 && data@.subrange(start as int, end as int)
                == spec_pbkdf_fragment(
                r->Ok_0.nonce@,
                r->Ok_0.time_cost,
                r->Ok_0.memory_cost_mib,
                r->Ok_0.parallelism,
            ),
            r is Err ==> r->Err_0 == CpError::Unsupported || r->Err_0 == CpError::InvalidData(
                ErrorText::UnexpectedEndOfStream,
            ),
    {
        from_serialized(data, start, end)
    }
}

/// Converts losslessly to the wire's 32-bit range.
pub fn u64_to_u32(input: u64) -> (r: Result<u32, CpError>)
    ensures
        r is Ok <==> input <= u32::MAX,
        r is Ok ==> r->Ok_0 == input,
        r is Err ==> r->Err_0 == CpError::Unsupported,
{
    if input > 0xFFFFFFFFu64 {
        Err(CpError::Unsupported)
    } else {
        Ok(input as u32)
    }
}

/// Builds the PBKDF fragment for the given nonce and costs.
fn pbkdf_fragment_vec(nonce: &Vec<u8>, time_cost: u32, memory_cost_mib: u32, parallelism: u32) -> (r:
    Vec<u8>)
    requires
        nonce@.len() <= 0xFF00,
    ensures
        r@ == spec_pbkdf_fragment(nonce@, time_cost, memory_cost_mib, parallelism),
{
    proof {
        lemma_pbkdf_algorithm_id_len();
        lemma_der_uint_len(time_cost as nat);
        lemma_der_uint_len(memory_cost_mib as nat);
        lemma_der_uint_len(parallelism as nat);
    }
    let id = pbkdf_algorithm_id_vec();
    let id_tlv = der_tlv(TAG_UTF8STRING, &id);
    let nonce_tlv = der_tlv(TAG_OCTET_STRING, nonce);
    let t_content = der_uint(time_cost);
    let t_tlv = der_tlv(TAG_INTEGER, &t_content);
    let m_content = der_uint(memory_cost_mib);
    let m_tlv = der_tlv(TAG_INTEGER, &m_content);
    let p_content = der_uint(parallelism);
    let p_tlv = der_tlv(TAG_INTEGER, &p_content);
    let mut params = nonce_tlv;
    append_bytes(&mut params, &t_tlv);
    append_bytes(&mut params, &m_tlv);
    append_bytes(&mut params, &p_tlv);
    assert(params@ =~= spec_pbkdf_params(nonce@, time_cost, memory_cost_mib, parallelism));
    assert(params@.len() < 0x10000) by {
        assert(spec_der_len_bytes(nonce@.len()).len() <= 3);
    }
    let params_tlv = der_tlv(TAG_SEQUENCE, &params);
    let mut body = id_tlv;
    append_bytes(&mut body, &params_tlv);
    let r = der_tlv(TAG_SEQUENCE, &body);
    assert(r@ =~= spec_pbkdf_fragment(nonce@, time_cost, memory_cost_mib, parallelism));
    r
}

/// The byte-level consequences of a canonical PBKDF fragment standing at
/// `data[start..end]`: where each nested value sits, and what it forces.
proof fn lemma_pbkdf_layout(data: Seq<u8>, start: int, end: int, n: Seq<u8>, t: u32, m: u32, p: u32)
    requires
        0 <= start <= end <= data.len(),
        n.len() <= 0xFF00,
        data.subrange(start, end) == spec_pbkdf_fragment(n, t, m, p),
    ensures
        spec_pbkdf_layout_holds(data, start, end, n, t, m, p),
{
    lemma_pbkdf_algorithm_id_len();
    lemma_der_uint_len(t as nat);
    lemma_der_uint_len(m as nat);
    lemma_der_uint_len(p as nat);
    let id = pbkdf_algorithm_id();
    let idt = spec_der_tlv(TAG_UTF8STRING, id);
    let params = spec_pbkdf_params(n, t, m, p);
    let pt = spec_der_tlv(TAG_SEQUENCE, params);
    let body = idt + pt;
    let ntlv = spec_der_tlv(TAG_OCTET_STRING, n);
    let ttlv = spec_der_tlv(TAG_INTEGER, spec_der_uint(t as nat));
    let mtlv = spec_der_tlv(TAG_INTEGER, spec_der_uint(m as nat));
    let ptlv = spec_der_tlv(TAG_INTEGER, spec_der_uint(p as nat));
    assert(spec_der_len_bytes(n.len()).len() <= 3);
    assert(ntlv.len() <= 4 + n.len());
    assert(params.len() < 0x10000);
    assert(spec_der_len_bytes(params.len()).len() <= 3);
    assert(body.len() < 0x10000);
    let oh = 1 + spec_der_len_bytes(body.len()).len();
    let whole = spec_pbkdf_fragment(n, t, m, p);
    assert(whole.len() == oh + body.len());
    lemma_prefix_at(data, start, whole);
    assert(spec_der_tlv(TAG_SEQUENCE, body).is_prefix_of(data.skip(start)));
    // Split off the outer tag-and-length prefix, then the body parts.
    assert(whole == (seq![TAG_SEQUENCE] + spec_der_len_bytes(body.len())) + body) by {
        assert(whole =~= (seq![TAG_SEQUENCE] + spec_der_len_bytes(body.len())) + body);
    }
    lemma_concat_structure(
        data,
        start,
        seq![TAG_SEQUENCE] + spec_der_len_bytes(body.len()),
        body,
    );
    assert(data.subrange(start + oh, start + oh + body.len()) == body);
    lemma_concat_structure(data, start + oh, idt, pt);
    lemma_prefix_at(data, start + oh, idt);
    lemma_prefix_at(data, start + oh + idt.len(), pt);
    // The identifier bytes inside the identifier value.
    assert(idt == (seq![TAG_UTF8STRING] + spec_der_len_bytes(id.len())) + id) by {
        assert(idt =~= (seq![TAG_UTF8STRING] + spec_der_len_bytes(id.len())) + id);
    }
    lemma_concat_structure(
        data,
        start + oh,
        seq![TAG_UTF8STRING] + spec_der_len_bytes(id.len()),
        id,
    );
    assert(data.subrange(start + oh + 2, start + oh + 2 + 12) == id);
    // The parameter block inside its SEQUENCE.
    let ph = 1 + spec_der_len_bytes(params.len()).len();
    assert(pt == (seq![TAG_SEQUENCE] + spec_der_len_bytes(params.len())) + params) by {
        assert(pt =~= (seq![TAG_SEQUENCE] + spec_der_len_bytes(params.len())) + params);
    }
    lemma_concat_structure(
        data,
        start + oh + idt.len(),
        seq![TAG_SEQUENCE] + spec_der_len_bytes(params.len()),
        params,
    );
    let q = start + oh + idt.len() + ph;
    assert(data.subrange(q, q + params.len()) == params);
    // Peel the four parameter values off one another.
    assert(params == ntlv + (ttlv + (mtlv + ptlv))) by {
        assert(params =~= ntlv + (ttlv + (mtlv + ptlv)));
    }
    lemma_concat_structure(data, q, ntlv, ttlv + (mtlv + ptlv));
    lemma_prefix_at(data, q, ntlv);
    let q1 = q + ntlv.len();
    lemma_concat_structure(data, q1, ttlv, mtlv + ptlv);
    lemma_prefix_at(data, q1, ttlv);
    let q2 = q1 + ttlv.len();
    lemma_concat_structure(data, q2, mtlv, ptlv);
    lemma_prefix_at(data, q2, mtlv);
    let q3 = q2 + mtlv.len();
    lemma_prefix_at(data, q3, ptlv);
    // The nonce bytes inside the OCTET STRING.
    let nh = 1 + spec_der_len_bytes(n.len()).len();
    assert(ntlv == (seq![TAG_OCTET_STRING] + spec_der_len_bytes(n.len())) + n) by {
        assert(ntlv =~= (seq![TAG_OCTET_STRING] + spec_der_len_bytes(n.len())) + n);
    }
    lemma_concat_structure(data, q, seq![TAG_OCTET_STRING] + spec_der_len_bytes(n.len()), n);
    assert(data.subrange(q + nh, q + nh + n.len()) == n);
    // The integer contents inside their INTEGER values.
    assert(ttlv == (seq![TAG_INTEGER] + spec_der_len_bytes(spec_der_uint(t as nat).len()))
        + spec_der_uint(t as nat)) by {
        assert(ttlv =~= (seq![TAG_INTEGER] + spec_der_len_bytes(spec_der_uint(t as nat).len()))
            + spec_der_uint(t as nat));
    }
    lemma_concat_structure(
        data,
        q1,
        seq![TAG_INTEGER] + spec_der_len_bytes(spec_der_uint(t as nat).len()),
        spec_der_uint(t as nat),
    );
    assert(mtlv == (seq![TAG_INTEGER] + spec_der_len_bytes(spec_der_uint(m as nat).len()))
        + spec_der_uint(m as nat)) by {
        assert(mtlv =~= (seq![TAG_INTEGER] + spec_der_len_bytes(spec_der_uint(m as nat).len()))
            + spec_der_uint(m as nat));
    }
    lemma_concat_structure(
        data,
        q2,
        seq![TAG_INTEGER] + spec_der_len_bytes(spec_der_uint(m as nat).len()),
        spec_der_uint(m as nat),
    );
    assert(ptlv == (seq![TAG_INTEGER] + spec_der_len_bytes(spec_der_uint(p as nat).len()))
        + spec_der_uint(p as nat)) by {
        assert(ptlv =~= (seq![TAG_INTEGER] + spec_der_len_bytes(spec_der_uint(p as nat).len()))
            + spec_der_uint(p as nat));
    }
    lemma_concat_structure(
        data,
        q3,
        seq![TAG_INTEGER] + spec_der_len_bytes(spec_der_uint(p as nat).len()),
        spec_der_uint(p as nat),
    );
}

/// Parses the PBKDF fragment `data[start..end]` of a stream header.
/// Succeeds exactly on a canonical fragment; a well-formed fragment
/// naming another algorithm is unsupported, anything else malformed.
#[verifier::rlimit(100)]
pub fn from_serialized(data: &Vec<u8>, start: usize, end: usize) -> (r: Result<Argon2i, CpError>)
    requires
        start <= end <= data@.len(),
    ensures
        r is Ok ==> r->Ok_0.nonce@.len() <= 0xFF00 && data@.subrange(start as int, end as int)
            == spec_pbkdf_fragment(
            r->Ok_0.nonce@,
            r->Ok_0.time_cost,
            r->Ok_0.memory_cost_mib,
            r->Ok_0.parallelism,
        ),
        forall|n: Seq<u8>, t: u32, m: u32, p: u32|
            (n.len() <= 0xFF00 && data@.subrange(start as int, end as int)
                == #[trigger] spec_pbkdf_fragment(n, t, m, p)) ==> r is Ok && r->Ok_0.nonce@ == n
                && r->Ok_0.time_cost == t && r->Ok_0.memory_cost_mib == m && r->Ok_0.parallelism
                == p,
        r is Err ==> r->Err_0 == CpError::Unsupported || r->Err_0 == CpError::InvalidData(
            ErrorText::UnexpectedEndOfStream,
        ),
{
    proof {
        lemma_pbkdf_algorithm_id_len();
        vstd::std_specs::vec::axiom_spec_len(data);
    }
    let ghost whole = data@.subrange(start as int, end as int);
    let outer = match der_read_tlv(data, start) {
        Ok(h) => h,
        Err(e) => {
            proof {
                pbkdf_no_witness(data@, start as int, end as int);
            }
            return Err(e);
        },
    };
    let (outer_tag, outer_clen, outer_hlen) = outer;
    if !(outer_tag == TAG_SEQUENCE && start + outer_hlen + outer_clen == end) {
        proof {
            pbkdf_no_witness(data@, start as int, end as int);
        }
        return Err(CpError::InvalidData(ErrorText::UnexpectedEndOfStream));
    }
    let p0 = start + outer_hlen;
    let id_header = match der_read_tlv(data, p0) {
        Ok(h) => h,
        Err(e) => {
            proof {
                pbkdf_no_witness(data@, start as int, end as int);
            }
            return Err(e);
        },
    };
    let (id_tag, id_clen, id_hlen) = id_header;
    if !(id_tag == TAG_UTF8STRING && p0 + id_hlen + id_clen <= end) {
        proof {
            pbkdf_no_witness(data@, start as int, end as int);
        }
        return Err(CpError::InvalidData(ErrorText::UnexpectedEndOfStream));
    }
    let id = pbkdf_algorithm_id_vec();
    if !bytes_range_eq(data, p0 + id_hlen, p0 + id_hlen + id_clen, &id) {
        proof {
            pbkdf_no_witness(data@, start as int, end as int);
        }
        return Err(CpError::Unsupported);
    }
    let p1 = p0 + id_hlen + id_clen;
    let params_header = match der_read_tlv(data, p1) {
        Ok(h) => h,
        Err(e) => {
            proof {
                pbkdf_no_witness(data@, start as int, end as int);
            }
            return Err(e);
        },
    };
    let (params_tag, params_clen, params_hlen) = params_header;
    if !(params_tag == TAG_SEQUENCE && p1 + params_hlen + params_clen == end) {
        proof {
            pbkdf_no_witness(data@, start as int, end as int);
        }
        return Err(CpError::InvalidData(ErrorText::UnexpectedEndOfStream));
    }
    let q = p1 + params_hlen;
    let nonce_header = match der_read_tlv(data, q) {
        Ok(h) => h,
        Err(e) => {
            proof {
                pbkdf_no_witness(data@, start as int, end as int);
            }
            return Err(e);
        },
    };
    let (nonce_tag, nonce_clen, nonce_hlen) = nonce_header;
    if !(nonce_tag == TAG_OCTET_STRING && q + nonce_hlen + nonce_clen <= end && nonce_clen
        <= 0xFF00) {
        proof {
            pbkdf_no_witness(data@, start as int, end as int);
        }
        return Err(CpError::InvalidData(ErrorText::UnexpectedEndOfStream));
    }
    let nonce_vec = vstd::slice::slice_to_vec(
        vstd::slice::slice_subrange(data.as_slice(), q + nonce_hlen, q + nonce_hlen + nonce_clen),
    );
    let q1 = q + nonce_hlen + nonce_clen;
    let (time_cost, q2) = match read_cost(data, q1, end) {
        Ok(v) => v,
        Err(e) => {
            proof {
                pbkdf_no_witness(data@, start as int, end as int);
            }
            return Err(e);
        },
    };
    let (memory_cost_mib, q3) = match read_cost(data, q2, end) {
        Ok(v) => v,
        Err(e) => {
            proof {
                pbkdf_no_witness(data@, start as int, end as int);
            }
            return Err(e);
        },
    };
    let (parallelism, q4) = match read_cost(data, q3, end) {
        Ok(v) => v,
        Err(e) => {
            proof {
                pbkdf_no_witness(data@, start as int, end as int);
            }
            return Err(e);
        },
    };
    if q4 != end {
        proof {
            pbkdf_no_witness(data@, start as int, end as int);
        }
        return Err(CpError::InvalidData(ErrorText::UnexpectedEndOfStream));
    }
    let candidate = Argon2i { nonce: nonce_vec, time_cost, memory_cost_mib, parallelism };
    let ser = pbkdf_fragment_vec(
        &candidate.nonce,
        candidate.time_cost,
        candidate.memory_cost_mib,
        candidate.parallelism,
    );
    if !bytes_range_eq(data, start, end, &ser) {
        proof {
            pbkdf_no_witness(data@, start as int, end as int);
        }
        return Err(CpError::InvalidData(ErrorText::UnexpectedEndOfStream));
    }
    proof {
        assert forall|n: Seq<u8>, t: u32, m: u32, p: u32|
            (n.len() <= 0xFF00 && whole == #[trigger] spec_pbkdf_fragment(n, t, m, p)) implies (
        candidate.nonce@ == n && candidate.time_cost == t && candidate.memory_cost_mib == m
            && candidate.parallelism == p) by {
            lemma_pbkdf_layout(data@, start as int, end as int, n, t, m, p);
        }
    }
    Ok(candidate)
}

/// Marker for the sites where the parse has failed: under any canonical
/// witness the layout facts contradict the failed check, so no witness
/// exists.  (The body instantiates the layout for every candidate.)
proof fn pbkdf_no_witness(data: Seq<u8>, start: int, end: int)
    requires
        0 <= start <= end <= data.len(),
    ensures
        forall|n: Seq<u8>, t: u32, m: u32, p: u32|
            (n.len() <= 0xFF00 && data.subrange(start, end) == #[trigger] spec_pbkdf_fragment(
                n,
                t,
                m,
                p,
            )) ==> spec_pbkdf_layout_holds(data, start, end, n, t, m, p),
{
    assert forall|n: Seq<u8>, t: u32, m: u32, p: u32|
        (n.len() <= 0xFF00 && data.subrange(start, end) == #[trigger] spec_pbkdf_fragment(
            n,
            t,
            m,
            p,
        )) implies spec_pbkdf_layout_holds(data, start, end, n, t, m, p) by {
        lemma_pbkdf_layout(data, start, end, n, t, m, p);
    }
}

/// The layout facts of `lemma_pbkdf_layout`, as one predicate.
pub open spec fn spec_pbkdf_layout_holds(
    data: Seq<u8>,
    start: int,
    end: int,
    n: Seq<u8>,
    t: u32,
    m: u32,
    p: u32,
) -> bool {
    let id = pbkdf_algorithm_id();
    let idt = spec_der_tlv(TAG_UTF8STRING, id);
    let params = spec_pbkdf_params(n, t, m, p);
    let pt = spec_der_tlv(TAG_SEQUENCE, params);
    let body = idt + pt;
    let oh = 1 + spec_der_len_bytes(body.len()).len();
    let q = start + oh + idt.len() + 1 + spec_der_len_bytes(params.len()).len();
    let ntlv = spec_der_tlv(TAG_OCTET_STRING, n);
    let nh = 1 + spec_der_len_bytes(n.len()).len();
    let ttlv = spec_der_tlv(TAG_INTEGER, spec_der_uint(t as nat));
    let mtlv = spec_der_tlv(TAG_INTEGER, spec_der_uint(m as nat));
    let ptlv = spec_der_tlv(TAG_INTEGER, spec_der_uint(p as nat));
    let q1 = q + ntlv.len();
    let q2 = q1 + ttlv.len();
    let q3 = q2 + mtlv.len();
    &&& body.len() < 0x10000
    &&& params.len() < 0x10000
    &&& spec_der_tlv(TAG_SEQUENCE, body).is_prefix_of(data.skip(start))
    &&& start + oh + body.len() == end
    &&& idt.is_prefix_of(data.skip(start + oh))
    &&& data.subrange(start + oh + 2, start + oh + 2 + 12) == id
    &&& pt.is_prefix_of(data.skip(start + oh + idt.len()))
    &&& ntlv.is_prefix_of(data.skip(q))
    &&& data.subrange(q + nh, q + nh + n.len()) == n
    &&& ttlv.is_prefix_of(data.skip(q1))
    &&& data.subrange(q1 + 2, q1 + 2 + spec_der_uint(t as nat).len()) == spec_der_uint(t as nat)
    &&& mtlv.is_prefix_of(data.skip(q2))
    &&& data.subrange(q2 + 2, q2 + 2 + spec_der_uint(m as nat).len()) == spec_der_uint(m as nat)
    &&& ptlv.is_prefix_of(data.skip(q3))
    &&& data.subrange(q3 + 2, q3 + 2 + spec_der_uint(p as nat).len()) == spec_der_uint(p as nat)
    &&& q3 + ptlv.len() == end
}

/// Reads one cost INTEGER at `pos`; returns the value and the position
/// after it.
fn read_cost(data: &Vec<u8>, pos: usize, end: usize) -> (r: Result<(u32, usize), CpError>)
    requires
        pos <= end <= data@.len(),
    ensures
        r is Ok ==> {
            let (v, next) = r->Ok_0;
            &&& pos < next <= end
            &&& next - pos == 2 + spec_der_uint(v as nat).len()
            &&& data@.subrange(pos as int, next as int) == spec_der_tlv(
                TAG_INTEGER,
                spec_der_uint(v as nat),
            )
        },
        forall|v: u32|
            #[trigger] spec_der_tlv(TAG_INTEGER, spec_der_uint(v as nat)).is_prefix_of(
                data@.skip(pos as int),
            ) && pos + spec_der_tlv(TAG_INTEGER, spec_der_uint(v as nat)).len() <= end ==> r is Ok
                && r->Ok_0.0 == v && pos + spec_der_tlv(
                TAG_INTEGER,
                spec_der_uint(v as nat),
            ).len() == r->Ok_0.1,
        r is Err ==> r->Err_0 == CpError::Unsupported || r->Err_0 == CpError::InvalidData(
            ErrorText::UnexpectedEndOfStream,
        ),
{
    proof {
        vstd::std_specs::vec::axiom_spec_len(data);
        assert forall|v: u32| (#[trigger] spec_der_uint(v as nat)).len() <= 5 by {
            lemma_der_uint_len(v as nat);
        }
    }
    let header = match der_read_tlv(data, pos) {
        Ok(h) => h,
        Err(e) => {
            return Err(e);
        },
    };
    let (tag, clen, hlen) = header;
    if !(tag == TAG_INTEGER && pos + hlen + clen <= end && hlen == 2) {
        return Err(CpError::InvalidData(ErrorText::UnexpectedEndOfStream));
    }
    proof {
        assert forall|v: u32|
            #[trigger] spec_der_tlv(TAG_INTEGER, spec_der_uint(v as nat)).is_prefix_of(
                data@.skip(pos as int),
            ) implies data@.subrange(pos + 2, pos + 2 + spec_der_uint(v as nat).len())
            == spec_der_uint(v as nat) by {
            lemma_der_uint_len(v as nat);
            let tlv = spec_der_tlv(TAG_INTEGER, spec_der_uint(v as nat));
            crate::der::lemma_subrange_from_prefix(data@, pos as int, tlv);
            assert(tlv == (seq![TAG_INTEGER] + spec_der_len_bytes(spec_der_uint(v as nat).len()))
                + spec_der_uint(v as nat)) by {
                assert(tlv =~= (seq![TAG_INTEGER] + spec_der_len_bytes(
                    spec_der_uint(v as nat).len(),
                )) + spec_der_uint(v as nat));
            }
            lemma_concat_structure(
                data@,
                pos as int,
                seq![TAG_INTEGER] + spec_der_len_bytes(spec_der_uint(v as nat).len()),
                spec_der_uint(v as nat),
            );
        }
    }
    let value64 = match der_read_uint(data, pos + hlen, pos + hlen + clen) {
        Ok(v) => v,
        Err(e) => {
            return Err(e);
        },
    };
    let value = match u64_to_u32(value64) {
        Ok(v) => v,
        Err(e) => {
            return Err(e);
        },
    };
    proof {
        lemma_der_uint_len(value as nat);
        assert(data@.subrange(pos as int, pos + hlen + clen) =~= spec_der_tlv(
            TAG_INTEGER,
            spec_der_uint(value as nat),
        )) by {
            assert(data@.subrange(pos as int, pos + hlen) == seq![TAG_INTEGER]
                + spec_der_len_bytes(clen as nat));
            assert(data@.subrange(pos + hlen, pos + hlen + clen) == spec_der_uint(value as nat));
            assert forall|i: int| 0 <= i < hlen + clen implies data@.subrange(
                pos as int,
                pos + hlen + clen,
            )[i] == spec_der_tlv(TAG_INTEGER, spec_der_uint(value as nat))[i] by {
                if i < hlen {
                    assert(data@.subrange(pos as int, pos + hlen)[i] == data@[pos + i]);
                } else {
                    assert(data@.subrange(pos + hlen, pos + hlen + clen)[i - hlen] == data@[pos
                        + i]);
                }
            }
        }
        assert forall|v: u32|
            #[trigger] spec_der_tlv(TAG_INTEGER, spec_der_uint(v as nat)).is_prefix_of(
                data@.skip(pos as int),
            ) && pos + spec_der_tlv(TAG_INTEGER, spec_der_uint(v as nat)).len() <= end implies (
        value == v && pos + spec_der_tlv(TAG_INTEGER, spec_der_uint(v as nat)).len() == pos + hlen
            + clen) by {
            lemma_der_uint_len(v as nat);
        }
    }
    Ok((value, pos + hlen + clen))
}

} // verus!
