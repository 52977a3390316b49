//! The stream instance: the version string and the three algorithm
//! capabilities that one stream uses, together with the container header
//! that carries them.

use vstd::prelude::*;
use vstd::string::{is_ascii, is_ascii_spec_bytes, StringSliceAdditionalSpecFns};
use crate::error::{CpError, ErrorText};
use crate::der::{
    spec_der_tlv, spec_der_len_bytes, spec_len_probe, LenProbe, probe_len, der_tlv, der_read_tlv,
    bytes_range_eq, append_bytes, lemma_prefix_at, lemma_concat_structure, lemma_join_concat,
    TAG_SEQUENCE, TAG_UTF8STRING,
};
use crate::pbkdf::{Pbkdf, Argon2i, spec_pbkdf_fragment, lemma_pbkdf_algorithm_id_len};
use crate::kdf::{Kdf, HmacSha2512, spec_kdf_fragment, lemma_kdf_algorithm_id_len};
use crate::auth_enc::{AuthEnc, ChaCha20Poly1305, spec_aead_fragment, lemma_aead_algorithm_id_len};

verus! {

/// The container version string.
pub open spec fn stream_version_id() -> Seq<u8> {
    "de.KizzyCode.CryptoPipe.v1"@.map_values(|c: char| c as u8)
}

/// The version string spans twenty-six octets.
pub proof fn lemma_stream_version_id_len()
    ensures
        stream_version_id().len() == 26,
{
    reveal_strlit("de.KizzyCode.CryptoPipe.v1");
}

/// The version string, as bytes for the wire.
fn stream_version_id_vec() -> (r: Vec<u8>)
    ensures
        r@ == stream_version_id(),
        r@.len() == 26,
{
    let s = "de.KizzyCode.CryptoPipe.v1";
    proof {
        reveal_strlit("de.KizzyCode.CryptoPipe.v1");
        assert(is_ascii(s));
        is_ascii_spec_bytes(s);
        assert(s.spec_bytes() =~= stream_version_id());
    }
    vstd::slice::slice_to_vec(s.as_bytes())
}

/// The whole stream header for the given PBKDF parameters: a SEQUENCE of
/// the version string and the three algorithm fragments.
pub open spec fn spec_header(n: Seq<u8>, t: u32, m: u32, p: u32) -> Seq<u8> {
    spec_der_tlv(
        TAG_SEQUENCE,
        spec_der_tlv(TAG_UTF8STRING, stream_version_id()) + spec_pbkdf_fragment(n, t, m, p)
            + spec_kdf_fragment() + spec_aead_fragment(),
    )
}

/// The algorithm instances that drive one stream.
#[derive(Debug)]
pub struct StreamInstance {
    /// The password-based key derivation, with its parameters.
    pub pbkdf: Argon2i,
    /// The per-chunk key derivation.
    pub kdf: HmacSha2512,
    /// The chunk sealing scheme.
    pub auth_enc: ChaCha20Poly1305,
}

impl StreamInstance {
    /// The header this instance serializes to.
    pub open spec fn header(&self) -> Seq<u8> {
        spec_header(
            self.pbkdf.nonce@,
            self.pbkdf.time_cost,
            self.pbkdf.memory_cost_mib,
            self.pbkdf.parallelism,
        )
    }

    /// Whether the instance's parameters fit the wire format.
    pub open spec fn wf(&self) -> bool {
        self.pbkdf.wf()
    }

    /// Wraps the given algorithm instances.
    pub fn new(pbkdf: Argon2i, kdf: HmacSha2512, auth_enc: ChaCha20Poly1305) -> (r: StreamInstance)
        ensures
            r.pbkdf == pbkdf,
            r.kdf == kdf,
            r.auth_enc == auth_enc,
    {
        StreamInstance { pbkdf, kdf, auth_enc }
    }

    /// Decodes, from a prefix of a stream, the total length of the
    /// header: more bytes may be needed, or the length prefix may be
    /// unacceptable.
    pub fn try_parse_length(data: &Vec<u8>) -> (r: Result<Option<usize>, CpError>)
        ensures
            r is Ok && r->Ok_0 is None <==> spec_len_probe(data@) is NeedMore,
            r is Ok && r->Ok_0 is Some <==> spec_len_probe(data@) is Total,
            spec_len_probe(data@) is Total ==> r->Ok_0->Some_0 == spec_len_probe(data@)->Total_0,
            r is Err <==> spec_len_probe(data@) is Malformed,
            r is Err ==> r->Err_0 == CpError::InvalidData(ErrorText::UnexpectedEndOfStream),
    {
        match probe_len(data) {
            LenProbe::NeedMore => Ok(None),
            LenProbe::Total(total) => Ok(Some(total)),
            LenProbe::Malformed => Err(CpError::InvalidData(ErrorText::UnexpectedEndOfStream)),
        }
    }

    /// Serializes the stream header.
    pub fn as_serialized(&self) -> (r: Vec<u8>)
        requires
            self.wf(),
        ensures
            r@ == self.header(),
    {
        proof {
            lemma_stream_version_id_len();
            lemma_pbkdf_algorithm_id_len();
            lemma_kdf_algorithm_id_len();
            lemma_aead_algorithm_id_len();
        }
        let version = stream_version_id_vec();
        let version_tlv = der_tlv(TAG_UTF8STRING, &version);
        let pbkdf_frag = self.pbkdf.serialize();
        let kdf_frag = self.kdf.serialize();
        let aead_frag = self.auth_enc.serialize();
        proof {
            lemma_fragment_lens(
                self.pbkdf.nonce@,
                self.pbkdf.time_cost,
                self.pbkdf.memory_cost_mib,
                self.pbkdf.parallelism,
            );
        }
        let mut content = version_tlv;
        append_bytes(&mut content, &pbkdf_frag);
        append_bytes(&mut content, &kdf_frag);
        append_bytes(&mut content, &aead_frag);
        assert(content@ =~= spec_der_tlv(TAG_UTF8STRING, stream_version_id())
            + spec_pbkdf_fragment(
            self.pbkdf.nonce@,
            self.pbkdf.time_cost,
            self.pbkdf.memory_cost_mib,
            self.pbkdf.parallelism,
        ) + spec_kdf_fragment() + spec_aead_fragment());
        let r = der_tlv(TAG_SEQUENCE, &content);
        r
    }

    /// Parses a stream header.  Succeeds exactly on a canonical header
    /// whose version and algorithms are the supported ones.
    #[verifier::rlimit(100)]
    pub fn from_serialized(data: &Vec<u8>) -> (r: Result<StreamInstance, CpError>)
        ensures
            r is Ok ==> r->Ok_0.wf() && data@ == r->Ok_0.header(),
            forall|n: Seq<u8>, t: u32, m: u32, p: u32|
                (n.len() <= 0xFF00 && data@ == #[trigger] spec_header(n, t, m, p)) ==> r is Ok
                    && r->Ok_0.pbkdf.nonce@ == n && r->Ok_0.pbkdf.time_cost == t
                    && r->Ok_0.pbkdf.memory_cost_mib == m && r->Ok_0.pbkdf.parallelism == p,
            r is Err ==> r->Err_0 == CpError::Unsupported || r->Err_0 == CpError::InvalidData(
                ErrorText::UnexpectedEndOfStream,
            ),
    {
        proof {
            lemma_stream_version_id_len();
            vstd::std_specs::vec::axiom_spec_len(data);
        }
        let end = data.len();
        let outer = match der_read_tlv(data, 0) {
            Ok(h) => h,
            Err(e) => {
                proof {
                    header_no_witness(data@);
                }
                return Err(e);
            },
        };
        let (outer_tag, outer_clen, outer_hlen) = outer;
        if !(outer_tag == TAG_SEQUENCE && outer_hlen + outer_clen == end) {
            proof {
                header_no_witness(data@);
            }
            return Err(CpError::InvalidData(ErrorText::UnexpectedEndOfStream));
        }
        let p0 = outer_hlen;
        let version_header = match der_read_tlv(data, p0) {
            Ok(h) => h,
            Err(e) => {
                proof {
                    header_no_witness(data@);
                }
                return Err(e);
            },
        };
        let (version_tag, version_clen, version_hlen) = version_header;
        if !(version_tag == TAG_UTF8STRING && p0 + version_hlen + version_clen <= end) {
            proof {
                header_no_witness(data@);
            }
            return Err(CpError::InvalidData(ErrorText::UnexpectedEndOfStream));
        }
        let version = stream_version_id_vec();
        if !bytes_range_eq(data, p0 + version_hlen, p0 + version_hlen + version_clen, &version) {
            proof {
                header_no_witness(data@);
            }
            return Err(CpError::Unsupported);
        }
        let p1 = p0 + version_hlen + version_clen;
        let pbkdf_header = match der_read_tlv(data, p1) {
            Ok(h) => h,
            Err(e) => {
                proof {
                    header_no_witness(data@);
                }
                return Err(e);
            },
        };
        let e1 = p1 + pbkdf_header.2 + pbkdf_header.1;
        if e1 > end {
            proof {
                header_no_witness(data@);
            }
            return Err(CpError::InvalidData(ErrorText::UnexpectedEndOfStream));
        }
        let pbkdf = match crate::pbkdf::from_serialized(data, p1, e1) {
            Ok(a) => a,
            Err(e) => {
                proof {
                    header_no_witness(data@);
                }
                return Err(e);
            },
        };
        let p2 = e1;
        let kdf_header = match der_read_tlv(data, p2) {
            Ok(h) => h,
            Err(e) => {
                proof {
                    header_no_witness(data@);
                }
                return Err(e);
            },
        };
        let e2 = p2 + kdf_header.2 + kdf_header.1;
        if e2 > end {
            proof {
                header_no_witness(data@);
            }
            return Err(CpError::InvalidData(ErrorText::UnexpectedEndOfStream));
        }
        let kdf = match crate::kdf::from_serialized(data, p2, e2) {
            Ok(k) => k,
            Err(e) => {
                proof {
                    header_no_witness(data@);
                }
                return Err(e);
            },
        };
        let p3 = e2;
        let aead_header = match der_read_tlv(data, p3) {
            Ok(h) => h,
            Err(e) => {
                proof {
                    header_no_witness(data@);
                }
                return Err(e);
            },
        };
        let e3 = p3 + aead_header.2 + aead_header.1;
        if e3 != end {
            proof {
                header_no_witness(data@);
            }
            return Err(CpError::InvalidData(ErrorText::UnexpectedEndOfStream));
        }
        let auth_enc = match crate::auth_enc::from_serialized(data, p3, e3) {
            Ok(a) => a,
            Err(e) => {
                proof {
                    header_no_witness(data@);
                }
                return Err(e);
            },
        };
        let instance = StreamInstance { pbkdf, kdf, auth_enc };
        proof {
            // Reassemble: the four parsed regions join into the header.
            lemma_pbkdf_algorithm_id_len();
            lemma_kdf_algorithm_id_len();
            lemma_aead_algorithm_id_len();
            let ver_tlv = spec_der_tlv(TAG_UTF8STRING, stream_version_id());
            let pbf = spec_pbkdf_fragment(
                instance.pbkdf.nonce@,
                instance.pbkdf.time_cost,
                instance.pbkdf.memory_cost_mib,
                instance.pbkdf.parallelism,
            );
            let kdff = spec_kdf_fragment();
            let aeadf = spec_aead_fragment();
            assert(data@.subrange(p0 as int, p1 as int) =~= ver_tlv) by {
                assert(data@.subrange(p0 as int, p0 + version_hlen) == seq![TAG_UTF8STRING]
                    + spec_der_len_bytes(version_clen as nat));
                assert(data@.subrange(p0 + version_hlen, p1 as int) == stream_version_id());
                lemma_join_concat(
                    data@,
                    p0 as int,
                    seq![TAG_UTF8STRING] + spec_der_len_bytes(version_clen as nat),
                    stream_version_id(),
                );
            }
            lemma_join_concat(data@, p0 as int, ver_tlv, pbf);
            lemma_join_concat(data@, p0 as int, ver_tlv + pbf, kdff);
            lemma_join_concat(data@, p0 as int, ver_tlv + pbf + kdff, aeadf);
            let content = ver_tlv + pbf + kdff + aeadf;
            assert(data@.subrange(0, p0 as int) == seq![TAG_SEQUENCE] + spec_der_len_bytes(
                outer_clen as nat,
            ));
            assert(outer_clen == content.len());
            lemma_join_concat(
                data@,
                0,
                seq![TAG_SEQUENCE] + spec_der_len_bytes(content.len()),
                content,
            );
            assert(data@.subrange(0, end as int) =~= data@);
            assert(data@ == instance.header());
            assert forall|n: Seq<u8>, t: u32, m: u32, p: u32|
                (n.len() <= 0xFF00 && data@ == #[trigger] spec_header(n, t, m, p)) implies (
            instance.pbkdf.nonce@ == n && instance.pbkdf.time_cost == t
                && instance.pbkdf.memory_cost_mib == m && instance.pbkdf.parallelism == p) by {
                lemma_header_layout(data@, n, t, m, p);
            }
        }
        Ok(instance)
    }
}

/// The layout facts of a canonical header filling `data`.
pub open spec fn spec_header_layout_holds(
    data: Seq<u8>,
    n: Seq<u8>,
    t: u32,
    m: u32,
    p: u32,
) -> bool {
    let ver_tlv = spec_der_tlv(TAG_UTF8STRING, stream_version_id());
    let pbf = spec_pbkdf_fragment(n, t, m, p);
    let kdff = spec_kdf_fragment();
    let aeadf = spec_aead_fragment();
    let content = ver_tlv + pbf + kdff + aeadf;
    let oh = 1 + spec_der_len_bytes(content.len()).len();
    let pp = oh + ver_tlv.len();
    let pk = pp + pbf.len();
    let pa = pk + kdff.len();
    &&& content.len() < 0x10000
    &&& spec_der_tlv(TAG_SEQUENCE, content).is_prefix_of(data.skip(0))
    &&& oh + content.len() == data.len()
    &&& ver_tlv.is_prefix_of(data.skip(oh as int))
    &&& data.subrange(oh + 2int, oh + 2 + 26int) == stream_version_id()
    &&& spec_der_tlv(
        TAG_SEQUENCE,
        spec_der_tlv(TAG_UTF8STRING, crate::pbkdf::pbkdf_algorithm_id()) + spec_der_tlv(
            TAG_SEQUENCE,
            crate::pbkdf::spec_pbkdf_params(n, t, m, p),
        ),
    ).is_prefix_of(data.skip(pp as int))
    &&& data.subrange(pp as int, pk as int) == pbf
    &&& spec_der_tlv(
        TAG_SEQUENCE,
        spec_der_tlv(TAG_UTF8STRING, crate::kdf::kdf_algorithm_id()),
    ).is_prefix_of(data.skip(pk as int))
    &&& data.subrange(pk as int, pa as int) == kdff
    &&& spec_der_tlv(
        TAG_SEQUENCE,
        spec_der_tlv(TAG_UTF8STRING, crate::auth_enc::aead_algorithm_id()),
    ).is_prefix_of(data.skip(pa as int))
    &&& data.subrange(pa as int, data.len() as int) == aeadf
    &&& pa + aeadf.len() == data.len()
}

/// Bounds on the fragment lengths for a nonce that fits the wire format.
proof fn lemma_fragment_lens(n: Seq<u8>, t: u32, m: u32, p: u32)
    requires
        n.len() <= 0xFF00,
    ensures
        spec_pbkdf_fragment(n, t, m, p).len() < 0xFFA0,
        spec_kdf_fragment().len() == 17,
        spec_aead_fragment().len() == 48,
        spec_der_tlv(TAG_UTF8STRING, stream_version_id()).len() == 28,
{
    lemma_stream_version_id_len();
    lemma_pbkdf_algorithm_id_len();
    lemma_kdf_algorithm_id_len();
    lemma_aead_algorithm_id_len();
    crate::der::lemma_der_uint_len(t as nat);
    crate::der::lemma_der_uint_len(m as nat);
    crate::der::lemma_der_uint_len(p as nat);
    let params = crate::pbkdf::spec_pbkdf_params(n, t, m, p);
    assert(spec_der_len_bytes(n.len()).len() <= 3);
    assert(params.len() <= 4 + n.len() + 21);
    assert(spec_der_len_bytes(params.len()).len() <= 3);
}

/// What the incremental length probe says of any prefix of a stream that
/// a canonical header opens: more bytes are needed, or the probe has
/// decoded exactly the header's length; four bytes always decide.
pub proof fn lemma_header_probe(input: Seq<u8>, n: Seq<u8>, t: u32, m: u32, p: u32, k: int)
    requires
        n.len() <= 0xFF00,
        spec_header(n, t, m, p).is_prefix_of(input),
        0 <= k <= input.len(),
    ensures
        spec_header(n, t, m, p).len() >= 30,
        spec_header(n, t, m, p).len() <= input.len(),
        crate::der::spec_len_probe(input.take(k)) is NeedMore || crate::der::spec_len_probe(
            input.take(k),
        ) == crate::der::LenProbe::Total(spec_header(n, t, m, p).len() as usize),
        k >= 4 ==> crate::der::spec_len_probe(input.take(k)) == crate::der::LenProbe::Total(
            spec_header(n, t, m, p).len() as usize,
        ),
{
    lemma_stream_version_id_len();
    lemma_fragment_lens(n, t, m, p);
    let header = spec_header(n, t, m, p);
    let ver_tlv = spec_der_tlv(TAG_UTF8STRING, stream_version_id());
    let content = ver_tlv + spec_pbkdf_fragment(n, t, m, p) + spec_kdf_fragment()
        + spec_aead_fragment();
    let lb = spec_der_len_bytes(content.len());
    assert(28 <= content.len() < 0xFFFD);
    assert(header.len() == 1 + lb.len() + content.len());
    assert forall|i: int| 0 <= i < header.len() implies input[i] == header[i] by {
        assert(input.take(header.len() as int)[i] == input[i]);
    }
    assert forall|i: int| 0 <= i < lb.len() implies header[1 + i] == lb[i] by {}
    let prefix = input.take(k);
    assert forall|i: int| 0 <= i < k implies prefix[i] == input[i] by {}
    if k >= 2 {
        assert(prefix[1] == lb[0]);
        if content.len() < 0x80 {
            assert(crate::der::spec_len_probe(prefix) == crate::der::spec_len_probe_capped(
                2 + content.len() as int,
            ));
        } else if content.len() < 0x100 {
            assert(lb[0] == 0x81);
            if k >= 3 {
                assert(prefix[2] == lb[1]);
                assert(crate::der::spec_len_probe(prefix) == crate::der::spec_len_probe_capped(
                    3 + content.len() as int,
                ));
            }
        } else {
            assert(lb[0] == 0x82);
            if k >= 4 {
                assert(prefix[2] == lb[1] && prefix[3] == lb[2]);
                assert((lb[1] as int) * 0x100 + (lb[2] as int) == content.len()) by {
                    assert((content.len() / 0x100) * 0x100 + content.len() % 0x100
                        == content.len());
                    assert(content.len() / 0x100 < 0x100);
                }
                assert(crate::der::spec_len_probe(prefix) == crate::der::spec_len_probe_capped(
                    4 + content.len() as int,
                ));
            }
        }
    }
}

/// Lifts what is known of the exact header bytes to every canonical
/// header prefixing the input: the probe pins a single header length, so
/// any such header is the parsed one.
pub proof fn lemma_header_prefix_pins(
    input: Seq<u8>,
    header: Seq<u8>,
    total: usize,
    nonce: Seq<u8>,
    tc: u32,
    mc: u32,
    pc: u32,
)
    requires
        total as int <= input.len(),
        header == input.take(total as int),
        crate::der::spec_len_probe(input) == crate::der::LenProbe::Total(total),
        forall|n: Seq<u8>, t: u32, m: u32, p: u32|
            (n.len() <= 0xFF00 && header == #[trigger] spec_header(n, t, m, p)) ==> (n == nonce
                && t == tc && m == mc && p == pc),
    ensures
        forall|n: Seq<u8>, t: u32, m: u32, p: u32|
            (n.len() <= 0xFF00 && (#[trigger] spec_header(n, t, m, p)).is_prefix_of(input)) ==> (n
                == nonce && t == tc && m == mc && p == pc && spec_header(n, t, m, p).len()
                == total as int),
{
    assert forall|n: Seq<u8>, t: u32, m: u32, p: u32|
        (n.len() <= 0xFF00 && (#[trigger] spec_header(n, t, m, p)).is_prefix_of(input)) implies (n
        == nonce && t == tc && m == mc && p == pc && spec_header(n, t, m, p).len()
        == total as int) by {
        lemma_header_probe(input, n, t, m, p, input.len() as int);
        assert(input.take(input.len() as int) =~= input);
        assert(header =~= spec_header(n, t, m, p));
    }
}

/// Where no canonical header matches the parsed bytes, none prefixes the
/// input at all: the probe pins a single candidate length.
pub proof fn lemma_header_prefix_none(input: Seq<u8>, header: Seq<u8>, total: usize)
    requires
        total as int <= input.len(),
        header == input.take(total as int),
        crate::der::spec_len_probe(input) == crate::der::LenProbe::Total(total),
        forall|n: Seq<u8>, t: u32, m: u32, p: u32|
            (n.len() <= 0xFF00 && header == #[trigger] spec_header(n, t, m, p)) ==> false,
    ensures
        forall|n: Seq<u8>, t: u32, m: u32, p: u32|
            (n.len() <= 0xFF00 && (#[trigger] spec_header(n, t, m, p)).is_prefix_of(input))
                ==> false,
{
    assert forall|n: Seq<u8>, t: u32, m: u32, p: u32|
        (n.len() <= 0xFF00 && (#[trigger] spec_header(n, t, m, p)).is_prefix_of(input))
        implies false by {
        lemma_header_probe(input, n, t, m, p, input.len() as int);
        assert(input.take(input.len() as int) =~= input);
        assert(header =~= spec_header(n, t, m, p));
    }
}

/// The layout of a canonical header, derived from its byte equality.
proof fn lemma_header_layout(data: Seq<u8>, n: Seq<u8>, t: u32, m: u32, p: u32)
    requires
        n.len() <= 0xFF00,
        data == spec_header(n, t, m, p),
    ensures
        spec_header_layout_holds(data, n, t, m, p),
{
    lemma_stream_version_id_len();
    lemma_fragment_lens(n, t, m, p);
    let ver_tlv = spec_der_tlv(TAG_UTF8STRING, stream_version_id());
    let pbf = spec_pbkdf_fragment(n, t, m, p);
    let kdff = spec_kdf_fragment();
    let aeadf = spec_aead_fragment();
    let content = ver_tlv + pbf + kdff + aeadf;
    assert(content.len() < 0x10000);
    let oh = 1 + spec_der_len_bytes(content.len()).len();
    assert(data.len() == oh + content.len());
    assert(data.subrange(0, data.len() as int) =~= data);
    lemma_prefix_at(data, 0, data);
    assert(spec_der_tlv(TAG_SEQUENCE, content).is_prefix_of(data.skip(0)));
    assert(data == (seq![TAG_SEQUENCE] + spec_der_len_bytes(content.len())) + content) by {
        assert(data =~= (seq![TAG_SEQUENCE] + spec_der_len_bytes(content.len())) + content);
    }
    assert(data.subrange(0, data.len() as int) == (seq![TAG_SEQUENCE] + spec_der_len_bytes(
        content.len(),
    )) + content);
    lemma_concat_structure(data, 0, seq![TAG_SEQUENCE] + spec_der_len_bytes(content.len()), content);
    assert(data.subrange(oh as int, (oh + content.len()) as int) == content);
    assert(content == ver_tlv + (pbf + (kdff + aeadf))) by {
        assert(content =~= ver_tlv + (pbf + (kdff + aeadf)));
    }
    lemma_concat_structure(data, oh as int, ver_tlv, pbf + (kdff + aeadf));
    lemma_prefix_at(data, oh as int, ver_tlv);
    let pp = oh + ver_tlv.len();
    lemma_concat_structure(data, pp as int, pbf, kdff + aeadf);
    lemma_prefix_at(data, pp as int, pbf);
    let pk = pp + pbf.len();
    lemma_concat_structure(data, pk as int, kdff, aeadf);
    lemma_prefix_at(data, pk as int, kdff);
    let pa = pk + kdff.len();
    lemma_prefix_at(data, pa as int, aeadf);
    assert(ver_tlv == (seq![TAG_UTF8STRING] + spec_der_len_bytes(26)) + stream_version_id()) by {
        assert(ver_tlv =~= (seq![TAG_UTF8STRING] + spec_der_len_bytes(26)) + stream_version_id());
    }
    lemma_concat_structure(
        data,
        oh as int,
        seq![TAG_UTF8STRING] + spec_der_len_bytes(26),
        stream_version_id(),
    );
    assert(data.subrange(oh + 2int, oh + 2 + 26int) == stream_version_id());
}

/// Under any canonical witness the layout facts hold; the failed check at
/// each parse exit then contradicts them.
proof fn header_no_witness(data: Seq<u8>)
    ensures
        forall|n: Seq<u8>, t: u32, m: u32, p: u32|
            (n.len() <= 0xFF00 && data == #[trigger] spec_header(n, t, m, p))
                ==> spec_header_layout_holds(data, n, t, m, p),
{
    assert forall|n: Seq<u8>, t: u32, m: u32, p: u32|
        (n.len() <= 0xFF00 && data == #[trigger] spec_header(n, t, m, p))
            implies spec_header_layout_holds(data, n, t, m, p) by {
        lemma_header_layout(data, n, t, m, p);
    }
}

} // verus!
