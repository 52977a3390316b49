//! The DER subset that the stream header uses: definite lengths,
//! tag-length-value framing, and unsigned INTEGER contents.
//!
//! Encoding is canonical (minimal lengths, minimal integers), and the
//! parsers accept exactly the canonical encodings, so that a parsed header
//! pins down the bytes it came from.

use vstd::prelude::*;
use crate::error::{CpError, ErrorText};
use crate::constants::MAX_HEADER_SIZE;

verus! {

/// ASN.1 tag of a SEQUENCE.
pub const TAG_SEQUENCE: u8 = 0x30;

/// ASN.1 tag of a UTF8String.
pub const TAG_UTF8STRING: u8 = 0x0C;

/// ASN.1 tag of an OCTET STRING.
pub const TAG_OCTET_STRING: u8 = 0x04;

/// ASN.1 tag of an INTEGER.
pub const TAG_INTEGER: u8 = 0x02;

/// The DER definite-length encoding of `n` (for `n` below 2^32).
pub open spec fn spec_der_len_bytes(n: nat) -> Seq<u8> {
    if n < 0x80 {
        seq![n as u8]
    } else if n < 0x100 {
        seq![0x81u8, n as u8]
    } else if n < 0x10000 {
        seq![0x82u8, (n / 0x100) as u8, (n % 0x100) as u8]
    } else if n < 0x1000000 {
        seq![0x83u8, (n / 0x10000) as u8, ((n / 0x100) % 0x100) as u8, (n % 0x100) as u8]
    } else {
        seq![
            0x84u8,
            (n / 0x1000000) as u8,
            ((n / 0x10000) % 0x100) as u8,
            ((n / 0x100) % 0x100) as u8,
            (n % 0x100) as u8,
        ]
    }
}

/// One DER value: tag, length, contents.
pub open spec fn spec_der_tlv(tag: u8, content: Seq<u8>) -> Seq<u8> {
    seq![tag] + spec_der_len_bytes(content.len()) + content
}

/// The content octets of a DER INTEGER holding the unsigned value `v`
/// (for `v` below 2^32): minimal big-endian bytes, with a leading zero
/// octet where the top bit would otherwise read as a sign.
pub open spec fn spec_der_uint(v: nat) -> Seq<u8> {
    if v < 0x80 {
        seq![v as u8]
    } else if v < 0x100 {
        seq![0u8, v as u8]
    } else if v < 0x8000 {
        seq![(v / 0x100) as u8, (v % 0x100) as u8]
    } else if v < 0x10000 {
        seq![0u8, (v / 0x100) as u8, (v % 0x100) as u8]
    } else if v < 0x800000 {
        seq![(v / 0x10000) as u8, ((v / 0x100) % 0x100) as u8, (v % 0x100) as u8]
    } else if v < 0x1000000 {
        seq![0u8, (v / 0x10000) as u8, ((v / 0x100) % 0x100) as u8, (v % 0x100) as u8]
    } else if v < 0x80000000 {
        seq![
            (v / 0x1000000) as u8,
            ((v / 0x10000) % 0x100) as u8,
            ((v / 0x100) % 0x100) as u8,
            (v % 0x100) as u8,
        ]
    } else {
        seq![
            0u8,
            (v / 0x1000000) as u8,
            ((v / 0x10000) % 0x100) as u8,
            ((v / 0x100) % 0x100) as u8,
            (v % 0x100) as u8,
        ]
    }
}

/// What a prefix of a stream reveals about the total encoded length of its
/// leading DER value.
pub enum LenProbe {
    /// Too few bytes yet to decode the length field.
    NeedMore,
    /// The length field cannot belong to an acceptable header.
    Malformed,
    /// The value (tag, length field and contents) spans this many bytes.
    Total(usize),
}

/// Decodes the total length of the leading DER value of `data`, without
/// judging minimality; lengths above the header cap are rejected here so
/// that a hostile length prefix cannot demand an absurd read.
pub open spec fn spec_len_probe(data: Seq<u8>) -> LenProbe {
    if data.len() < 2 {
        LenProbe::NeedMore
    } else {
        let b0 = data[1];
        if b0 < 0x80 {
            spec_len_probe_capped(2 + b0 as int)
        } else if b0 == 0x81 {
            if data.len() < 3 {
                LenProbe::NeedMore
            } else {
                spec_len_probe_capped(3 + data[2] as int)
            }
        } else if b0 == 0x82 {
            if data.len() < 4 {
                LenProbe::NeedMore
            } else {
                spec_len_probe_capped(4 + data[2] as int * 0x100 + data[3] as int)
            }
        } else {
            LenProbe::Malformed
        }
    }
}

/// The cap on a probed total length.
pub open spec fn spec_len_probe_capped(total: int) -> LenProbe {
    if total <= MAX_HEADER_SIZE as int {
        LenProbe::Total(total as usize)
    } else {
        LenProbe::Malformed
    }
}

/// A probe of a prefix either needs more bytes, or already agrees with
/// the probe of the whole: the verdict depends only on the first bytes.
pub proof fn lemma_len_probe_prefix(data: Seq<u8>, k: int)
    requires
        0 <= k <= data.len(),
    ensures
        spec_len_probe(data.take(k)) is NeedMore || spec_len_probe(data.take(k)) == spec_len_probe(
            data,
        ),
{
    let prefix = data.take(k);
    if prefix.len() >= 2 {
        assert(prefix[1] == data[1]);
        if prefix.len() >= 3 {
            assert(prefix[2] == data[2]);
        }
        if prefix.len() >= 4 {
            assert(prefix[3] == data[3]);
        }
    }
}

/// Appends the DER definite-length encoding of `n` to `out`.
pub fn der_write_len(out: &mut Vec<u8>, n: usize)
    requires
        n < 0x100000000,
    ensures
        final(out)@ == old(out)@ + spec_der_len_bytes(n as nat),
{
    if n < 0x80 {
        out.push(n as u8);
    } else if n < 0x100 {
        out.push(0x81u8);
        out.push(n as u8);
    } else if n < 0x10000 {
        out.push(0x82u8);
        out.push((n / 0x100) as u8);
        out.push((n % 0x100) as u8);
    } else if n < 0x1000000 {
        out.push(0x83u8);
        out.push((n / 0x10000) as u8);
        out.push(((n / 0x100) % 0x100) as u8);
        out.push((n % 0x100) as u8);
    } else {
        out.push(0x84u8);
        out.push((n / 0x1000000) as u8);
        out.push(((n / 0x10000) % 0x100) as u8);
        out.push(((n / 0x100) % 0x100) as u8);
        out.push((n % 0x100) as u8);
    }
    assert(final(out)@ =~= old(out)@ + spec_der_len_bytes(n as nat));
}

/// One DER value with the given tag around the given contents.
pub fn der_tlv(tag: u8, content: &Vec<u8>) -> (r: Vec<u8>)
    requires
        content@.len() < 0x100000000,
    ensures
        r@ == spec_der_tlv(tag, content@),
{
    let mut out: Vec<u8> = Vec::new();
    out.push(tag);
    der_write_len(&mut out, content.len());
    let mut i: usize = 0;
    while i < content.len()
        invariant
            i <= content@.len(),
            out@ == seq![tag] + spec_der_len_bytes(content@.len()) + content@.subrange(0, i as int),
        decreases content@.len() - i,
    {
        out.push(content[i]);
        i = i + 1;
        assert(out@ =~= seq![tag] + spec_der_len_bytes(content@.len()) + content@.subrange(
            0,
            i as int,
        ));
    }
    assert(content@.subrange(0, content@.len() as int) =~= content@);
    out
}

/// The content octets of a DER INTEGER holding `v`.
pub fn der_uint(v: u32) -> (r: Vec<u8>)
    ensures
        r@ == spec_der_uint(v as nat),
{
    let mut out: Vec<u8> = Vec::new();
    if v < 0x80 {
        out.push(v as u8);
    } else if v < 0x100 {
        out.push(0u8);
        out.push(v as u8);
    } else if v < 0x8000 {
        out.push((v / 0x100) as u8);
        out.push((v % 0x100) as u8);
    } else if v < 0x10000 {
        out.push(0u8);
        out.push((v / 0x100) as u8);
        out.push((v % 0x100) as u8);
    } else if v < 0x800000 {
        out.push((v / 0x10000) as u8);
        out.push(((v / 0x100) % 0x100) as u8);
        out.push((v % 0x100) as u8);
    } else if v < 0x1000000 {
        out.push(0u8);
        out.push((v / 0x10000) as u8);
        out.push(((v / 0x100) % 0x100) as u8);
        out.push((v % 0x100) as u8);
    } else if v < 0x80000000 {
        out.push((v / 0x1000000) as u8);
        out.push(((v / 0x10000) % 0x100) as u8);
        out.push(((v / 0x100) % 0x100) as u8);
        out.push((v % 0x100) as u8);
    } else {
        out.push(0u8);
        out.push((v / 0x1000000) as u8);
        out.push(((v / 0x10000) % 0x100) as u8);
        out.push(((v / 0x100) % 0x100) as u8);
        out.push((v % 0x100) as u8);
    }
    assert(out@ =~= spec_der_uint(v as nat));
    out
}

/// Probes `data` for the total length of its leading DER value.
pub fn probe_len(data: &Vec<u8>) -> (r: LenProbe)
    ensures
        r == spec_len_probe(data@),
{
    if data.len() < 2 {
        return LenProbe::NeedMore;
    }
    let b0 = data[1];
    if b0 < 0x80 {
        probe_cap(2 + b0 as usize)
    } else if b0 == 0x81 {
        if data.len() < 3 {
            LenProbe::NeedMore
        } else {
            probe_cap(3 + data[2] as usize)
        }
    } else if b0 == 0x82 {
        if data.len() < 4 {
            LenProbe::NeedMore
        } else {
            probe_cap(4 + (data[2] as usize) * 0x100 + data[3] as usize)
        }
    } else {
        LenProbe::Malformed
    }
}

/// Applies the header cap to a probed total.
fn probe_cap(total: usize) -> (r: LenProbe)
    ensures
        r == spec_len_probe_capped(total as int),
{
    if total <= MAX_HEADER_SIZE {
        LenProbe::Total(total)
    } else {
        LenProbe::Malformed
    }
}

/// Compares `data[start..end]` with `expect`.
pub fn bytes_range_eq(data: &Vec<u8>, start: usize, end: usize, expect: &Vec<u8>) -> (r: bool)
    requires
        start <= end <= data@.len(),
    ensures
        r == (data@.subrange(start as int, end as int) == expect@),
{
    let ghost range = data@.subrange(start as int, end as int);
    if end - start != expect.len() {
        return false;
    }
    let mut i: usize = 0;
    while i < expect.len()
        invariant
            i <= expect@.len(),
            start + expect@.len() == end <= data@.len(),
            range == data@.subrange(start as int, end as int),
            forall|j: int| 0 <= j < i ==> data@[start + j] == expect@[j],
        decreases expect@.len() - i,
    {
        if data[start + i] != expect[i] {
            proof {
                assert(range.len() == expect@.len());
                assert(range[i as int] == data@[start + i]);
            }
            return false;
        }
        i = i + 1;
    }
    proof {
        assert(range =~= expect@);
    }
    true
}

/// The byte-level consequences of a canonical DER value standing at
/// `pos`: the tag and length bytes it forces, and that its contents fit.
pub proof fn lemma_tlv_canonical_shape(data: Seq<u8>, pos: int, t: u8, c: Seq<u8>)
    requires
        0 <= pos <= data.len(),
        c.len() < 0x10000,
        spec_der_tlv(t, c).is_prefix_of(data.skip(pos)),
    ensures
        pos + 1 + spec_der_len_bytes(c.len()).len() + c.len() <= data.len(),
        data[pos] == t,
        c.len() < 0x80 ==> data[pos + 1] == c.len() as u8,
        0x80 <= c.len() < 0x100 ==> data[pos + 1] == 0x81 && data[pos + 2] == c.len() as u8
            && data[pos + 2] >= 0x80,
        0x100 <= c.len() ==> data[pos + 1] == 0x82 && data[pos + 2] == (c.len() / 0x100) as u8
            && data[pos + 3] == (c.len() % 0x100) as u8 && (data[pos + 2] as int) * 0x100 + (data[
            pos + 3] as int) == c.len(),
{
    let enc = spec_der_tlv(t, c);
    let lb = spec_der_len_bytes(c.len());
    assert(data.skip(pos).subrange(0, enc.len() as int) == enc);
    assert forall|i: int| 0 <= i < enc.len() implies data[pos + i] == enc[i] by {
        assert(data.skip(pos).subrange(0, enc.len() as int)[i] == data.skip(pos)[i]);
        assert(data.skip(pos)[i] == data[pos + i]);
    }
    assert(enc[0] == t);
    assert forall|i: int| 0 <= i < lb.len() implies enc[1 + i] == lb[i] by {}
    if c.len() < 0x80 {
        assert(data[pos + 1] == lb[0]);
    } else if c.len() < 0x100 {
        assert(data[pos + 1] == lb[0] && data[pos + 2] == lb[1]);
    } else {
        assert(data[pos + 1] == lb[0] && data[pos + 2] == lb[1] && data[pos + 3] == lb[2]);
        assert((c.len() / 0x100) * 0x100 + c.len() % 0x100 == c.len());
        assert(c.len() / 0x100 < 0x100);
        assert(((c.len() / 0x100) as u8) as int == c.len() / 0x100);
        assert(((c.len() % 0x100) as u8) as int == c.len() % 0x100);
    }
}

/// Reads the tag and length of the DER value starting at `pos`; returns
/// the tag, the content length, and the length of the tag-and-length
/// prefix.  Succeeds exactly on a canonical length field, below the
/// header cap, whose contents fit inside `data`.
pub fn der_read_tlv(data: &Vec<u8>, pos: usize) -> (r: Result<(u8, usize, usize), CpError>)
    requires
        pos <= data@.len(),
    ensures
        r is Ok ==> pos + r->Ok_0.2 + r->Ok_0.1 <= data@.len(),
        r is Ok ==> r->Ok_0.1 < 0x10000,
        r is Ok ==> r->Ok_0.2 == 1 + spec_der_len_bytes(r->Ok_0.1 as nat).len(),
        r is Ok ==> data@.subrange(pos as int, pos + r->Ok_0.2) == seq![r->Ok_0.0]
            + spec_der_len_bytes(r->Ok_0.1 as nat),
        forall|tag: u8, content: Seq<u8>|
            (content.len() < 0x10000 && #[trigger] spec_der_tlv(tag, content).is_prefix_of(
                data@.skip(pos as int),
            )) ==> r is Ok && r->Ok_0 == (
                tag,
                content.len() as usize,
                (1 + spec_der_len_bytes(content.len()).len()) as usize,
            ),
        r is Err ==> r->Err_0 == CpError::InvalidData(ErrorText::UnexpectedEndOfStream),
{
    let parsed: Option<(u8, usize, usize)> = if pos >= data.len() || data.len() - pos < 2 {
        None
    } else {
        let tag = data[pos];
        let b0 = data[pos + 1];
        if b0 < 0x80 {
            Some((tag, b0 as usize, 2))
        } else if b0 == 0x81 {
            if data.len() - pos < 3 || data[pos + 2] < 0x80 {
                None
            } else {
                Some((tag, data[pos + 2] as usize, 3))
            }
        } else if b0 == 0x82 {
            if data.len() - pos < 4 {
                None
            } else {
                let v: usize = (data[pos + 2] as usize) * 0x100 + data[pos + 3] as usize;
                if v < 0x100 {
                    None
                } else {
                    Some((tag, v, 4))
                }
            }
        } else {
            None
        }
    };
    let checked: Option<(u8, usize, usize)> = match parsed {
        Some((tag, clen, hlen)) => {
            if clen > data.len() - pos - hlen {
                None
            } else {
                Some((tag, clen, hlen))
            }
        },
        None => None,
    };
    proof {
        assert forall|t: u8, c: Seq<u8>|
            (c.len() < 0x10000 && #[trigger] spec_der_tlv(t, c).is_prefix_of(
                data@.skip(pos as int),
            )) implies checked is Some && checked->0 == (
            t,
            c.len() as usize,
            (1 + spec_der_len_bytes(c.len()).len()) as usize,
        ) by {
            lemma_tlv_canonical_shape(data@, pos as int, t, c);
        }
    }
    match checked {
        Some((tag, clen, hlen)) => {
            assert(data@.subrange(pos as int, pos + hlen) =~= seq![tag] + spec_der_len_bytes(
                clen as nat,
            ));
            Ok((tag, clen, hlen))
        },
        None => Err(CpError::InvalidData(ErrorText::UnexpectedEndOfStream)),
    }
}

/// A canonical INTEGER content encoding determines its value.
pub proof fn lemma_der_uint_unique(v1: nat, v2: nat)
    requires
        v1 < 0x100000000,
        v2 < 0x100000000,
        spec_der_uint(v1) == spec_der_uint(v2),
    ensures
        v1 == v2,
{
    let e1 = spec_der_uint(v1);
    let e2 = spec_der_uint(v2);
    assert(e1.len() == e2.len() && e1[0] == e2[0]);
    if v1 < 0x80 {
        assert(v2 < 0x80);
        assert(v1 as u8 == v2 as u8);
    } else if v1 < 0x100 {
        assert(e1.len() == 2 && e1[0] == 0);
        assert(0x80 <= v2 < 0x100) by {
            if v2 < 0x80 {
            } else if v2 < 0x100 {
            } else if v2 < 0x8000 {
                assert(e2[0] == (v2 / 0x100) as u8 && v2 / 0x100 >= 1);
            } else {
            }
        }
        assert(v1 as u8 == v2 as u8);
    } else if v1 < 0x8000 {
        assert(e1.len() == 2 && e1[0] != 0) by {
            assert(v1 / 0x100 >= 1 && v1 / 0x100 < 0x80);
        }
        assert(0x100 <= v2 < 0x8000) by {
            if v2 < 0x80 {
            } else if v2 < 0x100 {
            } else if v2 < 0x8000 {
            } else {
            }
        }
        assert(v1 == v2) by (nonlinear_arith)
            requires
                0x100 <= v1 < 0x8000,
                0x100 <= v2 < 0x8000,
                (v1 / 0x100) as u8 == (v2 / 0x100) as u8,
                (v1 % 0x100) as u8 == (v2 % 0x100) as u8,
        ;
    } else if v1 < 0x10000 {
        assert(e1.len() == 3 && e1[0] == 0);
        assert(0x8000 <= v2 < 0x10000) by {
            if v2 < 0x8000 {
            } else if v2 < 0x10000 {
            } else if v2 < 0x800000 {
                assert(e2[0] == (v2 / 0x10000) as u8 && v2 / 0x10000 >= 1);
            } else {
            }
        }
        assert(v1 == v2) by (nonlinear_arith)
            requires
                0x8000 <= v1 < 0x10000,
                0x8000 <= v2 < 0x10000,
                (v1 / 0x100) as u8 == (v2 / 0x100) as u8,
                (v1 % 0x100) as u8 == (v2 % 0x100) as u8,
        ;
    } else if v1 < 0x800000 {
        assert(e1.len() == 3 && e1[0] != 0) by {
            assert(v1 / 0x10000 >= 1 && v1 / 0x10000 < 0x80);
        }
        assert(0x10000 <= v2 < 0x800000) by {
            if v2 < 0x10000 {
            } else if v2 < 0x800000 {
            } else {
            }
        }
        assert(v1 == v2) by (nonlinear_arith)
            requires
                0x10000 <= v1 < 0x800000,
                0x10000 <= v2 < 0x800000,
                (v1 / 0x10000) as u8 == (v2 / 0x10000) as u8,
                ((v1 / 0x100) % 0x100) as u8 == ((v2 / 0x100) % 0x100) as u8,
                (v1 % 0x100) as u8 == (v2 % 0x100) as u8,
        ;
    } else if v1 < 0x1000000 {
        assert(e1.len() == 4 && e1[0] == 0);
        assert(0x800000 <= v2 < 0x1000000) by {
            if v2 < 0x800000 {
            } else if v2 < 0x1000000 {
            } else if v2 < 0x80000000 {
                assert(e2[0] == (v2 / 0x1000000) as u8 && v2 / 0x1000000 >= 1);
            } else {
            }
        }
        assert(v1 == v2) by (nonlinear_arith)
            requires
                0x800000 <= v1 < 0x1000000,
                0x800000 <= v2 < 0x1000000,
                (v1 / 0x10000) as u8 == (v2 / 0x10000) as u8,
                ((v1 / 0x100) % 0x100) as u8 == ((v2 / 0x100) % 0x100) as u8,
                (v1 % 0x100) as u8 == (v2 % 0x100) as u8,
        ;
    } else if v1 < 0x80000000 {
        assert(e1.len() == 4 && e1[0] != 0) by {
            assert(v1 / 0x1000000 >= 1 && v1 / 0x1000000 < 0x80);
        }
        assert(0x1000000 <= v2 < 0x80000000) by {
            if v2 < 0x1000000 {
            } else if v2 < 0x80000000 {
            } else {
            }
        }
        assert(v1 == v2) by (nonlinear_arith)
            requires
                0x1000000 <= v1 < 0x80000000,
                0x1000000 <= v2 < 0x80000000,
                (v1 / 0x1000000) as u8 == (v2 / 0x1000000) as u8,
                ((v1 / 0x10000) % 0x100) as u8 == ((v2 / 0x10000) % 0x100) as u8,
                ((v1 / 0x100) % 0x100) as u8 == ((v2 / 0x100) % 0x100) as u8,
                (v1 % 0x100) as u8 == (v2 % 0x100) as u8,
        ;
    } else {
        assert(e1.len() == 5);
        assert(0x80000000 <= v2) by {
            if v2 < 0x80000000 {
            } else {
            }
        }
        assert(v1 == v2) by (nonlinear_arith)
            requires
                0x80000000 <= v1 < 0x100000000,
                0x80000000 <= v2 < 0x100000000,
                (v1 / 0x1000000) as u8 == (v2 / 0x1000000) as u8,
                ((v1 / 0x10000) % 0x100) as u8 == ((v2 / 0x10000) % 0x100) as u8,
                ((v1 / 0x100) % 0x100) as u8 == ((v2 / 0x100) % 0x100) as u8,
                (v1 % 0x100) as u8 == (v2 % 0x100) as u8,
        ;
    }
}

/// Reads the unsigned value of the INTEGER content octets
/// `data[start..end]`.  Succeeds exactly on the canonical encoding of a
/// value below 2^32.
pub fn der_read_uint(data: &Vec<u8>, start: usize, end: usize) -> (r: Result<u64, CpError>)
    requires
        start <= end <= data@.len(),
    ensures
        r is Ok ==> r->Ok_0 < 0x100000000 && data@.subrange(start as int, end as int)
            == spec_der_uint(r->Ok_0 as nat),
        forall|v: nat|
            v < 0x100000000 && data@.subrange(start as int, end as int) == #[trigger] spec_der_uint(
                v,
            ) ==> r is Ok && r->Ok_0 as nat == v,
        r is Err ==> r->Err_0 == CpError::InvalidData(ErrorText::UnexpectedEndOfStream),
{
    let ghost content = data@.subrange(start as int, end as int);
    let len = end - start;
    if len == 0 || len > 5 {
        proof {
            assert forall|v: nat| v < 0x100000000 implies content != spec_der_uint(v) by {
                lemma_der_uint_len(v);
            }
        }
        return Err(CpError::InvalidData(ErrorText::UnexpectedEndOfStream));
    }
    let b0 = data[start];
    assert(content[0] == b0 && content.len() == len);
    if b0 >= 0x80 {
        // A set top bit would read as a negative INTEGER.
        proof {
            assert forall|v: nat| v < 0x100000000 implies content != spec_der_uint(v) by {
                lemma_der_uint_first_byte_low(v);
            }
        }
        return Err(CpError::InvalidData(ErrorText::UnexpectedEndOfStream));
    }
    if len == 1 {
        let v: u64 = b0 as u64;
        assert(content =~= spec_der_uint(v as nat));
        proof {
            assert forall|w: nat| w < 0x100000000 && content == spec_der_uint(w) implies w
                == v as nat by {
                lemma_der_uint_unique(w, v as nat);
            }
        }
        return Ok(v);
    }
    // More than one octet: a leading zero octet is only canonical where
    // the next octet needs it as sign padding.
    if b0 == 0 && data[start + 1] < 0x80 {
        proof {
            assert forall|v: nat| v < 0x100000000 implies content != spec_der_uint(v) by {
                lemma_der_uint_zero_pad(v);
            }
        }
        return Err(CpError::InvalidData(ErrorText::UnexpectedEndOfStream));
    }
    if b0 != 0 && len == 5 {
        proof {
            assert forall|v: nat| v < 0x100000000 implies content != spec_der_uint(v) by {
                lemma_der_uint_five_bytes(v);
            }
        }
        return Err(CpError::InvalidData(ErrorText::UnexpectedEndOfStream));
    }
    let v: u64 = if len == 2 {
        (b0 as u64) * 0x100 + (data[start + 1] as u64)
    } else if len == 3 {
        (b0 as u64) * 0x10000 + (data[start + 1] as u64) * 0x100 + (data[start + 2] as u64)
    } else if len == 4 {
        (b0 as u64) * 0x1000000 + (data[start + 1] as u64) * 0x10000 + (data[start + 2] as u64)
            * 0x100 + (data[start + 3] as u64)
    } else {
        (data[start + 1] as u64) * 0x1000000 + (data[start + 2] as u64) * 0x10000 + (data[start
            + 3] as u64) * 0x100 + (data[start + 4] as u64)
    };
    proof {
        lemma_der_uint_reconstruct(content, v as nat);
        assert forall|w: nat| w < 0x100000000 && content == spec_der_uint(w) implies w
            == v as nat by {
            lemma_der_uint_unique(w, v as nat);
        }
    }
    Ok(v)
}

/// A canonical INTEGER content encoding of a value below 2^32 spans one
/// to five octets.
pub proof fn lemma_der_uint_len(v: nat)
    requires
        v < 0x100000000,
    ensures
        1 <= spec_der_uint(v).len() <= 5,
{
}

/// Every canonical INTEGER content encoding starts with a byte below 0x80.
proof fn lemma_der_uint_first_byte_low(v: nat)
    requires
        v < 0x100000000,
    ensures
        spec_der_uint(v)[0] < 0x80,
{
    if v < 0x80 {
    } else if v < 0x100 {
    } else if v < 0x8000 {
        assert(v / 0x100 < 0x80);
    } else if v < 0x10000 {
    } else if v < 0x800000 {
        assert(v / 0x10000 < 0x80);
    } else if v < 0x1000000 {
    } else if v < 0x80000000 {
        assert(v / 0x1000000 < 0x80);
    } else {
    }
}

/// In a canonical encoding of two or more octets whose first octet is
/// zero, the second octet has its top bit set.
proof fn lemma_der_uint_zero_pad(v: nat)
    requires
        v < 0x100000000,
    ensures
        (spec_der_uint(v).len() >= 2 && spec_der_uint(v)[0] == 0) ==> spec_der_uint(v)[1] >= 0x80,
{
    if v < 0x80 {
    } else if v < 0x100 {
    } else if v < 0x8000 {
        assert(v / 0x100 >= 1);
    } else if v < 0x10000 {
        assert(v / 0x100 >= 0x80);
    } else if v < 0x800000 {
        assert(v / 0x10000 >= 1);
    } else if v < 0x1000000 {
        assert(v / 0x10000 >= 0x80);
    } else if v < 0x80000000 {
        assert(v / 0x1000000 >= 1);
    } else {
        assert(v / 0x1000000 >= 0x80);
    }
}

/// A canonical five-octet encoding of a value below 2^32 starts with the
/// zero padding octet.
proof fn lemma_der_uint_five_bytes(v: nat)
    requires
        v < 0x100000000,
    ensures
        spec_der_uint(v).len() == 5 ==> spec_der_uint(v)[0] == 0,
{
}

/// The multi-octet value computed from canonical bytes encodes back to
/// those bytes.
proof fn lemma_der_uint_reconstruct(content: Seq<u8>, v: nat)
    requires
        2 <= content.len() <= 5,
        content[0] < 0x80,
        content[0] == 0 ==> content[1] >= 0x80,
        content[0] != 0 ==> content.len() <= 4,
        content.len() == 2 ==> v == content[0] * 0x100 + content[1],
        content.len() == 3 ==> v == content[0] * 0x10000 + content[1] * 0x100 + content[2],
        content.len() == 4 ==> v == content[0] * 0x1000000 + content[1] * 0x10000 + content[2]
            * 0x100 + content[3],
        content.len() == 5 ==> v == content[1] * 0x1000000 + content[2] * 0x10000 + content[3]
            * 0x100 + content[4],
    ensures
        v < 0x100000000,
        spec_der_uint(v) == content,
{
    if content.len() == 2 {
        let b0 = content[0] as nat;
        let b1 = content[1] as nat;
        if b0 == 0 {
            assert(0x80 <= v < 0x100);
            assert(spec_der_uint(v) =~= content);
        } else {
            assert(0x100 <= v < 0x8000);
            assert(v / 0x100 == b0 && v % 0x100 == b1) by (nonlinear_arith)
                requires
                    v == b0 * 0x100 + b1,
                    1 <= b0 < 0x80,
                    b1 < 0x100,
            ;
            assert(spec_der_uint(v) =~= content);
        }
    } else if content.len() == 3 {
        let b0 = content[0] as nat;
        let b1 = content[1] as nat;
        let b2 = content[2] as nat;
        if b0 == 0 {
            assert(0x8000 <= v < 0x10000);
            assert(v / 0x100 == b1 && v % 0x100 == b2) by (nonlinear_arith)
                requires
                    v == b1 * 0x100 + b2,
                    0x80 <= b1 < 0x100,
                    b2 < 0x100,
            ;
            assert(spec_der_uint(v) =~= content);
        } else {
            assert(0x10000 <= v < 0x800000);
            assert(v / 0x10000 == b0 && (v / 0x100) % 0x100 == b1 && v % 0x100 == b2)
                by (nonlinear_arith)
                requires
                    v == b0 * 0x10000 + b1 * 0x100 + b2,
                    1 <= b0 < 0x80,
                    b1 < 0x100,
                    b2 < 0x100,
            ;
            assert(spec_der_uint(v) =~= content);
        }
    } else if content.len() == 4 {
        let b0 = content[0] as nat;
        let b1 = content[1] as nat;
        let b2 = content[2] as nat;
        let b3 = content[3] as nat;
        if b0 == 0 {
            assert(0x800000 <= v < 0x1000000);
            assert(v / 0x10000 == b1 && (v / 0x100) % 0x100 == b2 && v % 0x100 == b3)
                by (nonlinear_arith)
                requires
                    v == b1 * 0x10000 + b2 * 0x100 + b3,
                    0x80 <= b1 < 0x100,
                    b2 < 0x100,
                    b3 < 0x100,
            ;
            assert(spec_der_uint(v) =~= content);
        } else {
            assert(0x1000000 <= v < 0x80000000);
            assert(v / 0x1000000 == b0 && (v / 0x10000) % 0x100 == b1 && (v / 0x100) % 0x100 == b2
                && v % 0x100 == b3) by (nonlinear_arith)
                requires
                    v == b0 * 0x1000000 + b1 * 0x10000 + b2 * 0x100 + b3,
                    1 <= b0 < 0x80,
                    b1 < 0x100,
                    b2 < 0x100,
                    b3 < 0x100,
            ;
            assert(spec_der_uint(v) =~= content);
        }
    } else {
        let b1 = content[1] as nat;
        let b2 = content[2] as nat;
        let b3 = content[3] as nat;
        let b4 = content[4] as nat;
        assert(content[0] == 0 && 0x80 <= b1);
        assert(0x80000000 <= v < 0x100000000);
        assert(v / 0x1000000 == b1 && (v / 0x10000) % 0x100 == b2 && (v / 0x100) % 0x100 == b3 && v
            % 0x100 == b4) by (nonlinear_arith)
            requires
                v == b1 * 0x1000000 + b2 * 0x10000 + b3 * 0x100 + b4,
                0x80 <= b1 < 0x100,
                b2 < 0x100,
                b3 < 0x100,
                b4 < 0x100,
        ;
        assert(spec_der_uint(v) =~= content);
    }
}


/// A header fragment that names an algorithm: a SEQUENCE holding the
/// identifier as a UTF8String.
pub open spec fn spec_id_fragment(id: Seq<u8>) -> Seq<u8> {
    spec_der_tlv(TAG_SEQUENCE, spec_der_tlv(TAG_UTF8STRING, id))
}

/// If `data[start..end]` is a TLV of this tag and content, the TLV stands
/// as a prefix of `data` from `start` on.
pub proof fn lemma_prefix_from_subrange(
    data: Seq<u8>,
    start: int,
    end: int,
    tag: u8,
    content: Seq<u8>,
)
    requires
        0 <= start <= end <= data.len(),
        data.subrange(start, end) == spec_der_tlv(tag, content),
    ensures
        spec_der_tlv(tag, content).is_prefix_of(data.skip(start)),
{
    let enc = spec_der_tlv(tag, content);
    assert(enc.len() == end - start);
    assert(data.skip(start).subrange(0, enc.len() as int) =~= data.subrange(start, end));
}

/// Inside a canonical identifier fragment the inner identifier TLV stands
/// right after the outer header and spans to the end.
pub proof fn lemma_id_fragment_inner(data: Seq<u8>, start: int, end: int, id: Seq<u8>)
    requires
        0 <= start <= end <= data.len(),
        id.len() < 0x7E,
        data.subrange(start, end) == spec_id_fragment(id),
    ensures
        spec_der_tlv(TAG_UTF8STRING, id).is_prefix_of(data.skip(start + 2)),
        start + 2 + 2 + id.len() == end,
        data.subrange(start + 4, end) == id,
{
    let inner = spec_der_tlv(TAG_UTF8STRING, id);
    let whole = spec_id_fragment(id);
    assert(inner.len() == 2 + id.len());
    assert(whole.len() == 2 + inner.len());
    assert forall|i: int| 0 <= i < inner.len() implies data[start + 2 + i] == inner[i] by {
        assert(data.subrange(start, end)[2 + i] == data[start + 2 + i]);
        assert(whole[2 + i] == inner[i]);
    }
    assert(data.skip(start + 2).subrange(0, inner.len() as int) =~= inner);
    assert forall|i: int| 0 <= i < id.len() implies data[start + 4 + i] == id[i] by {
        assert(inner[2 + i] == id[i]);
    }
    assert(data.subrange(start + 4, end) =~= id);
}

/// Parses an identifier fragment at `data[start..end]` and compares the
/// identifier against `id`.  Returns success exactly on the canonical
/// fragment naming `id`; a canonical fragment naming something else is
/// unsupported, anything else malformed.
pub fn parse_id_fragment(data: &Vec<u8>, start: usize, end: usize, id: &Vec<u8>) -> (r: Result<
    (),
    CpError,
>)
    requires
        start <= end <= data@.len(),
        id@.len() < 0x7E,
    ensures
        r is Ok <==> data@.subrange(start as int, end as int) == spec_id_fragment(id@),
        r is Err ==> r->Err_0 == CpError::Unsupported || r->Err_0 == CpError::InvalidData(
            ErrorText::UnexpectedEndOfStream,
        ),
{
    proof {
        vstd::std_specs::vec::axiom_spec_len(data);
    }
    let ghost whole = data@.subrange(start as int, end as int);
    let ghost inner_spec = spec_der_tlv(TAG_UTF8STRING, id@);
    let outer = match der_read_tlv(data, start) {
        Ok(h) => h,
        Err(e) => {
            proof {
                if whole == spec_id_fragment(id@) {
                    lemma_prefix_from_subrange(
                        data@,
                        start as int,
                        end as int,
                        TAG_SEQUENCE,
                        inner_spec,
                    );
                }
            }
            return Err(e);
        },
    };
    let (outer_tag, outer_clen, outer_hlen) = outer;
    if !(outer_tag == TAG_SEQUENCE && start + outer_hlen + outer_clen == end) {
        proof {
            if whole == spec_id_fragment(id@) {
                lemma_prefix_from_subrange(data@, start as int, end as int, TAG_SEQUENCE, inner_spec);
            }
        }
        return Err(CpError::InvalidData(ErrorText::UnexpectedEndOfStream));
    }
    let inner_start = start + outer_hlen;
    let inner = match der_read_tlv(data, inner_start) {
        Ok(h) => h,
        Err(e) => {
            proof {
                if whole == spec_id_fragment(id@) {
                    lemma_id_fragment_inner(data@, start as int, end as int, id@);
                }
            }
            return Err(e);
        },
    };
    let (inner_tag, inner_clen, inner_hlen) = inner;
    if !(inner_tag == TAG_UTF8STRING && inner_start + inner_hlen + inner_clen == end) {
        proof {
            if whole == spec_id_fragment(id@) {
                lemma_id_fragment_inner(data@, start as int, end as int, id@);
            }
        }
        return Err(CpError::InvalidData(ErrorText::UnexpectedEndOfStream));
    }
    if !bytes_range_eq(data, inner_start + inner_hlen, end, id) {
        proof {
            if whole == spec_id_fragment(id@) {
                lemma_id_fragment_inner(data@, start as int, end as int, id@);
            }
        }
        return Err(CpError::Unsupported);
    }
    proof {
        let istart = inner_start as int;
        let ihlen = inner_hlen as int;
        assert(data@.subrange(istart, end as int) =~= inner_spec) by {
            assert(data@.subrange(istart, istart + ihlen) == seq![TAG_UTF8STRING]
                + spec_der_len_bytes(inner_clen as nat));
            assert(data@.subrange(istart + ihlen, end as int) == id@);
            assert forall|i: int| 0 <= i < end - istart implies data@.subrange(
                istart,
                end as int,
            )[i] == inner_spec[i] by {
                if i < ihlen {
                    assert(data@.subrange(istart, istart + ihlen)[i] == data@[istart + i]);
                } else {
                    assert(data@.subrange(istart + ihlen, end as int)[i - ihlen] == data@[istart
                        + i]);
                }
            }
        }
        assert(whole =~= spec_id_fragment(id@)) by {
            assert(data@.subrange(start as int, start + outer_hlen) == seq![TAG_SEQUENCE]
                + spec_der_len_bytes(outer_clen as nat));
            assert forall|i: int| 0 <= i < end - start implies whole[i] == spec_id_fragment(
                id@,
            )[i] by {
                if i < outer_hlen {
                    assert(data@.subrange(start as int, start + outer_hlen)[i] == data@[start + i]);
                    assert(whole[i] == data@[start + i]);
                } else {
                    assert(data@.subrange(istart, end as int)[i - outer_hlen] == data@[start + i]);
                    assert(whole[i] == data@[start + i]);
                }
            }
        }
    }
    Ok(())
}


/// A piece that `data` holds at `pos` stands as a prefix of `data` from
/// `pos` on.
pub proof fn lemma_prefix_at(data: Seq<u8>, pos: int, piece: Seq<u8>)
    requires
        0 <= pos,
        pos + piece.len() <= data.len(),
        data.subrange(pos, pos + piece.len()) == piece,
    ensures
        piece.is_prefix_of(data.skip(pos)),
{
    assert(data.skip(pos).subrange(0, piece.len() as int) =~= data.subrange(
        pos,
        pos + piece.len(),
    ));
}

/// A prefix of `data` from `pos` on is what `data` holds there.
pub proof fn lemma_subrange_from_prefix(data: Seq<u8>, pos: int, piece: Seq<u8>)
    requires
        0 <= pos <= data.len(),
        piece.is_prefix_of(data.skip(pos)),
    ensures
        pos + piece.len() <= data.len(),
        data.subrange(pos, pos + piece.len()) == piece,
{
    assert(data.skip(pos).subrange(0, piece.len() as int) == piece);
    assert forall|i: int| 0 <= i < piece.len() implies data.subrange(pos, pos + piece.len())[i]
        == piece[i] by {
        assert(data.skip(pos).subrange(0, piece.len() as int)[i] == data.skip(pos)[i]);
        assert(data.skip(pos)[i] == data[pos + i]);
    }
    assert(data.subrange(pos, pos + piece.len()) =~= piece);
}

/// Splitting a concatenation that `data` holds at `pos` into its parts.
pub proof fn lemma_concat_structure(data: Seq<u8>, pos: int, a: Seq<u8>, b: Seq<u8>)
    requires
        0 <= pos,
        pos + a.len() + b.len() <= data.len(),
        data.subrange(pos, pos + a.len() + b.len()) == a + b,
    ensures
        data.subrange(pos, pos + a.len()) == a,
        data.subrange(pos + a.len(), pos + a.len() + b.len()) == b,
{
    assert forall|i: int| 0 <= i < a.len() + b.len() implies data[pos + i] == (a + b)[i] by {
        assert(data.subrange(pos, pos + a.len() + b.len())[i] == data[pos + i]);
    }
    assert forall|i: int| 0 <= i < a.len() implies data.subrange(pos, pos + a.len())[i] == a[i] by {
        assert(data[pos + i] == (a + b)[i]);
        assert((a + b)[i] == a[i]);
    }
    assert(data.subrange(pos, pos + a.len()) =~= a);
    assert forall|i: int| 0 <= i < b.len() implies data.subrange(
        pos + a.len(),
        pos + a.len() + b.len(),
    )[i] == b[i] by {
        assert(data[pos + a.len() + i] == (a + b)[a.len() + i]);
        assert((a + b)[a.len() + i] == b[i]);
    }
    assert(data.subrange(pos + a.len(), pos + a.len() + b.len()) =~= b);
}

/// Joining adjacent pieces that `data` holds into one concatenation.
pub proof fn lemma_join_concat(data: Seq<u8>, pos: int, a: Seq<u8>, b: Seq<u8>)
    requires
        0 <= pos,
        pos + a.len() + b.len() <= data.len(),
        data.subrange(pos, pos + a.len()) == a,
        data.subrange(pos + a.len(), pos + a.len() + b.len()) == b,
    ensures
        data.subrange(pos, pos + a.len() + b.len()) == a + b,
{
    assert forall|i: int| 0 <= i < a.len() + b.len() implies data.subrange(
        pos,
        pos + a.len() + b.len(),
    )[i] == (a + b)[i] by {
        if i < a.len() {
            assert(data.subrange(pos, pos + a.len())[i] == data[pos + i]);
        } else {
            assert(data.subrange(pos + a.len(), pos + a.len() + b.len())[i - a.len()] == data[pos
                + i]);
        }
    }
    assert(data.subrange(pos, pos + a.len() + b.len()) =~= a + b);
}

/// Appends `other` to `out`.
pub fn append_bytes(out: &mut Vec<u8>, other: &Vec<u8>)
    ensures
        final(out)@ == old(out)@ + other@,
{
    let mut i: usize = 0;
    while i < other.len()
        invariant
            i <= other@.len(),
            out@ == old(out)@ + other@.subrange(0, i as int),
        decreases other@.len() - i,
    {
        out.push(other[i]);
        i = i + 1;
        assert(out@ =~= old(out)@ + other@.subrange(0, i as int));
    }
    assert(out@ =~= old(out)@ + other@);
}

} // verus!
