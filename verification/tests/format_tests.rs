//! Unit tests of the wire format: DER primitives, the stream header, and
//! the incremental length probe.

use cryptopipe::der::{der_uint, der_tlv, der_read_uint, der_read_tlv, bytes_range_eq};
use cryptopipe::crypto::StreamInstance;
use cryptopipe::pbkdf::{Argon2i, u64_to_u32};
use cryptopipe::kdf::HmacSha2512;
use cryptopipe::auth_enc::ChaCha20Poly1305;
use cryptopipe::error::{CpError, ErrorText};
use cryptopipe::primitives::{Key, erase, compare_constant_time, zero_vec};

fn instance(nonce: &[u8], t: u32, m: u32, p: u32) -> StreamInstance {
    StreamInstance::new(
        Argon2i::with_nonce(nonce.to_vec(), t, m, p),
        HmacSha2512::new(),
        ChaCha20Poly1305::new(),
    )
}

#[test]
fn der_uint_minimal_encodings() {
    assert_eq!(der_uint(0), vec![0x00]);
    assert_eq!(der_uint(8), vec![0x08]);
    assert_eq!(der_uint(0x7F), vec![0x7F]);
    assert_eq!(der_uint(0x80), vec![0x00, 0x80]);
    assert_eq!(der_uint(256), vec![0x01, 0x00]);
    assert_eq!(der_uint(0xFFFF), vec![0x00, 0xFF, 0xFF]);
    assert_eq!(der_uint(0x10000), vec![0x01, 0x00, 0x00]);
    assert_eq!(der_uint(0xFFFFFFFF), vec![0x00, 0xFF, 0xFF, 0xFF, 0xFF]);
}

#[test]
fn der_uint_parses_back() {
    for v in [0u32, 1, 8, 127, 128, 255, 256, 4096, 65535, 1 << 20, u32::MAX] {
        let content = der_uint(v);
        let parsed = der_read_uint(&content, 0, content.len()).unwrap();
        assert_eq!(parsed, v as u64);
    }
}

#[test]
fn der_uint_rejects_non_minimal() {
    // A redundant leading zero octet is not canonical.
    let padded = vec![0x00, 0x05];
    assert!(der_read_uint(&padded, 0, 2).is_err());
    // A set top bit would read as a negative value.
    let negative = vec![0x85];
    assert!(der_read_uint(&negative, 0, 1).is_err());
}

#[test]
fn der_tlv_frames_and_reads_back() {
    let content = vec![1u8, 2, 3, 4, 5];
    let framed = der_tlv(0x04, &content);
    assert_eq!(framed, vec![0x04, 5, 1, 2, 3, 4, 5]);
    let (tag, clen, hlen) = der_read_tlv(&framed, 0).unwrap();
    assert_eq!((tag, clen, hlen), (0x04, 5, 2));
    assert!(bytes_range_eq(&framed, hlen, hlen + clen, &content));
}

#[test]
fn der_long_form_length() {
    let content = vec![0xABu8; 200];
    let framed = der_tlv(0x30, &content);
    assert_eq!(framed[0], 0x30);
    assert_eq!(framed[1], 0x81);
    assert_eq!(framed[2], 200);
    let (tag, clen, hlen) = der_read_tlv(&framed, 0).unwrap();
    assert_eq!((tag, clen, hlen), (0x30, 200, 3));
}

#[test]
fn der_rejects_non_minimal_length() {
    // Length 5 wrapped in the long form is not canonical.
    let bogus = vec![0x30u8, 0x81, 0x05, 1, 2, 3, 4, 5];
    assert!(der_read_tlv(&bogus, 0).is_err());
}

#[test]
fn header_roundtrips() {
    let reference = instance(b"This is an 32-byte nonce-text :P", 8, 256, 4);
    let header = reference.as_serialized();
    let parsed = StreamInstance::from_serialized(&header).unwrap();
    assert_eq!(parsed.pbkdf.nonce, b"This is an 32-byte nonce-text :P".to_vec());
    assert_eq!(parsed.pbkdf.time_cost, 8);
    assert_eq!(parsed.pbkdf.memory_cost_mib, 256);
    assert_eq!(parsed.pbkdf.parallelism, 4);
    assert_eq!(parsed.as_serialized(), header);
}

#[test]
fn header_wire_bytes_are_exact() {
    // For a 32-byte nonce and single-byte costs the header spans 157
    // bytes: a SEQUENCE of 154 content bytes opened by a long-form
    // length, first holding the version string.
    let reference = instance(b"This is an 32-byte nonce-text :P", 1, 1, 1);
    let header = reference.as_serialized();
    assert_eq!(header.len(), 157);
    assert_eq!(&header[..5], &[0x30, 0x81, 0x9A, 0x0C, 0x1A]);
    assert_eq!(&header[5..31], b"de.KizzyCode.CryptoPipe.v1");
    // The PBKDF fragment follows with its identifier.
    assert_eq!(&header[31..35], &[0x30, 0x3B, 0x0C, 0x0C]);
    assert_eq!(&header[35..47], b"Argon2i@v1.3");
}

#[test]
fn header_rejects_wrong_version() {
    let reference = instance(b"This is an 32-byte nonce-text :P", 8, 256, 4);
    let mut header = reference.as_serialized();
    // The version string starts after the outer and inner headers; break
    // one of its characters.
    header[4] ^= 0x01;
    let err = StreamInstance::from_serialized(&header).unwrap_err();
    assert_eq!(err, CpError::Unsupported);
}

#[test]
fn header_rejects_garbage() {
    let garbage = vec![0xFFu8; 64];
    assert!(StreamInstance::from_serialized(&garbage).is_err());
    let empty: Vec<u8> = Vec::new();
    assert!(StreamInstance::from_serialized(&empty).is_err());
}

#[test]
fn try_parse_length_progresses() {
    let reference = instance(b"This is an 32-byte nonce-text :P", 8, 256, 4);
    let header = reference.as_serialized();
    // One byte is never enough.
    let one = header[..1].to_vec();
    assert_eq!(StreamInstance::try_parse_length(&one), Ok(None));
    // The long-form length needs its extra octet.
    let prefix = header[..3].to_vec();
    let total = StreamInstance::try_parse_length(&prefix).unwrap().unwrap();
    assert_eq!(total, header.len());
}

#[test]
fn try_parse_length_rejects_malformed() {
    // A length field of more than two octets exceeds the header cap.
    let hostile = vec![0x30u8, 0x84, 0xFF, 0xFF, 0xFF, 0xFF];
    assert!(StreamInstance::try_parse_length(&hostile).is_err());
}

#[test]
fn u64_to_u32_bounds() {
    assert_eq!(u64_to_u32(0), Ok(0));
    assert_eq!(u64_to_u32(u32::MAX as u64), Ok(u32::MAX));
    assert_eq!(u64_to_u32(u32::MAX as u64 + 1), Err(CpError::Unsupported));
}

#[test]
fn key_buffer_behaviour() {
    let mut key = Key::from_bytes(vec![1, 2, 3, 4, 5, 6, 7, 8]);
    assert_eq!(key.len(), 8);
    key.truncate(3).unwrap();
    assert_eq!(key.as_slice(), &[1, 2, 3]);
    let err = key.truncate(9).unwrap_err();
    assert_eq!(err, CpError::InvalidParameter);
    let zeroed = Key::new(4);
    assert_eq!(zeroed.as_slice(), &[0, 0, 0, 0]);
}

#[test]
fn erase_overwrites_with_sentinel() {
    let mut buffer = vec![1u8, 2, 3];
    erase(&mut buffer);
    assert_eq!(buffer, vec![0x58, 0x58, 0x58]);
}

#[test]
fn constant_time_compare_agrees_with_equality() {
    assert!(compare_constant_time(&[1, 2, 3], &[1, 2, 3]));
    assert!(!compare_constant_time(&[1, 2, 3], &[1, 2, 4]));
    assert!(!compare_constant_time(&[1, 2, 3], &[1, 2]));
    assert!(compare_constant_time(&[], &[]));
}

#[test]
fn zero_vec_is_zero() {
    assert_eq!(zero_vec(5), vec![0u8; 5]);
}

#[test]
fn fresh_nonces_differ() {
    let a = Argon2i::new(1, 1, 1);
    let b = Argon2i::new(1, 1, 1);
    assert_eq!(a.nonce.len(), 32);
    assert_eq!(b.nonce.len(), 32);
    assert_ne!(a.nonce, b.nonce);
}

#[test]
fn error_texts_match_the_diagnostics() {
    assert_eq!(ErrorText::InvalidAuthenticationTag.text(), "Invalid authentication-tag");
    assert_eq!(ErrorText::UnexpectedEndOfStream.text(), "Unexpected end-of-stream");
    assert_eq!(ErrorText::FailedToReadStdin.text(), "Failed to read from stdin");
    assert_eq!(ErrorText::FailedToWriteStdout.text(), "Failed to write to stdout");
}
