//! End-to-end tests of the ASN.1-container stream engine: round trips,
//! determinism, tamper and truncation detection, and zeroization.

use cryptopipe::crypto::StreamInstance;
use cryptopipe::pbkdf::{Argon2i, Pbkdf};
use cryptopipe::kdf::HmacSha2512;
use cryptopipe::auth_enc::ChaCha20Poly1305;
use cryptopipe::stream::{Encryptor, Decryptor};
use cryptopipe::io::MemoryIo;
use cryptopipe::error::{CpError, ErrorText, IoErrorKind};

const CHUNK_DATA_SIZE: usize = 1048576;
const PREDEFINED_PASSWORD: &str = "Predefined password";
const PREDEFINED_NONCE: &[u8] = b"This is an 32-byte nonce-text :P";

/// A deterministic pseudo-random byte pattern for test payloads.
fn pattern(len: usize) -> Vec<u8> {
    let mut out = Vec::with_capacity(len);
    let mut state: u32 = 0x1234_5678;
    for _ in 0..len {
        state = state.wrapping_mul(1664525).wrapping_add(1013904223);
        out.push((state >> 24) as u8);
    }
    out
}

fn cheap_instance(nonce: Vec<u8>) -> StreamInstance {
    StreamInstance::new(
        Argon2i::with_nonce(nonce, 1, 1, 1),
        HmacSha2512::new(),
        ChaCha20Poly1305::new(),
    )
}

fn seal(plain: &[u8], password: &str, instance: StreamInstance) -> Vec<u8> {
    let mut io = MemoryIo::new(plain.to_vec(), plain.len() + 4096);
    let mut pwd = password.as_bytes().to_vec();
    let mut encryptor = Encryptor::new(&mut pwd, instance).unwrap();
    encryptor.runloop(&mut io).unwrap();
    io.stdout()
}

fn open_stream(sealed: &[u8], password: &str) -> Result<Vec<u8>, CpError> {
    let mut io = MemoryIo::new(sealed.to_vec(), sealed.len());
    let mut decryptor = Decryptor::new(password.as_bytes().to_vec());
    decryptor.runloop(&mut io)?;
    Ok(io.stdout())
}

fn seal_cheap(plain: &[u8]) -> Vec<u8> {
    seal(plain, "Random password", cheap_instance(PREDEFINED_NONCE.to_vec()))
}

#[test]
fn test_encryption_argon2i_hmacsha512_chachapoly() {
    // With a fixed nonce the sealed stream is a pure function of the
    // inputs: two runs agree byte for byte, and the header parses back
    // to the parameters that produced it.
    let plain = pattern(7789);
    let instance = cheap_instance(PREDEFINED_NONCE.to_vec());
    let sealed_once = seal(&plain, PREDEFINED_PASSWORD, instance);
    let instance_again = cheap_instance(PREDEFINED_NONCE.to_vec());
    let sealed_twice = seal(&plain, PREDEFINED_PASSWORD, instance_again);
    assert_eq!(sealed_once, sealed_twice);
    let reference = cheap_instance(PREDEFINED_NONCE.to_vec());
    let header = reference.as_serialized();
    assert!(sealed_once.len() > header.len());
    assert_eq!(&sealed_once[..header.len()], header.as_slice());
}

#[test]
fn test_decryption_argon2i_hmacsha512_chachapoly() {
    let plain = pattern(7789);
    let sealed = seal(&plain, PREDEFINED_PASSWORD, cheap_instance(PREDEFINED_NONCE.to_vec()));
    let opened = open_stream(&sealed, PREDEFINED_PASSWORD).unwrap();
    assert_eq!(opened, plain);
}

#[test]
fn roundtrip_empty_input() {
    // The empty stream still carries one terminal chunk: header plus a
    // 16-byte tag.
    let sealed = seal_cheap(b"");
    let header_len = cheap_instance(PREDEFINED_NONCE.to_vec()).as_serialized().len();
    assert_eq!(sealed.len(), header_len + 16);
    let opened = open_stream(&sealed, "Random password").unwrap();
    assert!(opened.is_empty());
}

#[test]
fn roundtrip_small_input() {
    let plain = pattern(7789);
    let sealed = seal_cheap(&plain);
    assert_eq!(open_stream(&sealed, "Random password").unwrap(), plain);
}

#[test]
fn roundtrip_exactly_one_chunk() {
    // An input of exactly one chunk is followed by an empty terminal
    // chunk: header + (chunk + tag) + tag.
    let plain = pattern(CHUNK_DATA_SIZE);
    let sealed = seal_cheap(&plain);
    let header_len = cheap_instance(PREDEFINED_NONCE.to_vec()).as_serialized().len();
    assert_eq!(sealed.len(), header_len + CHUNK_DATA_SIZE + 16 + 16);
    assert_eq!(open_stream(&sealed, "Random password").unwrap(), plain);
}

#[test]
fn roundtrip_multi_chunk() {
    let plain = pattern(2 * CHUNK_DATA_SIZE + 12345);
    let sealed = seal_cheap(&plain);
    assert_eq!(open_stream(&sealed, "Random password").unwrap(), plain);
}

#[test]
fn roundtrip_large_uneven_input() {
    let plain = pattern(8396411);
    let sealed = seal_cheap(&plain);
    assert_eq!(open_stream(&sealed, "Random password").unwrap(), plain);
}

#[test]
fn truncating_large_stream_to_seven_bytes_reports_unexpected_eof() {
    let plain = pattern(8396411);
    let mut sealed = seal_cheap(&plain);
    sealed.truncate(7);
    let err = open_stream(&sealed, "Random password").unwrap_err();
    assert_eq!(err, CpError::IOError(IoErrorKind::UnexpectedEof, ErrorText::FailedToReadStdin));
}

#[test]
fn flipping_header_length_byte_fails() {
    // A flip inside the DER length prefix either starves the header read
    // or derails the parse; silent success is never an option.
    let plain = pattern(512);
    let mut sealed = seal_cheap(&plain);
    sealed[1] ^= 0x01;
    let err = open_stream(&sealed, "Random password").unwrap_err();
    assert!(matches!(
        err,
        CpError::InvalidData(_) | CpError::IOError(IoErrorKind::UnexpectedEof, _)
    ));
}

#[test]
fn tamper_single_byte_fails_authentication() {
    // Flipping one ciphertext byte past the header must be caught by the
    // chunk's tag.
    let plain = pattern(7798);
    let mut sealed = seal_cheap(&plain);
    sealed[714] = 0x40;
    let err = open_stream(&sealed, "Random password").unwrap_err();
    assert_eq!(err, CpError::InvalidData(ErrorText::InvalidAuthenticationTag));
}

#[test]
fn tamper_tag_byte_fails_authentication() {
    let plain = pattern(1024);
    let mut sealed = seal_cheap(&plain);
    let len = sealed.len();
    sealed[len - 1] ^= 0x40;
    let err = open_stream(&sealed, "Random password").unwrap_err();
    assert_eq!(err, CpError::InvalidData(ErrorText::InvalidAuthenticationTag));
}

#[test]
fn truncating_tag_fails_authentication() {
    let plain = pattern(1024);
    let mut sealed = seal_cheap(&plain);
    let len = sealed.len();
    sealed.truncate(len - 1);
    let err = open_stream(&sealed, "Random password").unwrap_err();
    assert_eq!(err, CpError::InvalidData(ErrorText::InvalidAuthenticationTag));
}

#[test]
fn removing_last_chunk_fails_domain_separation() {
    // Dropping the terminal chunk makes a non-terminal chunk the last
    // one; its key came from the wrong domain, so its tag cannot verify.
    let plain = pattern(3 * CHUNK_DATA_SIZE);
    let mut sealed = seal_cheap(&plain);
    let len = sealed.len();
    sealed.truncate(len - (CHUNK_DATA_SIZE + 16));
    let err = open_stream(&sealed, "Random password").unwrap_err();
    assert_eq!(err, CpError::InvalidData(ErrorText::InvalidAuthenticationTag));
}

#[test]
fn swapping_chunks_fails_authentication() {
    // Each chunk's key is bound to its counter, so exchanging two equal
    // sized chunks breaks both tags.
    let plain = pattern(2 * CHUNK_DATA_SIZE);
    let mut sealed = seal_cheap(&plain);
    let header_len = cheap_instance(PREDEFINED_NONCE.to_vec()).as_serialized().len();
    let chunk = CHUNK_DATA_SIZE + 16;
    let first: Vec<u8> = sealed[header_len..header_len + chunk].to_vec();
    let second: Vec<u8> = sealed[header_len + chunk..header_len + 2 * chunk].to_vec();
    sealed[header_len..header_len + chunk].copy_from_slice(&second);
    sealed[header_len + chunk..header_len + 2 * chunk].copy_from_slice(&first);
    let err = open_stream(&sealed, "Random password").unwrap_err();
    assert_eq!(err, CpError::InvalidData(ErrorText::InvalidAuthenticationTag));
}

#[test]
fn truncating_mid_header_reports_unexpected_eof() {
    let plain = pattern(2048);
    let mut sealed = seal_cheap(&plain);
    sealed.truncate(7);
    let err = open_stream(&sealed, "Random password").unwrap_err();
    assert_eq!(err, CpError::IOError(IoErrorKind::UnexpectedEof, ErrorText::FailedToReadStdin));
}

#[test]
fn empty_stream_reports_unexpected_eof() {
    let err = open_stream(&[], "Random password").unwrap_err();
    assert_eq!(err, CpError::IOError(IoErrorKind::UnexpectedEof, ErrorText::FailedToReadStdin));
}

#[test]
fn wrong_password_fails_authentication() {
    let plain = pattern(4096);
    let sealed = seal_cheap(&plain);
    let err = open_stream(&sealed, "Another password").unwrap_err();
    assert_eq!(err, CpError::InvalidData(ErrorText::InvalidAuthenticationTag));
}

#[test]
fn different_passwords_seal_differently() {
    let plain = pattern(256);
    let sealed_a = seal(&plain, "password one!", cheap_instance(PREDEFINED_NONCE.to_vec()));
    let sealed_b = seal(&plain, "password two!", cheap_instance(PREDEFINED_NONCE.to_vec()));
    assert_ne!(sealed_a, sealed_b);
    // The ciphertext is not the plaintext.
    let header_len = cheap_instance(PREDEFINED_NONCE.to_vec()).as_serialized().len();
    assert_ne!(&sealed_a[header_len..header_len + plain.len()], plain.as_slice());
}

#[test]
fn password_buffer_is_zeroized_by_derivation() {
    let pbkdf = Argon2i::with_nonce(PREDEFINED_NONCE.to_vec(), 1, 1, 1);
    let mut password = b"Random password".to_vec();
    let key = pbkdf.derive(&mut password).unwrap();
    assert_eq!(password, vec![0u8; 15]);
    assert_eq!(key.len(), 32);
}

#[test]
fn password_buffer_is_zeroized_by_encryptor() {
    let mut password = b"Random password".to_vec();
    let original_len = password.len();
    let _ = Encryptor::new(&mut password, cheap_instance(PREDEFINED_NONCE.to_vec())).unwrap();
    assert_eq!(password, vec![0u8; original_len]);
}

#[test]
fn runloop_cannot_run_twice() {
    let plain = pattern(64);
    let mut io = MemoryIo::new(plain.clone(), plain.len() + 4096);
    let mut pwd = b"Random password".to_vec();
    let mut encryptor = Encryptor::new(&mut pwd, cheap_instance(PREDEFINED_NONCE.to_vec())).unwrap();
    encryptor.runloop(&mut io).unwrap();
    let again = encryptor.runloop(&mut io).unwrap_err();
    assert_eq!(again, CpError::Unsupported);

    let sealed = io.stdout();
    let mut dec_io = MemoryIo::new(sealed.clone(), sealed.len());
    let mut decryptor = Decryptor::new(b"Random password".to_vec());
    decryptor.runloop(&mut dec_io).unwrap();
    let again = decryptor.runloop(&mut dec_io).unwrap_err();
    assert_eq!(again, CpError::Unsupported);
}

#[test]
fn rejected_pbkdf_parameters_fail_derivation() {
    // A zero pass count is outside the primitive's accepted range.
    let pbkdf = Argon2i::with_nonce(PREDEFINED_NONCE.to_vec(), 0, 1, 1);
    let mut password = b"pw".to_vec();
    let err = pbkdf.derive(&mut password).unwrap_err();
    assert_eq!(err, CpError::InvalidParameter);
    // A short nonce is rejected as well.
    let pbkdf = Argon2i::with_nonce(b"tiny".to_vec(), 1, 1, 1);
    let mut password = b"pw".to_vec();
    let err = pbkdf.derive(&mut password).unwrap_err();
    assert_eq!(err, CpError::InvalidParameter);
}
