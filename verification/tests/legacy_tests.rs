//! Tests of the fixed-layout container: its parameter block and binary
//! header, the keystream-offset key schedule, and the processor-driven
//! runloop.

use cryptopipe::schedule::{PbkdfInfo, Kdf};
use cryptopipe::chunks::Aead;
use cryptopipe::io_processor::{StreamHeader, IoEncryptor, IoDecryptor};
use cryptopipe::io_runloop::IoRunloop;
use cryptopipe::io::{Io, MemoryIo};
use cryptopipe::primitives::Key;
use cryptopipe::error::{CpError, ErrorText};

fn pattern(len: usize) -> Vec<u8> {
    let mut out = Vec::with_capacity(len);
    let mut state: u32 = 0xCAFE_F00D;
    for _ in 0..len {
        state = state.wrapping_mul(22695477).wrapping_add(1);
        out.push((state >> 23) as u8);
    }
    out
}

#[test]
fn pbkdf_info_roundtrips() {
    let info = PbkdfInfo {
        nonce: pattern(32),
        iterations: 8,
        memory_requirements: 262144,
        parallelism: 4,
    };
    let mut buffer = vec![0u8; 44];
    info.serialize(&mut buffer).unwrap();
    let parsed = PbkdfInfo::parse(&buffer).unwrap();
    assert_eq!(parsed.nonce, info.nonce);
    assert_eq!(parsed.iterations, 8);
    assert_eq!(parsed.memory_requirements, 262144);
    assert_eq!(parsed.parallelism, 4);
}

#[test]
fn pbkdf_info_rejects_short_buffers() {
    let info = PbkdfInfo::new(8, 262144, 4);
    let mut short = vec![0u8; 43];
    assert_eq!(info.serialize(&mut short), Err(CpError::InvalidParameter));
    assert!(PbkdfInfo::parse(&short).is_err());
}

#[test]
fn stream_header_roundtrips() {
    let nonce = pattern(32);
    let header = StreamHeader::new(&nonce, 8, 262144, 4).unwrap();
    let mut buffer = vec![0u8; 50];
    header.serialize(&mut buffer).unwrap();
    assert_eq!(&buffer[..3], &[0, 2, 0]);
    assert_eq!(&buffer[3..6], &[0, 0, 0]);
    let parsed = StreamHeader::parse(&buffer).unwrap();
    assert_eq!(parsed.pbkdf_nonce, nonce);
    assert_eq!(parsed.pbkdf_iterations, 8);
    assert_eq!(parsed.pbkdf_memory_requirements, 262144);
    assert_eq!(parsed.pbkdf_parallelism, 4);
}

#[test]
fn stream_header_rejects_wrong_nonce_size() {
    let nonce = pattern(16);
    assert_eq!(
        StreamHeader::new(&nonce, 8, 262144, 4).err(),
        Some(CpError::Unsupported)
    );
}

#[test]
fn key_schedule_single_use() {
    // After the terminal derivation the schedule is spent: the next call
    // fails loudly instead of reusing key material.
    let mut kdf = Kdf::new(Key::from_bytes(pattern(32)));
    let mut cipher_key = Key::new(32);
    let mut mac_key = Key::new(32);
    kdf.next(&mut cipher_key, &mut mac_key, false).unwrap();
    kdf.next(&mut cipher_key, &mut mac_key, true).unwrap();
    let err = kdf.next(&mut cipher_key, &mut mac_key, false).unwrap_err();
    assert_eq!(err, CpError::InvalidParameter);
}

#[test]
fn key_schedule_keys_differ_between_chunks() {
    let mut kdf = Kdf::new(Key::from_bytes(pattern(32)));
    let mut ck1 = Key::new(32);
    let mut mk1 = Key::new(32);
    kdf.next(&mut ck1, &mut mk1, false).unwrap();
    let mut ck2 = Key::new(32);
    let mut mk2 = Key::new(32);
    kdf.next(&mut ck2, &mut mk2, false).unwrap();
    assert_ne!(ck1.as_slice(), ck2.as_slice());
    assert_ne!(mk1.as_slice(), mk2.as_slice());
    assert_ne!(ck1.as_slice(), mk1.as_slice());
}

#[test]
fn legacy_chunk_roundtrip_and_tamper() {
    let plain = pattern(1000);
    let master = pattern(32);
    let mut seal_side = Aead::new(0, Kdf::new(Key::from_bytes(master.clone()))).unwrap();
    let mut buffer = plain.clone();
    buffer.extend_from_slice(&[0u8; 16]);
    let sealed_len = seal_side.encrypt_chunk(&mut buffer, plain.len(), true).unwrap();
    assert_eq!(sealed_len, plain.len() + 16);
    assert_ne!(&buffer[..plain.len()], plain.as_slice());

    let mut open_side = Aead::new(0, Kdf::new(Key::from_bytes(master.clone()))).unwrap();
    let mut opened = buffer.clone();
    let plain_len = open_side.decrypt_chunk(&mut opened, sealed_len, true).unwrap();
    assert_eq!(plain_len, plain.len());
    assert_eq!(&opened[..plain_len], plain.as_slice());

    let mut tampered_side = Aead::new(0, Kdf::new(Key::from_bytes(master))).unwrap();
    let mut tampered = buffer.clone();
    tampered[3] ^= 0x01;
    let err = tampered_side.decrypt_chunk(&mut tampered, sealed_len, true).unwrap_err();
    assert_eq!(err, CpError::InvalidData(ErrorText::InvalidAuthenticationTag));
}

#[test]
fn legacy_header_with_unknown_kdf_is_unsupported() {
    let plain = pattern(100);
    let mut password = b"legacy password".to_vec();
    let encryptor = IoEncryptor::with_nonce(&mut password, &pattern(32), 1, 1024, 1).unwrap();
    let io = MemoryIo::new(plain.clone(), plain.len() + 4096);
    let mut seal_loop = IoRunloop::new(encryptor, io);
    seal_loop.start().unwrap();
    let mut sealed = seal_loop.io_handle.stdout();
    // Byte 4 of the fixed header names the KDF algorithm.
    sealed[4] = 9;

    let decryptor = IoDecryptor::new(b"legacy password".to_vec());
    let io = MemoryIo::new(sealed.clone(), sealed.len());
    let mut open_loop = IoRunloop::new(decryptor, io);
    assert_eq!(open_loop.start().unwrap_err(), CpError::Unsupported);
}

#[test]
fn legacy_aead_rejects_unknown_algorithm() {
    let kdf = Kdf::new(Key::from_bytes(pattern(32)));
    assert_eq!(Aead::new(7, kdf).err(), Some(CpError::Unsupported));
}

#[test]
fn legacy_runloop_roundtrip() {
    let plain = pattern(70000);
    let mut password = b"legacy password".to_vec();
    let encryptor = IoEncryptor::new(&mut password, 1, 1024, 1).unwrap();
    assert_eq!(password, vec![0u8; 15]);
    let io = MemoryIo::new(plain.clone(), plain.len() + 4096);
    let mut seal_loop = IoRunloop::new(encryptor, io);
    seal_loop.start().unwrap();
    let sealed = seal_loop.io_handle.stdout();
    assert_eq!(&sealed[..3], &[0, 2, 0]);

    let decryptor = IoDecryptor::new(b"legacy password".to_vec());
    let io = MemoryIo::new(sealed.clone(), sealed.len());
    let mut open_loop = IoRunloop::new(decryptor, io);
    open_loop.start().unwrap();
    assert_eq!(open_loop.io_handle.stdout(), plain);
}

#[test]
fn legacy_runloop_detects_tampering() {
    let plain = pattern(5000);
    let mut password = b"legacy password".to_vec();
    let encryptor = IoEncryptor::with_nonce(&mut password, &pattern(32), 1, 1024, 1).unwrap();
    let io = MemoryIo::new(plain.clone(), plain.len() + 4096);
    let mut seal_loop = IoRunloop::new(encryptor, io);
    seal_loop.start().unwrap();
    let mut sealed = seal_loop.io_handle.stdout();
    sealed[60] ^= 0x20;

    let decryptor = IoDecryptor::new(b"legacy password".to_vec());
    let io = MemoryIo::new(sealed.clone(), sealed.len());
    let mut open_loop = IoRunloop::new(decryptor, io);
    let err = open_loop.start().unwrap_err();
    assert_eq!(err, CpError::InvalidData(ErrorText::InvalidAuthenticationTag));
}

#[test]
fn memory_io_chunk_boundaries() {
    // An input of exactly one cap is not final until the empty follow-up
    // read says so.
    let mut io = MemoryIo::new(vec![9u8; 8], 0);
    let mut buffer = vec![0u8; 8];
    let (n, last) = io.read_chunk(&mut buffer, 8).unwrap();
    assert_eq!((n, last), (8, false));
    let (n, last) = io.read_chunk(&mut buffer, 8).unwrap();
    assert_eq!((n, last), (0, true));
    // A short read is final immediately.
    let mut io = MemoryIo::new(vec![7u8; 5], 0);
    let (n, last) = io.read_chunk(&mut buffer, 8).unwrap();
    assert_eq!((n, last), (5, true));
    assert_eq!(&buffer[..5], &[7u8; 5]);
}
