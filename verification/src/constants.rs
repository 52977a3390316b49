//! The fixed sizes of the wire format and of the key schedule.

use vstd::prelude::*;

verus! {

/// Length of the master key that the password-based KDF produces.
pub const KDF_KEY_SIZE: usize = 32;

/// Length of a per-chunk cipher key.
pub const CIPHER_KEY_SIZE: usize = 32;

/// Length of a per-chunk one-time MAC key.
pub const MAC_KEY_SIZE: usize = 32;

/// Length of the PBKDF nonce (salt) carried in the stream header.
pub const PBKDF_NONCE_SIZE: usize = 32;

/// Length of the Poly1305 authentication tag appended to every chunk.
pub const MAC_SIZE: usize = 16;

/// Plaintext bytes per chunk; every non-terminal chunk carries exactly this
/// many, the terminal chunk fewer (possibly zero).
pub const CHUNK_DATA_SIZE: usize = 1048576;

/// Size of the fixed binary header of the legacy container layout.
pub const STREAM_HEADER_SIZE: usize = 50;

/// Version tuple of the legacy container layout.
pub const STREAM_VERSION_MAJOR: u8 = 0;

/// Version tuple of the legacy container layout.
pub const STREAM_VERSION_MINOR: u8 = 2;

/// Version tuple of the legacy container layout.
pub const STREAM_VERSION_PATCH: u8 = 0;

/// Algorithm identifier of the only PBKDF of the legacy layout.
pub const PBKDF_ALGO_ID: u8 = 0;

/// Algorithm identifier of the only KDF of the legacy layout.
pub const KDF_ALGO_ID: u8 = 0;

/// Algorithm identifier of the only AEAD of the legacy layout.
pub const AEAD_ALGO_ID: u8 = 0;

/// Largest stream-header encoding that the incremental parser accepts: a
/// cap against maliciously huge length prefixes, just above the largest
/// header a wire-format nonce can produce.
pub const MAX_HEADER_SIZE: usize = 65539;

} // verus!
