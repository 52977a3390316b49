//! CryptoPipe: an authenticated, password-encrypted byte-stream container.
//!
//! The crate turns a password into per-chunk cipher and MAC keys, seals a
//! plaintext stream into `header ‖ chunk*` where every chunk is
//! `ciphertext ‖ tag`, and opens such a stream again, refusing to emit
//! plaintext before the chunk's tag has been verified.
//!
//! The wire codec, the key schedule, the chunk pipeline and both
//! runloops are specified against sequence-level models of their inputs
//! and outputs; that opening a sealed stream under the same password
//! restores the plaintext exactly is proved in
//! [`stream::lemma_seal_open_stream`].

pub mod error;
pub mod constants;
pub mod primitives;
pub mod der;
pub mod kdf;
pub mod auth_enc;
pub mod pbkdf;
pub mod crypto;
pub mod io;
pub mod stream;
pub mod schedule;
pub mod chunks;
pub mod io_processor;
pub mod io_runloop;
