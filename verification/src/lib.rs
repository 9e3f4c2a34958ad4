//! Core of a password-protected backup tool: a chunked, authenticated
//! encryption pipeline over a length-prefixed on-disk container.
//!
//! The library covers the pure logic of the tool: the 5-byte big-endian
//! section codec, key derivation, the AES-256-GCM chunk transforms, the
//! order-preserving task queue, the chunked encrypt/decrypt pipeline and the
//! validation rules of the backup facade. File handling, threads and the
//! command line live in the surrounding application.

pub mod codec;
pub mod crypto;
pub mod format;
pub mod memory;
pub mod paths;
pub mod pipeline;
pub mod pool;
pub mod types;
pub mod validate;
