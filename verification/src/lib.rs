//! A verified codec for DNS messages carried over UDP: the fixed 12-byte
//! header, length-prefixed domain-name labels with compression pointers,
//! question and answer sections, and the top-level message assembly.

pub mod types;
pub mod wire;
pub mod parse;
pub mod encode;
pub mod resolve;
pub mod laws;
