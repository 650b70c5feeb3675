//! A minimal key-value store for binary-encoded terms.
//!
//! The crate has three layers. The term codec (`term`) encodes a small
//! recursive value algebra — booleans, 64-bit IEEE-754 numbers carried as
//! their bit patterns, UTF-8 strings, and ordered pairs — into a
//! self-describing byte format, and decodes it back. The protocol codec
//! (`protocol`, `response`) frames requests (fetch, set, delete a named
//! value) and responses on top of that format. The server layer (`storage`,
//! `server`) dispatches decoded requests against an in-memory name-to-term
//! table and produces the encoded response.
//!
//! Every encoder and decoder is verified against a byte-level specification
//! of the wire format, with round-trip and length-exactness proofs.

pub mod encoding;
pub mod protocol;
pub mod response;
pub mod server;
pub mod storage;
pub mod term;
pub mod wire;
