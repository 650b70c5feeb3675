//! The encoding interface shared by every message type of the system.
//!
//! A type that goes on the wire implements [`Encode`], which names its wire
//! bytes at the specification level and produces them executably, and
//! [`Decode`], which reads one value back from a byte slice against an
//! exact specification parse.

use vstd::prelude::*;

verus! {

/// A value with a byte-level wire representation.
pub trait Encode {
    /// The wire bytes of this value's model.
    spec fn wire(&self) -> Seq<u8>;

    /// Produces exactly the wire bytes of this value.
    fn encode(&self) -> (r: Vec<u8>)
        ensures
            r@ == self.wire(),
    ;
}

/// A value that can be read back from the front of a byte slice.
///
/// `parsed` is the specification of the whole decoder: for every input it
/// names either the model of the decoded value with the number of bytes
/// consumed, or the error. `decode` must agree with it exactly.
pub trait Decode: View + Sized {
    /// The decoder's error type.
    type Error;

    /// The specification parse of the front of a byte sequence.
    spec fn parsed(bytes: Seq<u8>) -> Result<(Self::V, int), Self::Error>;

    /// Decodes one value from the front of the slice, returning it with
    /// the number of bytes consumed; trailing bytes are ignored.
    fn decode(bytes: &[u8]) -> (r: Result<(Self, usize), Self::Error>)
        ensures
            match Self::parsed(bytes@) {
                Ok((m, n)) => r matches Ok(p) && p.0@ == m && p.1 == n,
                Err(e) => r matches Err(e2) && e2 == e,
            },
    ;
}

} // verus!
