//! The response side of the wire protocol.
//!
//! A response is a single tag byte; only the variant that carries a term
//! adds a payload frame, identical to the one a store request uses. The
//! codec is verified against [`response_bytes`] and [`parse_response`],
//! and [`lemma_response_roundtrip`] proves that decoding an encoding
//! returns the original response.

use vstd::prelude::*;

use crate::encoding::{Decode, Encode};
use crate::protocol::ProtocolError;
use crate::term::{lemma_term_roundtrip, parse_term, term_bytes, term_wf, Term, TermV};
use crate::wire::{be64_bytes, be64_value, lemma_be64_roundtrip, read_be64, write_be64};

verus! {

/// Tag byte of a response carrying a fetched term.
pub const TAG_OK: u8 = 50;

/// Tag byte of a response confirming a store or delete.
pub const TAG_PROCESSED: u8 = 51;

/// Tag byte of a response to a fetch that found nothing.
pub const TAG_NOT_FOUND: u8 = 52;

/// Tag byte of a response to a request that could not be decoded.
pub const TAG_UNPROCESSED: u8 = 53;

/// Tag byte of a response to an internal failure.
pub const TAG_SERVER_ERROR: u8 = 54;

/// The server's single reply to a request.
#[derive(Debug, PartialEq)]
pub enum Response {
    /// A fetch hit, carrying the stored term.
    Value(Term),
    /// A store or delete completed.
    Processed,
    /// A fetch miss.
    NotFound,
    /// The request could not be decoded.
    Unprocessed,
    /// An internal failure; no core dispatch path produces it.
    ServerError,
}

/// The mathematical model of a response.
pub enum ResponseV {
    Value(TermV),
    Processed,
    NotFound,
    Unprocessed,
    ServerError,
}

impl View for Response {
    type V = ResponseV;

    open spec fn view(&self) -> ResponseV {
        match self {
            Response::Value(t) => ResponseV::Value(t@),
            Response::Processed => ResponseV::Processed,
            Response::NotFound => ResponseV::NotFound,
            Response::Unprocessed => ResponseV::Unprocessed,
            Response::ServerError => ResponseV::ServerError,
        }
    }
}

/// The wire bytes of a response: one tag byte, and for a fetched term its
/// payload framed as an 8-byte big-endian byte count plus the term bytes.
pub open spec fn response_bytes(r: ResponseV) -> Seq<u8> {
    match r {
        ResponseV::Value(t) => seq![TAG_OK] + be64_bytes(term_bytes(t).len() as u64) + term_bytes(t),
        ResponseV::Processed => seq![TAG_PROCESSED],
        ResponseV::NotFound => seq![TAG_NOT_FOUND],
        ResponseV::Unprocessed => seq![TAG_UNPROCESSED],
        ResponseV::ServerError => seq![TAG_SERVER_ERROR],
    }
}

/// A response model is well formed when its payload, if any, fits the
/// fixed 64-bit length field. Every response held in memory satisfies
/// this.
pub open spec fn response_wf(r: ResponseV) -> bool {
    match r {
        ResponseV::Value(t) => term_wf(t) && term_bytes(t).len() <= u64::MAX,
        _ => true,
    }
}

/// The result of reading one response from the front of a byte sequence.
/// The payload frame of a term-carrying response is read whole; a term
/// failure inside it surfaces as `InvalidPayload`.
pub open spec fn parse_response(s: Seq<u8>) -> Result<(ResponseV, int), ProtocolError> {
    if s.len() < 1 {
        Err(ProtocolError::Truncated)
    } else if s[0] == TAG_OK {
        if s.len() < 9 {
            Err(ProtocolError::Truncated)
        } else {
            let psize = be64_value(s.subrange(1, 9)) as int;
            if s.len() < 9 + psize {
                Err(ProtocolError::Truncated)
            } else {
                match parse_term(s.subrange(9, 9 + psize)) {
                    Err(_) => Err(ProtocolError::InvalidPayload),
                    Ok((t, _)) => Ok((ResponseV::Value(t), 9 + psize)),
                }
            }
        }
    } else if s[0] == TAG_PROCESSED {
        Ok((ResponseV::Processed, 1))
    } else if s[0] == TAG_NOT_FOUND {
        Ok((ResponseV::NotFound, 1))
    } else if s[0] == TAG_UNPROCESSED {
        Ok((ResponseV::Unprocessed, 1))
    } else if s[0] == TAG_SERVER_ERROR {
        Ok((ResponseV::ServerError, 1))
    } else {
        Err(ProtocolError::InvalidTag)
    }
}

/// Encodes the given response into a fresh buffer.
fn encode_to(resp: &Response) -> (r: Vec<u8>)
    ensures
        r@ == response_bytes(resp@),
{
    let mut buf: Vec<u8> = Vec::new();
    match resp {
        Response::Value(term) => {
            buf.push(TAG_OK);
            let payload = crate::term::encode(term);
            write_be64(&mut buf, payload.len() as u64);
            buf.extend_from_slice(payload.as_slice());
            proof {
                assert(buf@ =~= response_bytes(resp@));
            }
        },
        Response::Processed => {
            buf.push(TAG_PROCESSED);
            proof {
                assert(buf@ =~= response_bytes(resp@));
            }
        },
        Response::NotFound => {
            buf.push(TAG_NOT_FOUND);
            proof {
                assert(buf@ =~= response_bytes(resp@));
            }
        },
        Response::Unprocessed => {
            buf.push(TAG_UNPROCESSED);
            proof {
                assert(buf@ =~= response_bytes(resp@));
            }
        },
        Response::ServerError => {
            buf.push(TAG_SERVER_ERROR);
            proof {
                assert(buf@ =~= response_bytes(resp@));
            }
        },
    }
    buf
}

/// Encodes the given response.
pub fn encode(resp: Response) -> (r: Vec<u8>)
    ensures
        r@ == response_bytes(resp@),
{
    encode_to(&resp)
}

/// Decodes one response from the front of the given slice, returning it
/// with the number of bytes consumed.
pub fn decode(slice: &[u8]) -> (r: Result<(Response, usize), ProtocolError>)
    ensures
        match parse_response(slice@) {
            Ok((rv, n)) => r matches Ok(p) && p.0@ == rv && p.1 == n,
            Err(e) => r matches Err(e2) && e2 == e,
        },
{
    proof {
        vstd::slice::axiom_spec_len(slice);
    }
    if slice.len() < 1 {
        return Err(ProtocolError::Truncated);
    }
    let tag = slice[0];
    match tag {
        TAG_OK => {
            if slice.len() < 9 {
                return Err(ProtocolError::Truncated);
            }
            let psize = read_be64(slice, 1);
            let avail = slice.len() - 9;
            if psize > avail as u64 {
                return Err(ProtocolError::Truncated);
            }
            let n = psize as usize;
            let frame = vstd::slice::slice_subrange(slice, 9, 9 + n);
            proof {
                assert(frame@ =~= slice@.subrange(9, 9 + psize as int));
            }
            match crate::term::decode(frame) {
                Err(_) => Err(ProtocolError::InvalidPayload),
                Ok((t, _)) => Ok((Response::Value(t), 9 + n)),
            }
        },
        TAG_PROCESSED => Ok((Response::Processed, 1)),
        TAG_NOT_FOUND => Ok((Response::NotFound, 1)),
        TAG_UNPROCESSED => Ok((Response::Unprocessed, 1)),
        TAG_SERVER_ERROR => Ok((Response::ServerError, 1)),
        _ => Err(ProtocolError::InvalidTag),
    }
}

impl Encode for Response {
    open spec fn wire(&self) -> Seq<u8> {
        response_bytes(self@)
    }

    fn encode(&self) -> (r: Vec<u8>) {
        encode_to(self)
    }
}

impl Decode for Response {
    type Error = ProtocolError;

    open spec fn parsed(bytes: Seq<u8>) -> Result<(ResponseV, int), ProtocolError> {
        parse_response(bytes)
    }

    fn decode(bytes: &[u8]) -> (r: Result<(Response, usize), ProtocolError>) {
        decode(bytes)
    }
}

/// Decoding the exact encoding of a well-formed response returns the
/// response and consumes the whole input.
pub proof fn lemma_response_roundtrip(r: ResponseV)
    requires
        response_wf(r),
    ensures
        parse_response(response_bytes(r)) == Ok::<(ResponseV, int), ProtocolError>(
            (r, response_bytes(r).len() as int),
        ),
{
    let s = response_bytes(r);
    match r {
        ResponseV::Value(t) => {
            let pb = term_bytes(t);
            let plen = pb.len() as u64;
            assert(s[0] == TAG_OK);
            assert(be64_bytes(plen).len() == 8);
            assert(s.subrange(1, 9) =~= be64_bytes(plen));
            lemma_be64_roundtrip(plen);
            assert(s.subrange(9, 9 + pb.len() as int) =~= pb);
            lemma_term_roundtrip(t);
        },
        _ => {
        },
    }
}

} // verus!
