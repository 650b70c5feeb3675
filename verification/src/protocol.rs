//! The request side of the wire protocol.
//!
//! A request is one byte of tag (fetch, set, delete), then the name framed
//! as an 8-byte big-endian byte count followed by its UTF-8 bytes; a set
//! request additionally carries its term payload framed the same way. The
//! codec is verified against [`request_bytes`] and [`parse_request`], and
//! [`lemma_request_roundtrip`] proves that decoding an encoding returns
//! the original request.

use vstd::prelude::*;
use vstd::utf8::*;

use crate::encoding::{Decode, Encode};
use crate::term::{
    lemma_term_roundtrip, parse_term, string_from_utf8, term_bytes, term_wf, Term, TermV,
};
use crate::wire::{be64_bytes, be64_value, lemma_be64_roundtrip, read_be64, write_be64};

verus! {

/// Tag byte of a fetch request.
pub const TAG_FETCH: u8 = 10;

/// Tag byte of a set request.
pub const TAG_SET: u8 = 11;

/// Tag byte of a delete request.
pub const TAG_DELETE: u8 = 12;

/// A request to read the term stored under a name.
#[derive(Debug, PartialEq)]
pub struct Fetch {
    pub name: String,
}

/// A request to store a term under a name, inserting or overwriting.
#[derive(Debug, PartialEq)]
pub struct Store {
    pub name: String,
    pub payload: Term,
}

/// A request to remove the term stored under a name; removing an absent
/// name is not an error.
#[derive(Debug, PartialEq)]
pub struct Delete {
    pub name: String,
}

/// A client request: exactly one of the three commands.
#[derive(Debug, PartialEq)]
pub enum Protocol {
    Fetch(Fetch),
    Store(Store),
    Delete(Delete),
}

/// The mathematical model of a request.
pub enum ProtocolV {
    Fetch { name: Seq<char> },
    Store { name: Seq<char>, payload: TermV },
    Delete { name: Seq<char> },
}

impl View for Protocol {
    type V = ProtocolV;

    open spec fn view(&self) -> ProtocolV {
        match self {
            Protocol::Fetch(f) => ProtocolV::Fetch { name: f.name@ },
            Protocol::Store(sr) => ProtocolV::Store { name: sr.name@, payload: sr.payload@ },
            Protocol::Delete(d) => ProtocolV::Delete { name: d.name@ },
        }
    }
}

/// Why a byte stream failed to decode as a request or a response.
#[derive(Clone, Copy, Debug, PartialEq, Eq, Structural)]
pub enum ProtocolError {
    /// The input ended before a required field was fully read.
    Truncated,
    /// An unrecognized tag byte.
    InvalidTag,
    /// A name whose declared bytes are not valid UTF-8.
    InvalidUtf8,
    /// An embedded term payload that failed to decode.
    InvalidPayload,
}

/// The wire frame of a name: an 8-byte big-endian byte count, then the
/// name's UTF-8 bytes.
pub open spec fn name_bytes(name: Seq<char>) -> Seq<u8> {
    be64_bytes(encode_utf8(name).len() as u64) + encode_utf8(name)
}

/// The wire bytes of a request.
pub open spec fn request_bytes(r: ProtocolV) -> Seq<u8> {
    match r {
        ProtocolV::Fetch { name } => seq![TAG_FETCH] + name_bytes(name),
        ProtocolV::Store { name, payload } => seq![TAG_SET] + name_bytes(name) + be64_bytes(
            term_bytes(payload).len() as u64,
        ) + term_bytes(payload),
        ProtocolV::Delete { name } => seq![TAG_DELETE] + name_bytes(name),
    }
}

/// A request model is well formed when its name and, for a set, its
/// payload fit the fixed 64-bit length fields. Every request held in
/// memory satisfies this.
pub open spec fn request_wf(r: ProtocolV) -> bool {
    match r {
        ProtocolV::Fetch { name } => encode_utf8(name).len() <= u64::MAX,
        ProtocolV::Store { name, payload } => encode_utf8(name).len() <= u64::MAX && term_wf(payload)
            && term_bytes(payload).len() <= u64::MAX,
        ProtocolV::Delete { name } => encode_utf8(name).len() <= u64::MAX,
    }
}

/// The result of reading one name frame from the front of a byte
/// sequence: the name's characters and the bytes consumed, or the error.
pub open spec fn parse_name(s: Seq<u8>) -> Result<(Seq<char>, int), ProtocolError> {
    if s.len() < 8 {
        Err(ProtocolError::Truncated)
    } else {
        let n = be64_value(s.subrange(0, 8)) as int;
        if s.len() < 8 + n {
            Err(ProtocolError::Truncated)
        } else if !valid_utf8(s.subrange(8, 8 + n)) {
            Err(ProtocolError::InvalidUtf8)
        } else {
            Ok((decode_utf8(s.subrange(8, 8 + n)), 8 + n))
        }
    }
}

/// The result of reading one request from the front of a byte sequence.
/// A set request's payload frame is read whole; the term inside it is
/// decoded from that frame alone, and a term failure surfaces as
/// `InvalidPayload`.
pub open spec fn parse_request(s: Seq<u8>) -> Result<(ProtocolV, int), ProtocolError> {
    if s.len() < 1 {
        Err(ProtocolError::Truncated)
    } else if s[0] == TAG_FETCH {
        match parse_name(s.subrange(1, s.len() as int)) {
            Err(e) => Err(e),
            Ok((name, c)) => Ok((ProtocolV::Fetch { name }, 1 + c)),
        }
    } else if s[0] == TAG_SET {
        match parse_name(s.subrange(1, s.len() as int)) {
            Err(e) => Err(e),
            Ok((name, c)) => if 0 <= c && 1 + c + 8 <= s.len() {
                let psize = be64_value(s.subrange(1 + c, 1 + c + 8)) as int;
                if s.len() < 1 + c + 8 + psize {
                    Err(ProtocolError::Truncated)
                } else {
                    match parse_term(s.subrange(1 + c + 8, 1 + c + 8 + psize)) {
                        Err(_) => Err(ProtocolError::InvalidPayload),
                        Ok((payload, _)) => Ok((ProtocolV::Store { name, payload }, 1 + c + 8
                            + psize)),
                    }
                }
            } else {
                Err(ProtocolError::Truncated)
            },
        }
    } else if s[0] == TAG_DELETE {
        match parse_name(s.subrange(1, s.len() as int)) {
            Err(e) => Err(e),
            Ok((name, c)) => Ok((ProtocolV::Delete { name }, 1 + c)),
        }
    } else {
        Err(ProtocolError::InvalidTag)
    }
}

/// Appends a name frame: the name's byte count as 8 big-endian bytes,
/// then its UTF-8 bytes.
pub fn write_name(name: &str, writer: &mut Vec<u8>)
    ensures
        final(writer)@ == old(writer)@ + name_bytes(name@),
{
    let bytes = name.as_bytes();
    write_be64(writer, bytes.len() as u64);
    writer.extend_from_slice(bytes);
    proof {
        assert(writer@ =~= old(writer)@ + name_bytes(name@));
    }
}

/// Reads one name frame starting at `pos`, returning the name and the
/// position just past the frame.
pub fn read_name(slice: &[u8], pos: usize) -> (r: Result<(String, usize), ProtocolError>)
    requires
        pos <= slice@.len(),
    ensures
        match parse_name(slice@.subrange(pos as int, slice@.len() as int)) {
            Ok((nm, c)) => r matches Ok(p) && p.0@ == nm && p.1 == pos + c && pos < p.1
                <= slice@.len(),
            Err(e) => r matches Err(e2) && e2 == e,
        },
{
    let ghost rem = slice@.subrange(pos as int, slice@.len() as int);
    if slice.len() - pos < 8 {
        return Err(ProtocolError::Truncated);
    }
    let declared = read_be64(slice, pos);
    proof {
        assert(slice@.subrange(pos as int, pos as int + 8) =~= rem.subrange(0, 8));
    }
    let avail = slice.len() - pos - 8;
    if declared > avail as u64 {
        return Err(ProtocolError::Truncated);
    }
    let n = declared as usize;
    let body = vstd::slice::slice_subrange(slice, pos + 8, pos + 8 + n);
    proof {
        assert(body@ =~= rem.subrange(8, 8 + declared as int));
    }
    let bytes = vstd::slice::slice_to_vec(body);
    match string_from_utf8(bytes) {
        Some(s) => {
            proof {
                encode_utf8_decode_utf8(s@);
                assert(decode_utf8(body@) == s@);
            }
            Ok((s, pos + 8 + n))
        },
        None => Err(ProtocolError::InvalidUtf8),
    }
}

/// Encodes the given request.
fn encode(prot: &Protocol) -> (r: Vec<u8>)
    ensures
        r@ == request_bytes(prot@),
{
    let mut buf: Vec<u8> = Vec::new();
    match prot {
        Protocol::Fetch(Fetch { name }) => {
            buf.push(TAG_FETCH);
            write_name(name.as_str(), &mut buf);
            proof {
                assert(buf@ =~= request_bytes(prot@));
            }
        },
        Protocol::Store(Store { name, payload }) => {
            buf.push(TAG_SET);
            write_name(name.as_str(), &mut buf);
            let payload_bytes = crate::term::encode(payload);
            write_be64(&mut buf, payload_bytes.len() as u64);
            buf.extend_from_slice(payload_bytes.as_slice());
            proof {
                assert(buf@ =~= request_bytes(prot@));
            }
        },
        Protocol::Delete(Delete { name }) => {
            buf.push(TAG_DELETE);
            write_name(name.as_str(), &mut buf);
            proof {
                assert(buf@ =~= request_bytes(prot@));
            }
        },
    }
    buf
}

/// Decodes one request from the front of the given slice.
fn decode(slice: &[u8]) -> (r: Result<(Protocol, usize), ProtocolError>)
    ensures
        match parse_request(slice@) {
            Ok((rv, n)) => r matches Ok(p) && p.0@ == rv && p.1 == n,
            Err(e) => r matches Err(e2) && e2 == e,
        },
{
    proof {
        vstd::slice::axiom_spec_len(slice);
    }
    if slice.len() < 1 {
        return Err(ProtocolError::Truncated);
    }
    let tag = slice[0];
    match tag {
        TAG_FETCH => match read_name(slice, 1) {
            Err(e) => Err(e),
            Ok((name, end)) => Ok((Protocol::Fetch(Fetch { name }), end)),
        },
        TAG_SET => {
            let (name, mid) = match read_name(slice, 1) {
                Err(e) => {
                    return Err(e);
                },
                Ok(p) => p,
            };
            if slice.len() - mid < 8 {
                return Err(ProtocolError::Truncated);
            }
            let psize = read_be64(slice, mid);
            let avail = slice.len() - mid - 8;
            if psize > avail as u64 {
                return Err(ProtocolError::Truncated);
            }
            let n = psize as usize;
            let frame = vstd::slice::slice_subrange(slice, mid + 8, mid + 8 + n);
            proof {
                assert(frame@ =~= slice@.subrange(
                    mid as int + 8,
                    mid as int + 8 + psize as int,
                ));
            }
            match crate::term::decode(frame) {
                Err(_) => Err(ProtocolError::InvalidPayload),
                Ok((payload, _)) => Ok((Protocol::Store(Store { name, payload }), mid + 8 + n)),
            }
        },
        TAG_DELETE => match read_name(slice, 1) {
            Err(e) => Err(e),
            Ok((name, end)) => Ok((Protocol::Delete(Delete { name }), end)),
        },
        _ => Err(ProtocolError::InvalidTag),
    }
}

impl Encode for Protocol {
    open spec fn wire(&self) -> Seq<u8> {
        request_bytes(self@)
    }

    fn encode(&self) -> (r: Vec<u8>) {
        encode(self)
    }
}

impl Decode for Protocol {
    type Error = ProtocolError;

    open spec fn parsed(bytes: Seq<u8>) -> Result<(ProtocolV, int), ProtocolError> {
        parse_request(bytes)
    }

    fn decode(bytes: &[u8]) -> (r: Result<(Protocol, usize), ProtocolError>) {
        decode(bytes)
    }
}

/// Decoding an encoded name frame followed by arbitrary trailing bytes
/// yields the original name and consumes exactly the frame.
pub proof fn lemma_name_roundtrip(name: Seq<char>, rest: Seq<u8>)
    requires
        encode_utf8(name).len() <= u64::MAX,
    ensures
        parse_name(name_bytes(name) + rest) == Ok::<(Seq<char>, int), ProtocolError>(
            (name, name_bytes(name).len() as int),
        ),
{
    let u = encode_utf8(name);
    let len = u.len() as u64;
    let s = name_bytes(name) + rest;
    assert(be64_bytes(len).len() == 8);
    assert(s.subrange(0, 8) =~= be64_bytes(len));
    lemma_be64_roundtrip(len);
    assert(s.subrange(8, 8 + u.len() as int) =~= u);
    encode_utf8_valid_utf8(name);
    encode_utf8_decode_utf8(name);
}

/// Decoding the exact encoding of a well-formed request returns the
/// request and consumes the whole input.
pub proof fn lemma_request_roundtrip(r: ProtocolV)
    requires
        request_wf(r),
    ensures
        parse_request(request_bytes(r)) == Ok::<(ProtocolV, int), ProtocolError>(
            (r, request_bytes(r).len() as int),
        ),
{
    let s = request_bytes(r);
    match r {
        ProtocolV::Fetch { name } => {
            assert(s[0] == TAG_FETCH);
            assert(s.subrange(1, s.len() as int) =~= name_bytes(name) + Seq::<u8>::empty());
            lemma_name_roundtrip(name, Seq::<u8>::empty());
        },
        ProtocolV::Store { name, payload } => {
            let nb = name_bytes(name);
            let pb = term_bytes(payload);
            let plen = pb.len() as u64;
            let tail = be64_bytes(plen) + pb;
            assert(s[0] == TAG_SET);
            assert(s.subrange(1, s.len() as int) =~= nb + tail);
            lemma_name_roundtrip(name, tail);
            let c = nb.len() as int;
            assert(s.subrange(1 + c, 1 + c + 8) =~= be64_bytes(plen));
            lemma_be64_roundtrip(plen);
            assert(s.subrange(1 + c + 8, 1 + c + 8 + pb.len() as int) =~= pb);
            lemma_term_roundtrip(payload);
        },
        ProtocolV::Delete { name } => {
            assert(s[0] == TAG_DELETE);
            assert(s.subrange(1, s.len() as int) =~= name_bytes(name) + Seq::<u8>::empty());
            lemma_name_roundtrip(name, Seq::<u8>::empty());
        },
    }
}

/// A payload that decodes inside a store request is a well-formed term
/// model.
pub proof fn lemma_parse_request_payload_wf(s: Seq<u8>)
    ensures
        match parse_request(s) {
            Ok((rv, n)) => match rv {
                ProtocolV::Store { payload, .. } => term_wf(payload),
                _ => true,
            },
            Err(_) => true,
        },
{
    if s.len() >= 1 && s[0] == TAG_SET {
        match parse_name(s.subrange(1, s.len() as int)) {
            Ok((name, c)) => {
                if 0 <= c && 1 + c + 8 <= s.len() {
                    let psize = be64_value(s.subrange(1 + c, 1 + c + 8)) as int;
                    if s.len() >= 1 + c + 8 + psize {
                        crate::term::lemma_parse_ok_bounds(
                            s.subrange(1 + c + 8, 1 + c + 8 + psize),
                        );
                    }
                }
            },
            Err(_) => {
            },
        }
    }
}

impl From<Fetch> for Protocol {
    fn from(f: Fetch) -> (r: Protocol) {
        Protocol::Fetch(f)
    }
}

impl vstd::std_specs::convert::FromSpecImpl<Fetch> for Protocol {
    open spec fn obeys_from_spec() -> bool {
        true
    }

    open spec fn from_spec(f: Fetch) -> Protocol {
        Protocol::Fetch(f)
    }
}

impl From<Store> for Protocol {
    fn from(s: Store) -> (r: Protocol) {
        Protocol::Store(s)
    }
}

impl vstd::std_specs::convert::FromSpecImpl<Store> for Protocol {
    open spec fn obeys_from_spec() -> bool {
        true
    }

    open spec fn from_spec(s: Store) -> Protocol {
        Protocol::Store(s)
    }
}

impl From<Delete> for Protocol {
    fn from(d: Delete) -> (r: Protocol) {
        Protocol::Delete(d)
    }
}

impl vstd::std_specs::convert::FromSpecImpl<Delete> for Protocol {
    open spec fn obeys_from_spec() -> bool {
        true
    }

    open spec fn from_spec(d: Delete) -> Protocol {
        Protocol::Delete(d)
    }
}

} // verus!
