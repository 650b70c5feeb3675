//! The term codec: a self-describing binary format for a small recursive
//! value algebra.
//!
//! A [`Term`] is a boolean, a 64-bit IEEE-754 number (carried as its bit
//! pattern), a UTF-8 string, or an ordered pair of two terms. [`encode`]
//! produces the wire bytes of a term; [`decode`] reads one term back from a
//! byte slice and reports how many bytes it consumed. Both are verified
//! against the specification functions [`term_bytes`] and [`parse_term`],
//! and the round-trip and length-exactness lemmas at the end of this module
//! tie the two together.

use vstd::prelude::*;
use vstd::utf8::*;

use crate::encoding::{Decode, Encode};
use crate::wire::{be64_bytes, be64_value, lemma_be64_roundtrip, read_be64, write_be64};

verus! {

/// Tag byte of a boolean term.
pub const TAG_BOOL: u8 = 20;

/// Tag byte of a number term.
pub const TAG_NUMBER: u8 = 21;

/// Tag byte of a string term.
pub const TAG_STRING: u8 = 22;

/// Tag byte of a tuple term.
pub const TAG_TUPLE: u8 = 23;

/// The value type stored and transmitted by the system.
///
/// `Number` carries the bit pattern of an IEEE-754 double-precision float;
/// callers that work with floats convert with `f64::to_bits` /
/// `f64::from_bits` at the boundary. A `Tuple` owns its two children
/// exclusively, so a term is always a finite tree.
#[derive(Debug, PartialEq)]
pub enum Term {
    Bool(bool),
    Number(u64),
    String(String),
    Tuple(Box<Term>, Box<Term>),
}

/// The mathematical model of a [`Term`]: strings become character
/// sequences, boxes stay only to satisfy representation rules.
pub enum TermV {
    Bool(bool),
    Number(u64),
    String(Seq<char>),
    Tuple(Box<TermV>, Box<TermV>),
}

/// The model of a term value.
pub open spec fn term_view(t: Term) -> TermV
    decreases t,
{
    match t {
        Term::Bool(b) => TermV::Bool(b),
        Term::Number(n) => TermV::Number(n),
        Term::String(s) => TermV::String(s@),
        Term::Tuple(a, b) => TermV::Tuple(Box::new(term_view(*a)), Box::new(term_view(*b))),
    }
}

impl View for Term {
    type V = TermV;

    open spec fn view(&self) -> TermV {
        term_view(*self)
    }
}

/// A term model is well formed when every string in it has a UTF-8 byte
/// length that fits the fixed 64-bit length field of the wire format.
/// Every term held in memory satisfies this; the bound only matters for
/// arbitrary models quantified over in proofs.
pub open spec fn term_wf(t: TermV) -> bool
    decreases t,
{
    match t {
        TermV::Bool(_) => true,
        TermV::Number(_) => true,
        TermV::String(s) => encode_utf8(s).len() <= u64::MAX,
        TermV::Tuple(a, b) => term_wf(*a) && term_wf(*b),
    }
}

/// The wire bytes of a term model: a tag byte, then the payload. Booleans
/// carry one byte, numbers their 8 big-endian bytes, strings an 8-byte
/// big-endian byte count followed by their UTF-8 bytes, and tuples the
/// encodings of their two children with no length prefix.
pub open spec fn term_bytes(t: TermV) -> Seq<u8>
    decreases t,
{
    match t {
        TermV::Bool(b) => seq![TAG_BOOL, if b { 1u8 } else { 0u8 }],
        TermV::Number(n) => seq![TAG_NUMBER] + be64_bytes(n),
        TermV::String(s) => seq![TAG_STRING] + be64_bytes(encode_utf8(s).len() as u64)
            + encode_utf8(s),
        TermV::Tuple(a, b) => seq![TAG_TUPLE] + term_bytes(*a) + term_bytes(*b),
    }
}

/// Why a byte sequence failed to decode as a term.
#[derive(Clone, Copy, Debug, PartialEq, Eq, Structural)]
pub enum DecodeError {
    /// The input ended before a required field was fully read.
    Truncated,
    /// The first byte is not a recognized tag.
    InvalidTag,
    /// A string's declared bytes are not valid UTF-8.
    InvalidUtf8,
}

/// The result of reading one term from the front of a byte sequence: the
/// term's model and the number of bytes consumed, or the error. Bytes past
/// the consumed prefix are ignored.
pub open spec fn parse_term(s: Seq<u8>) -> Result<(TermV, int), DecodeError>
    decreases s.len(),
{
    if s.len() < 1 {
        Err(DecodeError::Truncated)
    } else if s[0] == TAG_BOOL {
        if s.len() < 2 {
            Err(DecodeError::Truncated)
        } else {
            Ok((TermV::Bool(s[1] != 0), 2))
        }
    } else if s[0] == TAG_NUMBER {
        if s.len() < 9 {
            Err(DecodeError::Truncated)
        } else {
            Ok((TermV::Number(be64_value(s.subrange(1, 9))), 9))
        }
    } else if s[0] == TAG_STRING {
        if s.len() < 9 {
            Err(DecodeError::Truncated)
        } else {
            let n = be64_value(s.subrange(1, 9)) as int;
            if s.len() < 9 + n {
                Err(DecodeError::Truncated)
            } else if !valid_utf8(s.subrange(9, 9 + n)) {
                Err(DecodeError::InvalidUtf8)
            } else {
                Ok((TermV::String(decode_utf8(s.subrange(9, 9 + n))), 9 + n))
            }
        }
    } else if s[0] == TAG_TUPLE {
        match parse_term(s.subrange(1, s.len() as int)) {
            Err(e) => Err(e),
            Ok((t1, n1)) => if 0 <= n1 && 1 + n1 <= s.len() {
                match parse_term(s.subrange(1 + n1, s.len() as int)) {
                    Err(e) => Err(e),
                    Ok((t2, n2)) => Ok(
                        (TermV::Tuple(Box::new(t1), Box::new(t2)), 1 + n1 + n2),
                    ),
                }
            } else {
                Err(DecodeError::Truncated)
            },
        }
    } else {
        Err(DecodeError::InvalidTag)
    }
}

/// Encodes the given term, big-endian throughout. Total: every in-memory
/// term has an encoding.
pub fn encode(term: &Term) -> (r: Vec<u8>)
    ensures
        r@ == term_bytes(term@),
    decreases *term,
{
    let mut buf: Vec<u8> = Vec::new();
    match term {
        Term::Bool(b) => {
            buf.push(TAG_BOOL);
            buf.push(if *b {
                1
            } else {
                0
            });
            proof {
                assert(buf@ =~= term_bytes(term@));
            }
        },
        Term::Number(n) => {
            buf.push(TAG_NUMBER);
            write_be64(&mut buf, *n);
            proof {
                assert(buf@ =~= term_bytes(term@));
            }
        },
        Term::String(s) => {
            buf.push(TAG_STRING);
            let bytes = s.as_str().as_bytes();
            write_be64(&mut buf, bytes.len() as u64);
            buf.extend_from_slice(bytes);
            proof {
                assert(buf@ =~= term_bytes(term@));
            }
        },
        Term::Tuple(p0, p1) => {
            buf.push(TAG_TUPLE);
            let e0 = encode(&**p0);
            buf.extend_from_slice(e0.as_slice());
            let e1 = encode(&**p1);
            buf.extend_from_slice(e1.as_slice());
            proof {
                assert(buf@ =~= term_bytes(term@));
            }
        },
    }
    buf
}

/// Relies on `String::from_utf8`: it succeeds exactly when the bytes are
/// valid UTF-8, and the characters of the resulting string are the UTF-8
/// decoding of those bytes.
#[verifier::external_body]
pub(crate) fn string_from_utf8(v: Vec<u8>) -> (r: Option<String>)
    ensures
        r is Some <==> valid_utf8(v@),
        r matches Some(s) ==> encode_utf8(s@) == v@,
{
    String::from_utf8(v).ok()
}

/// Decodes one term from the front of the given slice, returning it with
/// the number of bytes consumed. Trailing bytes are ignored and reported
/// through the consumed count.
pub fn decode(slice: &[u8]) -> (r: Result<(Term, usize), DecodeError>)
    ensures
        match parse_term(slice@) {
            Ok((tv, n)) => r matches Ok(p) && p.0@ == tv && p.1 == n && term_wf(tv),
            Err(e) => r matches Err(e2) && e2 == e,
        },
{
    proof {
        assert(slice@.subrange(0, slice@.len() as int) =~= slice@);
        lemma_parse_ok_bounds(slice@);
    }
    do_decode(slice, 0)
}

/// Decodes one term starting at `pos`, returning the term and the position
/// just past its encoding.
fn do_decode(slice: &[u8], pos: usize) -> (r: Result<(Term, usize), DecodeError>)
    requires
        pos <= slice@.len(),
    ensures
        match parse_term(slice@.subrange(pos as int, slice@.len() as int)) {
            Ok((tv, n)) => r matches Ok(p) && p.0@ == tv && p.1 == pos + n && pos < p.1
                <= slice@.len(),
            Err(e) => r matches Err(e2) && e2 == e,
        },
    decreases slice@.len() - pos, 1int,
{
    let ghost rem = slice@.subrange(pos as int, slice@.len() as int);
    proof {
        lemma_parse_ok_bounds(rem);
    }
    if pos >= slice.len() {
        return Err(DecodeError::Truncated);
    }
    let tag = slice[pos];
    assert(tag == rem[0]);
    match tag {
        TAG_BOOL => decode_bool(slice, pos),
        TAG_NUMBER => decode_number(slice, pos),
        TAG_STRING => decode_string(slice, pos),
        TAG_TUPLE => decode_tuple(slice, pos),
        _ => Err(DecodeError::InvalidTag),
    }
}

/// Decodes a boolean term whose tag sits at `pos`: any non-zero payload
/// byte reads as true.
fn decode_bool(slice: &[u8], pos: usize) -> (r: Result<(Term, usize), DecodeError>)
    requires
        pos < slice@.len(),
        slice@[pos as int] == TAG_BOOL,
    ensures
        match parse_term(slice@.subrange(pos as int, slice@.len() as int)) {
            Ok((tv, n)) => r matches Ok(p) && p.0@ == tv && p.1 == pos + n && pos < p.1
                <= slice@.len(),
            Err(e) => r matches Err(e2) && e2 == e,
        },
{
    let ghost rem = slice@.subrange(pos as int, slice@.len() as int);
    if slice.len() - pos < 2 {
        return Err(DecodeError::Truncated);
    }
    let b = slice[pos + 1];
    assert(b == rem[1]);
    Ok((Term::Bool(b != 0), pos + 2))
}

/// Decodes a number term whose tag sits at `pos`: 8 big-endian bytes of an
/// IEEE-754 double's bit pattern.
fn decode_number(slice: &[u8], pos: usize) -> (r: Result<(Term, usize), DecodeError>)
    requires
        pos < slice@.len(),
        slice@[pos as int] == TAG_NUMBER,
    ensures
        match parse_term(slice@.subrange(pos as int, slice@.len() as int)) {
            Ok((tv, n)) => r matches Ok(p) && p.0@ == tv && p.1 == pos + n && pos < p.1
                <= slice@.len(),
            Err(e) => r matches Err(e2) && e2 == e,
        },
{
    let ghost rem = slice@.subrange(pos as int, slice@.len() as int);
    if slice.len() - pos < 9 {
        return Err(DecodeError::Truncated);
    }
    let n = read_be64(slice, pos + 1);
    proof {
        assert(slice@.subrange(pos as int + 1, pos as int + 9) =~= rem.subrange(1, 9));
    }
    Ok((Term::Number(n), pos + 9))
}

/// Decodes a string term whose tag sits at `pos`: an 8-byte big-endian
/// byte count, then that many bytes, which must be valid UTF-8.
fn decode_string(slice: &[u8], pos: usize) -> (r: Result<(Term, usize), DecodeError>)
    requires
        pos < slice@.len(),
        slice@[pos as int] == TAG_STRING,
    ensures
        match parse_term(slice@.subrange(pos as int, slice@.len() as int)) {
            Ok((tv, n)) => r matches Ok(p) && p.0@ == tv && p.1 == pos + n && pos < p.1
                <= slice@.len(),
            Err(e) => r matches Err(e2) && e2 == e,
        },
{
    let ghost rem = slice@.subrange(pos as int, slice@.len() as int);
    if slice.len() - pos < 9 {
        return Err(DecodeError::Truncated);
    }
    let declared = read_be64(slice, pos + 1);
    proof {
        assert(slice@.subrange(pos as int + 1, pos as int + 9) =~= rem.subrange(1, 9));
    }
    let avail = slice.len() - pos - 9;
    if declared > avail as u64 {
        return Err(DecodeError::Truncated);
    }
    let n = declared as usize;
    let body = vstd::slice::slice_subrange(slice, pos + 9, pos + 9 + n);
    proof {
        assert(body@ =~= rem.subrange(9, 9 + declared as int));
    }
    let bytes = vstd::slice::slice_to_vec(body);
    match string_from_utf8(bytes) {
        Some(s) => {
            proof {
                encode_utf8_decode_utf8(s@);
                assert(decode_utf8(body@) == s@);
            }
            Ok((Term::String(s), pos + 9 + n))
        },
        None => Err(DecodeError::InvalidUtf8),
    }
}

/// Decodes a tuple term whose tag sits at `pos`: the first element's
/// encoding immediately followed by the second's.
fn decode_tuple(slice: &[u8], pos: usize) -> (r: Result<(Term, usize), DecodeError>)
    requires
        pos < slice@.len(),
        slice@[pos as int] == TAG_TUPLE,
    ensures
        match parse_term(slice@.subrange(pos as int, slice@.len() as int)) {
            Ok((tv, n)) => r matches Ok(p) && p.0@ == tv && p.1 == pos + n && pos < p.1
                <= slice@.len(),
            Err(e) => r matches Err(e2) && e2 == e,
        },
    decreases slice@.len() - pos, 0int,
{
    proof {
        vstd::slice::axiom_spec_len(slice);
    }
    let ghost rem = slice@.subrange(pos as int, slice@.len() as int);
    let ghost rem1 = slice@.subrange(pos as int + 1, slice@.len() as int);
    proof {
        assert(rem.subrange(1, rem.len() as int) =~= rem1);
        lemma_parse_ok_bounds(rem1);
    }
    let first = match do_decode(slice, pos + 1) {
        Ok(p) => p,
        Err(e) => {
            return Err(e);
        },
    };
    let (t1, mid) = first;
    let ghost n1 = mid - (pos + 1);
    let ghost rem2 = slice@.subrange(mid as int, slice@.len() as int);
    proof {
        assert(rem.subrange(1 + n1, rem.len() as int) =~= rem2);
    }
    let second = match do_decode(slice, mid) {
        Ok(p) => p,
        Err(e) => {
            return Err(e);
        },
    };
    let (t2, end) = second;
    Ok((Term::Tuple(Box::new(t1), Box::new(t2)), end))
}

impl Clone for Term {
    /// A clone has the same model as the original: terms are treated as
    /// immutable values once built.
    fn clone(&self) -> (r: Self)
        ensures
            r@ == self@,
        decreases *self,
    {
        match self {
            Term::Bool(b) => Term::Bool(*b),
            Term::Number(n) => Term::Number(*n),
            Term::String(s) => Term::String(s.clone()),
            Term::Tuple(a, b) => Term::Tuple(Box::new((&**a).clone()), Box::new((&**b).clone())),
        }
    }
}

impl Encode for Term {
    open spec fn wire(&self) -> Seq<u8> {
        term_bytes(term_view(*self))
    }

    fn encode(&self) -> (r: Vec<u8>) {
        encode(self)
    }
}

impl Decode for Term {
    type Error = DecodeError;

    open spec fn parsed(bytes: Seq<u8>) -> Result<(TermV, int), DecodeError> {
        parse_term(bytes)
    }

    fn decode(bytes: &[u8]) -> (r: Result<(Term, usize), DecodeError>) {
        decode(bytes)
    }
}

/// Decoding an encoded term followed by arbitrary trailing bytes yields
/// exactly that term and consumes exactly its encoding, leaving the
/// trailing bytes untouched.
pub proof fn lemma_parse_encoded(t: TermV, rest: Seq<u8>)
    requires
        term_wf(t),
    ensures
        parse_term(term_bytes(t) + rest) == Ok::<(TermV, int), DecodeError>(
            (t, term_bytes(t).len() as int),
        ),
    decreases t,
{
    let bytes = term_bytes(t);
    let s = bytes + rest;
    match t {
        TermV::Bool(b) => {
            assert(s[0] == TAG_BOOL);
            assert(s[1] == (if b { 1u8 } else { 0u8 }));
        },
        TermV::Number(n) => {
            assert(s[0] == TAG_NUMBER);
            assert(s.subrange(1, 9) =~= be64_bytes(n));
            lemma_be64_roundtrip(n);
        },
        TermV::String(cs) => {
            let u = encode_utf8(cs);
            let len = u.len() as u64;
            assert(s[0] == TAG_STRING);
            assert(be64_bytes(len).len() == 8);
            assert(s.subrange(1, 9) =~= be64_bytes(len));
            lemma_be64_roundtrip(len);
            let n = be64_value(s.subrange(1, 9)) as int;
            assert(n == u.len());
            assert(s.subrange(9, 9 + n) =~= u);
            encode_utf8_valid_utf8(cs);
            encode_utf8_decode_utf8(cs);
        },
        TermV::Tuple(a, b) => {
            let ab = term_bytes(*a);
            let bb = term_bytes(*b);
            assert(s[0] == TAG_TUPLE);
            assert(s.subrange(1, s.len() as int) =~= ab + (bb + rest));
            lemma_parse_encoded(*a, bb + rest);
            assert(s.subrange(1 + ab.len() as int, s.len() as int) =~= bb + rest);
            lemma_parse_encoded(*b, rest);
        },
    }
}

/// Decoding the exact encoding of a well-formed term returns the term and
/// consumes the whole input.
pub proof fn lemma_term_roundtrip(t: TermV)
    requires
        term_wf(t),
    ensures
        parse_term(term_bytes(t)) == Ok::<(TermV, int), DecodeError>(
            (t, term_bytes(t).len() as int),
        ),
{
    assert(term_bytes(t) + Seq::<u8>::empty() =~= term_bytes(t));
    lemma_parse_encoded(t, Seq::<u8>::empty());
}

/// Every strict prefix of an encoded term fails to decode with
/// `Truncated`.
#[verifier::rlimit(50)]
pub proof fn lemma_encoding_prefix_truncated(t: TermV, k: int)
    requires
        term_wf(t),
        0 <= k < term_bytes(t).len(),
    ensures
        parse_term(term_bytes(t).subrange(0, k)) == Err::<(TermV, int), DecodeError>(
            DecodeError::Truncated,
        ),
    decreases t,
{
    let bytes = term_bytes(t);
    let s = bytes.subrange(0, k);
    if k == 0 {
        assert(s.len() == 0);
        assert(parse_term(s) == Err::<(TermV, int), DecodeError>(DecodeError::Truncated));
        return ;
    }
    assert(s[0] == bytes[0]);
    match t {
        TermV::Bool(_) => {
        },
        TermV::Number(_) => {
        },
        TermV::String(cs) => {
            let u = encode_utf8(cs);
            let len = u.len() as u64;
            if k >= 9 {
                assert(s.subrange(1, 9) =~= be64_bytes(len));
                lemma_be64_roundtrip(len);
                assert(be64_value(s.subrange(1, 9)) as int == u.len());
            }
            assert(parse_term(s) == Err::<(TermV, int), DecodeError>(DecodeError::Truncated));
        },
        TermV::Tuple(a, b) => {
            let ab = term_bytes(*a);
            let bb = term_bytes(*b);
            assert(s.len() == k);
            assert(s.subrange(1, s.len() as int) == s.subrange(1, k));
            lemma_parse_ok_bounds(s.subrange(1, k));
            if k - 1 < ab.len() {
                assert(s.subrange(1, k) =~= ab.subrange(0, k - 1));
                lemma_encoding_prefix_truncated(*a, k - 1);
                assert(parse_term(s.subrange(1, k)) == Err::<(TermV, int), DecodeError>(
                    DecodeError::Truncated,
                ));
            } else if k - 1 == ab.len() {
                assert(s.subrange(1, k) =~= ab);
                lemma_term_roundtrip(*a);
                assert(parse_term(s.subrange(1, k)) == Ok::<(TermV, int), DecodeError>(
                    (*a, ab.len() as int),
                ));
                assert(s.subrange(1 + ab.len() as int, k) =~= Seq::<u8>::empty());
                assert(parse_term(s.subrange(1 + ab.len() as int, k)) == Err::<
                    (TermV, int),
                    DecodeError,
                >(DecodeError::Truncated));
            } else {
                let bk = k - 1 - ab.len();
                assert(s.subrange(1, k) =~= ab + bb.subrange(0, bk));
                lemma_parse_encoded(*a, bb.subrange(0, bk));
                assert(s.subrange(1 + ab.len() as int, k) =~= bb.subrange(0, bk));
                assert(bk < bb.len());
                lemma_encoding_prefix_truncated(*b, bk);
                assert(parse_term(s.subrange(1, k)) == Ok::<(TermV, int), DecodeError>(
                    (*a, ab.len() as int),
                ));
                assert(parse_term(s.subrange(1 + ab.len() as int, k)) == Err::<
                    (TermV, int),
                    DecodeError,
                >(DecodeError::Truncated));
            }
            assert(parse_term(s) == Err::<(TermV, int), DecodeError>(DecodeError::Truncated));
        },
    }
}

/// A string frame whose declared length matches its byte count but whose
/// bytes are not valid UTF-8 decodes to `InvalidUtf8`, never to a term.
pub proof fn lemma_invalid_utf8_rejected(u: Seq<u8>)
    requires
        !valid_utf8(u),
        u.len() <= u64::MAX,
    ensures
        parse_term(seq![TAG_STRING] + be64_bytes(u.len() as u64) + u) == Err::<
            (TermV, int),
            DecodeError,
        >(DecodeError::InvalidUtf8),
{
    let len = u.len() as u64;
    let s = seq![TAG_STRING] + be64_bytes(len) + u;
    assert(s[0] == TAG_STRING);
    assert(be64_bytes(len).len() == 8);
    assert(s.subrange(1, 9) =~= be64_bytes(len));
    lemma_be64_roundtrip(len);
    let n = be64_value(s.subrange(1, 9)) as int;
    assert(n == u.len());
    assert(s.subrange(9, 9 + n) =~= u);
}

/// A successful parse consumes at least two bytes and no more than the
/// input, and yields a well-formed term model.
pub proof fn lemma_parse_ok_bounds(s: Seq<u8>)
    ensures
        parse_term(s) matches Ok(p) ==> 2 <= p.1 <= s.len() && term_wf(p.0),
    decreases s.len(),
{
    if s.len() >= 1 {
        if s[0] == TAG_STRING {
            if parse_term(s) is Ok {
                let n = be64_value(s.subrange(1, 9)) as int;
                let body = s.subrange(9, 9 + n);
                decode_utf8_encode_utf8(body);
            }
        } else if s[0] == TAG_TUPLE {
            lemma_parse_ok_bounds(s.subrange(1, s.len() as int));
            match parse_term(s.subrange(1, s.len() as int)) {
                Ok((t1, n1)) => {
                    if 0 <= n1 && 1 + n1 <= s.len() {
                        lemma_parse_ok_bounds(s.subrange(1 + n1, s.len() as int));
                    }
                },
                Err(_) => {
                },
            }
        }
    }
}

} // verus!
