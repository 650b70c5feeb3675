//! Fixed-width big-endian length fields.
//!
//! Every multi-byte integer on the wire is a 64-bit unsigned value written
//! most-significant byte first, independent of the host's word size.

use vstd::prelude::*;

verus! {

/// The number of bytes of a length field on the wire.
pub const LEN_BYTES: usize = 8;

/// The big-endian byte representation of a 64-bit value, most significant
/// byte first.
pub open spec fn be64_bytes(x: u64) -> Seq<u8> {
    seq![
        (x >> 56) as u8,
        (x >> 48) as u8,
        (x >> 40) as u8,
        (x >> 32) as u8,
        (x >> 24) as u8,
        (x >> 16) as u8,
        (x >> 8) as u8,
        x as u8,
    ]
}

/// The 64-bit value read from 8 big-endian bytes.
pub open spec fn be64_value(s: Seq<u8>) -> u64
    recommends
        s.len() == 8,
{
    ((s[0] as u64) << 56) | ((s[1] as u64) << 48) | ((s[2] as u64) << 40) | ((s[3] as u64) << 32)
        | ((s[4] as u64) << 24) | ((s[5] as u64) << 16) | ((s[6] as u64) << 8) | (s[7] as u64)
}

/// Reading back the big-endian bytes of a value yields the value.
pub proof fn lemma_be64_roundtrip(x: u64)
    ensures
        be64_value(be64_bytes(x)) == x,
{
    let b0 = (x >> 56) as u8;
    let b1 = (x >> 48) as u8;
    let b2 = (x >> 40) as u8;
    let b3 = (x >> 32) as u8;
    let b4 = (x >> 24) as u8;
    let b5 = (x >> 16) as u8;
    let b6 = (x >> 8) as u8;
    let b7 = x as u8;
    assert(((((x >> 56) as u8) as u64) << 56) | ((((x >> 48) as u8) as u64) << 48) | ((((x >> 40)
        as u8) as u64) << 40) | ((((x >> 32) as u8) as u64) << 32) | ((((x >> 24) as u8) as u64)
        << 24) | ((((x >> 16) as u8) as u64) << 16) | ((((x >> 8) as u8) as u64) << 8) | ((x
        as u8) as u64) == x) by (bit_vector);
    assert(be64_bytes(x)[0] == b0);
    assert(be64_bytes(x)[1] == b1);
    assert(be64_bytes(x)[2] == b2);
    assert(be64_bytes(x)[3] == b3);
    assert(be64_bytes(x)[4] == b4);
    assert(be64_bytes(x)[5] == b5);
    assert(be64_bytes(x)[6] == b6);
    assert(be64_bytes(x)[7] == b7);
}

/// Appends the 8 big-endian bytes of `x` to `out`.
pub fn write_be64(out: &mut Vec<u8>, x: u64)
    ensures
        final(out)@ == old(out)@ + be64_bytes(x),
{
    out.push((x >> 56) as u8);
    out.push((x >> 48) as u8);
    out.push((x >> 40) as u8);
    out.push((x >> 32) as u8);
    out.push((x >> 24) as u8);
    out.push((x >> 16) as u8);
    out.push((x >> 8) as u8);
    out.push(x as u8);
    proof {
        assert(final(out)@ =~= old(out)@ + be64_bytes(x));
    }
}

/// Reads the 64-bit big-endian value stored at `pos` in `s`.
pub fn read_be64(s: &[u8], pos: usize) -> (x: u64)
    requires
        pos + 8 <= s@.len(),
    ensures
        x == be64_value(s@.subrange(pos as int, pos as int + 8)),
{
    let x = ((s[pos] as u64) << 56) | ((s[pos + 1] as u64) << 48) | ((s[pos + 2] as u64) << 40) | ((
    s[pos + 3] as u64) << 32) | ((s[pos + 4] as u64) << 24) | ((s[pos + 5] as u64) << 16) | ((s[pos
        + 6] as u64) << 8) | (s[pos + 7] as u64);
    proof {
        let sub = s@.subrange(pos as int, pos as int + 8);
        assert(sub[0] == s@[pos as int]);
        assert(sub[1] == s@[pos as int + 1]);
        assert(sub[2] == s@[pos as int + 2]);
        assert(sub[3] == s@[pos as int + 3]);
        assert(sub[4] == s@[pos as int + 4]);
        assert(sub[5] == s@[pos as int + 5]);
        assert(sub[6] == s@[pos as int + 6]);
        assert(sub[7] == s@[pos as int + 7]);
    }
    x
}

} // verus!
