//! Byte-level primitives shared by every on-disk codec in the crate.
//!
//! All multi-byte integers in the game's config and archive files are
//! little-endian; only the VAG audio header is big-endian.

use vstd::prelude::*;

verus! {

/// The little-endian two-byte encoding of a `u16`.
pub open spec fn spec_u16_le(x: u16) -> Seq<u8> {
    seq![(x & 0xff) as u8, ((x >> 8) & 0xff) as u8]
}

/// The `u16` read from two little-endian bytes.
pub open spec fn spec_u16_of_le(b: Seq<u8>) -> u16
    recommends
        b.len() == 2,
{
    (b[0] as u16 | (b[1] as u16) << 8) as u16
}

/// The little-endian four-byte encoding of a `u32`.
pub open spec fn spec_u32_le(x: u32) -> Seq<u8> {
    seq![
        (x & 0xff) as u8,
        ((x >> 8) & 0xff) as u8,
        ((x >> 16) & 0xff) as u8,
        ((x >> 24) & 0xff) as u8,
    ]
}

/// The `u32` read from four little-endian bytes.
pub open spec fn spec_u32_of_le(b: Seq<u8>) -> u32
    recommends
        b.len() == 4,
{
    (b[0] as u32 | (b[1] as u32) << 8 | (b[2] as u32) << 16 | (b[3] as u32) << 24) as u32
}

/// The big-endian four-byte encoding of a `u32` (VAG header fields).
pub open spec fn spec_u32_be(x: u32) -> Seq<u8> {
    seq![
        ((x >> 24) & 0xff) as u8,
        ((x >> 16) & 0xff) as u8,
        ((x >> 8) & 0xff) as u8,
        (x & 0xff) as u8,
    ]
}

/// The `u32` read from four big-endian bytes.
pub open spec fn spec_u32_of_be(b: Seq<u8>) -> u32
    recommends
        b.len() == 4,
{
    ((b[0] as u32) << 24 | (b[1] as u32) << 16 | (b[2] as u32) << 8 | b[3] as u32) as u32
}

/// The big-endian two-byte encoding of a `u16` (VAG header fields).
pub open spec fn spec_u16_be(x: u16) -> Seq<u8> {
    seq![((x >> 8) & 0xff) as u8, (x & 0xff) as u8]
}

/// The `u16` read from two big-endian bytes.
pub open spec fn spec_u16_of_be(b: Seq<u8>) -> u16
    recommends
        b.len() == 2,
{
    ((b[0] as u16) << 8 | b[1] as u16) as u16
}

pub proof fn lemma_u16_of_le_round_trip(b: Seq<u8>)
    requires
        b.len() == 2,
    ensures
        spec_u16_le(spec_u16_of_le(b)) == b,
{
    let b0 = b[0];
    let b1 = b[1];
    let x = spec_u16_of_le(b);
    assert((b0 as u16 | (b1 as u16) << 8) & 0xff == b0 as u16) by (bit_vector);
    assert(((b0 as u16 | (b1 as u16) << 8) >> 8) & 0xff == b1 as u16) by (bit_vector);
    assert(spec_u16_le(x) =~= b);
}

pub proof fn lemma_u32_of_le_round_trip(b: Seq<u8>)
    requires
        b.len() == 4,
    ensures
        spec_u32_le(spec_u32_of_le(b)) == b,
{
    let b0 = b[0];
    let b1 = b[1];
    let b2 = b[2];
    let b3 = b[3];
    let x = spec_u32_of_le(b);
    assert((b0 as u32 | (b1 as u32) << 8 | (b2 as u32) << 16 | (b3 as u32) << 24) & 0xff
        == b0 as u32) by (bit_vector);
    assert(((b0 as u32 | (b1 as u32) << 8 | (b2 as u32) << 16 | (b3 as u32) << 24) >> 8) & 0xff
        == b1 as u32) by (bit_vector);
    assert(((b0 as u32 | (b1 as u32) << 8 | (b2 as u32) << 16 | (b3 as u32) << 24) >> 16) & 0xff
        == b2 as u32) by (bit_vector);
    assert(((b0 as u32 | (b1 as u32) << 8 | (b2 as u32) << 16 | (b3 as u32) << 24) >> 24) & 0xff
        == b3 as u32) by (bit_vector);
    assert(spec_u32_le(x) =~= b);
}

pub proof fn lemma_u32_be_round_trip(x: u32)
    ensures
        spec_u32_of_be(spec_u32_be(x)) == x,
{
    assert((((x >> 24) & 0xff) as u8 as u32) << 24 | (((x >> 16) & 0xff) as u8 as u32) << 16
        | (((x >> 8) & 0xff) as u8 as u32) << 8 | ((x & 0xff) as u8) as u32
        == x) by (bit_vector);
}

pub proof fn lemma_u32_of_be_round_trip(b: Seq<u8>)
    requires
        b.len() == 4,
    ensures
        spec_u32_be(spec_u32_of_be(b)) == b,
{
    let b0 = b[0];
    let b1 = b[1];
    let b2 = b[2];
    let b3 = b[3];
    let x = spec_u32_of_be(b);
    assert((((b0 as u32) << 24 | (b1 as u32) << 16 | (b2 as u32) << 8 | b3 as u32) >> 24) & 0xff
        == b0 as u32) by (bit_vector);
    assert((((b0 as u32) << 24 | (b1 as u32) << 16 | (b2 as u32) << 8 | b3 as u32) >> 16) & 0xff
        == b1 as u32) by (bit_vector);
    assert((((b0 as u32) << 24 | (b1 as u32) << 16 | (b2 as u32) << 8 | b3 as u32) >> 8) & 0xff
        == b2 as u32) by (bit_vector);
    assert(((b0 as u32) << 24 | (b1 as u32) << 16 | (b2 as u32) << 8 | b3 as u32) & 0xff
        == b3 as u32) by (bit_vector);
    assert(spec_u32_be(x) =~= b);
}

pub proof fn lemma_u16_of_be_round_trip(b: Seq<u8>)
    requires
        b.len() == 2,
    ensures
        spec_u16_be(spec_u16_of_be(b)) == b,
{
    let b0 = b[0];
    let b1 = b[1];
    let x = spec_u16_of_be(b);
    assert((((b0 as u16) << 8 | b1 as u16) >> 8) & 0xff == b0 as u16) by (bit_vector);
    assert(((b0 as u16) << 8 | b1 as u16) & 0xff == b1 as u16) by (bit_vector);
    assert(spec_u16_be(x) =~= b);
}

/// Read a little-endian `u16` at `pos`.
pub fn read_u16_le(b: &[u8], pos: usize) -> (x: u16)
    requires
        pos + 2 <= b@.len(),
    ensures
        x == spec_u16_of_le(b@.subrange(pos as int, pos + 2)),
{
    let x = b[pos] as u16 | (b[pos + 1] as u16) << 8;
    proof {
        let s = b@.subrange(pos as int, pos + 2);
        assert(s[0] == b@[pos as int] && s[1] == b@[pos + 1]);
    }
    x
}

/// Read a little-endian `u32` at `pos`.
pub fn read_u32_le(b: &[u8], pos: usize) -> (x: u32)
    requires
        pos + 4 <= b@.len(),
    ensures
        x == spec_u32_of_le(b@.subrange(pos as int, pos + 4)),
{
    let x = b[pos] as u32 | (b[pos + 1] as u32) << 8 | (b[pos + 2] as u32) << 16
        | (b[pos + 3] as u32) << 24;
    proof {
        let s = b@.subrange(pos as int, pos + 4);
        assert(s[0] == b@[pos as int] && s[1] == b@[pos + 1] && s[2] == b@[pos + 2]
            && s[3] == b@[pos + 3]);
    }
    x
}

/// Read a big-endian `u32` at `pos`.
pub fn read_u32_be(b: &[u8], pos: usize) -> (x: u32)
    requires
        pos + 4 <= b@.len(),
    ensures
        x == spec_u32_of_be(b@.subrange(pos as int, pos + 4)),
{
    let x = (b[pos] as u32) << 24 | (b[pos + 1] as u32) << 16 | (b[pos + 2] as u32) << 8
        | b[pos + 3] as u32;
    proof {
        let s = b@.subrange(pos as int, pos + 4);
        assert(s[0] == b@[pos as int] && s[1] == b@[pos + 1] && s[2] == b@[pos + 2]
            && s[3] == b@[pos + 3]);
    }
    x
}

/// Read a big-endian `u16` at `pos`.
pub fn read_u16_be(b: &[u8], pos: usize) -> (x: u16)
    requires
        pos + 2 <= b@.len(),
    ensures
        x == spec_u16_of_be(b@.subrange(pos as int, pos + 2)),
{
    let x = (b[pos] as u16) << 8 | b[pos + 1] as u16;
    proof {
        let s = b@.subrange(pos as int, pos + 2);
        assert(s[0] == b@[pos as int] && s[1] == b@[pos + 1]);
    }
    x
}

/// Append the little-endian encoding of a `u16`.
pub fn push_u16_le(out: &mut Vec<u8>, x: u16)
    ensures
        final(out)@ == old(out)@ + spec_u16_le(x),
{
    out.push((x & 0xff) as u8);
    out.push(((x >> 8) & 0xff) as u8);
    assert(final(out)@ =~= old(out)@ + spec_u16_le(x));
}

/// Append the little-endian encoding of a `u32`.
pub fn push_u32_le(out: &mut Vec<u8>, x: u32)
    ensures
        final(out)@ == old(out)@ + spec_u32_le(x),
{
    out.push((x & 0xff) as u8);
    out.push(((x >> 8) & 0xff) as u8);
    out.push(((x >> 16) & 0xff) as u8);
    out.push(((x >> 24) & 0xff) as u8);
    assert(final(out)@ =~= old(out)@ + spec_u32_le(x));
}

/// Append the big-endian encoding of a `u32`.
pub fn push_u32_be(out: &mut Vec<u8>, x: u32)
    ensures
        final(out)@ == old(out)@ + spec_u32_be(x),
{
    out.push(((x >> 24) & 0xff) as u8);
    out.push(((x >> 16) & 0xff) as u8);
    out.push(((x >> 8) & 0xff) as u8);
    out.push((x & 0xff) as u8);
    assert(final(out)@ =~= old(out)@ + spec_u32_be(x));
}

/// Append the big-endian encoding of a `u16`.
pub fn push_u16_be(out: &mut Vec<u8>, x: u16)
    ensures
        final(out)@ == old(out)@ + spec_u16_be(x),
{
    out.push(((x >> 8) & 0xff) as u8);
    out.push((x & 0xff) as u8);
    assert(final(out)@ =~= old(out)@ + spec_u16_be(x));
}

} // verus!
