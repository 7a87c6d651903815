//! Fixed-width integers as bytes.
use vstd::prelude::*;

verus! {

/// `x` as 2 bytes, least significant first.
pub open spec fn le_u16(x: u16) -> Seq<u8> {
    seq![
        (x & 0xff) as u8,
        ((x >> 8) & 0xff) as u8,
    ]
}

/// The integer that `le_u16` writes as the given bytes.
pub open spec fn le_u16_value(b0: u8, b1: u8) -> u16 {
    (b0 as u16) | ((b1 as u16) << 8)
}

/// Reads a `le_u16` integer from the front of `s`, with the number of bytes used.
pub open spec fn parse_le_u16(s: Seq<u8>) -> Option<(u16, int)> {
    if s.len() >= 2 {
        Some((le_u16_value(s[0], s[1]), 2))
    } else {
        None
    }
}

proof fn lemma_le_u16_value_of_bytes(x: u16) by (bit_vector)
    ensures
        (((x & 0xff) as u8) as u16) | (((((x >> 8) & 0xff) as u8) as u16) << 8) == x,
{
}

proof fn lemma_le_u16_bytes_of_value(b0: u8, b1: u8, v: u16) by (bit_vector)
    requires
        v == (b0 as u16) | ((b1 as u16) << 8),
    ensures
        (v & 0xff) as u8 == b0,
        ((v >> 8) & 0xff) as u8 == b1,
{
}

/// Reading back what `le_u16` wrote gives the integer, whatever follows it.
pub proof fn lemma_parse_le_u16(x: u16, rest: Seq<u8>)
    ensures
        parse_le_u16(le_u16(x) + rest) == Some((x, 2int)),
{
    lemma_le_u16_value_of_bytes(x);
    let s = le_u16(x) + rest;
    assert(s.len() >= 2);
    assert(le_u16_value(s[0], s[1]) == x);
}

/// What `parse_le_u16` reads is the `le_u16` layout of its result.
pub proof fn lemma_parse_le_u16_sound(s: Seq<u8>)
    ensures
        parse_le_u16(s) matches Some((v, k)) ==> k == 2 && 2 <= s.len() && s.subrange(0, 2) == le_u16(v),
{
    if s.len() >= 2 {
        let v = le_u16_value(s[0], s[1]);
        lemma_le_u16_bytes_of_value(s[0], s[1], v);
        assert(s.subrange(0, 2) =~= le_u16(v));
    }
}

/// Appends `x` in the `le_u16` layout.
pub fn push_le_u16(out: &mut Vec<u8>, x: u16)
    ensures
        final(out)@ == old(out)@ + le_u16(x),
{
    out.push((x & 0xff) as u8);
    out.push(((x >> 8) & 0xff) as u8);
    proof {
        assert(final(out)@ =~= old(out)@ + le_u16(x));
    }
}

/// Reads a `le_u16` integer at `pos`, with the position after it.
pub fn read_le_u16(b: &[u8], pos: usize) -> (r: Option<(u16, usize)>)
    requires
        pos <= b@.len(),
    ensures
        match parse_le_u16(b@.skip(pos as int)) {
            None => r is None,
            Some((v, k)) => r matches Some((x, p)) && x == v && p == pos + k,
        },
{
    if b.len() - pos < 2 {
        return None;
    }
    let v: u16 = (b[pos] as u16) | ((b[pos + 1] as u16) << 8);
    Some((v, pos + 2))
}

/// `x` as 4 bytes, least significant first.
pub open spec fn le_u32(x: u32) -> Seq<u8> {
    seq![
        (x & 0xff) as u8,
        ((x >> 8) & 0xff) as u8,
        ((x >> 16) & 0xff) as u8,
        ((x >> 24) & 0xff) as u8,
    ]
}

/// The integer that `le_u32` writes as the given bytes.
pub open spec fn le_u32_value(b0: u8, b1: u8, b2: u8, b3: u8) -> u32 {
    (b0 as u32) | ((b1 as u32) << 8) | ((b2 as u32) << 16) | ((b3 as u32) << 24)
}

/// Reads a `le_u32` integer from the front of `s`, with the number of bytes used.
pub open spec fn parse_le_u32(s: Seq<u8>) -> Option<(u32, int)> {
    if s.len() >= 4 {
        Some((le_u32_value(s[0], s[1], s[2], s[3]), 4))
    } else {
        None
    }
}

proof fn lemma_le_u32_value_of_bytes(x: u32) by (bit_vector)
    ensures
        (((x & 0xff) as u8) as u32) | (((((x >> 8) & 0xff) as u8) as u32) << 8) | (((((x >> 16) & 0xff) as u8) as u32) << 16) | (((((x >> 24) & 0xff) as u8) as u32) << 24) == x,
{
}

proof fn lemma_le_u32_bytes_of_value(b0: u8, b1: u8, b2: u8, b3: u8, v: u32) by (bit_vector)
    requires
        v == (b0 as u32) | ((b1 as u32) << 8) | ((b2 as u32) << 16) | ((b3 as u32) << 24),
    ensures
        (v & 0xff) as u8 == b0,
        ((v >> 8) & 0xff) as u8 == b1,
        ((v >> 16) & 0xff) as u8 == b2,
        ((v >> 24) & 0xff) as u8 == b3,
{
}

/// Reading back what `le_u32` wrote gives the integer, whatever follows it.
pub proof fn lemma_parse_le_u32(x: u32, rest: Seq<u8>)
    ensures
        parse_le_u32(le_u32(x) + rest) == Some((x, 4int)),
{
    lemma_le_u32_value_of_bytes(x);
    let s = le_u32(x) + rest;
    assert(s.len() >= 4);
    assert(le_u32_value(s[0], s[1], s[2], s[3]) == x);
}

/// What `parse_le_u32` reads is the `le_u32` layout of its result.
pub proof fn lemma_parse_le_u32_sound(s: Seq<u8>)
    ensures
        parse_le_u32(s) matches Some((v, k)) ==> k == 4 && 4 <= s.len() && s.subrange(0, 4) == le_u32(v),
{
    if s.len() >= 4 {
        let v = le_u32_value(s[0], s[1], s[2], s[3]);
        lemma_le_u32_bytes_of_value(s[0], s[1], s[2], s[3], v);
        assert(s.subrange(0, 4) =~= le_u32(v));
    }
}

/// Appends `x` in the `le_u32` layout.
pub fn push_le_u32(out: &mut Vec<u8>, x: u32)
    ensures
        final(out)@ == old(out)@ + le_u32(x),
{
    out.push((x & 0xff) as u8);
    out.push(((x >> 8) & 0xff) as u8);
    out.push(((x >> 16) & 0xff) as u8);
    out.push(((x >> 24) & 0xff) as u8);
    proof {
        assert(final(out)@ =~= old(out)@ + le_u32(x));
    }
}

/// Reads a `le_u32` integer at `pos`, with the position after it.
pub fn read_le_u32(b: &[u8], pos: usize) -> (r: Option<(u32, usize)>)
    requires
        pos <= b@.len(),
    ensures
        match parse_le_u32(b@.skip(pos as int)) {
            None => r is None,
            Some((v, k)) => r matches Some((x, p)) && x == v && p == pos + k,
        },
{
    if b.len() - pos < 4 {
        return None;
    }
    let v: u32 = (b[pos] as u32) | ((b[pos + 1] as u32) << 8) | ((b[pos + 2] as u32) << 16) | ((b[pos + 3] as u32) << 24);
    Some((v, pos + 4))
}

/// `x` as 8 bytes, least significant first.
pub open spec fn le_u64(x: u64) -> Seq<u8> {
    seq![
        (x & 0xff) as u8,
        ((x >> 8) & 0xff) as u8,
        ((x >> 16) & 0xff) as u8,
        ((x >> 24) & 0xff) as u8,
        ((x >> 32) & 0xff) as u8,
        ((x >> 40) & 0xff) as u8,
        ((x >> 48) & 0xff) as u8,
        ((x >> 56) & 0xff) as u8,
    ]
}

/// The integer that `le_u64` writes as the given bytes.
pub open spec fn le_u64_value(b0: u8, b1: u8, b2: u8, b3: u8, b4: u8, b5: u8, b6: u8, b7: u8) -> u64 {
    (b0 as u64) | ((b1 as u64) << 8) | ((b2 as u64) << 16) | ((b3 as u64) << 24) | ((b4 as u64) << 32) | ((b5 as u64) << 40) | ((b6 as u64) << 48) | ((b7 as u64) << 56)
}

/// Reads a `le_u64` integer from the front of `s`, with the number of bytes used.
pub open spec fn parse_le_u64(s: Seq<u8>) -> Option<(u64, int)> {
    if s.len() >= 8 {
        Some((le_u64_value(s[0], s[1], s[2], s[3], s[4], s[5], s[6], s[7]), 8))
    } else {
        None
    }
}

proof fn lemma_le_u64_value_of_bytes(x: u64) by (bit_vector)
    ensures
        (((x & 0xff) as u8) as u64) | (((((x >> 8) & 0xff) as u8) as u64) << 8) | (((((x >> 16) & 0xff) as u8) as u64) << 16) | (((((x >> 24) & 0xff) as u8) as u64) << 24) | (((((x >> 32) & 0xff) as u8) as u64) << 32) | (((((x >> 40) & 0xff) as u8) as u64) << 40) | (((((x >> 48) & 0xff) as u8) as u64) << 48) | (((((x >> 56) & 0xff) as u8) as u64) << 56) == x,
{
}

proof fn lemma_le_u64_bytes_of_value(b0: u8, b1: u8, b2: u8, b3: u8, b4: u8, b5: u8, b6: u8, b7: u8, v: u64) by (bit_vector)
    requires
        v == (b0 as u64) | ((b1 as u64) << 8) | ((b2 as u64) << 16) | ((b3 as u64) << 24) | ((b4 as u64) << 32) | ((b5 as u64) << 40) | ((b6 as u64) << 48) | ((b7 as u64) << 56),
    ensures
        (v & 0xff) as u8 == b0,
        ((v >> 8) & 0xff) as u8 == b1,
        ((v >> 16) & 0xff) as u8 == b2,
        ((v >> 24) & 0xff) as u8 == b3,
        ((v >> 32) & 0xff) as u8 == b4,
        ((v >> 40) & 0xff) as u8 == b5,
        ((v >> 48) & 0xff) as u8 == b6,
        ((v >> 56) & 0xff) as u8 == b7,
{
}

/// Reading back what `le_u64` wrote gives the integer, whatever follows it.
pub proof fn lemma_parse_le_u64(x: u64, rest: Seq<u8>)
    ensures
        parse_le_u64(le_u64(x) + rest) == Some((x, 8int)),
{
    lemma_le_u64_value_of_bytes(x);
    let s = le_u64(x) + rest;
    assert(s.len() >= 8);
    assert(le_u64_value(s[0], s[1], s[2], s[3], s[4], s[5], s[6], s[7]) == x);
}

/// What `parse_le_u64` reads is the `le_u64` layout of its result.
pub proof fn lemma_parse_le_u64_sound(s: Seq<u8>)
    ensures
        parse_le_u64(s) matches Some((v, k)) ==> k == 8 && 8 <= s.len() && s.subrange(0, 8) == le_u64(v),
{
    if s.len() >= 8 {
        let v = le_u64_value(s[0], s[1], s[2], s[3], s[4], s[5], s[6], s[7]);
        lemma_le_u64_bytes_of_value(s[0], s[1], s[2], s[3], s[4], s[5], s[6], s[7], v);
        assert(s.subrange(0, 8) =~= le_u64(v));
    }
}

/// Appends `x` in the `le_u64` layout.
pub fn push_le_u64(out: &mut Vec<u8>, x: u64)
    ensures
        final(out)@ == old(out)@ + le_u64(x),
{
    out.push((x & 0xff) as u8);
    out.push(((x >> 8) & 0xff) as u8);
    out.push(((x >> 16) & 0xff) as u8);
    out.push(((x >> 24) & 0xff) as u8);
    out.push(((x >> 32) & 0xff) as u8);
    out.push(((x >> 40) & 0xff) as u8);
    out.push(((x >> 48) & 0xff) as u8);
    out.push(((x >> 56) & 0xff) as u8);
    proof {
        assert(final(out)@ =~= old(out)@ + le_u64(x));
    }
}

/// Reads a `le_u64` integer at `pos`, with the position after it.
pub fn read_le_u64(b: &[u8], pos: usize) -> (r: Option<(u64, usize)>)
    requires
        pos <= b@.len(),
    ensures
        match parse_le_u64(b@.skip(pos as int)) {
            None => r is None,
            Some((v, k)) => r matches Some((x, p)) && x == v && p == pos + k,
        },
{
    if b.len() - pos < 8 {
        return None;
    }
    let v: u64 = (b[pos] as u64) | ((b[pos + 1] as u64) << 8) | ((b[pos + 2] as u64) << 16) | ((b[pos + 3] as u64) << 24) | ((b[pos + 4] as u64) << 32) | ((b[pos + 5] as u64) << 40) | ((b[pos + 6] as u64) << 48) | ((b[pos + 7] as u64) << 56);
    Some((v, pos + 8))
}

/// `x` as 4 bytes, most significant first.
pub open spec fn be_u32(x: u32) -> Seq<u8> {
    seq![
        ((x >> 24) & 0xff) as u8,
        ((x >> 16) & 0xff) as u8,
        ((x >> 8) & 0xff) as u8,
        (x & 0xff) as u8,
    ]
}

/// The integer that `be_u32` writes as the given bytes.
pub open spec fn be_u32_value(b0: u8, b1: u8, b2: u8, b3: u8) -> u32 {
    ((b0 as u32) << 24) | ((b1 as u32) << 16) | ((b2 as u32) << 8) | (b3 as u32)
}

/// Reads a `be_u32` integer from the front of `s`, with the number of bytes used.
pub open spec fn parse_be_u32(s: Seq<u8>) -> Option<(u32, int)> {
    if s.len() >= 4 {
        Some((be_u32_value(s[0], s[1], s[2], s[3]), 4))
    } else {
        None
    }
}

proof fn lemma_be_u32_value_of_bytes(x: u32) by (bit_vector)
    ensures
        (((((x >> 24) & 0xff) as u8) as u32) << 24) | (((((x >> 16) & 0xff) as u8) as u32) << 16) | (((((x >> 8) & 0xff) as u8) as u32) << 8) | (((x & 0xff) as u8) as u32) == x,
{
}

proof fn lemma_be_u32_bytes_of_value(b0: u8, b1: u8, b2: u8, b3: u8, v: u32) by (bit_vector)
    requires
        v == ((b0 as u32) << 24) | ((b1 as u32) << 16) | ((b2 as u32) << 8) | (b3 as u32),
    ensures
        ((v >> 24) & 0xff) as u8 == b0,
        ((v >> 16) & 0xff) as u8 == b1,
        ((v >> 8) & 0xff) as u8 == b2,
        (v & 0xff) as u8 == b3,
{
}

/// Reading back what `be_u32` wrote gives the integer, whatever follows it.
pub proof fn lemma_parse_be_u32(x: u32, rest: Seq<u8>)
    ensures
        parse_be_u32(be_u32(x) + rest) == Some((x, 4int)),
{
    lemma_be_u32_value_of_bytes(x);
    let s = be_u32(x) + rest;
    assert(s.len() >= 4);
    assert(be_u32_value(s[0], s[1], s[2], s[3]) == x);
}

/// What `parse_be_u32` reads is the `be_u32` layout of its result.
pub proof fn lemma_parse_be_u32_sound(s: Seq<u8>)
    ensures
        parse_be_u32(s) matches Some((v, k)) ==> k == 4 && 4 <= s.len() && s.subrange(0, 4) == be_u32(v),
{
    if s.len() >= 4 {
        let v = be_u32_value(s[0], s[1], s[2], s[3]);
        lemma_be_u32_bytes_of_value(s[0], s[1], s[2], s[3], v);
        assert(s.subrange(0, 4) =~= be_u32(v));
    }
}

/// Appends `x` in the `be_u32` layout.
pub fn push_be_u32(out: &mut Vec<u8>, x: u32)
    ensures
        final(out)@ == old(out)@ + be_u32(x),
{
    out.push(((x >> 24) & 0xff) as u8);
    out.push(((x >> 16) & 0xff) as u8);
    out.push(((x >> 8) & 0xff) as u8);
    out.push((x & 0xff) as u8);
    proof {
        assert(final(out)@ =~= old(out)@ + be_u32(x));
    }
}

/// Reads a `be_u32` integer at `pos`, with the position after it.
pub fn read_be_u32(b: &[u8], pos: usize) -> (r: Option<(u32, usize)>)
    requires
        pos <= b@.len(),
    ensures
        match parse_be_u32(b@.skip(pos as int)) {
            None => r is None,
            Some((v, k)) => r matches Some((x, p)) && x == v && p == pos + k,
        },
{
    if b.len() - pos < 4 {
        return None;
    }
    let v: u32 = ((b[pos] as u32) << 24) | ((b[pos + 1] as u32) << 16) | ((b[pos + 2] as u32) << 8) | (b[pos + 3] as u32);
    Some((v, pos + 4))
}

/// `x` as 16 bytes, most significant first.
pub open spec fn be_u128(x: u128) -> Seq<u8> {
    seq![
        ((x >> 120) & 0xff) as u8,
        ((x >> 112) & 0xff) as u8,
        ((x >> 104) & 0xff) as u8,
        ((x >> 96) & 0xff) as u8,
        ((x >> 88) & 0xff) as u8,
        ((x >> 80) & 0xff) as u8,
        ((x >> 72) & 0xff) as u8,
        ((x >> 64) & 0xff) as u8,
        ((x >> 56) & 0xff) as u8,
        ((x >> 48) & 0xff) as u8,
        ((x >> 40) & 0xff) as u8,
        ((x >> 32) & 0xff) as u8,
        ((x >> 24) & 0xff) as u8,
        ((x >> 16) & 0xff) as u8,
        ((x >> 8) & 0xff) as u8,
        (x & 0xff) as u8,
    ]
}

/// The integer that `be_u128` writes as the given bytes.
pub open spec fn be_u128_value(b0: u8, b1: u8, b2: u8, b3: u8, b4: u8, b5: u8, b6: u8, b7: u8, b8: u8, b9: u8, b10: u8, b11: u8, b12: u8, b13: u8, b14: u8, b15: u8) -> u128 {
    ((b0 as u128) << 120) | ((b1 as u128) << 112) | ((b2 as u128) << 104) | ((b3 as u128) << 96) | ((b4 as u128) << 88) | ((b5 as u128) << 80) | ((b6 as u128) << 72) | ((b7 as u128) << 64) | ((b8 as u128) << 56) | ((b9 as u128) << 48) | ((b10 as u128) << 40) | ((b11 as u128) << 32) | ((b12 as u128) << 24) | ((b13 as u128) << 16) | ((b14 as u128) << 8) | (b15 as u128)
}

/// Reads a `be_u128` integer from the front of `s`, with the number of bytes used.
pub open spec fn parse_be_u128(s: Seq<u8>) -> Option<(u128, int)> {
    if s.len() >= 16 {
        Some((be_u128_value(s[0], s[1], s[2], s[3], s[4], s[5], s[6], s[7], s[8], s[9], s[10], s[11], s[12], s[13], s[14], s[15]), 16))
    } else {
        None
    }
}

proof fn lemma_be_u128_value_of_bytes(x: u128) by (bit_vector)
    ensures
        (((((x >> 120) & 0xff) as u8) as u128) << 120) | (((((x >> 112) & 0xff) as u8) as u128) << 112) | (((((x >> 104) & 0xff) as u8) as u128) << 104) | (((((x >> 96) & 0xff) as u8) as u128) << 96) | (((((x >> 88) & 0xff) as u8) as u128) << 88) | (((((x >> 80) & 0xff) as u8) as u128) << 80) | (((((x >> 72) & 0xff) as u8) as u128) << 72) | (((((x >> 64) & 0xff) as u8) as u128) << 64) | (((((x >> 56) & 0xff) as u8) as u128) << 56) | (((((x >> 48) & 0xff) as u8) as u128) << 48) | (((((x >> 40) & 0xff) as u8) as u128) << 40) | (((((x >> 32) & 0xff) as u8) as u128) << 32) | (((((x >> 24) & 0xff) as u8) as u128) << 24) | (((((x >> 16) & 0xff) as u8) as u128) << 16) | (((((x >> 8) & 0xff) as u8) as u128) << 8) | (((x & 0xff) as u8) as u128) == x,
{
}

proof fn lemma_be_u128_bytes_of_value(b0: u8, b1: u8, b2: u8, b3: u8, b4: u8, b5: u8, b6: u8, b7: u8, b8: u8, b9: u8, b10: u8, b11: u8, b12: u8, b13: u8, b14: u8, b15: u8, v: u128) by (bit_vector)
    requires
        v == ((b0 as u128) << 120) | ((b1 as u128) << 112) | ((b2 as u128) << 104) | ((b3 as u128) << 96) | ((b4 as u128) << 88) | ((b5 as u128) << 80) | ((b6 as u128) << 72) | ((b7 as u128) << 64) | ((b8 as u128) << 56) | ((b9 as u128) << 48) | ((b10 as u128) << 40) | ((b11 as u128) << 32) | ((b12 as u128) << 24) | ((b13 as u128) << 16) | ((b14 as u128) << 8) | (b15 as u128),
    ensures
        ((v >> 120) & 0xff) as u8 == b0,
        ((v >> 112) & 0xff) as u8 == b1,
        ((v >> 104) & 0xff) as u8 == b2,
        ((v >> 96) & 0xff) as u8 == b3,
        ((v >> 88) & 0xff) as u8 == b4,
        ((v >> 80) & 0xff) as u8 == b5,
        ((v >> 72) & 0xff) as u8 == b6,
        ((v >> 64) & 0xff) as u8 == b7,
        ((v >> 56) & 0xff) as u8 == b8,
        ((v >> 48) & 0xff) as u8 == b9,
        ((v >> 40) & 0xff) as u8 == b10,
        ((v >> 32) & 0xff) as u8 == b11,
        ((v >> 24) & 0xff) as u8 == b12,
        ((v >> 16) & 0xff) as u8 == b13,
        ((v >> 8) & 0xff) as u8 == b14,
        (v & 0xff) as u8 == b15,
{
}

/// Reading back what `be_u128` wrote gives the integer, whatever follows it.
pub proof fn lemma_parse_be_u128(x: u128, rest: Seq<u8>)
    ensures
        parse_be_u128(be_u128(x) + rest) == Some((x, 16int)),
{
    lemma_be_u128_value_of_bytes(x);
    let s = be_u128(x) + rest;
    assert(s.len() >= 16);
    assert(be_u128_value(s[0], s[1], s[2], s[3], s[4], s[5], s[6], s[7], s[8], s[9], s[10], s[11], s[12], s[13], s[14], s[15]) == x);
}

/// What `parse_be_u128` reads is the `be_u128` layout of its result.
pub proof fn lemma_parse_be_u128_sound(s: Seq<u8>)
    ensures
        parse_be_u128(s) matches Some((v, k)) ==> k == 16 && 16 <= s.len() && s.subrange(0, 16) == be_u128(v),
{
    if s.len() >= 16 {
        let v = be_u128_value(s[0], s[1], s[2], s[3], s[4], s[5], s[6], s[7], s[8], s[9], s[10], s[11], s[12], s[13], s[14], s[15]);
        lemma_be_u128_bytes_of_value(s[0], s[1], s[2], s[3], s[4], s[5], s[6], s[7], s[8], s[9], s[10], s[11], s[12], s[13], s[14], s[15], v);
        assert(s.subrange(0, 16) =~= be_u128(v));
    }
}

/// Appends `x` in the `be_u128` layout.
pub fn push_be_u128(out: &mut Vec<u8>, x: u128)
    ensures
        final(out)@ == old(out)@ + be_u128(x),
{
    out.push(((x >> 120) & 0xff) as u8);
    out.push(((x >> 112) & 0xff) as u8);
    out.push(((x >> 104) & 0xff) as u8);
    out.push(((x >> 96) & 0xff) as u8);
    out.push(((x >> 88) & 0xff) as u8);
    out.push(((x >> 80) & 0xff) as u8);
    out.push(((x >> 72) & 0xff) as u8);
    out.push(((x >> 64) & 0xff) as u8);
    out.push(((x >> 56) & 0xff) as u8);
    out.push(((x >> 48) & 0xff) as u8);
    out.push(((x >> 40) & 0xff) as u8);
    out.push(((x >> 32) & 0xff) as u8);
    out.push(((x >> 24) & 0xff) as u8);
    out.push(((x >> 16) & 0xff) as u8);
    out.push(((x >> 8) & 0xff) as u8);
    out.push((x & 0xff) as u8);
    proof {
        assert(final(out)@ =~= old(out)@ + be_u128(x));
    }
}

/// Reads a `be_u128` integer at `pos`, with the position after it.
pub fn read_be_u128(b: &[u8], pos: usize) -> (r: Option<(u128, usize)>)
    requires
        pos <= b@.len(),
    ensures
        match parse_be_u128(b@.skip(pos as int)) {
            None => r is None,
            Some((v, k)) => r matches Some((x, p)) && x == v && p == pos + k,
        },
{
    if b.len() - pos < 16 {
        return None;
    }
    let v: u128 = ((b[pos] as u128) << 120) | ((b[pos + 1] as u128) << 112) | ((b[pos + 2] as u128) << 104) | ((b[pos + 3] as u128) << 96) | ((b[pos + 4] as u128) << 88) | ((b[pos + 5] as u128) << 80) | ((b[pos + 6] as u128) << 72) | ((b[pos + 7] as u128) << 64) | ((b[pos + 8] as u128) << 56) | ((b[pos + 9] as u128) << 48) | ((b[pos + 10] as u128) << 40) | ((b[pos + 11] as u128) << 32) | ((b[pos + 12] as u128) << 24) | ((b[pos + 13] as u128) << 16) | ((b[pos + 14] as u128) << 8) | (b[pos + 15] as u128);
    Some((v, pos + 16))
}

} // verus!
