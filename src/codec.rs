//! The wire format: one packet per datagram, as a tagged union.
//!
//! Integers are little-endian and of fixed width; a variant is announced by
//! its index as a 4-byte integer; a character is its UTF-8 encoding; a string
//! is its UTF-8 byte count as an 8-byte integer followed by those bytes; an
//! optional value is the byte 0, or the byte 1 followed by the value; an IP
//! address is its octets in network order.
use vstd::prelude::*;
use vstd::utf8::{
    decode_first_scalar, decode_utf8, encode_scalar, encode_utf8, encode_utf8_decode_utf8,
    encode_utf8_first_scalar, encode_utf8_valid_utf8, decode_utf8_first_scalar, is_scalar,
    length_of_first_scalar, valid_first_scalar, valid_utf8, char_u32_cast, char_is_scalar,
};
use crate::wire::{
    MessageModel, Order, OrderModel, PacketMessage, PacketModel, PacketResponse, PeerAddr,
    ResponseModel, SentPacket, array_of_5, array_of_8,
};
use crate::bytes::{
    le_u16, le_u32, le_u64, parse_le_u16, parse_le_u32, parse_le_u64, lemma_parse_le_u16,
    lemma_parse_le_u32, lemma_parse_le_u64, lemma_parse_le_u16_sound, lemma_parse_le_u32_sound,
    lemma_parse_le_u64_sound, push_le_u16, push_le_u32, push_le_u64, read_le_u16, read_le_u32,
    read_le_u64, be_u32, be_u128, parse_be_u32, parse_be_u128, lemma_parse_be_u32,
    lemma_parse_be_u128, lemma_parse_be_u32_sound, lemma_parse_be_u128_sound, push_be_u32,
    push_be_u128, read_be_u32, read_be_u128,
};

verus! {

/// Skipping twice is skipping the sum.
pub broadcast proof fn lemma_skip_skip(s: Seq<u8>, i: int, j: int)
    requires
        0 <= i,
        0 <= j,
        i + j <= s.len(),
    ensures
        #[trigger] s.skip(i).skip(j) == s.skip(i + j),
{
    assert(s.skip(i).skip(j) =~= s.skip(i + j));
}

/// The UTF-8 encoding of a concatenation is the concatenation of the encodings.
pub proof fn lemma_encode_utf8_concat(a: Seq<char>, b: Seq<char>)
    ensures
        encode_utf8(a + b) == encode_utf8(a) + encode_utf8(b),
    decreases a.len(),
{
    if a.len() == 0 {
        assert(a + b =~= b);
        assert(encode_utf8(a) + encode_utf8(b) =~= encode_utf8(b));
    } else {
        assert((a + b).drop_first() =~= a.drop_first() + b);
        lemma_encode_utf8_concat(a.drop_first(), b);
        assert(encode_utf8(a + b) =~= encode_utf8(a) + encode_utf8(b));
    }
}

// ---------------------------------------------------------------- characters

proof fn lemma_encode_utf8_single(c: char)
    ensures
        encode_utf8(seq![c]) == encode_scalar(c as u32),
{
    assert(seq![c].drop_first() =~= Seq::<char>::empty());
    assert(encode_utf8(Seq::<char>::empty()) == Seq::<u8>::empty());
    assert(encode_utf8(seq![c]) =~= encode_scalar(c as u32));
}

/// Reads one character from the front of `s`, with the number of bytes used.
pub open spec fn parse_char(s: Seq<u8>) -> Option<(char, int)> {
    if valid_first_scalar(s) && is_scalar(decode_first_scalar(s)) {
        Some((decode_first_scalar(s) as char, length_of_first_scalar(s)))
    } else {
        None
    }
}

/// Reads `n` characters from the front of `s`, with the number of bytes used.
pub open spec fn parse_chars(s: Seq<u8>, n: nat) -> Option<(Seq<char>, int)>
    decreases n,
{
    if n == 0 {
        Some((Seq::empty(), 0))
    } else {
        match parse_char(s) {
            None => None,
            Some((c, k)) => if 0 <= k <= s.len() {
                match parse_chars(s.skip(k), (n - 1) as nat) {
                    None => None,
                    Some((cs, m)) => Some((seq![c] + cs, k + m)),
                }
            } else {
                None
            },
        }
    }
}

proof fn lemma_parse_char(c: char, rest: Seq<u8>)
    ensures
        parse_char(encode_scalar(c as u32) + rest) == Some(
            (c, encode_scalar(c as u32).len() as int),
        ),
{
    let e = encode_scalar(c as u32);
    let s = e + rest;
    encode_utf8_first_scalar(seq![c]);
    lemma_encode_utf8_single(c);
    char_is_scalar(c);
    assert(e.len() >= 1);
    assert(forall|i: int| 0 <= i < e.len() ==> s[i] == e[i]);
    char_u32_cast(c, c as u32);
}

proof fn lemma_parse_char_sound(s: Seq<u8>)
    ensures
        parse_char(s) matches Some((c, k)) ==> 1 <= k <= s.len() && s.subrange(0, k)
            == encode_scalar(c as u32),
{
    if let Some((c, k)) = parse_char(s) {
        let t = s.subrange(0, k);
        assert(forall|i: int| 0 <= i < t.len() ==> t[i] == s[i]);
        assert(valid_first_scalar(t));
        assert(t.subrange(k, t.len() as int) =~= Seq::<u8>::empty());
        assert(valid_utf8(Seq::<u8>::empty()));
        assert(valid_utf8(t));
        decode_utf8_first_scalar(t);
        assert(t.subrange(0, k) =~= t);
    }
}

proof fn lemma_parse_chars(cs: Seq<char>, rest: Seq<u8>)
    ensures
        parse_chars(encode_utf8(cs) + rest, cs.len()) == Some((cs, encode_utf8(cs).len() as int)),
    decreases cs.len(),
{
    if cs.len() == 0 {
        assert(cs =~= Seq::<char>::empty());
    } else {
        let e = encode_scalar(cs[0] as u32);
        let tail = cs.drop_first();
        let s = encode_utf8(cs) + rest;
        assert(s =~= e + (encode_utf8(tail) + rest));
        lemma_parse_char(cs[0], encode_utf8(tail) + rest);
        assert(s.skip(e.len() as int) =~= encode_utf8(tail) + rest);
        lemma_parse_chars(tail, rest);
        assert(seq![cs[0]] + tail =~= cs);
    }
}

proof fn lemma_parse_chars_sound(s: Seq<u8>, n: nat)
    ensures
        parse_chars(s, n) matches Some((cs, k)) ==> 0 <= k <= s.len() && cs.len() == n
            && s.subrange(0, k) == encode_utf8(cs),
    decreases n,
{
    if n == 0 {
        assert(s.subrange(0, 0) =~= Seq::<u8>::empty());
    } else if let Some((c, k)) = parse_char(s) {
        lemma_parse_char_sound(s);
        let r = s.skip(k);
        lemma_parse_chars_sound(r, (n - 1) as nat);
        if let Some((cs, m)) = parse_chars(r, (n - 1) as nat) {
            let all = seq![c] + cs;
            assert(all.drop_first() =~= cs);
            assert(all[0] == c);
            assert(s.subrange(0, k + m) =~= s.subrange(0, k) + r.subrange(0, m));
        }
    }
}

/// Appends the UTF-8 encoding of `c`.
pub fn push_char(out: &mut Vec<u8>, c: char)
    ensures
        final(out)@ == old(out)@ + encode_scalar(c as u32),
{
    let x = c as u32;
    proof {
        char_is_scalar(c);
    }
    if x <= 0x7f {
        out.push((x & 0x7f) as u8);
    } else if x <= 0x7ff {
        out.push(0xc0 | ((x >> 6) & 0x1f) as u8);
        out.push(0x80 | (x & 0x3f) as u8);
    } else if x <= 0xffff {
        out.push(0xe0 | ((x >> 12) & 0x0f) as u8);
        out.push(0x80 | ((x >> 6) & 0x3f) as u8);
        out.push(0x80 | (x & 0x3f) as u8);
    } else {
        out.push(0xf0 | ((x >> 18) & 0x7) as u8);
        out.push(0x80 | ((x >> 12) & 0x3f) as u8);
        out.push(0x80 | ((x >> 6) & 0x3f) as u8);
        out.push(0x80 | (x & 0x3f) as u8);
    }
    proof {
        assert(final(out)@ =~= old(out)@ + encode_scalar(c as u32));
    }
}

/// Appends the UTF-8 encoding of each character of `a`, in order.
pub fn push_chars<const N: usize>(out: &mut Vec<u8>, a: &[char; N])
    ensures
        final(out)@ == old(out)@ + encode_utf8(a@),
{
    let mut i: usize = 0;
    while i < N
        invariant
            a@.len() == N,
            i <= N,
            out@ == old(out)@ + encode_utf8(a@.take(i as int)),
        decreases N - i,
    {
        push_char(out, a[i]);
        proof {
            lemma_encode_utf8_concat(a@.take(i as int), seq![a@[i as int]]);
            assert(a@.take(i as int) + seq![a@[i as int]] =~= a@.take(i + 1));
            lemma_encode_utf8_single(a@[i as int]);
        }
        i = i + 1;
    }
    proof {
        assert(a@.take(N as int) =~= a@);
    }
}

/// Relies on `char::from_u32`: a character exactly for the Unicode scalar values.
#[verifier::external_body]
fn char_from_scalar(v: u32) -> (r: Option<char>)
    ensures
        r is Some <==> is_scalar(v),
        r matches Some(c) ==> c as u32 == v,
{
    char::from_u32(v)
}

/// Reads one character at `pos`, with the position after it.
pub fn read_char(b: &[u8], pos: usize) -> (r: Option<(char, usize)>)
    requires
        pos <= b@.len(),
    ensures
        match parse_char(b@.skip(pos as int)) {
            None => r is None,
            Some((c, k)) => r matches Some((x, p)) && x == c && p == pos + k,
        },
{
    let ghost s = b@.skip(pos as int);
    let avail = b.len() - pos;
    if avail < 1 {
        return None;
    }
    let b0 = b[pos];
    let cp: u32;
    let w: usize;
    if b0 <= 0x7f {
        cp = (b0 & 0x7f) as u32;
        w = 1;
    } else if 0xc0 <= b0 && b0 <= 0xdf {
        if avail < 2 {
            return None;
        }
        let b1 = b[pos + 1];
        if !(0x80 <= b1 && b1 <= 0xbf) {
            return None;
        }
        cp = (((b0 & 0x1f) as u32) << 6) | ((b1 & 0x3f) as u32);
        w = 2;
    } else if 0xe0 <= b0 && b0 <= 0xef {
        if avail < 3 {
            return None;
        }
        let b1 = b[pos + 1];
        let b2 = b[pos + 2];
        if !(0x80 <= b1 && b1 <= 0xbf && 0x80 <= b2 && b2 <= 0xbf) {
            return None;
        }
        cp = (((b0 & 0x0f) as u32) << 12) | (((b1 & 0x3f) as u32) << 6) | ((b2 & 0x3f) as u32);
        w = 3;
    } else if 0xf0 <= b0 && b0 <= 0xf7 {
        if avail < 4 {
            return None;
        }
        let b1 = b[pos + 1];
        let b2 = b[pos + 2];
        let b3 = b[pos + 3];
        if !(0x80 <= b1 && b1 <= 0xbf && 0x80 <= b2 && b2 <= 0xbf && 0x80 <= b3 && b3 <= 0xbf) {
            return None;
        }
        cp = (((b0 & 0x07) as u32) << 18) | (((b1 & 0x3f) as u32) << 12) | (((b2 & 0x3f) as u32)
            << 6) | ((b3 & 0x3f) as u32);
        w = 4;
    } else {
        return None;
    }
    assert(cp == decode_first_scalar(s));
    assert(w == length_of_first_scalar(s));
    if (w == 2 && cp < 0x80) || (w == 3 && cp < 0x800) || (w == 4 && (cp < 0x10000 || cp
        > 0x10ffff)) || (0xd800 <= cp && cp <= 0xdfff) {
        return None;
    }
    match char_from_scalar(cp) {
        Some(c) => {
            proof {
                char_u32_cast(c, cp);
            }
            Some((c, pos + w))
        },
        None => None,
    }
}

/// Reads `n` characters at `pos`, with the position after them.
pub fn read_chars(b: &[u8], pos: usize, n: usize) -> (r: Option<(Vec<char>, usize)>)
    requires
        pos <= b@.len(),
    ensures
        match parse_chars(b@.skip(pos as int), n as nat) {
            None => r is None,
            Some((cs, k)) => r matches Some((v, p)) && v@ == cs && p == pos + k,
        },
        r matches Some((v, _)) ==> v@.len() == n,
    decreases n,
{
    broadcast use lemma_skip_skip;

    proof {
        lemma_parse_chars_sound(b@.skip(pos as int), n as nat);
    }

    if n == 0 {
        return Some((Vec::new(), pos));
    }
    match read_char(b, pos) {
        None => None,
        Some((c, p)) => {
            proof {
                let s = b@.skip(pos as int);
                lemma_parse_char_sound(s);
                assert(parse_char(s) is Some);
                let k = match parse_char(s) {
                    Some((_, n)) => n,
                    None => 0,
                };
                assert(1 <= k <= s.len());
                assert(s.len() == b@.len() - pos);
                assert(p == pos + k);
                lemma_skip_skip(b@, pos as int, p - pos);
            }
            match read_chars(b, p, n - 1) {
                None => None,
                Some((rest, q)) => {
                    let mut v = rest;
                    v.insert(0, c);
                    assert(v@ =~= seq![c] + rest@);
                    Some((v, q))
                },
            }
        },
    }
}

// ---------------------------------------------------------------- strings

/// A string: its UTF-8 byte count as an 8-byte integer, then those bytes.
pub open spec fn enc_text(t: Seq<char>) -> Seq<u8> {
    le_u64(encode_utf8(t).len() as u64) + encode_utf8(t)
}

/// The byte count of `t` can be written in the 8-byte count.
pub open spec fn text_fits(t: Seq<char>) -> bool {
    encode_utf8(t).len() <= u64::MAX
}

/// Reads a string from the front of `s`, with the number of bytes used.
#[verifier::opaque]
pub open spec fn parse_text(s: Seq<u8>) -> Option<(Seq<char>, int)> {
    match parse_le_u64(s) {
        None => None,
        Some((n, k)) => if k + n <= s.len() && valid_utf8(s.subrange(k, k + n)) {
            Some((decode_utf8(s.subrange(k, k + n)), k + n))
        } else {
            None
        },
    }
}

proof fn lemma_parse_text(t: Seq<char>, rest: Seq<u8>)
    requires
        text_fits(t),
    ensures
        parse_text(enc_text(t) + rest) == Some((t, enc_text(t).len() as int)),
{
    reveal(parse_text);
    let e = encode_utf8(t);
    let s = enc_text(t) + rest;
    assert(s =~= le_u64(e.len() as u64) + (e + rest));
    lemma_parse_le_u64(e.len() as u64, e + rest);
    assert(s.subrange(8, 8 + e.len() as int) =~= e);
    encode_utf8_valid_utf8(t);
    encode_utf8_decode_utf8(t);
}

proof fn lemma_parse_text_sound(s: Seq<u8>)
    ensures
        parse_text(s) matches Some((t, k)) ==> 0 <= k <= s.len() && s.subrange(0, k) == enc_text(
            t,
        ) && text_fits(t),
{
    reveal(parse_text);
    lemma_parse_le_u64_sound(s);
    if let Some((t, k)) = parse_text(s) {
        let bytes = s.subrange(8, k);
        vstd::utf8::decode_utf8_encode_utf8(bytes);
        assert(s.subrange(0, k) =~= s.subrange(0, 8) + bytes);
    }
}

/// Relies on `String::from_utf8`: the text exactly when the bytes are valid UTF-8.
#[verifier::external_body]
fn text_from_utf8(b: &[u8]) -> (r: Option<String>)
    ensures
        r is Some <==> valid_utf8(b@),
        r matches Some(t) ==> t@ == decode_utf8(b@),
{
    String::from_utf8(b.to_vec()).ok()
}

/// Appends `t` in the string layout.
pub fn push_text(out: &mut Vec<u8>, t: &String)
    ensures
        final(out)@ == old(out)@ + enc_text(t@),
        text_fits(t@),
{
    let bytes = t.as_str().as_bytes();
    push_le_u64(out, bytes.len() as u64);
    let mut i: usize = 0;
    while i < bytes.len()
        invariant
            bytes@ == encode_utf8(t@),
            i <= bytes@.len(),
            out@ == old(out)@ + le_u64(bytes@.len() as u64) + bytes@.take(i as int),
        decreases bytes@.len() - i,
    {
        out.push(bytes[i]);
        proof {
            assert(bytes@.take(i as int).push(bytes@[i as int]) =~= bytes@.take(i + 1));
        }
        i = i + 1;
    }
    proof {
        assert(bytes@.take(bytes@.len() as int) =~= bytes@);
        assert(final(out)@ =~= old(out)@ + enc_text(t@));
    }
}

/// Reads a string at `pos`, with the position after it.
pub fn read_text(b: &[u8], pos: usize) -> (r: Option<(String, usize)>)
    requires
        pos <= b@.len(),
    ensures
        match parse_text(b@.skip(pos as int)) {
            None => r is None,
            Some((t, k)) => r matches Some((v, p)) && v@ == t && p == pos + k,
        },
{
    let ghost s = b@.skip(pos as int);
    proof {
        reveal(parse_text);
    }
    let (n, p) = match read_le_u64(b, pos) {
        None => return None,
        Some(x) => x,
    };
    if n > (b.len() - p) as u64 {
        return None;
    }
    let end = p + n as usize;
    let bytes = &b[p..end];
    assert(bytes@ == s.subrange(8, 8 + n));
    match text_from_utf8(bytes) {
        None => None,
        Some(t) => Some((t, end)),
    }
}


proof fn lemma_skip_prefix(a: Seq<u8>, b: Seq<u8>)
    ensures
        (a + b).skip(a.len() as int) == b,
{
    assert((a + b).skip(a.len() as int) =~= b);
}

proof fn lemma_prefix_split(s: Seq<u8>, i: int, j: int)
    requires
        0 <= i,
        0 <= j,
        i + j <= s.len(),
    ensures
        s.subrange(0, i + j) == s.subrange(0, i) + s.skip(i).subrange(0, j),
{
    assert(s.subrange(0, i + j) =~= s.subrange(0, i) + s.skip(i).subrange(0, j));
}

// ---------------------------------------------------------------- addresses

/// An address: 0 then the IPv4 octets, or 1 then the IPv6 octets; then the port.
pub open spec fn enc_addr(a: PeerAddr) -> Seq<u8> {
    match a {
        PeerAddr::V4(ip, port) => le_u32(0) + be_u32(ip) + le_u16(port),
        PeerAddr::V6(ip, port) => le_u32(1) + be_u128(ip) + le_u16(port),
    }
}

/// Reads an address from the front of `s`, with the number of bytes used.
pub open spec fn parse_addr(s: Seq<u8>) -> Option<(PeerAddr, int)> {
    match parse_le_u32(s) {
        None => None,
        Some((tag, _)) => if tag == 0 {
            match (parse_be_u32(s.skip(4)), parse_le_u16(s.skip(8))) {
                (Some((ip, _)), Some((port, _))) => Some((PeerAddr::V4(ip, port), 10)),
                _ => None,
            }
        } else if tag == 1 {
            match (parse_be_u128(s.skip(4)), parse_le_u16(s.skip(20))) {
                (Some((ip, _)), Some((port, _))) => Some((PeerAddr::V6(ip, port), 22)),
                _ => None,
            }
        } else {
            None
        },
    }
}

#[verifier::rlimit(40)]
proof fn lemma_parse_addr(a: PeerAddr, rest: Seq<u8>)
    ensures
        parse_addr(enc_addr(a) + rest) == Some((a, enc_addr(a).len() as int)),
{
    let s = enc_addr(a) + rest;
    match a {
        PeerAddr::V4(ip, port) => {
            assert(s =~= le_u32(0) + (be_u32(ip) + (le_u16(port) + rest)));
            lemma_parse_le_u32(0, be_u32(ip) + (le_u16(port) + rest));
            assert(s.skip(4) =~= be_u32(ip) + (le_u16(port) + rest));
            lemma_parse_be_u32(ip, le_u16(port) + rest);
            assert(s.skip(8) =~= le_u16(port) + rest);
            lemma_parse_le_u16(port, rest);
        },
        PeerAddr::V6(ip, port) => {
            assert(s =~= le_u32(1) + (be_u128(ip) + (le_u16(port) + rest)));
            lemma_parse_le_u32(1, be_u128(ip) + (le_u16(port) + rest));
            assert(s.skip(4) =~= be_u128(ip) + (le_u16(port) + rest));
            lemma_parse_be_u128(ip, le_u16(port) + rest);
            assert(s.skip(20) =~= le_u16(port) + rest);
            lemma_parse_le_u16(port, rest);
        },
    }
}

proof fn lemma_parse_addr_sound(s: Seq<u8>)
    ensures
        parse_addr(s) matches Some((a, k)) ==> 0 <= k <= s.len() && s.subrange(0, k) == enc_addr(
            a,
        ),
{
    if let Some((a, k)) = parse_addr(s) {
        lemma_parse_le_u32_sound(s);
        lemma_parse_be_u32_sound(s.skip(4));
        lemma_parse_be_u128_sound(s.skip(4));
        match a {
            PeerAddr::V4(ip, port) => {
                lemma_parse_le_u16_sound(s.skip(8));
                assert(s.subrange(0, 10) =~= s.subrange(0, 4) + s.skip(4).subrange(0, 4)
                    + s.skip(8).subrange(0, 2));
            },
            PeerAddr::V6(ip, port) => {
                lemma_parse_le_u16_sound(s.skip(20));
                assert(s.subrange(0, 22) =~= s.subrange(0, 4) + s.skip(4).subrange(0, 16)
                    + s.skip(20).subrange(0, 2));
            },
        }
    }
}

/// Appends `a` in the address layout.
pub fn push_addr(out: &mut Vec<u8>, a: &PeerAddr)
    ensures
        final(out)@ == old(out)@ + enc_addr(*a),
{
    match a {
        PeerAddr::V4(ip, port) => {
            push_le_u32(out, 0);
            push_be_u32(out, *ip);
            push_le_u16(out, *port);
        },
        PeerAddr::V6(ip, port) => {
            push_le_u32(out, 1);
            push_be_u128(out, *ip);
            push_le_u16(out, *port);
        },
    }
    proof {
        assert(final(out)@ =~= old(out)@ + enc_addr(*a));
    }
}

/// Reads an address at `pos`, with the position after it.
pub fn read_addr(b: &[u8], pos: usize) -> (r: Option<(PeerAddr, usize)>)
    requires
        pos <= b@.len(),
    ensures
        match parse_addr(b@.skip(pos as int)) {
            None => r is None,
            Some((a, k)) => r matches Some((x, p)) && x == a && p == pos + k,
        },
{
    let ghost s = b@.skip(pos as int);
    let (tag, p) = match read_le_u32(b, pos) {
        None => return None,
        Some(x) => x,
    };
    proof {
        lemma_parse_le_u32_sound(s);
        lemma_skip_skip(b@, pos as int, 4);
    }
    if tag == 0 {
        let (ip, q) = match read_be_u32(b, p) {
            None => return None,
            Some(x) => x,
        };
        proof {
            lemma_parse_be_u32_sound(s.skip(4));
            lemma_skip_skip(b@, pos as int, 8);
        }
        let (port, e) = match read_le_u16(b, q) {
            None => return None,
            Some(x) => x,
        };
        Some((PeerAddr::V4(ip, port), e))
    } else if tag == 1 {
        let (ip, q) = match read_be_u128(b, p) {
            None => return None,
            Some(x) => x,
        };
        proof {
            lemma_parse_be_u128_sound(s.skip(4));
            lemma_skip_skip(b@, pos as int, 20);
        }
        let (port, e) = match read_le_u16(b, q) {
            None => return None,
            Some(x) => x,
        };
        Some((PeerAddr::V6(ip, port), e))
    } else {
        None
    }
}

// ---------------------------------------------------------------- orders

/// An order: 0 then the server id and password as strings, or 1.
pub open spec fn enc_order(o: OrderModel) -> Seq<u8> {
    match o {
        OrderModel::JoinServer(id, password) => le_u32(0) + enc_text(id) + enc_text(password),
        OrderModel::LeaveServer => le_u32(1),
    }
}

/// The strings of `o` can be written.
pub open spec fn order_fits(o: OrderModel) -> bool {
    match o {
        OrderModel::JoinServer(id, password) => text_fits(id) && text_fits(password),
        OrderModel::LeaveServer => true,
    }
}

/// Reads an order from the front of `s`, with the number of bytes used.
pub open spec fn parse_order(s: Seq<u8>) -> Option<(OrderModel, int)> {
    match parse_le_u32(s) {
        None => None,
        Some((tag, _)) => if tag == 0 {
            match parse_text(s.skip(4)) {
                None => None,
                Some((id, k1)) => if 0 <= k1 <= s.len() - 4 {
                    match parse_text(s.skip(4 + k1)) {
                        None => None,
                        Some((password, k2)) => Some(
                            (OrderModel::JoinServer(id, password), 4 + k1 + k2),
                        ),
                    }
                } else {
                    None
                },
            }
        } else if tag == 1 {
            Some((OrderModel::LeaveServer, 4))
        } else {
            None
        },
    }
}

#[verifier::rlimit(40)]
proof fn lemma_parse_order(o: OrderModel, rest: Seq<u8>)
    requires
        order_fits(o),
    ensures
        parse_order(enc_order(o) + rest) == Some((o, enc_order(o).len() as int)),
{
    let s = enc_order(o) + rest;
    match o {
        OrderModel::JoinServer(id, password) => {
            let t1 = enc_text(id);
            let t2 = enc_text(password);
            assert(s =~= le_u32(0) + (t1 + (t2 + rest)));
            lemma_parse_le_u32(0, t1 + (t2 + rest));
            assert(s.skip(4) =~= t1 + (t2 + rest));
            lemma_parse_text(id, t2 + rest);
            assert(parse_text(s.skip(4)) == Some((id, t1.len() as int)));
            assert(s.skip(4 + t1.len() as int) =~= t2 + rest);
            lemma_parse_text(password, rest);
            assert(parse_text(s.skip(4 + t1.len() as int)) == Some((password, t2.len() as int)));
            assert(enc_order(o).len() == 4 + t1.len() + t2.len());
        },
        OrderModel::LeaveServer => {
            lemma_parse_le_u32(1, rest);
        },
    }
}

proof fn lemma_parse_order_sound(s: Seq<u8>)
    ensures
        parse_order(s) matches Some((o, k)) ==> 0 <= k <= s.len() && s.subrange(0, k)
            == enc_order(o) && order_fits(o),
{
    if let Some((o, k)) = parse_order(s) {
        lemma_parse_le_u32_sound(s);
        match o {
            OrderModel::JoinServer(id, password) => {
                lemma_parse_text_sound(s.skip(4));
                let k1 = match parse_text(s.skip(4)) {
                    Some((_, n)) => n,
                    None => 0,
                };
                lemma_parse_text_sound(s.skip(4 + k1));
                let k2 = k - 4 - k1;
                lemma_skip_skip(s, 4, k1);
                assert(s.subrange(0, k) =~= s.subrange(0, 4) + s.skip(4).subrange(0, k1) + s.skip(
                    4 + k1,
                ).subrange(0, k2));
            },
            OrderModel::LeaveServer => {},
        }
    }
}

/// Appends `o` in the order layout.
pub fn push_order(out: &mut Vec<u8>, o: &Order)
    ensures
        final(out)@ == old(out)@ + enc_order(o@),
        order_fits(o@),
{
    match o {
        Order::JoinServer(id, password) => {
            push_le_u32(out, 0);
            push_text(out, id);
            push_text(out, password);
        },
        Order::LeaveServer => {
            push_le_u32(out, 1);
        },
    }
    proof {
        assert(final(out)@ =~= old(out)@ + enc_order(o@));
    }
}

/// Reads an order at `pos`, with the position after it.
pub fn read_order(b: &[u8], pos: usize) -> (r: Option<(Order, usize)>)
    requires
        pos <= b@.len(),
    ensures
        match parse_order(b@.skip(pos as int)) {
            None => r is None,
            Some((o, k)) => r matches Some((v, p)) && v@ == o && p == pos + k,
        },
{
    let ghost s = b@.skip(pos as int);
    let (tag, p) = match read_le_u32(b, pos) {
        None => return None,
        Some(x) => x,
    };
    proof {
        lemma_parse_le_u32_sound(s);
        lemma_skip_skip(b@, pos as int, 4);
    }
    if tag == 0 {
        let (id, q) = match read_text(b, p) {
            None => return None,
            Some(x) => x,
        };
        proof {
            lemma_parse_text_sound(s.skip(4));
            lemma_skip_skip(b@, pos as int, q - pos);
            lemma_skip_skip(s, 4, q - pos - 4);
        }
        let (password, e) = match read_text(b, q) {
            None => return None,
            Some(x) => x,
        };
        Some((Order::JoinServer(id, password), e))
    } else if tag == 1 {
        Some((Order::LeaveServer, p))
    } else {
        None
    }
}


// ---------------------------------------------------------------- optional uids

/// An optional player uid: 0, or 1 then its characters.
pub open spec fn enc_opt_uid(u: Option<Seq<char>>) -> Seq<u8> {
    match u {
        None => seq![0u8],
        Some(cs) => seq![1u8] + encode_utf8(cs),
    }
}

/// Reads an optional player uid from the front of `s`, with the number of bytes used.
pub open spec fn parse_opt_uid(s: Seq<u8>) -> Option<(Option<Seq<char>>, int)> {
    if s.len() >= 1 && s[0] == 0 {
        Some((None, 1))
    } else if s.len() >= 1 && s[0] == 1 {
        match parse_chars(s.skip(1), 5) {
            None => None,
            Some((cs, k)) => Some((Some(cs), 1 + k)),
        }
    } else {
        None
    }
}

proof fn lemma_parse_opt_uid(u: Option<Seq<char>>, rest: Seq<u8>)
    requires
        u matches Some(cs) ==> cs.len() == 5,
    ensures
        parse_opt_uid(enc_opt_uid(u) + rest) == Some((u, enc_opt_uid(u).len() as int)),
{
    let s = enc_opt_uid(u) + rest;
    if let Some(cs) = u {
        assert(s =~= seq![1u8] + (encode_utf8(cs) + rest));
        assert(s.skip(1) =~= encode_utf8(cs) + rest);
        lemma_parse_chars(cs, rest);
    }
}

proof fn lemma_parse_opt_uid_sound(s: Seq<u8>)
    ensures
        parse_opt_uid(s) matches Some((u, k)) ==> 0 <= k <= s.len() && s.subrange(0, k)
            == enc_opt_uid(u) && (u matches Some(cs) ==> cs.len() == 5),
{
    if let Some((u, k)) = parse_opt_uid(s) {
        if let Some(cs) = u {
            lemma_parse_chars_sound(s.skip(1), 5);
            assert(s.subrange(0, k) =~= seq![1u8] + s.skip(1).subrange(0, k - 1));
        } else {
            assert(s.subrange(0, k) =~= seq![0u8]);
        }
    }
}

// ---------------------------------------------------------------- messages

/// A message: its variant index, then its fields in order.
pub open spec fn enc_message(m: MessageModel) -> Seq<u8> {
    match m {
        MessageModel::FindLobby(id) => le_u32(0) + encode_utf8(id),
        MessageModel::CreateLobby => le_u32(1),
        MessageModel::NewClient(a) => le_u32(2) + enc_addr(a),
        MessageModel::Auth(password) => le_u32(3) + encode_utf8(password),
        MessageModel::GetLastOrder(uid) => le_u32(4) + encode_utf8(uid),
        MessageModel::NewOrder(uid, o) => le_u32(5) + encode_utf8(uid) + enc_order(o),
        MessageModel::VibeCheck => le_u32(6),
        MessageModel::Ping(uid) => le_u32(7) + enc_opt_uid(uid),
    }
}

/// The identifiers of `m` have their fixed widths and its strings can be written.
pub open spec fn message_fits(m: MessageModel) -> bool {
    match m {
        MessageModel::FindLobby(id) => id.len() == 8,
        MessageModel::Auth(password) => password.len() == 8,
        MessageModel::GetLastOrder(uid) => uid.len() == 5,
        MessageModel::NewOrder(uid, o) => uid.len() == 5 && order_fits(o),
        MessageModel::Ping(uid) => uid matches Some(cs) ==> cs.len() == 5,
        _ => true,
    }
}

/// Reads a message from the front of `s`, with the number of bytes used.
pub open spec fn parse_message(s: Seq<u8>) -> Option<(MessageModel, int)> {
    match parse_le_u32(s) {
        None => None,
        Some((tag, _)) => {
            let r = s.skip(4);
            if tag == 0 {
                match parse_chars(r, 8) {
                    None => None,
                    Some((id, k)) => Some((MessageModel::FindLobby(id), 4 + k)),
                }
            } else if tag == 1 {
                Some((MessageModel::CreateLobby, 4))
            } else if tag == 2 {
                match parse_addr(r) {
                    None => None,
                    Some((a, k)) => Some((MessageModel::NewClient(a), 4 + k)),
                }
            } else if tag == 3 {
                match parse_chars(r, 8) {
                    None => None,
                    Some((password, k)) => Some((MessageModel::Auth(password), 4 + k)),
                }
            } else if tag == 4 {
                match parse_chars(r, 5) {
                    None => None,
                    Some((uid, k)) => Some((MessageModel::GetLastOrder(uid), 4 + k)),
                }
            } else if tag == 5 {
                match parse_chars(r, 5) {
                    None => None,
                    Some((uid, k)) => if 0 <= k <= r.len() {
                        match parse_order(r.skip(k)) {
                            None => None,
                            Some((o, k2)) => Some((MessageModel::NewOrder(uid, o), 4 + k + k2)),
                        }
                    } else {
                        None
                    },
                }
            } else if tag == 6 {
                Some((MessageModel::VibeCheck, 4))
            } else if tag == 7 {
                match parse_opt_uid(r) {
                    None => None,
                    Some((uid, k)) => Some((MessageModel::Ping(uid), 4 + k)),
                }
            } else {
                None
            }
        },
    }
}

proof fn lemma_tagged(tag: u32, body: Seq<u8>, rest: Seq<u8>)
    ensures
        parse_le_u32(le_u32(tag) + body + rest) == Some((tag, 4int)),
        (le_u32(tag) + body + rest).skip(4) == body + rest,
{
    assert(le_u32(tag) + body + rest =~= le_u32(tag) + (body + rest));
    lemma_parse_le_u32(tag, body + rest);
    assert((le_u32(tag) + body + rest).skip(4) =~= body + rest);
}

#[verifier::rlimit(40)]
proof fn lemma_parse_message(m: MessageModel, rest: Seq<u8>)
    requires
        message_fits(m),
    ensures
        parse_message(enc_message(m) + rest) == Some((m, enc_message(m).len() as int)),
{
    let s = enc_message(m) + rest;
    match m {
        MessageModel::FindLobby(id) => {
            lemma_tagged(0, encode_utf8(id), rest);
            lemma_parse_chars(id, rest);
        },
        MessageModel::CreateLobby => {
            lemma_tagged(1, Seq::empty(), rest);
            assert(s =~= le_u32(1) + Seq::<u8>::empty() + rest);
        },
        MessageModel::NewClient(a) => {
            lemma_tagged(2, enc_addr(a), rest);
            lemma_parse_addr(a, rest);
        },
        MessageModel::Auth(password) => {
            lemma_tagged(3, encode_utf8(password), rest);
            lemma_parse_chars(password, rest);
        },
        MessageModel::GetLastOrder(uid) => {
            lemma_tagged(4, encode_utf8(uid), rest);
            lemma_parse_chars(uid, rest);
        },
        MessageModel::NewOrder(uid, o) => {
            let body = encode_utf8(uid) + enc_order(o);
            lemma_tagged(5, body, rest);
            assert(s =~= le_u32(5) + body + rest);
            assert(body + rest =~= encode_utf8(uid) + (enc_order(o) + rest));
            lemma_parse_chars(uid, enc_order(o) + rest);
            lemma_skip_prefix(encode_utf8(uid), enc_order(o) + rest);
            lemma_parse_order(o, rest);
        },
        MessageModel::VibeCheck => {
            lemma_tagged(6, Seq::empty(), rest);
            assert(s =~= le_u32(6) + Seq::<u8>::empty() + rest);
        },
        MessageModel::Ping(uid) => {
            lemma_tagged(7, enc_opt_uid(uid), rest);
            lemma_parse_opt_uid(uid, rest);
        },
    }
}

#[verifier::rlimit(40)]
proof fn lemma_parse_message_sound(s: Seq<u8>)
    ensures
        parse_message(s) matches Some((m, k)) ==> 0 <= k <= s.len() && s.subrange(0, k)
            == enc_message(m) && message_fits(m),
{
    if let Some((m, k)) = parse_message(s) {
        lemma_parse_le_u32_sound(s);
        let r = s.skip(4);
        lemma_parse_chars_sound(r, 8);
        lemma_parse_chars_sound(r, 5);
        lemma_parse_addr_sound(r);
        lemma_parse_opt_uid_sound(r);
        if let MessageModel::NewOrder(uid, o) = m {
            let k1 = match parse_chars(r, 5) {
                Some((_, n)) => n,
                None => 0,
            };
            lemma_parse_order_sound(r.skip(k1));
            lemma_prefix_split(r, k1, k - 4 - k1);
            lemma_prefix_split(s, 4, k - 4);
        } else {
            assert(4 <= k);
            lemma_prefix_split(s, 4, k - 4);
        }
    }
}

// ---------------------------------------------------------------- responses

/// A response: its variant index, then its fields in order.
pub open spec fn enc_response(r: ResponseModel) -> Seq<u8> {
    match r {
        ResponseModel::FoundLobby(a) => le_u32(0) + enc_addr(a),
        ResponseModel::NoLobby(id) => le_u32(1) + encode_utf8(id),
        ResponseModel::CreatedLobby(id) => le_u32(2) + encode_utf8(id),
        ResponseModel::AuthAccepted(uid, password) => le_u32(3) + encode_utf8(uid) + encode_utf8(
            password,
        ),
        ResponseModel::FailedAuth => le_u32(4),
        ResponseModel::Pong => le_u32(5),
    }
}

/// The identifiers of `r` have their fixed widths.
pub open spec fn response_fits(r: ResponseModel) -> bool {
    match r {
        ResponseModel::NoLobby(id) => id.len() == 8,
        ResponseModel::CreatedLobby(id) => id.len() == 8,
        ResponseModel::AuthAccepted(uid, password) => uid.len() == 5 && password.len() == 8,
        _ => true,
    }
}

/// Reads a response from the front of `s`, with the number of bytes used.
pub open spec fn parse_response(s: Seq<u8>) -> Option<(ResponseModel, int)> {
    match parse_le_u32(s) {
        None => None,
        Some((tag, _)) => {
            let r = s.skip(4);
            if tag == 0 {
                match parse_addr(r) {
                    None => None,
                    Some((a, k)) => Some((ResponseModel::FoundLobby(a), 4 + k)),
                }
            } else if tag == 1 {
                match parse_chars(r, 8) {
                    None => None,
                    Some((id, k)) => Some((ResponseModel::NoLobby(id), 4 + k)),
                }
            } else if tag == 2 {
                match parse_chars(r, 8) {
                    None => None,
                    Some((id, k)) => Some((ResponseModel::CreatedLobby(id), 4 + k)),
                }
            } else if tag == 3 {
                match parse_chars(r, 5) {
                    None => None,
                    Some((uid, k)) => if 0 <= k <= r.len() {
                        match parse_chars(r.skip(k), 8) {
                            None => None,
                            Some((password, k2)) => Some(
                                (ResponseModel::AuthAccepted(uid, password), 4 + k + k2),
                            ),
                        }
                    } else {
                        None
                    },
                }
            } else if tag == 4 {
                Some((ResponseModel::FailedAuth, 4))
            } else if tag == 5 {
                Some((ResponseModel::Pong, 4))
            } else {
                None
            }
        },
    }
}

#[verifier::rlimit(40)]
proof fn lemma_parse_response(m: ResponseModel, rest: Seq<u8>)
    requires
        response_fits(m),
    ensures
        parse_response(enc_response(m) + rest) == Some((m, enc_response(m).len() as int)),
{
    let s = enc_response(m) + rest;
    match m {
        ResponseModel::FoundLobby(a) => {
            lemma_tagged(0, enc_addr(a), rest);
            lemma_parse_addr(a, rest);
        },
        ResponseModel::NoLobby(id) => {
            lemma_tagged(1, encode_utf8(id), rest);
            lemma_parse_chars(id, rest);
        },
        ResponseModel::CreatedLobby(id) => {
            lemma_tagged(2, encode_utf8(id), rest);
            lemma_parse_chars(id, rest);
        },
        ResponseModel::AuthAccepted(uid, password) => {
            let body = encode_utf8(uid) + encode_utf8(password);
            lemma_tagged(3, body, rest);
            assert(s =~= le_u32(3) + body + rest);
            assert(body + rest =~= encode_utf8(uid) + (encode_utf8(password) + rest));
            lemma_parse_chars(uid, encode_utf8(password) + rest);
            lemma_skip_prefix(encode_utf8(uid), encode_utf8(password) + rest);
            lemma_parse_chars(password, rest);
        },
        ResponseModel::FailedAuth => {
            lemma_tagged(4, Seq::empty(), rest);
            assert(s =~= le_u32(4) + Seq::<u8>::empty() + rest);
        },
        ResponseModel::Pong => {
            lemma_tagged(5, Seq::empty(), rest);
            assert(s =~= le_u32(5) + Seq::<u8>::empty() + rest);
        },
    }
}

#[verifier::rlimit(40)]
proof fn lemma_parse_response_sound(s: Seq<u8>)
    ensures
        parse_response(s) matches Some((m, k)) ==> 0 <= k <= s.len() && s.subrange(0, k)
            == enc_response(m) && response_fits(m),
{
    if let Some((m, k)) = parse_response(s) {
        lemma_parse_le_u32_sound(s);
        let r = s.skip(4);
        lemma_parse_chars_sound(r, 8);
        lemma_parse_chars_sound(r, 5);
        lemma_parse_addr_sound(r);
        if let ResponseModel::AuthAccepted(uid, password) = m {
            let k1 = match parse_chars(r, 5) {
                Some((_, n)) => n,
                None => 0,
            };
            lemma_parse_chars_sound(r.skip(k1), 8);
            lemma_prefix_split(r, k1, k - 4 - k1);
            lemma_prefix_split(s, 4, k - 4);
        } else {
            assert(4 <= k);
            lemma_prefix_split(s, 4, k - 4);
        }
    }
}

// ---------------------------------------------------------------- packets

/// A packet: 0 then a message, or 1 then a response.
pub open spec fn enc_packet(p: PacketModel) -> Seq<u8> {
    match p {
        PacketModel::Message(m) => le_u32(0) + enc_message(m),
        PacketModel::Response(r) => le_u32(1) + enc_response(r),
    }
}

/// The identifiers of `p` have their fixed widths and its strings can be written.
pub open spec fn packet_fits(p: PacketModel) -> bool {
    match p {
        PacketModel::Message(m) => message_fits(m),
        PacketModel::Response(r) => response_fits(r),
    }
}

/// Reads a packet from the front of `s`, with the number of bytes used.
pub open spec fn parse_packet(s: Seq<u8>) -> Option<(PacketModel, int)> {
    match parse_le_u32(s) {
        None => None,
        Some((tag, _)) => if tag == 0 {
            match parse_message(s.skip(4)) {
                None => None,
                Some((m, k)) => Some((PacketModel::Message(m), 4 + k)),
            }
        } else if tag == 1 {
            match parse_response(s.skip(4)) {
                None => None,
                Some((r, k)) => Some((PacketModel::Response(r), 4 + k)),
            }
        } else {
            None
        },
    }
}

proof fn lemma_parse_packet(p: PacketModel, rest: Seq<u8>)
    requires
        packet_fits(p),
    ensures
        parse_packet(enc_packet(p) + rest) == Some((p, enc_packet(p).len() as int)),
{
    match p {
        PacketModel::Message(m) => {
            lemma_tagged(0, enc_message(m), rest);
            lemma_parse_message(m, rest);
        },
        PacketModel::Response(r) => {
            lemma_tagged(1, enc_response(r), rest);
            lemma_parse_response(r, rest);
        },
    }
}

proof fn lemma_parse_packet_sound(s: Seq<u8>)
    ensures
        parse_packet(s) matches Some((p, k)) ==> 0 <= k <= s.len() && s.subrange(0, k)
            == enc_packet(p) && packet_fits(p),
{
    if let Some((p, k)) = parse_packet(s) {
        lemma_parse_le_u32_sound(s);
        lemma_parse_message_sound(s.skip(4));
        lemma_parse_response_sound(s.skip(4));
        lemma_prefix_split(s, 4, k - 4);
    }
}

/// Decoding undoes encoding: the only well-formed packet whose encoding is
/// `enc_packet(p)` is `p` itself, so `decode(encode(p))` gives back `p`.
pub proof fn lemma_round_trip(p: PacketModel, q: PacketModel)
    requires
        packet_fits(p),
        packet_fits(q),
        enc_packet(q) == enc_packet(p),
    ensures
        q == p,
{
    lemma_parse_packet(p, Seq::empty());
    lemma_parse_packet(q, Seq::empty());
    assert(enc_packet(p) + Seq::<u8>::empty() =~= enc_packet(p));
    assert(enc_packet(q) + Seq::<u8>::empty() =~= enc_packet(q));
}


// ---------------------------------------------------------------- exec

/// The input is not the encoding of any packet.
#[derive(Clone, Copy, Debug, PartialEq, Eq, Structural)]
pub struct DecodeError;

/// Appends `m` in the message layout.
pub fn push_message(out: &mut Vec<u8>, m: &PacketMessage)
    ensures
        final(out)@ == old(out)@ + enc_message(m@),
        message_fits(m@),
{
    match m {
        PacketMessage::FindLobby(id) => {
            push_le_u32(out, 0);
            push_chars(out, id);
        },
        PacketMessage::CreateLobby => {
            push_le_u32(out, 1);
        },
        PacketMessage::NewClient(a) => {
            push_le_u32(out, 2);
            push_addr(out, a);
        },
        PacketMessage::Auth(password) => {
            push_le_u32(out, 3);
            push_chars(out, password);
        },
        PacketMessage::GetLastOrder(uid) => {
            push_le_u32(out, 4);
            push_chars(out, uid);
        },
        PacketMessage::NewOrder(uid, o) => {
            push_le_u32(out, 5);
            push_chars(out, uid);
            push_order(out, o);
        },
        PacketMessage::VibeCheck => {
            push_le_u32(out, 6);
        },
        PacketMessage::Ping(uid) => {
            push_le_u32(out, 7);
            match uid {
                None => {
                    out.push(0);
                },
                Some(u) => {
                    out.push(1);
                    push_chars(out, u);
                },
            }
        },
    }
    proof {
        assert(final(out)@ =~= old(out)@ + enc_message(m@));
    }
}

/// Appends `r` in the response layout.
pub fn push_response(out: &mut Vec<u8>, r: &PacketResponse)
    ensures
        final(out)@ == old(out)@ + enc_response(r@),
        response_fits(r@),
{
    match r {
        PacketResponse::FoundLobby(a) => {
            push_le_u32(out, 0);
            push_addr(out, a);
        },
        PacketResponse::NoLobby(id) => {
            push_le_u32(out, 1);
            push_chars(out, id);
        },
        PacketResponse::CreatedLobby(id) => {
            push_le_u32(out, 2);
            push_chars(out, id);
        },
        PacketResponse::AuthAccepted(uid, password) => {
            push_le_u32(out, 3);
            push_chars(out, uid);
            push_chars(out, password);
        },
        PacketResponse::FailedAuth => {
            push_le_u32(out, 4);
        },
        PacketResponse::Pong => {
            push_le_u32(out, 5);
        },
    }
    proof {
        assert(final(out)@ =~= old(out)@ + enc_response(r@));
    }
}

/// The bytes of `p` on the wire.
pub fn encode(p: &SentPacket) -> (r: Vec<u8>)
    ensures
        r@ == enc_packet(p@),
        packet_fits(p@),
{
    let mut out: Vec<u8> = Vec::new();
    match p {
        SentPacket::PacketMessage(m) => {
            push_le_u32(&mut out, 0);
            push_message(&mut out, m);
        },
        SentPacket::PacketResponse(r) => {
            push_le_u32(&mut out, 1);
            push_response(&mut out, r);
        },
    }
    proof {
        assert(out@ =~= enc_packet(p@));
    }
    out
}

/// Reads a message at `pos`, with the position after it.
#[verifier::rlimit(40)]
pub fn read_message(b: &[u8], pos: usize) -> (r: Option<(PacketMessage, usize)>)
    requires
        pos <= b@.len(),
    ensures
        match parse_message(b@.skip(pos as int)) {
            None => r is None,
            Some((m, k)) => r matches Some((v, p)) && v@ == m && p == pos + k,
        },
{
    let ghost s = b@.skip(pos as int);
    let (tag, p) = match read_le_u32(b, pos) {
        None => return None,
        Some(x) => x,
    };
    proof {
        lemma_parse_le_u32_sound(s);
        lemma_skip_skip(b@, pos as int, 4);
    }
    let ghost r = s.skip(4);
    if tag == 0 {
        match read_chars(b, p, 8) {
            None => None,
            Some((v, e)) => Some((PacketMessage::FindLobby(array_of_8(&v)), e)),
        }
    } else if tag == 1 {
        Some((PacketMessage::CreateLobby, p))
    } else if tag == 2 {
        match read_addr(b, p) {
            None => None,
            Some((a, e)) => Some((PacketMessage::NewClient(a), e)),
        }
    } else if tag == 3 {
        match read_chars(b, p, 8) {
            None => None,
            Some((v, e)) => Some((PacketMessage::Auth(array_of_8(&v)), e)),
        }
    } else if tag == 4 {
        match read_chars(b, p, 5) {
            None => None,
            Some((v, e)) => Some((PacketMessage::GetLastOrder(array_of_5(&v)), e)),
        }
    } else if tag == 5 {
        match read_chars(b, p, 5) {
            None => None,
            Some((v, q)) => {
                proof {
                    lemma_parse_chars_sound(r, 5);
                    lemma_skip_skip(b@, p as int, q - p);
                }
                match read_order(b, q) {
                    None => None,
                    Some((o, e)) => Some((PacketMessage::NewOrder(array_of_5(&v), o), e)),
                }
            },
        }
    } else if tag == 6 {
        Some((PacketMessage::VibeCheck, p))
    } else if tag == 7 {
        if p >= b.len() {
            None
        } else if b[p] == 0 {
            Some((PacketMessage::Ping(None), p + 1))
        } else if b[p] == 1 {
            proof {
                lemma_skip_skip(b@, p as int, 1);
            }
            match read_chars(b, p + 1, 5) {
                None => None,
                Some((v, e)) => Some((PacketMessage::Ping(Some(array_of_5(&v))), e)),
            }
        } else {
            None
        }
    } else {
        None
    }
}

/// Reads a response at `pos`, with the position after it.
#[verifier::rlimit(40)]
pub fn read_response(b: &[u8], pos: usize) -> (r: Option<(PacketResponse, usize)>)
    requires
        pos <= b@.len(),
    ensures
        match parse_response(b@.skip(pos as int)) {
            None => r is None,
            Some((m, k)) => r matches Some((v, p)) && v@ == m && p == pos + k,
        },
{
    let ghost s = b@.skip(pos as int);
    let (tag, p) = match read_le_u32(b, pos) {
        None => return None,
        Some(x) => x,
    };
    proof {
        lemma_parse_le_u32_sound(s);
        lemma_skip_skip(b@, pos as int, 4);
    }
    let ghost r = s.skip(4);
    if tag == 0 {
        match read_addr(b, p) {
            None => None,
            Some((a, e)) => Some((PacketResponse::FoundLobby(a), e)),
        }
    } else if tag == 1 {
        match read_chars(b, p, 8) {
            None => None,
            Some((v, e)) => Some((PacketResponse::NoLobby(array_of_8(&v)), e)),
        }
    } else if tag == 2 {
        match read_chars(b, p, 8) {
            None => None,
            Some((v, e)) => Some((PacketResponse::CreatedLobby(array_of_8(&v)), e)),
        }
    } else if tag == 3 {
        match read_chars(b, p, 5) {
            None => None,
            Some((u, q)) => {
                proof {
                    lemma_parse_chars_sound(r, 5);
                    lemma_skip_skip(b@, p as int, q - p);
                }
                match read_chars(b, q, 8) {
                    None => None,
                    Some((w, e)) => Some(
                        (PacketResponse::AuthAccepted(array_of_5(&u), array_of_8(&w)), e),
                    ),
                }
            },
        }
    } else if tag == 4 {
        Some((PacketResponse::FailedAuth, p))
    } else if tag == 5 {
        Some((PacketResponse::Pong, p))
    } else {
        None
    }
}

/// The packet whose encoding is exactly `b`, if there is one.
pub fn decode(b: &[u8]) -> (r: Result<SentPacket, DecodeError>)
    ensures
        r matches Ok(p) ==> enc_packet(p@) == b@ && packet_fits(p@),
        r is Err ==> forall|m: PacketModel| packet_fits(m) ==> enc_packet(m) != b@,
{
    proof {
        assert(b@.skip(0) =~= b@);
        lemma_parse_packet_sound(b@);
        assert forall|m: PacketModel| packet_fits(m) && enc_packet(m) == b@ implies parse_packet(
            b@,
        ) == Some((m, b@.len() as int)) by {
            lemma_parse_packet(m, Seq::empty());
            assert(enc_packet(m) + Seq::<u8>::empty() =~= enc_packet(m));
        }
    }
    let (tag, p) = match read_le_u32(b, 0) {
        None => return Err(DecodeError),
        Some(x) => x,
    };
    proof {
        lemma_skip_skip(b@, 0, 4);
    }
    let (packet, end) = if tag == 0 {
        match read_message(b, p) {
            None => return Err(DecodeError),
            Some((m, e)) => (SentPacket::PacketMessage(m), e),
        }
    } else if tag == 1 {
        match read_response(b, p) {
            None => return Err(DecodeError),
            Some((m, e)) => (SentPacket::PacketResponse(m), e),
        }
    } else {
        return Err(DecodeError);
    };
    if end != b.len() {
        return Err(DecodeError);
    }
    proof {
        assert(b@.subrange(0, b@.len() as int) =~= b@);
    }
    Ok(packet)
}

} // verus!
