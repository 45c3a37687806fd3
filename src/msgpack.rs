//! The MessagePack pieces that the binary form is made of: the byte layout of
//! each header and scalar, the calls that write and read them, and the facts
//! that let a decoder undo an encoder.
use vstd::prelude::*;
use vstd::utf8::{decode_utf8, encode_utf8, is_ascii_chars, valid_utf8};

verus! {

broadcast use vstd::utf8::encode_utf8_valid_utf8, vstd::utf8::encode_utf8_decode_utf8;

/// Two bytes, most significant first.
pub open spec fn be16(x: u16) -> Seq<u8> {
    seq![(x >> 8u16) as u8, (x & 0xffu16) as u8]
}

/// Four bytes, most significant first.
pub open spec fn be32(x: u32) -> Seq<u8> {
    seq![
        (x >> 24u32) as u8,
        ((x >> 16u32) & 0xffu32) as u8,
        ((x >> 8u32) & 0xffu32) as u8,
        (x & 0xffu32) as u8,
    ]
}

/// Eight bytes, most significant first.
pub open spec fn be64(x: u64) -> Seq<u8> {
    seq![
        (x >> 56u64) as u8,
        ((x >> 48u64) & 0xffu64) as u8,
        ((x >> 40u64) & 0xffu64) as u8,
        ((x >> 32u64) & 0xffu64) as u8,
        ((x >> 24u64) & 0xffu64) as u8,
        ((x >> 16u64) & 0xffu64) as u8,
        ((x >> 8u64) & 0xffu64) as u8,
        (x & 0xffu64) as u8,
    ]
}

/// The integer that two bytes spell, most significant first.
pub open spec fn of_be16(b: Seq<u8>) -> u16 {
    ((b[0] as u16) << 8u16) | (b[1] as u16)
}

/// The integer that four bytes spell, most significant first.
pub open spec fn of_be32(b: Seq<u8>) -> u32 {
    ((b[0] as u32) << 24u32) | ((b[1] as u32) << 16u32) | ((b[2] as u32) << 8u32) | (b[3] as u32)
}

/// The integer that eight bytes spell, most significant first.
pub open spec fn of_be64(b: Seq<u8>) -> u64 {
    ((b[0] as u64) << 56u64) | ((b[1] as u64) << 48u64) | ((b[2] as u64) << 40u64) | ((b[3] as u64)
        << 32u64) | ((b[4] as u64) << 24u64) | ((b[5] as u64) << 16u64) | ((b[6] as u64) << 8u64)
        | (b[7] as u64)
}

/// The shortest header of an array of `n` items.
pub open spec fn array_len_bytes(n: u32) -> Seq<u8> {
    if n < 16 {
        seq![(0x90 + n) as u8]
    } else if n < 0x10000 {
        seq![0xdcu8] + be16(n as u16)
    } else {
        seq![0xddu8] + be32(n)
    }
}

/// The shortest header of a map of `n` entries.
pub open spec fn map_len_bytes(n: u32) -> Seq<u8> {
    if n < 16 {
        seq![(0x80 + n) as u8]
    } else if n < 0x10000 {
        seq![0xdeu8] + be16(n as u16)
    } else {
        seq![0xdfu8] + be32(n)
    }
}

/// The shortest header of a string of `n` bytes.
pub open spec fn str_len_bytes(n: u32) -> Seq<u8> {
    if n < 32 {
        seq![(0xa0 + n) as u8]
    } else if n < 0x100 {
        seq![0xd9u8, n as u8]
    } else if n < 0x10000 {
        seq![0xdau8] + be16(n as u16)
    } else {
        seq![0xdbu8] + be32(n)
    }
}

/// The shortest encoding of an unsigned integer.
pub open spec fn uint_bytes(v: u64) -> Seq<u8> {
    if v < 0x80 {
        seq![v as u8]
    } else if v < 0x100 {
        seq![0xccu8, v as u8]
    } else if v < 0x10000 {
        seq![0xcdu8] + be16(v as u16)
    } else if v < 0x1_0000_0000 {
        seq![0xceu8] + be32(v as u32)
    } else {
        seq![0xcfu8] + be64(v)
    }
}

/// A string: its header, then its UTF-8 bytes.
pub open spec fn str_bytes(s: Seq<char>) -> Seq<u8> {
    str_len_bytes(encode_utf8(s).len() as u32) + encode_utf8(s)
}

/// A 64-bit float given by its IEEE-754 bit pattern.
pub open spec fn f64_bytes(bits: u64) -> Seq<u8> {
    seq![0xcbu8] + be64(bits)
}

/// Whether a string's UTF-8 form is short enough for a string header.
pub open spec fn str_fits(s: Seq<char>) -> bool {
    encode_utf8(s).len() <= u32::MAX
}

/// Reads an array header: the item count and the bytes after it.
pub open spec fn parse_array_len(b: Seq<u8>) -> Option<(u32, Seq<u8>)> {
    if b.len() == 0 {
        None
    } else if 0x90 <= b[0] <= 0x9f {
        Some(((b[0] - 0x90) as u32, b.subrange(1, b.len() as int)))
    } else if b[0] == 0xdc && b.len() >= 3 {
        Some((of_be16(b.subrange(1, 3)) as u32, b.subrange(3, b.len() as int)))
    } else if b[0] == 0xdd && b.len() >= 5 {
        Some((of_be32(b.subrange(1, 5)), b.subrange(5, b.len() as int)))
    } else {
        None
    }
}

/// Reads a map header: the entry count and the bytes after it.
pub open spec fn parse_map_len(b: Seq<u8>) -> Option<(u32, Seq<u8>)> {
    if b.len() == 0 {
        None
    } else if 0x80 <= b[0] <= 0x8f {
        Some(((b[0] - 0x80) as u32, b.subrange(1, b.len() as int)))
    } else if b[0] == 0xde && b.len() >= 3 {
        Some((of_be16(b.subrange(1, 3)) as u32, b.subrange(3, b.len() as int)))
    } else if b[0] == 0xdf && b.len() >= 5 {
        Some((of_be32(b.subrange(1, 5)), b.subrange(5, b.len() as int)))
    } else {
        None
    }
}

/// Reads an integer that fits in a `u64`, from any of the integer formats.
pub open spec fn parse_uint(b: Seq<u8>) -> Option<(u64, Seq<u8>)> {
    if b.len() == 0 {
        None
    } else if b[0] <= 0x7f {
        Some((b[0] as u64, b.subrange(1, b.len() as int)))
    } else if (b[0] == 0xcc || b[0] == 0xd0) && b.len() >= 2 {
        if b[0] == 0xd0 && b[1] >= 0x80 {
            None
        } else {
            Some((b[1] as u64, b.subrange(2, b.len() as int)))
        }
    } else if (b[0] == 0xcd || b[0] == 0xd1) && b.len() >= 3 {
        if b[0] == 0xd1 && b[1] >= 0x80 {
            None
        } else {
            Some((of_be16(b.subrange(1, 3)) as u64, b.subrange(3, b.len() as int)))
        }
    } else if (b[0] == 0xce || b[0] == 0xd2) && b.len() >= 5 {
        if b[0] == 0xd2 && b[1] >= 0x80 {
            None
        } else {
            Some((of_be32(b.subrange(1, 5)) as u64, b.subrange(5, b.len() as int)))
        }
    } else if (b[0] == 0xcf || b[0] == 0xd3) && b.len() >= 9 {
        if b[0] == 0xd3 && b[1] >= 0x80 {
            None
        } else {
            Some((of_be64(b.subrange(1, 9)), b.subrange(9, b.len() as int)))
        }
    } else {
        None
    }
}

/// Reads a string header: the byte count and the length of the header.
pub open spec fn parse_str_len(b: Seq<u8>) -> Option<(u32, int)> {
    if b.len() == 0 {
        None
    } else if 0xa0 <= b[0] <= 0xbf {
        Some(((b[0] - 0xa0) as u32, 1))
    } else if b[0] == 0xd9 && b.len() >= 2 {
        Some((b[1] as u32, 2))
    } else if b[0] == 0xda && b.len() >= 3 {
        Some((of_be16(b.subrange(1, 3)) as u32, 3))
    } else if b[0] == 0xdb && b.len() >= 5 {
        Some((of_be32(b.subrange(1, 5)), 5))
    } else {
        None
    }
}

/// Reads a string: its characters and the bytes after it.
#[verifier::opaque]
pub open spec fn parse_str(b: Seq<u8>) -> Option<(Seq<char>, Seq<u8>)> {
    match parse_str_len(b) {
        Some((n, h)) => if b.len() >= h + n && valid_utf8(b.subrange(h, h + n)) {
            Some((decode_utf8(b.subrange(h, h + n)), b.subrange(h + n, b.len() as int)))
        } else {
            None
        },
        None => None,
    }
}

/// Reads a 64-bit float: its bit pattern and the bytes after it.
pub open spec fn parse_f64(b: Seq<u8>) -> Option<(u64, Seq<u8>)> {
    if b.len() >= 9 && b[0] == 0xcb {
        Some((of_be64(b.subrange(1, 9)), b.subrange(9, b.len() as int)))
    } else {
        None
    }
}


#[verifier::spinoff_prover]
proof fn lemma_be16(x: u16)
    ensures
        be16(x).len() == 2,
        of_be16(be16(x)) == x,
{
    let a = (x >> 8u16) as u8;
    let b = (x & 0xffu16) as u8;
    assert((((a as u16) << 8u16) | (b as u16)) == x) by (bit_vector)
        requires
            a == (x >> 8u16) as u8,
            b == (x & 0xffu16) as u8,
    ;
}

#[verifier::spinoff_prover]
proof fn lemma_be32(x: u32)
    ensures
        be32(x).len() == 4,
        of_be32(be32(x)) == x,
{
    let a = (x >> 24u32) as u8;
    let b = ((x >> 16u32) & 0xffu32) as u8;
    let c = ((x >> 8u32) & 0xffu32) as u8;
    let d = (x & 0xffu32) as u8;
    assert((((a as u32) << 24u32) | ((b as u32) << 16u32) | ((c as u32) << 8u32) | (d as u32))
        == x) by (bit_vector)
        requires
            a == (x >> 24u32) as u8,
            b == ((x >> 16u32) & 0xffu32) as u8,
            c == ((x >> 8u32) & 0xffu32) as u8,
            d == (x & 0xffu32) as u8,
    ;
}

#[verifier::spinoff_prover]
proof fn lemma_be64(x: u64)
    ensures
        be64(x).len() == 8,
        of_be64(be64(x)) == x,
{
    let b0 = (x >> 56u64) as u8;
    let b1 = ((x >> 48u64) & 0xffu64) as u8;
    let b2 = ((x >> 40u64) & 0xffu64) as u8;
    let b3 = ((x >> 32u64) & 0xffu64) as u8;
    let b4 = ((x >> 24u64) & 0xffu64) as u8;
    let b5 = ((x >> 16u64) & 0xffu64) as u8;
    let b6 = ((x >> 8u64) & 0xffu64) as u8;
    let b7 = (x & 0xffu64) as u8;
    assert((((b0 as u64) << 56u64) | ((b1 as u64) << 48u64) | ((b2 as u64) << 40u64) | ((b3 as u64)
        << 32u64) | ((b4 as u64) << 24u64) | ((b5 as u64) << 16u64) | ((b6 as u64) << 8u64) | (b7
        as u64)) == x) by (bit_vector)
        requires
            b0 == (x >> 56u64) as u8,
            b1 == ((x >> 48u64) & 0xffu64) as u8,
            b2 == ((x >> 40u64) & 0xffu64) as u8,
            b3 == ((x >> 32u64) & 0xffu64) as u8,
            b4 == ((x >> 24u64) & 0xffu64) as u8,
            b5 == ((x >> 16u64) & 0xffu64) as u8,
            b6 == ((x >> 8u64) & 0xffu64) as u8,
            b7 == (x & 0xffu64) as u8,
    ;
}

/// An array header reads back as its count, leaving what follows it.
#[verifier::spinoff_prover]
pub proof fn lemma_array_len_round_trip(n: u32, rest: Seq<u8>)
    ensures
        parse_array_len(array_len_bytes(n) + rest) == Some((n, rest)),
{
    let b = array_len_bytes(n) + rest;
    if n < 16 {
        assert(b.subrange(1, b.len() as int) =~= rest);
    } else if n < 0x10000 {
        lemma_be16(n as u16);
        assert(b.subrange(1, 3) =~= be16(n as u16));
        assert(b.subrange(3, b.len() as int) =~= rest);
    } else {
        lemma_be32(n);
        assert(b.subrange(1, 5) =~= be32(n));
        assert(b.subrange(5, b.len() as int) =~= rest);
    }
}

/// A map header reads back as its count, leaving what follows it.
#[verifier::spinoff_prover]
pub proof fn lemma_map_len_round_trip(n: u32, rest: Seq<u8>)
    ensures
        parse_map_len(map_len_bytes(n) + rest) == Some((n, rest)),
{
    let b = map_len_bytes(n) + rest;
    if n < 16 {
        assert(b.subrange(1, b.len() as int) =~= rest);
    } else if n < 0x10000 {
        lemma_be16(n as u16);
        assert(b.subrange(1, 3) =~= be16(n as u16));
        assert(b.subrange(3, b.len() as int) =~= rest);
    } else {
        lemma_be32(n);
        assert(b.subrange(1, 5) =~= be32(n));
        assert(b.subrange(5, b.len() as int) =~= rest);
    }
}

/// An unsigned integer reads back as itself, leaving what follows it.
#[verifier::spinoff_prover]
pub proof fn lemma_uint_round_trip(v: u64, rest: Seq<u8>)
    ensures
        parse_uint(uint_bytes(v) + rest) == Some((v, rest)),
{
    let b = uint_bytes(v) + rest;
    if v < 0x80 {
        assert(b.subrange(1, b.len() as int) =~= rest);
    } else if v < 0x100 {
        assert(b.subrange(2, b.len() as int) =~= rest);
    } else if v < 0x10000 {
        lemma_be16(v as u16);
        assert(b.subrange(1, 3) =~= be16(v as u16));
        assert(b.subrange(3, b.len() as int) =~= rest);
    } else if v < 0x1_0000_0000 {
        lemma_be32(v as u32);
        assert(b.subrange(1, 5) =~= be32(v as u32));
        assert(b.subrange(5, b.len() as int) =~= rest);
    } else {
        lemma_be64(v);
        assert(b.subrange(1, 9) =~= be64(v));
        assert(b.subrange(9, b.len() as int) =~= rest);
    }
}

/// A float's bit pattern reads back as itself, leaving what follows it.
#[verifier::spinoff_prover]
pub proof fn lemma_f64_round_trip(bits: u64, rest: Seq<u8>)
    ensures
        parse_f64(f64_bytes(bits) + rest) == Some((bits, rest)),
{
    let b = f64_bytes(bits) + rest;
    lemma_be64(bits);
    assert(b.subrange(1, 9) =~= be64(bits));
    assert(b.subrange(9, b.len() as int) =~= rest);
}

/// A string reads back as itself, leaving what follows it.
#[verifier::spinoff_prover]
pub proof fn lemma_str_round_trip(s: Seq<char>, rest: Seq<u8>)
    requires
        str_fits(s),
    ensures
        parse_str(str_bytes(s) + rest) == Some((s, rest)),
{
    let u = encode_utf8(s);
    let n = u.len() as u32;
    let b = str_bytes(s) + rest;
    let h: int = if n < 32 {
        1
    } else if n < 0x100 {
        2
    } else if n < 0x10000 {
        3
    } else {
        5
    };
    if n < 32 {
    } else if n < 0x100 {
    } else if n < 0x10000 {
        lemma_be16(n as u16);
        assert(b.subrange(1, 3) =~= be16(n as u16));
    } else {
        lemma_be32(n);
        assert(b.subrange(1, 5) =~= be32(n));
    }
    assert(parse_str_len(b) == Some((n, h)));
    reveal(parse_str);
    assert(b.subrange(h, h + n) =~= u);
    assert(b.subrange(h + n, b.len() as int) =~= rest);
}


/// An ASCII string takes one byte per character.
#[verifier::spinoff_prover]
pub proof fn lemma_ascii_fits(s: Seq<char>)
    requires
        is_ascii_chars(s),
        s.len() <= u32::MAX,
    ensures
        str_fits(s),
        encode_utf8(s).len() == s.len(),
{
    vstd::utf8::is_ascii_chars_encode_utf8(s);
}

/// Relies on `rmp::encode::write_array_len`: it appends the shortest array
/// header for `n`; writing into a `Vec` cannot fail.
#[verifier::external_body]
pub(crate) fn put_array_len(buf: &mut Vec<u8>, n: u32)
    ensures
        final(buf)@ == old(buf)@ + array_len_bytes(n),
{
    let _ = rmp::encode::write_array_len(buf, n);
}

/// Relies on `rmp::encode::write_map_len`: it appends the shortest map header
/// for `n`; writing into a `Vec` cannot fail.
#[verifier::external_body]
pub(crate) fn put_map_len(buf: &mut Vec<u8>, n: u32)
    ensures
        final(buf)@ == old(buf)@ + map_len_bytes(n),
{
    let _ = rmp::encode::write_map_len(buf, n);
}

/// Relies on `rmp::encode::write_uint`: it appends the shortest unsigned
/// encoding of `v`; writing into a `Vec` cannot fail.
#[verifier::external_body]
pub(crate) fn put_uint(buf: &mut Vec<u8>, v: u64)
    ensures
        final(buf)@ == old(buf)@ + uint_bytes(v),
{
    let _ = rmp::encode::write_uint(buf, v);
}

/// Relies on `rmp::encode::write_str`: it appends the shortest header for the
/// byte length of `s`, then the UTF-8 bytes of `s`; writing into a `Vec`
/// cannot fail.
#[verifier::external_body]
pub(crate) fn put_str(buf: &mut Vec<u8>, s: &str)
    requires
        str_fits(s@),
    ensures
        final(buf)@ == old(buf)@ + str_bytes(s@),
{
    let _ = rmp::encode::write_str(buf, s);
}

/// Appends a 64-bit float given by its bit pattern: the marker, then the
/// eight bytes of the pattern, most significant first.
pub(crate) fn put_f64_bits(buf: &mut Vec<u8>, bits: u64)
    ensures
        final(buf)@ == old(buf)@ + f64_bytes(bits),
{
    buf.push(0xcbu8);
    buf.push((bits >> 56u64) as u8);
    buf.push(((bits >> 48u64) & 0xffu64) as u8);
    buf.push(((bits >> 40u64) & 0xffu64) as u8);
    buf.push(((bits >> 32u64) & 0xffu64) as u8);
    buf.push(((bits >> 24u64) & 0xffu64) as u8);
    buf.push(((bits >> 16u64) & 0xffu64) as u8);
    buf.push(((bits >> 8u64) & 0xffu64) as u8);
    buf.push((bits & 0xffu64) as u8);
    assert(final(buf)@ =~= old(buf)@ + f64_bytes(bits));
}

/// Relies on `rmp::decode::read_array_len`: it reads an array header and
/// leaves the reader after it.
#[verifier::external_body]
pub(crate) fn take_array_len<'a>(b: &'a [u8]) -> (r: Option<(u32, &'a [u8])>)
    ensures
        match parse_array_len(b@) {
            Some((n, rest)) => r matches Some((x, t)) && x == n && t@ == rest,
            None => r is None,
        },
{
    let mut rd = b;
    match rmp::decode::read_array_len(&mut rd) {
        Ok(n) => Some((n, rd)),
        Err(_) => None,
    }
}

/// Relies on `rmp::decode::read_map_len`: it reads a map header and leaves the
/// reader after it.
#[verifier::external_body]
pub(crate) fn take_map_len<'a>(b: &'a [u8]) -> (r: Option<(u32, &'a [u8])>)
    ensures
        match parse_map_len(b@) {
            Some((n, rest)) => r matches Some((x, t)) && x == n && t@ == rest,
            None => r is None,
        },
{
    let mut rd = b;
    match rmp::decode::read_map_len(&mut rd) {
        Ok(n) => Some((n, rd)),
        Err(_) => None,
    }
}

/// Relies on `rmp::decode::read_int` at `u64`: it reads any integer format
/// whose value is not negative, and leaves the reader after it.
#[verifier::external_body]
pub(crate) fn take_uint<'a>(b: &'a [u8]) -> (r: Option<(u64, &'a [u8])>)
    ensures
        match parse_uint(b@) {
            Some((v, rest)) => r matches Some((x, t)) && x == v && t@ == rest,
            None => r is None,
        },
{
    let mut rd = b;
    match rmp::decode::read_int::<u64, _>(&mut rd) {
        Ok(v) => Some((v, rd)),
        Err(_) => None,
    }
}

/// Relies on `rmp::decode::read_str_from_slice`: it reads a string header,
/// then that many bytes, which must be UTF-8, and returns the rest.
#[verifier::external_body]
pub(crate) fn take_str<'a>(b: &'a [u8]) -> (r: Option<(&'a str, &'a [u8])>)
    ensures
        match parse_str(b@) {
            Some((s, rest)) => r matches Some((x, t)) && x@ == s && t@ == rest,
            None => r is None,
        },
{
    match rmp::decode::read_str_from_slice(b) {
        Ok((s, rest)) => Some((s, rest)),
        Err(_) => None,
    }
}

/// Reads a 64-bit float as its bit pattern: the marker, then eight bytes,
/// most significant first.
pub(crate) fn take_f64_bits<'a>(b: &'a [u8]) -> (r: Option<(u64, &'a [u8])>)
    ensures
        match parse_f64(b@) {
            Some((v, rest)) => r matches Some((x, t)) && x == v && t@ == rest,
            None => r is None,
        },
{
    if b.len() < 9 || b[0] != 0xcbu8 {
        return None;
    }
    let bits: u64 = ((b[1] as u64) << 56u64) | ((b[2] as u64) << 48u64) | ((b[3] as u64) << 40u64)
        | ((b[4] as u64) << 32u64) | ((b[5] as u64) << 24u64) | ((b[6] as u64) << 16u64) | ((
    b[7] as u64) << 8u64) | (b[8] as u64);
    let rest = vstd::slice::slice_subrange(b, 9, b.len());
    proof {
        let p = b@.subrange(1, 9);
        assert(p[0] == b@[1] && p[1] == b@[2] && p[2] == b@[3] && p[3] == b@[4]);
        assert(p[4] == b@[5] && p[5] == b@[6] && p[6] == b@[7] && p[7] == b@[8]);
    }
    Some((bits, rest))
}

} // verus!
