//! Deterministic wire encodings: fixed-width little-endian integers, the
//! variable-length "compact size" integer, and length-prefixed byte strings.

use crate::error::Error;
use vstd::prelude::*;
use vstd::slice::slice_subrange;

verus! {

/// 256 to the power `width`.
pub open spec fn pow256(width: nat) -> nat
    decreases width,
{
    if width == 0 {
        1
    } else {
        256 * pow256((width - 1) as nat)
    }
}

/// The `width` low-order bytes of `v`, least significant first.
pub open spec fn le_bytes(v: nat, width: nat) -> Seq<u8>
    decreases width,
{
    if width == 0 {
        Seq::empty()
    } else {
        seq![(v % 256) as u8] + le_bytes(v / 256, (width - 1) as nat)
    }
}

/// The number whose little-endian digits are `b`.
pub open spec fn le_value(b: Seq<u8>) -> nat
    decreases b.len(),
{
    if b.len() == 0 {
        0
    } else {
        b[0] as nat + 256 * le_value(b.drop_first())
    }
}

/// The unsigned number that stands for `v` in two's complement of `width` bytes.
pub open spec fn to_twos(v: int, width: nat) -> nat {
    if v < 0 {
        (v + pow256(width)) as nat
    } else {
        v as nat
    }
}

/// The signed number that `n` stands for in two's complement of `width` bytes.
pub open spec fn from_twos(n: nat, width: nat) -> int {
    if 2 * n >= pow256(width) {
        n - pow256(width)
    } else {
        n as int
    }
}

pub proof fn lemma_pow256_values()
    ensures
        pow256(0) == 1,
        pow256(1) == 0x100,
        pow256(2) == 0x1_0000,
        pow256(3) == 0x100_0000,
        pow256(4) == 0x1_0000_0000,
        pow256(5) == 0x100_0000_0000,
        pow256(8) == 0x1_0000_0000_0000_0000,
{
    reveal_with_fuel(pow256, 10);
}

/// `le_bytes` always yields exactly `width` bytes.
pub proof fn lemma_le_bytes_len(v: nat, width: nat)
    ensures
        le_bytes(v, width).len() == width,
    decreases width,
{
    if width > 0 {
        lemma_le_bytes_len(v / 256, (width - 1) as nat);
    }
}

/// Reading back what `le_bytes` wrote gives the number, if it fits the width.
pub proof fn lemma_le_value_of_le_bytes(v: nat, width: nat)
    requires
        v < pow256(width),
    ensures
        le_value(le_bytes(v, width)) == v,
    decreases width,
{
    if width > 0 {
        let rest = le_bytes(v / 256, (width - 1) as nat);
        let all = le_bytes(v, width);
        lemma_le_bytes_len(v / 256, (width - 1) as nat);
        assert(all.drop_first() =~= rest);
        lemma_le_value_of_le_bytes(v / 256, (width - 1) as nat);
    }
}

/// Writing the number that was read gives the bytes back, and that number
/// fits their width.
pub proof fn lemma_le_bytes_of_le_value(b: Seq<u8>)
    ensures
        le_value(b) < pow256(b.len()),
        le_bytes(le_value(b), b.len()) == b,
    decreases b.len(),
{
    if b.len() > 0 {
        lemma_le_bytes_of_le_value(b.drop_first());
        let v = le_value(b);
        let hi = le_value(b.drop_first());
        assert(v == b[0] as nat + 256 * hi);
        assert(v % 256 == b[0] as nat);
        assert(v / 256 == hi);
        assert(le_bytes(v, b.len()) =~= b);
    } else {
        assert(le_bytes(le_value(b), b.len()) =~= b);
    }
}

/// Two's complement loses nothing: a signed number that fits `width`
/// bytes comes back from its unsigned pattern.
pub proof fn lemma_twos_roundtrip(v: int, width: nat)
    requires
        width > 0,
        -(pow256(width) as int) <= 2 * v < pow256(width),
    ensures
        to_twos(v, width) < pow256(width),
        from_twos(to_twos(v, width), width) == v,
{
}

/// Decoding an encoded fixed-width number gives it back and consumes
/// exactly its width, whatever follows.
pub proof fn lemma_parse_le_of_bytes(v: nat, width: nat, rest: Seq<u8>)
    requires
        v < pow256(width),
    ensures
        parse_le(le_bytes(v, width) + rest, width) == Some((v, width)),
{
    lemma_le_bytes_len(v, width);
    lemma_le_value_of_le_bytes(v, width);
    assert((le_bytes(v, width) + rest).subrange(0, width as int) =~= le_bytes(v, width));
}

/// Decoding an encoded fixed-width signed number gives it back and
/// consumes exactly its width, whatever follows.
pub proof fn lemma_parse_le_signed_of_bytes(v: int, width: nat, rest: Seq<u8>)
    requires
        width > 0,
        -(pow256(width) as int) <= 2 * v < pow256(width),
    ensures
        parse_le_signed(le_bytes(to_twos(v, width), width) + rest, width) == Some((v, width)),
{
    lemma_twos_roundtrip(v, width);
    let pattern = to_twos(v, width);
    lemma_le_bytes_len(pattern, width);
    lemma_le_value_of_le_bytes(pattern, width);
    assert((le_bytes(pattern, width) + rest).subrange(0, width as int) =~= le_bytes(
        pattern,
        width,
    ));
}

/// Appends the `width` low-order bytes of `v` to `out`, least significant first.
pub fn put_le(out: &mut Vec<u8>, v: u64, width: usize)
    requires
        width <= 8,
    ensures
        final(out)@ == old(out)@ + le_bytes(v as nat, width as nat),
{
    let mut x: u64 = v;
    let mut i: usize = 0;
    while i < width
        invariant
            i <= width <= 8,
            out@ + le_bytes(x as nat, (width - i) as nat) == old(out)@ + le_bytes(
                v as nat,
                width as nat,
            ),
        decreases width - i,
    {
        let ghost before = out@;
        out.push((x % 256) as u8);
        proof {
            let w = (width - i) as nat;
            assert(le_bytes(x as nat, w) == seq![((x as nat) % 256) as u8] + le_bytes(
                (x as nat) / 256,
                (w - 1) as nat,
            ));
            assert(out@ + le_bytes((x / 256) as nat, (w - 1) as nat) =~= before + le_bytes(
                x as nat,
                w,
            ));
        }
        x = x / 256;
        i += 1;
    }
    assert(out@ + le_bytes(x as nat, 0) =~= out@);
}

/// Reads the first `width` bytes of `bytes` as a little-endian number.
pub fn get_le(bytes: &[u8], width: usize) -> (v: u64)
    requires
        width <= 8,
        width <= bytes.len(),
    ensures
        v == le_value(bytes@.subrange(0, width as int)),
{
    let mut acc: u64 = 0;
    let mut i: usize = width;
    assert(bytes@.subrange(width as int, width as int) =~= Seq::<u8>::empty());
    proof {
        lemma_pow256_values();
    }
    while i > 0
        invariant
            i <= width <= 8,
            width <= bytes.len(),
            acc == le_value(bytes@.subrange(i as int, width as int)),
            acc < pow256((width - i) as nat),
        decreases i,
    {
        let ghost tail = bytes@.subrange(i as int, width as int);
        i -= 1;
        proof {
            let cur = bytes@.subrange(i as int, width as int);
            assert(cur.drop_first() =~= tail);
            assert(cur[0] == bytes@[i as int]);
            lemma_le_bytes_of_le_value(cur);
            let k = (width - i - 1) as nat;
            assert(pow256(k + 1) == 256 * pow256(k));
            assert(pow256(k + 1) <= pow256(8)) by {
                reveal_with_fuel(pow256, 10);
            }
            assert(acc * 256 + 255 < pow256(k + 1));
        }
        acc = acc * 256 + bytes[i] as u64;
    }
    acc
}

pub open spec fn u8_bytes(v: u8) -> Seq<u8> {
    le_bytes(v as nat, 1)
}

pub open spec fn u16_bytes(v: u16) -> Seq<u8> {
    le_bytes(v as nat, 2)
}

pub open spec fn u32_bytes(v: u32) -> Seq<u8> {
    le_bytes(v as nat, 4)
}

pub open spec fn u64_bytes(v: u64) -> Seq<u8> {
    le_bytes(v as nat, 8)
}

pub open spec fn i32_bytes(v: i32) -> Seq<u8> {
    le_bytes(to_twos(v as int, 4), 4)
}

pub open spec fn i64_bytes(v: i64) -> Seq<u8> {
    le_bytes(to_twos(v as int, 8), 8)
}

/// What a fixed-width unsigned decode of `width` bytes yields on `b`:
/// the number and the bytes consumed, or nothing when `b` is too short.
pub open spec fn parse_le(b: Seq<u8>, width: nat) -> Option<(nat, nat)> {
    if b.len() < width {
        None
    } else {
        Some((le_value(b.subrange(0, width as int)), width))
    }
}

/// What a fixed-width signed decode of `width` bytes yields on `b`.
pub open spec fn parse_le_signed(b: Seq<u8>, width: nat) -> Option<(int, nat)> {
    if b.len() < width {
        None
    } else {
        Some((from_twos(le_value(b.subrange(0, width as int)), width), width))
    }
}

pub fn encode_u8(v: u8) -> (out: Vec<u8>)
    ensures
        out@ == u8_bytes(v),
{
    let mut out: Vec<u8> = Vec::new();
    put_le(&mut out, v as u64, 1);
    assert(Seq::<u8>::empty() + u8_bytes(v) =~= u8_bytes(v));
    out
}

pub fn encode_u16(v: u16) -> (out: Vec<u8>)
    ensures
        out@ == u16_bytes(v),
{
    let mut out: Vec<u8> = Vec::new();
    put_le(&mut out, v as u64, 2);
    assert(Seq::<u8>::empty() + u16_bytes(v) =~= u16_bytes(v));
    out
}

pub fn encode_u32(v: u32) -> (out: Vec<u8>)
    ensures
        out@ == u32_bytes(v),
{
    let mut out: Vec<u8> = Vec::new();
    put_le(&mut out, v as u64, 4);
    assert(Seq::<u8>::empty() + u32_bytes(v) =~= u32_bytes(v));
    out
}

pub fn encode_u64(v: u64) -> (out: Vec<u8>)
    ensures
        out@ == u64_bytes(v),
{
    let mut out: Vec<u8> = Vec::new();
    put_le(&mut out, v, 8);
    assert(Seq::<u8>::empty() + u64_bytes(v) =~= u64_bytes(v));
    out
}

/// The unsigned 32-bit pattern of `v` in two's complement.
pub fn i32_pattern(v: i32) -> (n: u32)
    ensures
        n == to_twos(v as int, 4),
{
    proof {
        lemma_pow256_values();
    }
    if v >= 0 {
        v as u32
    } else {
        (v as i64 + 0x1_0000_0000i64) as u32
    }
}

/// The unsigned 64-bit pattern of `v` in two's complement.
pub fn i64_pattern(v: i64) -> (n: u64)
    ensures
        n == to_twos(v as int, 8),
{
    proof {
        lemma_pow256_values();
    }
    if v >= 0 {
        v as u64
    } else {
        (v as i128 + 0x1_0000_0000_0000_0000i128) as u64
    }
}

/// The signed number that the 32-bit pattern `n` stands for.
pub fn i32_from_pattern(n: u32) -> (v: i32)
    ensures
        v == from_twos(n as nat, 4),
{
    proof {
        lemma_pow256_values();
    }
    if n >= 0x8000_0000u32 {
        (n as i64 - 0x1_0000_0000i64) as i32
    } else {
        n as i32
    }
}

/// The signed number that the 64-bit pattern `n` stands for.
pub fn i64_from_pattern(n: u64) -> (v: i64)
    ensures
        v == from_twos(n as nat, 8),
{
    proof {
        lemma_pow256_values();
    }
    if n >= 0x8000_0000_0000_0000u64 {
        (n as i128 - 0x1_0000_0000_0000_0000i128) as i64
    } else {
        n as i64
    }
}

pub fn encode_i32(v: i32) -> (out: Vec<u8>)
    ensures
        out@ == i32_bytes(v),
{
    let mut out: Vec<u8> = Vec::new();
    put_le(&mut out, i32_pattern(v) as u64, 4);
    assert(Seq::<u8>::empty() + i32_bytes(v) =~= i32_bytes(v));
    out
}

pub fn encode_i64(v: i64) -> (out: Vec<u8>)
    ensures
        out@ == i64_bytes(v),
{
    let mut out: Vec<u8> = Vec::new();
    put_le(&mut out, i64_pattern(v), 8);
    assert(Seq::<u8>::empty() + i64_bytes(v) =~= i64_bytes(v));
    out
}

/// Decodes one byte. Fails with `MalformedEncoding` exactly when `bytes` is empty.
pub fn decode_u8(bytes: &[u8]) -> (r: Result<(u8, usize), Error>)
    ensures
        match r {
            Ok((v, n)) => parse_le(bytes@, 1) == Some((v as nat, n as nat)),
            Err(e) => e == Error::MalformedEncoding && parse_le(bytes@, 1) is None,
        },
{
    if bytes.len() < 1 {
        return Err(Error::MalformedEncoding);
    }
    let v = get_le(bytes, 1);
    proof {
        lemma_le_bytes_of_le_value(bytes@.subrange(0, 1));
        lemma_pow256_values();
    }
    Ok((v as u8, 1))
}

/// Decodes two bytes. Fails with `MalformedEncoding` exactly when fewer remain.
pub fn decode_u16(bytes: &[u8]) -> (r: Result<(u16, usize), Error>)
    ensures
        match r {
            Ok((v, n)) => parse_le(bytes@, 2) == Some((v as nat, n as nat)),
            Err(e) => e == Error::MalformedEncoding && parse_le(bytes@, 2) is None,
        },
{
    if bytes.len() < 2 {
        return Err(Error::MalformedEncoding);
    }
    let v = get_le(bytes, 2);
    proof {
        lemma_le_bytes_of_le_value(bytes@.subrange(0, 2));
        lemma_pow256_values();
    }
    Ok((v as u16, 2))
}

/// Decodes four bytes. Fails with `MalformedEncoding` exactly when fewer remain.
pub fn decode_u32(bytes: &[u8]) -> (r: Result<(u32, usize), Error>)
    ensures
        match r {
            Ok((v, n)) => parse_le(bytes@, 4) == Some((v as nat, n as nat)),
            Err(e) => e == Error::MalformedEncoding && parse_le(bytes@, 4) is None,
        },
{
    if bytes.len() < 4 {
        return Err(Error::MalformedEncoding);
    }
    let v = get_le(bytes, 4);
    proof {
        lemma_le_bytes_of_le_value(bytes@.subrange(0, 4));
        lemma_pow256_values();
    }
    Ok((v as u32, 4))
}

/// Decodes eight bytes. Fails with `MalformedEncoding` exactly when fewer remain.
pub fn decode_u64(bytes: &[u8]) -> (r: Result<(u64, usize), Error>)
    ensures
        match r {
            Ok((v, n)) => parse_le(bytes@, 8) == Some((v as nat, n as nat)),
            Err(e) => e == Error::MalformedEncoding && parse_le(bytes@, 8) is None,
        },
{
    if bytes.len() < 8 {
        return Err(Error::MalformedEncoding);
    }
    let v = get_le(bytes, 8);
    Ok((v, 8))
}

/// Decodes four bytes as a signed number. Fails with `MalformedEncoding`
/// exactly when fewer remain.
pub fn decode_i32(bytes: &[u8]) -> (r: Result<(i32, usize), Error>)
    ensures
        match r {
            Ok((v, n)) => parse_le_signed(bytes@, 4) == Some((v as int, n as nat)),
            Err(e) => e == Error::MalformedEncoding && parse_le_signed(bytes@, 4) is None,
        },
{
    if bytes.len() < 4 {
        return Err(Error::MalformedEncoding);
    }
    let n = get_le(bytes, 4);
    proof {
        lemma_le_bytes_of_le_value(bytes@.subrange(0, 4));
        lemma_pow256_values();
    }
    Ok((i32_from_pattern(n as u32), 4))
}

/// Decodes eight bytes as a signed number. Fails with `MalformedEncoding`
/// exactly when fewer remain.
pub fn decode_i64(bytes: &[u8]) -> (r: Result<(i64, usize), Error>)
    ensures
        match r {
            Ok((v, n)) => parse_le_signed(bytes@, 8) == Some((v as int, n as nat)),
            Err(e) => e == Error::MalformedEncoding && parse_le_signed(bytes@, 8) is None,
        },
{
    if bytes.len() < 8 {
        return Err(Error::MalformedEncoding);
    }
    let n = get_le(bytes, 8);
    Ok((i64_from_pattern(n), 8))
}

/// The compact-size encoding of `v`: one byte below 0xfd, else a marker
/// byte followed by the narrowest of 2, 4 or 8 little-endian bytes.
pub open spec fn varint_bytes(v: u64) -> Seq<u8> {
    if v < 0xfd {
        seq![v as u8]
    } else if v <= 0xffff {
        seq![0xfdu8] + le_bytes(v as nat, 2)
    } else if v <= 0xffff_ffff {
        seq![0xfeu8] + le_bytes(v as nat, 4)
    } else {
        seq![0xffu8] + le_bytes(v as nat, 8)
    }
}

/// The width in bytes that follows a compact-size marker byte.
pub open spec fn varint_width(marker: u8) -> nat {
    if marker < 0xfd {
        0
    } else if marker == 0xfd {
        2
    } else if marker == 0xfe {
        4
    } else {
        8
    }
}

/// The smallest number that may canonically follow a marker byte.
pub open spec fn varint_floor(marker: u8) -> nat {
    if marker < 0xfd {
        0
    } else if marker == 0xfd {
        0xfd
    } else if marker == 0xfe {
        0x1_0000
    } else {
        0x1_0000_0000
    }
}

/// What decoding a compact-size integer from the front of `b` yields: the
/// number and the bytes consumed; nothing when `b` is too short or the
/// marker is wider than the magnitude needs.
pub open spec fn parse_varint(b: Seq<u8>) -> Option<(u64, nat)> {
    if b.len() == 0 {
        None
    } else if b[0] < 0xfd {
        Some((b[0] as u64, 1))
    } else {
        let width = varint_width(b[0]);
        if b.len() < 1 + width {
            None
        } else {
            let v = le_value(b.subrange(1, 1 + width as int));
            if v < varint_floor(b[0]) {
                None
            } else {
                Some((v as u64, 1 + width))
            }
        }
    }
}

/// A byte string behind its length as a compact-size integer.
pub open spec fn var_bytes(data: Seq<u8>) -> Seq<u8> {
    varint_bytes(data.len() as u64) + data
}

/// What decoding a length-prefixed byte string from the front of `b`
/// yields: the string and the bytes consumed; nothing when the length does
/// not decode or fewer bytes remain than it declares.
pub open spec fn parse_var_bytes(b: Seq<u8>) -> Option<(Seq<u8>, nat)> {
    match parse_varint(b) {
        None => None,
        Some((len, n)) => if b.len() - n < len {
            None
        } else {
            Some((b.subrange(n as int, n + len as int), n + len as nat))
        },
    }
}

/// Decoding an encoded compact-size integer gives it back and consumes
/// exactly its encoding, whatever follows.
pub proof fn lemma_parse_varint_of_bytes(v: u64, rest: Seq<u8>)
    ensures
        parse_varint(varint_bytes(v) + rest) == Some((v, varint_bytes(v).len())),
        1 <= varint_bytes(v).len() <= 9,
{
    lemma_pow256_values();
    let enc = varint_bytes(v);
    let b = enc + rest;
    if v >= 0xfd {
        let width = varint_width(enc[0]);
        let digits = le_bytes(v as nat, width);
        lemma_le_bytes_len(v as nat, width);
        assert(b.subrange(1, 1 + width as int) =~= digits);
        lemma_le_value_of_le_bytes(v as nat, width);
    }
}

/// Only the canonical encoding decodes: what was consumed is the encoding
/// of the number that came out.
pub proof fn lemma_varint_bytes_of_parse(b: Seq<u8>)
    requires
        parse_varint(b) is Some,
    ensures
        ({
            let (v, n) = parse_varint(b).unwrap();
            n <= b.len() && b.subrange(0, n as int) == varint_bytes(v)
        }),
{
    lemma_pow256_values();
    let (v, n) = parse_varint(b).unwrap();
    if b[0] < 0xfd {
        assert(b.subrange(0, 1) =~= seq![b[0]]);
    } else {
        let width = varint_width(b[0]);
        let digits = b.subrange(1, 1 + width as int);
        lemma_le_bytes_of_le_value(digits);
        assert(b.subrange(0, n as int) =~= seq![b[0]] + digits);
    }
}

/// Decoding an encoded byte string gives it back and consumes exactly its
/// encoding, whatever follows.
pub proof fn lemma_parse_var_bytes_of_bytes(data: Seq<u8>, rest: Seq<u8>)
    requires
        data.len() <= u64::MAX,
    ensures
        parse_var_bytes(var_bytes(data) + rest) == Some((data, var_bytes(data).len())),
{
    let head = varint_bytes(data.len() as u64);
    let b = var_bytes(data) + rest;
    assert(b =~= head + (data + rest));
    lemma_parse_varint_of_bytes(data.len() as u64, data + rest);
    assert(b.subrange(head.len() as int, head.len() + data.len() as int) =~= data);
}

/// Appends `data` to `out`.
pub fn put_bytes(out: &mut Vec<u8>, data: &[u8])
    ensures
        final(out)@ == old(out)@ + data@,
{
    let mut i: usize = 0;
    while i < data.len()
        invariant
            i <= data.len(),
            out@ == old(out)@ + data@.subrange(0, i as int),
        decreases data.len() - i,
    {
        out.push(data[i]);
        i += 1;
        assert(out@ =~= old(out)@ + data@.subrange(0, i as int));
    }
    assert(data@.subrange(0, data.len() as int) =~= data@);
}

/// Copies `bytes` into a fresh vector.
pub fn copy_bytes(bytes: &[u8]) -> (out: Vec<u8>)
    ensures
        out@ == bytes@,
{
    let mut out: Vec<u8> = Vec::new();
    put_bytes(&mut out, bytes);
    assert(Seq::<u8>::empty() + bytes@ =~= bytes@);
    out
}

/// Appends the compact-size encoding of `v` to `out`.
pub fn put_varint(out: &mut Vec<u8>, v: u64)
    ensures
        final(out)@ == old(out)@ + varint_bytes(v),
{
    if v < 0xfd {
        out.push(v as u8);
        assert(out@ =~= old(out)@ + varint_bytes(v));
    } else if v <= 0xffff {
        out.push(0xfd);
        put_le(out, v, 2);
        assert(out@ =~= old(out)@ + varint_bytes(v));
    } else if v <= 0xffff_ffff {
        out.push(0xfe);
        put_le(out, v, 4);
        assert(out@ =~= old(out)@ + varint_bytes(v));
    } else {
        out.push(0xff);
        put_le(out, v, 8);
        assert(out@ =~= old(out)@ + varint_bytes(v));
    }
}

/// Encodes `v` as a compact-size integer.
pub fn encode_varint(v: u64) -> (out: Vec<u8>)
    ensures
        out@ == varint_bytes(v),
{
    let mut out: Vec<u8> = Vec::new();
    put_varint(&mut out, v);
    assert(Seq::<u8>::empty() + varint_bytes(v) =~= varint_bytes(v));
    out
}

/// Decodes a compact-size integer from the front of `bytes`, with the
/// number of bytes consumed. Fails with `MalformedEncoding` exactly when
/// `bytes` ends early or the encoding is wider than the magnitude needs.
pub fn decode_varint(bytes: &[u8]) -> (r: Result<(u64, usize), Error>)
    ensures
        match r {
            Ok((v, n)) => parse_varint(bytes@) == Some((v, n as nat)) && n <= bytes.len(),
            Err(e) => e == Error::MalformedEncoding && parse_varint(bytes@) is None,
        },
{
    if bytes.len() == 0 {
        return Err(Error::MalformedEncoding);
    }
    let marker = bytes[0];
    if marker < 0xfd {
        return Ok((marker as u64, 1));
    }
    let (width, floor): (usize, u64) = if marker == 0xfd {
        (2, 0xfd)
    } else if marker == 0xfe {
        (4, 0x1_0000)
    } else {
        (8, 0x1_0000_0000)
    };
    if bytes.len() - 1 < width {
        return Err(Error::MalformedEncoding);
    }
    let digits = slice_subrange(bytes, 1, 1 + width);
    let v = get_le(digits, width);
    assert(digits@.subrange(0, width as int) =~= bytes@.subrange(1, 1 + width));
    if v < floor {
        return Err(Error::MalformedEncoding);
    }
    Ok((v, 1 + width))
}

/// Appends `data` behind its compact-size length to `out`.
pub fn put_var_bytes(out: &mut Vec<u8>, data: &[u8])
    ensures
        final(out)@ == old(out)@ + var_bytes(data@),
{
    put_varint(out, data.len() as u64);
    put_bytes(out, data);
    assert(out@ =~= old(out)@ + var_bytes(data@));
}

/// Encodes `data` behind its compact-size length.
pub fn encode_var_bytes(data: &[u8]) -> (out: Vec<u8>)
    ensures
        out@ == var_bytes(data@),
{
    let mut out: Vec<u8> = Vec::new();
    put_var_bytes(&mut out, data);
    assert(Seq::<u8>::empty() + var_bytes(data@) =~= var_bytes(data@));
    out
}

/// Decodes a length-prefixed byte string from the front of `bytes`, with
/// the number of bytes consumed. Fails with `MalformedEncoding` exactly
/// when the length does not decode or fewer bytes remain than it declares.
pub fn decode_var_bytes(bytes: &[u8]) -> (r: Result<(Vec<u8>, usize), Error>)
    ensures
        match r {
            Ok((data, n)) => parse_var_bytes(bytes@) == Some((data@, n as nat)) && n
                <= bytes.len(),
            Err(e) => e == Error::MalformedEncoding && parse_var_bytes(bytes@) is None,
        },
{
    let (len, n) = match decode_varint(bytes) {
        Ok(pair) => pair,
        Err(e) => return Err(e),
    };
    let remaining: u64 = (bytes.len() - n) as u64;
    if remaining < len {
        return Err(Error::MalformedEncoding);
    }
    let len = len as usize;
    let data = copy_bytes(slice_subrange(bytes, n, n + len));
    Ok((data, n + len))
}

} // verus!
