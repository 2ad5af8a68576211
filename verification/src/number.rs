//! Stack items as numbers: the minimal signed little-endian encoding with
//! a sign bit, and the truth value of an item.

use crate::codec::{get_le, le_value, lemma_le_bytes_of_le_value, lemma_pow256_values, pow256};
use crate::error::Error;
use vstd::prelude::*;
use vstd::slice::slice_subrange;

verus! {

/// The longest encoding that an arithmetic op accepts as an operand.
pub const MAX_NUM_SIZE: usize = 4;

/// Whether `b` is the shortest encoding of its number: the top byte is
/// not a bare sign byte unless the byte below needs its high bit.
pub open spec fn num_minimal(b: Seq<u8>) -> bool {
    b.len() == 0 || b.last() % 128 != 0 || (b.len() > 1 && b[b.len() - 2] >= 128)
}

/// The number that `b` encodes: little-endian magnitude, with the high
/// bit of the last byte as the sign.
pub open spec fn num_value(b: Seq<u8>) -> int {
    if b.len() == 0 {
        0
    } else {
        let magnitude = le_value(b.drop_last()) + (b.last() % 128) * pow256((b.len() - 1) as nat);
        if b.last() >= 128 {
            -magnitude
        } else {
            magnitude as int
        }
    }
}

/// The minimal encoding of a non-zero magnitude with its sign.
pub open spec fn magnitude_bytes(m: nat, negative: bool) -> Seq<u8>
    decreases m,
{
    let sign: nat = if negative {
        128
    } else {
        0
    };
    if m < 128 {
        seq![(m + sign) as u8]
    } else if m < 256 {
        seq![m as u8, sign as u8]
    } else {
        seq![(m % 256) as u8] + magnitude_bytes(m / 256, negative)
    }
}

/// The minimal encoding of `v`; zero is the empty string.
pub open spec fn num_bytes(v: int) -> Seq<u8> {
    if v == 0 {
        Seq::empty()
    } else if v < 0 {
        magnitude_bytes((-v) as nat, true)
    } else {
        magnitude_bytes(v as nat, false)
    }
}

/// What reading `b` as an operand yields: `ScriptEvaluationFailed` beyond
/// four bytes, `PushNonMinimalData` for a padded encoding, else the number.
pub open spec fn read_num(b: Seq<u8>) -> Result<int, Error> {
    if b.len() > MAX_NUM_SIZE {
        Err(Error::ScriptEvaluationFailed)
    } else if !num_minimal(b) {
        Err(Error::PushNonMinimalData)
    } else {
        Ok(num_value(b))
    }
}

/// Whether an item counts as true: some byte is non-zero, apart from the
/// sign bit of a negative zero.
pub open spec fn truthy(b: Seq<u8>) -> bool {
    exists|i: int| 0 <= i < b.len() && #[trigger] b[i] != 0 && !(i == b.len() - 1 && b[i] == 0x80)
}

/// The item that stands for a truth value: one byte 1, or the empty string.
pub open spec fn bool_bytes(value: bool) -> Seq<u8> {
    if value {
        seq![1u8]
    } else {
        Seq::empty()
    }
}

/// An operand of at most four bytes lies strictly between -2^31 and 2^31.
pub proof fn lemma_num_value_bound(b: Seq<u8>)
    requires
        b.len() <= MAX_NUM_SIZE,
    ensures
        -0x8000_0000 < num_value(b) < 0x8000_0000,
{
    if b.len() > 0 {
        let low = b.drop_last();
        lemma_le_bytes_of_le_value(low);
        lemma_pow256_values();
        let top = (b.last() % 128) as int;
        let p = pow256((b.len() - 1) as nat) as int;
        assert(le_value(low) < p);
        assert(top <= 127);
        assert(top * p <= 127 * p) by (nonlinear_arith)
            requires
                top <= 127,
                p >= 0,
        ;
        assert(p <= 0x100_0000);
    }
}

/// The encoding of a non-zero magnitude is minimal, carries the sign in
/// its last byte, and writes the magnitude.
pub proof fn lemma_magnitude_bytes(m: nat, negative: bool)
    requires
        m > 0,
    ensures
        ({
            let b = magnitude_bytes(m, negative);
            &&& b.len() > 0
            &&& num_minimal(b)
            &&& (b.last() >= 128) == negative
            &&& le_value(b.drop_last()) + (b.last() % 128) * pow256((b.len() - 1) as nat) == m
        }),
    decreases m,
{
    let b = magnitude_bytes(m, negative);
    lemma_pow256_values();
    if m < 128 {
        assert(b.drop_last() =~= Seq::<u8>::empty());
    } else if m < 256 {
        let low = seq![m as u8];
        assert(b.drop_last() =~= low);
        assert(low.drop_first() =~= Seq::<u8>::empty());
        assert(le_value(low.drop_first()) == 0);
        assert(low[0] == m);
        assert(le_value(low) == low[0] as nat + 256 * le_value(low.drop_first()));
    } else {
        let rest = magnitude_bytes(m / 256, negative);
        lemma_magnitude_bytes(m / 256, negative);
        let low = (m % 256) as u8;
        assert(b =~= seq![low] + rest);
        assert(b.last() == rest.last());
        assert(b.drop_last() =~= seq![low] + rest.drop_last());
        assert(b.drop_last().drop_first() =~= rest.drop_last());
        assert(le_value(b.drop_last()) == low as nat + 256 * le_value(rest.drop_last()));
        let top = (rest.last() % 128) as nat;
        let scale = pow256((rest.len() - 1) as nat);
        assert(pow256((b.len() - 1) as nat) == 256 * scale);
        assert(top * (256 * scale) == 256 * (top * scale)) by (nonlinear_arith);
        if rest.len() > 1 {
            assert(b[b.len() - 2] == rest[rest.len() - 2]);
        }
    }
}

/// Encoding a number and reading it back gives the number, and the
/// encoding is minimal.
pub proof fn lemma_num_roundtrip(v: int)
    ensures
        num_minimal(num_bytes(v)),
        num_value(num_bytes(v)) == v,
{
    if v < 0 {
        lemma_magnitude_bytes((-v) as nat, true);
    } else if v > 0 {
        lemma_magnitude_bytes(v as nat, false);
    }
}

/// Reads `bytes` as an operand of an arithmetic op.
pub fn decode_num(bytes: &[u8]) -> (r: Result<i64, Error>)
    ensures
        match r {
            Ok(v) => read_num(bytes@) == Ok::<int, Error>(v as int),
            Err(e) => read_num(bytes@) == Err::<int, Error>(e),
        },
{
    let len = bytes.len();
    if len > MAX_NUM_SIZE {
        return Err(Error::ScriptEvaluationFailed);
    }
    if len == 0 {
        return Ok(0);
    }
    let last = bytes[len - 1];
    if last % 128 == 0 && (len == 1 || bytes[len - 2] < 128) {
        return Err(Error::PushNonMinimalData);
    }
    let low = slice_subrange(bytes, 0, len - 1);
    assert(low@ =~= bytes@.drop_last());
    assert(low@.subrange(0, len - 1) =~= low@);
    let low_value = get_le(low, len - 1);
    let scale: u64 = if len == 1 {
        1
    } else if len == 2 {
        0x100
    } else if len == 3 {
        0x1_0000
    } else {
        0x100_0000
    };
    proof {
        lemma_pow256_values();
        lemma_le_bytes_of_le_value(low@);
        lemma_num_value_bound(bytes@);
    }
    let top = (last % 128) as u64;
    assert(top * scale <= 127 * scale) by (nonlinear_arith)
        requires
            top <= 127,
            scale >= 0,
    ;
    let magnitude: u64 = low_value + top * scale;
    if last >= 128 {
        Ok(-(magnitude as i64))
    } else {
        Ok(magnitude as i64)
    }
}

/// The minimal encoding of the non-zero magnitude `magnitude` with its sign.
pub fn encode_magnitude(magnitude: u64, negative: bool) -> (out: Vec<u8>)
    requires
        magnitude > 0,
    ensures
        out@ == magnitude_bytes(magnitude as nat, negative),
{
    let mut out: Vec<u8> = Vec::new();
    let sign: u8 = if negative {
        128
    } else {
        0
    };
    let mut m: u64 = magnitude;
    assert(out@ + magnitude_bytes(m as nat, negative) =~= magnitude_bytes(
        magnitude as nat,
        negative,
    ));
    while m >= 256
        invariant
            m > 0,
            out@ + magnitude_bytes(m as nat, negative) == magnitude_bytes(
                magnitude as nat,
                negative,
            ),
        decreases m,
    {
        let ghost before = out@;
        out.push((m % 256) as u8);
        assert(out@ + magnitude_bytes((m / 256) as nat, negative) =~= before + magnitude_bytes(
            m as nat,
            negative,
        ));
        m = m / 256;
    }
    let ghost before = out@;
    if m < 128 {
        out.push(m as u8 + sign);
    } else {
        out.push(m as u8);
        out.push(sign);
    }
    assert(out@ =~= before + magnitude_bytes(m as nat, negative));
    out
}

/// The minimal encoding of `v`.
pub fn encode_num(v: i64) -> (out: Vec<u8>)
    ensures
        out@ == num_bytes(v as int),
{
    if v == 0 {
        Vec::new()
    } else if v < 0 {
        encode_magnitude((-(v + 1)) as u64 + 1, true)
    } else {
        encode_magnitude(v as u64, false)
    }
}

/// The minimal encoding of a count.
pub fn encode_count(n: usize) -> (out: Vec<u8>)
    ensures
        out@ == num_bytes(n as int),
{
    if n == 0 {
        Vec::new()
    } else {
        encode_magnitude(n as u64, false)
    }
}

/// Whether `bytes` counts as true.
pub fn is_truthy(bytes: &[u8]) -> (r: bool)
    ensures
        r == truthy(bytes@),
{
    let mut i: usize = 0;
    while i < bytes.len()
        invariant
            i <= bytes.len(),
            forall|j: int| 0 <= j < i ==> !(#[trigger] bytes@[j] != 0 && !(j == bytes.len() - 1
                && bytes@[j] == 0x80)),
        decreases bytes.len() - i,
    {
        if bytes[i] != 0 {
            if !(i == bytes.len() - 1 && bytes[i] == 0x80) {
                return true;
            }
        }
        i += 1;
    }
    false
}

/// The item that stands for `value`.
pub fn encode_bool(value: bool) -> (out: Vec<u8>)
    ensures
        out@ == bool_bytes(value),
{
    let mut out: Vec<u8> = Vec::new();
    if value {
        out.push(1);
    }
    assert(out@ =~= bool_bytes(value));
    out
}

} // verus!
