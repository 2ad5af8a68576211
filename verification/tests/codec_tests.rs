use utxo_wallet::codec::{
    decode_i32, decode_i64, decode_u16, decode_u32, decode_u64, decode_u8, decode_var_bytes,
    decode_varint, encode_i32, encode_i64, encode_u16, encode_u32, encode_u64, encode_u8,
    encode_var_bytes, encode_varint,
};
use utxo_wallet::error::Error;

#[test]
fn fixed_width_unsigned_are_little_endian() {
    assert_eq!(encode_u8(0xab), vec![0xab]);
    assert_eq!(encode_u16(0x1234), vec![0x34, 0x12]);
    assert_eq!(encode_u32(0x1234_5678), vec![0x78, 0x56, 0x34, 0x12]);
    assert_eq!(
        encode_u64(0x0102_0304_0506_0708),
        vec![0x08, 0x07, 0x06, 0x05, 0x04, 0x03, 0x02, 0x01]
    );
}

#[test]
fn fixed_width_signed_are_twos_complement() {
    assert_eq!(encode_i32(1), vec![1, 0, 0, 0]);
    assert_eq!(encode_i32(-1), vec![0xff, 0xff, 0xff, 0xff]);
    assert_eq!(encode_i32(i32::MIN), vec![0, 0, 0, 0x80]);
    assert_eq!(encode_i32(i32::MAX), vec![0xff, 0xff, 0xff, 0x7f]);
    assert_eq!(encode_i64(-2), vec![0xfe, 0xff, 0xff, 0xff, 0xff, 0xff, 0xff, 0xff]);
    assert_eq!(encode_i64(i64::MIN), vec![0, 0, 0, 0, 0, 0, 0, 0x80]);
}

#[test]
fn fixed_width_decode_reports_bytes_consumed() {
    assert_eq!(decode_u8(&[7, 9]), Ok((7, 1)));
    assert_eq!(decode_u16(&[0x34, 0x12, 0xff]), Ok((0x1234, 2)));
    assert_eq!(decode_u32(&[0x78, 0x56, 0x34, 0x12, 0xff]), Ok((0x1234_5678, 4)));
    assert_eq!(decode_u64(&[1, 0, 0, 0, 0, 0, 0, 0x80]), Ok((0x8000_0000_0000_0001, 8)));
    assert_eq!(decode_i32(&[0xff, 0xff, 0xff, 0xff]), Ok((-1, 4)));
    assert_eq!(decode_i32(&[0, 0, 0, 0x80]), Ok((i32::MIN, 4)));
    assert_eq!(decode_i64(&[0xfe, 0xff, 0xff, 0xff, 0xff, 0xff, 0xff, 0xff]), Ok((-2, 8)));
    assert_eq!(decode_i64(&[0, 0, 0, 0, 0, 0, 0, 0x80]), Ok((i64::MIN, 8)));
}

#[test]
fn fixed_width_decode_fails_on_short_input() {
    assert_eq!(decode_u8(&[]), Err(Error::MalformedEncoding));
    assert_eq!(decode_u16(&[1]), Err(Error::MalformedEncoding));
    assert_eq!(decode_u32(&[1, 2, 3]), Err(Error::MalformedEncoding));
    assert_eq!(decode_u64(&[1, 2, 3, 4, 5, 6, 7]), Err(Error::MalformedEncoding));
    assert_eq!(decode_i32(&[1, 2, 3]), Err(Error::MalformedEncoding));
    assert_eq!(decode_i64(&[]), Err(Error::MalformedEncoding));
}

#[test]
fn fixed_width_round_trips() {
    for v in [0u32, 1, 0xff, 0x100, 0xdead_beef, u32::MAX] {
        assert_eq!(decode_u32(&encode_u32(v)), Ok((v, 4)));
    }
    for v in [0i32, 1, -1, 127, -128, i32::MIN, i32::MAX] {
        assert_eq!(decode_i32(&encode_i32(v)), Ok((v, 4)));
    }
    for v in [0i64, -1, i64::MIN, i64::MAX, 0x0123_4567_89ab_cdef] {
        assert_eq!(decode_i64(&encode_i64(v)), Ok((v, 8)));
    }
    for v in [0u64, u64::MAX, 0x8000_0000_0000_0000] {
        assert_eq!(decode_u64(&encode_u64(v)), Ok((v, 8)));
    }
}

#[test]
fn varint_uses_the_narrowest_form() {
    assert_eq!(encode_varint(0), vec![0x00]);
    assert_eq!(encode_varint(0xfc), vec![0xfc]);
    assert_eq!(encode_varint(0xfd), vec![0xfd, 0xfd, 0x00]);
    assert_eq!(encode_varint(0xffff), vec![0xfd, 0xff, 0xff]);
    assert_eq!(encode_varint(0x1_0000), vec![0xfe, 0x00, 0x00, 0x01, 0x00]);
    assert_eq!(encode_varint(0xffff_ffff), vec![0xfe, 0xff, 0xff, 0xff, 0xff]);
    assert_eq!(
        encode_varint(0x1_0000_0000),
        vec![0xff, 0x00, 0x00, 0x00, 0x00, 0x01, 0x00, 0x00, 0x00]
    );
    assert_eq!(encode_varint(u64::MAX), vec![0xff; 9]);
}

#[test]
fn varint_round_trips_with_trailing_bytes() {
    for v in [0u64, 1, 0xfc, 0xfd, 0xfe, 0xff, 0x100, 0xffff, 0x1_0000, 0xffff_ffff, 0x1_0000_0000, u64::MAX] {
        let mut bytes = encode_varint(v);
        let len = bytes.len();
        bytes.extend_from_slice(&[0xaa, 0xbb]);
        assert_eq!(decode_varint(&bytes), Ok((v, len)));
    }
}

#[test]
fn varint_rejects_truncated_input() {
    assert_eq!(decode_varint(&[]), Err(Error::MalformedEncoding));
    assert_eq!(decode_varint(&[0xfd, 0x01]), Err(Error::MalformedEncoding));
    assert_eq!(decode_varint(&[0xfe, 0x01, 0x02, 0x03]), Err(Error::MalformedEncoding));
    assert_eq!(decode_varint(&[0xff, 1, 2, 3, 4, 5, 6, 7]), Err(Error::MalformedEncoding));
}

#[test]
fn varint_rejects_non_canonical_prefix() {
    assert_eq!(decode_varint(&[0xfd, 0xfc, 0x00]), Err(Error::MalformedEncoding));
    assert_eq!(decode_varint(&[0xfd, 0x01, 0x00]), Err(Error::MalformedEncoding));
    assert_eq!(decode_varint(&[0xfe, 0xff, 0xff, 0x00, 0x00]), Err(Error::MalformedEncoding));
    assert_eq!(
        decode_varint(&[0xff, 0xff, 0xff, 0xff, 0xff, 0, 0, 0, 0]),
        Err(Error::MalformedEncoding)
    );
    assert_eq!(decode_varint(&[0xfd, 0xfd, 0x00]), Ok((0xfd, 3)));
}

#[test]
fn var_bytes_round_trip() {
    let data: Vec<u8> = (0..300u32).map(|i| (i % 251) as u8).collect();
    let encoded = encode_var_bytes(&data);
    assert_eq!(&encoded[..3], &[0xfd, 0x2c, 0x01]);
    assert_eq!(encoded.len(), 303);
    let mut with_tail = encoded.clone();
    with_tail.push(0x99);
    assert_eq!(decode_var_bytes(&with_tail), Ok((data, 303)));
    assert_eq!(encode_var_bytes(&[]), vec![0x00]);
    assert_eq!(decode_var_bytes(&[0x00, 0x01]), Ok((vec![], 1)));
}

#[test]
fn var_bytes_rejects_missing_payload() {
    assert_eq!(decode_var_bytes(&[0x03, 1, 2]), Err(Error::MalformedEncoding));
    assert_eq!(decode_var_bytes(&[]), Err(Error::MalformedEncoding));
    assert_eq!(decode_var_bytes(&[0xfd, 0x01, 0x00, 0x00]), Err(Error::MalformedEncoding));
}
