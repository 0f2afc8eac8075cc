use twee::assert_serde;
use twee::assert_serde_across;
use twee::assert_serde_through;
use twee::const_list::ConstListEncoder;
use twee::endians::{NumberEncodingBE, NumberEncodingLE, NumberEncodingSingleByte};
use twee::lists::LengthPrefixList;
use twee::magic_bytes::MagicBytes;
use twee::serde::{ByteConstDeserialize, ByteConstSerialize};
use twee::string::LengthPrefixString;
use twee::varint::{decode_svarint, encode_svarint, SVarInt, UVarInt};

#[test]
fn single_byteness() {
    for v in [0u8, 1, 127, 128, 255] {
        assert!(assert_serde_across(&NumberEncodingSingleByte, &NumberEncodingLE, &v));
        assert!(assert_serde_across(&NumberEncodingSingleByte, &NumberEncodingBE, &v));
        assert!(assert_serde_across(&NumberEncodingBE, &NumberEncodingLE, &v));
    }
    for v in [-128i8, 0, 1, 127] {
        assert!(assert_serde_across(&NumberEncodingSingleByte, &NumberEncodingLE, &v));
        assert!(assert_serde_across(&NumberEncodingSingleByte, &NumberEncodingBE, &v));
        assert!(assert_serde_across(&NumberEncodingBE, &NumberEncodingLE, &v));
    }
}

#[test]
fn zero_one_max() {
    for v in [u8::MIN, 0, 1, u8::MAX] {
        assert!(assert_serde(&NumberEncodingLE, &v));
        assert!(assert_serde(&NumberEncodingBE, &v));
    }
    for v in [u16::MIN, 0, 1, u16::MAX] {
        assert!(assert_serde(&NumberEncodingLE, &v));
        assert!(assert_serde(&NumberEncodingBE, &v));
    }
    for v in [u32::MIN, 0, 1, u32::MAX] {
        assert!(assert_serde(&NumberEncodingLE, &v));
        assert!(assert_serde(&NumberEncodingBE, &v));
    }
    for v in [u64::MIN, 0, 1, u64::MAX] {
        assert!(assert_serde(&NumberEncodingLE, &v));
        assert!(assert_serde(&NumberEncodingBE, &v));
    }
    for v in [u128::MIN, 0, 1, u128::MAX] {
        assert!(assert_serde(&NumberEncodingLE, &v));
        assert!(assert_serde(&NumberEncodingBE, &v));
    }
    for v in [i8::MIN, 0, 1, i8::MAX] {
        assert!(assert_serde(&NumberEncodingLE, &v));
        assert!(assert_serde(&NumberEncodingBE, &v));
    }
    for v in [i16::MIN, 0, 1, i16::MAX] {
        assert!(assert_serde(&NumberEncodingLE, &v));
        assert!(assert_serde(&NumberEncodingBE, &v));
    }
    for v in [i32::MIN, 0, 1, i32::MAX] {
        assert!(assert_serde(&NumberEncodingLE, &v));
        assert!(assert_serde(&NumberEncodingBE, &v));
    }
    for v in [i64::MIN, 0, 1, i64::MAX] {
        assert!(assert_serde(&NumberEncodingLE, &v));
        assert!(assert_serde(&NumberEncodingBE, &v));
    }
    for v in [i128::MIN, 0, 1, i128::MAX] {
        assert!(assert_serde(&NumberEncodingLE, &v));
        assert!(assert_serde(&NumberEncodingBE, &v));
    }
}

#[test]
fn endianness() {
    let n = 1u32;
    let expected_le = vec![1u8, 0, 0, 0];
    let expected_be = vec![0u8, 0, 0, 1];

    let actual_le = NumberEncodingLE.byte_const_serialize(&n);
    assert_eq!(expected_le, actual_le);

    let actual_be = NumberEncodingBE.byte_const_serialize(&n);
    assert_eq!(expected_be, actual_be);

    let n_le: u32 = NumberEncodingLE.byte_const_deserialize(expected_le.as_slice()).unwrap();
    assert_eq!(n_le, n);
    let n_be: u32 = NumberEncodingBE.byte_const_deserialize(expected_be.as_slice()).unwrap();
    assert_eq!(n_be, n);
}

fn assert_uvarint_serde(n: u64) {
    assert!(assert_serde(&UVarInt, &n));
}

#[test]
fn uvarint_codes() {
    assert_uvarint_serde(0);
    assert_uvarint_serde(1);
    assert_uvarint_serde(69);
    assert_uvarint_serde(127);
    assert_uvarint_serde(128);
    assert_uvarint_serde(420);
    assert_uvarint_serde(16383);
    assert_uvarint_serde(16384);
    assert_uvarint_serde(2097151);
    assert_uvarint_serde(2097152);
    assert_uvarint_serde(268435455);
    assert_uvarint_serde(268435456);
    assert_uvarint_serde(34359738367);
    assert_uvarint_serde(34359738368);
    assert_uvarint_serde(4398046511103);
    assert_uvarint_serde(4398046511104);
    assert_uvarint_serde(562949953421311);
    assert_uvarint_serde(562949953421312);
    assert_uvarint_serde(72057594037927935);
    assert_uvarint_serde(72057594037927936);
    assert_uvarint_serde(9223372036854775807);
    assert_uvarint_serde(9223372036854775808);
    assert_uvarint_serde(18446744073709551614);
    assert_uvarint_serde(18446744073709551615);
}

#[test]
fn protobuf_examples() {
    assert_eq!(encode_svarint(0), 0);
    assert_eq!(encode_svarint(-1), 1);
    assert_eq!(encode_svarint(1), 2);
    assert_eq!(encode_svarint(-2), 3);
    assert_eq!(encode_svarint(2147483647), 4294967294);
    assert_eq!(encode_svarint(-2147483648), 4294967295);
}

fn assert_svarint_codes(n: i64) {
    assert_eq!(decode_svarint(encode_svarint(n)), n);
    assert!(assert_serde(&SVarInt, &n));
}

#[test]
fn varint_blarg() {
    assert_svarint_codes(0);
    assert_svarint_codes(1);
    assert_svarint_codes(-1);
    assert_svarint_codes(2);
    assert_svarint_codes(-40);
    assert_svarint_codes(126);
    assert_svarint_codes(127);
    assert_svarint_codes(128);
    assert_svarint_codes(-126);
    assert_svarint_codes(-127);
    assert_svarint_codes(-128);
    assert_svarint_codes(256);
    assert_svarint_codes(2147483647);
    assert_svarint_codes(-2147483648);
    assert_svarint_codes(i64::MAX);
}

#[test]
fn lists_blarg() {
    let codec = LengthPrefixList::new(NumberEncodingBE, NumberEncodingBE);
    let a: Vec<u64> = vec![1, 2, 5];
    assert!(assert_serde_through(&codec, &a));
}

#[test]
fn const_list_blarg() {
    let codec = ConstListEncoder::new(NumberEncodingBE, 4);
    let arr: Vec<u64> = vec![0, 1, 12345, 99];
    assert!(assert_serde(&codec, &arr));
}

#[test]
fn string_blarg() {
    let codec = LengthPrefixString::new(NumberEncodingBE);
    let a = String::from("123abc\u{0}<- Thats a null char");
    assert!(assert_serde_through(&codec, &a));
}

#[test]
fn magic_bytes_blarg() {
    let awesome = MagicBytes::new(vec![0x69, 0x04, 0x20]);
    assert!(assert_serde(&awesome, &()));
    let cool = MagicBytes::new(vec![b'a', b'b', b'C', 0x00]);
    assert!(assert_serde(&cool, &()));
}
