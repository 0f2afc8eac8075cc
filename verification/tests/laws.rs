use twee::assert_serde;
use twee::assert_serde_across;
use twee::const_list::{ConstListEncoder, ParseConstListError};
use twee::endians::{NumberEncodingBE, NumberEncodingLE};
use twee::io::{ByteCounter, ByteCursor, ByteRead, ByteWrite, EndOfBufferError};
use twee::lists::{LengthPrefixList, ListParseError};
use twee::magic_bytes::{MagicBytes, MagicMismatch};
use twee::serde::{
    size_by_counting, ByteDeserialize, ByteSerialize, ByteTypeId, ParseOrIOError,
};
use twee::string::{LengthPrefixString, StringParseError};
use twee::varint::{SVarInt, UVarInt, VarIntTooBig};

#[test]
fn varint_size_breakpoints() {
    assert_eq!(UVarInt.size(&0), 1);
    assert_eq!(UVarInt.size(&127), 1);
    assert_eq!(UVarInt.size(&128), 2);
    assert_eq!(UVarInt.size(&16383), 2);
    assert_eq!(UVarInt.size(&16384), 3);
    assert_eq!(UVarInt.size(&(1u64 << 62)), 9);
    assert_eq!(UVarInt.size(&(1u64 << 63)), 10);
    assert_eq!(UVarInt.size(&u64::MAX), 10);
}

#[test]
fn varint_tenth_byte_overflow() {
    // Nine continuation bytes, then a tenth whose payload is above the one
    // residual bit: a value past sixty-four bits.
    let bytes = vec![0x80u8, 0x80, 0x80, 0x80, 0x80, 0x80, 0x80, 0x80, 0x80, 0x02];
    let mut cur = ByteCursor::new(bytes.as_slice());
    let r: Result<u64, _> = UVarInt.byte_deserialize(&mut cur);
    assert_eq!(r, Err(ParseOrIOError::Parse(VarIntTooBig)));

    // The same nine continuation bytes with a residual bit of one decode.
    let ok_bytes = vec![0x80u8, 0x80, 0x80, 0x80, 0x80, 0x80, 0x80, 0x80, 0x80, 0x01];
    let mut cur = ByteCursor::new(ok_bytes.as_slice());
    let r: Result<u64, _> = UVarInt.byte_deserialize(&mut cur);
    assert_eq!(r, Ok(1u64 << 63));
    assert!(cur.at_end());
}

#[test]
fn varint_truncated_is_transport_failure() {
    let bytes = vec![0x80u8, 0x80];
    let mut cur = ByteCursor::new(bytes.as_slice());
    let r: Result<u64, _> = UVarInt.byte_deserialize(&mut cur);
    assert_eq!(r, Err(ParseOrIOError::IO(EndOfBufferError)));
}

#[test]
fn size_by_counting_matches_size() {
    assert_eq!(size_by_counting(&UVarInt, &300u64), Ok(UVarInt.size(&300u64)));
    assert_eq!(size_by_counting(&SVarInt, &-7i64), Ok(SVarInt.size(&-7i64)));
    assert_eq!(
        size_by_counting(&NumberEncodingLE, &5u32),
        Ok(ByteSerialize::<u32>::size(&NumberEncodingLE, &5u32))
    );
    let list = LengthPrefixList::new(NumberEncodingBE, UVarInt);
    let v: Vec<u64> = vec![1, 200, 300000];
    assert_eq!(size_by_counting(&list, &v), Ok(list.size(&v)));
    let s = LengthPrefixString::new(UVarInt);
    let text = String::from("size me");
    assert_eq!(size_by_counting(&s, &text), Ok(s.size(&text)));
}

#[test]
fn partial_array_failure_reports_index() {
    // Two valid varint elements, then one whose tenth byte overflows: the
    // third element (index 2) fails, and no partial array escapes.
    let mut bytes = vec![0x01u8, 0x02];
    bytes.extend_from_slice(&[0x80, 0x80, 0x80, 0x80, 0x80, 0x80, 0x80, 0x80, 0x80, 0x02]);
    let codec = ConstListEncoder::new(UVarInt, 4);
    let mut cur = ByteCursor::new(bytes.as_slice());
    let r: Result<Vec<u64>, _> = codec.byte_deserialize(&mut cur);
    assert_eq!(
        r,
        Err(ParseOrIOError::Parse(ParseConstListError { index: 2, error: VarIntTooBig }))
    );
}

#[test]
fn list_item_failure_reports_index() {
    // Length three, first element fine, second overflows.
    let mut bytes = vec![0x03u8, 0x07];
    bytes.extend_from_slice(&[0x80, 0x80, 0x80, 0x80, 0x80, 0x80, 0x80, 0x80, 0x80, 0x7f]);
    let codec = LengthPrefixList::new(UVarInt, UVarInt);
    let mut cur = ByteCursor::new(bytes.as_slice());
    let r: Result<Vec<u64>, _> = codec.byte_deserialize(&mut cur);
    assert_eq!(
        r,
        Err(ParseOrIOError::Parse(ListParseError::ItemParseError {
            idx: 1,
            error: VarIntTooBig
        }))
    );
}

#[test]
fn magic_byte_mismatch_reports_both() {
    let codec = MagicBytes::new(vec![0x69, 0x04, 0x20]);
    let bytes = vec![0u8, 0, 0];
    let mut cur = ByteCursor::new(bytes.as_slice());
    let r: Result<(), _> = codec.byte_deserialize(&mut cur);
    assert_eq!(
        r,
        Err(ParseOrIOError::Parse(MagicMismatch {
            expected: vec![0x69, 0x04, 0x20],
            found: vec![0, 0, 0],
        }))
    );
}

#[test]
fn magic_byte_short_input_is_transport_failure() {
    let codec = MagicBytes::new(vec![0x69, 0x04, 0x20]);
    let bytes = vec![0x69u8, 0x04];
    let mut cur = ByteCursor::new(bytes.as_slice());
    let r: Result<(), _> = codec.byte_deserialize(&mut cur);
    assert_eq!(r, Err(ParseOrIOError::IO(EndOfBufferError)));
}

#[test]
fn mismatched_codecs_fail_cross_check() {
    // Different endianness for a multi-byte width: distinct type identities,
    // so the cross-codec assertion must fail.
    assert!(!assert_serde_across(&NumberEncodingLE, &NumberEncodingBE, &1u32));
    // Different widths never share an identity either.
    let le_u16 = <NumberEncodingLE as ByteTypeId<u16>>::byte_type_id(&NumberEncodingLE);
    let le_u32 = <NumberEncodingLE as ByteTypeId<u32>>::byte_type_id(&NumberEncodingLE);
    assert_ne!(le_u16, le_u32);
}

#[test]
fn type_identity_tokens() {
    let list = LengthPrefixList::new(NumberEncodingBE, NumberEncodingBE);
    let id = <LengthPrefixList<_, _> as ByteTypeId<Vec<u64>>>::byte_type_id(&list);
    assert_eq!(
        id,
        vec![
            "twee::LengthPrefixedList<".to_string(),
            "twee::BE<u64>".to_string(),
            ",".to_string(),
            "twee::BE<u64>".to_string(),
            ">".to_string(),
        ]
    );
    let magic = MagicBytes::new(vec![105, 4, 32]);
    assert_eq!(magic.byte_type_id(), vec!["MagicBytes<105,4,32,>".to_string()]);
    let single = <twee::endians::NumberEncodingSingleByte as ByteTypeId<u8>>::byte_type_id(
        &twee::endians::NumberEncodingSingleByte,
    );
    assert_eq!(single, vec!["twee::SingleByteUnsigned".to_string()]);
}

#[test]
fn string_invalid_utf8_is_structural() {
    let codec = LengthPrefixString::new(NumberEncodingBE);
    let mut bytes = vec![0u8, 0, 0, 0, 0, 0, 0, 2];
    bytes.extend_from_slice(&[0xFF, 0xFE]);
    let mut cur = ByteCursor::new(bytes.as_slice());
    let r: Result<String, _> = codec.byte_deserialize(&mut cur);
    match r {
        Err(ParseOrIOError::Parse(StringParseError::InvalidUtf8Error)) => {}
        other => panic!("expected invalid-utf8 parse failure, got {:?}", other),
    }
}

#[test]
fn string_decodes_counted_bytes() {
    let codec = LengthPrefixString::new(NumberEncodingBE);
    let mut bytes = vec![0u8, 0, 0, 0, 0, 0, 0, 3];
    bytes.extend_from_slice(b"abc");
    bytes.push(0xAA);
    let mut cur = ByteCursor::new(bytes.as_slice());
    let r: Result<String, _> = codec.byte_deserialize(&mut cur);
    assert_eq!(r.unwrap(), "abc");
    assert!(!cur.at_end());
}

#[test]
fn short_fixed_width_read_is_transport_failure() {
    let bytes = vec![1u8, 2];
    let mut cur = ByteCursor::new(bytes.as_slice());
    let r: Result<u32, _> = NumberEncodingLE.byte_deserialize(&mut cur);
    assert_eq!(r, Err(ParseOrIOError::IO(EndOfBufferError)));
}

#[test]
fn cursor_and_counter_basics() {
    let data = vec![10u8, 20, 30];
    let mut cur = ByteCursor::new(data.as_slice());
    assert!(!cur.at_end());
    assert_eq!(cur.read_byte(), Ok(10));
    assert_eq!(cur.read_buf(2).unwrap(), vec![20, 30]);
    assert!(cur.at_end());
    assert_eq!(cur.read_byte(), Err(EndOfBufferError));

    let mut counter = ByteCounter::new();
    counter.write_byte(7).unwrap();
    counter.write_buf(&[1, 2, 3]).unwrap();
    assert_eq!(counter.count(), 4);

    let mut sink: Vec<u8> = Vec::new();
    sink.write_byte(9).unwrap();
    sink.write_buf(&[8, 7]).unwrap();
    assert_eq!(sink, vec![9, 8, 7]);
}

#[test]
fn error_map_combinators() {
    let parse: ParseOrIOError<u8, &str> = ParseOrIOError::Parse(3);
    let mapped = parse.map_parse(|p| p + 1);
    assert_eq!(mapped, ParseOrIOError::Parse(4));
    let mapped = mapped.map_io(|_| 0u32);
    assert_eq!(mapped, ParseOrIOError::Parse(4));

    let io: ParseOrIOError<u8, &str> = ParseOrIOError::IO("gone");
    let mapped = io.map_parse(|p| p + 1);
    assert_eq!(mapped, ParseOrIOError::IO("gone"));
    let mapped = mapped.map_io(|m| m.len());
    assert_eq!(mapped, ParseOrIOError::IO(4));
}

#[test]
fn guess_size_hints() {
    let g = <NumberEncodingLE as ByteDeserialize<u32>>::guess_size(&NumberEncodingLE);
    assert_eq!(g, Some(4));
    let g = <UVarInt as ByteDeserialize<u64>>::guess_size(&UVarInt);
    assert_eq!(g, None);
    let arr = ConstListEncoder::new(NumberEncodingBE, 3);
    let g = <ConstListEncoder<_> as ByteDeserialize<Vec<u16>>>::guess_size(&arr);
    assert_eq!(g, Some(6));
    let magic = MagicBytes::new(vec![1, 2]);
    assert_eq!(magic.guess_size(), Some(2));
}

#[test]
fn nested_list_round_trip() {
    let inner = LengthPrefixList::new(UVarInt, NumberEncodingLE);
    let outer = LengthPrefixList::new(UVarInt, inner);
    let v: Vec<Vec<u32>> = vec![vec![1, 2, 3], vec![], vec![u32::MAX]];
    assert!(assert_serde(&outer, &v));
    let strings = LengthPrefixList::new(UVarInt, LengthPrefixString::new(UVarInt));
    let v: Vec<String> = vec![String::from("one"), String::new(), String::from("threeee")];
    assert!(assert_serde(&strings, &v));
}

#[test]
fn empty_values_round_trip() {
    let list = LengthPrefixList::new(NumberEncodingBE, NumberEncodingBE);
    let empty: Vec<u64> = vec![];
    assert!(assert_serde(&list, &empty));
    let s = LengthPrefixString::new(NumberEncodingBE);
    assert!(assert_serde(&s, &String::new()));
    let arr = ConstListEncoder::new(NumberEncodingLE, 0);
    let none: Vec<u16> = vec![];
    assert!(assert_serde(&arr, &none));
}

#[test]
fn zigzag_encoding_on_the_wire() {
    // -1 zig-zags to 1, so its varint encoding is the single byte 1.
    let mut buf: Vec<u8> = Vec::new();
    SVarInt.byte_serialize(&-1i64, &mut buf).unwrap();
    assert_eq!(buf, vec![1]);
    let mut buf: Vec<u8> = Vec::new();
    SVarInt.byte_serialize(&1i64, &mut buf).unwrap();
    assert_eq!(buf, vec![2]);
}
