use snake_core::codec::Codec;
use snake_core::error::{ProtocolError, ProtocolViolation};
use snake_core::primitives::{Byte, PrefixedArray, StringProto};
use snake_core::varint::{UVarInt, VarInt, VarLong};

#[test]
fn byte_roundtrip() {
    let byte = Byte(255);
    let mut writer: Vec<u8> = Vec::new();
    byte.encode(&mut writer);
    let (byte_trip, n) = Byte::decode(&writer, 0).unwrap();
    assert_eq!(byte.0, byte_trip.0);
    assert_eq!(n, 1);
}

#[test]
fn byte_decode_io_fail() {
    let stream: Vec<u8> = Vec::new();
    let res = Byte::decode(&stream, 0);
    assert!(matches!(res, Err(ProtocolError::Io)));
}

#[test]
fn prefixed_array_roundtrip() {
    let mut buf: Vec<u8> = Vec::new();
    VarInt(3).encode(&mut buf);
    VarInt(322).encode(&mut buf);
    VarInt(228).encode(&mut buf);
    VarInt(123).encode(&mut buf);

    let (pr_ar, _) = PrefixedArray::<VarInt>::decode(&buf, 0).unwrap();

    assert_eq!(pr_ar.length.0, 3);
    assert_eq!(pr_ar.data[0].0, 322);
    assert_eq!(pr_ar.data[1].0, 228);
    assert_eq!(pr_ar.data[2].0, 123);
}

#[test]
fn stringproto_roundtrip() {
    let mut stream: Vec<u8> = Vec::new();
    VarInt(11).encode(&mut stream);
    let str_test = "Hello world".to_string();
    stream.extend_from_slice(str_test.as_bytes());

    let (s, n) = StringProto::decode(&stream, 0).unwrap();
    assert_eq!(s.0, str_test);
    assert_eq!(n, stream.len());

    let mut test_buf: Vec<u8> = Vec::new();
    s.encode(&mut test_buf);
    assert_eq!(test_buf, stream);
}

#[test]
fn uvarint_roundtrip() {
    let uvarint = UVarInt(42);
    let mut writer: Vec<u8> = Vec::new();
    uvarint.encode(&mut writer);
    let (num, _) = UVarInt::decode(&writer, 0).unwrap();
    assert_eq!(num.0, uvarint.0);
}

#[test]
fn uvarint_decode_fail_protocol_violation() {
    let mut writer: Vec<u8> = Vec::new();
    VarInt(-58).encode(&mut writer);
    let res = UVarInt::decode(&writer, 0);
    assert!(matches!(
        res,
        Err(ProtocolError::ProtocolViolation(ProtocolViolation::NegativeUnsigned))
    ));
}

#[test]
fn varint_varint_decode_success() {
    let buf: [u8; 1] = [0x2C];
    let (num, n) = VarInt::decode(&buf, 0).unwrap();
    assert_eq!(44, num.0);
    assert_eq!(n, 1);
}

#[test]
fn varint_varint_decode_fail_protocol_violation() {
    let buf: [u8; 6] = [0x80, 0x80, 0x80, 0x80, 0x80, 0x80];
    let res = VarInt::decode(&buf, 0);
    assert!(matches!(
        res,
        Err(ProtocolError::ProtocolViolation(ProtocolViolation::VarIntTooLong))
    ));
}

#[test]
fn varint_varint_decode_fail_io() {
    let buf: [u8; 0] = [];
    let res = VarInt::decode(&buf, 0);
    assert!(matches!(res, Err(ProtocolError::Io)));
}

#[test]
fn varint_varint_roundtrip() {
    let comp = 44;
    let mut writer = Vec::new();
    VarInt(comp).encode(&mut writer);
    let (num_comp, _) = VarInt::decode(&writer, 0).unwrap();
    assert_eq!(comp, num_comp.0);
}

#[test]
fn varlong_varint_decode_success() {
    let buf: [u8; 1] = [0x2C];
    let (num, _) = VarLong::decode(&buf, 0).unwrap();
    assert_eq!(44, num.0);
}

#[test]
fn varlong_varint_decode_fail_protocol_violation() {
    let buf: [u8; 11] = [
        0x80, 0x80, 0x80, 0x80, 0x80, 0x80, 0x80, 0x80, 0x80, 0x80, 0x80,
    ];
    let res = VarLong::decode(&buf, 0);
    assert!(matches!(
        res,
        Err(ProtocolError::ProtocolViolation(ProtocolViolation::VarLongTooLong))
    ));
}

#[test]
fn varlong_varint_decode_fail_io() {
    let buf: [u8; 0] = [];
    let res = VarLong::decode(&buf, 0);
    assert!(matches!(res, Err(ProtocolError::Io)));
}

#[test]
fn varlong_varint_roundtrip() {
    let comp = 44;
    let mut writer = Vec::new();
    VarLong(comp).encode(&mut writer);
    let (num_comp, _) = VarLong::decode(&writer, 0).unwrap();
    assert_eq!(comp, num_comp.0);
}

fn varint_bytes(v: i32) -> Vec<u8> {
    let mut out = Vec::new();
    VarInt(v).encode(&mut out);
    out
}

#[test]
fn varint_zero_is_one_byte() {
    assert_eq!(varint_bytes(0), vec![0x00]);
}

#[test]
fn varint_known_encodings() {
    assert_eq!(varint_bytes(1), vec![0x01]);
    assert_eq!(varint_bytes(127), vec![0x7f]);
    assert_eq!(varint_bytes(128), vec![0x80, 0x01]);
    assert_eq!(varint_bytes(300), vec![0xac, 0x02]);
    assert_eq!(varint_bytes(-1), vec![0xff, 0xff, 0xff, 0xff, 0x0f]);
    assert_eq!(varint_bytes(i32::MIN), vec![0x80, 0x80, 0x80, 0x80, 0x08]);
}

#[test]
fn varint_round_trip_extremes() {
    for v in [0, 1, -1, 44, -58, 127, 128, 255, 25565, 2097151, i32::MAX, i32::MIN] {
        let bytes = varint_bytes(v);
        let (back, n) = VarInt::decode(&bytes, 0).unwrap();
        assert_eq!(back.0, v);
        assert_eq!(n, bytes.len());
    }
}

#[test]
fn varlong_round_trip_extremes() {
    for v in [0i64, 1, -1, 44, i64::MAX, i64::MIN, 1 << 40, -(1 << 50)] {
        let mut bytes = Vec::new();
        VarLong(v).encode(&mut bytes);
        assert!(bytes.len() <= 10);
        let (back, n) = VarLong::decode(&bytes, 0).unwrap();
        assert_eq!(back.0, v);
        assert_eq!(n, bytes.len());
    }
    let mut minus_one = Vec::new();
    VarLong(-1).encode(&mut minus_one);
    assert_eq!(minus_one.len(), 10);
}

#[test]
fn varint_five_continuation_bytes_too_long() {
    let buf: [u8; 5] = [0x80, 0x80, 0x80, 0x80, 0x80];
    assert!(matches!(
        VarInt::decode(&buf, 0),
        Err(ProtocolError::ProtocolViolation(ProtocolViolation::VarIntTooLong))
    ));
}

#[test]
fn varint_truncated_chain_is_io() {
    let buf: [u8; 4] = [0x80, 0x80, 0x80, 0x80];
    assert!(matches!(VarInt::decode(&buf, 0), Err(ProtocolError::Io)));
}

#[test]
fn varlong_ten_continuation_bytes_too_long() {
    let buf: [u8; 10] = [0x80; 10];
    assert!(matches!(
        VarLong::decode(&buf, 0),
        Err(ProtocolError::ProtocolViolation(ProtocolViolation::VarLongTooLong))
    ));
    let mut ok = [0x80u8; 10];
    ok[9] = 0x01;
    assert_eq!(VarLong::decode(&ok, 0).unwrap().0 .0, i64::MIN);
}

#[test]
fn varint_decode_at_offset_consumes_exactly() {
    let mut buf = vec![0xaa];
    VarInt(300).encode(&mut buf);
    buf.push(0x07);
    let (v, n) = VarInt::decode(&buf, 1).unwrap();
    assert_eq!(v.0, 300);
    assert_eq!(n, 2);
    let (b, m) = Byte::decode(&buf, 1 + n).unwrap();
    assert_eq!(b.0, 0x07);
    assert_eq!(m, 1);
}

#[test]
fn string_round_trip_unicode_and_empty() {
    for text in ["", "a", "Hello world", "héllo 🐍 мир"] {
        let mut buf = Vec::new();
        StringProto(text.to_string()).encode(&mut buf);
        let (back, n) = StringProto::decode(&buf, 0).unwrap();
        assert_eq!(back.0, text);
        assert_eq!(n, buf.len());
    }
    let mut empty = Vec::new();
    StringProto(String::new()).encode(&mut empty);
    assert_eq!(empty, vec![0x00]);
}

#[test]
fn string_invalid_utf8_is_utf8_error() {
    let buf = vec![0x02, 0xc3, 0x28];
    assert!(matches!(StringProto::decode(&buf, 0), Err(ProtocolError::Utf8)));
}

#[test]
fn string_short_payload_is_io() {
    let buf = vec![0x05, b'a', b'b'];
    assert!(matches!(StringProto::decode(&buf, 0), Err(ProtocolError::Io)));
}

#[test]
fn string_negative_length_rejected() {
    let mut buf = Vec::new();
    VarInt(-1).encode(&mut buf);
    assert!(matches!(
        StringProto::decode(&buf, 0),
        Err(ProtocolError::ProtocolViolation(ProtocolViolation::NegativeUnsigned))
    ));
}

#[test]
fn prefixed_array_of_ids_round_trip() {
    let arr = PrefixedArray {
        length: VarInt(3),
        data: vec![VarLong(-5), VarLong(0), VarLong(i64::MAX)],
    };
    let mut buf = Vec::new();
    arr.encode(&mut buf);
    let (back, n) = PrefixedArray::<VarLong>::decode(&buf, 0).unwrap();
    assert_eq!(n, buf.len());
    assert_eq!(back.length.0, 3);
    let values: Vec<i64> = back.data.iter().map(|v| v.0).collect();
    assert_eq!(values, vec![-5, 0, i64::MAX]);
}

#[test]
fn prefixed_array_empty_round_trip() {
    let arr: PrefixedArray<VarInt> = PrefixedArray {
        length: VarInt(0),
        data: Vec::new(),
    };
    let mut buf = Vec::new();
    arr.encode(&mut buf);
    assert_eq!(buf, vec![0x00]);
    let (back, n) = PrefixedArray::<VarInt>::decode(&buf, 0).unwrap();
    assert_eq!(n, 1);
    assert_eq!(back.length.0, 0);
    assert!(back.data.is_empty());
}

#[test]
fn prefixed_array_missing_element_is_io() {
    let buf = vec![0x02, 0x01];
    assert!(matches!(
        PrefixedArray::<VarInt>::decode(&buf, 0),
        Err(ProtocolError::Io)
    ));
}

#[test]
fn prefixed_array_of_strings_round_trip() {
    let arr = PrefixedArray {
        length: VarInt(2),
        data: vec![StringProto("ab".to_string()), StringProto("ü".to_string())],
    };
    let mut buf = Vec::new();
    arr.encode(&mut buf);
    let (back, n) = PrefixedArray::<StringProto>::decode(&buf, 0).unwrap();
    assert_eq!(n, buf.len());
    assert_eq!(back.data[0].0, "ab");
    assert_eq!(back.data[1].0, "ü");
}

#[test]
fn deref_gives_inner_value() {
    assert_eq!(*VarInt(7).deref(), 7);
    assert_eq!(*VarLong(-7).deref(), -7);
}
