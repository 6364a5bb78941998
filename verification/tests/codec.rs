use pagestore::data_types::{CodecError, Data, DataType};

/// Serializes a value, resolves the tag it wrote, decodes the payload at the
/// resolved type, and checks the original value comes back exactly.
fn round_trip(value: Data) {
    let encoded = value.serialize();
    assert!(encoded.len() >= 1);
    let data_type = DataType::from_code(encoded[0]).unwrap();
    let decoded = Data::deserialize(&encoded[1..], data_type).unwrap();
    assert_eq!(decoded, value);
}

#[test]
fn round_trip_signed_integers() {
    round_trip(Data::Byte(i8::MIN));
    round_trip(Data::Byte(-1));
    round_trip(Data::Byte(0));
    round_trip(Data::Byte(i8::MAX));
    round_trip(Data::Short(i16::MIN));
    round_trip(Data::Short(-12345));
    round_trip(Data::Short(0));
    round_trip(Data::Short(i16::MAX));
    round_trip(Data::Int(i32::MIN));
    round_trip(Data::Int(-7));
    round_trip(Data::Int(0));
    round_trip(Data::Int(i32::MAX));
    round_trip(Data::Long(i64::MIN));
    round_trip(Data::Long(-123456789012345));
    round_trip(Data::Long(0));
    round_trip(Data::Long(i64::MAX));
}

#[test]
fn round_trip_unsigned_integers() {
    round_trip(Data::UByte(0));
    round_trip(Data::UByte(7));
    round_trip(Data::UByte(u8::MAX));
    round_trip(Data::UShort(0));
    round_trip(Data::UShort(0x1234));
    round_trip(Data::UShort(u16::MAX));
    round_trip(Data::UInt(0));
    round_trip(Data::UInt(305419896));
    round_trip(Data::UInt(u32::MAX));
    round_trip(Data::ULong(0));
    round_trip(Data::ULong(123456789012345678));
    round_trip(Data::ULong(u64::MAX));
}

#[test]
fn round_trip_text() {
    round_trip(Data::ShortText(String::new()));
    round_trip(Data::ShortText("Hello, World!".to_string()));
    round_trip(Data::Text(String::new()));
    round_trip(Data::Text("a longer piece of text, still plain".to_string()));
    round_trip(Data::LongText(String::new()));
    round_trip(Data::LongText("multi-byte: \u{e9}\u{4e16}\u{754c}".to_string()));
}

#[test]
fn round_trip_binary_and_uuid() {
    round_trip(Data::ShortBinary(vec![]));
    round_trip(Data::ShortBinary(vec![0, 1, 2, 255]));
    round_trip(Data::Binary(vec![]));
    round_trip(Data::Binary(vec![9; 300]));
    round_trip(Data::LongBinary(vec![]));
    round_trip(Data::LongBinary(vec![0xAA; 70000]));
    round_trip(Data::Uuid(vec![
        0, 1, 2, 3, 4, 5, 6, 7, 8, 9, 10, 11, 12, 13, 14, 15,
    ]));
}

#[test]
fn round_trip_datetime() {
    round_trip(Data::DateTime(i64::MIN));
    round_trip(Data::DateTime(-1));
    round_trip(Data::DateTime(0));
    round_trip(Data::DateTime(1700000000));
    round_trip(Data::DateTime(i64::MAX));
}

#[test]
fn tag_codes_round_trip_for_all_sixteen_types() {
    for code in 1u8..=16u8 {
        let data_type = DataType::from_code(code).unwrap();
        assert_eq!(data_type.get_code(), code);
    }
}

#[test]
fn unknown_tags_resolve_to_nothing() {
    assert!(DataType::from_code(0).is_none());
    assert!(DataType::from_code(17).is_none());
    assert!(DataType::from_code(200).is_none());
    assert!(DataType::from_code(255).is_none());
}

#[test]
fn type_lengths_match_the_catalogue() {
    assert_eq!(DataType::Byte.get_length(), 1);
    assert_eq!(DataType::Short.get_length(), 2);
    assert_eq!(DataType::Int.get_length(), 4);
    assert_eq!(DataType::Long.get_length(), 8);
    assert_eq!(DataType::UByte.get_length(), 1);
    assert_eq!(DataType::UShort.get_length(), 2);
    assert_eq!(DataType::UInt.get_length(), 4);
    assert_eq!(DataType::ULong.get_length(), 8);
    assert_eq!(DataType::ShortText.get_length(), 255);
    assert_eq!(DataType::Text.get_length(), 65535);
    assert_eq!(DataType::LongText.get_length(), 4294967295);
    assert_eq!(DataType::ShortBinary.get_length(), 255);
    assert_eq!(DataType::Binary.get_length(), 65535);
    assert_eq!(DataType::LongBinary.get_length(), 4294967295);
    assert_eq!(DataType::DateTime.get_length(), 8);
    assert_eq!(DataType::Uuid.get_length(), 16);
}

#[test]
fn serialized_forms_are_tag_then_big_endian_payload() {
    assert_eq!(Data::Byte(-1).serialize(), vec![1, 0xFF]);
    assert_eq!(Data::Byte(5).serialize(), vec![1, 0x05]);
    assert_eq!(Data::Short(-2).serialize(), vec![2, 0xFF, 0xFE]);
    assert_eq!(Data::Int(0x01020304).serialize(), vec![3, 1, 2, 3, 4]);
    assert_eq!(
        Data::Long(-1).serialize(),
        vec![4, 0xFF, 0xFF, 0xFF, 0xFF, 0xFF, 0xFF, 0xFF, 0xFF]
    );
    assert_eq!(Data::UByte(0xAB).serialize(), vec![5, 0xAB]);
    assert_eq!(Data::UShort(0x1234).serialize(), vec![6, 0x12, 0x34]);
    assert_eq!(Data::UInt(0xDEADBEEF).serialize(), vec![7, 0xDE, 0xAD, 0xBE, 0xEF]);
    assert_eq!(
        Data::ULong(1).serialize(),
        vec![8, 0, 0, 0, 0, 0, 0, 0, 1]
    );
    assert_eq!(
        Data::ShortText("hi".to_string()).serialize(),
        vec![9, b'h', b'i']
    );
    assert_eq!(
        Data::Text("hi".to_string()).serialize(),
        vec![10, b'h', b'i']
    );
    assert_eq!(
        Data::LongText("hi".to_string()).serialize(),
        vec![11, b'h', b'i']
    );
    assert_eq!(
        Data::ShortBinary(vec![1, 2]).serialize(),
        vec![12, 1, 2]
    );
    assert_eq!(Data::Binary(vec![3]).serialize(), vec![13, 3]);
    assert_eq!(Data::LongBinary(vec![4]).serialize(), vec![14, 4]);
    assert_eq!(
        Data::DateTime(2).serialize(),
        vec![15, 0, 0, 0, 0, 0, 0, 0, 2]
    );
    assert_eq!(
        Data::Uuid(vec![0; 16]).serialize(),
        vec![16, 0, 0, 0, 0, 0, 0, 0, 0, 0, 0, 0, 0, 0, 0, 0, 0]
    );
}

#[test]
fn ulong_max_payload_is_all_ones() {
    let encoded = Data::ULong(u64::MAX).serialize();
    assert_eq!(
        encoded,
        vec![8, 0xFF, 0xFF, 0xFF, 0xFF, 0xFF, 0xFF, 0xFF, 0xFF]
    );
    let decoded = Data::deserialize(&encoded[1..], DataType::ULong).unwrap();
    assert_eq!(decoded, Data::ULong(18446744073709551615));
}

#[test]
fn short_span_as_int_is_a_length_mismatch() {
    let result = Data::deserialize(&[1, 2, 3], DataType::Int);
    assert_eq!(result, Err(CodecError::LengthMismatch));
}

#[test]
fn wrong_width_fixed_payloads_are_length_mismatches() {
    assert_eq!(
        Data::deserialize(&[], DataType::Byte),
        Err(CodecError::LengthMismatch)
    );
    assert_eq!(
        Data::deserialize(&[1, 2, 3], DataType::Short),
        Err(CodecError::LengthMismatch)
    );
    assert_eq!(
        Data::deserialize(&[0; 7], DataType::Long),
        Err(CodecError::LengthMismatch)
    );
    assert_eq!(
        Data::deserialize(&[0; 9], DataType::ULong),
        Err(CodecError::LengthMismatch)
    );
    assert_eq!(
        Data::deserialize(&[0; 4], DataType::DateTime),
        Err(CodecError::LengthMismatch)
    );
}

#[test]
fn uuid_payload_must_be_sixteen_bytes() {
    assert_eq!(
        Data::deserialize(&[0; 15], DataType::Uuid),
        Err(CodecError::LengthMismatch)
    );
    assert_eq!(
        Data::deserialize(&[0; 17], DataType::Uuid),
        Err(CodecError::LengthMismatch)
    );
    let ok = Data::deserialize(&[7; 16], DataType::Uuid).unwrap();
    assert_eq!(ok, Data::Uuid(vec![7; 16]));
}

#[test]
fn invalid_utf8_is_a_decode_error() {
    assert_eq!(
        Data::deserialize(&[0xFF, 0xFE], DataType::Text),
        Err(CodecError::Utf8Decode)
    );
    assert_eq!(
        Data::deserialize(&[0xC3], DataType::ShortText),
        Err(CodecError::Utf8Decode)
    );
    assert_eq!(
        Data::deserialize(&[0x80], DataType::LongText),
        Err(CodecError::Utf8Decode)
    );
}

#[test]
fn multi_byte_utf8_decodes_to_characters() {
    // 0xC3 0xA9 is the two-byte UTF-8 form of one character: the decoder
    // really decodes, it does not hand the bytes back unchanged.
    let decoded = Data::deserialize(&[0xC3, 0xA9], DataType::ShortText).unwrap();
    assert_eq!(decoded, Data::ShortText("\u{e9}".to_string()));
    match decoded {
        Data::ShortText(s) => assert_eq!(s.chars().count(), 1),
        _ => panic!("decoded value has the wrong type"),
    }
}

#[test]
fn binary_classes_accept_any_bytes() {
    let raw = [0xFF, 0x00, 0x80, 0x7F];
    assert_eq!(
        Data::deserialize(&raw, DataType::ShortBinary).unwrap(),
        Data::ShortBinary(raw.to_vec())
    );
    assert_eq!(
        Data::deserialize(&raw, DataType::Binary).unwrap(),
        Data::Binary(raw.to_vec())
    );
    assert_eq!(
        Data::deserialize(&raw, DataType::LongBinary).unwrap(),
        Data::LongBinary(raw.to_vec())
    );
}
