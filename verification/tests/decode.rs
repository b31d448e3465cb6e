use nu_msgpack::{
    rmpv_to_nu, unknown_ext_to_nu, DecodeError, FromMsgpack, StructuredValue, Timestamp, WireValue,
};

fn text(s: &str) -> WireValue {
    WireValue::String(s.as_bytes().to_vec())
}

fn string(s: &str) -> StructuredValue {
    StructuredValue::String(s.to_string())
}

fn compressed(data: &[u8], quality: i32) -> Vec<u8> {
    let mut out = Vec::new();
    let params = brotli::enc::BrotliEncoderParams { quality, ..Default::default() };
    brotli::BrotliCompress(&mut &data[..], &mut out, &params).unwrap();
    out
}

#[test]
fn nil_and_booleans_decode_directly() {
    assert_eq!(rmpv_to_nu(&WireValue::Nil, false), Ok(StructuredValue::Null));
    assert_eq!(rmpv_to_nu(&WireValue::Boolean(true), false), Ok(StructuredValue::Bool(true)));
    assert_eq!(rmpv_to_nu(&WireValue::Boolean(false), true), Ok(StructuredValue::Bool(false)));
}

#[test]
fn integer_at_the_upper_bound_decodes() {
    assert_eq!(
        rmpv_to_nu(&WireValue::Integer(i64::MAX as i128), false),
        Ok(StructuredValue::Int(i64::MAX))
    );
    assert_eq!(
        rmpv_to_nu(&WireValue::Integer(i64::MIN as i128), false),
        Ok(StructuredValue::Int(i64::MIN))
    );
}

#[test]
fn integer_past_the_upper_bound_overflows() {
    assert_eq!(
        rmpv_to_nu(&WireValue::Integer(i64::MAX as i128 + 1), false),
        Err(DecodeError::IntegerOverflow)
    );
    assert_eq!(
        rmpv_to_nu(&WireValue::Integer(u64::MAX as i128), false),
        Err(DecodeError::IntegerOverflow)
    );
    assert_eq!(
        rmpv_to_nu(&WireValue::Integer(i64::MIN as i128 - 1), false),
        Err(DecodeError::IntegerOverflow)
    );
}

#[test]
fn floats_decode_to_their_bits() {
    assert_eq!(
        rmpv_to_nu(&WireValue::F64(1.5f64.to_bits()), false),
        Ok(StructuredValue::Float(1.5f64.to_bits()))
    );
    assert_eq!(
        rmpv_to_nu(&WireValue::F32(0.1f32.to_bits()), false),
        Ok(StructuredValue::Float(f64::from(0.1f32).to_bits()))
    );
}

#[test]
fn strings_must_be_utf8() {
    assert_eq!(rmpv_to_nu(&text("héllo ✓"), false), Ok(string("héllo ✓")));
    assert_eq!(rmpv_to_nu(&text(""), false), Ok(string("")));
    assert_eq!(
        rmpv_to_nu(&WireValue::String(vec![0x68, 0xFF, 0x69]), false),
        Err(DecodeError::InvalidUtf8)
    );
    assert_eq!(
        rmpv_to_nu(&WireValue::String(vec![0xC3]), true),
        Err(DecodeError::InvalidUtf8)
    );
}

#[test]
fn binary_stays_binary_without_decompression() {
    let packed = compressed(b"some text to pack", 5);
    assert_eq!(
        rmpv_to_nu(&WireValue::Binary(packed.clone()), false),
        Ok(StructuredValue::Binary(packed))
    );
    assert_eq!(
        rmpv_to_nu(&WireValue::Binary(vec![]), false),
        Ok(StructuredValue::Binary(vec![]))
    );
}

#[test]
fn binary_that_is_compressed_becomes_a_string() {
    let packed = compressed("some text to pack, twice: some text to pack".as_bytes(), 5);
    assert_eq!(
        rmpv_to_nu(&WireValue::Binary(packed), true),
        Ok(string("some text to pack, twice: some text to pack"))
    );
}

#[test]
fn binary_that_is_not_compressed_comes_back_unchanged() {
    let plain = vec![0xDE, 0xAD, 0xBE, 0xEF, 0x01, 0x02, 0x03, 0x04, 0x05];
    assert_eq!(
        rmpv_to_nu(&WireValue::Binary(plain.clone()), true),
        Ok(StructuredValue::Binary(plain))
    );
}

#[test]
fn decompressed_bytes_are_read_leniently() {
    let packed = compressed(&[0x61, 0xFF, 0x62], 3);
    assert_eq!(rmpv_to_nu(&WireValue::Binary(packed), true), Ok(string("a\u{FFFD}b")));
}

#[test]
fn arrays_decode_in_order() {
    let wire = WireValue::Array(vec![
        WireValue::Integer(1),
        text("two"),
        WireValue::Array(vec![WireValue::Nil]),
    ]);
    assert_eq!(
        rmpv_to_nu(&wire, false),
        Ok(StructuredValue::List(vec![
            StructuredValue::Int(1),
            string("two"),
            StructuredValue::List(vec![StructuredValue::Null]),
        ]))
    );
    assert_eq!(
        rmpv_to_nu(&WireValue::Array(vec![]), false),
        Ok(StructuredValue::List(vec![]))
    );
}

#[test]
fn the_first_error_in_an_array_ends_the_decoding() {
    let wire = WireValue::Array(vec![
        WireValue::Integer(1),
        WireValue::String(vec![0xFF]),
        WireValue::Integer(u64::MAX as i128),
    ]);
    assert_eq!(rmpv_to_nu(&wire, false), Err(DecodeError::InvalidUtf8));
    let wire = WireValue::Array(vec![
        WireValue::Integer(u64::MAX as i128),
        WireValue::String(vec![0xFF]),
    ]);
    assert_eq!(rmpv_to_nu(&wire, false), Err(DecodeError::IntegerOverflow));
}

#[test]
fn maps_decode_to_records_in_order() {
    let wire = WireValue::Dict(vec![
        (text("b"), WireValue::Integer(1)),
        (text("a"), WireValue::Boolean(true)),
    ]);
    assert_eq!(
        rmpv_to_nu(&wire, false),
        Ok(StructuredValue::Record(vec![
            ("b".to_string(), StructuredValue::Int(1)),
            ("a".to_string(), StructuredValue::Bool(true)),
        ]))
    );
}

#[test]
fn a_later_key_overwrites_an_earlier_one() {
    let wire = WireValue::Dict(vec![
        (text("a"), WireValue::Integer(1)),
        (text("a"), WireValue::Integer(2)),
    ]);
    assert_eq!(
        rmpv_to_nu(&wire, false),
        Ok(StructuredValue::Record(vec![("a".to_string(), StructuredValue::Int(2))]))
    );
}

#[test]
fn an_overwritten_key_moves_to_its_last_place() {
    let wire = WireValue::Dict(vec![
        (text("a"), WireValue::Integer(1)),
        (text("b"), WireValue::Integer(2)),
        (text("a"), WireValue::Integer(3)),
        (text("c"), WireValue::Integer(4)),
    ]);
    assert_eq!(
        rmpv_to_nu(&wire, false),
        Ok(StructuredValue::Record(vec![
            ("b".to_string(), StructuredValue::Int(2)),
            ("a".to_string(), StructuredValue::Int(3)),
            ("c".to_string(), StructuredValue::Int(4)),
        ]))
    );
}

#[test]
fn integer_keys_become_their_decimal_text() {
    let wire = WireValue::Dict(vec![
        (WireValue::Integer(42), WireValue::Nil),
        (WireValue::Integer(-7), WireValue::Nil),
        (WireValue::Integer(0), WireValue::Nil),
        (WireValue::Integer(i64::MIN as i128), WireValue::Nil),
    ]);
    assert_eq!(
        rmpv_to_nu(&wire, false),
        Ok(StructuredValue::Record(vec![
            ("42".to_string(), StructuredValue::Null),
            ("-7".to_string(), StructuredValue::Null),
            ("0".to_string(), StructuredValue::Null),
            ("-9223372036854775808".to_string(), StructuredValue::Null),
        ]))
    );
}

#[test]
fn an_integer_key_and_its_text_are_one_key() {
    let wire = WireValue::Dict(vec![
        (WireValue::Integer(1), WireValue::Integer(10)),
        (text("1"), WireValue::Integer(20)),
    ]);
    assert_eq!(
        rmpv_to_nu(&wire, false),
        Ok(StructuredValue::Record(vec![("1".to_string(), StructuredValue::Int(20))]))
    );
}

#[test]
fn binary_keys_become_the_text_they_encode() {
    let wire = WireValue::Dict(vec![(WireValue::Binary(b"name".to_vec()), WireValue::Nil)]);
    assert_eq!(
        rmpv_to_nu(&wire, false),
        Ok(StructuredValue::Record(vec![("name".to_string(), StructuredValue::Null)]))
    );
    let wire = WireValue::Dict(vec![(WireValue::Binary(vec![0xFF, 0xFE]), WireValue::Nil)]);
    assert_eq!(rmpv_to_nu(&wire, false), Err(DecodeError::KeyCoercionFailed));
}

#[test]
fn date_keys_become_their_text() {
    let wire = WireValue::Dict(vec![(
        WireValue::Ext(-1, vec![0x5A, 0x6B, 0x6D, 0x11]),
        WireValue::Nil,
    )]);
    assert_eq!(
        rmpv_to_nu(&wire, false),
        Ok(StructuredValue::Record(vec![(
            "2018-01-26T18:01:53.000Z".to_string(),
            StructuredValue::Null
        )]))
    );
}

#[test]
fn keys_without_a_text_form_fail() {
    for key in [
        WireValue::Nil,
        WireValue::Boolean(true),
        WireValue::F64(1.5f64.to_bits()),
        WireValue::F32(1.5f32.to_bits()),
        WireValue::Array(vec![]),
        WireValue::Dict(vec![]),
        WireValue::Ext(5, vec![1]),
    ] {
        let wire = WireValue::Dict(vec![(key, WireValue::Nil)]);
        assert_eq!(rmpv_to_nu(&wire, false), Err(DecodeError::KeyCoercionFailed));
    }
}

#[test]
fn a_key_is_decoded_before_its_value() {
    let wire = WireValue::Dict(vec![(
        WireValue::String(vec![0xFF]),
        WireValue::Integer(u64::MAX as i128),
    )]);
    assert_eq!(rmpv_to_nu(&wire, false), Err(DecodeError::InvalidUtf8));
    let wire = WireValue::Dict(vec![(WireValue::Nil, WireValue::Integer(u64::MAX as i128))]);
    assert_eq!(rmpv_to_nu(&wire, false), Err(DecodeError::KeyCoercionFailed));
    let wire = WireValue::Dict(vec![(text("k"), WireValue::Integer(u64::MAX as i128))]);
    assert_eq!(rmpv_to_nu(&wire, false), Err(DecodeError::IntegerOverflow));
}

#[test]
fn unknown_extensions_become_records() {
    let expected = StructuredValue::Record(vec![
        ("ext_type".to_string(), StructuredValue::Int(7)),
        ("data".to_string(), StructuredValue::Binary(vec![1, 2, 3])),
    ]);
    assert_eq!(rmpv_to_nu(&WireValue::Ext(7, vec![1, 2, 3]), false), Ok(expected.clone()));
    assert_eq!(unknown_ext_to_nu(7, &[1, 2, 3]), expected);
    assert_eq!(
        unknown_ext_to_nu(-128, &[]),
        StructuredValue::Record(vec![
            ("ext_type".to_string(), StructuredValue::Int(-128)),
            ("data".to_string(), StructuredValue::Binary(vec![])),
        ])
    );
}

#[test]
fn timestamp_extensions_become_dates() {
    assert_eq!(
        rmpv_to_nu(&WireValue::Ext(-1, vec![0x5A, 0x6B, 0x6D, 0x11]), false),
        Ok(StructuredValue::Date(Timestamp { seconds: 1516989713, nanos: 0 }))
    );
}

#[test]
fn malformed_bytes_are_reported_with_the_codecs_words() {
    let outcome = FromMsgpack.run(Err("unexpected end".to_string()), false);
    assert_eq!(outcome, Err(DecodeError::MalformedWireData("unexpected end".to_string())));
    let outcome = FromMsgpack.run(Ok(WireValue::Integer(3)), true);
    assert_eq!(outcome, Ok(StructuredValue::Int(3)));
}

#[test]
fn every_error_has_its_label_and_message() {
    let malformed = DecodeError::MalformedWireData("bad marker".to_string());
    assert_eq!(malformed.label(), "Invalid msgpack");
    assert_eq!(malformed.message(), "bad marker");
    assert_eq!(DecodeError::IntegerOverflow.label(), "Integer overflow");
    assert_eq!(
        DecodeError::IntegerOverflow.message(),
        "Encountered a msgpack integer bigger than what nushell supports (i64::MAX)."
    );
    assert_eq!(DecodeError::InvalidUtf8.label(), "Invalid UTF-8");
    assert_eq!(
        DecodeError::InvalidUtf8.message(),
        "Encountered a msgpack string that was not valid UTF-8"
    );
    assert_eq!(DecodeError::InvalidTimestampLength(5).label(), "Invalid timestamp length");
    assert_eq!(
        DecodeError::InvalidTimestampLength(5).message(),
        "Parsed ext type -1 (timestamp) with invalid length 5"
    );
    assert_eq!(
        DecodeError::InvalidTimestampLength(1234567890).message(),
        "Parsed ext type -1 (timestamp) with invalid length 1234567890"
    );
    let late = DecodeError::TimestampOutOfRange { seconds: -9223372036854775808, nanos: 17 };
    assert_eq!(late.label(), "Timestamp out of range");
    assert_eq!(
        late.message(),
        "Timestamp value (seconds=-9223372036854775808, nanos=17) is out of range"
    );
    assert_eq!(DecodeError::KeyCoercionFailed.label(), "Can't convert to string");
    assert_eq!(DecodeError::KeyCoercionFailed.message(), "Can't convert to string.");
}
