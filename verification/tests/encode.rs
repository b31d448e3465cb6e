use nu_msgpack::commands::into;
use nu_msgpack::{
    nu_to_rmpv, rmpv_to_nu, EncodeError, IntoMsgpack, StructuredValue, Timestamp, ToMsgpack,
    Unsupported, WireValue,
};

fn string(s: &str) -> StructuredValue {
    StructuredValue::String(s.to_string())
}

fn text(s: &str) -> WireValue {
    WireValue::String(s.as_bytes().to_vec())
}

fn compressed(data: &[u8], quality: i32) -> Vec<u8> {
    let mut out = Vec::new();
    let params = brotli::enc::BrotliEncoderParams { quality, ..Default::default() };
    brotli::BrotliCompress(&mut &data[..], &mut out, &params).unwrap();
    out
}

fn date(seconds: i64, nanos: u32) -> StructuredValue {
    StructuredValue::Date(Timestamp { seconds, nanos })
}

#[test]
fn scalars_encode_directly() {
    assert_eq!(nu_to_rmpv(StructuredValue::Null, None), Ok(WireValue::Nil));
    assert_eq!(nu_to_rmpv(StructuredValue::Bool(true), None), Ok(WireValue::Boolean(true)));
    assert_eq!(nu_to_rmpv(StructuredValue::Int(-5), None), Ok(WireValue::Integer(-5)));
    assert_eq!(
        nu_to_rmpv(StructuredValue::Int(i64::MIN), Some(4)),
        Ok(WireValue::Integer(i64::MIN as i128))
    );
    assert_eq!(
        nu_to_rmpv(StructuredValue::Float(2.5f64.to_bits()), None),
        Ok(WireValue::F64(2.5f64.to_bits()))
    );
    assert_eq!(
        nu_to_rmpv(StructuredValue::Binary(vec![1, 2, 3]), Some(9)),
        Ok(WireValue::Binary(vec![1, 2, 3]))
    );
}

#[test]
fn strings_encode_as_their_bytes() {
    assert_eq!(nu_to_rmpv(string("héllo"), None), Ok(text("héllo")));
    assert_eq!(nu_to_rmpv(string(""), None), Ok(text("")));
}

#[test]
fn strings_are_compressed_on_request() {
    let long = "hello world this is a long string";
    for quality in [0, 1, 5, 9, 11] {
        assert_eq!(
            nu_to_rmpv(string(long), Some(quality)),
            Ok(WireValue::Binary(compressed(long.as_bytes(), quality)))
        );
    }
    let wire = nu_to_rmpv(string(long), Some(9)).unwrap();
    assert_ne!(wire, WireValue::Binary(long.as_bytes().to_vec()));
}

#[test]
fn compressed_string_is_recovered_with_decompression() {
    let long = "hello world this is a long string";
    let wire = nu_to_rmpv(string(long), Some(9)).unwrap();
    assert_eq!(rmpv_to_nu(&wire, true), Ok(string(long)));
    match &wire {
        WireValue::Binary(bytes) => {
            assert_eq!(rmpv_to_nu(&wire, false), Ok(StructuredValue::Binary(bytes.clone())))
        }
        other => panic!("expected a binary, got {:?}", other),
    }
}

#[test]
fn names_of_fields_are_never_compressed() {
    let record = StructuredValue::Record(vec![("greeting".to_string(), string("hi there"))]);
    assert_eq!(
        nu_to_rmpv(record, Some(5)),
        Ok(WireValue::Dict(vec![(
            text("greeting"),
            WireValue::Binary(compressed(b"hi there", 5))
        )]))
    );
}

#[test]
fn lists_and_ranges_encode_as_arrays() {
    let items = || vec![StructuredValue::Int(1), StructuredValue::Int(2), StructuredValue::Int(3)];
    let expected =
        WireValue::Array(vec![WireValue::Integer(1), WireValue::Integer(2), WireValue::Integer(3)]);
    assert_eq!(nu_to_rmpv(StructuredValue::List(items()), None), Ok(expected.clone()));
    assert_eq!(nu_to_rmpv(StructuredValue::Range(items()), None), Ok(expected));
    assert_eq!(nu_to_rmpv(StructuredValue::List(vec![]), None), Ok(WireValue::Array(vec![])));
}

#[test]
fn records_keep_their_order() {
    let record = StructuredValue::Record(vec![
        ("z".to_string(), StructuredValue::Int(1)),
        ("a".to_string(), StructuredValue::List(vec![StructuredValue::Null])),
    ]);
    assert_eq!(
        nu_to_rmpv(record, None),
        Ok(WireValue::Dict(vec![
            (text("z"), WireValue::Integer(1)),
            (text("a"), WireValue::Array(vec![WireValue::Nil])),
        ]))
    );
}

#[test]
fn sizes_and_durations_encode_as_integers() {
    assert_eq!(nu_to_rmpv(StructuredValue::Filesize(1024), None), Ok(WireValue::Integer(1024)));
    assert_eq!(
        nu_to_rmpv(StructuredValue::Duration(-1_500_000_000), None),
        Ok(WireValue::Integer(-1_500_000_000))
    );
}

#[test]
fn whole_seconds_within_32_bits_take_four_bytes() {
    assert_eq!(nu_to_rmpv(date(0, 0), None), Ok(WireValue::Ext(-1, vec![0, 0, 0, 0])));
    assert_eq!(
        nu_to_rmpv(date(1516989713, 0), None),
        Ok(WireValue::Ext(-1, vec![0x5A, 0x6B, 0x6D, 0x11]))
    );
    assert_eq!(
        nu_to_rmpv(date(u32::MAX as i64, 0), Some(3)),
        Ok(WireValue::Ext(-1, vec![0xFF, 0xFF, 0xFF, 0xFF]))
    );
}

#[test]
fn every_other_date_takes_twelve_bytes() {
    assert_eq!(
        nu_to_rmpv(date(1, 1), None),
        Ok(WireValue::Ext(-1, vec![0, 0, 0, 1, 0, 0, 0, 0, 0, 0, 0, 1]))
    );
    assert_eq!(
        nu_to_rmpv(date(u32::MAX as i64 + 1, 0), None),
        Ok(WireValue::Ext(-1, vec![0, 0, 0, 0, 0, 0, 0, 1, 0, 0, 0, 0]))
    );
    assert_eq!(
        nu_to_rmpv(date(-1, 0), None),
        Ok(WireValue::Ext(
            -1,
            vec![0, 0, 0, 0, 0xFF, 0xFF, 0xFF, 0xFF, 0xFF, 0xFF, 0xFF, 0xFF]
        ))
    );
    assert_eq!(
        nu_to_rmpv(date(1516989713, 999_999_999), None),
        Ok(WireValue::Ext(
            -1,
            vec![0x3B, 0x9A, 0xC9, 0xFF, 0, 0, 0, 0, 0x5A, 0x6B, 0x6D, 0x11]
        ))
    );
    let mut expected = 123_456_789u32.to_be_bytes().to_vec();
    expected.extend_from_slice(&(-8_334_601_228_800i64).to_be_bytes());
    assert_eq!(
        nu_to_rmpv(date(-8_334_601_228_800, 123_456_789), None),
        Ok(WireValue::Ext(-1, expected))
    );
}

#[test]
fn what_is_no_data_encodes_as_nil() {
    for kind in [
        Unsupported::Block,
        Unsupported::Closure,
        Unsupported::Error,
        Unsupported::CellPath,
        Unsupported::MatchPattern,
    ] {
        assert_eq!(nu_to_rmpv(StructuredValue::Unsupported(kind), Some(2)), Ok(WireValue::Nil));
    }
    let list = StructuredValue::List(vec![
        StructuredValue::Unsupported(Unsupported::Closure),
        StructuredValue::Int(1),
    ]);
    assert_eq!(
        nu_to_rmpv(list, None),
        Ok(WireValue::Array(vec![WireValue::Nil, WireValue::Integer(1)]))
    );
}

#[test]
fn encoding_without_compression_agrees_with_the_plain_command() {
    let value = || {
        StructuredValue::Record(vec![
            ("text".to_string(), string("plain")),
            ("when".to_string(), date(5, 5)),
        ])
    };
    let expected = nu_to_rmpv(value(), None);
    assert!(expected.is_ok());
    assert_eq!(into::nu_to_rmpv(value()), expected);
    assert_eq!(IntoMsgpack.run(value()), expected);
    assert_eq!(ToMsgpack.run(value(), None), expected);
}

#[test]
fn the_flag_is_cut_to_32_bits() {
    let long = "hello world this is a long string";
    assert_eq!(
        ToMsgpack.run(string(long), Some(9)),
        Ok(WireValue::Binary(compressed(long.as_bytes(), 9)))
    );
    assert_eq!(
        ToMsgpack.run(string(long), Some((1i64 << 32) + 5)),
        Ok(WireValue::Binary(compressed(long.as_bytes(), 5)))
    );
    assert_eq!(
        ToMsgpack.run(string(long), Some(-3)),
        Ok(WireValue::Binary(compressed(long.as_bytes(), -3)))
    );
}

#[test]
fn the_encoding_error_has_its_label_and_message() {
    assert_eq!(EncodeError::CompressionFailed.label(), "Error compressing string with Brotli");
    assert_eq!(
        EncodeError::CompressionFailed.message(),
        "The compressor could not take the string."
    );
}
