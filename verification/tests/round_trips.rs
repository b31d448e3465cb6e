use nu_msgpack::{nu_to_rmpv, rmpv_to_nu, StructuredValue, Timestamp, WireValue};

fn to_rmpv(wire: &WireValue) -> rmpv::Value {
    match wire {
        WireValue::Nil => rmpv::Value::Nil,
        WireValue::Boolean(b) => rmpv::Value::Boolean(*b),
        WireValue::Integer(n) => {
            if *n < 0 {
                rmpv::Value::from(*n as i64)
            } else {
                rmpv::Value::from(*n as u64)
            }
        }
        WireValue::F32(bits) => rmpv::Value::F32(f32::from_bits(*bits)),
        WireValue::F64(bits) => rmpv::Value::F64(f64::from_bits(*bits)),
        WireValue::String(bytes) => {
            rmpv::Value::String(String::from_utf8(bytes.clone()).unwrap().into())
        }
        WireValue::Binary(bytes) => rmpv::Value::Binary(bytes.clone()),
        WireValue::Array(items) => rmpv::Value::Array(items.iter().map(to_rmpv).collect()),
        WireValue::Dict(pairs) => {
            rmpv::Value::Map(pairs.iter().map(|(k, v)| (to_rmpv(k), to_rmpv(v))).collect())
        }
        WireValue::Ext(tag, payload) => rmpv::Value::Ext(*tag, payload.clone()),
    }
}

fn from_rmpv(value: rmpv::Value) -> WireValue {
    match value {
        rmpv::Value::Nil => WireValue::Nil,
        rmpv::Value::Boolean(b) => WireValue::Boolean(b),
        rmpv::Value::Integer(n) => match n.as_i64() {
            Some(n) => WireValue::Integer(n as i128),
            None => WireValue::Integer(n.as_u64().unwrap() as i128),
        },
        rmpv::Value::F32(x) => WireValue::F32(x.to_bits()),
        rmpv::Value::F64(x) => WireValue::F64(x.to_bits()),
        rmpv::Value::String(text) => WireValue::String(text.into_bytes()),
        rmpv::Value::Binary(bytes) => WireValue::Binary(bytes),
        rmpv::Value::Array(items) => WireValue::Array(items.into_iter().map(from_rmpv).collect()),
        rmpv::Value::Map(pairs) => WireValue::Dict(
            pairs.into_iter().map(|(k, v)| (from_rmpv(k), from_rmpv(v))).collect(),
        ),
        rmpv::Value::Ext(tag, payload) => WireValue::Ext(tag, payload),
    }
}

fn write_bytes(wire: &WireValue) -> Vec<u8> {
    let mut bytes = Vec::new();
    rmpv::encode::write_value(&mut bytes, &to_rmpv(wire)).unwrap();
    bytes
}

fn read_bytes(bytes: &[u8]) -> WireValue {
    let mut rest = bytes;
    from_rmpv(rmpv::decode::read_value(&mut rest).unwrap())
}

fn sample() -> StructuredValue {
    StructuredValue::Record(vec![
        ("nothing".to_string(), StructuredValue::Null),
        ("flag".to_string(), StructuredValue::Bool(true)),
        ("least".to_string(), StructuredValue::Int(i64::MIN)),
        ("most".to_string(), StructuredValue::Int(i64::MAX)),
        ("small".to_string(), StructuredValue::Int(-3)),
        ("ratio".to_string(), StructuredValue::Float(0.1f64.to_bits())),
        ("nan".to_string(), StructuredValue::Float(0x7FF8_0000_0000_0001)),
        ("text".to_string(), StructuredValue::String("héllo ✓ wörld".to_string())),
        ("empty".to_string(), StructuredValue::String(String::new())),
        ("bytes".to_string(), StructuredValue::Binary(vec![0, 255, 1, 254])),
        (
            "list".to_string(),
            StructuredValue::List(vec![
                StructuredValue::Int(1),
                StructuredValue::List(vec![]),
                StructuredValue::Record(vec![]),
                StructuredValue::Record(vec![(
                    "nothing".to_string(),
                    StructuredValue::String("inner".to_string()),
                )]),
            ]),
        ),
        ("epoch".to_string(), StructuredValue::Date(Timestamp { seconds: 0, nanos: 0 })),
        (
            "short".to_string(),
            StructuredValue::Date(Timestamp { seconds: u32::MAX as i64, nanos: 0 }),
        ),
        (
            "long".to_string(),
            StructuredValue::Date(Timestamp { seconds: u32::MAX as i64 + 1, nanos: 0 }),
        ),
        ("before".to_string(), StructuredValue::Date(Timestamp { seconds: -1, nanos: 1 })),
        (
            "leap".to_string(),
            StructuredValue::Date(Timestamp { seconds: 1_483_228_799, nanos: 1_500_000_000 }),
        ),
    ])
}

#[test]
fn plain_data_comes_back_from_the_wire() {
    let wire = nu_to_rmpv(sample(), None).unwrap();
    assert_eq!(rmpv_to_nu(&wire, false), Ok(sample()));
}

#[test]
fn plain_data_comes_back_from_the_bytes() {
    let wire = nu_to_rmpv(sample(), None).unwrap();
    let bytes = write_bytes(&wire);
    assert_eq!(read_bytes(&bytes), wire);
    assert_eq!(rmpv_to_nu(&read_bytes(&bytes), false), Ok(sample()));
}

#[test]
fn each_scalar_comes_back() {
    for value in [
        StructuredValue::Null,
        StructuredValue::Bool(false),
        StructuredValue::Int(0),
        StructuredValue::Int(-1),
        StructuredValue::Int(i64::MAX),
        StructuredValue::Float(0),
        StructuredValue::Float(u64::MAX),
        StructuredValue::String("x".to_string()),
        StructuredValue::Binary(vec![]),
        StructuredValue::Date(Timestamp { seconds: 8_210_266_876_799, nanos: 999_999_999 }),
        StructuredValue::Date(Timestamp { seconds: -8_334_601_228_800, nanos: 0 }),
    ] {
        let wire = nu_to_rmpv(value.clone(), None).unwrap();
        assert_eq!(rmpv_to_nu(&wire, false), Ok(value));
    }
}

#[test]
fn canonical_wire_values_come_back() {
    let wire = WireValue::Dict(vec![
        (WireValue::String(b"a".to_vec()), WireValue::Nil),
        (WireValue::String(b"b".to_vec()), WireValue::Boolean(false)),
        (WireValue::String(b"c".to_vec()), WireValue::Integer(-17)),
        (WireValue::String(b"d".to_vec()), WireValue::F64(2.5f64.to_bits())),
        (WireValue::String(b"e".to_vec()), WireValue::String("text".as_bytes().to_vec())),
        (WireValue::String(b"f".to_vec()), WireValue::Binary(vec![9, 8, 7])),
        (
            WireValue::String(b"g".to_vec()),
            WireValue::Array(vec![WireValue::Integer(1), WireValue::Dict(vec![])]),
        ),
        (WireValue::String(b"h".to_vec()), WireValue::Ext(-1, vec![0, 0, 0, 9])),
        (
            WireValue::String(b"i".to_vec()),
            WireValue::Ext(-1, vec![0, 0, 0, 1, 0, 0, 0, 0, 0, 0, 0, 9]),
        ),
    ]);
    let value = rmpv_to_nu(&wire, false).unwrap();
    assert_eq!(nu_to_rmpv(value, None), Ok(wire));
}

#[test]
fn canonical_bytes_come_back() {
    let bytes: Vec<u8> = vec![
        0x84, 0xA1, 0x61, 0x93, 0x01, 0xC0, 0xC3, 0xA1, 0x62, 0xCB, 0x3F, 0xF8, 0x00, 0x00, 0x00,
        0x00, 0x00, 0x00, 0xA1, 0x63, 0xD6, 0xFF, 0x5A, 0x6B, 0x6D, 0x11, 0xA1, 0x64, 0xC4, 0x02,
        0x01, 0x02,
    ];
    let value = rmpv_to_nu(&read_bytes(&bytes), false).unwrap();
    assert_eq!(
        value,
        StructuredValue::Record(vec![
            (
                "a".to_string(),
                StructuredValue::List(vec![
                    StructuredValue::Int(1),
                    StructuredValue::Null,
                    StructuredValue::Bool(true),
                ])
            ),
            ("b".to_string(), StructuredValue::Float(1.5f64.to_bits())),
            (
                "c".to_string(),
                StructuredValue::Date(Timestamp { seconds: 1_516_989_713, nanos: 0 })
            ),
            ("d".to_string(), StructuredValue::Binary(vec![1, 2])),
        ])
    );
    assert_eq!(write_bytes(&nu_to_rmpv(value, None).unwrap()), bytes);
}

#[test]
fn wire_values_that_are_not_canonical_come_back_changed() {
    let narrow = WireValue::F32(1.0f32.to_bits());
    let value = rmpv_to_nu(&narrow, false).unwrap();
    assert_eq!(nu_to_rmpv(value, None), Ok(WireValue::F64(1.0f64.to_bits())));

    let packed = WireValue::Ext(-1, vec![0, 0, 0, 0, 0, 0, 0, 9]);
    let value = rmpv_to_nu(&packed, false).unwrap();
    assert_eq!(nu_to_rmpv(value, None), Ok(WireValue::Ext(-1, vec![0, 0, 0, 9])));

    let roomy = WireValue::Ext(-1, vec![0, 0, 0, 0, 0, 0, 0, 0, 0, 0, 0, 9]);
    let value = rmpv_to_nu(&roomy, false).unwrap();
    assert_eq!(nu_to_rmpv(value, None), Ok(WireValue::Ext(-1, vec![0, 0, 0, 9])));

    let numbered = WireValue::Dict(vec![(WireValue::Integer(1), WireValue::Nil)]);
    let value = rmpv_to_nu(&numbered, false).unwrap();
    assert_eq!(
        nu_to_rmpv(value, None),
        Ok(WireValue::Dict(vec![(WireValue::String(b"1".to_vec()), WireValue::Nil)]))
    );
}

#[test]
fn what_decodes_comes_back_after_one_more_trip() {
    let wire = WireValue::Array(vec![
        WireValue::F32(0.1f32.to_bits()),
        WireValue::Ext(9, vec![1, 2]),
        WireValue::Dict(vec![
            (WireValue::Integer(5), WireValue::Nil),
            (WireValue::String(b"5".to_vec()), WireValue::Boolean(true)),
        ]),
        WireValue::Ext(-1, vec![0, 0, 0, 0, 0, 0, 0, 1]),
    ]);
    let value = rmpv_to_nu(&wire, false).unwrap();
    let again = nu_to_rmpv(value.clone(), None).unwrap();
    assert_eq!(rmpv_to_nu(&again, false), Ok(value));
}

#[test]
fn copies_are_equal_to_what_they_copy() {
    let value = sample();
    assert_eq!(value.clone(), value);
    let wire = nu_to_rmpv(sample(), None).unwrap();
    assert_eq!(wire.clone(), wire);
}
