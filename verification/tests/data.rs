use flight_data_reader::configuration::{
    Endianess, RocketConfig, SensorConfig, ValueConfig, ValueKind,
};
use flight_data_reader::data::{Packet, PacketError, PacketParser, TypedValue, Value};
use flight_data_reader::result_table::SourceIterator;

fn value(name: &str, data_type: ValueKind) -> ValueConfig {
    ValueConfig { name: name.to_string(), data_type }
}

fn example_config() -> RocketConfig {
    RocketConfig {
        name: "Xenia-2".to_string(),
        sensors: vec![
            SensorConfig {
                name: "LSM".to_string(),
                id: 1,
                values: vec![
                    value("x", ValueKind::Float32),
                    value("y", ValueKind::Float32),
                    value("z", ValueKind::Float32),
                ],
            },
            SensorConfig {
                name: "BMP".to_string(),
                id: 2,
                values: vec![
                    value("pressure", ValueKind::Float32),
                    value("temperature", ValueKind::Float32),
                ],
            },
        ],
        endianess: Endianess::default(),
        display_name: None,
        description: None,
    }
}

fn mixed_config(endianess: Endianess) -> RocketConfig {
    RocketConfig {
        name: "mixed".to_string(),
        sensors: vec![
            SensorConfig {
                name: "a".to_string(),
                id: 7,
                values: vec![
                    value("i8", ValueKind::Int8),
                    value("u16", ValueKind::UInt16),
                    value("i32", ValueKind::Int32),
                    value("f64", ValueKind::Float64),
                ],
            },
            SensorConfig { name: "empty".to_string(), id: 9, values: vec![] },
        ],
        endianess,
        display_name: None,
        description: None,
    }
}

#[test]
fn test_packet_parser() {
    let config = example_config();
    let bin: Vec<u8> = vec![
        // LSM Sensor ID
        0x01,
        // x = 1.0
        0x3f, 0x80, 0x00, 0x00,
        // y = 1.0
        0x3f, 0x80, 0x00, 0x00,
        // z = 1.0
        0x3f, 0x80, 0x00, 0x00,
        // BMP Sensor ID
        0x02,
        // pressure = 1.0
        0x3f, 0x80, 0x00, 0x00,
        // temperature = 1.0
        0x3f, 0x80, 0x00, 0x00,
    ];

    let mut packet_parser = PacketParser::new(bin, config);

    let packet = packet_parser.next().unwrap().unwrap();
    assert_eq!(packet.id, 1);
    assert_eq!(packet.values.len(), 3);
    for value in packet.values {
        assert_eq!(f32::from_bits(value.bits as u32), 1.0);
    }

    let packet = packet_parser.next().unwrap().unwrap();
    assert_eq!(packet.id, 2);
    assert_eq!(packet.values.len(), 2);
    for value in packet.values {
        assert_eq!(f32::from_bits(value.bits as u32), 1.0);
    }
}

#[test]
fn parser_ends_cleanly_at_a_packet_boundary() {
    let mut parser = PacketParser::new(vec![0x02, 0, 0, 0, 1, 0, 0, 0, 2], example_config());

    let packet = parser.next().unwrap().unwrap();
    assert_eq!(packet.id, 2);
    assert_eq!(packet.values, vec![Value { bits: 1 }, Value { bits: 2 }]);
    assert!(parser.next().is_none());
    assert!(parser.next().is_none());
}

#[test]
fn parser_of_an_empty_log_yields_nothing() {
    let mut parser = PacketParser::new(vec![], example_config());

    assert!(parser.next().is_none());
}

#[test]
fn parser_reports_a_log_that_ends_inside_a_value() {
    let mut parser = PacketParser::new(vec![0x02, 0, 0, 0, 1, 0, 0], example_config());

    assert_eq!(parser.next().unwrap().unwrap_err(), PacketError::TruncatedRead);
    assert!(parser.next().is_none());
}

#[test]
fn parser_reports_a_log_that_ends_behind_the_id() {
    let mut parser = PacketParser::new(vec![0x01], example_config());

    assert_eq!(parser.next().unwrap().unwrap_err(), PacketError::TruncatedRead);
    assert!(parser.next().is_none());
}

#[test]
fn parser_goes_on_behind_an_unknown_id() {
    let mut parser = PacketParser::new(
        vec![0x05, 0x02, 0, 0, 0, 1, 0, 0, 0, 2, 0xff],
        example_config(),
    );

    assert_eq!(parser.next().unwrap().unwrap_err(), PacketError::InvalidId(5));
    let packet = parser.next().unwrap().unwrap();
    assert_eq!(packet.id, 2);
    assert_eq!(packet.values, vec![Value { bits: 1 }, Value { bits: 2 }]);
    assert_eq!(parser.next().unwrap().unwrap_err(), PacketError::InvalidId(255));
    assert!(parser.next().is_none());
}

#[test]
fn parser_reads_each_kind_in_big_endian() {
    let log = vec![
        7, 0xfe, 0x12, 0x34, 0xff, 0xff, 0xff, 0xfd, 0x3f, 0xf8, 0, 0, 0, 0, 0, 0, 9, 9,
    ];
    let mut parser = PacketParser::new(log, mixed_config(Endianess::Big));

    let packet = parser.next().unwrap().unwrap();
    assert_eq!(packet.id, 7);
    assert_eq!(packet.values.len(), 4);
    assert_eq!(packet.values[0].number_of(&ValueKind::Int8), -2);
    assert_eq!(packet.values[1].number_of(&ValueKind::UInt16), 0x1234);
    assert_eq!(packet.values[2].number_of(&ValueKind::Int32), -3);
    assert_eq!(f64::from_bits(packet.values[3].bits), 1.5);
    for _ in 0..2 {
        let packet = parser.next().unwrap().unwrap();
        assert_eq!(packet.id, 9);
        assert!(packet.values.is_empty());
    }
    assert!(parser.next().is_none());
}

#[test]
fn parser_reads_each_kind_in_little_endian() {
    let log = vec![7, 0xfe, 0x34, 0x12, 0xfd, 0xff, 0xff, 0xff, 0, 0, 0, 0, 0, 0, 0xf8, 0x3f];
    let mut parser = PacketParser::new(log, mixed_config(Endianess::Little));

    let packet = parser.next().unwrap().unwrap();
    assert_eq!(packet.values[0].number_of(&ValueKind::Int8), -2);
    assert_eq!(packet.values[1].number_of(&ValueKind::UInt16), 0x1234);
    assert_eq!(packet.values[2].number_of(&ValueKind::Int32), -3);
    assert_eq!(f64::from_bits(packet.values[3].bits), 1.5);
    assert!(parser.next().is_none());
}

#[test]
fn parser_is_a_source() {
    fn drain<S: SourceIterator>(source: &mut S) -> usize {
        let mut count = 0;
        while let Some(_) = source.next() {
            count += 1;
        }
        count
    }
    let mut parser = PacketParser::new(
        vec![0x02, 0, 0, 0, 1, 0, 0, 0, 2, 0x06, 0x01, 0],
        example_config(),
    );

    assert_eq!(drain(&mut parser), 3);
}

const KINDS: [ValueKind; 10] = [
    ValueKind::Int8,
    ValueKind::Int16,
    ValueKind::Int32,
    ValueKind::Int64,
    ValueKind::UInt8,
    ValueKind::UInt16,
    ValueKind::UInt32,
    ValueKind::UInt64,
    ValueKind::Float32,
    ValueKind::Float64,
];

#[test]
fn values_round_trip_through_bytes() {
    let patterns: [[u8; 8]; 6] = [
        [0, 0, 0, 0, 0, 0, 0, 0],
        [0xff, 0xff, 0xff, 0xff, 0xff, 0xff, 0xff, 0xff],
        [0x01, 0x23, 0x45, 0x67, 0x89, 0xab, 0xcd, 0xef],
        [0x7f, 0xc0, 0x00, 0x01, 0x7f, 0xf8, 0x00, 0x01],
        [0x7f, 0x80, 0x00, 0x00, 0xff, 0xf0, 0x00, 0x00],
        [0x80, 0x00, 0x00, 0x00, 0x00, 0x00, 0x00, 0x01],
    ];
    for kind in KINDS {
        let width = kind.byte_width();
        for endianess in [Endianess::Big, Endianess::Little] {
            for pattern in patterns {
                let bytes = &pattern[..width];
                let value = Value::from_bytes(bytes, &kind, &endianess).unwrap();
                assert_eq!(value.to_bytes(&kind, &endianess), bytes);
                // Bytes beyond the value are not touched.
                let value = Value::from_bytes(&pattern, &kind, &endianess).unwrap();
                assert_eq!(value.to_bytes(&kind, &endianess), bytes);
            }
            if width > 1 {
                assert_eq!(
                    Value::from_bytes(&patterns[2][..width - 1], &kind, &endianess),
                    Err(PacketError::TruncatedRead)
                );
            }
        }
    }
}

#[test]
fn float_patterns_survive_decoding() {
    for x in [f32::NAN, f32::INFINITY, f32::NEG_INFINITY, -0.0, 1.0e-40, 3.25] {
        let value = Value::from_bytes(&x.to_be_bytes(), &ValueKind::Float32, &Endianess::Big);
        assert_eq!(value.unwrap().bits, x.to_bits() as u64);
        let value = Value::from_bytes(&x.to_le_bytes(), &ValueKind::Float32, &Endianess::Little);
        assert_eq!(value.unwrap().bits, x.to_bits() as u64);
    }
    for x in [f64::NAN, f64::INFINITY, f64::NEG_INFINITY, -0.0, 1.0e-310, 3.25] {
        let value = Value::from_bytes(&x.to_be_bytes(), &ValueKind::Float64, &Endianess::Big);
        assert_eq!(value.unwrap().bits, x.to_bits());
        let value = Value::from_bytes(&x.to_le_bytes(), &ValueKind::Float64, &Endianess::Little);
        assert_eq!(value.unwrap().bits, x.to_bits());
    }
}

#[test]
fn integers_decode_as_std_does() {
    let bytes = [0x80, 0x01, 0xfe, 0x7f, 0x00, 0xff, 0x10, 0x81];
    let be = &Endianess::Big;
    let le = &Endianess::Little;
    let number = |kind: ValueKind, endianess: &Endianess| {
        Value::from_bytes(&bytes, &kind, endianess).unwrap().number_of(&kind)
    };

    assert_eq!(number(ValueKind::Int8, be), i8::from_be_bytes([0x80]) as i128);
    assert_eq!(number(ValueKind::UInt8, le), 0x80);
    assert_eq!(number(ValueKind::Int16, be), i16::from_be_bytes([0x80, 0x01]) as i128);
    assert_eq!(number(ValueKind::Int16, le), i16::from_le_bytes([0x80, 0x01]) as i128);
    assert_eq!(number(ValueKind::UInt16, be), 0x8001);
    assert_eq!(number(ValueKind::UInt16, le), 0x0180);
    assert_eq!(
        number(ValueKind::Int32, be),
        i32::from_be_bytes([0x80, 0x01, 0xfe, 0x7f]) as i128
    );
    assert_eq!(
        number(ValueKind::Int32, le),
        i32::from_le_bytes([0x80, 0x01, 0xfe, 0x7f]) as i128
    );
    assert_eq!(number(ValueKind::UInt32, be), 0x8001_fe7f);
    assert_eq!(number(ValueKind::Int64, be), i64::from_be_bytes(bytes) as i128);
    assert_eq!(number(ValueKind::Int64, le), i64::from_le_bytes(bytes) as i128);
    assert_eq!(number(ValueKind::UInt64, be), u64::from_be_bytes(bytes) as i128);
    assert_eq!(number(ValueKind::UInt64, le), u64::from_le_bytes(bytes) as i128);
}

#[test]
fn values_render_by_their_kind() {
    let all_ones = Value { bits: u64::MAX };

    assert_eq!(Value { bits: 42 }.to_string(&ValueKind::Int8), "42");
    assert_eq!(Value { bits: 42.42f32.to_bits() as u64 }.to_string(&ValueKind::Float32), "42.41999817");
    assert_eq!(all_ones.to_string(&ValueKind::Int8), "-1");
    assert_eq!(all_ones.to_string(&ValueKind::Int16), "-1");
    assert_eq!(all_ones.to_string(&ValueKind::Int32), "-1");
    assert_eq!(all_ones.to_string(&ValueKind::Int64), "-1");
    assert_eq!(all_ones.to_string(&ValueKind::UInt8), "255");
    assert_eq!(all_ones.to_string(&ValueKind::UInt16), "65535");
    assert_eq!(all_ones.to_string(&ValueKind::UInt32), "4294967295");
    assert_eq!(all_ones.to_string(&ValueKind::UInt64), "18446744073709551615");
    assert_eq!(all_ones.to_string(&ValueKind::Float32), "NaN");
    assert_eq!(Value { bits: 0x80 }.to_string(&ValueKind::Int8), "-128");
    assert_eq!(Value { bits: 1 << 63 }.to_string(&ValueKind::Int64), "-9223372036854775808");
    assert_eq!(Value { bits: 0 }.to_string(&ValueKind::UInt32), "0");
    assert_eq!(Value { bits: 2.5f64.to_bits() }.to_string(&ValueKind::Float64), "2.50000000");
    assert_eq!(
        TypedValue::new(Value { bits: 1000 }, &ValueKind::UInt16).to_string(),
        "1000"
    );
}

fn float_32(x: f32) -> TypedValue {
    TypedValue::new(Value { bits: x.to_bits() as u64 }, &ValueKind::Float32)
}

fn float_64(x: f64) -> TypedValue {
    TypedValue::new(Value { bits: x.to_bits() }, &ValueKind::Float64)
}

#[test]
fn typed_values_know_the_smaller_and_the_larger() {
    let small = TypedValue::new(Value { bits: 0xfffe }, &ValueKind::Int16);
    let large = TypedValue::new(Value { bits: 3 }, &ValueKind::Int16);
    let unsigned = TypedValue::new(Value { bits: 3 }, &ValueKind::UInt16);

    assert_eq!(small.partial_min(&large), Some(small));
    assert_eq!(large.partial_min(&small), Some(small));
    assert_eq!(small.partial_max(&large), Some(large));
    assert_eq!(large.partial_max(&small), Some(large));
    assert_eq!(large.partial_min(&large), Some(large));
    assert_eq!(large.partial_min(&unsigned), None);
    assert_eq!(large.partial_max(&unsigned), None);
    assert_eq!(float_32(-1.5).partial_min(&float_32(0.25)), Some(float_32(-1.5)));
    assert_eq!(float_32(-1.5).partial_max(&float_32(0.25)), Some(float_32(0.25)));
    assert_eq!(float_64(-0.0).partial_min(&float_64(0.0)), Some(float_64(-0.0)));
    assert_eq!(float_64(1e300).partial_max(&float_64(f64::INFINITY)), Some(float_64(f64::INFINITY)));
}

#[test]
fn float_order_is_the_total_order_of_std() {
    let singles = [
        f32::NEG_INFINITY, f32::MIN, -1.0, -1.0e-40, -0.0, 0.0, 1.0e-40, 1.0, f32::MAX,
        f32::INFINITY, f32::NAN, -f32::NAN,
    ];
    for a in singles {
        for b in singles {
            let expected = a.total_cmp(&b);
            let (ka, kb) = (
                float_32(a).value.order_key_of(&ValueKind::Float32),
                float_32(b).value.order_key_of(&ValueKind::Float32),
            );
            assert_eq!(ka.cmp(&kb), expected);
        }
    }
    let doubles = [
        f64::NEG_INFINITY, f64::MIN, -1.0, -1.0e-310, -0.0, 0.0, 1.0e-310, 1.0, f64::MAX,
        f64::INFINITY, f64::NAN, -f64::NAN,
    ];
    for a in doubles {
        for b in doubles {
            let expected = a.total_cmp(&b);
            let (ka, kb) = (
                float_64(a).value.order_key_of(&ValueKind::Float64),
                float_64(b).value.order_key_of(&ValueKind::Float64),
            );
            assert_eq!(ka.cmp(&kb), expected);
        }
    }
}

#[test]
fn packet_errors_say_what_went_wrong() {
    assert_eq!(PacketError::InvalidId(200).to_string(), "Invalid packet id: 200");
    assert_eq!(
        PacketError::InvalidValueCount { actual: 2, expected: 13 }.to_string(),
        "Invalid value count: expected 13, got 2"
    );
    assert_eq!(
        PacketError::TruncatedRead.to_string(),
        "Truncated read: the data ends inside a packet"
    );
}

#[test]
fn packets_clone() {
    let packet = Packet { id: 3, values: vec![Value { bits: 1 }, Value { bits: 2 }] };
    let copy = packet.clone();

    assert_eq!(copy.id, 3);
    assert_eq!(copy.values, packet.values);
}
