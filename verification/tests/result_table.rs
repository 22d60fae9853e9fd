use flight_data_reader::configuration::{
    Endianess, RocketConfig, SensorConfig, ValueConfig, ValueKind,
};
use flight_data_reader::data::{Packet, PacketError, PacketParser, TypedValue, Value};
use flight_data_reader::result_table::{PacketList, SourceIterator, TableGenerator};

fn test_config() -> RocketConfig {
    RocketConfig {
        name: "test".to_string(),
        endianess: Endianess::default(),
        display_name: None,
        description: None,
        sensors: vec![SensorConfig {
            id: 0,
            name: "test".to_string(),
            values: vec![
                ValueConfig { name: "value".to_string(), data_type: ValueKind::Float32 },
                ValueConfig { name: "value2".to_string(), data_type: ValueKind::Int32 },
            ],
        }],
    }
}

fn float_32(x: f32) -> Value {
    Value { bits: x.to_bits() as u64 }
}

fn int_32(x: i32) -> Value {
    Value { bits: x as u32 as u64 }
}

fn test_packets() -> Vec<Packet> {
    vec![
        Packet { id: 0, values: vec![float_32(1.0), int_32(1)] },
        Packet { id: 0, values: vec![float_32(2.0), int_32(2)] },
        Packet { id: 0, values: vec![float_32(3.0), int_32(3)] },
    ]
}

fn typed_f32(x: f32) -> Option<TypedValue> {
    Some(TypedValue::new(float_32(x), &ValueKind::Float32))
}

fn typed_i32(x: i32) -> Option<TypedValue> {
    Some(TypedValue::new(int_32(x), &ValueKind::Int32))
}

#[test]
fn test_basic_column_generation() {
    let mut table = TableGenerator::new(PacketList::new(test_packets()), test_config().clone());

    assert_eq!(table.column_names(), vec!["test_value", "test_value2"]);
    assert_eq!(table.next().unwrap().unwrap(), vec![typed_f32(1.0), typed_i32(1)]);
    assert_eq!(table.next().unwrap().unwrap(), vec![typed_f32(2.0), typed_i32(2)]);
    assert_eq!(table.next().unwrap().unwrap(), vec![typed_f32(3.0), typed_i32(3)]);
    assert_eq!(table.next().is_none(), true);
}

fn two_sensors() -> RocketConfig {
    RocketConfig {
        name: "pair".to_string(),
        endianess: Endianess::Big,
        display_name: None,
        description: None,
        sensors: vec![
            SensorConfig {
                id: 1,
                name: "A".to_string(),
                values: vec![ValueConfig { name: "a".to_string(), data_type: ValueKind::UInt8 }],
            },
            SensorConfig {
                id: 2,
                name: "B".to_string(),
                values: vec![ValueConfig { name: "b".to_string(), data_type: ValueKind::Int8 }],
            },
        ],
    }
}

fn a(bits: u64) -> Packet {
    Packet { id: 1, values: vec![Value { bits }] }
}

fn b(bits: u64) -> Packet {
    Packet { id: 2, values: vec![Value { bits }] }
}

fn cell_a(bits: u64) -> Option<TypedValue> {
    Some(TypedValue::new(Value { bits }, &ValueKind::UInt8))
}

fn cell_b(bits: u64) -> Option<TypedValue> {
    Some(TypedValue::new(Value { bits }, &ValueKind::Int8))
}

#[test]
fn sparse_rows_keep_their_empty_slots() {
    let packets = PacketList::new(vec![a(10), b(20), a(11)]);
    let mut table = TableGenerator::new(packets, two_sensors());

    assert_eq!(table.next().unwrap().unwrap(), vec![cell_a(10), cell_b(20)]);
    assert_eq!(table.next().unwrap().unwrap(), vec![cell_a(11), None]);
    assert!(table.next().is_none());
    assert!(table.next().is_none());
}

#[test]
fn a_fast_sensor_closes_row_after_row() {
    let packets = PacketList::new(vec![b(1), b(2), a(3), a(4), b(5)]);
    let mut table = TableGenerator::new(packets, two_sensors());

    assert_eq!(table.next().unwrap().unwrap(), vec![None, cell_b(1)]);
    assert_eq!(table.next().unwrap().unwrap(), vec![cell_a(3), cell_b(2)]);
    assert_eq!(table.next().unwrap().unwrap(), vec![cell_a(4), cell_b(5)]);
    assert!(table.next().is_none());
}

#[test]
fn table_of_nothing_has_no_rows() {
    let mut table = TableGenerator::new(PacketList::new(vec![]), two_sensors());

    assert_eq!(table.column_names(), vec!["A_a", "B_b"]);
    assert!(table.next().is_none());
}

#[test]
fn unknown_sensor_ends_the_pull() {
    let stray = Packet { id: 9, values: vec![] };
    let mut table = TableGenerator::new(PacketList::new(vec![a(1), stray, b(2)]), two_sensors());

    assert_eq!(table.next().unwrap().unwrap_err(), PacketError::InvalidId(9));
    // The stray packet and the row begun before it are gone.
    assert_eq!(table.next().unwrap().unwrap(), vec![None, cell_b(2)]);
    assert!(table.next().is_none());
}

#[test]
fn wrong_value_count_ends_the_pull() {
    let long = Packet { id: 1, values: vec![Value { bits: 1 }, Value { bits: 2 }] };
    let mut table = TableGenerator::new(PacketList::new(vec![long, a(7)]), two_sensors());

    assert_eq!(
        table.next().unwrap().unwrap_err(),
        PacketError::InvalidValueCount { actual: 2, expected: 1 }
    );
    assert_eq!(table.next().unwrap().unwrap(), vec![cell_a(7), None]);
    assert!(table.next().is_none());
}

#[test]
fn source_errors_pass_through_the_table() {
    let items = vec![Ok(a(1)), Err(PacketError::TruncatedRead), Ok(b(2))];
    let mut table = TableGenerator::new(PacketList::from_items(items), two_sensors());

    assert_eq!(table.next().unwrap().unwrap_err(), PacketError::TruncatedRead);
    assert_eq!(table.next().unwrap().unwrap(), vec![None, cell_b(2)]);
    assert!(table.next().is_none());
}

#[test]
fn a_packet_kept_for_the_next_row_may_be_the_last() {
    let mut table = TableGenerator::new(PacketList::new(vec![a(1), a(2)]), two_sensors());

    assert_eq!(table.next().unwrap().unwrap(), vec![cell_a(1), None]);
    assert_eq!(table.next().unwrap().unwrap(), vec![cell_a(2), None]);
    assert!(table.next().is_none());
}

#[test]
fn rows_come_straight_from_a_log() {
    let log = vec![1, 200, 2, 0xff, 1, 201, 3, 1, 202];
    let mut table = TableGenerator::new(PacketParser::new(log, two_sensors()), two_sensors());

    assert_eq!(table.next().unwrap().unwrap(), vec![cell_a(200), cell_b(0xff)]);
    assert_eq!(table.next().unwrap().unwrap_err(), PacketError::InvalidId(3));
    assert_eq!(table.next().unwrap().unwrap(), vec![cell_a(202), None]);
    assert!(table.next().is_none());
}

#[test]
fn columns_follow_the_configuration() {
    let mut config = two_sensors();
    config.sensors[1].values.push(ValueConfig {
        name: "c".to_string(),
        data_type: ValueKind::Float64,
    });
    config.sensors.push(SensorConfig { id: 3, name: "E".to_string(), values: vec![] });

    let first = TableGenerator::<PacketList>::columns(&config);
    let second = TableGenerator::<PacketList>::columns(&config);

    assert_eq!(first, vec!["A_a", "B_b", "B_c"]);
    assert_eq!(first, second);
    assert_eq!(
        TableGenerator::<PacketList>::column_name(&config.sensors[1], &config.sensors[1].values[1]),
        "B_c"
    );
}

#[test]
fn columns_of_one_name_share_their_value() {
    let config = RocketConfig {
        name: "twins".to_string(),
        endianess: Endianess::Big,
        display_name: None,
        description: None,
        sensors: vec![SensorConfig {
            id: 1,
            name: "s".to_string(),
            values: vec![
                ValueConfig { name: "v".to_string(), data_type: ValueKind::UInt8 },
                ValueConfig { name: "v".to_string(), data_type: ValueKind::UInt8 },
            ],
        }],
    };
    let packet = Packet { id: 1, values: vec![Value { bits: 1 }, Value { bits: 2 }] };
    let mut table = TableGenerator::new(PacketList::new(vec![packet]), config);

    // Both columns go by the name `s_v`, and the later value stays.
    assert_eq!(table.next().unwrap().unwrap(), vec![cell_a(2), cell_a(2)]);
    assert!(table.next().is_none());
}

#[test]
fn packet_lists_hand_out_in_order() {
    let mut list = PacketList::new(vec![a(1), b(2)]);

    assert_eq!(list.next().unwrap().unwrap().id, 1);
    assert_eq!(list.next().unwrap().unwrap().id, 2);
    assert!(list.next().is_none());
}
