use flight_data_reader::configuration::{
    ConfigError, Endianess, RocketConfig, SensorConfig, ValueConfig, ValueKind,
};

fn sensor(name: &str, id: u8) -> SensorConfig {
    SensorConfig { name: name.to_string(), id, values: vec![] }
}

fn rocket(sensors: Vec<SensorConfig>) -> RocketConfig {
    RocketConfig {
        name: "test".to_string(),
        sensors,
        endianess: Endianess::default(),
        display_name: None,
        description: None,
    }
}

#[test]
fn test_validate_with_conflicting_ids() {
    let config = rocket(vec![sensor("sensor_a", 4), sensor("sensor_b", 4)]);

    assert!(config.validate().is_err());
}

#[test]
fn test_validate_normal() {
    let config = rocket(vec![sensor("sensor_a", 4), sensor("sensor_b", 7)]);

    assert!(config.validate().is_ok());
}

#[test]
fn test_sensor_by_id() {
    let config = rocket(vec![sensor("sensor_a", 4), sensor("sensor_b", 7)]);

    assert_eq!(config.get_sensor_by_id(4).unwrap().name, "sensor_a");
    assert_eq!(config.get_sensor_by_id(7).unwrap().name, "sensor_b");
    assert!(config.get_sensor_by_id(8).is_none());
}

#[test]
fn validate_names_the_first_repeated_id() {
    let config = rocket(vec![
        sensor("a", 1),
        sensor("b", 9),
        sensor("c", 3),
        sensor("d", 9),
        sensor("e", 1),
    ]);

    assert_eq!(config.validate(), Err(ConfigError::DuplicateSensorId(9)));
    assert_eq!(config.validate().unwrap_err().to_string(), "Multiple sensors with ID: 9");
}

#[test]
fn validate_accepts_an_empty_configuration() {
    assert_eq!(rocket(vec![]).validate(), Ok(()));
}

#[test]
fn validate_accepts_all_ids_at_once() {
    let sensors = (0..=255u8).map(|id| sensor("s", id)).collect();

    assert_eq!(rocket(sensors).validate(), Ok(()));
}

#[test]
fn sensor_by_id_covers_every_id() {
    let config = rocket(vec![sensor("low", 0), sensor("high", 255), sensor("mid", 100)]);

    for id in 0..=255u8 {
        let found = config.get_sensor_by_id(id);
        match id {
            0 => assert_eq!(found.unwrap().name, "low"),
            100 => assert_eq!(found.unwrap().name, "mid"),
            255 => assert_eq!(found.unwrap().name, "high"),
            _ => assert!(found.is_none()),
        }
    }
}

#[test]
fn sensor_by_id_takes_the_first_of_two() {
    let config = rocket(vec![sensor("first", 4), sensor("second", 4)]);

    assert_eq!(config.get_sensor_by_id(4).unwrap().name, "first");
    assert_eq!(config.position_of_id(4), Some(0));
    assert_eq!(config.position_of_id(5), None);
}

#[test]
fn display_name_falls_back_to_the_name() {
    let mut config = rocket(vec![]);
    assert_eq!(config.display_name(), "test");

    config.display_name = Some("Test Rocket".to_string());
    assert_eq!(config.display_name(), "Test Rocket");
}

#[test]
fn endianess_defaults_to_big() {
    assert!(Endianess::default().is_big());
    assert!(Endianess::Big.is_big());
    assert!(!Endianess::Little.is_big());
}

#[test]
fn value_kinds_have_their_widths_and_tags() {
    let expected = [
        (ValueKind::Int8, 1, "int_8"),
        (ValueKind::Int16, 2, "int_16"),
        (ValueKind::Int32, 4, "int_32"),
        (ValueKind::Int64, 8, "int_64"),
        (ValueKind::UInt8, 1, "uint_8"),
        (ValueKind::UInt16, 2, "uint_16"),
        (ValueKind::UInt32, 4, "uint_32"),
        (ValueKind::UInt64, 8, "uint_64"),
        (ValueKind::Float32, 4, "float_32"),
        (ValueKind::Float64, 8, "float_64"),
    ];

    for (kind, width, tag) in expected {
        assert_eq!(kind.byte_width(), width);
        assert_eq!(kind.to_string(), tag);
    }
}

#[test]
fn clones_say_the_same() {
    let config = RocketConfig {
        name: "test".to_string(),
        sensors: vec![SensorConfig {
            name: "imu".to_string(),
            id: 3,
            values: vec![ValueConfig { name: "x".to_string(), data_type: ValueKind::Int16 }],
        }],
        endianess: Endianess::Little,
        display_name: Some("Test".to_string()),
        description: None,
    };

    let copy = config.clone();

    assert_eq!(copy.name, "test");
    assert_eq!(copy.sensors.len(), 1);
    assert_eq!(copy.sensors[0].name, "imu");
    assert_eq!(copy.sensors[0].id, 3);
    assert_eq!(copy.sensors[0].values[0].name, "x");
    assert_eq!(copy.sensors[0].values[0].data_type, ValueKind::Int16);
    assert_eq!(copy.endianess, Endianess::Little);
    assert_eq!(copy.display_name, Some("Test".to_string()));
    assert_eq!(copy.description, None);
}
