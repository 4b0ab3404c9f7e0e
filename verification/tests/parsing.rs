use sensors_oracle::codec::de_string_to_sensor_type;
use sensors_oracle::codec::de_string_to_sensor_value;
use sensors_oracle::codec::sensor_type_name;
use sensors_oracle::parse::de_string_to_geolocation;
use sensors_oracle::parse::parse_batch;
use sensors_oracle::types::Error;
use sensors_oracle::types::Geolocation;
use sensors_oracle::types::SensorType;
use sensors_oracle::types::SensorValue;

#[test]
fn kind_round_trip_all_variants() {
    let kinds = [
        SensorType::Humidity,
        SensorType::Temperature,
        SensorType::Pressure,
        SensorType::Digital,
    ];
    for k in kinds {
        let name = sensor_type_name(k);
        assert_eq!(de_string_to_sensor_type(&name), Ok(k));
    }
}

#[test]
fn kind_names_are_exact() {
    assert_eq!(sensor_type_name(SensorType::Humidity), b"Humidity".to_vec());
    assert_eq!(
        sensor_type_name(SensorType::Temperature),
        b"Temperature".to_vec()
    );
    assert_eq!(sensor_type_name(SensorType::Pressure), b"Pressure".to_vec());
    assert_eq!(sensor_type_name(SensorType::Digital), b"Digital".to_vec());
}

#[test]
fn unknown_kind_is_error_not_default() {
    assert_eq!(
        de_string_to_sensor_type(b"Foo"),
        Err(Error::UnknownSensorKind)
    );
    assert_eq!(
        de_string_to_sensor_type(b"humidity"),
        Err(Error::UnknownSensorKind)
    );
    assert_eq!(de_string_to_sensor_type(b""), Err(Error::UnknownSensorKind));
}

#[test]
fn value_booleans() {
    assert_eq!(
        de_string_to_sensor_value(b"true"),
        Ok(SensorValue::Bool(true))
    );
    assert_eq!(
        de_string_to_sensor_value(b"false"),
        Ok(SensorValue::Bool(false))
    );
}

#[test]
fn value_numbers() {
    assert_eq!(de_string_to_sensor_value(b"42"), Ok(SensorValue::Number(42)));
    assert_eq!(de_string_to_sensor_value(b"0"), Ok(SensorValue::Number(0)));
    assert_eq!(de_string_to_sensor_value(b"007"), Ok(SensorValue::Number(7)));
    assert_eq!(
        de_string_to_sensor_value(b"4294967295"),
        Ok(SensorValue::Number(u32::MAX))
    );
}

#[test]
fn value_invalid_is_error_not_zero() {
    assert_eq!(
        de_string_to_sensor_value(b"abc"),
        Err(Error::InvalidSensorValue)
    );
    assert_eq!(de_string_to_sensor_value(b""), Err(Error::InvalidSensorValue));
    assert_eq!(
        de_string_to_sensor_value(b"12a"),
        Err(Error::InvalidSensorValue)
    );
    assert_eq!(
        de_string_to_sensor_value(b"-1"),
        Err(Error::InvalidSensorValue)
    );
    assert_eq!(
        de_string_to_sensor_value(b"4294967296"),
        Err(Error::InvalidSensorValue)
    );
    assert_eq!(
        de_string_to_sensor_value(b"99999999999999999999999"),
        Err(Error::InvalidSensorValue)
    );
}

#[test]
fn geolocation_decodes() {
    assert_eq!(
        de_string_to_geolocation(br#"{"lat":10,"lon":20}"#),
        Ok(Geolocation { lat: 10, lon: 20 })
    );
    assert_eq!(
        de_string_to_geolocation(b" { \"lat\" : 3 , \"lon\" : 4 } "),
        Ok(Geolocation { lat: 3, lon: 4 })
    );
}

#[test]
fn geolocation_malformed() {
    assert_eq!(
        de_string_to_geolocation(br#"{"lat":10}"#),
        Err(Error::MalformedJson)
    );
    assert_eq!(
        de_string_to_geolocation(br#"{"lon":20,"lat":10}"#),
        Err(Error::MalformedJson)
    );
    assert_eq!(de_string_to_geolocation(b""), Err(Error::MalformedJson));
    assert_eq!(
        de_string_to_geolocation(br#"{"lat":10,"lon":20} x"#),
        Err(Error::MalformedJson)
    );
}

#[test]
fn batch_single_record() {
    let body = br#"[{"id":1,"type":"Temperature","geolocation":{"lat":10,"lon":20},"value":"42","timestamp":1000}]"#;
    let batch = parse_batch(body).unwrap();
    assert_eq!(batch.len(), 1);
    let rec = batch[0];
    assert_eq!(rec.id, 1);
    assert_eq!(rec.type_, SensorType::Temperature);
    assert_eq!(rec.geolocation, Geolocation { lat: 10, lon: 20 });
    assert_eq!(rec.value, SensorValue::Number(42));
    assert_eq!(rec.timestamp, 1000);
}

#[test]
fn batch_empty_array() {
    assert_eq!(parse_batch(b"[]").unwrap().len(), 0);
    assert_eq!(parse_batch(b"  [ ]  ").unwrap().len(), 0);
}

#[test]
fn batch_two_records_in_order() {
    let body = br#"[
        {"id":1,"type":"Humidity","geolocation":{"lat":0,"lon":0},"value":"true","timestamp":5},
        {"id":2,"type":"Digital","geolocation":{"lat":7,"lon":8},"value":"false","timestamp":6}
    ]"#;
    let batch = parse_batch(body).unwrap();
    assert_eq!(batch.len(), 2);
    assert_eq!(batch[0].id, 1);
    assert_eq!(batch[0].type_, SensorType::Humidity);
    assert_eq!(batch[0].value, SensorValue::Bool(true));
    assert_eq!(batch[1].id, 2);
    assert_eq!(batch[1].type_, SensorType::Digital);
    assert_eq!(batch[1].value, SensorValue::Bool(false));
}

#[test]
fn batch_whitespace_tolerated() {
    let body = b" [ { \"id\" : 9 , \"type\" : \"Pressure\" , \"geolocation\" : { \"lat\" : 1 , \"lon\" : 2 } , \"value\" : \"3\" , \"timestamp\" : 4 } ] ";
    let batch = parse_batch(body).unwrap();
    assert_eq!(batch.len(), 1);
    assert_eq!(batch[0].id, 9);
    assert_eq!(batch[0].type_, SensorType::Pressure);
}

#[test]
fn batch_structural_faults() {
    assert_eq!(parse_batch(b""), Err(Error::MalformedJson));
    assert_eq!(parse_batch(b"{}"), Err(Error::MalformedJson));
    assert_eq!(parse_batch(b"["), Err(Error::MalformedJson));
    let missing_field = br#"[{"id":1,"type":"Digital","value":"1","timestamp":2}]"#;
    assert_eq!(parse_batch(missing_field), Err(Error::MalformedJson));
    let trailing = br#"[{"id":1,"type":"Digital","geolocation":{"lat":1,"lon":2},"value":"1","timestamp":2}] x"#;
    assert_eq!(parse_batch(trailing), Err(Error::MalformedJson));
    let unclosed = br#"[{"id":1,"type":"Digital","geolocation":{"lat":1,"lon":2},"value":"1","timestamp":2}"#;
    assert_eq!(parse_batch(unclosed), Err(Error::MalformedJson));
}

#[test]
fn batch_unknown_kind_fails_whole_batch() {
    let body = br#"[
        {"id":1,"type":"Humidity","geolocation":{"lat":0,"lon":0},"value":"1","timestamp":1},
        {"id":2,"type":"Foo","geolocation":{"lat":0,"lon":0},"value":"1","timestamp":1}
    ]"#;
    assert_eq!(parse_batch(body), Err(Error::UnknownSensorKind));
}

#[test]
fn batch_invalid_value_fails_whole_batch() {
    let body = br#"[{"id":1,"type":"Humidity","geolocation":{"lat":0,"lon":0},"value":"warm","timestamp":1}]"#;
    assert_eq!(parse_batch(body), Err(Error::InvalidSensorValue));
}

#[test]
fn batch_number_bounds() {
    let id_too_big = br#"[{"id":4294967296,"type":"Digital","geolocation":{"lat":1,"lon":2},"value":"1","timestamp":2}]"#;
    assert_eq!(parse_batch(id_too_big), Err(Error::MalformedJson));
    let ts_max = br#"[{"id":1,"type":"Digital","geolocation":{"lat":1,"lon":2},"value":"1","timestamp":18446744073709551615}]"#;
    let batch = parse_batch(ts_max).unwrap();
    assert_eq!(batch[0].timestamp, u64::MAX);
    let ts_too_big = br#"[{"id":1,"type":"Digital","geolocation":{"lat":1,"lon":2},"value":"1","timestamp":18446744073709551616}]"#;
    assert_eq!(parse_batch(ts_too_big), Err(Error::MalformedJson));
}
