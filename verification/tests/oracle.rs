use sensors_oracle::ingest::run_cycle;
use sensors_oracle::ingest::update_sensors_data;
use sensors_oracle::ingest::FetchOutcome;
use sensors_oracle::registry::AuthorityRegistry;
use sensors_oracle::registry::DEFAULT_MAX_AUTHORITIES;
use sensors_oracle::store::SensorStore;
use sensors_oracle::types::CycleResult;
use sensors_oracle::types::Error;
use sensors_oracle::types::Event;
use sensors_oracle::types::Geolocation;
use sensors_oracle::types::Origin;
use sensors_oracle::types::SensorData;
use sensors_oracle::types::SensorType;
use sensors_oracle::types::SensorValue;

fn record(id: u32, type_: SensorType, value: SensorValue, timestamp: u64) -> SensorData {
    SensorData {
        id,
        type_,
        geolocation: Geolocation { lat: 10, lon: 20 },
        value,
        timestamp,
    }
}

const PAYLOAD: &[u8] = br#"[{"id":1,"type":"Temperature","geolocation":{"lat":10,"lon":20},"value":"42","timestamp":1000}]"#;

#[test]
fn grant_then_is_authority_then_revoke() {
    let mut reg = AuthorityRegistry::new(DEFAULT_MAX_AUTHORITIES);
    assert!(!reg.is_authority(&7));
    assert_eq!(
        reg.add_authority(Origin::Root, 7),
        Ok(Event::AuthorityAdded { authority: 7 })
    );
    assert!(reg.is_authority(&7));
    assert_eq!(
        reg.remove_authority(Origin::Root, 7),
        Ok(Event::AuthorityRemoved { authority: 7 })
    );
    assert!(!reg.is_authority(&7));
}

#[test]
fn registry_demands_root() {
    let mut reg = AuthorityRegistry::new(4);
    assert_eq!(
        reg.add_authority(Origin::Signed(1), 7),
        Err(Error::NotAuthorized)
    );
    assert_eq!(
        reg.remove_authority(Origin::Unsigned, 7),
        Err(Error::NotAuthorized)
    );
    assert!(!reg.is_authority(&7));
}

#[test]
fn registry_refuses_duplicates() {
    let mut reg = AuthorityRegistry::new(4);
    assert!(reg.add_authority(Origin::Root, 7).is_ok());
    assert_eq!(
        reg.add_authority(Origin::Root, 7),
        Err(Error::AlreadyAuthority)
    );
    assert_eq!(reg.authorities().len(), 1);
}

#[test]
fn registry_remove_absent() {
    let mut reg = AuthorityRegistry::new(4);
    assert_eq!(
        reg.remove_authority(Origin::Root, 7),
        Err(Error::NotAuthority)
    );
}

#[test]
fn registry_capacity_is_enforced() {
    let mut reg = AuthorityRegistry::new(2);
    assert!(reg.add_authority(Origin::Root, 1).is_ok());
    assert!(reg.add_authority(Origin::Root, 2).is_ok());
    assert_eq!(
        reg.add_authority(Origin::Root, 3),
        Err(Error::CapacityExceeded)
    );
    assert_eq!(reg.authorities(), &vec![1, 2]);
    assert!(!reg.is_authority(&3));
    assert_eq!(reg.max_authorities(), 2);
}

#[test]
fn registry_removal_keeps_the_others() {
    let mut reg = AuthorityRegistry::new(8);
    for p in [1u64, 2, 3, 4] {
        assert!(reg.add_authority(Origin::Root, p).is_ok());
    }
    assert!(reg.remove_authority(Origin::Root, 2).is_ok());
    assert!(reg.is_authority(&1));
    assert!(!reg.is_authority(&2));
    assert!(reg.is_authority(&3));
    assert!(reg.is_authority(&4));
    assert_eq!(reg.authorities().len(), 3);
}

#[test]
fn store_upsert_overwrites_same_key() {
    let mut store = SensorStore::new();
    let first = record(1, SensorType::Humidity, SensorValue::Number(10), 100);
    let second = record(1, SensorType::Humidity, SensorValue::Number(20), 200);
    assert_eq!(
        store.add_sensor_data(first),
        Event::SensorDataAdded { id: 1, type_: SensorType::Humidity }
    );
    store.add_sensor_data(second);
    assert_eq!(store.get(1, SensorType::Humidity), Some(second));
}

#[test]
fn store_keys_by_id_and_kind() {
    let mut store = SensorStore::new();
    let humid = record(1, SensorType::Humidity, SensorValue::Number(10), 100);
    let temp = record(1, SensorType::Temperature, SensorValue::Number(20), 100);
    store.add_sensor_data(humid);
    store.add_sensor_data(temp);
    assert_eq!(store.get(1, SensorType::Humidity), Some(humid));
    assert_eq!(store.get(1, SensorType::Temperature), Some(temp));
    assert_eq!(store.get(2, SensorType::Humidity), None);
    assert_eq!(store.get(1, SensorType::Digital), None);
    assert!(!store.is_empty());
}

#[test]
fn submission_by_authority_applies_batch() {
    let mut reg = AuthorityRegistry::new(4);
    reg.add_authority(Origin::Root, 7).unwrap();
    let mut store = SensorStore::new();
    let batch = vec![
        record(1, SensorType::Humidity, SensorValue::Number(10), 100),
        record(2, SensorType::Digital, SensorValue::Bool(true), 101),
    ];
    let events = update_sensors_data(&reg, &mut store, Origin::Signed(7), &batch).unwrap();
    assert_eq!(
        events,
        vec![
            Event::SensorDataAdded { id: 1, type_: SensorType::Humidity },
            Event::SensorDataAdded { id: 2, type_: SensorType::Digital },
        ]
    );
    assert_eq!(store.get(1, SensorType::Humidity), Some(batch[0]));
    assert_eq!(store.get(2, SensorType::Digital), Some(batch[1]));
}

#[test]
fn submission_by_non_authority_is_rejected_in_full() {
    let reg = AuthorityRegistry::new(4);
    let mut store = SensorStore::new();
    let batch = vec![record(1, SensorType::Humidity, SensorValue::Number(10), 100)];
    assert_eq!(
        update_sensors_data(&reg, &mut store, Origin::Signed(9), &batch),
        Err(Error::NotAuthority)
    );
    assert!(store.is_empty());
}

#[test]
fn submission_without_signature_is_rejected() {
    let mut reg = AuthorityRegistry::new(4);
    reg.add_authority(Origin::Root, 7).unwrap();
    let mut store = SensorStore::new();
    let batch = vec![record(1, SensorType::Humidity, SensorValue::Number(10), 100)];
    assert_eq!(
        update_sensors_data(&reg, &mut store, Origin::Root, &batch),
        Err(Error::NotAuthorized)
    );
    assert_eq!(
        update_sensors_data(&reg, &mut store, Origin::Unsigned, &batch),
        Err(Error::NotAuthorized)
    );
    assert!(store.is_empty());
}

#[test]
fn applying_a_batch_twice_equals_applying_it_once() {
    let mut reg = AuthorityRegistry::new(4);
    reg.add_authority(Origin::Root, 7).unwrap();
    let batch = vec![
        record(1, SensorType::Humidity, SensorValue::Number(10), 100),
        record(1, SensorType::Humidity, SensorValue::Number(20), 200),
        record(2, SensorType::Digital, SensorValue::Bool(true), 300),
    ];
    let mut once = SensorStore::new();
    update_sensors_data(&reg, &mut once, Origin::Signed(7), &batch).unwrap();
    let mut twice = SensorStore::new();
    update_sensors_data(&reg, &mut twice, Origin::Signed(7), &batch).unwrap();
    update_sensors_data(&reg, &mut twice, Origin::Signed(7), &batch).unwrap();
    for (id, ty) in [
        (1, SensorType::Humidity),
        (2, SensorType::Digital),
        (1, SensorType::Digital),
    ] {
        assert_eq!(once.get(id, ty), twice.get(id, ty));
    }
    // last write of the duplicated key wins in both
    assert_eq!(
        once.get(1, SensorType::Humidity).unwrap().value,
        SensorValue::Number(20)
    );
}

#[test]
fn cycle_http_500_is_unexpected_status() {
    let mut reg = AuthorityRegistry::new(4);
    reg.add_authority(Origin::Root, 7).unwrap();
    let mut store = SensorStore::new();
    let fetch = FetchOutcome::Response { status: 500, body: PAYLOAD.to_vec() };
    let (result, events) = run_cycle(&reg, &mut store, Some(7), &fetch);
    assert_eq!(result, CycleResult::UnexpectedStatus);
    assert!(events.is_empty());
    assert!(store.is_empty());
}

#[test]
fn cycle_applies_authorized_payload() {
    let mut reg = AuthorityRegistry::new(4);
    reg.add_authority(Origin::Root, 7).unwrap();
    let mut store = SensorStore::new();
    let fetch = FetchOutcome::Response { status: 200, body: PAYLOAD.to_vec() };
    let (result, events) = run_cycle(&reg, &mut store, Some(7), &fetch);
    assert_eq!(result, CycleResult::Applied);
    assert_eq!(
        events,
        vec![Event::SensorDataAdded { id: 1, type_: SensorType::Temperature }]
    );
    let stored = store.get(1, SensorType::Temperature).unwrap();
    assert_eq!(stored.value, SensorValue::Number(42));
    assert_eq!(stored.geolocation, Geolocation { lat: 10, lon: 20 });
    assert_eq!(stored.timestamp, 1000);
    assert_eq!(store.get(1, SensorType::Humidity), None);
}

#[test]
fn cycle_rejects_unregistered_submitter() {
    let reg = AuthorityRegistry::new(4);
    let mut store = SensorStore::new();
    let fetch = FetchOutcome::Response { status: 200, body: PAYLOAD.to_vec() };
    let (result, events) = run_cycle(&reg, &mut store, Some(9), &fetch);
    assert_eq!(result, CycleResult::NotAuthority);
    assert!(events.is_empty());
    assert!(store.is_empty());
}

#[test]
fn cycle_transport_failures() {
    let reg = AuthorityRegistry::new(4);
    let mut store = SensorStore::new();
    let (result, _) = run_cycle(&reg, &mut store, Some(7), &FetchOutcome::IoError);
    assert_eq!(result, CycleResult::IoError);
    let (result, _) = run_cycle(&reg, &mut store, Some(7), &FetchOutcome::DeadlineReached);
    assert_eq!(result, CycleResult::DeadlineReached);
    assert!(store.is_empty());
}

#[test]
fn cycle_without_signer() {
    let reg = AuthorityRegistry::new(4);
    let mut store = SensorStore::new();
    let fetch = FetchOutcome::Response { status: 200, body: PAYLOAD.to_vec() };
    let (result, _) = run_cycle(&reg, &mut store, None, &fetch);
    assert_eq!(result, CycleResult::NoSigner);
    assert!(store.is_empty());
}

#[test]
fn cycle_bad_body_is_deserialize_error() {
    let mut reg = AuthorityRegistry::new(4);
    reg.add_authority(Origin::Root, 7).unwrap();
    let mut store = SensorStore::new();
    let fetch = FetchOutcome::Response { status: 200, body: b"not json".to_vec() };
    let (result, _) = run_cycle(&reg, &mut store, Some(7), &fetch);
    assert_eq!(result, CycleResult::DeserializeError(Error::MalformedJson));
    let fetch = FetchOutcome::Response {
        status: 200,
        body: br#"[{"id":1,"type":"Foo","geolocation":{"lat":1,"lon":2},"value":"1","timestamp":2}]"#.to_vec(),
    };
    let (result, _) = run_cycle(&reg, &mut store, Some(7), &fetch);
    assert_eq!(result, CycleResult::DeserializeError(Error::UnknownSensorKind));
    assert!(store.is_empty());
}
