use serialport_api::json::JsonValue;
use serialport_api::storage::{
    validate_request, CreatePreset, InMemoryPresetStore, Preset, PresetStoreError,
};

fn from_serde(value: serde_json::Value) -> JsonValue {
    match value {
        serde_json::Value::Null => JsonValue::Null,
        serde_json::Value::Bool(b) => JsonValue::Bool(b),
        serde_json::Value::Number(n) => JsonValue::Number(n.to_string()),
        serde_json::Value::String(s) => JsonValue::Str(s),
        serde_json::Value::Array(items) => {
            JsonValue::Array(items.into_iter().map(from_serde).collect())
        }
        serde_json::Value::Object(map) => {
            let mut object = JsonValue::Object(Vec::new());
            for (key, value) in map {
                object.set_field(key, from_serde(value));
            }
            object
        }
    }
}

fn j(text: &str) -> JsonValue {
    from_serde(serde_json::from_str(text).unwrap())
}

fn request(name: &str, payload: &str) -> CreatePreset {
    CreatePreset {
        name: name.to_string(),
        payload: j(payload),
    }
}

#[test]
fn in_memory_store_creates_lists_validates_and_reports_missing() {
    let mut store = InMemoryPresetStore::default();

    let preset = store
        .create(request(
            "Read IMU",
            r#"{"method":"query","topic":"imu.read","data":{}}"#,
        ))
        .unwrap();
    assert_eq!(preset.id, 1);
    let expected = || Preset {
        id: 1,
        name: "Read IMU".to_string(),
        payload: j(r#"{"method":"query","topic":"imu.read","data":{}}"#),
    };
    assert_eq!(preset, expected());
    assert_eq!(store.list().unwrap(), vec![expected()]);
    assert_eq!(store.get(1).unwrap(), expected());

    let updated = store
        .update(
            1,
            request(
                "Read temperature",
                r#"{"method":"query","topic":"temperature.read","data":{}}"#,
            ),
        )
        .unwrap();
    assert_eq!(updated.name, "Read temperature");
    assert_eq!(store.delete(1).unwrap(), 1);

    assert!(matches!(
        store.create(request("   ", "{}")),
        Err(PresetStoreError::InvalidName)
    ));
    assert!(matches!(
        store.create(request("Bad", "[]")),
        Err(PresetStoreError::InvalidPayload)
    ));
    assert!(matches!(store.get(99), Err(PresetStoreError::NotFound(99))));
    assert!(matches!(
        store.update(99, request("Missing", "{}")),
        Err(PresetStoreError::NotFound(99))
    ));
    assert!(matches!(store.delete(99), Err(PresetStoreError::NotFound(99))));
}

#[test]
fn in_memory_store_never_reuses_ids_and_lists_in_id_order() {
    let mut store = InMemoryPresetStore::new();
    let a = store.create(request("a", "{}")).unwrap();
    let b = store.create(request("b", "{}")).unwrap();
    assert_eq!((a.id, b.id), (1, 2));
    assert_eq!(store.delete(1).unwrap(), 1);
    let c = store.create(request("c", "{}")).unwrap();
    assert_eq!(c.id, 3);
    assert_eq!(store.current_last_id(), 3);
    let ids: Vec<i64> = store.list().unwrap().iter().map(|p| p.id).collect();
    assert_eq!(ids, vec![2, 3]);
    // a failed create hands out no id
    assert!(store.create(request("", "{}")).is_err());
    assert_eq!(store.create(request("d", "{}")).unwrap().id, 4);
}

#[test]
fn get_after_create_finds_it_and_get_after_delete_does_not() {
    let mut store = InMemoryPresetStore::new();
    let created = store.create(request("  Ping  ", r#"{"topic":"ping"}"#)).unwrap();
    assert_eq!(created.name, "Ping");
    assert_eq!(store.get(created.id).unwrap(), created);
    store.delete(created.id).unwrap();
    assert!(matches!(store.get(created.id), Err(PresetStoreError::NotFound(1))));
}

#[test]
fn validate_request_trims_the_name_and_keeps_the_payload() {
    let (name, payload) = validate_request(request("\t Read \n", r#"{"a":1}"#)).unwrap();
    assert_eq!(name, "Read");
    assert_eq!(payload, j(r#"{"a":1}"#));
    assert!(matches!(
        validate_request(request("x", "\"text\"")),
        Err(PresetStoreError::InvalidPayload)
    ));
    assert!(matches!(
        validate_request(request("", "[]")),
        Err(PresetStoreError::InvalidName)
    ));
}

#[test]
fn preset_store_error_messages() {
    assert_eq!(
        PresetStoreError::InvalidName.message(),
        "preset name must not be empty"
    );
    assert_eq!(
        PresetStoreError::InvalidPayload.message(),
        "preset payload must be a JSON object"
    );
    assert_eq!(PresetStoreError::NotFound(42).message(), "preset not found: 42");
    assert_eq!(PresetStoreError::NotFound(-7).message(), "preset not found: -7");
    assert_eq!(
        PresetStoreError::Storage("disk".to_string()).message(),
        "preset storage error: disk"
    );
}
