use chicken::settings::delta::{DeltaMap, DeltaStorage};
use chicken::settings::error::SettingsError;
use chicken::settings::json::{JsonNumber, JsonValue};

fn text(s: &str) -> JsonValue {
    JsonValue::String(s.to_string())
}

fn float(x: f64) -> JsonValue {
    JsonValue::Number(JsonNumber::Float(x.to_bits()))
}

/// The JSON form of `{volume, muted, quality}` settings (keys sorted, as serde_json keeps them).
fn settings(volume: f64, muted: bool, quality: &str) -> JsonValue {
    JsonValue::Object(vec![
        ("muted".to_string(), JsonValue::Bool(muted)),
        ("quality".to_string(), text(quality)),
        ("volume".to_string(), float(volume)),
    ])
}

fn defaults() -> JsonValue {
    settings(0.0, false, "")
}

fn get<'a>(v: &'a JsonValue, key: &str) -> Option<&'a JsonValue> {
    match v {
        JsonValue::Object(entries) => entries.iter().find(|(k, _)| k == key).map(|(_, v)| v),
        _ => None,
    }
}

#[test]
fn test_compute_delta() {
    let storage = DeltaStorage::with_default(defaults());
    let current = settings(0.5, true, "high");

    let delta = storage.compute_delta(&current);

    assert!(delta.contains_key("volume"));
    assert!(delta.contains_key("muted"));
    assert!(delta.contains_key("quality"));
}

#[test]
fn test_empty_delta_when_equal_to_default() {
    let storage = DeltaStorage::with_default(defaults());
    let default = defaults();

    let delta = storage.compute_delta(&default);
    assert!(delta.is_empty());
}

#[test]
fn test_apply_delta() {
    let storage = DeltaStorage::with_default(defaults());

    let mut delta = DeltaMap::new();
    delta.insert("volume".to_string(), float(0.8));
    delta.insert("muted".to_string(), JsonValue::Bool(true));

    let result = storage.apply_delta(&delta).unwrap();

    assert!(get(&result, "volume").unwrap().equals(&float(0.8)));
    assert!(get(&result, "muted").unwrap().equals(&JsonValue::Bool(true)));
    assert!(get(&result, "quality").unwrap().equals(&text("")));
}

#[test]
fn test_serialize_deserialize_roundtrip() {
    let storage = DeltaStorage::with_default(defaults());

    let saved = settings(0.75, false, "medium");

    let delta = storage.compute_delta(&saved);
    let data = delta_to_toml(&delta);
    let read = delta_from_toml(&data);
    let restored = storage.apply_delta(&read).unwrap();

    assert!(saved.equals(&restored));
}

/// The delta as TOML text, one key per changed field (flat scalar values only).
fn delta_to_toml(delta: &DeltaMap) -> String {
    let mut table = toml::Table::new();
    for (k, v) in delta.as_slice() {
        let value = match v {
            JsonValue::Bool(b) => toml::Value::Boolean(*b),
            JsonValue::String(s) => toml::Value::String(s.clone()),
            JsonValue::Number(JsonNumber::Float(bits)) => toml::Value::Float(f64::from_bits(*bits)),
            JsonValue::Number(JsonNumber::PosInt(n)) => toml::Value::Integer(*n as i64),
            JsonValue::Number(JsonNumber::NegInt(n)) => toml::Value::Integer(*n),
            _ => panic!("only flat scalar deltas here"),
        };
        table.insert(k.clone(), value);
    }
    toml::to_string(&table).unwrap()
}

/// The delta read back from its TOML text.
fn delta_from_toml(data: &str) -> DeltaMap {
    let table: toml::Table = toml::from_str(data).unwrap();
    let mut delta = DeltaMap::new();
    for (k, v) in table {
        let value = match v {
            toml::Value::Boolean(b) => JsonValue::Bool(b),
            toml::Value::String(s) => JsonValue::String(s),
            toml::Value::Float(f) => JsonValue::Number(JsonNumber::Float(f.to_bits())),
            toml::Value::Integer(i) if i >= 0 => JsonValue::Number(JsonNumber::PosInt(i as u64)),
            toml::Value::Integer(i) => JsonValue::Number(JsonNumber::NegInt(i)),
            _ => panic!("only flat scalar deltas here"),
        };
        delta.insert(k, value);
    }
    delta
}

#[test]
fn delta_holds_only_changed_fields() {
    let storage = DeltaStorage::with_default(defaults());
    let delta = storage.compute_delta(&settings(0.0, true, ""));
    assert_eq!(delta.len(), 1);
    assert!(delta.get("muted").unwrap().equals(&JsonValue::Bool(true)));
}

#[test]
fn nested_fields_get_dotted_paths() {
    let default = JsonValue::Object(vec![(
        "audio".to_string(),
        JsonValue::Object(vec![("volume".to_string(), JsonValue::Number(JsonNumber::PosInt(50)))]),
    )]);
    let current = JsonValue::Object(vec![(
        "audio".to_string(),
        JsonValue::Object(vec![("volume".to_string(), JsonValue::Number(JsonNumber::PosInt(75)))]),
    )]);
    let storage = DeltaStorage::with_default(default);
    let delta = storage.compute_delta(&current);
    assert_eq!(delta.len(), 1);
    assert!(delta.contains_key("audio.volume"));
    let back = storage.apply_delta(&delta).unwrap();
    assert!(back.equals(&current));
}

#[test]
fn array_elements_get_indexed_paths() {
    let arr = |xs: &[u64]| JsonValue::Array(xs.iter().map(|x| JsonValue::Number(JsonNumber::PosInt(*x))).collect());
    let default = JsonValue::Object(vec![("keys".to_string(), arr(&[1, 2, 3]))]);
    let current = JsonValue::Object(vec![("keys".to_string(), arr(&[1, 9, 3, 4]))]);
    let storage = DeltaStorage::with_default(default);
    let fields = storage.get_changed_fields(&current);
    let paths: Vec<&str> = fields.iter().map(|(p, _)| p.as_str()).collect();
    assert_eq!(paths, vec!["keys[1]", "keys[3]"]);
}

#[test]
fn top_level_scalar_difference_is_recorded_as_value() {
    let storage = DeltaStorage::with_default(JsonValue::Number(JsonNumber::PosInt(1)));
    let delta = storage.compute_delta(&JsonValue::Number(JsonNumber::PosInt(2)));
    assert!(delta.contains_key("value"));
}

#[test]
fn set_json_value_errors() {
    let storage = DeltaStorage::with_default(defaults());
    let mut root = JsonValue::Object(vec![
        ("list".to_string(), JsonValue::Array(vec![JsonValue::Null])),
        ("name".to_string(), text("x")),
    ]);
    let msg = |r: Result<(), SettingsError>| match r {
        Err(SettingsError::DeltaError(m)) => m,
        _ => panic!("expected a delta error"),
    };
    assert_eq!(msg(storage.set_json_value(&mut root, "list[5]", JsonValue::Null)), "Array index 5 out of bounds");
    assert_eq!(msg(storage.set_json_value(&mut root, "name[0]", JsonValue::Null)), "Field name is not an array");
    assert_eq!(msg(storage.set_json_value(&mut root, "missing.x", JsonValue::Null)), "Field missing not found");
    assert_eq!(msg(storage.set_json_value(&mut root, "list[x]", JsonValue::Null)), "Invalid array index in list[x]");
    assert_eq!(msg(storage.set_json_value(&mut root, "list[0", JsonValue::Null)), "Unclosed array bracket");
    storage.set_json_value(&mut root, "list[0]", JsonValue::Bool(true)).unwrap();
    assert!(root.equals(&JsonValue::Object(vec![
        ("list".to_string(), JsonValue::Array(vec![JsonValue::Bool(true)])),
        ("name".to_string(), text("x")),
    ])));
}

#[test]
fn set_json_value_inserts_new_keys_in_order() {
    let storage = DeltaStorage::with_default(defaults());
    let mut root = JsonValue::Object(vec![("b".to_string(), JsonValue::Null)]);
    storage.set_json_value(&mut root, "a", JsonValue::Bool(false)).unwrap();
    storage.set_json_value(&mut root, "c", JsonValue::Bool(true)).unwrap();
    match &root {
        JsonValue::Object(entries) => {
            let keys: Vec<&str> = entries.iter().map(|(k, _)| k.as_str()).collect();
            assert_eq!(keys, vec!["a", "b", "c"]);
        }
        _ => panic!("expected an object"),
    }
}

#[test]
fn delta_map_insert_replaces() {
    let mut m = DeltaMap::new();
    m.insert("a".to_string(), JsonValue::Null);
    m.insert("a".to_string(), JsonValue::Bool(true));
    assert_eq!(m.len(), 1);
    assert!(m.get("a").unwrap().equals(&JsonValue::Bool(true)));
}

#[test]
fn is_equal_to_default_compares_values() {
    let storage = DeltaStorage::with_default(defaults());
    assert!(storage.is_equal_to_default(&defaults()));
    assert!(!storage.is_equal_to_default(&settings(0.0, true, "")));
}

#[test]
fn changed_array_of_same_length_round_trips() {
    let int = |x: u64| JsonValue::Number(JsonNumber::PosInt(x));
    let point = |x: u64| JsonValue::Object(vec![("x".to_string(), int(x)), ("y".to_string(), int(0))]);
    let default = JsonValue::Object(vec![
        ("keys".to_string(), JsonValue::Array(vec![int(1), int(2), point(3)])),
        ("name".to_string(), text("a")),
    ]);
    let current = JsonValue::Object(vec![
        ("keys".to_string(), JsonValue::Array(vec![int(1), text("two"), point(7)])),
        ("name".to_string(), text("b")),
    ]);
    let storage = DeltaStorage::with_default(default);
    let delta = storage.compute_delta(&current);
    assert_eq!(delta.len(), 3);
    assert!(delta.contains_key("keys[1]"));
    assert!(delta.contains_key("keys[2].x"));
    let back = storage.apply_delta(&delta).unwrap();
    assert!(back.equals(&current));
}

#[test]
fn longer_array_does_not_round_trip() {
    let int = |x: u64| JsonValue::Number(JsonNumber::PosInt(x));
    let default = JsonValue::Object(vec![("keys".to_string(), JsonValue::Array(vec![int(1)]))]);
    let current = JsonValue::Object(vec![("keys".to_string(), JsonValue::Array(vec![int(1), int(2)]))]);
    let storage = DeltaStorage::with_default(default);
    let delta = storage.compute_delta(&current);
    match storage.apply_delta(&delta) {
        Err(SettingsError::DeltaError(m)) => assert_eq!(m, "Array index 1 out of bounds"),
        _ => panic!("expected an out-of-bounds error"),
    }
}

#[test]
fn zero_sign_is_not_a_change() {
    let storage = DeltaStorage::with_default(defaults());
    let current = settings(-0.0, false, "");
    assert!(storage.is_equal_to_default(&current));
    assert!(storage.compute_delta(&current).is_empty());
    assert!(float(0.0).equals(&float(-0.0)));
    assert!(!float(0.0).equals(&float(1.0)));
    assert!(!float(1.0).equals(&JsonValue::Number(JsonNumber::PosInt(1))));
}
