use chicken::edit::{update_toml_value, EditError, TomlEditor};
use chicken::settings::loader::surgical_update;
use toml_edit::Value;

fn int_value(v: i64) -> Result<Value, EditError> {
    Ok(Value::from(v))
}

fn int_array(xs: &[i64]) -> Result<Value, EditError> {
    let mut a = toml_edit::Array::new();
    for x in xs {
        a.push(*x);
    }
    Ok(Value::Array(a))
}

#[test]
fn test_update_preserves_comments() {
    let mut content = r#"# This is a comment
[settings]
volume = 50  # Audio volume
"#
    .to_string();

    let editor = TomlEditor::new();
    editor
        .update_value(&mut content, &["settings", "volume"], int_value(75))
        .unwrap();

    assert!(content.contains("# This is a comment"));
    assert!(content.contains("volume = 75"));
    assert!(content.contains("# Audio volume"));
}

#[test]
fn test_update_preserves_formatting() {
    let mut content = r#"[settings]
volume = 50
enabled = true
"#
    .to_string();

    let editor = TomlEditor::new();
    editor
        .update_value(&mut content, &["settings", "volume"], int_value(75))
        .unwrap();

    assert!(content.contains("enabled = true"));
    assert!(content.contains("volume = 75"));
}

#[test]
fn test_arrays_replaced_entirely() {
    let mut content = r#"items = [1, 2, 3]"#.to_string();

    let editor = TomlEditor::new();
    editor
        .update_value(&mut content, &["items"], int_array(&[4, 5, 6]))
        .unwrap();

    assert!(
        content.contains("items = [4, 5, 6]") || content.contains("items = [4.0, 5.0, 6.0]")
    );
}

#[test]
fn test_nested_table_creation() {
    let mut content = r#"[settings]
volume = 50
"#
    .to_string();

    let editor = TomlEditor::new();
    editor
        .update_value(&mut content, &["settings", "audio", "volume"], int_value(75))
        .unwrap();

    assert!(content.contains("[settings.audio]") || content.contains("[settings]"));
    assert!(content.contains("volume = 75"));
}

#[test]
fn test_remove_value() {
    let mut content = r#"[settings]
volume = 50
enabled = true
"#
    .to_string();

    let editor = TomlEditor::new();
    editor
        .remove_value(&mut content, &["settings", "volume"])
        .unwrap();

    assert!(!content.contains("volume = 50"));
    assert!(content.contains("enabled = true"));
}

#[test]
fn test_insert_new_value() {
    let mut content = r#"[settings]
volume = 50
"#
    .to_string();

    let editor = TomlEditor::new();
    editor
        .insert_value(&mut content, &["settings", "enabled"], Ok(Value::from(true)))
        .unwrap();

    assert!(content.contains("volume = 50"));
    assert!(content.contains("enabled = true"));
}

#[test]
fn test_insert_fails_if_key_exists() {
    let mut content = r#"[settings]
volume = 50
"#
    .to_string();

    let editor = TomlEditor::new();
    let result = editor.insert_value(&mut content, &["settings", "volume"], int_value(75));

    assert!(result.is_err());
}

#[test]
fn test_remove_key_not_found() {
    let mut content = r#"[settings]
volume = 50
"#
    .to_string();

    let editor = TomlEditor::new();
    let result = editor.remove_value(&mut content, &["settings", "nonexistent"]);

    assert!(result.is_err());
}

#[test]
fn test_update_key_not_found_creates_table() {
    let mut content = r#""#.to_string();

    let editor = TomlEditor::new();
    editor
        .update_value(&mut content, &["settings", "volume"], int_value(50))
        .unwrap();

    assert!(content.contains("[settings]"));
    assert!(content.contains("volume = 50"));
}

#[test]
fn test_complex_nested_structure() {
    let mut content = r#"[app]
name = "MyApp"

[app.settings]
debug = false
"#
    .to_string();

    let editor = TomlEditor::new();
    editor
        .update_value(&mut content, &["app", "settings", "debug"], Ok(Value::from(true)))
        .unwrap();

    assert!(content.contains("name = \"MyApp\""));
    assert!(content.contains("debug = true"));
}

#[test]
fn test_update_top_level_value() {
    let mut content = r#"version = "1.0.0"
name = "test"
"#
    .to_string();

    let editor = TomlEditor::new();
    editor
        .update_value(&mut content, &["version"], Ok(Value::from("2.0.0")))
        .unwrap();

    assert!(content.contains("version = \"2.0.0\""));
    assert!(content.contains("name = \"test\""));
}

#[test]
fn test_convenience_function() {
    let mut content = r#"value = 10"#.to_string();

    update_toml_value(&mut content, &["value"], int_value(20)).unwrap();

    assert!(content.contains("value = 20"));
}

#[test]
fn test_different_value_types() {
    let mut content = r#"[config]
"#
    .to_string();

    let editor = TomlEditor::new();

    editor
        .update_value(&mut content, &["config", "int_val"], Ok(Value::from(42i64)))
        .unwrap();
    editor
        .update_value(&mut content, &["config", "float_val"], Ok(Value::from(3.14f64)))
        .unwrap();
    editor
        .update_value(&mut content, &["config", "str_val"], Ok(Value::from("hello")))
        .unwrap();
    editor
        .update_value(&mut content, &["config", "bool_val"], Ok(Value::from(true)))
        .unwrap();
    editor
        .update_value(&mut content, &["config", "arr_val"], int_array(&[1, 2, 3]))
        .unwrap();

    assert!(content.contains("int_val = 42"));
    assert!(content.contains("float_val = 3.14") || content.contains("float_val = 3.14"));
    assert!(content.contains("str_val = \"hello\""));
    assert!(content.contains("bool_val = true"));
}

#[test]
fn empty_key_path_is_refused() {
    let mut content = "a = 1".to_string();
    let editor = TomlEditor::new();
    match editor.update_value(&mut content, &[], int_value(2)) {
        Err(EditError::KeyNotFound(m)) => assert_eq!(m, "Empty key path"),
        _ => panic!("expected KeyNotFound"),
    }
    assert_eq!(content, "a = 1");
}

#[test]
fn invalid_toml_is_a_parse_error() {
    let mut content = "a = = 1".to_string();
    let editor = TomlEditor::new();
    assert!(matches!(editor.update_value(&mut content, &["a"], int_value(2)), Err(EditError::Parse(_))));
    assert!(matches!(editor.remove_value(&mut content, &["a"]), Err(EditError::Parse(_))));
}

#[test]
fn array_index_errors() {
    let mut content = "items = [1, 2]".to_string();
    let editor = TomlEditor::new();
    match editor.update_value(&mut content, &["items", "5"], int_value(9)) {
        Err(EditError::KeyNotFound(m)) => assert_eq!(m, "Array index 5 out of bounds"),
        _ => panic!("expected an index error"),
    }
    editor.update_value(&mut content, &["items", "1"], int_value(9)).unwrap();
    assert!(content.contains("[1, 9]"));
    editor.remove_value(&mut content, &["items", "0"]).unwrap();
    assert!(content.contains("[9]") || content.contains("[ 9]"));
}

#[test]
fn navigating_into_a_value_fails() {
    let mut content = "a = 1".to_string();
    let editor = TomlEditor::new();
    match editor.update_value(&mut content, &["a", "b", "c"], int_value(2)) {
        Err(EditError::KeyNotFound(m)) => assert_eq!(m, "Cannot navigate into non-table at 'b'"),
        _ => panic!("expected a navigation error"),
    }
    editor.update_value(&mut content, &["a", "b"], int_value(2)).unwrap();
    assert!(content.contains("a = 2"));
}

#[test]
fn serialization_error_is_passed_on() {
    let mut content = "a = 1".to_string();
    let editor = TomlEditor::new();
    let r = editor.update_value(&mut content, &["a"], Err(EditError::Toml("Null values not supported".to_string())));
    match r {
        Err(EditError::Toml(m)) => assert_eq!(m, "Null values not supported"),
        _ => panic!("expected the serialization error"),
    }
}

#[test]
fn get_value_range_checks_the_key() {
    let content = "[s]\nv = 1\n";
    let editor = TomlEditor::new();
    assert_eq!(editor.get_value_range(content, &["s", "v"]).unwrap(), 8..9);
    assert_eq!(editor.get_value_range(content, &["s"]).unwrap(), 0..content.len());
    match editor.get_value_range(content, &["s", "w"]) {
        Err(EditError::KeyNotFound(m)) => assert_eq!(m, "w"),
        _ => panic!("expected a missing key"),
    }
}

#[test]
fn get_value_range_is_the_span_of_the_value() {
    let content = "a = 1\nb = 22\n";
    let editor = TomlEditor::new();
    let r = editor.get_value_range(content, &["b"]).unwrap();
    assert_eq!(r, 10..12);
    assert_eq!(&content[r], "22");
    assert_eq!(editor.get_value_range(content, &["a"]).unwrap(), 4..5);
}

#[test]
fn get_value_range_of_an_array_element() {
    let content = "items = [1, 22]\nname = \"x\"\n";
    let editor = TomlEditor::new();
    assert_eq!(editor.get_value_range(content, &["items", "1"]).unwrap(), 12..14);
    assert_eq!(&content[editor.get_value_range(content, &["name"]).unwrap()], "\"x\"");
    match editor.get_value_range(content, &["items", "2"]) {
        Err(EditError::KeyNotFound(m)) => assert_eq!(m, "Array index 2 out of bounds"),
        _ => panic!("expected an index error"),
    }
    assert!(matches!(editor.get_value_range("a = = 1", &["a"]), Err(EditError::Parse(_))));
}

#[test]
fn insert_on_an_existing_key_names_the_path() {
    let mut content = "[settings]\nvolume = 50\n".to_string();
    let editor = TomlEditor::new();
    match editor.insert_value(&mut content, &["settings", "volume"], int_value(75)) {
        Err(EditError::Toml(m)) => assert_eq!(m, "Key 'settings.volume' already exists"),
        _ => panic!("expected the existing key to be refused"),
    }
    assert_eq!(content, "[settings]\nvolume = 50\n");
    editor.insert_value(&mut content, &["audio", "master"], int_value(3)).unwrap();
    assert!(content.contains("[audio]"));
    assert!(content.contains("master = 3"));
}

#[test]
fn remove_keeps_other_keys_and_comments() {
    let mut content = "# head\n[settings]\nvolume = 50 # vol\nenabled = true # on\n".to_string();
    let editor = TomlEditor::new();
    editor.remove_value(&mut content, &["settings", "volume"]).unwrap();
    assert!(!content.contains("volume"));
    assert!(content.contains("# head"));
    assert!(content.contains("enabled = true # on"));
    let before = content.clone();
    match editor.remove_value(&mut content, &["settings", "volume"]) {
        Err(EditError::KeyNotFound(m)) => assert_eq!(m, "volume"),
        _ => panic!("expected a missing key"),
    }
    assert_eq!(content, before);
}

#[test]
fn edit_error_messages() {
    assert_eq!(EditError::Parse("x".to_string()).message(), "Parse error: x");
    assert_eq!(EditError::KeyNotFound("k".to_string()).message(), "Key not found: k");
    assert_eq!(EditError::Serialization("s".to_string()).message(), "Serialization error: s");
    assert_eq!(EditError::Toml("t".to_string()).message(), "TOML error: t");
}

#[test]
fn surgical_update_sets_changed_fields_and_keeps_comments() {
    let mut content = r#"# This is a header comment
volume = 50  # Volume setting
enabled = false  # Enabled flag
name = "default"  # Name setting
"#
    .to_string();
    let failed = surgical_update(&mut content, vec![("volume".to_string(), int_value(75))]);
    assert!(failed.is_empty());
    assert!(content.contains("volume = 75"));
    assert!(content.contains("# Volume setting"));
    assert!(content.contains("enabled = false"));
    assert!(content.contains("name = \"default\""));
}

#[test]
fn surgical_update_reports_failures_in_order_and_applies_the_rest() {
    let mut content = "a = 1\nlist = [1, 2]\n".to_string();
    let failed = surgical_update(
        &mut content,
        vec![
            ("list.5".to_string(), int_value(9)),
            ("a".to_string(), int_value(2)),
            ("a.b.c".to_string(), int_value(3)),
            ("nested.x".to_string(), int_value(4)),
        ],
    );
    let keys: Vec<&str> = failed.iter().map(|(k, _)| k.as_str()).collect();
    assert_eq!(keys, vec!["list.5", "a.b.c"]);
    assert!(content.contains("a = 2"));
    assert!(content.contains("[nested]"));
    assert!(content.contains("x = 4"));
}

#[test]
fn removing_the_last_key_of_an_implicit_table_drops_the_table() {
    let mut content = "[a.b]\n".to_string();
    let editor = TomlEditor::new();
    editor.remove_value(&mut content, &["a", "b"]).unwrap();
    assert_eq!(content, "");
    let mut content = "[a.b]\nx = 1\n[a.c]\ny = 2\n".to_string();
    editor.remove_value(&mut content, &["a", "b"]).unwrap();
    assert!(!content.contains("[a.b]"));
    assert!(content.contains("[a.c]"));
}

#[test]
fn an_update_keeps_the_decoration_of_a_value_of_the_same_kind() {
    let mut content = "v = 1   # one\nw = \"s\" # text\n".to_string();
    let editor = TomlEditor::new();
    editor.update_value(&mut content, &["v"], int_value(2)).unwrap();
    assert!(content.contains("v = 2   # one"));
    editor.update_value(&mut content, &["w"], int_value(3)).unwrap();
    assert!(content.contains("w = 3"));
    assert!(!content.contains("# text"));
}
