use vocab_backend::json::{export_preferences, import_preferences};
use vocab_backend::store::PrefMap;
use vocab_backend::value::PrefValue;
use vocab_backend::AppError;

fn sample_store() -> PrefMap {
    let mut store = PrefMap::new();
    store
        .save_preference("name".to_string(), PrefValue::Str("Sam \"D\"\n".to_string()))
        .unwrap();
    store
        .save_preference("count".to_string(), PrefValue::Num(-42))
        .unwrap();
    store
        .save_preference(
            "mixed".to_string(),
            PrefValue::Arr(vec![
                PrefValue::Bool(true),
                PrefValue::Null,
                PrefValue::Obj(vec![("k".to_string(), PrefValue::Num(7))]),
            ]),
        )
        .unwrap();
    store
}

#[test]
fn export_writes_one_entry_per_line() {
    let mut store = PrefMap::new();
    store
        .save_preference("a".to_string(), PrefValue::Num(1))
        .unwrap();
    store
        .save_preference("b".to_string(), PrefValue::Bool(false))
        .unwrap();
    let text = export_preferences(&store, "/tmp/prefs.json").unwrap();
    assert_eq!(text, "{\n  \"a\": 1,\n  \"b\": false\n}");
}

#[test]
fn export_of_an_empty_store() {
    let store = PrefMap::new();
    assert_eq!(export_preferences(&store, "p").unwrap(), "{}");
}

#[test]
fn blank_paths_are_rejected() {
    let mut store = PrefMap::new();
    assert_eq!(
        export_preferences(&store, "  "),
        Err(AppError::Validation)
    );
    assert!(matches!(
        import_preferences(&mut store, "", "{}"),
        Err(AppError::Validation)
    ));
}

#[test]
fn a_json_library_reads_what_export_writes() {
    let store = sample_store();
    let text = export_preferences(&store, "p").unwrap();
    let v: serde_json::Value = serde_json::from_str(&text).unwrap();
    assert_eq!(v["name"], serde_json::Value::String("Sam \"D\"\n".to_string()));
    assert_eq!(v["count"].as_i64(), Some(-42));
    assert_eq!(v["mixed"][0], serde_json::Value::Bool(true));
    assert_eq!(v["mixed"][1], serde_json::Value::Null);
    assert_eq!(v["mixed"][2]["k"].as_i64(), Some(7));
}

#[test]
fn export_then_import_reproduces_the_mapping() {
    let store = sample_store();
    let text = export_preferences(&store, "p").unwrap();

    let mut other = PrefMap::new();
    other
        .save_preference("junk".to_string(), PrefValue::Null)
        .unwrap();
    import_preferences(&mut other, "p", &text).unwrap();

    let before = store.entries();
    let after = other.entries();
    assert_eq!(before.len(), after.len());
    for i in 0..before.len() {
        assert_eq!(before[i], after[i]);
    }
}

#[test]
fn import_reads_plain_documents() {
    let mut store = PrefMap::new();
    let ev = import_preferences(
        &mut store,
        "p",
        " {\"a\" : 1 , \"b\": [true, null, \"x\\u0041\"] } ",
    )
    .unwrap();
    assert_eq!(ev.name(), "preferences-updated");
    assert_eq!(store.get_preference("a").unwrap(), PrefValue::Num(1));
    assert_eq!(
        store.get_preference("b").unwrap(),
        PrefValue::Arr(vec![
            PrefValue::Bool(true),
            PrefValue::Null,
            PrefValue::Str("xA".to_string()),
        ])
    );
}

#[test]
fn later_duplicate_keys_win() {
    let mut store = PrefMap::new();
    import_preferences(&mut store, "p", "{\"a\": 1, \"a\": 2}").unwrap();
    assert_eq!(store.entries().len(), 1);
    assert_eq!(store.get_preference("a").unwrap(), PrefValue::Num(2));
}

#[test]
fn malformed_documents_are_parse_errors() {
    let mut store = PrefMap::new();
    store
        .save_preference("keep".to_string(), PrefValue::Num(1))
        .unwrap();
    for bad in [
        "{",
        "",
        "[1, 2]",
        "{\"a\": }",
        "{\"a\": 1} trailing",
        "{\"a\": 1.5}",
        "{\"a\": 1e3}",
        "{\"a\": \"\\q\"}",
    ] {
        assert!(matches!(
            import_preferences(&mut store, "p", bad),
            Err(AppError::Parse)
        ));
    }
    // a failed import leaves the store as it was
    assert_eq!(store.get_preference("keep").unwrap(), PrefValue::Num(1));
}
