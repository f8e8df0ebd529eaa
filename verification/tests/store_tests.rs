use vocab_backend::store::{PrefEvent, PrefMap};
use vocab_backend::value::PrefValue;
use vocab_backend::AppError;

#[test]
fn save_and_get_round() {
    let mut store = PrefMap::new();
    let ev = store
        .save_preference("theme".to_string(), PrefValue::Str("dark".to_string()))
        .unwrap();
    assert_eq!(ev.name(), "preference-updated");
    match ev {
        PrefEvent::Updated { key, value } => {
            assert_eq!(key, "theme");
            assert_eq!(value, PrefValue::Str("dark".to_string()));
        }
        _ => panic!("wrong event"),
    }
    let got = store.get_preference("theme").unwrap();
    assert_eq!(got, PrefValue::Str("dark".to_string()));
}

#[test]
fn get_missing_is_null() {
    let store = PrefMap::new();
    assert_eq!(store.get_preference("nothing").unwrap(), PrefValue::Null);
}

#[test]
fn blank_keys_are_rejected() {
    let mut store = PrefMap::new();
    assert!(matches!(
        store.save_preference("   ".to_string(), PrefValue::Null),
        Err(AppError::Validation)
    ));
    assert_eq!(store.get_preference(""), Err(AppError::Validation));
    assert_eq!(store.has_preference(" \t "), Err(AppError::Validation));
    assert!(matches!(
        store.delete_preference("\u{a0}"),
        Err(AppError::Validation)
    ));
}

#[test]
fn overwrite_keeps_one_entry() {
    let mut store = PrefMap::new();
    store
        .save_preference("n".to_string(), PrefValue::Num(1))
        .unwrap();
    store
        .save_preference("n".to_string(), PrefValue::Num(2))
        .unwrap();
    assert_eq!(store.entries().len(), 1);
    assert_eq!(store.get_preference("n").unwrap(), PrefValue::Num(2));
}

#[test]
fn delete_preference_behaviour() {
    let mut store = PrefMap::new();
    assert!(matches!(store.delete_preference("gone"), Err(AppError::NotFound)));
    store
        .save_preference("gone".to_string(), PrefValue::Bool(true))
        .unwrap();
    let ev = store.delete_preference("gone").unwrap();
    assert_eq!(ev.name(), "preference-deleted");
    assert_eq!(store.has_preference("gone").unwrap(), false);
}

#[test]
fn save_all_then_get_all_returns_exactly_the_mapping() {
    let mut m = PrefMap::new();
    m.save_preference("a".to_string(), PrefValue::Num(1)).unwrap();
    m.save_preference("b".to_string(), PrefValue::Str("x".to_string()))
        .unwrap();

    let mut store = PrefMap::new();
    store
        .save_preference("old".to_string(), PrefValue::Null)
        .unwrap();
    let ev = store.save_all_preferences(m);
    assert_eq!(ev.name(), "preferences-updated");

    let all = store.get_all_preferences();
    let entries = all.entries();
    assert_eq!(entries.len(), 2);
    assert_eq!(entries[0].0, "a");
    assert_eq!(entries[0].1, PrefValue::Num(1));
    assert_eq!(entries[1].0, "b");
    assert_eq!(entries[1].1, PrefValue::Str("x".to_string()));
}

#[test]
fn clear_empties_the_store() {
    let mut store = PrefMap::new();
    store
        .save_preference("a".to_string(), PrefValue::Num(1))
        .unwrap();
    let ev = store.clear_all_preferences();
    assert_eq!(ev.name(), "preferences-cleared");
    assert_eq!(store.entries().len(), 0);
}

#[test]
fn initialize_store_reports_user_data_and_everything() {
    let mut store = PrefMap::new();
    store
        .save_preference("user-data".to_string(), PrefValue::Str("me".to_string()))
        .unwrap();
    store
        .save_preference("other".to_string(), PrefValue::Num(7))
        .unwrap();
    let (first, second) = store.initialize_store();
    assert_eq!(first.name(), "user-data-loaded");
    match first {
        PrefEvent::UserDataLoaded { value } => {
            assert_eq!(value, PrefValue::Str("me".to_string()))
        }
        _ => panic!("wrong event"),
    }
    assert_eq!(second.name(), "preferences-loaded");
    match second {
        PrefEvent::Loaded { preferences } => assert_eq!(preferences.entries().len(), 2),
        _ => panic!("wrong event"),
    }
}
