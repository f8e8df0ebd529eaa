use vocab_backend::store::PrefMap;
use vocab_backend::value::PrefValue;
use vocab_backend::vocab::{
    extract_vocabulary_fields, get_vocabulary_progress, save_vocabulary_progress,
    VocabularyProgress,
};
use vocab_backend::AppError;

#[test]
fn list_valued_word_takes_the_first_element() {
    let content = "---\nItalian: [\"casa\", \"house-alt\"]\nEnglish: [home, house]\n---\nbody text\n";
    let h = extract_vocabulary_fields(content).unwrap();
    assert_eq!(h.word, "casa");
    assert_eq!(h.translations, vec!["home".to_string(), "house".to_string()]);
}

#[test]
fn scalar_word_and_block_list() {
    let content = "---\nItalian: casa\nEnglish:\n- home\n- house\n---\nbody\n";
    let h = extract_vocabulary_fields(content).unwrap();
    assert_eq!(h.word, "casa");
    assert_eq!(h.translations, vec!["home".to_string(), "house".to_string()]);
}

#[test]
fn missing_fence_is_a_format_error() {
    assert!(matches!(
        extract_vocabulary_fields("Italian: casa\nEnglish: [home]\n"),
        Err(AppError::Format)
    ));
    assert!(matches!(
        extract_vocabulary_fields("---\nItalian: casa\nEnglish: [home]\n"),
        Err(AppError::Format)
    ));
}

#[test]
fn ill_shaped_fields_are_parse_errors() {
    // an empty list gives no word
    assert!(matches!(
        extract_vocabulary_fields("---\nItalian: []\nEnglish: [home]\n---\n"),
        Err(AppError::Parse)
    ));
    // a number is no word
    assert!(matches!(
        extract_vocabulary_fields("---\nItalian: 5\nEnglish: [home]\n---\n"),
        Err(AppError::Parse)
    ));
    // translations must be a list
    assert!(matches!(
        extract_vocabulary_fields("---\nItalian: casa\nEnglish: home\n---\n"),
        Err(AppError::Parse)
    ));
    // both fields must be there
    assert!(matches!(
        extract_vocabulary_fields("---\nItalian: casa\n---\n"),
        Err(AppError::Parse)
    ));
}

#[test]
fn agrees_with_a_yaml_library_on_the_list_form() {
    let yaml = "Italian: [\"casa\", \"house-alt\"]\nEnglish: [home, house]\n";
    let value: serde_yaml::Value = serde_yaml::from_str(yaml).unwrap();
    let first = value
        .get("Italian")
        .and_then(|v| v.as_sequence())
        .and_then(|s| s.first())
        .and_then(|v| v.as_str())
        .unwrap();
    let content = format!("---\n{}---\n", yaml);
    let h = extract_vocabulary_fields(&content).unwrap();
    assert_eq!(h.word, first);
}

#[test]
fn vocabulary_progress_is_validated_and_retrievable() {
    let mut store = PrefMap::new();
    assert!(matches!(
        save_vocabulary_progress(&mut store, 5, 3, "/cards".to_string(), 100),
        Err(AppError::Validation)
    ));
    assert!(matches!(
        save_vocabulary_progress(&mut store, 1, 3, "  ".to_string(), 100),
        Err(AppError::Validation)
    ));
    assert_eq!(get_vocabulary_progress(&store).unwrap(), PrefValue::Null);

    save_vocabulary_progress(&mut store, 3, 3, "/cards".to_string(), 100).unwrap();
    let v = get_vocabulary_progress(&store).unwrap();
    match v {
        PrefValue::Obj(fields) => {
            assert_eq!(
                fields[0],
                ("current_index".to_string(), PrefValue::Num(3))
            );
            assert_eq!(fields[1], ("total_cards".to_string(), PrefValue::Num(3)));
            assert_eq!(
                fields[2],
                (
                    "directory_path".to_string(),
                    PrefValue::Str("/cards".to_string())
                )
            );
            assert_eq!(fields[3], ("last_updated".to_string(), PrefValue::Num(100)));
        }
        _ => panic!("expected an object"),
    }
}

#[test]
fn progress_record_keeps_its_fields() {
    let p = VocabularyProgress::new(2, 9, "/somewhere".to_string(), 55);
    assert_eq!(p.current_index, 2);
    assert_eq!(p.total_cards, 9);
    assert_eq!(p.directory_path, "/somewhere");
    assert_eq!(p.last_updated, 55);
}
