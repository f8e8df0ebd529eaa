use vocab_backend::profile::{
    create_or_update_profile, get_days_since_creation, get_platform_name, get_profile_data,
    increment_streak, update_app_meta, update_progress,
};
use vocab_backend::store::PrefMap;
use vocab_backend::AppError;

const DAY: i64 = 86400;

#[test]
fn profile_fields_must_be_filled() {
    let mut store = PrefMap::new();
    assert!(matches!(
        create_or_update_profile(
            &mut store,
            "".to_string(),
            "sam".to_string(),
            "s@example.com".to_string(),
            1000,
        ),
        Err(AppError::Validation)
    ));
    assert!(matches!(
        create_or_update_profile(
            &mut store,
            "Sam Doe".to_string(),
            "  ".to_string(),
            "s@example.com".to_string(),
            1000,
        ),
        Err(AppError::Validation)
    ));
}

#[test]
fn profile_round_trip_with_defaults() {
    let mut store = PrefMap::new();
    create_or_update_profile(
        &mut store,
        "Sam Doe".to_string(),
        "sam".to_string(),
        "s@example.com".to_string(),
        1000,
    )
    .unwrap();
    let data = get_profile_data(&store, 5000).unwrap();
    assert_eq!(data.profile_user.full_name, "Sam Doe");
    assert_eq!(data.profile_user.username, "sam");
    assert_eq!(data.profile_user.email, "s@example.com");
    assert_eq!(data.profile_user.created_at, 1000);
    assert_eq!(data.progress.current_streak, 0);
    assert_eq!(data.progress.longest_streak, 0);
    assert_eq!(data.progress.daily_goal, 10);
    assert_eq!(data.app_meta.version, "1.0.0");
    assert_eq!(data.app_meta.platform, get_platform_name());
    assert_eq!(data.app_meta.last_opened, 5000);
}

#[test]
fn missing_profile_is_not_found() {
    let store = PrefMap::new();
    assert!(matches!(
        get_profile_data(&store, 0),
        Err(AppError::NotFound)
    ));
    assert!(matches!(
        get_days_since_creation(&store, 0),
        Err(AppError::NotFound)
    ));
}

#[test]
fn creation_time_survives_updates() {
    let mut store = PrefMap::new();
    create_or_update_profile(
        &mut store,
        "Sam Doe".to_string(),
        "sam".to_string(),
        "s@example.com".to_string(),
        100,
    )
    .unwrap();
    create_or_update_profile(
        &mut store,
        "Sam D. Doe".to_string(),
        "samd".to_string(),
        "sd@example.com".to_string(),
        9999,
    )
    .unwrap();
    let data = get_profile_data(&store, 9999).unwrap();
    assert_eq!(data.profile_user.full_name, "Sam D. Doe");
    assert_eq!(data.profile_user.created_at, 100);
}

#[test]
fn longest_streak_never_falls_below_current() {
    let mut store = PrefMap::new();
    update_progress(&mut store, Some(5), None, None).unwrap();
    let d = get_or_default(&store);
    assert_eq!(d, (5, 5, 10));

    update_progress(&mut store, None, Some(3), None).unwrap();
    let d = get_or_default(&store);
    assert_eq!(d.0, 5);
    assert!(d.1 >= d.0);

    update_progress(&mut store, Some(2), Some(9), Some(20)).unwrap();
    let d = get_or_default(&store);
    assert_eq!(d, (2, 9, 20));
}

fn get_or_default(store: &PrefMap) -> (u32, u32, u32) {
    let mut s = store.clone_map();
    create_or_update_profile(
        &mut s,
        "x".to_string(),
        "x".to_string(),
        "x".to_string(),
        0,
    )
    .unwrap();
    let d = get_profile_data(&s, 0).unwrap();
    (
        d.progress.current_streak,
        d.progress.longest_streak,
        d.progress.daily_goal,
    )
}

#[test]
fn increment_streak_raises_both_counters() {
    let mut store = PrefMap::new();
    increment_streak(&mut store, 777).unwrap();
    let d = get_or_default(&store);
    assert_eq!(d, (1, 1, 10));
    increment_streak(&mut store, 888).unwrap();
    let d = get_or_default(&store);
    assert_eq!(d, (2, 2, 10));
}

#[test]
fn update_app_meta_stamps_now() {
    let mut store = PrefMap::new();
    update_app_meta(&mut store, 4242).unwrap();
    create_or_update_profile(
        &mut store,
        "x".to_string(),
        "x".to_string(),
        "x".to_string(),
        0,
    )
    .unwrap();
    let d = get_profile_data(&store, 0).unwrap();
    assert_eq!(d.app_meta.last_opened, 4242);
    assert_eq!(d.app_meta.version, "1.0.0");
}

#[test]
fn days_since_creation_counts_whole_days() {
    let mut store = PrefMap::new();
    create_or_update_profile(
        &mut store,
        "Sam".to_string(),
        "sam".to_string(),
        "s@e".to_string(),
        1000,
    )
    .unwrap();
    assert_eq!(get_days_since_creation(&store, 1000 + 3 * DAY).unwrap(), 3);
    assert_eq!(
        get_days_since_creation(&store, 1000 + 3 * DAY + DAY - 1).unwrap(),
        3
    );
}

#[test]
fn days_since_creation_never_negative() {
    let mut store = PrefMap::new();
    create_or_update_profile(
        &mut store,
        "Sam".to_string(),
        "sam".to_string(),
        "s@e".to_string(),
        10 * DAY,
    )
    .unwrap();
    assert_eq!(get_days_since_creation(&store, 0).unwrap(), 0);
}

#[test]
fn platform_name_is_stable() {
    assert_eq!(get_platform_name(), "tauri-linux");
}
