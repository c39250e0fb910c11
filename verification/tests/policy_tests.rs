use savesync::configuration::{
    config_infos, max_save_per_game_info, parse_u32, ConfigError, ConfigStore, ConfigurationInfo,
};
use savesync::dialog::AddGameDialog;
use savesync::endpoint::SaveReference;
use savesync::retention::{apply_retention_policy, RETENTION_LIMIT};

fn save_ref(uuid: &str, time: i64) -> SaveReference {
    SaveReference {
        uuid: uuid.to_string(),
        path_id: 1,
        time,
        hash: String::new(),
        files_hash: Vec::new(),
    }
}

/// Scenario: six uploads to one path leave five references; the earliest
/// one is given up.
#[test]
fn sixth_upload_evicts_the_earliest() {
    let refs: Vec<SaveReference> = (1..=6).map(|t| save_ref(&format!("save-{}", t), t)).collect();
    let outcome = apply_retention_policy(refs);
    assert_eq!(outcome.keep.len(), 5);
    assert_eq!(outcome.delete.len(), 1);
    assert_eq!(outcome.delete[0].uuid, "save-1");
    assert!(outcome.keep.iter().all(|r| r.uuid != "save-1"));
}

#[test]
fn at_most_limit_kept_oldest_first_deleted() {
    let refs: Vec<SaveReference> =
        vec![save_ref("d", 40), save_ref("b", 20), save_ref("a", 10), save_ref("g", 70),
            save_ref("c", 30), save_ref("f", 60), save_ref("e", 50)];
    let outcome = apply_retention_policy(refs);
    assert_eq!(outcome.keep.len(), RETENTION_LIMIT);
    let mut deleted: Vec<String> = outcome.delete.iter().map(|r| r.uuid.clone()).collect();
    deleted.sort();
    assert_eq!(deleted, vec!["a".to_string(), "b".to_string()]);
}

#[test]
fn under_the_limit_nothing_is_deleted() {
    let refs: Vec<SaveReference> = (1..=5).map(|t| save_ref(&format!("s{}", t), t)).collect();
    let outcome = apply_retention_policy(refs);
    assert_eq!(outcome.keep.len(), 5);
    assert!(outcome.delete.is_empty());
}

#[test]
fn parse_u32_exact_values() {
    assert_eq!(parse_u32("123"), Some(123));
    assert_eq!(parse_u32("+7"), Some(7));
    assert_eq!(parse_u32("0"), Some(0));
    assert_eq!(parse_u32("4294967295"), Some(u32::MAX));
    assert_eq!(parse_u32("4294967296"), None);
    assert_eq!(parse_u32(""), None);
    assert_eq!(parse_u32("+"), None);
    assert_eq!(parse_u32("12a"), None);
    assert_eq!(parse_u32("-1"), None);
}

#[test]
fn validate_enforces_bounds_in_order() {
    let info = max_save_per_game_info();
    assert!(info.validate("5").is_ok());
    assert_eq!(info.validate("abc"), Err(ConfigError::NotANumber));
    assert_eq!(info.validate("0"), Err(ConfigError::TooSmall));
    assert_eq!(info.validate("1000"), Err(ConfigError::TooLarge));
}

#[test]
fn validate_enforces_step() {
    let info = ConfigurationInfo {
        id: "even".to_string(),
        name: "An even setting".to_string(),
        max: None,
        min: None,
        step: Some(2),
        pattern: None,
    };
    assert!(info.validate("4").is_ok());
    assert_eq!(info.validate("3"), Err(ConfigError::NotAMultiple));
}

#[test]
fn validate_enforces_pattern() {
    let info = ConfigurationInfo {
        id: "digits".to_string(),
        name: "A digits-only setting".to_string(),
        max: None,
        min: None,
        step: None,
        pattern: Some("^[0-9]+$".to_string()),
    };
    assert!(info.validate("123").is_ok());
    assert_eq!(info.validate("abc"), Err(ConfigError::PatternMismatch));

    let broken = ConfigurationInfo {
        id: "broken".to_string(),
        name: "A setting with a broken pattern".to_string(),
        max: None,
        min: None,
        step: None,
        pattern: Some("(".to_string()),
    };
    assert_eq!(broken.validate("anything"), Err(ConfigError::BadPattern));
}

#[test]
fn config_store_roundtrip() {
    let info = max_save_per_game_info();
    let mut store = ConfigStore::new();
    assert!(info.get_value_in_db(&store).is_none());
    info.update_value_in_db(&mut store, "7");
    let form = info.get_value_in_db(&store).unwrap();
    assert_eq!(form.value, "7");
    info.update_value_in_db(&mut store, "9");
    let form = info.get_value_in_db(&store).unwrap();
    assert_eq!(form.value, "9");
    assert_eq!(store.entries.len(), 1);
}

#[test]
fn known_settings_include_max_saves() {
    let infos = config_infos();
    assert_eq!(infos.len(), 1);
    assert_eq!(infos[0].id, "max_save_per_game");
    assert_eq!(infos[0].min, Some(1));
    assert_eq!(infos[0].max, Some(999));
}

#[test]
fn dialog_state_follows_calls() {
    let mut dialog = AddGameDialog::new("Add Game".to_string(), true);
    assert_eq!(dialog.title, "Add Game");
    assert!(dialog.opened);
    dialog.close();
    assert!(!dialog.opened);
}
