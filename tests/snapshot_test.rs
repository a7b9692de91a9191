use cutler::snapshot::{SettingState, Snapshot, SnapshotError, SnapshotParts};
use cutler::value::SerializablePrefValue;

const VERSION: &str = "0.1.0";

fn s(x: &str) -> String {
    x.to_string()
}

#[test]
fn test_snapshot_basic() {
    let snapshot_path = s("/tmp/cutler-test/test_snapshot.json");
    let snapshot = Snapshot::new(snapshot_path.clone());
    let loaded_snapshot = snapshot.new_empty(VERSION);

    assert_eq!(loaded_snapshot.settings.len(), 0);
    assert_eq!(loaded_snapshot.exec_run_count, 0);
    assert_eq!(loaded_snapshot.version, VERSION);
    assert_eq!(loaded_snapshot.path(), snapshot_path.as_str());

    let setting = SettingState {
        domain: s("com.apple.dock"),
        key: s("tilesize"),
        original_value: Some(SerializablePrefValue::Integer(36)),
    };
    assert_eq!(setting.domain, "com.apple.dock");
    assert_eq!(setting.key, "tilesize");
    assert!(matches!(setting.original_value, Some(SerializablePrefValue::Integer(36))));
}

#[test]
fn test_snapshot_error_handling() {
    let snapshot = Snapshot::new(s("/tmp/cutler-test/nonexistent.json"));
    let result = snapshot.load(false, None, None, VERSION);
    assert!(result.is_err());
    assert!(matches!(result, Err(SnapshotError::InvalidPath)));

    let invalid_snapshot = Snapshot::new(s("/tmp/cutler-test/invalid.json"));
    let result = invalid_snapshot.load(true, None, None, VERSION);
    assert!(result.is_err());
    assert!(matches!(result, Err(SnapshotError::Corrupt)));
}

#[test]
fn test_snapshot_is_loadable() {
    let snapshot = Snapshot::new(s("/tmp/cutler-test/nonexistent.json"));
    assert!(!snapshot.is_loadable(false));
    let existing_snapshot = Snapshot::new(s("/tmp/cutler-test/existing.json"));
    assert!(existing_snapshot.is_loadable(true));
    assert!(!Snapshot::new(s("")).is_loadable(true));
}

#[test]
fn test_snapshot_fallback_deserialization() {
    let snapshot_path = s("/tmp/cutler-test/test_fallback.json");
    let records = vec![SettingState {
        domain: s("com.apple.dock"),
        key: s("tilesize"),
        original_value: Some(SerializablePrefValue::Integer(42)),
    }];
    let snapshot = Snapshot::new(snapshot_path.clone());
    let loaded_snapshot = snapshot.load(true, None, Some(records), VERSION).unwrap();

    assert_eq!(loaded_snapshot.settings.len(), 1);
    assert_eq!(loaded_snapshot.settings[0].domain, "com.apple.dock");
    assert_eq!(loaded_snapshot.settings[0].key, "tilesize");
    assert!(matches!(loaded_snapshot.settings[0].original_value, Some(SerializablePrefValue::Integer(42))));
    assert_eq!(loaded_snapshot.exec_run_count, 0);
    assert_eq!(loaded_snapshot.version, VERSION);
    assert_eq!(loaded_snapshot.digest, "");
    assert_eq!(loaded_snapshot.path(), snapshot_path.as_str());
}

#[test]
fn test_snapshot_path_method() {
    let snapshot_path = s("/tmp/cutler-test/test_path.json");
    let snapshot = Snapshot::new(snapshot_path.clone());
    assert_eq!(snapshot.path(), snapshot_path.as_str());
    let loaded_snapshot = snapshot.new_empty(VERSION);
    assert_eq!(loaded_snapshot.path(), snapshot_path.as_str());
}

#[test]
fn full_snapshot_wins_over_records_only() {
    let snapshot = Snapshot::new(s("/tmp/cutler-test/full.json"));
    let parts = SnapshotParts { settings: vec![], exec_run_count: 3, version: s("9.9.9"), digest: s("abc") };
    let fallback = vec![SettingState { domain: s("d"), key: s("k"), original_value: None }];
    let loaded = snapshot.load(true, Some(parts), Some(fallback), VERSION).unwrap();
    assert_eq!(loaded.settings.len(), 0);
    assert_eq!(loaded.exec_run_count, 3);
    assert_eq!(loaded.version, "9.9.9");
    assert_eq!(loaded.digest, "abc");
    assert_eq!(loaded.path(), "/tmp/cutler-test/full.json");
}
