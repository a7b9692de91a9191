use std::collections::HashMap;

use cutler::apply::{
    apply_baseline, count_successes, finish_snapshot, next_settings, plan_apply, ApplyError, ConfigEntry, PreferenceJob,
};
use cutler::domains::resolve;
use cutler::snapshot::{SettingState, Snapshot, SnapshotError};
use cutler::unapply::{plan_unapply, unapply_warnings};
use cutler::value::{pref_eq, PrefValue, SerializablePrefValue};

type Store = HashMap<(String, String), PrefValue>;

fn s(x: &str) -> String {
    x.to_string()
}

fn entry(domain: &str, key: &str, desired: PrefValue) -> ConfigEntry {
    ConfigEntry { domain: s(domain), key: s(key), desired }
}

fn reads(store: &Store, entries: &[ConfigEntry], known: &Vec<String>) -> Vec<Option<PrefValue>> {
    entries
        .iter()
        .map(|e| store.get(&resolve(&e.domain, &e.key, known)).map(|v| v.copy_value()))
        .collect()
}

fn run_jobs(store: &mut Store, jobs: &[PreferenceJob]) {
    for j in jobs {
        store.insert((j.domain.clone(), j.key.clone()), j.new_value.copy_value());
    }
}

fn run_unapply(store: &mut Store, settings: &Vec<SettingState>) {
    let plan = plan_unapply(settings);
    for r in &plan.restores {
        store.insert((r.domain.clone(), r.key.clone()), r.value.copy_value());
    }
    for d in &plan.deletes {
        store.remove(&(d.domain.clone(), d.key.clone()));
    }
}

fn same_store(a: &Store, b: &Store) -> bool {
    a.len() == b.len() && a.iter().all(|(k, v)| b.get(k).is_some_and(|w| pref_eq(v, w)))
}

fn known() -> Vec<String> {
    vec![s("com.apple.dock"), s("com.apple.finder")]
}

#[test]
fn dock_tilesize_apply_then_unapply() {
    let known = known();
    let mut store: Store = HashMap::new();
    store.insert((s("com.apple.dock"), s("tilesize")), PrefValue::Integer(36));
    let entries = vec![entry("dock", "tilesize", PrefValue::Integer(50))];
    let current = reads(&store, &entries, &known);

    let plan = plan_apply(&entries, &current, &vec![], &known, true, false).unwrap();
    assert_eq!(plan.jobs.len(), 1);
    assert_eq!(plan.jobs[0].domain, "com.apple.dock");
    assert_eq!(plan.jobs[0].key, "tilesize");
    assert!(matches!(plan.jobs[0].new_value, PrefValue::Integer(50)));
    assert!(matches!(plan.jobs[0].original, Some(SerializablePrefValue::Integer(36))));
    assert_eq!(plan.settings.len(), 1);
    assert_eq!(plan.settings[0].domain, "com.apple.dock");
    assert_eq!(plan.settings[0].key, "tilesize");
    assert!(matches!(plan.settings[0].original_value, Some(SerializablePrefValue::Integer(36))));

    run_jobs(&mut store, &plan.jobs);
    assert!(matches!(store.get(&(s("com.apple.dock"), s("tilesize"))), Some(PrefValue::Integer(50))));

    run_unapply(&mut store, &plan.settings);
    assert!(matches!(store.get(&(s("com.apple.dock"), s("tilesize"))), Some(PrefValue::Integer(36))));
}

#[test]
fn apply_then_unapply_gives_back_the_store() {
    let known = known();
    let mut store: Store = HashMap::new();
    store.insert((s("com.apple.dock"), s("tilesize")), PrefValue::Integer(36));
    store.insert((s("com.apple.dock"), s("autohide")), PrefValue::Boolean(true));
    store.insert((s("NSGlobalDomain"), s("other")), PrefValue::String(s("untouched")));
    let before: Store = store.iter().map(|(k, v)| (k.clone(), v.copy_value())).collect();

    let entries = vec![
        entry("dock", "tilesize", PrefValue::Integer(50)),
        entry("dock", "autohide", PrefValue::Boolean(true)),
        entry("finder", "ShowPathbar", PrefValue::Boolean(true)),
        entry("NSGlobalDomain.com.apple.keyboard", "fnState", PrefValue::Boolean(false)),
    ];
    let current = reads(&store, &entries, &known);
    let plan = plan_apply(&entries, &current, &vec![], &known, true, false).unwrap();
    assert_eq!(plan.jobs.len(), 3);
    run_jobs(&mut store, &plan.jobs);
    assert!(!same_store(&store, &before));
    run_unapply(&mut store, &plan.settings);
    assert!(same_store(&store, &before));
}

#[test]
fn second_apply_of_the_same_configuration_has_no_jobs() {
    let known = known();
    let mut store: Store = HashMap::new();
    store.insert((s("com.apple.dock"), s("tilesize")), PrefValue::Integer(36));
    let entries = vec![
        entry("dock", "tilesize", PrefValue::Integer(50)),
        entry("finder", "FXInfoPanesExpanded", PrefValue::Dictionary(vec![
            (s("Preview"), PrefValue::Boolean(false)),
            (s("MetaData"), PrefValue::Boolean(true)),
        ])),
    ];
    let current = reads(&store, &entries, &known);
    let first = plan_apply(&entries, &current, &vec![], &known, true, false).unwrap();
    assert_eq!(first.jobs.len(), 2);
    run_jobs(&mut store, &first.jobs);

    let current = reads(&store, &entries, &known);
    let second = plan_apply(&entries, &current, &first.settings, &known, true, false).unwrap();
    assert_eq!(second.jobs.len(), 0);
    assert_eq!(second.settings.len(), 2);
}

#[test]
fn unknown_domain_stops_the_run_unless_the_check_is_off() {
    let known = known();
    let entries = vec![
        entry("dock", "tilesize", PrefValue::Integer(50)),
        entry("nosuchapp", "k", PrefValue::Integer(1)),
    ];
    let current = vec![None, None];
    match plan_apply(&entries, &current, &vec![], &known, true, false) {
        Err(ApplyError::UnknownDomain(d)) => assert_eq!(d, "com.apple.nosuchapp"),
        _ => panic!("Expected UnknownDomain"),
    }
    let plan = plan_apply(&entries, &current, &vec![], &known, false, false).unwrap();
    assert_eq!(plan.jobs.len(), 2);
    assert!(plan.jobs.iter().all(|j| j.original.is_none()));
}

#[test]
fn global_domain_needs_no_listing() {
    let entries = vec![entry("NSGlobalDomain", "AppleShowAllExtensions", PrefValue::Boolean(true))];
    let plan = plan_apply(&entries, &vec![None], &vec![], &vec![], true, false).unwrap();
    assert_eq!(plan.jobs.len(), 1);
    assert_eq!(plan.jobs[0].domain, "NSGlobalDomain");
}

#[test]
fn unsupported_values_stop_the_run() {
    let known = known();
    let entries = vec![entry("dock", "when", PrefValue::Other(s("datetime")))];
    match plan_apply(&entries, &vec![None], &vec![], &known, true, false) {
        Err(ApplyError::UnsupportedValue(d, k)) => {
            assert_eq!(d, "com.apple.dock");
            assert_eq!(k, "when");
        }
        _ => panic!("Expected UnsupportedValue"),
    }

    let entries = vec![entry("dock", "blob", PrefValue::Integer(1))];
    let current = vec![Some(PrefValue::Other(s("data")))];
    match plan_apply(&entries, &current, &vec![], &known, true, false) {
        Err(ApplyError::UnserializableCurrent(d, k)) => {
            assert_eq!(d, "com.apple.dock");
            assert_eq!(k, "blob");
        }
        _ => panic!("Expected UnserializableCurrent"),
    }
    let plan = plan_apply(&entries, &current, &vec![], &known, true, true).unwrap();
    assert_eq!(plan.jobs.len(), 1);
    assert!(plan.jobs[0].original.is_none());
}

#[test]
fn recorded_originals_are_kept_and_records_stay_unique() {
    let known = known();
    let prior = vec![
        SettingState { domain: s("com.apple.dock"), key: s("tilesize"), original_value: Some(SerializablePrefValue::Integer(10)) },
        SettingState { domain: s("com.apple.finder"), key: s("ShowPathbar"), original_value: None },
        SettingState { domain: s("com.apple.dock"), key: s("tilesize"), original_value: Some(SerializablePrefValue::Integer(99)) },
    ];
    let entries = vec![
        entry("dock", "tilesize", PrefValue::Integer(50)),
        entry("NSGlobalDomain", "com.apple.keyboard.fnState", PrefValue::Boolean(true)),
        entry("NSGlobalDomain.com.apple.keyboard", "fnState", PrefValue::Boolean(false)),
    ];
    let current = vec![Some(PrefValue::Integer(36)), None, None];
    let plan = plan_apply(&entries, &current, &prior, &known, true, false).unwrap();
    assert_eq!(plan.jobs.len(), 3);
    assert!(matches!(plan.jobs[0].original, Some(SerializablePrefValue::Integer(10))));
    let keys: Vec<(&str, &str)> = plan.settings.iter().map(|r| (r.domain.as_str(), r.key.as_str())).collect();
    assert_eq!(
        keys,
        vec![
            ("com.apple.finder", "ShowPathbar"),
            ("com.apple.dock", "tilesize"),
            ("NSGlobalDomain", "com.apple.keyboard.fnState"),
        ]
    );
    assert!(matches!(plan.settings[1].original_value, Some(SerializablePrefValue::Integer(10))));

    let again = next_settings(&plan.settings, &plan.jobs);
    assert_eq!(again.len(), 3);
}

#[test]
fn unapply_walks_records_newest_first() {
    let settings = vec![
        SettingState { domain: s("a"), key: s("1"), original_value: Some(SerializablePrefValue::Integer(1)) },
        SettingState { domain: s("a"), key: s("2"), original_value: None },
        SettingState { domain: s("a"), key: s("3"), original_value: Some(SerializablePrefValue::Integer(3)) },
        SettingState { domain: s("a"), key: s("4"), original_value: None },
    ];
    let plan = plan_unapply(&settings);
    let restores: Vec<&str> = plan.restores.iter().map(|r| r.key.as_str()).collect();
    let deletes: Vec<&str> = plan.deletes.iter().map(|d| d.key.as_str()).collect();
    assert_eq!(restores, vec!["3", "1"]);
    assert_eq!(deletes, vec!["4", "2"]);
    assert!(matches!(plan.restores[0].value, PrefValue::Integer(3)));
}

#[test]
fn baseline_recovers_from_a_bad_snapshot() {
    let snap = Snapshot::new(s("/tmp/s.json"));
    let good = snap.load(true, None, Some(vec![SettingState { domain: s("d"), key: s("k"), original_value: None }]), "1");
    let b = apply_baseline(Some(good));
    assert_eq!(b.settings.len(), 1);
    assert!(!b.suppress_capture);
    let b = apply_baseline(Some(Err(SnapshotError::Corrupt)));
    assert_eq!(b.settings.len(), 0);
    assert!(b.suppress_capture);
    let b = apply_baseline(None);
    assert_eq!(b.settings.len(), 0);
    assert!(!b.suppress_capture);
}

#[test]
fn finished_snapshot_and_warnings() {
    let snap = Snapshot::new(s("/tmp/s.json"));
    let done = finish_snapshot(&snap, vec![], s("abc"), "1.2.3");
    assert_eq!(done.digest, "abc");
    assert_eq!(done.version, "1.2.3");
    assert_eq!(done.path(), "/tmp/s.json");
    let w = unapply_warnings(&done, "abc");
    assert!(!w.drift);
    assert!(!w.commands_not_reverted);
    let mut ran = finish_snapshot(&snap, vec![], s("abc"), "1.2.3");
    ran.exec_run_count = 2;
    let w = unapply_warnings(&ran, "def");
    assert!(w.drift);
    assert!(w.commands_not_reverted);
    assert_eq!(count_successes(&vec![true, false, true]), 2);
    assert_eq!(count_successes(&vec![]), 0);
}
