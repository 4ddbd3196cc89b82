use sync_rs::cache::{LoadOutcome, MigrationManager, Migrator};
use sync_rs::json::{Json, JsonField};
use sync_rs::config::RemoteEntry;
use sync_rs::store::RemoteMap;

fn entry(name: &str, host: &str, dir: &str) -> RemoteEntry {
    RemoteEntry {
        name: name.to_owned(),
        remote_host: host.to_owned(),
        remote_dir: dir.to_owned(),
        override_paths: Vec::new(),
        post_sync_command: None,
        preferred: false,
        ignore_patterns: Vec::new(),
    }
}

fn value_to_json(v: &serde_json::Value) -> Json {
    match v {
        serde_json::Value::Null => Json::Null,
        serde_json::Value::Bool(b) => Json::Bool(*b),
        serde_json::Value::Number(n) => Json::Num(n.to_string()),
        serde_json::Value::String(s) => Json::Str(s.clone()),
        serde_json::Value::Array(items) => Json::Arr(items.iter().map(value_to_json).collect()),
        serde_json::Value::Object(fields) => Json::Obj(
            fields
                .iter()
                .map(|(k, v)| JsonField { key: k.clone(), value: value_to_json(v) })
                .collect(),
        ),
    }
}

fn parse_text(text: &str) -> Option<Json> {
    serde_json::from_str::<serde_json::Value>(text).ok().map(|v| value_to_json(&v))
}

fn chars_to_string(cs: &[char]) -> String {
    cs.iter().collect()
}

fn assert_entries_equal(a: &RemoteEntry, b: &RemoteEntry) {
    assert_eq!(a.name, b.name);
    assert_eq!(a.remote_host, b.remote_host);
    assert_eq!(a.remote_dir, b.remote_dir);
    assert_eq!(a.override_paths, b.override_paths);
    assert_eq!(a.post_sync_command, b.post_sync_command);
    assert_eq!(a.preferred, b.preferred);
    assert_eq!(a.ignore_patterns, b.ignore_patterns);
}

#[test]
fn missing_file_is_empty_store() {
    let manager = MigrationManager::new("0.2.0".to_owned());
    let (store, outcome) = manager.read_cache(None, false);
    assert!(matches!(outcome, LoadOutcome::Missing));
    assert!(!store.contains_key("/home/user/project"));
    assert!(sync_rs::config::list_remotes(&store, "/home/user/project").is_empty());
}

#[test]
fn unreadable_text_is_empty_store() {
    let manager = MigrationManager::new("0.2.0".to_owned());
    let (store, outcome) = manager.read_cache(None, true);
    assert!(matches!(outcome, LoadOutcome::Unrecognized));
    assert!(!store.contains_key("/d"));
}

#[test]
fn unrecognized_document_is_empty_store() {
    let manager = MigrationManager::new("0.2.0".to_owned());
    let doc = parse_text("[1,2,3]").unwrap();
    let (store, outcome) = manager.read_cache(Some(&doc), true);
    assert!(matches!(outcome, LoadOutcome::Unrecognized));
    assert!(!store.contains_key("/d"));
}

#[test]
fn empty_store_saves_as_empty_envelope() {
    let manager = MigrationManager::new("0.2.0".to_owned());
    let store = RemoteMap::new();
    let text = chars_to_string(&manager.save_cache(&store));
    assert_eq!(text, "{\"version\":\"0.2.0\",\"entries\":{}}");
}

#[test]
fn one_entry_saves_as_the_expected_text() {
    let manager = MigrationManager::new("0.2.0".to_owned());
    let mut store = RemoteMap::new();
    let mut e = entry("n", "h", "r");
    e.override_paths = vec!["x".to_owned()];
    e.preferred = true;
    store.insert("/d".to_owned(), vec![e]);
    let text = chars_to_string(&manager.save_cache(&store));
    assert_eq!(
        text,
        "{\"version\":\"0.2.0\",\"entries\":{\"/d\":[{\"name\":\"n\",\"remote_host\":\"h\",\
         \"remote_dir\":\"r\",\"override_paths\":[\"x\"],\"post_sync_command\":null,\
         \"preferred\":true,\"ignore_patterns\":[]}]}}"
    );
}

#[test]
fn legacy_entry_with_unknown_fields_still_migrates() {
    let manager = MigrationManager::new("0.2.0".to_owned());
    let text = "{\"/p\":{\"remote_host\":\"h\",\"remote_dir\":\"d\",\"retries\":3,\"colour\":\"red\"}}";
    let doc = parse_text(text).unwrap();
    let (store, outcome) = manager.read_cache(Some(&doc), true);
    assert!(matches!(outcome, LoadOutcome::Migrated { .. }));
    assert_eq!(store.get("/p").unwrap()[0].name, "h_d");
}

#[test]
fn legacy_entry_missing_required_field_is_unrecognized() {
    let manager = MigrationManager::new("0.2.0".to_owned());
    let text = "{\"/p\":{\"remote_host\":\"h\"}}";
    let doc = parse_text(text).unwrap();
    let (store, outcome) = manager.read_cache(Some(&doc), true);
    assert!(matches!(outcome, LoadOutcome::Unrecognized));
    assert!(!store.contains_key("/p"));
}

#[test]
fn later_directory_pair_of_the_same_key_wins() {
    let manager = MigrationManager::new("0.2.0".to_owned());
    let entries_obj = Json::Obj(vec![
        JsonField {
            key: "/d".to_owned(),
            value: Json::Arr(vec![Json::Obj(vec![
                JsonField { key: "name".to_owned(), value: Json::Str("first".to_owned()) },
                JsonField { key: "remote_host".to_owned(), value: Json::Str("h1".to_owned()) },
                JsonField { key: "remote_dir".to_owned(), value: Json::Str("r1".to_owned()) },
            ])]),
        },
        JsonField {
            key: "/d".to_owned(),
            value: Json::Arr(vec![Json::Obj(vec![
                JsonField { key: "name".to_owned(), value: Json::Str("second".to_owned()) },
                JsonField { key: "remote_host".to_owned(), value: Json::Str("h2".to_owned()) },
                JsonField { key: "remote_dir".to_owned(), value: Json::Str("r2".to_owned()) },
            ])]),
        },
    ]);
    let doc = Json::Obj(vec![
        JsonField { key: "version".to_owned(), value: Json::Str("0.2.0".to_owned()) },
        JsonField { key: "entries".to_owned(), value: entries_obj },
    ]);
    let (store, outcome) = manager.read_cache(Some(&doc), true);
    assert!(matches!(outcome, LoadOutcome::CurrentVersion));
    let es = store.get("/d").unwrap();
    assert_eq!(es.len(), 1);
    assert_eq!(es[0].name, "second");
}

#[test]
fn save_then_load_is_identity() {
    let manager = MigrationManager::new("0.2.0".to_owned());
    let mut store = RemoteMap::new();
    let mut e1 = entry("alpha", "user@alpha", "proj");
    e1.override_paths = vec!["docs".to_owned(), "assets".to_owned()];
    e1.post_sync_command = Some("make check".to_owned());
    e1.preferred = true;
    e1.ignore_patterns = vec!["target".to_owned(), "*.log".to_owned()];
    let e2 = entry("beta", "user@beta", "/srv/proj");
    store.insert("/home/user/project".to_owned(), vec![e1.clone(), e2.clone()]);
    store.insert("/home/user/other".to_owned(), vec![entry("gamma", "g@h", "x")]);

    let text = chars_to_string(&manager.save_cache(&store));
    let doc = parse_text(&text).expect("saved text parses as JSON");
    let (reloaded, outcome) = manager.read_cache(Some(&doc), true);
    assert!(matches!(outcome, LoadOutcome::CurrentVersion));

    let es = reloaded.get("/home/user/project").expect("directory kept");
    assert_eq!(es.len(), 2);
    assert_entries_equal(&es[0], &e1);
    assert_entries_equal(&es[1], &e2);
    let other = reloaded.get("/home/user/other").expect("directory kept");
    assert_eq!(other.len(), 1);
    assert_eq!(other[0].name, "gamma");
}

#[test]
fn save_then_load_keeps_awkward_characters() {
    let manager = MigrationManager::new("0.2.0".to_owned());
    let mut store = RemoteMap::new();
    let mut e = entry("q\"uote\\slash", "h", "a\nb\tc\rd");
    e.post_sync_command = Some("echo \"hi\"".to_owned());
    store.insert("/d".to_owned(), vec![e.clone()]);
    let text = chars_to_string(&manager.save_cache(&store));
    let doc = parse_text(&text).expect("escaped text parses as JSON");
    let (reloaded, _) = manager.read_cache(Some(&doc), true);
    let es = reloaded.get("/d").unwrap();
    assert_entries_equal(&es[0], &e);
}

#[test]
fn other_version_envelope_is_kept() {
    let manager = MigrationManager::new("0.2.0".to_owned());
    let text = "{\"version\":\"0.1.9\",\"entries\":{\"/d\":[{\"name\":\"n\",\"remote_host\":\"h\",\"remote_dir\":\"r\"}]}}";
    let doc = parse_text(text).unwrap();
    let (store, outcome) = manager.read_cache(Some(&doc), true);
    match outcome {
        LoadOutcome::OtherVersion { version } => assert_eq!(version, "0.1.9"),
        _ => panic!("expected the other-version outcome"),
    }
    let es = store.get("/d").unwrap();
    assert_eq!(es.len(), 1);
    assert_eq!(es[0].name, "n");
    assert_eq!(es[0].remote_host, "h");
    assert_eq!(es[0].remote_dir, "r");
    assert!(!es[0].preferred);
    assert!(es[0].override_paths.is_empty());
    assert!(es[0].ignore_patterns.is_empty());
    assert_eq!(es[0].post_sync_command, None);
}

#[test]
fn legacy_document_migrates() {
    let manager = MigrationManager::new("0.2.0".to_owned());
    let text = "{\"/home/u/p\":{\"remote_host\":\"user@box\",\"remote_dir\":\"work/proj\",\"override_paths\":[\"extra\"],\"post_sync_command\":\"make\"}}";
    let doc = parse_text(text).unwrap();
    let (store, outcome) = manager.read_cache(Some(&doc), true);
    match outcome {
        LoadOutcome::Migrated { from_version } => assert_eq!(from_version, "0.1.0"),
        _ => panic!("expected migration"),
    }
    let es = store.get("/home/u/p").expect("migrated directory");
    assert_eq!(es.len(), 1);
    assert_eq!(es[0].name, "user@box_work_proj");
    assert_eq!(es[0].remote_host, "user@box");
    assert_eq!(es[0].remote_dir, "work/proj");
    assert_eq!(es[0].override_paths, vec!["extra".to_owned()]);
    assert_eq!(es[0].post_sync_command, Some("make".to_owned()));
    assert!(!es[0].preferred);
    assert!(es[0].ignore_patterns.is_empty());
}

#[test]
fn migrated_store_reloads_unchanged() {
    let manager = MigrationManager::new("0.2.0".to_owned());
    let text = "{\"/p\":{\"remote_host\":\"h\",\"remote_dir\":\"a/b\"}}";
    let doc = parse_text(text).unwrap();
    let (migrated, outcome) = manager.read_cache(Some(&doc), true);
    assert!(matches!(outcome, LoadOutcome::Migrated { .. }));
    let saved = chars_to_string(&manager.save_cache(&migrated));
    let doc2 = parse_text(&saved).unwrap();
    let (reloaded, outcome2) = manager.read_cache(Some(&doc2), true);
    assert!(matches!(outcome2, LoadOutcome::CurrentVersion));
    let a = migrated.get("/p").unwrap();
    let b = reloaded.get("/p").unwrap();
    assert_eq!(a.len(), b.len());
    assert_entries_equal(&a[0], &b[0]);
    assert_eq!(b[0].name, "h_a_b");
}

#[test]
fn legacy_detection_rejects_envelope() {
    let m = Migrator::Legacy;
    assert_eq!(m.version(), "0.1.0");
    let envelope = parse_text("{\"version\":\"0.2.0\",\"entries\":{}}").unwrap();
    assert!(!m.can_migrate(&envelope));
    let legacy = parse_text("{\"/p\":{\"remote_host\":\"h\",\"remote_dir\":\"d\"}}").unwrap();
    assert!(m.can_migrate(&legacy));
}

#[test]
fn manager_registers_legacy_migrator_first() {
    let mut manager = MigrationManager::new("9.9.9".to_owned());
    assert_eq!(manager.migrators.len(), 1);
    manager.register_migrator(Migrator::Legacy);
    assert_eq!(manager.migrators.len(), 2);
    assert_eq!(manager.current_version, "9.9.9");
}

#[test]
fn remove_remote_absent_name_fails_without_change() {
    let mut store = RemoteMap::new();
    store.insert("/d".to_owned(), vec![entry("a", "h", "r"), entry("b", "h2", "r2")]);
    let r = sync_rs::config::remove_remote(&mut store, "/d", "zzz");
    assert!(r.is_err());
    assert_eq!(store.get("/d").unwrap().len(), 2);
    let r2 = sync_rs::config::remove_remote(&mut store, "/elsewhere", "a");
    assert!(r2.is_err());
}

#[test]
fn remove_remote_shrinks_by_one_and_survives_reload() {
    let manager = MigrationManager::new("0.2.0".to_owned());
    let mut store = RemoteMap::new();
    store.insert("/d".to_owned(), vec![entry("a", "h", "r"), entry("b", "h2", "r2")]);
    sync_rs::config::remove_remote(&mut store, "/d", "a").expect("present name removes");
    let es = store.get("/d").unwrap();
    assert_eq!(es.len(), 1);
    assert_eq!(es[0].name, "b");
    let text = chars_to_string(&manager.save_cache(&store));
    let doc = parse_text(&text).unwrap();
    let (reloaded, _) = manager.read_cache(Some(&doc), true);
    let es2 = reloaded.get("/d").unwrap();
    assert_eq!(es2.len(), 1);
    assert_eq!(es2[0].name, "b");
}

#[test]
fn listing_annotates_the_preferred_entry() {
    let mut store = RemoteMap::new();
    let mut b = entry("b", "h2", "r2");
    b.preferred = true;
    store.insert("/d".to_owned(), vec![entry("a", "h", "r"), b]);
    let rows = sync_rs::config::list_remotes(&store, "/d");
    assert_eq!(rows.len(), 2);
    assert_eq!(rows[0].name, "a");
    assert!(!rows[0].preferred);
    assert_eq!(rows[1].name, "b");
    assert!(rows[1].preferred);
    assert_eq!(rows[1].remote_host, "h2");
    assert_eq!(rows[1].remote_dir, "r2");
}

#[test]
fn select_remote_validates_the_range() {
    let es = vec![entry("a", "h", "r"), entry("b", "h2", "r2")];
    assert_eq!(sync_rs::config::select_remote(&es, 1).unwrap(), "a");
    assert_eq!(sync_rs::config::select_remote(&es, 2).unwrap(), "b");
    assert!(sync_rs::config::select_remote(&es, 0).is_err());
    assert!(sync_rs::config::select_remote(&es, 3).is_err());
}
