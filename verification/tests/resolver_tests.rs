use sync_rs::config::{generate_unique_name, CliIntent, RemoteEntry};
use sync_rs::resolver::{determine_remote_config, Resolution};
use sync_rs::store::RemoteMap;

fn entry(name: &str, host: &str, dir: &str) -> RemoteEntry {
    RemoteEntry {
        name: name.to_owned(),
        remote_host: host.to_owned(),
        remote_dir: dir.to_owned(),
        override_paths: Vec::new(),
        post_sync_command: None,
        preferred: false,
        ignore_patterns: Vec::new(),
    }
}

fn empty_intent() -> CliIntent {
    CliIntent {
        remote_host: None,
        remote_dir: None,
        name: None,
        override_paths: Vec::new(),
        post_command: None,
        preferred: false,
        ignore_patterns: Vec::new(),
    }
}

const DIR: &str = "/home/user/project";

fn store_with(entries: Vec<RemoteEntry>) -> RemoteMap {
    let mut store = RemoteMap::new();
    store.insert(DIR.to_owned(), entries);
    store
}

#[test]
fn unique_name_takes_free_base() {
    let store = store_with(vec![entry("other", "h", "r")]);
    assert_eq!(generate_unique_name("user@box", &store, DIR), "user@box");
    assert_eq!(generate_unique_name("user@box", &store, "/unknown"), "user@box");
}

#[test]
fn unique_name_drops_the_port() {
    let store = RemoteMap::new();
    assert_eq!(generate_unique_name("user@box:2222", &store, DIR), "user@box");
}

#[test]
fn unique_name_numbers_past_the_highest_index() {
    let store = store_with(vec![entry("a", "h", "r"), entry("a_1", "h", "r"), entry(
        "a_3", "h", "r",
    )]);
    assert_eq!(generate_unique_name("a", &store, DIR), "a_4");
}

#[test]
fn unique_name_counts_bare_base_as_index_zero() {
    let store = store_with(vec![entry("a", "h", "r")]);
    assert_eq!(generate_unique_name("a", &store, DIR), "a_1");
}

#[test]
fn partial_host_dir_is_rejected() {
    let mut store = store_with(vec![]);
    let mut args = empty_intent();
    args.remote_host = Some("h".to_owned());
    let r = determine_remote_config(&args, &mut store, DIR);
    assert!(r.is_err());
    assert_eq!(store.get(DIR).unwrap().len(), 0);
}

#[test]
fn explicit_host_dir_on_empty_store_creates_one_entry() {
    let mut store = store_with(vec![]);
    let mut args = empty_intent();
    args.remote_host = Some("user@box".to_owned());
    args.remote_dir = Some("work/proj".to_owned());
    let r = determine_remote_config(&args, &mut store, DIR).unwrap();
    match r {
        Resolution::UseEntry { entry, save } => {
            assert!(save);
            assert_eq!(entry.name, "user@box");
            assert_eq!(entry.remote_host, "user@box");
            assert_eq!(entry.remote_dir, "work/proj");
            assert!(!entry.preferred);
        },
        _ => panic!("expected an entry"),
    }
    let es = store.get(DIR).unwrap();
    assert_eq!(es.len(), 1);
    assert_eq!(es[0].name, "user@box");
    assert!(!es[0].preferred);
}

#[test]
fn explicit_host_dir_replaces_the_entry_of_the_same_name() {
    let mut store = store_with(vec![entry("keep", "h0", "r0"), entry("box", "h1", "r1")]);
    let mut args = empty_intent();
    args.remote_host = Some("box".to_owned());
    args.remote_dir = Some("new/dir".to_owned());
    args.name = Some("box".to_owned());
    let r = determine_remote_config(&args, &mut store, DIR).unwrap();
    match r {
        Resolution::UseEntry { entry, save } => {
            assert!(save);
            assert_eq!(entry.name, "box");
            assert_eq!(entry.remote_dir, "new/dir");
        },
        _ => panic!("expected an entry"),
    }
    let es = store.get(DIR).unwrap();
    assert_eq!(es.len(), 2);
    assert_eq!(es[0].name, "keep");
    assert_eq!(es[1].name, "box");
    assert_eq!(es[1].remote_dir, "new/dir");
}

#[test]
fn empty_list_without_arguments_asks_for_host_and_dir() {
    let mut store = store_with(vec![]);
    let args = empty_intent();
    let r = determine_remote_config(&args, &mut store, DIR).unwrap();
    assert!(matches!(r, Resolution::NeedHostDir));
    assert_eq!(store.get(DIR).unwrap().len(), 0);
}

#[test]
fn single_entry_override_path_updates_only_that_field() {
    let mut e = entry("only", "user@box", "proj");
    e.post_sync_command = Some("make".to_owned());
    let mut store = store_with(vec![e]);
    let mut args = empty_intent();
    args.override_paths = vec!["extra".to_owned()];
    let r = determine_remote_config(&args, &mut store, DIR).unwrap();
    match r {
        Resolution::UseEntry { entry, save } => {
            assert!(save);
            assert_eq!(entry.name, "only");
            assert_eq!(entry.remote_host, "user@box");
            assert_eq!(entry.remote_dir, "proj");
            assert_eq!(entry.override_paths, vec!["extra".to_owned()]);
            assert_eq!(entry.post_sync_command, Some("make".to_owned()));
        },
        _ => panic!("expected an entry"),
    }
    let es = store.get(DIR).unwrap();
    assert_eq!(es[0].override_paths, vec!["extra".to_owned()]);
    assert_eq!(es[0].remote_host, "user@box");
    assert_eq!(es[0].name, "only");
}

#[test]
fn setting_preferred_leaves_exactly_one_preferred_entry() {
    let mut a = entry("a", "h", "r");
    a.preferred = true;
    let b = entry("b", "h2", "r2");
    let c = entry("c", "h3", "r3");
    let mut store = store_with(vec![a, b, c]);
    let mut args = empty_intent();
    args.preferred = true;
    args.name = Some("c".to_owned());
    let r = determine_remote_config(&args, &mut store, DIR).unwrap();
    match r {
        Resolution::UseEntry { entry, save } => {
            assert!(save);
            assert_eq!(entry.name, "c");
            assert!(entry.preferred);
        },
        _ => panic!("expected an entry"),
    }
    let es = store.get(DIR).unwrap();
    assert_eq!(es.len(), 3);
    let preferred: Vec<&str> = es.iter().filter(|e| e.preferred).map(|e| e.name.as_str()).collect();
    assert_eq!(preferred, vec!["c"]);
}

#[test]
fn preferred_flag_without_name_fails_on_multiple_entries() {
    let mut store = store_with(vec![entry("a", "h", "r"), entry("b", "h2", "r2")]);
    let mut args = empty_intent();
    args.preferred = true;
    assert!(determine_remote_config(&args, &mut store, DIR).is_err());
    assert!(!store.get(DIR).unwrap().iter().any(|e| e.preferred));
}

#[test]
fn preferred_entry_wins_without_arguments() {
    let a = entry("a", "h", "r");
    let mut b = entry("b", "h2", "r2");
    b.preferred = true;
    let mut store = store_with(vec![a, b]);
    let args = empty_intent();
    let r = determine_remote_config(&args, &mut store, DIR).unwrap();
    match r {
        Resolution::UseEntry { entry, save } => {
            assert!(!save);
            assert_eq!(entry.name, "b");
        },
        _ => panic!("expected an entry"),
    }
}

#[test]
fn named_entry_wins_without_preferred() {
    let mut store = store_with(vec![entry("a", "h", "r"), entry("b", "h2", "r2")]);
    let mut args = empty_intent();
    args.name = Some("a".to_owned());
    let r = determine_remote_config(&args, &mut store, DIR).unwrap();
    match r {
        Resolution::UseEntry { entry, save } => {
            assert!(!save);
            assert_eq!(entry.name, "a");
        },
        _ => panic!("expected an entry"),
    }
}

#[test]
fn named_update_rewrites_the_entry_in_place() {
    let mut store = store_with(vec![entry("a", "h", "r"), entry("b", "h2", "r2")]);
    let mut args = empty_intent();
    args.name = Some("a".to_owned());
    args.ignore_patterns = vec!["*.tmp".to_owned()];
    let r = determine_remote_config(&args, &mut store, DIR).unwrap();
    match r {
        Resolution::UseEntry { entry, save } => {
            assert!(save);
            assert_eq!(entry.name, "a");
            assert_eq!(entry.ignore_patterns, vec!["*.tmp".to_owned()]);
        },
        _ => panic!("expected an entry"),
    }
    let es = store.get(DIR).unwrap();
    assert_eq!(es.len(), 2);
    assert_eq!(es[0].name, "a");
    assert_eq!(es[0].ignore_patterns, vec!["*.tmp".to_owned()]);
    assert_eq!(es[1].name, "b");
    assert!(es[1].ignore_patterns.is_empty());
}

#[test]
fn preferred_on_the_single_entry_sets_it() {
    let mut store = store_with(vec![entry("only", "h", "r")]);
    let mut args = empty_intent();
    args.preferred = true;
    let r = determine_remote_config(&args, &mut store, DIR).unwrap();
    match r {
        Resolution::UseEntry { entry, save } => {
            assert!(save);
            assert!(entry.preferred);
        },
        _ => panic!("expected an entry"),
    }
    assert!(store.get(DIR).unwrap()[0].preferred);
}

#[test]
fn unknown_name_fails_resolution() {
    let mut store = store_with(vec![entry("a", "h", "r"), entry("b", "h2", "r2")]);
    let mut args = empty_intent();
    args.name = Some("zzz".to_owned());
    assert!(determine_remote_config(&args, &mut store, DIR).is_err());
}

#[test]
fn several_anonymous_entries_ask_for_a_selection() {
    let mut store = store_with(vec![entry("a", "h", "r"), entry("b", "h2", "r2")]);
    let args = empty_intent();
    let r = determine_remote_config(&args, &mut store, DIR).unwrap();
    assert!(matches!(r, Resolution::NeedSelection));
}

#[test]
fn error_messages_name_the_failure() {
    let e = sync_rs::errors::SyncError::NameRequiredForPreferred;
    assert_eq!(e.message(), "Name required when setting preferred remote");
    let e2 = sync_rs::errors::SyncError::SelectionOutOfRange;
    assert_eq!(e2.message(), "Selection out of range");
}

#[test]
fn remote_dir_resolution_keeps_absolute_paths() {
    assert_eq!(sync_rs::sync::resolve_remote_dir("/home/u", "/srv/x"), "/srv/x");
    assert_eq!(sync_rs::sync::resolve_remote_dir("/home/u", "work/proj"), "/home/u/work/proj");
}

#[test]
fn destination_joins_host_and_dir() {
    assert_eq!(sync_rs::sync::build_destination("user@box", "/srv/x"), "user@box:/srv/x");
}

#[test]
fn filter_string_joins_the_rules() {
    let ps = vec!["target".to_owned(), "*.log".to_owned()];
    assert_eq!(sync_rs::sync::build_filter_string(&ps), ":- .gitignore,- target,- *.log");
    let none: Vec<String> = Vec::new();
    assert_eq!(sync_rs::sync::build_filter_string(&none), ":- .gitignore");
}

#[test]
fn post_command_changes_into_the_directory() {
    assert_eq!(sync_rs::sync::build_post_command("/srv/x", "make deploy"), "cd /srv/x && make deploy");
}

#[test]
fn rsync_version_line_parses() {
    assert_eq!(
        sync_rs::sync::parse_rsync_major("rsync  version 3.2.7  protocol version 31"),
        Some(3),
    );
    assert_eq!(sync_rs::sync::parse_rsync_major("rsync version 10.0"), Some(10));
    assert_eq!(sync_rs::sync::parse_rsync_major("rsync version"), None);
    assert_eq!(sync_rs::sync::parse_rsync_major("rsync version x.y"), None);
    assert!(sync_rs::sync::rsync_major_supported(3));
    assert!(!sync_rs::sync::rsync_major_supported(2));
}
