use nvproton::database::GameDatabase;
use nvproton::source::DetectedGame;
use nvproton::source::GameSource;
use nvproton::source::StringMap;
use nvproton::source::game_key;

fn game(source: GameSource, id: &str, name: &str, fingerprint: Option<&str>) -> DetectedGame {
    DetectedGame {
        source,
        id: id.to_string(),
        name: name.to_string(),
        install_dir: format!("/games/{}", id),
        executable: None,
        fingerprint: fingerprint.map(|f| f.to_string()),
        metadata: StringMap::new(),
    }
}

#[test]
fn merge_twice_keeps_one_record_per_key() {
    let mut db = GameDatabase::new();
    let games = vec![
        game(GameSource::Steam, "1245620", "Elden Ring", Some("abc")),
        game(GameSource::Lutris, "celeste", "Celeste", None),
    ];
    db.merge_detected(&games, 100);
    // a later scan without fingerprints must not erase the recorded one
    let rescan = vec![
        game(GameSource::Steam, "1245620", "Elden Ring", None),
        game(GameSource::Lutris, "celeste", "Celeste", None),
    ];
    db.merge_detected(&rescan, 200);
    assert_eq!(db.entries.len(), 2);
    let steam_entry = &db.entries[0];
    assert_eq!(steam_entry.0, "steam:1245620");
    assert_eq!(steam_entry.1.last_seen, 200);
    assert_eq!(steam_entry.1.fingerprint.as_deref(), Some("abc"));
    let lutris_entry = &db.entries[1];
    assert_eq!(lutris_entry.0, "lutris:celeste");
    assert_eq!(lutris_entry.1.last_seen, 200);
    assert!(lutris_entry.1.fingerprint.is_none());
}

#[test]
fn same_bare_id_under_two_sources_gives_two_records() {
    let mut db = GameDatabase::new();
    let games = vec![
        game(GameSource::Steam, "shared", "A", None),
        game(GameSource::Heroic, "shared", "B", None),
    ];
    db.merge_detected(&games, 1);
    assert_eq!(db.entries.len(), 2);
}

#[test]
fn get_matches_bare_id_and_full_key() {
    let mut db = GameDatabase::new();
    db.merge_detected(&vec![game(GameSource::Steam, "1245620", "Elden Ring", None)], 5);
    let by_bare = db.get("1245620").expect("suffix match");
    assert_eq!(by_bare.id, "1245620");
    assert_eq!(by_bare.name, "Elden Ring");
    let by_key = db.get("steam:1245620").expect("exact match");
    assert_eq!(by_key.id, "steam:1245620");
    assert!(db.get("999").is_none());
}

#[test]
fn cleanup_removes_all_and_only_excluded() {
    let mut db = GameDatabase::new();
    let games = vec![
        game(GameSource::Steam, "1245620", "Elden Ring", None),
        game(GameSource::Steam, "228980", "Steamworks Common Redistributables", None),
        game(GameSource::Steam, "1887720", "Proton 8.0", None),
        game(GameSource::Lutris, "228980", "Not Actually Steam", None),
    ];
    db.merge_detected(&games, 7);
    let removed = db.cleanup_excluded();
    assert_eq!(removed, 2);
    assert_eq!(db.entries.len(), 2);
    assert_eq!(db.entries[0].0, "steam:1245620");
    assert_eq!(db.entries[1].0, "lutris:228980");
    // a second run finds nothing left to remove
    assert_eq!(db.cleanup_excluded(), 0);
}

#[test]
fn games_listing_skips_excluded_and_uses_bare_ids() {
    let mut db = GameDatabase::new();
    let games = vec![
        game(GameSource::Steam, "1245620", "Elden Ring", None),
        game(GameSource::Steam, "1493710", "Proton Experimental", None),
    ];
    db.merge_detected(&games, 3);
    let listed = db.games();
    assert_eq!(listed.len(), 1);
    assert_eq!(listed[0].id, "1245620");
    assert_eq!(listed[0].name, "Elden Ring");
}

#[test]
fn profile_assignment_by_bare_id() {
    let mut db = GameDatabase::new();
    db.merge_detected(&vec![game(GameSource::Steam, "1245620", "Elden Ring", None)], 3);
    assert!(db.get_game_profile("1245620").is_none());
    db.set_game_profile("1245620", "performance");
    assert_eq!(db.get_game_profile("1245620").as_deref(), Some("performance"));
    assert_eq!(db.get_game_profile("steam:1245620").as_deref(), Some("performance"));
    assert!(db.get_game_profile("unknown-id").is_none());
}

#[test]
fn merge_updates_install_dir_and_metadata() {
    let mut db = GameDatabase::new();
    let mut first = game(GameSource::Heroic, "gala", "Gala", None);
    first.metadata.insert("platform".to_string(), "windows".to_string());
    db.merge_detected(&vec![first], 1);
    let mut second = game(GameSource::Heroic, "gala", "Gala Renamed", None);
    second.install_dir = "/moved/gala".to_string();
    second.metadata.insert("app_name".to_string(), "gala".to_string());
    db.merge_detected(&vec![second], 2);
    let rec = &db.entries[0].1;
    // the display name recorded first sticks; location follows the rescan
    assert_eq!(rec.name, "Gala");
    assert_eq!(rec.install_dir, "/moved/gala");
    assert_eq!(rec.metadata.get("platform").unwrap(), "windows");
    assert_eq!(rec.metadata.get("app_name").unwrap(), "gala");
    let key = game_key(&game(GameSource::Heroic, "gala", "x", None));
    assert_eq!(db.entries[0].0, key);
}
