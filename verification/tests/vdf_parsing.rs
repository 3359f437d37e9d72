use nvproton::steam::is_excluded_appid;
use nvproton::steam::parse_manifest;
use nvproton::steam::steam_game_from_manifest;
use nvproton::source::GameSource;
use nvproton::vdf::parse_kv_pairs;
use nvproton::vdf::parse_library_paths;

const MANIFEST: &str = "\"AppState\"\n{\n\t\"appid\"\t\t\"1245620\"\n\t\"name\"\t\t\"ELDEN RING\"\n\t\"installdir\"\t\t\"ELDEN RING\"\n\t\"StateFlags\"\t\t\"4\"\n}\n";

#[test]
fn kv_pairs_of_manifest() {
    let pairs = parse_kv_pairs(MANIFEST);
    assert_eq!(pairs.len(), 4);
    assert_eq!(pairs[0].0, "appid");
    assert_eq!(pairs[0].1, "1245620");
    assert_eq!(pairs[1].0, "name");
    assert_eq!(pairs[1].1, "ELDEN RING");
    assert_eq!(pairs[3].0, "StateFlags");
    assert_eq!(pairs[3].1, "4");
}

#[test]
fn manifest_with_required_keys() {
    let m = parse_manifest(MANIFEST).expect("complete manifest");
    assert_eq!(m.appid, "1245620");
    assert_eq!(m.name, "ELDEN RING");
    assert_eq!(m.installdir, "ELDEN RING");
    assert_eq!(m.metadata.get("StateFlags").unwrap(), "4");
}

#[test]
fn manifest_missing_keys_is_skipped() {
    let m = parse_manifest("\"appid\"\t\"42\"\n\"name\"\t\"Game\"\n");
    assert!(m.is_none());
}

#[test]
fn manifest_last_value_wins() {
    let m = parse_manifest("\"appid\" \"1\"\n\"appid\" \"2\"\n\"name\" \"g\"\n\"installdir\" \"d\"\n")
        .expect("manifest");
    assert_eq!(m.appid, "2");
}

#[test]
fn library_paths_extraction() {
    let content = "\"libraryfolders\"\n{\n\t\"0\"\n\t{\n\t\t\"path\"\t\t\"/home/u/.local/share/Steam\"\n\t}\n\t\"1\"\n\t{\n\t\t\"path\"\t\t\"/mnt/games\"\n\t}\n}\n";
    let paths = parse_library_paths(content);
    assert_eq!(paths.len(), 2);
    assert_eq!(paths[0], "/home/u/.local/share/Steam");
    assert_eq!(paths[1], "/mnt/games");
}

#[test]
fn library_paths_of_plain_text_are_empty() {
    let paths = parse_library_paths("nothing to see here");
    assert_eq!(paths.len(), 0);
}

#[test]
fn excluded_appids() {
    assert!(is_excluded_appid("228980"));
    assert!(is_excluded_appid("1493710"));
    assert!(!is_excluded_appid("1245620"));
}

#[test]
fn steam_game_paths() {
    let m = parse_manifest(MANIFEST).expect("manifest");
    let g = steam_game_from_manifest("/mnt/games", m, None, None);
    assert!(matches!(g.source, GameSource::Steam));
    assert_eq!(g.id, "1245620");
    assert_eq!(g.install_dir, "/mnt/games/steamapps/common/ELDEN RING");
    assert!(g.executable.is_none());
}
