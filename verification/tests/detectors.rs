use nvproton::heroic::HeroicEntry;
use nvproton::heroic::heroic_game_from_entry;
use nvproton::heroic::locate_executable_hint;
use nvproton::lutris::LutrisQuery;
use nvproton::lutris::LutrisRow;
use nvproton::lutris::lutris_fallback_query;
use nvproton::lutris::lutris_game_from_row;
use nvproton::lutris::lutris_initial_query;
use nvproton::source::GameSource;
use nvproton::strutil::sorted_unique;

fn entry(identifier: &str, title: &str, install: Option<&str>) -> HeroicEntry {
    HeroicEntry {
        identifier: identifier.to_string(),
        title: title.to_string(),
        app_name: None,
        install_path: install.map(|s| s.to_string()),
        executable: None,
        platform: None,
        launch_options: None,
    }
}

#[test]
fn heroic_identity_priority() {
    // identifier first
    let g = heroic_game_from_entry(&entry("gala-id", "Gala", Some("/h/gala")), false, None)
        .expect("game");
    assert_eq!(g.id, "gala-id");
    assert_eq!(g.name, "Gala");
    assert!(matches!(g.source, GameSource::Heroic));
    // app_name when the identifier is empty
    let mut e = entry("", "Gala", Some("/h/gala"));
    e.app_name = Some("gala-app".to_string());
    let g = heroic_game_from_entry(&e, false, None).expect("game");
    assert_eq!(g.id, "gala-app");
    // title as the last resort
    let g = heroic_game_from_entry(&entry("", "Gala", Some("/h/gala")), false, None)
        .expect("game");
    assert_eq!(g.id, "Gala");
    // an empty app_name does not count: the title is next in priority
    let mut e = entry("", "Gala", Some("/h/gala"));
    e.app_name = Some(String::new());
    let g = heroic_game_from_entry(&e, false, None).expect("game");
    assert_eq!(g.id, "Gala");
}

#[test]
fn heroic_entry_without_install_or_identity_is_skipped() {
    assert!(heroic_game_from_entry(&entry("id", "T", None), false, None).is_none());
    assert!(heroic_game_from_entry(&entry("", "", Some("/h/x")), false, None).is_none());
    // all three identity fields empty: skipped even with app_name present
    let mut e = entry("", "", Some("/h/x"));
    e.app_name = Some(String::new());
    assert!(heroic_game_from_entry(&e, false, None).is_none());
}

#[test]
fn heroic_executable_needs_to_exist() {
    let mut e = entry("id", "T", Some("/h/t"));
    e.executable = Some("/h/t/t.exe".to_string());
    let with = heroic_game_from_entry(&e, true, None).expect("game");
    assert_eq!(with.executable.as_deref(), Some("/h/t/t.exe"));
    let without = heroic_game_from_entry(&e, false, None).expect("game");
    assert!(without.executable.is_none());
}

#[test]
fn heroic_hint_joins_under_install_dir() {
    let hint = "bin/run.exe".to_string();
    let r = locate_executable_hint("/h/t", Some(&hint));
    assert_eq!(r.as_deref(), Some("/h/t/bin/run.exe"));
    let none = locate_executable_hint("/h/t", None);
    assert!(none.is_none());
    let empty = String::new();
    assert!(locate_executable_hint("/h/t", Some(&empty)).is_none());
}

#[test]
fn lutris_schema_fallback_order() {
    let first = lutris_initial_query();
    assert_eq!(first, LutrisQuery::NewSchema);
    assert!(matches!(lutris_fallback_query(first), Ok(LutrisQuery::OldSchema)));
    assert!(matches!(
        lutris_fallback_query(LutrisQuery::OldSchema),
        Err(nvproton::CoreError::SchemaMismatch)
    ));
}

#[test]
fn lutris_rows_of_either_schema_give_the_same_shape() {
    // a newer-schema row has no executable column
    let new_row = LutrisRow {
        slug: "celeste".to_string(),
        name: "Celeste".to_string(),
        directory: "/l/celeste".to_string(),
        executable: None,
        runner: Some("wine".to_string()),
    };
    let g1 = lutris_game_from_row(&new_row, None);
    assert!(matches!(g1.source, GameSource::Lutris));
    assert_eq!(g1.id, "celeste");
    assert_eq!(g1.install_dir, "/l/celeste");
    assert!(g1.executable.is_none());
    assert_eq!(g1.metadata.get("runner").unwrap(), "wine");
    // an older-schema row carries the executable, joined under the directory
    let old_row = LutrisRow { executable: Some("Celeste.exe".to_string()), ..new_row };
    let g2 = lutris_game_from_row(&old_row, None);
    assert!(matches!(g2.source, GameSource::Lutris));
    assert_eq!(g2.id, g1.id);
    assert_eq!(g2.install_dir, g1.install_dir);
    assert_eq!(g2.executable.as_deref(), Some("/l/celeste/Celeste.exe"));
}

fn query_rows(
    conn: &rusqlite::Connection,
    query: LutrisQuery,
) -> rusqlite::Result<Vec<LutrisRow>> {
    match query {
        LutrisQuery::NewSchema => {
            let mut stmt = conn.prepare("SELECT slug, name, directory, runner FROM games")?;
            let rows = stmt.query_map([], |row| {
                Ok(LutrisRow {
                    slug: row.get(0)?,
                    name: row.get(1)?,
                    directory: row.get(2)?,
                    executable: None,
                    runner: row.get(3)?,
                })
            })?;
            rows.collect()
        }
        LutrisQuery::OldSchema => {
            let mut stmt = conn.prepare("SELECT slug, name, directory, exe, runner FROM games")?;
            let rows = stmt.query_map([], |row| {
                Ok(LutrisRow {
                    slug: row.get(0)?,
                    name: row.get(1)?,
                    directory: row.get(2)?,
                    executable: row.get(3)?,
                    runner: row.get(4)?,
                })
            })?;
            rows.collect()
        }
    }
}

/// Runs the query protocol the way the launcher does: the initial query
/// first, the fallback on failure, the mismatch surfaced when both fail.
fn detect_rows(conn: &rusqlite::Connection) -> Result<Vec<LutrisRow>, nvproton::CoreError> {
    let mut query = lutris_initial_query();
    loop {
        match query_rows(conn, query) {
            Ok(rows) => return Ok(rows),
            Err(_) => match lutris_fallback_query(query) {
                Ok(next) => query = next,
                Err(e) => return Err(e),
            },
        }
    }
}

#[test]
fn old_schema_database_detects_without_error() {
    let conn = rusqlite::Connection::open_in_memory().expect("in-memory database");
    conn.execute_batch(
        "CREATE TABLE games (slug TEXT, name TEXT, directory TEXT, exe TEXT, runner TEXT);
         INSERT INTO games VALUES ('celeste', 'Celeste', '/l/celeste', 'Celeste.exe', 'wine');",
    )
    .expect("old-schema table");
    let rows = detect_rows(&conn).expect("detection survives the older schema");
    assert_eq!(rows.len(), 1);
    let g = lutris_game_from_row(&rows[0], None);
    assert!(matches!(g.source, GameSource::Lutris));
    assert_eq!(g.id, "celeste");
    assert_eq!(g.install_dir, "/l/celeste");
}

#[test]
fn unknown_schema_surfaces_the_mismatch() {
    let conn = rusqlite::Connection::open_in_memory().expect("in-memory database");
    conn.execute_batch("CREATE TABLE games (only_column TEXT);").expect("table");
    let err = detect_rows(&conn).expect_err("neither schema fits");
    assert!(matches!(err, nvproton::CoreError::SchemaMismatch));
}

#[test]
fn library_dirs_sorted_and_unique() {
    let input = vec![
        "/mnt/games".to_string(),
        "/home/u/.local/share/Steam".to_string(),
        "/mnt/games".to_string(),
    ];
    let out = sorted_unique(&input);
    assert_eq!(out.len(), 2);
    assert_eq!(out[0], "/home/u/.local/share/Steam");
    assert_eq!(out[1], "/mnt/games");
}
