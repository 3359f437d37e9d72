use nvproton::exe_resolver::ExeCandidate;
use nvproton::exe_resolver::is_launcher_or_tool;
use nvproton::exe_resolver::locate_primary_executable;
use nvproton::exe_resolver::score_executable;

fn cand(rel_path: &str, size: Option<u64>) -> ExeCandidate {
    ExeCandidate { rel_path: rel_path.to_string(), size }
}

#[test]
fn name_match_beats_setup_helper() {
    // an install directory named "Game" with the game binary and an
    // installer helper side by side: the helper is excluded outright
    let candidates = vec![cand("GameSetup.exe", None), cand("Game.exe", None)];
    let chosen = locate_primary_executable("/library/steamapps/common/Game", &candidates);
    assert_eq!(chosen.as_deref(), Some("Game.exe"));
}

#[test]
fn skip_patterns_exclude_all_candidates() {
    let candidates = vec![cand("Setup.exe", None), cand("UnityCrashHandler64.exe", None)];
    let chosen = locate_primary_executable("/g/Thing", &candidates);
    assert!(chosen.is_none());
}

#[test]
fn non_executables_never_qualify() {
    let candidates = vec![cand("readme.txt", None), cand("game.sh", None)];
    assert!(locate_primary_executable("/g/Thing", &candidates).is_none());
}

#[test]
fn larger_shallow_binary_wins_over_deep_helper() {
    let candidates = vec![
        cand("tools/converter.exe", Some(100)),
        cand("Big.exe", Some(200_000_000)),
    ];
    let chosen = locate_primary_executable("/g/Big", &candidates);
    assert_eq!(chosen.as_deref(), Some("Big.exe"));
}

#[test]
fn launcher_names_are_tools() {
    assert!(is_launcher_or_tool("gamelauncher.exe"));
    assert!(is_launcher_or_tool("unins000.exe"));
    assert!(is_launcher_or_tool("vcredist_x64.exe"));
    assert!(!is_launcher_or_tool("game.exe"));
}

#[test]
fn scoring_follows_the_rules() {
    // name match (+50), at the top (+30), big file (+15)
    let c = cand("Game.exe", Some(60_000_000));
    assert_eq!(score_executable(&c, "/lib/Game"), 50 + 30 + 15 + 10);
    // "game" in the name alone gives +10; the small size costs 20
    let c2 = cand("other/gamething.exe", Some(10));
    assert_eq!(score_executable(&c2, "/lib/Unrelated"), 10 - 20);
    // depth two under bin (+25), name match via spaceless directory name
    let c3 = cand("bin/CoolGame.exe", None);
    assert_eq!(score_executable(&c3, "/lib/Cool Game"), 50 + 25 + 10);
    // server without dedicated costs 10
    let c4 = cand("a/b/server.exe", None);
    assert_eq!(score_executable(&c4, "/lib/Else"), -10);
    // engine shipping-name pattern
    let c5 = cand("Pkg/Binaries/Win64/Thing-Win64-Shipping.exe", None);
    assert_eq!(score_executable(&c5, "/lib/Thing"), 50 + 20);
}

#[test]
fn uppercase_setup_is_still_excluded() {
    // the skip check runs on the lowercased name
    let candidates = vec![cand("SETUP.EXE", None)];
    assert!(locate_primary_executable("/g/Thing", &candidates).is_none());
}

#[test]
fn first_of_equal_scores_wins() {
    let candidates = vec![cand("alpha.exe", None), cand("beta.exe", None)];
    let chosen = locate_primary_executable("/g/Other", &candidates);
    assert_eq!(chosen.as_deref(), Some("alpha.exe"));
}
