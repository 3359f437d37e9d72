use nvproton::CoreError;
use nvproton::cli::LaunchOptionsArgs;
use nvproton::cli::parse_kv_pair;
use nvproton::database::GameDatabase;
use nvproton::runner::apply_profile_to_env;
use nvproton::runner::build_launch_command;
use nvproton::settings::SettingValue;
use nvproton::settings::SettingsMap;
use nvproton::source::DetectedGame;
use nvproton::source::GameSource;
use nvproton::source::StringMap;
use nvproton::steam_options::build_steam_launch_string;
use nvproton::steam_options::recommended_options;
use nvproton::strutil::replace_backslashes;

fn game(source: GameSource, id: &str, name: &str) -> DetectedGame {
    DetectedGame {
        source,
        id: id.to_string(),
        name: name.to_string(),
        install_dir: "/g".to_string(),
        executable: None,
        fingerprint: None,
        metadata: StringMap::new(),
    }
}

#[test]
fn launch_commands_per_source() {
    let extra = vec!["--skip-intro".to_string()];
    let steam = build_launch_command(&game(GameSource::Steam, "1245620", "ER"), &extra).unwrap();
    assert_eq!(steam, vec!["steam", "-applaunch", "1245620", "--skip-intro"]);
    let heroic = build_launch_command(&game(GameSource::Heroic, "gala", "G"), &extra).unwrap();
    assert_eq!(heroic, vec!["heroic", "--launch", "gala", "--skip-intro"]);
    let lutris = build_launch_command(&game(GameSource::Lutris, "celeste", "C"), &extra).unwrap();
    assert_eq!(lutris, vec!["lutris", "lutris:rungame/celeste", "--skip-intro"]);
    let mut unknown = game(GameSource::Unknown, "x", "X");
    let err = build_launch_command(&unknown, &extra);
    assert!(matches!(err, Err(CoreError::NotFound)));
    unknown.executable = Some("/g/x.exe".to_string());
    let direct = build_launch_command(&unknown, &extra).unwrap();
    assert_eq!(direct, vec!["/g/x.exe", "--skip-intro"]);
}

#[test]
fn steam_launch_string_orders_sections() {
    let options = vec![
        "nvproton run 1245620 --".to_string(),
        "DXVK_FRAME_RATE=120".to_string(),
        "mangohud".to_string(),
    ];
    let line = build_steam_launch_string(&options, true);
    assert_eq!(line, "DXVK_FRAME_RATE=120 mangohud nvproton run %appid% -- %command%");
    let bare = build_steam_launch_string(&vec![], false);
    assert_eq!(bare, "%command%");
}

#[test]
fn recommended_options_follow_flags() {
    let args = LaunchOptionsArgs {
        game_id: "1245620".to_string(),
        use_nvproton: true,
        reflex: true,
        vrr: false,
        fps: 120,
        shader_cache: false,
        mangohud: true,
        gamemode: false,
        env: vec![("PROTON_LOG".to_string(), "1".to_string())],
        copy_format: false,
    };
    let opts = recommended_options(&args, "1245620");
    assert_eq!(
        opts,
        vec![
            "nvproton run 1245620 --",
            "DXVK_NVAPI_ALLOW_REFLEX=1",
            "__GL_REFLEX=1",
            "DXVK_FRAME_RATE=120",
            "mangohud",
            "PROTON_LOG=1",
        ]
    );
}

#[test]
fn profile_settings_become_env_vars() {
    let mut settings = SettingsMap::new();
    let mut env_sec = SettingsMap::new();
    env_sec.set_entry("PROTON_LOG", SettingValue::Str("1".to_string()));
    settings.set_entry("env", SettingValue::Mapping(env_sec));
    let mut nvidia = SettingsMap::new();
    nvidia.set_entry("reflex", SettingValue::Bool(true));
    nvidia.set_entry("max_fps", SettingValue::Int(120));
    settings.set_entry("nvidia", SettingValue::Mapping(nvidia));
    let mut dxvk = SettingsMap::new();
    dxvk.set_entry("hud", SettingValue::Str("fps".to_string()));
    dxvk.set_entry("async", SettingValue::Bool(false));
    settings.set_entry("dxvk", SettingValue::Mapping(dxvk));

    let mut env = StringMap::new();
    apply_profile_to_env(&SettingValue::Mapping(settings), &mut env);
    assert_eq!(env.get("PROTON_LOG").unwrap(), "1");
    assert_eq!(env.get("__GL_REFLEX").unwrap(), "1");
    assert_eq!(env.get("__GL_MAX_FPS").unwrap(), "120");
    assert_eq!(env.get("DXVK_HUD").unwrap(), "fps");
    assert_eq!(env.get("DXVK_ASYNC").unwrap(), "0");
    assert!(env.get("env").is_none());
}

#[test]
fn negative_numbers_keep_their_sign() {
    let mut settings = SettingsMap::new();
    let mut nvidia = SettingsMap::new();
    nvidia.set_entry("offset", SettingValue::Int(-3));
    settings.set_entry("nvidia", SettingValue::Mapping(nvidia));
    let mut env = StringMap::new();
    apply_profile_to_env(&SettingValue::Mapping(settings), &mut env);
    assert_eq!(env.get("__GL_OFFSET").unwrap(), "-3");
}

#[test]
fn kv_pairs_parse_and_trim() {
    let (k, v) = parse_kv_pair(" PROTON_LOG = 1 ").expect("pair");
    assert_eq!(k, "PROTON_LOG");
    assert_eq!(v, "1");
    let (k, v) = parse_kv_pair("A=").expect("empty value is fine");
    assert_eq!(k, "A");
    assert_eq!(v, "");
    assert!(parse_kv_pair("no-equals").is_err());
    assert!(parse_kv_pair(" =value").is_err());
}

#[test]
fn find_game_by_id_and_name() {
    let mut db = GameDatabase::new();
    db.merge_detected(
        &vec![
            game(GameSource::Steam, "1245620", "Elden Ring"),
            game(GameSource::Lutris, "celeste", "Celeste"),
        ],
        1,
    );
    let config = nvproton::config::NvConfig::for_home(Some("/home/u"));
    let paths = nvproton::config::ConfigPaths::from_base("/home/u/.config/nvproton");
    let manager = nvproton::config::ConfigManager::from_paths(paths);
    let ctx = nvproton::runner::RunContext::new(&config, &manager, db);
    let by_id = ctx.find_game(Some("1245620"), None).expect("by id");
    assert_eq!(by_id.name, "Elden Ring");
    let by_name = ctx.find_game(None, Some("elden")).expect("by name");
    assert_eq!(by_name.id, "1245620");
    let miss = ctx.find_game(Some("nope"), Some("nothing"));
    assert!(matches!(miss, Err(CoreError::NotFound)));
}

#[test]
fn backslashes_become_forward_slashes() {
    assert_eq!(replace_backslashes("C:\\games\\lib"), "C:/games/lib");
    assert_eq!(replace_backslashes("/plain/path"), "/plain/path");
}
