//! Launch-time logic: finding the game to run, building the command
//! that launches it through its own library manager, and turning a
//! resolved profile's settings into environment variables. Spawning the
//! process and reading files stay outside; this module only decides.

use vstd::prelude::*;

use crate::CoreError;
use crate::config::ConfigManager;
use crate::config::NvConfig;
use crate::database::GameDatabase;
use crate::database::detected_of;
use crate::database::first_match;
use crate::database::has_match;
use crate::database::games_of;
use crate::profile::ProfileManager;
use crate::settings::SettingValue;
use crate::source::DetectedGame;
use crate::source::GameSource;
use crate::source::GameView;
use crate::strutil::contains_seq;
use crate::strutil::dec_str_signed;
use crate::strutil::lower_of;
use crate::strutil::lowercase;
use crate::strutil::str_contains;
use crate::strutil::upper_of;

verus! {

/// What launching needs: the configuration, the directory layout, the
/// profile store and the loaded game database.
pub struct RunContext<'a> {
    pub config: &'a NvConfig,
    pub manager: &'a ConfigManager,
    pub profile_manager: ProfileManager,
    pub game_db: GameDatabase,
}

/// The game's lowercased name holds the lowercased query.
pub open spec fn name_query_matches(g: GameView, q: Seq<char>) -> bool {
    contains_seq(lower_of(g.name), lower_of(q))
}

/// The game at `i` is the first one whose name holds the query.
pub open spec fn is_first_name_match(gs: Seq<GameView>, q: Seq<char>, i: int) -> bool {
    &&& 0 <= i < gs.len()
    &&& name_query_matches(gs[i], q)
    &&& forall|j: int| 0 <= j < i ==> !name_query_matches(#[trigger] gs[j], q)
}

/// Some game's name holds the query.
pub open spec fn has_name_match(gs: Seq<GameView>, q: Seq<char>) -> bool {
    exists|i: int| 0 <= i < gs.len() && name_query_matches(#[trigger] gs[i], q)
}

/// The index of the first game whose name holds the query; meaningful
/// when one exists.
pub open spec fn first_name_match(gs: Seq<GameView>, q: Seq<char>) -> int {
    choose|i: int| is_first_name_match(gs, q, i)
}

/// When some name matches, a first match exists.
pub proof fn lemma_first_name_match(gs: Seq<GameView>, q: Seq<char>)
    requires
        has_name_match(gs, q),
    ensures
        is_first_name_match(gs, q, first_name_match(gs, q)),
{
    let w = choose|i: int| 0 <= i < gs.len() && name_query_matches(#[trigger] gs[i], q);
    lemma_first_name_below(gs, q, w);
    let f = choose|i: int| is_first_name_match(gs, q, i);
    assert(is_first_name_match(gs, q, f));
}

proof fn lemma_first_name_below(gs: Seq<GameView>, q: Seq<char>, w: int)
    requires
        0 <= w < gs.len(),
        name_query_matches(gs[w], q),
    ensures
        exists|i: int| is_first_name_match(gs, q, i),
    decreases w,
{
    if forall|j: int| 0 <= j < w ==> !name_query_matches(#[trigger] gs[j], q) {
        assert(is_first_name_match(gs, q, w));
    } else {
        let j = choose|j: int| 0 <= j < w && name_query_matches(#[trigger] gs[j], q);
        lemma_first_name_below(gs, q, j);
    }
}

impl<'a> RunContext<'a> {
    /// A context over an already loaded database; the profile store sits
    /// in the profiles directory of the layout.
    pub fn new(config: &'a NvConfig, manager: &'a ConfigManager, game_db: GameDatabase) -> (r:
        RunContext<'a>)
        requires
            game_db.wf(),
        ensures
            r.config == config,
            r.manager == manager,
            r.profile_manager.root@ == manager.paths.profiles_dir@,
            r.game_db == game_db,
    {
        let profile_manager = ProfileManager::new(manager.paths.profiles_dir.clone());
        RunContext { config, manager, profile_manager, game_db }
    }

    /// Finds a game: by identifier first (bare or full key), then by a
    /// case-insensitive name fragment over the listed games, in store
    /// order. With neither, or with no match, the game is not found.
    pub fn find_game(&self, id: Option<&str>, name: Option<&str>) -> (r: Result<
        DetectedGame,
        CoreError,
    >)
        requires
            self.game_db.wf(),
        ensures
            match r {
                Ok(g) => {
                    &&& g.wf()
                    &&& if id is Some && has_match(self.game_db@, id.unwrap()@) {
                        g@ == detected_of(
                            id.unwrap()@,
                            self.game_db@[first_match(self.game_db@, id.unwrap()@)].1,
                        )
                    } else {
                        name is Some && has_name_match(
                            games_of(self.game_db@),
                            name.unwrap()@,
                        ) && g@ == games_of(self.game_db@)[first_name_match(
                            games_of(self.game_db@),
                            name.unwrap()@,
                        )]
                    }
                },
                Err(e) => {
                    &&& e == CoreError::NotFound
                    &&& (id is Some ==> !has_match(self.game_db@, id.unwrap()@))
                    &&& (name is Some ==> !has_name_match(games_of(self.game_db@), name.unwrap()@))
                },
            },
    {
        match id {
            Some(gid) => {
                let found = self.game_db.get(gid);
                match found {
                    Some(g) => {
                        return Ok(g);
                    },
                    None => {},
                }
            },
            None => {},
        }
        match name {
            Some(game_name) => {
                let name_lower = lowercase(game_name);
                let games = self.game_db.games();
                let ghost gs = games_of(self.game_db@);
                let n: usize = games.len();
                let mut i: usize = 0;
                proof {
                    assert(games@.map_values(|g: DetectedGame| g@).len() == gs.len());
                }
                while i < n
                    invariant
                        self.game_db.wf(),
                        id is Some ==> !has_match(self.game_db@, id.unwrap()@),
                        name is Some && name.unwrap()@ == game_name@,
                        games@.map_values(|g: DetectedGame| g@) == gs,
                        gs == games_of(self.game_db@),
                        name_lower@ == lower_of(game_name@),
                        n == games@.len(),
                        n == gs.len(),
                        i <= n,
                        forall|k: int| 0 <= k < games@.len() ==> (#[trigger] games@[k]).wf(),
                        forall|k: int| 0 <= k < i ==> !name_query_matches(#[trigger] gs[k], game_name@),
                    decreases n - i,
                {
                    let gname_lower = lowercase(games[i].name.as_str());
                    proof {
                        assert(games@[i as int]@ == gs[i as int]);
                    }
                    if str_contains(gname_lower.as_str(), name_lower.as_str()) {
                        proof {
                            assert(is_first_name_match(gs, game_name@, i as int));
                            lemma_first_name_match(gs, game_name@);
                            assert(first_name_match(gs, game_name@) == i as int);
                        }
                        let g = games[i].duplicate();
                        proof {
                            assert(g.wf());
                            assert(g@ == gs[i as int]);
                            assert(name.unwrap()@ == game_name@);
                            assert(has_name_match(gs, game_name@));
                            assert(g@ == gs[first_name_match(gs, game_name@)]);
                        }
                        return Ok(g);
                    }
                    i = i + 1;
                }
            },
            None => {},
        }
        Err(CoreError::NotFound)
    }
}

/// The command that launches a game: through its own library manager,
/// or directly through its executable when the source is unknown; a
/// game of unknown source with no executable cannot be launched.
pub open spec fn launch_command_spec(g: GameView, extra: Seq<Seq<char>>) -> Option<Seq<Seq<char>>> {
    match g.source {
        GameSource::Steam => Some(seq!["steam"@, "-applaunch"@, g.id] + extra),
        GameSource::Heroic => Some(seq!["heroic"@, "--launch"@, g.id] + extra),
        GameSource::Lutris => Some(seq!["lutris"@, "lutris:rungame/"@ + g.id] + extra),
        GameSource::Unknown => match g.executable {
            Some(e) => Some(seq![e] + extra),
            None => None,
        },
    }
}

/// Builds the launch command for a game.
pub fn build_launch_command(game: &DetectedGame, extra_args: &Vec<String>) -> (r: Result<
    Vec<String>,
    CoreError,
>)
    ensures
        match r {
            Ok(cmd) => launch_command_spec(game@, extra_args@.map_values(|a: String| a@)) == Some(
                cmd@.map_values(|a: String| a@),
            ),
            Err(e) => launch_command_spec(game@, extra_args@.map_values(|a: String| a@)) is None
                && e == CoreError::NotFound,
        },
{
    let mut cmd: Vec<String> = Vec::new();
    match game.source {
        GameSource::Steam => {
            cmd.push(String::from_str("steam"));
            cmd.push(String::from_str("-applaunch"));
            cmd.push(game.id.clone());
        },
        GameSource::Heroic => {
            cmd.push(String::from_str("heroic"));
            cmd.push(String::from_str("--launch"));
            cmd.push(game.id.clone());
        },
        GameSource::Lutris => {
            cmd.push(String::from_str("lutris"));
            cmd.push(crate::strutil::str_concat("lutris:rungame/", game.id.as_str()));
        },
        GameSource::Unknown => {
            match &game.executable {
                Some(e) => {
                    cmd.push(e.clone());
                },
                None => {
                    return Err(CoreError::NotFound);
                },
            }
        },
    }
    let ghost base = cmd@.map_values(|a: String| a@);
    let n: usize = extra_args.len();
    let mut i: usize = 0;
    proof {
        assert(cmd@.map_values(|a: String| a@) =~= base + extra_args@.take(0).map_values(
            |a: String| a@,
        ));
    }
    while i < n
        invariant
            n == extra_args@.len(),
            i <= n,
            cmd@.map_values(|a: String| a@) == base + extra_args@.take(i as int).map_values(
                |a: String| a@,
            ),
        decreases n - i,
    {
        let ghost prevm = cmd@.map_values(|a: String| a@);
        cmd.push(extra_args[i].clone());
        i = i + 1;
        proof {
            assert(cmd@.map_values(|a: String| a@) =~= prevm.push(
                extra_args@[i as int - 1]@,
            ));
            assert(extra_args@.take(i as int).map_values(|a: String| a@) =~= extra_args@.take(
                i as int - 1,
            ).map_values(|a: String| a@).push(extra_args@[i as int - 1]@));
            assert(cmd@.map_values(|a: String| a@) =~= base + extra_args@.take(
                i as int,
            ).map_values(|a: String| a@));
        }
    }
    proof {
        assert(extra_args@.take(n as int) =~= extra_args@);
        assert(launch_command_spec(game@, extra_args@.map_values(|a: String| a@)) == Some(
            cmd@.map_values(|a: String| a@),
        )) by {
            assert(cmd@.map_values(|a: String| a@) =~= base + extra_args@.map_values(
                |a: String| a@,
            ));
            match game.source {
                GameSource::Steam => {
                    assert(base =~= seq!["steam"@, "-applaunch"@, game@.id]);
                },
                GameSource::Heroic => {
                    assert(base =~= seq!["heroic"@, "--launch"@, game@.id]);
                },
                GameSource::Lutris => {
                    assert(base =~= seq!["lutris"@, "lutris:rungame/"@ + game@.id]);
                },
                GameSource::Unknown => {
                    assert(base =~= seq![game@.executable.unwrap()]);
                },
            }
        }
    }
    Ok(cmd)
}

/// The named section of a settings tree: the entries of the mapping at
/// that key, or nothing when the key is absent or holds a scalar.
pub open spec fn section_of(
    entries: Seq<(Seq<char>, crate::settings::SettingView)>,
    key: Seq<char>,
) -> Seq<(Seq<char>, crate::settings::SettingView)> {
    match crate::settings::lookup(entries, key) {
        Some(crate::settings::SettingView::Mapping(sec)) => sec,
        _ => Seq::empty(),
    }
}

/// The `env` section applied to an environment: each string value set
/// under its own key, in section order; other values are ignored.
pub open spec fn env_section_applied(
    m: Map<Seq<char>, Seq<char>>,
    sec: Seq<(Seq<char>, crate::settings::SettingView)>,
) -> Map<Seq<char>, Seq<char>>
    decreases sec.len(),
{
    if sec.len() == 0 {
        m
    } else {
        let m1 = env_section_applied(m, sec.drop_last());
        match sec.last().1 {
            crate::settings::SettingView::Str(v) => m1.insert(sec.last().0, v),
            _ => m1,
        }
    }
}

/// The environment form of a prefixed section's value: booleans become
/// `1` or `0`, numbers their decimal form, strings themselves; nothing
/// else is set.
pub open spec fn prefixed_value(v: crate::settings::SettingView) -> Option<Seq<char>> {
    match v {
        crate::settings::SettingView::Bool(b) => Some(
            if b {
                "1"@
            } else {
                "0"@
            },
        ),
        crate::settings::SettingView::Int(i) => Some(dec_str_signed(i)),
        crate::settings::SettingView::Str(s) => Some(s),
        _ => None,
    }
}

/// A prefixed section applied to an environment: each usable value set
/// under the prefix and the uppercased key, in section order.
pub open spec fn prefixed_section_applied(
    m: Map<Seq<char>, Seq<char>>,
    sec: Seq<(Seq<char>, crate::settings::SettingView)>,
    prefix: Seq<char>,
) -> Map<Seq<char>, Seq<char>>
    decreases sec.len(),
{
    if sec.len() == 0 {
        m
    } else {
        let m1 = prefixed_section_applied(m, sec.drop_last(), prefix);
        match prefixed_value(sec.last().1) {
            Some(v) => m1.insert(prefix + upper_of(sec.last().0), v),
            None => m1,
        }
    }
}

/// A resolved profile's settings applied to an environment: the `env`
/// section as it stands, then the `nvidia` section under `__GL_`, then
/// the `dxvk` section under `DXVK_`. Settings that are not a mapping
/// change nothing.
pub open spec fn profile_env_applied(
    settings: crate::settings::SettingView,
    m: Map<Seq<char>, Seq<char>>,
) -> Map<Seq<char>, Seq<char>> {
    match settings {
        crate::settings::SettingView::Mapping(entries) => prefixed_section_applied(
            prefixed_section_applied(
                env_section_applied(m, section_of(entries, "env"@)),
                section_of(entries, "nvidia"@),
                "__GL_"@,
            ),
            section_of(entries, "dxvk"@),
            "DXVK_"@,
        ),
        _ => m,
    }
}

/// Applies the `env` section.
fn apply_env_section(env_vars: &mut crate::source::StringMap, sec: &crate::settings::SettingsMap)
    requires
        old(env_vars).wf(),
    ensures
        final(env_vars).wf(),
        final(env_vars)@ == env_section_applied(old(env_vars)@, sec@),
{
    let n: usize = sec.entries.len();
    let mut i: usize = 0;
    proof {
        assert(crate::settings::sm_view(sec.entries@.take(0)) =~= Seq::<
            (Seq<char>, crate::settings::SettingView),
        >::empty());
    }
    while i < n
        invariant
            old(env_vars).wf(),
            n == sec.entries@.len(),
            i <= n,
            env_vars.wf(),
            env_vars@ == env_section_applied(
                old(env_vars)@,
                crate::settings::sm_view(sec.entries@.take(i as int)),
            ),
        decreases n - i,
    {
        proof {
            crate::settings::lemma_sm_view_index(sec.entries@);
        }
        match &sec.entries[i].1 {
            crate::settings::SettingValue::Str(v) => {
                env_vars.insert(sec.entries[i].0.clone(), v.clone());
            },
            _ => {},
        }
        i = i + 1;
        proof {
            let t = crate::settings::sm_view(sec.entries@.take(i as int));
            crate::settings::lemma_sm_view_index(sec.entries@.take(i as int));
            crate::settings::lemma_sm_view_index(sec.entries@.take(i as int - 1));
            assert(t.drop_last() =~= crate::settings::sm_view(sec.entries@.take(i as int - 1)));
            assert(sec.entries@.take(i as int)[i - 1] == sec.entries@[i - 1]);
            assert(t.last() == (sec.entries@[i - 1].0@, crate::settings::sv_view(
                sec.entries@[i - 1].1,
            )));
        }
    }
    proof {
        assert(sec.entries@.take(n as int) =~= sec.entries@);
    }
}

/// Applies a prefixed section.
fn apply_prefixed_section(
    env_vars: &mut crate::source::StringMap,
    sec: &crate::settings::SettingsMap,
    prefix: &str,
)
    requires
        old(env_vars).wf(),
    ensures
        final(env_vars).wf(),
        final(env_vars)@ == prefixed_section_applied(old(env_vars)@, sec@, prefix@),
{
    let n: usize = sec.entries.len();
    let mut i: usize = 0;
    proof {
        assert(crate::settings::sm_view(sec.entries@.take(0)) =~= Seq::<
            (Seq<char>, crate::settings::SettingView),
        >::empty());
    }
    while i < n
        invariant
            old(env_vars).wf(),
            n == sec.entries@.len(),
            i <= n,
            env_vars.wf(),
            env_vars@ == prefixed_section_applied(
                old(env_vars)@,
                crate::settings::sm_view(sec.entries@.take(i as int)),
                prefix@,
            ),
        decreases n - i,
    {
        proof {
            crate::settings::lemma_sm_view_index(sec.entries@);
        }
        let env_key = crate::strutil::str_concat(
            prefix,
            crate::strutil::uppercase(sec.entries[i].0.as_str()).as_str(),
        );
        match &sec.entries[i].1 {
            crate::settings::SettingValue::Bool(b) => {
                let v = if *b {
                    String::from_str("1")
                } else {
                    String::from_str("0")
                };
                env_vars.insert(env_key, v);
            },
            crate::settings::SettingValue::Int(x) => {
                env_vars.insert(env_key, crate::strutil::i64_to_string(*x));
            },
            crate::settings::SettingValue::Str(s) => {
                env_vars.insert(env_key, s.clone());
            },
            _ => {},
        }
        i = i + 1;
        proof {
            let t = crate::settings::sm_view(sec.entries@.take(i as int));
            crate::settings::lemma_sm_view_index(sec.entries@.take(i as int));
            crate::settings::lemma_sm_view_index(sec.entries@.take(i as int - 1));
            assert(t.drop_last() =~= crate::settings::sm_view(sec.entries@.take(i as int - 1)));
            assert(sec.entries@.take(i as int)[i - 1] == sec.entries@[i - 1]);
            assert(t.last() == (sec.entries@[i - 1].0@, crate::settings::sv_view(
                sec.entries@[i - 1].1,
            )));
        }
    }
    proof {
        assert(sec.entries@.take(n as int) =~= sec.entries@);
    }
}

/// Applies a resolved profile's settings to an environment: the `env`
/// section as it stands, the `nvidia` section under `__GL_`, the `dxvk`
/// section under `DXVK_`.
pub fn apply_profile_to_env(
    settings: &SettingValue,
    env_vars: &mut crate::source::StringMap,
)
    requires
        old(env_vars).wf(),
        settings.wf(),
    ensures
        final(env_vars).wf(),
        final(env_vars)@ == profile_env_applied(settings@, old(env_vars)@),
{
    match settings {
        SettingValue::Mapping(map) => {
            proof {
                crate::settings::lemma_entries_wf_index(map@);
            }
            let env_sec = map.get("env");
            match env_sec {
                Some(SettingValue::Mapping(sec)) => {
                    apply_env_section(env_vars, sec);
                },
                _ => {
                    proof {
                        assert(section_of(map@, "env"@) =~= Seq::<
                            (Seq<char>, crate::settings::SettingView),
                        >::empty());
                    }
                },
            }
            let nvidia_sec = map.get("nvidia");
            match nvidia_sec {
                Some(SettingValue::Mapping(sec)) => {
                    apply_prefixed_section(env_vars, sec, "__GL_");
                },
                _ => {
                    proof {
                        assert(section_of(map@, "nvidia"@) =~= Seq::<
                            (Seq<char>, crate::settings::SettingView),
                        >::empty());
                    }
                },
            }
            let dxvk_sec = map.get("dxvk");
            match dxvk_sec {
                Some(SettingValue::Mapping(sec)) => {
                    apply_prefixed_section(env_vars, sec, "DXVK_");
                },
                _ => {
                    proof {
                        assert(section_of(map@, "dxvk"@) =~= Seq::<
                            (Seq<char>, crate::settings::SettingView),
                        >::empty());
                    }
                },
            }
        },
        _ => {},
    }
}

} // verus!
