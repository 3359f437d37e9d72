//! The command-line data model: every subcommand's arguments as plain
//! data, and the `KEY=VALUE` parser used for settings assignments.
//! Argument parsing itself happens outside; these types carry what it
//! produced.

use vstd::prelude::*;

use crate::strutil::find_from;
use crate::strutil::is_ws;
use crate::strutil::str_to_chars;
use crate::strutil::ws_char;

verus! {

/// The whole command line: one command.
#[derive(Debug)]
pub struct Cli {
    pub command: Commands,
}

/// The commands.
#[derive(Debug)]
pub enum Commands {
    Run(RunArgs),
    Prepare(PrepareArgs),
    Games(GamesArgs),
    Steam(SteamArgs),
    Detect(DetectArgs),
    Profile(ProfileArgs),
    Config(ConfigArgs),
}

/// Arguments of the run command.
#[derive(Debug)]
pub struct RunArgs {
    pub game_id: Option<String>,
    pub name: Option<String>,
    pub profile: Option<String>,
    pub reflex: bool,
    pub fps: u32,
    pub vrr: bool,
    pub no_prewarm: bool,
    pub dry_run: bool,
    pub game_args: Vec<String>,
}

/// Arguments of the prepare command.
#[derive(Debug)]
pub struct PrepareArgs {
    pub game_id: Option<String>,
    pub name: Option<String>,
    pub profile: Option<String>,
    pub force: bool,
    pub progress: bool,
}

/// Arguments of the games command.
#[derive(Debug)]
pub struct GamesArgs {
    pub command: GamesCommand,
}

/// The games subcommands.
#[derive(Debug)]
pub enum GamesCommand {
    List(GamesListArgs),
    Show(GamesShowArgs),
    Scan(GamesScanArgs),
    SetProfile(GamesSetProfileArgs),
    Info(GamesInfoArgs),
}

/// Arguments of the games list subcommand.
#[derive(Debug)]
pub struct GamesListArgs {
    pub source: Option<String>,
    pub format: OutputFormat,
}

/// Arguments of the games show subcommand.
#[derive(Debug)]
pub struct GamesShowArgs {
    pub game_id: String,
}

/// Arguments of the games scan subcommand.
#[derive(Debug)]
pub struct GamesScanArgs {
    pub all: bool,
    pub fingerprint: bool,
}

/// Arguments of the games set-profile subcommand.
#[derive(Debug)]
pub struct GamesSetProfileArgs {
    pub game_id: String,
    pub profile: String,
}

/// Arguments of the games info subcommand.
#[derive(Debug)]
pub struct GamesInfoArgs {
    pub game_id: String,
    pub command: bool,
}

/// Arguments of the detect command.
#[derive(Debug)]
pub struct DetectArgs {
    pub command: DetectCommand,
}

/// The detect subcommands.
#[derive(Debug)]
pub enum DetectCommand {
    Steam(DetectSourceArgs),
    Heroic(DetectSourceArgs),
    Lutris(DetectSourceArgs),
    All(DetectAllArgs),
}

/// Arguments of a single-source detect subcommand.
#[derive(Debug)]
pub struct DetectSourceArgs {
    pub format: OutputFormat,
    pub update_db: bool,
    pub fingerprint: bool,
}

/// Arguments of the all-sources detect subcommand.
#[derive(Debug)]
pub struct DetectAllArgs {
    pub format: OutputFormat,
    pub update_db: bool,
    pub fingerprint: bool,
}

/// How listings are rendered.
#[derive(Debug, Clone, Copy, PartialEq, Eq, Structural)]
pub enum OutputFormat {
    Text,
    Json,
    Yaml,
}

/// Arguments of the profile command.
#[derive(Debug)]
pub struct ProfileArgs {
    pub command: ProfileCommand,
}

/// The profile subcommands.
#[derive(Debug)]
pub enum ProfileCommand {
    List,
    Show(ProfileNameArgs),
    Create(ProfileCreateArgs),
    SetValues(ProfileSetArgs),
    Import(ProfileImportArgs),
    Export(ProfileExportArgs),
}

/// A profile name.
#[derive(Debug)]
pub struct ProfileNameArgs {
    pub name: String,
}

/// Arguments of the profile create subcommand.
#[derive(Debug)]
pub struct ProfileCreateArgs {
    pub name: String,
    pub base: Option<String>,
    pub values: Vec<(String, String)>,
}

/// Arguments of the profile set subcommand.
#[derive(Debug)]
pub struct ProfileSetArgs {
    pub name: String,
    pub values: Vec<(String, String)>,
}

/// Arguments of the profile import subcommand.
#[derive(Debug)]
pub struct ProfileImportArgs {
    pub path: String,
    pub name: Option<String>,
}

/// Arguments of the profile export subcommand.
#[derive(Debug)]
pub struct ProfileExportArgs {
    pub name: String,
    pub format: OutputFormat,
    pub path: Option<String>,
}

/// Arguments of the config command.
#[derive(Debug)]
pub struct ConfigArgs {
    pub command: ConfigCommand,
}

/// The config subcommands.
#[derive(Debug)]
pub enum ConfigCommand {
    Show,
    Paths,
    Reset,
}

/// Arguments of the steam command.
#[derive(Debug)]
pub struct SteamArgs {
    pub command: SteamCommand,
}

/// The steam subcommands.
#[derive(Debug)]
pub enum SteamCommand {
    LaunchOptions(LaunchOptionsArgs),
    Proton(ProtonArgs),
    Shortcut(ShortcutArgs),
}

/// Arguments of the steam launch-options subcommand.
#[derive(Debug)]
pub struct LaunchOptionsArgs {
    pub game_id: String,
    pub use_nvproton: bool,
    pub reflex: bool,
    pub vrr: bool,
    pub fps: u32,
    pub shader_cache: bool,
    pub mangohud: bool,
    pub gamemode: bool,
    pub env: Vec<(String, String)>,
    pub copy_format: bool,
}

/// Arguments of the steam proton subcommand.
#[derive(Debug)]
pub struct ProtonArgs {
    pub command: ProtonCommand,
}

/// The proton subcommands.
#[derive(Debug)]
pub enum ProtonCommand {
    List,
    Recommended,
    SetDefault(String),
}

/// Arguments of the steam shortcut subcommand.
#[derive(Debug)]
pub struct ShortcutArgs {
    pub command: ShortcutCommand,
}

/// The shortcut subcommands.
#[derive(Debug)]
pub enum ShortcutCommand {
    Create(ShortcutCreateArgs),
    List,
    Optimize(ShortcutOptimizeArgs),
}

/// Arguments of the shortcut create subcommand.
#[derive(Debug)]
pub struct ShortcutCreateArgs {
    pub name: String,
    pub exe: String,
    pub start_dir: Option<String>,
    pub icon: Option<String>,
    pub launch_options: Option<String>,
}

/// Arguments of the shortcut optimize subcommand.
#[derive(Debug)]
pub struct ShortcutOptimizeArgs {
    pub appid: String,
    pub profile: Option<String>,
}

/// The first non-whitespace position.
pub open spec fn lead_ws_end(s: Seq<char>, i: int) -> int
    decreases s.len() - i,
{
    if i < 0 {
        i
    } else if i >= s.len() {
        s.len() as int
    } else if !is_ws(s[i]) {
        i
    } else {
        lead_ws_end(s, i + 1)
    }
}

/// Where the trailing whitespace run begins.
pub open spec fn trail_ws_start(s: Seq<char>) -> int
    decreases s.len(),
{
    if s.len() == 0 {
        0
    } else if is_ws(s.last()) {
        trail_ws_start(s.drop_last())
    } else {
        s.len() as int
    }
}

/// `s` without leading and trailing whitespace.
pub open spec fn trim_of(s: Seq<char>) -> Seq<char> {
    if lead_ws_end(s, 0) >= trail_ws_start(s) {
        Seq::empty()
    } else {
        s.subrange(lead_ws_end(s, 0), trail_ws_start(s))
    }
}

/// `lead_ws_end` moves forward within bounds.
proof fn lemma_lead_ws_end(s: Seq<char>, i: int)
    requires
        0 <= i <= s.len(),
    ensures
        i <= lead_ws_end(s, i) <= s.len(),
    decreases s.len() - i,
{
    if i < s.len() && is_ws(s[i]) {
        lemma_lead_ws_end(s, i + 1);
    }
}

/// `trail_ws_start` stays within bounds.
proof fn lemma_trail_ws_start(s: Seq<char>)
    ensures
        0 <= trail_ws_start(s) <= s.len(),
    decreases s.len(),
{
    if s.len() > 0 && is_ws(s.last()) {
        lemma_trail_ws_start(s.drop_last());
    }
}

/// Removes leading and trailing whitespace.
pub fn trim_str(s: &str) -> (r: String)
    ensures
        r@ == trim_of(s@),
{
    let v = str_to_chars(s);
    let n: usize = v.len();
    let mut start: usize = 0;
    while start < n && ws_char(v[start])
        invariant
            n == s@.len(),
            v@ == s@,
            start <= n,
            lead_ws_end(s@, 0) == lead_ws_end(s@, start as int),
        decreases n - start,
    {
        start = start + 1;
    }
    proof {
        assert(lead_ws_end(s@, 0) == start as int);
    }
    let mut stop: usize = n;
    proof {
        assert(s@.take(n as int) =~= s@);
    }
    while stop > 0 && ws_char(v[stop - 1])
        invariant
            n == s@.len(),
            v@ == s@,
            stop <= n,
            trail_ws_start(s@) == trail_ws_start(s@.take(stop as int)),
        decreases stop,
    {
        proof {
            assert(s@.take(stop as int).last() == s@[stop - 1]);
            assert(s@.take(stop as int).drop_last() =~= s@.take(stop as int - 1));
        }
        stop = stop - 1;
    }
    proof {
        assert(s@.take(n as int) =~= s@);
        if stop > 0 {
            assert(s@.take(stop as int).last() == s@[stop - 1]);
        }
        assert(trail_ws_start(s@) == stop as int);
    }
    if start >= stop {
        proof {
            assert(trim_of(s@) =~= Seq::<char>::empty());
        }
        String::new()
    } else {
        String::from_str(s.substring_char(start, stop))
    }
}

/// Parses a `KEY=VALUE` assignment: both sides are trimmed of
/// whitespace, the value may be empty, the key may not, and an input
/// with no equals sign is refused.
pub fn parse_kv_pair(s: &str) -> (r: Result<(String, String), String>)
    ensures
        ({
            let eq = find_from(s@, '=', 0);
            match r {
                Ok(kv) => {
                    &&& eq < s@.len()
                    &&& kv.0@ == trim_of(s@.take(eq))
                    &&& kv.0@.len() > 0
                    &&& kv.1@ == trim_of(s@.skip(eq + 1))
                },
                Err(e) => {
                    if eq == s@.len() {
                        e@ == "expected KEY=VALUE format"@
                    } else {
                        trim_of(s@.take(eq)).len() == 0 && e@
                            == "key cannot be empty"@
                    }
                },
            }
        }),
{
    let v = str_to_chars(s);
    let n: usize = v.len();
    let eq = crate::strutil::scan_for_char(&v, '=', 0);
    if eq == n {
        return Err(String::from_str("expected KEY=VALUE format"));
    }
    proof {
        crate::strutil::lemma_find_from(s@, '=', 0);
        assert(s@.take(eq as int) =~= s@.subrange(0, eq as int));
        assert(s@.skip(eq as int + 1) =~= s@.subrange(eq as int + 1, n as int));
    }
    let key = trim_str(s.substring_char(0, eq));
    let value = trim_str(s.substring_char(eq + 1, n));
    if key.as_str().unicode_len() == 0 {
        return Err(String::from_str("key cannot be empty"));
    }
    Ok((key, value))
}

} // verus!
