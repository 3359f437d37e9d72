//! Steam launch options: the recommended option list for a game, and
//! the string pasted into Steam's launch-options dialog. Environment
//! assignments come first, then wrapper commands, then the launcher
//! invocation, and Steam's own command placeholder closes the line.

use vstd::prelude::*;

use crate::cli::LaunchOptionsArgs;
use crate::strutil::contains_seq;
use crate::strutil::dec_str;
use crate::strutil::starts_with_seq;
use crate::strutil::str_concat;
use crate::strutil::str_contains;
use crate::strutil::str_starts_with;
use crate::strutil::u64_to_string;

verus! {

/// The recommended options for a game under the given flags, in order:
/// the launcher invocation, low-latency and variable-refresh
/// assignments, the frame-rate limit, a dedicated shader-cache path,
/// overlay and scheduler wrappers, and the extra assignments.
pub open spec fn recommended_options_spec(args: LaunchOptionsArgs, game_id: Seq<char>) -> Seq<
    Seq<char>,
> {
    (if args.use_nvproton {
        seq!["nvproton run "@ + game_id + " --"@]
    } else {
        Seq::empty()
    }) + (if args.reflex {
        seq!["DXVK_NVAPI_ALLOW_REFLEX=1"@, "__GL_REFLEX=1"@]
    } else {
        Seq::empty()
    }) + (if args.vrr {
        seq!["__GL_GSYNC_ALLOWED=1"@, "__GL_VRR_ALLOWED=1"@]
    } else {
        Seq::empty()
    }) + (if args.fps > 0 {
        seq!["DXVK_FRAME_RATE="@ + dec_str(args.fps as nat)]
    } else {
        Seq::empty()
    }) + (if args.shader_cache {
        seq!["DXVK_STATE_CACHE_PATH=~/.cache/nvproton/"@ + game_id]
    } else {
        Seq::empty()
    }) + (if args.mangohud {
        seq!["mangohud"@]
    } else {
        Seq::empty()
    }) + (if args.gamemode {
        seq!["gamemoderun"@]
    } else {
        Seq::empty()
    }) + args.env@.map_values(|p: (String, String)| p.0@ + seq!['='] + p.1@)
}

/// Builds the recommended options for a game under the given flags.
#[verifier::rlimit(60)]
pub fn recommended_options(args: &LaunchOptionsArgs, game_id: &str) -> (r: Vec<String>)
    ensures
        r@.map_values(|o: String| o@) == recommended_options_spec(*args, game_id@),
{
    let mut r: Vec<String> = Vec::new();
    if args.use_nvproton {
        let mut o = String::from_str("nvproton run ");
        o.append(game_id);
        o.append(" --");
        r.push(o);
    }
    if args.reflex {
        r.push(String::from_str("DXVK_NVAPI_ALLOW_REFLEX=1"));
        r.push(String::from_str("__GL_REFLEX=1"));
    }
    if args.vrr {
        r.push(String::from_str("__GL_GSYNC_ALLOWED=1"));
        r.push(String::from_str("__GL_VRR_ALLOWED=1"));
    }
    if args.fps > 0 {
        let mut o = String::from_str("DXVK_FRAME_RATE=");
        let d = u64_to_string(args.fps as u64);
        o.append(d.as_str());
        r.push(o);
    }
    if args.shader_cache {
        let mut o = String::from_str("DXVK_STATE_CACHE_PATH=~/.cache/nvproton/");
        o.append(game_id);
        r.push(o);
    }
    if args.mangohud {
        r.push(String::from_str("mangohud"));
    }
    if args.gamemode {
        r.push(String::from_str("gamemoderun"));
    }
    let ghost base = r@.map_values(|o: String| o@);
    let n: usize = args.env.len();
    let mut i: usize = 0;
    proof {
        assert(base =~= recommended_options_spec(*args, game_id@).take(base.len() as int));
        assert(args.env@.take(0).map_values(|p: (String, String)| p.0@ + seq!['='] + p.1@)
            =~= Seq::<Seq<char>>::empty());
        assert(r@.map_values(|o: String| o@) =~= base + args.env@.take(0).map_values(
            |p: (String, String)| p.0@ + seq!['='] + p.1@,
        ));
    }
    while i < n
        invariant
            n == args.env@.len(),
            i <= n,
            r@.map_values(|o: String| o@) == base + args.env@.take(i as int).map_values(
                |p: (String, String)| p.0@ + seq!['='] + p.1@,
            ),
        decreases n - i,
    {
        let mut o = args.env[i].0.clone();
        o.append("=");
        o.append(args.env[i].1.as_str());
        proof {
            reveal_strlit("=");
            assert("="@ =~= seq!['=']);
            assert(o@ == args.env@[i as int].0@ + seq!['='] + args.env@[i as int].1@);
        }
        let ghost prevm = r@.map_values(|o2: String| o2@);
        let ghost ov = o@;
        r.push(o);
        i = i + 1;
        proof {
            let f = |p: (String, String)| p.0@ + seq!['='] + p.1@;
            assert(r@.map_values(|o2: String| o2@) =~= prevm.push(ov));
            assert(args.env@.take(i as int).map_values(f) =~= args.env@.take(
                i as int - 1,
            ).map_values(f).push(f(args.env@[i as int - 1])));
            assert(r@.map_values(|o2: String| o2@) =~= base + args.env@.take(
                i as int,
            ).map_values(f));
        }
    }
    proof {
        assert(args.env@.take(n as int) =~= args.env@);
        assert(r@.map_values(|o: String| o@) =~= recommended_options_spec(*args, game_id@));
    }
    r
}

/// The environment assignments among the options, each with a trailing
/// space: those holding an equals sign and not starting with the
/// launcher's own name.
pub open spec fn env_concat(opts: Seq<Seq<char>>) -> Seq<char>
    decreases opts.len(),
{
    if opts.len() == 0 {
        Seq::empty()
    } else {
        env_concat(opts.drop_last()) + (if contains_seq(opts.last(), seq!['='])
            && !starts_with_seq(opts.last(), "nvproton"@) {
            opts.last() + seq![' ']
        } else {
            Seq::empty()
        })
    }
}

/// The wrapper commands among the options, each with a trailing space:
/// those with no equals sign and not starting with the launcher's own
/// name.
pub open spec fn part_concat(opts: Seq<Seq<char>>) -> Seq<char>
    decreases opts.len(),
{
    if opts.len() == 0 {
        Seq::empty()
    } else {
        part_concat(opts.drop_last()) + (if !contains_seq(opts.last(), seq!['='])
            && !starts_with_seq(opts.last(), "nvproton"@) {
            opts.last() + seq![' ']
        } else {
            Seq::empty()
        })
    }
}

/// The launch-options line for Steam's dialog: environment assignments,
/// then wrapper commands, then the launcher invocation when asked for,
/// closed by Steam's command placeholder.
pub open spec fn launch_string(opts: Seq<Seq<char>>, use_nvproton: bool) -> Seq<char> {
    env_concat(opts) + part_concat(opts) + (if use_nvproton {
        "nvproton run %appid% -- "@
    } else {
        Seq::<char>::empty()
    }) + "%command%"@
}

/// Builds the launch-options line for Steam's dialog.
pub fn build_steam_launch_string(options: &Vec<String>, use_nvproton: bool) -> (r: String)
    ensures
        r@ == launch_string(options@.map_values(|o: String| o@), use_nvproton),
{
    let ghost opts = options@.map_values(|o: String| o@);
    let n: usize = options.len();
    let mut r = String::new();
    let mut i: usize = 0;
    proof {
        assert(opts.take(0).len() == 0);
        assert(r@ =~= env_concat(opts.take(0)));
    }
    while i < n
        invariant
            opts == options@.map_values(|o: String| o@),
            n == options@.len(),
            i <= n,
            r@ == env_concat(opts.take(i as int)),
        decreases n - i,
    {
        let is_env = str_contains(options[i].as_str(), "=") && !str_starts_with(
            options[i].as_str(),
            "nvproton",
        );
        proof {
            reveal_strlit("=");
            assert("="@ =~= seq!['=']);
            assert(opts.take(i as int + 1).drop_last() =~= opts.take(i as int));
            assert(opts.take(i as int + 1).last() == opts[i as int]);
        }
        if is_env {
            r.append(options[i].as_str());
            r.append(" ");
            proof {
                reveal_strlit(" ");
                assert(r@ =~= env_concat(opts.take(i as int + 1)));
            }
        } else {
            proof {
                assert(r@ =~= env_concat(opts.take(i as int + 1)));
            }
        }
        i = i + 1;
    }
    let ghost envpart = r@;
    proof {
        assert(opts.take(n as int) =~= opts);
        assert(envpart == env_concat(opts));
    }
    let mut i: usize = 0;
    proof {
        assert(r@ =~= envpart + part_concat(opts.take(0)));
    }
    while i < n
        invariant
            opts == options@.map_values(|o: String| o@),
            n == options@.len(),
            i <= n,
            r@ == envpart + part_concat(opts.take(i as int)),
        decreases n - i,
    {
        let is_part = !str_contains(options[i].as_str(), "=") && !str_starts_with(
            options[i].as_str(),
            "nvproton",
        );
        proof {
            reveal_strlit("=");
            assert("="@ =~= seq!['=']);
            assert(opts.take(i as int + 1).drop_last() =~= opts.take(i as int));
            assert(opts.take(i as int + 1).last() == opts[i as int]);
        }
        if is_part {
            r.append(options[i].as_str());
            r.append(" ");
            proof {
                reveal_strlit(" ");
                assert(r@ =~= envpart + part_concat(opts.take(i as int + 1)));
            }
        } else {
            proof {
                assert(r@ =~= envpart + part_concat(opts.take(i as int + 1)));
            }
        }
        i = i + 1;
    }
    proof {
        assert(opts.take(n as int) =~= opts);
    }
    if use_nvproton {
        r.append("nvproton run %appid% -- ");
    }
    r.append("%command%");
    proof {
        assert(r@ =~= launch_string(opts, use_nvproton));
    }
    r
}

} // verus!
