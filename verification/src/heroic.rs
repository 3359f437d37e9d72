//! Heroic detection: turning the entries of a Heroic library descriptor
//! into discovered games. The surrounding I/O code locates and decodes
//! the descriptor files (either of their two accepted shapes) and hands
//! in one plain entry per game; the identity, naming and executable
//! rules live here.

use vstd::prelude::*;

use crate::source::DetectedGame;
use crate::source::GameSource;
use crate::source::StringMap;
use crate::strutil::joined_path;

verus! {

/// One entry of a Heroic library descriptor, as plain values.
#[derive(Debug)]
pub struct HeroicEntry {
    pub identifier: String,
    pub title: String,
    pub app_name: Option<String>,
    pub install_path: Option<String>,
    pub executable: Option<String>,
    pub platform: Option<String>,
    pub launch_options: Option<String>,
}

/// A Heroic detector; the detection logic lives in the free functions
/// of this module, driven by the surrounding I/O code.
#[derive(Debug)]
pub struct HeroicDetector;

impl HeroicDetector {
    /// A new detector.
    pub fn new() -> HeroicDetector {
        HeroicDetector
    }
}

/// The view of an optional string.
pub open spec fn opt_view(o: Option<String>) -> Option<Seq<char>> {
    match o {
        Some(s) => Some(s@),
        None => None,
    }
}

/// The identity of an entry: the first non-empty of its identifier, its
/// application name, and its title, in that priority.
pub open spec fn heroic_identity(e: HeroicEntry) -> Option<Seq<char>> {
    if e.identifier@.len() > 0 {
        Some(e.identifier@)
    } else if e.app_name is Some && e.app_name.unwrap()@.len() > 0 {
        Some(e.app_name.unwrap()@)
    } else if e.title@.len() > 0 {
        Some(e.title@)
    } else {
        None
    }
}

/// The display name of an entry: its title, or its identity when the
/// title is empty.
pub open spec fn heroic_display_name(e: HeroicEntry) -> Seq<char> {
    if e.title@.len() == 0 {
        heroic_identity(e).unwrap()
    } else {
        e.title@
    }
}

/// The executable an entry points at, before checking the file is
/// there: the declared path as it stands, or the launch-options hint
/// joined under the install directory.
pub open spec fn heroic_candidate_spec(e: HeroicEntry) -> Option<Seq<char>> {
    if e.executable is Some {
        Some(e.executable.unwrap()@)
    } else if e.launch_options is Some && e.launch_options.unwrap()@.len() > 0 && e.install_path
        is Some {
        Some(joined_path(e.install_path.unwrap()@, e.launch_options.unwrap()@))
    } else {
        None
    }
}

/// The hint-derived executable: a non-empty hint joined under the
/// install directory.
pub fn locate_executable_hint(install_dir: &str, hint: Option<&String>) -> (r: Option<String>)
    ensures
        match hint {
            Some(h) if h@.len() > 0 => r is Some && r.unwrap()@ == joined_path(install_dir@, h@),
            _ => r is None,
        },
{
    match hint {
        Some(h) => {
            if h.as_str().unicode_len() > 0 {
                Some(crate::strutil::join_under(install_dir, h.as_str()))
            } else {
                None
            }
        },
        None => None,
    }
}

/// The executable candidate of an entry, before the existence check.
pub fn heroic_candidate_executable(entry: &HeroicEntry) -> (r: Option<String>)
    ensures
        opt_view(r) == heroic_candidate_spec(*entry),
{
    match &entry.executable {
        Some(e) => Some(e.clone()),
        None => {
            match &entry.install_path {
                Some(dir) => locate_executable_hint(dir.as_str(), entry.launch_options.as_ref()),
                None => None,
            }
        },
    }
}

/// The discovered game of one entry, or nothing when the entry has no
/// install path or no identity. `exe_exists` says whether the entry's
/// candidate executable names a file on disk; without one the game has
/// no executable. The fingerprint is whatever the caller computed for
/// that executable, or nothing.
pub fn heroic_game_from_entry(
    entry: &HeroicEntry,
    exe_exists: bool,
    fingerprint: Option<String>,
) -> (r: Option<DetectedGame>)
    ensures
        match r {
            Some(g) => {
                &&& entry.install_path is Some
                &&& heroic_identity(*entry) is Some
                &&& g.wf()
                &&& g.source == GameSource::Heroic
                &&& g.id@ == heroic_identity(*entry).unwrap()
                &&& g.name@ == heroic_display_name(*entry)
                &&& g.install_dir@ == entry.install_path.unwrap()@
                &&& opt_view(g.executable) == (if exe_exists {
                    heroic_candidate_spec(*entry)
                } else {
                    None
                })
                &&& opt_view(g.fingerprint) == opt_view(fingerprint)
                &&& g.metadata@ == (match opt_view(entry.app_name) {
                    Some(a) => Map::<Seq<char>, Seq<char>>::empty().insert("app_name"@, a),
                    None => Map::<Seq<char>, Seq<char>>::empty(),
                }).union_prefer_right(
                    match opt_view(entry.platform) {
                        Some(p) => Map::<Seq<char>, Seq<char>>::empty().insert("platform"@, p),
                        None => Map::<Seq<char>, Seq<char>>::empty(),
                    },
                )
            },
            None => entry.install_path is None || heroic_identity(*entry) is None,
        },
{
    let install_dir = match &entry.install_path {
        Some(d) => d.clone(),
        None => {
            return None;
        },
    };
    let identifier: String;
    if entry.identifier.as_str().unicode_len() > 0 {
        identifier = entry.identifier.clone();
    } else {
        let mut from_app_name: Option<String> = None;
        match &entry.app_name {
            Some(a) => {
                if a.as_str().unicode_len() > 0 {
                    from_app_name = Some(a.clone());
                }
            },
            None => {},
        }
        match from_app_name {
            Some(a) => {
                identifier = a;
            },
            None => {
                if entry.title.as_str().unicode_len() > 0 {
                    identifier = entry.title.clone();
                } else {
                    return None;
                }
            },
        }
    }
    let display_name = if entry.title.as_str().unicode_len() == 0 {
        identifier.clone()
    } else {
        entry.title.clone()
    };
    let candidate = heroic_candidate_executable(entry);
    let executable: Option<String> = if exe_exists {
        candidate
    } else {
        None
    };
    let mut metadata = StringMap::new();
    let ghost m0 = metadata@;
    match &entry.app_name {
        Some(a) => {
            metadata.insert(String::from_str("app_name"), a.clone());
        },
        None => {},
    }
    let ghost m1 = metadata@;
    match &entry.platform {
        Some(p) => {
            metadata.insert(String::from_str("platform"), p.clone());
        },
        None => {},
    }
    proof {
        let base = Map::<Seq<char>, Seq<char>>::empty();
        let am = match opt_view(entry.app_name) {
            Some(a) => base.insert("app_name"@, a),
            None => base,
        };
        let pm = match opt_view(entry.platform) {
            Some(p) => base.insert("platform"@, p),
            None => base,
        };
        assert(m1 == am);
        assert(metadata@ =~= am.union_prefer_right(pm));
    }
    Some(
        DetectedGame {
            source: GameSource::Heroic,
            id: identifier,
            name: display_name,
            install_dir,
            executable,
            fingerprint,
            metadata,
        },
    )
}

} // verus!
