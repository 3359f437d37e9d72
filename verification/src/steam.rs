//! Steam detection: turning manifest documents into discovered games and
//! filtering out the internal tooling entries that are not games. The
//! manifest format is the flat key/value text handled by `vdf`; the
//! surrounding I/O code reads the files and walks install directories.

use vstd::prelude::*;

use crate::source::DetectedGame;
use crate::source::GameSource;
use crate::source::StringMap;
use crate::strutil::str_eq;
use crate::vdf::kv_pairs;

verus! {

/// The mapping described by a pair list, later pairs winning.
pub open spec fn pairs_map(ps: Seq<(Seq<char>, Seq<char>)>) -> Map<Seq<char>, Seq<char>>
    decreases ps.len(),
{
    if ps.len() == 0 {
        Map::empty()
    } else {
        pairs_map(ps.drop_last()).insert(ps.last().0, ps.last().1)
    }
}

/// The key/value mapping of a whole manifest document.
pub open spec fn manifest_map(content: Seq<char>) -> Map<Seq<char>, Seq<char>> {
    pairs_map(kv_pairs(content))
}

/// A manifest document has the three keys every game entry must carry.
pub open spec fn manifest_complete(content: Seq<char>) -> bool {
    &&& manifest_map(content).dom().contains("appid"@)
    &&& manifest_map(content).dom().contains("name"@)
    &&& manifest_map(content).dom().contains("installdir"@)
}

/// One parsed manifest: the three required fields and the full mapping.
#[derive(Debug, Clone)]
pub struct SteamManifest {
    pub appid: String,
    pub name: String,
    pub installdir: String,
    pub metadata: StringMap,
}

/// A Steam detector; the detection logic lives in the free functions of
/// this module, driven by the surrounding I/O code.
#[derive(Debug)]
pub struct SteamDetector;

impl SteamDetector {
    /// A new detector.
    pub fn new() -> SteamDetector {
        SteamDetector
    }
}

/// Parses a manifest document. Returns the manifest when the document
/// carries `appid`, `name` and `installdir`, and nothing otherwise.
pub fn parse_manifest(content: &str) -> (r: Option<SteamManifest>)
    ensures
        match r {
            Some(m) => {
                &&& manifest_complete(content@)
                &&& m.metadata.wf()
                &&& m.metadata@ == manifest_map(content@)
                &&& m.appid@ == manifest_map(content@)["appid"@]
                &&& m.name@ == manifest_map(content@)["name"@]
                &&& m.installdir@ == manifest_map(content@)["installdir"@]
            },
            None => !manifest_complete(content@),
        },
{
    let pairs = crate::vdf::parse_kv_pairs(content);
    let ghost gp = kv_pairs(content@);
    let mut metadata = StringMap::new();
    let n: usize = pairs.len();
    let mut i: usize = 0;
    while i < n
        invariant
            n == pairs@.len(),
            n == gp.len(),
            forall|k: int|
                0 <= k < n ==> (#[trigger] pairs@[k]).0@ == gp[k].0 && pairs@[k].1@ == gp[k].1,
            i <= n,
            metadata.wf(),
            metadata@ == pairs_map(gp.take(i as int)),
        decreases n - i,
    {
        let key = pairs[i].0.clone();
        let value = pairs[i].1.clone();
        metadata.insert(key, value);
        i = i + 1;
        proof {
            assert(gp.take(i as int).drop_last() =~= gp.take(i as int - 1));
            assert(gp.take(i as int).last() == gp[i as int - 1]);
        }
    }
    proof {
        assert(gp.take(n as int) =~= gp);
    }
    let appid = metadata.get("appid");
    let appid: Option<String> = match appid {
        Some(v) => Some(v.clone()),
        None => None,
    };
    let name = metadata.get("name");
    let name: Option<String> = match name {
        Some(v) => Some(v.clone()),
        None => None,
    };
    let installdir = metadata.get("installdir");
    let installdir: Option<String> = match installdir {
        Some(v) => Some(v.clone()),
        None => None,
    };
    match (appid, name, installdir) {
        (Some(appid), Some(name), Some(installdir)) => Some(SteamManifest {
            appid,
            name,
            installdir,
            metadata,
        }),
        _ => None,
    }
}

/// Application identifiers of Steam's internal tooling: redistributable
/// bundles, Proton builds and Steam Linux Runtime variants. These are
/// never games.
pub open spec fn is_excluded(id: Seq<char>) -> bool {
    ||| id == "228980"@
    ||| id == "1493710"@
    ||| id == "1628350"@
    ||| id == "1887720"@
    ||| id == "2180100"@
    ||| id == "2348590"@
    ||| id == "3658110"@
    ||| id == "1391110"@
    ||| id == "2805730"@
}

/// Whether `appid` is one of Steam's internal tooling identifiers.
pub fn is_excluded_appid(appid: &str) -> (r: bool)
    ensures
        r == is_excluded(appid@),
{
    str_eq(appid, "228980") || str_eq(appid, "1493710") || str_eq(appid, "1628350") || str_eq(
        appid,
        "1887720",
    ) || str_eq(appid, "2180100") || str_eq(appid, "2348590") || str_eq(appid, "3658110") || str_eq(
        appid,
        "1391110",
    ) || str_eq(appid, "2805730")
}

/// The install directory of a manifest inside a library root.
pub open spec fn steam_install_dir(library: Seq<char>, installdir: Seq<char>) -> Seq<char> {
    library + "/steamapps/common/"@ + installdir
}

/// Builds the discovered game for a manifest found under a library root.
/// The executable and fingerprint are whatever the resolver and the
/// fingerprinter found for the install directory, or nothing.
pub fn steam_game_from_manifest(
    library: &str,
    manifest: SteamManifest,
    executable: Option<String>,
    fingerprint: Option<String>,
) -> (r: DetectedGame)
    requires
        manifest.metadata.wf(),
    ensures
        r.wf(),
        r.source == GameSource::Steam,
        r.id@ == manifest.appid@,
        r.name@ == manifest.name@,
        r.install_dir@ == steam_install_dir(library@, manifest.installdir@),
        r.executable == executable,
        r.fingerprint == fingerprint,
        r.metadata@ == manifest.metadata@,
{
    let install_dir = crate::strutil::str_concat(
        crate::strutil::str_concat(library, "/steamapps/common/").as_str(),
        manifest.installdir.as_str(),
    );
    DetectedGame {
        source: GameSource::Steam,
        id: manifest.appid,
        name: manifest.name,
        install_dir,
        executable,
        fingerprint,
        metadata: manifest.metadata,
    }
}

} // verus!
