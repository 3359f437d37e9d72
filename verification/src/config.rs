//! Configuration data: where the third-party libraries live, detector
//! options, and the directories this tool keeps its own files in. The
//! values are plain paths as strings; reading and writing the
//! configuration file is left to the surrounding I/O code.

use vstd::prelude::*;

use crate::strutil::path_join;
use crate::strutil::str_concat;

verus! {

/// Roots of the third-party game libraries. A root left unset means
/// "nothing to detect" for that source.
#[derive(Debug, Clone)]
pub struct LibraryPaths {
    pub steam: Option<String>,
    pub heroic: Option<String>,
    pub lutris: Option<String>,
}

impl LibraryPaths {
    /// The default roots under a home directory, or all unset when no
    /// home directory is known.
    pub fn for_home(home: Option<&str>) -> (r: LibraryPaths)
        ensures
            match home {
                Some(h) => {
                    &&& r.steam is Some && r.steam.unwrap()@ == h@ + "/.local/share/Steam"@
                    &&& r.heroic is Some && r.heroic.unwrap()@ == h@ + "/.config/heroic"@
                    &&& r.lutris is Some && r.lutris.unwrap()@ == h@ + "/.local/share/lutris"@
                },
                None => r.steam is None && r.heroic is None && r.lutris is None,
            },
    {
        match home {
            Some(h) => LibraryPaths {
                steam: Some(str_concat(h, "/.local/share/Steam")),
                heroic: Some(str_concat(h, "/.config/heroic")),
                lutris: Some(str_concat(h, "/.local/share/lutris")),
            },
            None => LibraryPaths { steam: None, heroic: None, lutris: None },
        }
    }
}

/// Detector options.
#[derive(Debug, Clone)]
pub struct DetectorConfig {
    pub enabled_sources: Vec<String>,
    pub fingerprint_ignore: Vec<String>,
}

impl Default for DetectorConfig {
    /// Both lists start empty.
    fn default() -> (r: DetectorConfig)
        ensures
            r.enabled_sources@.len() == 0,
            r.fingerprint_ignore@.len() == 0,
    {
        DetectorConfig { enabled_sources: Vec::new(), fingerprint_ignore: Vec::new() }
    }
}

/// Profile options.
#[derive(Debug, Clone)]
pub struct ProfileConfig {
    pub default_profile: Option<String>,
}

impl Default for ProfileConfig {
    /// No default profile.
    fn default() -> (r: ProfileConfig)
        ensures
            r.default_profile is None,
    {
        ProfileConfig { default_profile: None }
    }
}

/// The whole configuration document.
#[derive(Debug, Clone)]
pub struct NvConfig {
    pub library_paths: LibraryPaths,
    pub detectors: DetectorConfig,
    pub profile: ProfileConfig,
}

impl NvConfig {
    /// The default configuration under a home directory: default library
    /// roots, no detector options, no default profile.
    pub fn for_home(home: Option<&str>) -> (r: NvConfig)
        ensures
            match home {
                Some(h) => {
                    &&& r.library_paths.steam is Some && r.library_paths.steam.unwrap()@ == h@
                        + "/.local/share/Steam"@
                    &&& r.library_paths.heroic is Some && r.library_paths.heroic.unwrap()@ == h@
                        + "/.config/heroic"@
                    &&& r.library_paths.lutris is Some && r.library_paths.lutris.unwrap()@ == h@
                        + "/.local/share/lutris"@
                },
                None => r.library_paths.steam is None && r.library_paths.heroic is None
                    && r.library_paths.lutris is None,
            },
            r.detectors.enabled_sources@.len() == 0,
            r.detectors.fingerprint_ignore@.len() == 0,
            r.profile.default_profile is None,
    {
        NvConfig {
            library_paths: LibraryPaths::for_home(home),
            detectors: Default::default(),
            profile: Default::default(),
        }
    }
}

/// The directories this tool keeps its own files in.
#[derive(Debug, Clone)]
pub struct ConfigPaths {
    pub user_config_dir: String,
    pub games_dir: String,
    pub profiles_dir: String,
}

impl ConfigPaths {
    /// The layout under a base configuration directory: games and
    /// profiles each in a subdirectory of their own.
    pub fn from_base(base: &str) -> (r: ConfigPaths)
        ensures
            r.user_config_dir@ == base@,
            r.games_dir@ == base@ + seq!['/'] + "games"@,
            r.profiles_dir@ == base@ + seq!['/'] + "profiles"@,
    {
        ConfigPaths {
            user_config_dir: String::from_str(base),
            games_dir: path_join(base, "games"),
            profiles_dir: path_join(base, "profiles"),
        }
    }
}

/// Holds the directory layout and derives the configuration file path.
#[derive(Debug)]
pub struct ConfigManager {
    pub paths: ConfigPaths,
}

impl ConfigManager {
    /// A manager over an already resolved directory layout.
    pub fn from_paths(paths: ConfigPaths) -> (r: ConfigManager)
        ensures
            r.paths == paths,
    {
        ConfigManager { paths }
    }

    /// The directory layout.
    pub fn paths(&self) -> (r: &ConfigPaths)
        ensures
            r == self.paths,
    {
        &self.paths
    }

    /// The configuration file inside the user configuration directory.
    pub fn config_path(&self) -> (r: String)
        ensures
            r@ == self.paths.user_config_dir@ + seq!['/'] + "config.yaml"@,
    {
        path_join(self.paths.user_config_dir.as_str(), "config.yaml")
    }
}

} // verus!
