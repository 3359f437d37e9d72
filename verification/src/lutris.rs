//! Lutris detection: turning rows of the Lutris game database into
//! discovered games. The surrounding I/O code opens the database and
//! runs the queries; the schema-fallback decision and the shaping of
//! each row live here. Two schema variants are tolerated: the newer one
//! without an executable column, and the older one with it; the newer
//! query is attempted first and the older one on failure.

use vstd::prelude::*;

use crate::CoreError;
use crate::heroic::opt_view;
use crate::source::DetectedGame;
use crate::source::GameSource;
use crate::source::StringMap;
use crate::strutil::join_under;
use crate::strutil::joined_path;

verus! {

/// One row of the Lutris games table, as plain values. The newer schema
/// has no executable column, so its rows carry none.
#[derive(Debug)]
pub struct LutrisRow {
    pub slug: String,
    pub name: String,
    pub directory: String,
    pub executable: Option<String>,
    pub runner: Option<String>,
}

/// A Lutris detector; the detection logic lives in the free functions
/// of this module, driven by the surrounding I/O code.
#[derive(Debug)]
pub struct LutrisDetector;

impl LutrisDetector {
    /// A new detector.
    pub fn new() -> LutrisDetector {
        LutrisDetector
    }
}

/// Which query to run against the games table.
#[derive(Debug, Clone, Copy, PartialEq, Eq, Structural)]
pub enum LutrisQuery {
    NewSchema,
    OldSchema,
}

/// The query to try first: the newer schema.
pub fn lutris_initial_query() -> (r: LutrisQuery)
    ensures
        r == LutrisQuery::NewSchema,
{
    LutrisQuery::NewSchema
}

/// The query to fall back to when one fails: the older schema after the
/// newer; after the older, nothing is left and the schema mismatch is
/// surfaced.
pub fn lutris_fallback_query(failed: LutrisQuery) -> (r: Result<LutrisQuery, CoreError>)
    ensures
        match failed {
            LutrisQuery::NewSchema => r == Result::<LutrisQuery, CoreError>::Ok(
                LutrisQuery::OldSchema,
            ),
            LutrisQuery::OldSchema => r == Result::<LutrisQuery, CoreError>::Err(
                CoreError::SchemaMismatch,
            ),
        },
{
    match failed {
        LutrisQuery::NewSchema => Ok(LutrisQuery::OldSchema),
        LutrisQuery::OldSchema => Err(CoreError::SchemaMismatch),
    }
}

/// The discovered game of one row: the slug is the identifier, the
/// directory the install location, the executable (when the row has
/// one) joined under the directory, and the runner kept as metadata.
/// The fingerprint is whatever the caller computed for the executable,
/// or nothing. Rows of either schema give the same shape of game.
pub fn lutris_game_from_row(row: &LutrisRow, fingerprint: Option<String>) -> (r: DetectedGame)
    ensures
        r.wf(),
        r.source == GameSource::Lutris,
        r.id@ == row.slug@,
        r.name@ == row.name@,
        r.install_dir@ == row.directory@,
        opt_view(r.executable) == (match opt_view(row.executable) {
            Some(e) => Some(joined_path(row.directory@, e)),
            None => None,
        }),
        opt_view(r.fingerprint) == opt_view(fingerprint),
        r.metadata@ == (match opt_view(row.runner) {
            Some(rn) => Map::<Seq<char>, Seq<char>>::empty().insert("runner"@, rn),
            None => Map::<Seq<char>, Seq<char>>::empty(),
        }),
{
    let executable: Option<String> = match &row.executable {
        Some(e) => Some(join_under(row.directory.as_str(), e.as_str())),
        None => None,
    };
    let mut metadata = StringMap::new();
    match &row.runner {
        Some(rn) => {
            metadata.insert(String::from_str("runner"), rn.clone());
        },
        None => {},
    }
    DetectedGame {
        source: GameSource::Lutris,
        id: row.slug.clone(),
        name: row.name.clone(),
        install_dir: row.directory.clone(),
        executable,
        fingerprint,
        metadata,
    }
}

} // verus!
