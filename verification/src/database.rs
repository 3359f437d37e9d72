//! The durable identity store. Detected games are merged into records
//! keyed by `source:id`; records are looked up by bare identifier or
//! full key, listed with Steam's internal tooling filtered out, and
//! purged of such tooling on demand. Reading and writing the persisted
//! document is left to the surrounding I/O code.

use vstd::prelude::*;

use crate::source::DetectedGame;
use crate::source::GameSource;
use crate::source::GameView;
use crate::source::StringMap;
use crate::source::game_key;
use crate::source::key_of;
use crate::steam::is_excluded;
use crate::strutil::clone_opt;
use crate::strutil::ends_with_seq;
use crate::strutil::find_from;
use crate::strutil::scan_for_char;
use crate::strutil::str_concat;
use crate::strutil::str_eq;
use crate::strutil::str_ends_with;
use crate::strutil::str_to_chars;

verus! {

/// One persisted game record: what detection saw, when it last saw it,
/// and the profile assigned to the game, if any.
#[derive(Debug)]
pub struct GameRecord {
    pub source: GameSource,
    pub name: String,
    pub install_dir: String,
    pub executable: Option<String>,
    pub fingerprint: Option<String>,
    pub last_seen: u64,
    pub metadata: StringMap,
    pub profile: Option<String>,
}

/// The mathematical shape of a record.
pub struct RecordView {
    pub source: GameSource,
    pub name: Seq<char>,
    pub install_dir: Seq<char>,
    pub executable: Option<Seq<char>>,
    pub fingerprint: Option<Seq<char>>,
    pub last_seen: u64,
    pub metadata: Map<Seq<char>, Seq<char>>,
    pub profile: Option<Seq<char>>,
}

impl View for GameRecord {
    type V = RecordView;

    open spec fn view(&self) -> RecordView {
        RecordView {
            source: self.source,
            name: self.name@,
            install_dir: self.install_dir@,
            executable: match self.executable {
                Some(e) => Some(e@),
                None => None,
            },
            fingerprint: match self.fingerprint {
                Some(f) => Some(f@),
                None => None,
            },
            last_seen: self.last_seen,
            metadata: self.metadata@,
            profile: match self.profile {
                Some(p) => Some(p@),
                None => None,
            },
        }
    }
}

/// The store: records keyed by identity key, in insertion order.
#[derive(Debug)]
pub struct GameDatabase {
    pub entries: Vec<(String, GameRecord)>,
}

/// The entries as key and record views, in order.
pub open spec fn db_view(s: Seq<(String, GameRecord)>) -> Seq<(Seq<char>, RecordView)> {
    s.map_values(|p: (String, GameRecord)| (p.0@, p.1@))
}

/// Distinct keys.
pub open spec fn keys_distinct(s: Seq<(Seq<char>, RecordView)>) -> bool {
    forall|p: int, q: int| 0 <= p < q < s.len() ==> (#[trigger] s[p]).0 != (#[trigger] s[q]).0
}

/// Some entry carries this exact key.
pub open spec fn has_key(s: Seq<(Seq<char>, RecordView)>, k: Seq<char>) -> bool {
    exists|i: int| 0 <= i < s.len() && (#[trigger] s[i]).0 == k
}

/// The index of the entry carrying this key; meaningful under
/// `keys_distinct` when `has_key` holds.
pub open spec fn key_index(s: Seq<(Seq<char>, RecordView)>, k: Seq<char>) -> int {
    choose|i: int| 0 <= i < s.len() && (#[trigger] s[i]).0 == k
}

/// A key matches a bare identifier when it ends in a colon and that
/// identifier, or equals it outright.
pub open spec fn id_matches(key: Seq<char>, id: Seq<char>) -> bool {
    ends_with_seq(key, seq![':'] + id) || key == id
}

/// The entry at `i` is the first one matching `id`.
pub open spec fn is_first_match(s: Seq<(Seq<char>, RecordView)>, id: Seq<char>, i: int) -> bool {
    &&& 0 <= i < s.len()
    &&& id_matches(s[i].0, id)
    &&& forall|j: int| 0 <= j < i ==> !id_matches((#[trigger] s[j]).0, id)
}

/// Some entry matches `id`.
pub open spec fn has_match(s: Seq<(Seq<char>, RecordView)>, id: Seq<char>) -> bool {
    exists|i: int| 0 <= i < s.len() && id_matches((#[trigger] s[i]).0, id)
}

/// The index of the first entry matching `id`; meaningful when
/// `has_match` holds.
pub open spec fn first_match(s: Seq<(Seq<char>, RecordView)>, id: Seq<char>) -> int {
    choose|i: int| is_first_match(s, id, i)
}

/// When something matches, a first match exists.
pub proof fn lemma_first_match_exists(s: Seq<(Seq<char>, RecordView)>, id: Seq<char>)
    requires
        has_match(s, id),
    ensures
        is_first_match(s, id, first_match(s, id)),
{
    let w = choose|i: int| 0 <= i < s.len() && id_matches((#[trigger] s[i]).0, id);
    lemma_first_match_below(s, id, w);
    let f = choose|i: int| is_first_match(s, id, i);
    assert(is_first_match(s, id, f));
}

proof fn lemma_first_match_below(s: Seq<(Seq<char>, RecordView)>, id: Seq<char>, w: int)
    requires
        0 <= w < s.len(),
        id_matches(s[w].0, id),
    ensures
        exists|i: int| is_first_match(s, id, i),
    decreases w,
{
    if forall|j: int| 0 <= j < w ==> !id_matches((#[trigger] s[j]).0, id) {
        assert(is_first_match(s, id, w));
    } else {
        let j = choose|j: int| 0 <= j < w && id_matches((#[trigger] s[j]).0, id);
        lemma_first_match_below(s, id, j);
    }
}

/// The bare identifier inside a key: the piece between the first colon
/// and the second (or the end), or the whole key when it has no colon.
pub open spec fn bare_of(k: Seq<char>) -> Seq<char> {
    let c1 = find_from(k, ':', 0);
    if c1 == k.len() {
        k
    } else {
        k.subrange(c1 + 1, find_from(k, ':', c1 + 1))
    }
}

/// Extracts the bare identifier of a key.
pub fn bare_id_of(key: &str) -> (r: String)
    ensures
        r@ == bare_of(key@),
{
    let v = str_to_chars(key);
    let n: usize = v.len();
    let c1 = scan_for_char(&v, ':', 0);
    if c1 == n {
        String::from_str(key)
    } else {
        let c2 = scan_for_char(&v, ':', c1 + 1);
        String::from_str(key.substring_char(c1 + 1, c2))
    }
}

/// An entry survives listing and cleanup unless it is a Steam record
/// whose bare identifier is in the exclusion set.
pub open spec fn kept_entry(p: (Seq<char>, RecordView)) -> bool {
    !(p.1.source == GameSource::Steam && is_excluded(bare_of(p.0)))
}

/// The entries that survive exclusion cleanup, in order.
pub open spec fn cleanup_view(s: Seq<(Seq<char>, RecordView)>) -> Seq<(Seq<char>, RecordView)>
    decreases s.len(),
{
    if s.len() == 0 {
        s
    } else if kept_entry(s.last()) {
        cleanup_view(s.drop_last()).push(s.last())
    } else {
        cleanup_view(s.drop_last())
    }
}

/// The game a record describes, under a chosen identifier.
pub open spec fn detected_of(id: Seq<char>, r: RecordView) -> GameView {
    GameView {
        source: r.source,
        id: id,
        name: r.name,
        install_dir: r.install_dir,
        executable: r.executable,
        fingerprint: r.fingerprint,
        metadata: r.metadata,
    }
}

/// The games listed from the store: every surviving entry, under its
/// bare identifier, in order.
pub open spec fn games_of(s: Seq<(Seq<char>, RecordView)>) -> Seq<GameView>
    decreases s.len(),
{
    if s.len() == 0 {
        Seq::empty()
    } else if kept_entry(s.last()) {
        games_of(s.drop_last()).push(detected_of(bare_of(s.last().0), s.last().1))
    } else {
        games_of(s.drop_last())
    }
}

/// The record created on first detection.
pub open spec fn new_record_view(g: GameView, t: u64) -> RecordView {
    RecordView {
        source: g.source,
        name: g.name,
        install_dir: g.install_dir,
        executable: g.executable,
        fingerprint: g.fingerprint,
        last_seen: t,
        metadata: g.metadata,
        profile: None,
    }
}

/// The record after a later detection of the same key: location,
/// executable and time are refreshed, the fingerprint is kept when the
/// new detection brought none, the metadata is united with the new
/// fields winning, and name, source and profile stay.
pub open spec fn updated_record_view(r: RecordView, g: GameView, t: u64) -> RecordView {
    RecordView {
        source: r.source,
        name: r.name,
        install_dir: g.install_dir,
        executable: g.executable,
        fingerprint: if g.fingerprint is Some {
            g.fingerprint
        } else {
            r.fingerprint
        },
        last_seen: t,
        metadata: r.metadata.union_prefer_right(g.metadata),
        profile: r.profile,
    }
}

/// One game merged into the store.
pub open spec fn upsert(s: Seq<(Seq<char>, RecordView)>, g: GameView, t: u64) -> Seq<
    (Seq<char>, RecordView),
> {
    let k = key_of(g);
    if has_key(s, k) {
        let i = key_index(s, k);
        s.update(i, (k, updated_record_view(s[i].1, g, t)))
    } else {
        s.push((k, new_record_view(g, t)))
    }
}

/// A sequence of games merged into the store, in order.
pub open spec fn merge_all(s: Seq<(Seq<char>, RecordView)>, gs: Seq<GameView>, t: u64) -> Seq<
    (Seq<char>, RecordView),
>
    decreases gs.len(),
{
    if gs.len() == 0 {
        s
    } else {
        upsert(merge_all(s, gs.drop_last(), t), gs.last(), t)
    }
}

impl GameDatabase {
    /// Distinct keys, and every record's metadata well formed.
    pub open spec fn wf(&self) -> bool {
        &&& keys_distinct(db_view(self.entries@))
        &&& forall|i: int|
            0 <= i < self.entries@.len() ==> (#[trigger] self.entries@[i]).1.metadata.wf()
    }

    /// The entries as key and record views, in order.
    pub open spec fn view(&self) -> Seq<(Seq<char>, RecordView)> {
        db_view(self.entries@)
    }

    /// An empty store.
    pub fn new() -> (r: GameDatabase)
        ensures
            r.wf(),
            r@ == Seq::<(Seq<char>, RecordView)>::empty(),
    {
        let r = GameDatabase { entries: Vec::new() };
        proof {
            assert(db_view(r.entries@) =~= Seq::<(Seq<char>, RecordView)>::empty());
        }
        r
    }

    /// Merges detected games into the store: a new record per new key,
    /// an update per known key, later duplicates winning.
    pub fn merge_detected(&mut self, games: &Vec<DetectedGame>, timestamp: u64)
        requires
            old(self).wf(),
            forall|i: int| 0 <= i < games@.len() ==> (#[trigger] games@[i]).wf(),
        ensures
            final(self).wf(),
            final(self)@ == merge_all(old(self)@, games@.map_values(|g: DetectedGame| g@), timestamp),
    {
        let ghost gviews = games@.map_values(|g: DetectedGame| g@);
        let n: usize = games.len();
        let mut idx: usize = 0;
        proof {
            assert(merge_all(old(self)@, gviews.take(0), timestamp) =~= old(self)@);
        }
        while idx < n
            invariant
                old(self).wf(),
                forall|i: int| 0 <= i < games@.len() ==> (#[trigger] games@[i]).wf(),
                gviews == games@.map_values(|g: DetectedGame| g@),
                n == games@.len(),
                idx <= n,
                self.wf(),
                self@ == merge_all(old(self)@, gviews.take(idx as int), timestamp),
            decreases n - idx,
        {
            let game = &games[idx];
            self.merge_one(game, timestamp);
            idx = idx + 1;
            proof {
                assert(gviews.take(idx as int).drop_last() =~= gviews.take(idx as int - 1));
                assert(gviews.take(idx as int).last() == gviews[idx as int - 1]);
            }
        }
        proof {
            assert(gviews.take(n as int) =~= gviews);
        }
    }

    /// Merges one detected game.
    fn merge_one(&mut self, game: &DetectedGame, timestamp: u64)
        requires
            old(self).wf(),
            game.wf(),
        ensures
            final(self).wf(),
            final(self)@ == upsert(old(self)@, game@, timestamp),
    {
        let key = game_key(game);
        let n: usize = self.entries.len();
        let mut i: usize = 0;
        while i < n
            invariant
                old(self).wf(),
                game.wf(),
                self == old(self),
                key@ == key_of(game@),
                n == self.entries@.len(),
                i <= n,
                forall|j: int| 0 <= j < i ==> (#[trigger] self.entries@[j]).0@ != key@,
            decreases n - i,
        {
            if str_eq(self.entries[i].0.as_str(), key.as_str()) {
                proof {
                    assert(self@[i as int].0 == key@);
                    assert(has_key(self@, key@));
                    let w = key_index(self@, key@);
                    assert(self@[w].0 == key@);
                    assert(w == i as int);
                }
                let old_rec = &self.entries[i].1;
                let mut metadata = StringMap::new();
                metadata.extend(&old_rec.metadata);
                metadata.extend(&game.metadata);
                proof {
                    assert(Map::<Seq<char>, Seq<char>>::empty().union_prefer_right(
                        old_rec.metadata@,
                    ) =~= old_rec.metadata@);
                }
                let fingerprint: Option<String> = match &game.fingerprint {
                    Some(f) => Some(f.clone()),
                    None => clone_opt(&old_rec.fingerprint),
                };
                let updated = GameRecord {
                    source: old_rec.source,
                    name: old_rec.name.clone(),
                    install_dir: game.install_dir.clone(),
                    executable: clone_opt(&game.executable),
                    fingerprint,
                    last_seen: timestamp,
                    metadata,
                    profile: clone_opt(&old_rec.profile),
                };
                let key_string = self.entries[i].0.clone();
                let ghost olds = self.entries@;
                self.entries.set(i, (key_string, updated));
                proof {
                    assert(db_view(self.entries@) =~= db_view(olds).update(
                        i as int,
                        (key@, updated_record_view(db_view(olds)[i as int].1, game@, timestamp)),
                    ));
                    assert(self.wf()) by {
                        assert(forall|p: int|
                            0 <= p < self.entries@.len() && p != i ==> self.entries@[p]
                                == #[trigger] olds[p]);
                    }
                }
                return;
            }
            i = i + 1;
        }
        proof {
            assert(!has_key(self@, key@));
        }
        let record = GameRecord {
            source: game.source,
            name: game.name.clone(),
            install_dir: game.install_dir.clone(),
            executable: clone_opt(&game.executable),
            fingerprint: clone_opt(&game.fingerprint),
            last_seen: timestamp,
            metadata: game.metadata.duplicate(),
            profile: None,
        };
        let ghost olds = self.entries@;
        self.entries.push((key, record));
        proof {
            assert(db_view(self.entries@) =~= db_view(olds).push(
                (key@, new_record_view(game@, timestamp)),
            ));
            assert(self.wf()) by {
                assert(forall|p: int|
                    0 <= p < olds.len() ==> self.entries@[p] == #[trigger] olds[p]);
            }
        }
    }

    /// Looks a game up by identifier: the first record whose key ends in
    /// a colon and the identifier, or equals it outright. The returned
    /// game carries the identifier it was asked for.
    pub fn get(&self, game_id: &str) -> (r: Option<DetectedGame>)
        requires
            self.wf(),
        ensures
            match r {
                Some(g) => {
                    &&& has_match(self@, game_id@)
                    &&& g.wf()
                    &&& g@ == detected_of(game_id@, self@[first_match(self@, game_id@)].1)
                },
                None => !has_match(self@, game_id@),
            },
    {
        let pattern = str_concat(":", game_id);
        proof {
            reveal_strlit(":");
            assert(pattern@ =~= seq![':'] + game_id@);
        }
        let n: usize = self.entries.len();
        let mut i: usize = 0;
        while i < n
            invariant
                self.wf(),
                pattern@ == seq![':'] + game_id@,
                n == self.entries@.len(),
                i <= n,
                forall|j: int| 0 <= j < i ==> !id_matches((#[trigger] self@[j]).0, game_id@),
            decreases n - i,
        {
            let matched = str_ends_with(self.entries[i].0.as_str(), pattern.as_str()) || str_eq(
                self.entries[i].0.as_str(),
                game_id,
            );
            if matched {
                proof {
                    assert(is_first_match(self@, game_id@, i as int));
                    lemma_first_match_exists(self@, game_id@);
                    assert(first_match(self@, game_id@) == i as int);
                }
                return Some(record_to_detected(game_id, &self.entries[i].1));
            }
            i = i + 1;
        }
        None
    }

    /// Lists the games of the store, skipping Steam's internal tooling,
    /// each under its bare identifier, in store order.
    pub fn games(&self) -> (r: Vec<DetectedGame>)
        requires
            self.wf(),
        ensures
            r@.map_values(|g: DetectedGame| g@) == games_of(self@),
            forall|i: int| 0 <= i < r@.len() ==> (#[trigger] r@[i]).wf(),
    {
        let n: usize = self.entries.len();
        let mut r: Vec<DetectedGame> = Vec::new();
        let mut i: usize = 0;
        proof {
            assert(db_view(self.entries@.take(0)) =~= Seq::<(Seq<char>, RecordView)>::empty());
            assert(r@.map_values(|g: DetectedGame| g@) =~= games_of(
                db_view(self.entries@.take(0)),
            ));
        }
        while i < n
            invariant
                self.wf(),
                n == self.entries@.len(),
                i <= n,
                r@.map_values(|g: DetectedGame| g@) == games_of(db_view(self.entries@.take(i as int))),
                forall|k: int| 0 <= k < r@.len() ==> (#[trigger] r@[k]).wf(),
            decreases n - i,
        {
            let key = &self.entries[i].0;
            let record = &self.entries[i].1;
            let id = bare_id_of(key.as_str());
            let excluded = match record.source {
                GameSource::Steam => crate::steam::is_excluded_appid(id.as_str()),
                _ => false,
            };
            proof {
                let tv = db_view(self.entries@.take(i as int + 1));
                assert(tv =~= db_view(self.entries@.take(i as int)).push(self@[i as int]));
                assert(tv.drop_last() =~= db_view(self.entries@.take(i as int)));
                assert(tv.last() == self@[i as int]);
            }
            if !excluded {
                let game = record_to_detected(id.as_str(), record);
                r.push(game);
                proof {
                    assert(r@.map_values(|g: DetectedGame| g@) =~= r@.take(
                        r@.len() - 1,
                    ).map_values(|g: DetectedGame| g@).push(r@.last()@));
                }
            }
            i = i + 1;
        }
        proof {
            assert(self.entries@.take(n as int) =~= self.entries@);
        }
        r
    }

    /// Removes the Steam records whose bare identifier is in the
    /// exclusion set; everything else stays, in order. Returns how many
    /// records went.
    pub fn cleanup_excluded(&mut self) -> (removed: usize)
        requires
            old(self).wf(),
        ensures
            final(self).wf(),
            final(self)@ == cleanup_view(old(self)@),
            removed == old(self)@.len() - final(self)@.len(),
    {
        let n: usize = self.entries.len();
        let mut kept: Vec<(String, GameRecord)> = Vec::new();
        let mut i: usize = 0;
        proof {
            assert(db_view(self.entries@.take(0)) =~= Seq::<(Seq<char>, RecordView)>::empty());
            assert(db_view(kept@) =~= cleanup_view(db_view(self.entries@.take(0))));
        }
        while i < n
            invariant
                old(self).wf(),
                self == old(self),
                n == self.entries@.len(),
                i <= n,
                db_view(kept@) == cleanup_view(db_view(self.entries@.take(i as int))),
                kept@.len() <= i,
                forall|k: int|
                    0 <= k < kept@.len() ==> (#[trigger] kept@[k]).1.metadata.wf(),
            decreases n - i,
        {
            let key = self.entries[i].0.clone();
            let record = &self.entries[i].1;
            let id = bare_id_of(key.as_str());
            let excluded = match record.source {
                GameSource::Steam => crate::steam::is_excluded_appid(id.as_str()),
                _ => false,
            };
            proof {
                let tv = db_view(self.entries@.take(i as int + 1));
                assert(tv =~= db_view(self.entries@.take(i as int)).push(self@[i as int]));
                assert(tv.drop_last() =~= db_view(self.entries@.take(i as int)));
                assert(tv.last() == self@[i as int]);
            }
            if !excluded {
                let copy = record_copy(record);
                kept.push((key, copy));
                proof {
                    assert(db_view(kept@) =~= db_view(kept@.drop_last()).push(
                        (kept@.last().0@, kept@.last().1@),
                    ));
                    assert(kept@.drop_last() =~= kept@.take(kept@.len() - 1));
                }
            }
            i = i + 1;
        }
        proof {
            assert(self.entries@.take(n as int) =~= self.entries@);
        }
        let removed = self.entries.len() - kept.len();
        self.entries = kept;
        proof {
            lemma_cleanup_distinct(old(self)@);
        }
        removed
    }

    /// Assigns a profile to the first record matching the identifier;
    /// with no match the store is unchanged.
    pub fn set_game_profile(&mut self, game_id: &str, profile: &str)
        requires
            old(self).wf(),
        ensures
            final(self).wf(),
            if has_match(old(self)@, game_id@) {
                final(self)@ == old(self)@.update(
                    first_match(old(self)@, game_id@),
                    (
                        old(self)@[first_match(old(self)@, game_id@)].0,
                        RecordView {
                            profile: Some(profile@),
                            ..old(self)@[first_match(old(self)@, game_id@)].1
                        },
                    ),
                )
            } else {
                final(self)@ == old(self)@
            },
    {
        let pattern = str_concat(":", game_id);
        proof {
            reveal_strlit(":");
            assert(pattern@ =~= seq![':'] + game_id@);
        }
        let n: usize = self.entries.len();
        let mut i: usize = 0;
        while i < n
            invariant
                old(self).wf(),
                self == old(self),
                pattern@ == seq![':'] + game_id@,
                n == self.entries@.len(),
                i <= n,
                forall|j: int| 0 <= j < i ==> !id_matches((#[trigger] self@[j]).0, game_id@),
            decreases n - i,
        {
            let matched = str_ends_with(self.entries[i].0.as_str(), pattern.as_str()) || str_eq(
                self.entries[i].0.as_str(),
                game_id,
            );
            if matched {
                proof {
                    assert(is_first_match(self@, game_id@, i as int));
                    lemma_first_match_exists(self@, game_id@);
                    assert(first_match(self@, game_id@) == i as int);
                }
                let key_string = self.entries[i].0.clone();
                let old_rec = &self.entries[i].1;
                let mut copy = record_copy(old_rec);
                copy.profile = Some(String::from_str(profile));
                let ghost olds = self.entries@;
                self.entries.set(i, (key_string, copy));
                proof {
                    assert(db_view(self.entries@) =~= db_view(olds).update(
                        i as int,
                        (
                            db_view(olds)[i as int].0,
                            RecordView { profile: Some(profile@), ..db_view(olds)[i as int].1 },
                        ),
                    ));
                    assert(self.wf()) by {
                        assert(forall|p: int|
                            0 <= p < self.entries@.len() && p != i ==> self.entries@[p]
                                == #[trigger] olds[p]);
                    }
                }
                return;
            }
            i = i + 1;
        }
    }

    /// The profile assigned to the first record matching the identifier,
    /// if there is such a record and it has one.
    pub fn get_game_profile(&self, game_id: &str) -> (r: Option<String>)
        requires
            self.wf(),
        ensures
            if has_match(self@, game_id@) {
                match self@[first_match(self@, game_id@)].1.profile {
                    Some(p) => r is Some && r.unwrap()@ == p,
                    None => r is None,
                }
            } else {
                r is None
            },
    {
        let pattern = str_concat(":", game_id);
        proof {
            reveal_strlit(":");
            assert(pattern@ =~= seq![':'] + game_id@);
        }
        let n: usize = self.entries.len();
        let mut i: usize = 0;
        while i < n
            invariant
                self.wf(),
                pattern@ == seq![':'] + game_id@,
                n == self.entries@.len(),
                i <= n,
                forall|j: int| 0 <= j < i ==> !id_matches((#[trigger] self@[j]).0, game_id@),
            decreases n - i,
        {
            let matched = str_ends_with(self.entries[i].0.as_str(), pattern.as_str()) || str_eq(
                self.entries[i].0.as_str(),
                game_id,
            );
            if matched {
                proof {
                    assert(is_first_match(self@, game_id@, i as int));
                    lemma_first_match_exists(self@, game_id@);
                    assert(first_match(self@, game_id@) == i as int);
                }
                return clone_opt(&self.entries[i].1.profile);
            }
            i = i + 1;
        }
        None
    }
}

/// A value copy of a record.
fn record_copy(r: &GameRecord) -> (c: GameRecord)
    requires
        r.metadata.wf(),
    ensures
        c@ == r@,
        c.metadata.wf(),
{
    GameRecord {
        source: r.source,
        name: r.name.clone(),
        install_dir: r.install_dir.clone(),
        executable: clone_opt(&r.executable),
        fingerprint: clone_opt(&r.fingerprint),
        last_seen: r.last_seen,
        metadata: r.metadata.duplicate(),
        profile: clone_opt(&r.profile),
    }
}

/// The game a record describes, under the given identifier.
pub fn record_to_detected(id: &str, record: &GameRecord) -> (r: DetectedGame)
    requires
        record.metadata.wf(),
    ensures
        r.wf(),
        r@ == detected_of(id@, record@),
{
    DetectedGame {
        source: record.source,
        id: String::from_str(id),
        name: record.name.clone(),
        install_dir: record.install_dir.clone(),
        executable: clone_opt(&record.executable),
        fingerprint: clone_opt(&record.fingerprint),
        metadata: record.metadata.duplicate(),
    }
}

/// What one merge step does to the store: keys stay distinct; the
/// merged game's key is present, its record freshly stamped; every other
/// key is untouched; and a fingerprint already on file survives.
proof fn lemma_upsert(s: Seq<(Seq<char>, RecordView)>, g: GameView, t: u64)
    requires
        keys_distinct(s),
    ensures
        keys_distinct(upsert(s, g, t)),
        has_key(upsert(s, g, t), key_of(g)),
        upsert(s, g, t)[key_index(upsert(s, g, t), key_of(g))].1 == (if has_key(s, key_of(g)) {
            updated_record_view(s[key_index(s, key_of(g))].1, g, t)
        } else {
            new_record_view(g, t)
        }),
        forall|k: Seq<char>|
            k != key_of(g) ==> (#[trigger] has_key(upsert(s, g, t), k) <==> has_key(s, k)),
        forall|k: Seq<char>|
            k != key_of(g) && #[trigger] has_key(s, k) ==> upsert(s, g, t)[key_index(
                upsert(s, g, t),
                k,
            )] == s[key_index(s, k)],
{
    let kg = key_of(g);
    let u = upsert(s, g, t);
    if has_key(s, kg) {
        let i = key_index(s, kg);
        assert(0 <= i < s.len() && s[i].0 == kg);
        assert(forall|j: int| 0 <= j < u.len() ==> (#[trigger] u[j]).0 == s[j].0);
        assert(keys_distinct(u));
        assert(u[i].0 == kg);
        assert(has_key(u, kg));
        let i2 = key_index(u, kg);
        assert(0 <= i2 < u.len() && u[i2].0 == kg);
        assert(i2 == i);
        assert forall|k: Seq<char>|
            k != kg implies (#[trigger] has_key(u, k) <==> has_key(s, k)) by {
            if has_key(u, k) {
                let j = choose|j: int| 0 <= j < u.len() && (#[trigger] u[j]).0 == k;
                assert(s[j].0 == k);
            }
            if has_key(s, k) {
                let j = choose|j: int| 0 <= j < s.len() && (#[trigger] s[j]).0 == k;
                assert(u[j].0 == k);
            }
        }
        assert forall|k: Seq<char>|
            k != kg && #[trigger] has_key(s, k) implies u[key_index(u, k)] == s[key_index(
            s,
            k,
        )] by {
            let j1 = key_index(s, k);
            assert(0 <= j1 < s.len() && s[j1].0 == k);
            assert(u[j1].0 == k);
            assert(has_key(u, k));
            let j2 = key_index(u, k);
            assert(0 <= j2 < u.len() && u[j2].0 == k);
            assert(j2 == j1);
            assert(j1 != i);
        }
    } else {
        assert(forall|j: int| 0 <= j < s.len() ==> (#[trigger] s[j]).0 != kg);
        assert(forall|j: int| 0 <= j < s.len() ==> (#[trigger] u[j]) == s[j]);
        assert(u[u.len() - 1].0 == kg);
        assert(keys_distinct(u));
        assert(has_key(u, kg));
        let i2 = key_index(u, kg);
        assert(0 <= i2 < u.len() && u[i2].0 == kg);
        assert(i2 == u.len() - 1);
        assert forall|k: Seq<char>|
            k != kg implies (#[trigger] has_key(u, k) <==> has_key(s, k)) by {
            if has_key(u, k) {
                let j = choose|j: int| 0 <= j < u.len() && (#[trigger] u[j]).0 == k;
                assert(j < s.len());
                assert(s[j].0 == k);
            }
            if has_key(s, k) {
                let j = choose|j: int| 0 <= j < s.len() && (#[trigger] s[j]).0 == k;
                assert(u[j].0 == k);
            }
        }
        assert forall|k: Seq<char>|
            k != kg && #[trigger] has_key(s, k) implies u[key_index(u, k)] == s[key_index(
            s,
            k,
        )] by {
            let j1 = key_index(s, k);
            assert(0 <= j1 < s.len() && s[j1].0 == k);
            assert(u[j1].0 == k);
            assert(has_key(u, k));
            let j2 = key_index(u, k);
            assert(0 <= j2 < u.len() && u[j2].0 == k);
            assert(j2 == j1);
        }
    }
}

/// What a whole merge does: keys stay distinct; every merged game's key
/// is on file with the merge's timestamp; keys already on file survive;
/// and no fingerprint on file is lost.
pub proof fn lemma_merge_all(s: Seq<(Seq<char>, RecordView)>, gs: Seq<GameView>, t: u64)
    requires
        keys_distinct(s),
    ensures
        keys_distinct(merge_all(s, gs, t)),
        forall|j: int| #![trigger gs[j]]
            0 <= j < gs.len() ==> has_key(merge_all(s, gs, t), key_of(gs[j])) && merge_all(
                s,
                gs,
                t,
            )[key_index(merge_all(s, gs, t), key_of(gs[j]))].1.last_seen == t,
        forall|k: Seq<char>| #[trigger] has_key(s, k) ==> has_key(merge_all(s, gs, t), k),
        forall|k: Seq<char>|
            #[trigger] has_key(s, k) && s[key_index(s, k)].1.fingerprint is Some ==> merge_all(
                s,
                gs,
                t,
            )[key_index(merge_all(s, gs, t), k)].1.fingerprint is Some,
    decreases gs.len(),
{
    if gs.len() > 0 {
        let m1 = merge_all(s, gs.drop_last(), t);
        let g = gs.last();
        let m = merge_all(s, gs, t);
        lemma_merge_all(s, gs.drop_last(), t);
        lemma_upsert(m1, g, t);
        assert forall|j: int| #![trigger gs[j]]
            0 <= j < gs.len() implies has_key(m, key_of(gs[j])) && m[key_index(
            m,
            key_of(gs[j]),
        )].1.last_seen == t by {
            if j == gs.len() - 1 {
                assert(gs[j] == g);
            } else {
                assert(gs.drop_last()[j] == gs[j]);
                assert(has_key(m1, key_of(gs[j])));
                if key_of(gs[j]) == key_of(g) {
                    assert(m[key_index(m, key_of(g))].1.last_seen == t);
                } else {
                    assert(m[key_index(m, key_of(gs[j]))] == m1[key_index(m1, key_of(gs[j]))]);
                }
            }
        }
        assert forall|k: Seq<char>|
            #[trigger] has_key(s, k) && s[key_index(s, k)].1.fingerprint is Some implies m[
        key_index(m, k)].1.fingerprint is Some by {
            assert(has_key(m1, k));
            assert(m1[key_index(m1, k)].1.fingerprint is Some);
            if k == key_of(g) {
                assert(m[key_index(m, k)].1 == updated_record_view(m1[key_index(m1, k)].1, g, t));
            } else {
                assert(m[key_index(m, k)] == m1[key_index(m1, k)]);
            }
        }
    }
}

/// Merging the same detected games twice, the second time with the later
/// timestamp, leaves exactly one record per distinct source and
/// identifier; each such record carries the later timestamp; and no
/// record's fingerprint goes from present to absent in the second merge.
pub proof fn lemma_merge_twice(
    s: Seq<(Seq<char>, RecordView)>,
    gs: Seq<GameView>,
    t1: u64,
    t2: u64,
)
    requires
        keys_distinct(s),
        t1 <= t2,
    ensures
        ({
            let d1 = merge_all(s, gs, t1);
            let d2 = merge_all(d1, gs, t2);
            &&& keys_distinct(d2)
            &&& forall|j: int| #![trigger gs[j]]
                0 <= j < gs.len() ==> has_key(d2, key_of(gs[j])) && d2[key_index(
                    d2,
                    key_of(gs[j]),
                )].1.last_seen == t2
            &&& forall|k: Seq<char>|
                #[trigger] has_key(d1, k) && d1[key_index(d1, k)].1.fingerprint is Some ==> has_key(
                    d2,
                    k,
                ) && d2[key_index(d2, k)].1.fingerprint is Some
        }),
{
    let d1 = merge_all(s, gs, t1);
    let d2 = merge_all(d1, gs, t2);
    lemma_merge_all(s, gs, t1);
    lemma_merge_all(d1, gs, t2);
    assert(keys_distinct(d2));
    assert forall|j: int| #![trigger gs[j]]
        0 <= j < gs.len() implies has_key(d2, key_of(gs[j])) && d2[key_index(
        d2,
        key_of(gs[j]),
    )].1.last_seen == t2 by {
    }
    assert(forall|k: Seq<char>|
        #[trigger] has_key(d1, k) && d1[key_index(d1, k)].1.fingerprint is Some ==> has_key(d2, k)
            && d2[key_index(d2, k)].1.fingerprint is Some);
}

/// Exclusion cleanup removes all and only the excluded records: every
/// surviving entry is a kept one of the old store, every kept entry of
/// the old store survives, and running cleanup on an already clean store
/// changes nothing, so a second run removes zero records.
pub proof fn lemma_cleanup_exact(s: Seq<(Seq<char>, RecordView)>)
    ensures
        forall|i: int| 0 <= i < cleanup_view(s).len() ==> kept_entry(#[trigger] cleanup_view(s)[i]),
        forall|j: int|
            0 <= j < s.len() && kept_entry(#[trigger] s[j]) ==> cleanup_view(s).contains(s[j]),
        cleanup_view(cleanup_view(s)) == cleanup_view(s),
    decreases s.len(),
{
    if s.len() > 0 {
        lemma_cleanup_exact(s.drop_last());
        let c = cleanup_view(s);
        let cd = cleanup_view(s.drop_last());
        assert forall|j: int|
            0 <= j < s.len() && kept_entry(#[trigger] s[j]) implies c.contains(s[j]) by {
            if j == s.len() - 1 {
                assert(c[c.len() - 1] == s[j]);
            } else {
                assert(s.drop_last()[j] == s[j]);
                assert(cd.contains(s[j]));
                let i = choose|i: int| 0 <= i < cd.len() && cd[i] == s[j];
                if kept_entry(s.last()) {
                    assert(c[i] == cd[i]);
                } else {
                    assert(c == cd);
                }
            }
        }
        if kept_entry(s.last()) {
            assert(c == cd.push(s.last()));
            assert(c.drop_last() =~= cd);
            assert(cleanup_view(c) == cleanup_view(cd).push(s.last()));
        }
    }
}

/// Cleanup keeps keys distinct.
proof fn lemma_cleanup_distinct(s: Seq<(Seq<char>, RecordView)>)
    requires
        keys_distinct(s),
    ensures
        keys_distinct(cleanup_view(s)),
        cleanup_view(s).len() <= s.len(),
        forall|i: int|
            0 <= i < cleanup_view(s).len() ==> exists|j: int|
                0 <= j < s.len() && #[trigger] cleanup_view(s)[i] == s[j],
    decreases s.len(),
{
    if s.len() > 0 {
        assert(keys_distinct(s.drop_last())) by {
            assert(forall|k: int|
                0 <= k < s.len() - 1 ==> #[trigger] s.drop_last()[k] == s[k]);
        }
        lemma_cleanup_distinct(s.drop_last());
        let c = cleanup_view(s);
        let cd = cleanup_view(s.drop_last());
        assert(forall|i: int|
            0 <= i < cd.len() ==> exists|j: int|
                0 <= j < s.drop_last().len() && #[trigger] cd[i] == s.drop_last()[j]);
        assert forall|i: int|
            0 <= i < c.len() implies exists|j: int|
            0 <= j < s.len() && #[trigger] c[i] == s[j] by {
            if kept_entry(s.last()) && i == c.len() - 1 {
                assert(c[i] == s[s.len() - 1]);
            } else {
                assert(c[i] == cd[i]);
                let j = choose|j: int| 0 <= j < s.drop_last().len() && cd[i] == s.drop_last()[j];
                assert(c[i] == s[j]);
            }
        }
        if kept_entry(s.last()) {
            assert forall|p: int, q: int| 0 <= p < q < c.len() implies (#[trigger] c[p]).0
                != (#[trigger] c[q]).0 by {
                if q < c.len() - 1 {
                    assert(c[p] == cd[p] && c[q] == cd[q]);
                } else {
                    assert(c[p] == cd[p]);
                    let j = choose|j: int|
                        0 <= j < s.drop_last().len() && cd[p] == s.drop_last()[j];
                    assert(c[p] == s[j]);
                    assert(c[q] == s[s.len() - 1]);
                }
            }
        }
    }
}

} // verus!
