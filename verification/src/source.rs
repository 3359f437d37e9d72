//! The uniform shape of detector output: a game source, a discovered
//! game record, and a small string-to-string mapping for source-specific
//! metadata.

use vstd::prelude::*;

use crate::config::ConfigManager;
use crate::config::NvConfig;
use crate::strutil::str_eq;

verus! {

/// Which third-party library manager a game came from.
#[derive(Debug, Clone, Copy, PartialEq, Eq, Structural)]
pub enum GameSource {
    Steam,
    Heroic,
    Lutris,
    Unknown,
}

/// The lowercase label of a source, as it appears inside identity keys.
pub open spec fn source_label(s: GameSource) -> Seq<char> {
    match s {
        GameSource::Steam => "steam"@,
        GameSource::Heroic => "heroic"@,
        GameSource::Lutris => "lutris"@,
        GameSource::Unknown => "unknown"@,
    }
}

impl GameSource {
    /// The lowercase label of this source.
    pub fn as_str(&self) -> (r: &'static str)
        ensures
            r@ == source_label(*self),
    {
        match self {
            GameSource::Steam => "steam",
            GameSource::Heroic => "heroic",
            GameSource::Lutris => "lutris",
            GameSource::Unknown => "unknown",
        }
    }
}

/// A mapping from string keys to string values with no duplicate keys.
/// Used for the free-form metadata a detector attaches to a game.
#[derive(Debug, Clone)]
pub struct StringMap {
    pub entries: Vec<(String, String)>,
}

/// The mapping described by an entry list, later entries winning.
pub open spec fn assoc_map(s: Seq<(String, String)>) -> Map<Seq<char>, Seq<char>>
    decreases s.len(),
{
    if s.len() == 0 {
        Map::empty()
    } else {
        assoc_map(s.drop_last()).insert(s.last().0@, s.last().1@)
    }
}

/// A key is in the mapping exactly when some entry carries it.
pub proof fn lemma_assoc_map_contains(s: Seq<(String, String)>, k: Seq<char>)
    ensures
        assoc_map(s).dom().contains(k) <==> exists|i: int|
            0 <= i < s.len() && (#[trigger] s[i]).0@ == k,
    decreases s.len(),
{
    if s.len() > 0 {
        lemma_assoc_map_contains(s.drop_last(), k);
        assert(forall|i: int| 0 <= i < s.len() - 1 ==> #[trigger] s.drop_last()[i] == s[i]);
        if assoc_map(s).dom().contains(k) {
            if k == s.last().0@ {
                assert(s[s.len() - 1].0@ == k);
            } else {
                let i = choose|i: int|
                    0 <= i < s.drop_last().len() && (#[trigger] s.drop_last()[i]).0@ == k;
                assert(s[i].0@ == k);
            }
        }
        if exists|i: int| 0 <= i < s.len() && (#[trigger] s[i]).0@ == k {
            let i = choose|i: int| 0 <= i < s.len() && (#[trigger] s[i]).0@ == k;
            if i < s.len() - 1 {
                assert(s.drop_last()[i].0@ == k);
            } else {
                assert(k == s.last().0@);
            }
        }
    }
}

/// In a list without duplicate keys, each entry gives the mapping's
/// value at its key.
pub proof fn lemma_assoc_map_index(s: Seq<(String, String)>, i: int)
    requires
        forall|p: int, q: int|
            0 <= p < q < s.len() ==> (#[trigger] s[p]).0@ != (#[trigger] s[q]).0@,
        0 <= i < s.len(),
    ensures
        assoc_map(s).dom().contains(s[i].0@),
        assoc_map(s)[s[i].0@] == s[i].1@,
    decreases s.len(),
{
    if i < s.len() - 1 {
        lemma_assoc_map_index(s.drop_last(), i);
        assert(s.drop_last()[i] == s[i]);
        assert(s.last().0@ != s[i].0@);
    } else {
        assert(assoc_map(s).dom().contains(s.last().0@));
    }
}

impl StringMap {
    /// Distinct keys throughout.
    pub open spec fn wf(&self) -> bool {
        forall|p: int, q: int|
            0 <= p < q < self.entries@.len() ==> (#[trigger] self.entries@[p]).0@
                != (#[trigger] self.entries@[q]).0@
    }

    /// The mapping as a mathematical map over character sequences.
    pub open spec fn view(&self) -> Map<Seq<char>, Seq<char>> {
        assoc_map(self.entries@)
    }

    /// The empty mapping.
    pub fn new() -> (r: StringMap)
        ensures
            r.wf(),
            r@ == Map::<Seq<char>, Seq<char>>::empty(),
    {
        StringMap { entries: Vec::new() }
    }

    /// The entries, in insertion order; each one is a key of the mapping
    /// with its value.
    pub fn entries(&self) -> (r: &Vec<(String, String)>)
        requires
            self.wf(),
        ensures
            r@.len() == self@.dom().len(),
            forall|i: int|
                0 <= i < r@.len() ==> self@.dom().contains((#[trigger] r@[i]).0@) && self@[r@[i].0@]
                    == r@[i].1@,
    {
        proof {
            lemma_assoc_entry_count(self.entries@);
            assert forall|i: int|
                0 <= i < self.entries@.len() implies self@.dom().contains(
                (#[trigger] self.entries@[i]).0@,
            ) && self@[self.entries@[i].0@] == self.entries@[i].1@ by {
                lemma_assoc_map_index(self.entries@, i);
            }
        }
        &self.entries
    }

    /// The number of keys.
    pub fn len(&self) -> (r: usize)
        requires
            self.wf(),
        ensures
            r == self@.dom().len(),
    {
        proof {
            lemma_assoc_entry_count(self.entries@);
        }
        self.entries.len()
    }

    /// Whether the mapping has no keys.
    pub fn is_empty(&self) -> (r: bool)
        requires
            self.wf(),
        ensures
            r == (self@.dom().len() == 0),
    {
        proof {
            lemma_assoc_entry_count(self.entries@);
        }
        self.entries.len() == 0
    }

    /// The value at `key`, if the mapping has it.
    pub fn get(&self, key: &str) -> (r: Option<&String>)
        requires
            self.wf(),
        ensures
            match r {
                Some(v) => self@.dom().contains(key@) && v@ == self@[key@],
                None => !self@.dom().contains(key@),
            },
    {
        let n: usize = self.entries.len();
        let mut i: usize = 0;
        while i < n
            invariant
                self.wf(),
                n == self.entries@.len(),
                i <= n,
                forall|k: int| 0 <= k < i ==> (#[trigger] self.entries@[k]).0@ != key@,
            decreases n - i,
        {
            if str_eq(self.entries[i].0.as_str(), key) {
                proof {
                    lemma_assoc_map_index(self.entries@, i as int);
                }
                return Some(&self.entries[i].1);
            }
            i = i + 1;
        }
        proof {
            lemma_assoc_map_contains(self.entries@, key@);
        }
        None
    }

    /// Whether the mapping has `key`.
    pub fn contains_key(&self, key: &str) -> (r: bool)
        requires
            self.wf(),
        ensures
            r == self@.dom().contains(key@),
    {
        let r = self.get(key);
        r.is_some()
    }

    /// Sets `key` to `value`, replacing any previous value.
    pub fn insert(&mut self, key: String, value: String)
        requires
            old(self).wf(),
        ensures
            final(self).wf(),
            final(self)@ == old(self)@.insert(key@, value@),
    {
        let n: usize = self.entries.len();
        let mut i: usize = 0;
        while i < n
            invariant
                self.wf(),
                self.entries@ == old(self).entries@,
                n == self.entries@.len(),
                i <= n,
                forall|k: int| 0 <= k < i ==> (#[trigger] self.entries@[k]).0@ != key@,
            decreases n - i,
        {
            if str_eq(self.entries[i].0.as_str(), key.as_str()) {
                let ghost olds = self.entries@;
                self.entries.set(i, (key, value));
                proof {
                    lemma_assoc_update(olds, i as int, self.entries@[i as int]);
                    assert(self.wf());
                }
                return;
            }
            i = i + 1;
        }
        let ghost olds = self.entries@;
        self.entries.push((key, value));
        proof {
            assert(self.entries@.drop_last() =~= olds);
            assert(self.wf());
        }
    }
}

/// Entry lists with the same key and value views describe the same
/// mapping.
proof fn lemma_assoc_map_congruent(s: Seq<(String, String)>, t: Seq<(String, String)>)
    requires
        s.len() == t.len(),
        forall|i: int|
            0 <= i < s.len() ==> (#[trigger] s[i]).0@ == (#[trigger] t[i]).0@ && s[i].1@ == t[i].1@,
    ensures
        assoc_map(s) == assoc_map(t),
    decreases s.len(),
{
    if s.len() > 0 {
        assert(forall|i: int|
            0 <= i < s.len() - 1 ==> #[trigger] s.drop_last()[i] == s[i] && #[trigger] t.drop_last()[i] == t[i]);
        lemma_assoc_map_congruent(s.drop_last(), t.drop_last());
        assert(s.last() == s[s.len() - 1] && t.last() == t[t.len() - 1]);
    }
}

impl StringMap {
    /// A value copy of the mapping.
    pub fn duplicate(&self) -> (r: StringMap)
        requires
            self.wf(),
        ensures
            r.wf(),
            r@ == self@,
    {
        let n: usize = self.entries.len();
        let mut entries: Vec<(String, String)> = Vec::new();
        let mut i: usize = 0;
        while i < n
            invariant
                self.wf(),
                n == self.entries@.len(),
                i <= n,
                entries@.len() == i,
                forall|k: int|
                    0 <= k < i ==> (#[trigger] entries@[k]).0@ == (#[trigger] self.entries@[k]).0@
                        && entries@[k].1@ == self.entries@[k].1@,
            decreases n - i,
        {
            entries.push((self.entries[i].0.clone(), self.entries[i].1.clone()));
            i = i + 1;
        }
        let r = StringMap { entries };
        proof {
            assert forall|p: int, q: int| 0 <= p < q < r.entries@.len() implies (
            #[trigger] r.entries@[p]).0@ != (#[trigger] r.entries@[q]).0@ by {
                assert(self.entries@[p].0@ != self.entries@[q].0@);
            }
            lemma_assoc_map_congruent(r.entries@, self.entries@);
        }
        r
    }
}

/// Inserting a key into the right-hand side commutes with a
/// right-preferring union.
proof fn lemma_union_insert(
    m: Map<Seq<char>, Seq<char>>,
    n: Map<Seq<char>, Seq<char>>,
    k: Seq<char>,
    v: Seq<char>,
)
    ensures
        m.union_prefer_right(n.insert(k, v)) == m.union_prefer_right(n).insert(k, v),
{
    assert(m.union_prefer_right(n.insert(k, v)) =~= m.union_prefer_right(n).insert(k, v));
}

impl StringMap {
    /// Adds every entry of `other`, overwriting at shared keys.
    pub fn extend(&mut self, other: &StringMap)
        requires
            old(self).wf(),
            other.wf(),
        ensures
            final(self).wf(),
            final(self)@ == old(self)@.union_prefer_right(other@),
    {
        let n: usize = other.entries.len();
        let mut i: usize = 0;
        proof {
            assert(other.entries@.take(0).len() == 0);
            assert(self@.union_prefer_right(assoc_map(other.entries@.take(0))) =~= self@);
        }
        while i < n
            invariant
                old(self).wf(),
                other.wf(),
                n == other.entries@.len(),
                i <= n,
                self.wf(),
                self@ == old(self)@.union_prefer_right(assoc_map(other.entries@.take(i as int))),
            decreases n - i,
        {
            let key = other.entries[i].0.clone();
            let value = other.entries[i].1.clone();
            self.insert(key, value);
            i = i + 1;
            proof {
                let t = other.entries@.take(i as int);
                assert(t.drop_last() =~= other.entries@.take(i as int - 1));
                assert(t.last() == other.entries@[i as int - 1]);
                lemma_union_insert(
                    old(self)@,
                    assoc_map(other.entries@.take(i as int - 1)),
                    t.last().0@,
                    t.last().1@,
                );
            }
        }
        proof {
            assert(other.entries@.take(n as int) =~= other.entries@);
        }
    }
}

/// Replacing the entry at `i` with one that carries the same key turns
/// the mapping into an insert at that key, provided keys are distinct.
proof fn lemma_assoc_update(s: Seq<(String, String)>, i: int, e: (String, String))
    requires
        forall|p: int, q: int|
            0 <= p < q < s.len() ==> (#[trigger] s[p]).0@ != (#[trigger] s[q]).0@,
        0 <= i < s.len(),
        e.0@ == s[i].0@,
    ensures
        assoc_map(s.update(i, e)) == assoc_map(s).insert(e.0@, e.1@),
    decreases s.len(),
{
    let t = s.update(i, e);
    if i == s.len() - 1 {
        assert(t.drop_last() =~= s.drop_last());
        assert(t.last() == e);
        assert(assoc_map(t) == assoc_map(s.drop_last()).insert(e.0@, e.1@));
        assert(assoc_map(s) == assoc_map(s.drop_last()).insert(s.last().0@, s.last().1@));
        assert(assoc_map(s).insert(e.0@, e.1@) =~= assoc_map(s.drop_last()).insert(e.0@, e.1@));
    } else {
        assert(t.drop_last() =~= s.drop_last().update(i, e));
        assert(t.last() == s.last());
        lemma_assoc_update(s.drop_last(), i, e);
        assert(assoc_map(t) == assoc_map(s.drop_last()).insert(e.0@, e.1@).insert(
            s.last().0@,
            s.last().1@,
        ));
        assert(s.last().0@ != e.0@);
        assert(assoc_map(s.drop_last()).insert(e.0@, e.1@).insert(s.last().0@, s.last().1@)
            =~= assoc_map(s.drop_last()).insert(s.last().0@, s.last().1@).insert(e.0@, e.1@));
    }
}

/// With distinct keys, the mapping has exactly one key per entry.
proof fn lemma_assoc_entry_count(s: Seq<(String, String)>)
    requires
        forall|p: int, q: int|
            0 <= p < q < s.len() ==> (#[trigger] s[p]).0@ != (#[trigger] s[q]).0@,
    ensures
        assoc_map(s).dom().finite(),
        assoc_map(s).dom().len() == s.len(),
    decreases s.len(),
{
    if s.len() > 0 {
        lemma_assoc_entry_count(s.drop_last());
        lemma_assoc_map_contains(s.drop_last(), s.last().0@);
        assert(!assoc_map(s.drop_last()).dom().contains(s.last().0@));
        assert(assoc_map(s).dom() =~= assoc_map(s.drop_last()).dom().insert(s.last().0@));
    }
}

/// One game found by a detector: where it came from, its source-local
/// identifier, display name, install location, and what else the
/// detector knew about it.
#[derive(Debug, Clone)]
pub struct DetectedGame {
    pub source: GameSource,
    pub id: String,
    pub name: String,
    pub install_dir: String,
    pub executable: Option<String>,
    pub fingerprint: Option<String>,
    pub metadata: StringMap,
}

impl DetectedGame {
    /// The metadata mapping has distinct keys.
    pub open spec fn wf(&self) -> bool {
        self.metadata.wf()
    }
}

/// The mathematical shape of a discovered game: every string as a
/// character sequence, the metadata as a map.
pub struct GameView {
    pub source: GameSource,
    pub id: Seq<char>,
    pub name: Seq<char>,
    pub install_dir: Seq<char>,
    pub executable: Option<Seq<char>>,
    pub fingerprint: Option<Seq<char>>,
    pub metadata: Map<Seq<char>, Seq<char>>,
}

impl View for DetectedGame {
    type V = GameView;

    open spec fn view(&self) -> GameView {
        GameView {
            source: self.source,
            id: self.id@,
            name: self.name@,
            install_dir: self.install_dir@,
            executable: match self.executable {
                Some(e) => Some(e@),
                None => None,
            },
            fingerprint: match self.fingerprint {
                Some(f) => Some(f@),
                None => None,
            },
            metadata: self.metadata@,
        }
    }
}

/// The identity key of a game: its source's label and its identifier,
/// joined by a colon.
pub open spec fn key_of(g: GameView) -> Seq<char> {
    source_label(g.source) + seq![':'] + g.id
}

/// The identity key of a discovered game.
pub fn game_key(game: &DetectedGame) -> (r: String)
    ensures
        r@ == key_of(game@),
{
    let mut r = String::from_str(game.source.as_str());
    r.append(":");
    r.append(game.id.as_str());
    proof {
        reveal_strlit(":");
        assert(r@ =~= key_of(game@));
    }
    r
}

impl DetectedGame {
    /// A value copy of the game.
    pub fn duplicate(&self) -> (r: DetectedGame)
        requires
            self.wf(),
        ensures
            r.wf(),
            r@ == self@,
    {
        DetectedGame {
            source: self.source,
            id: self.id.clone(),
            name: self.name.clone(),
            install_dir: self.install_dir.clone(),
            executable: crate::strutil::clone_opt(&self.executable),
            fingerprint: crate::strutil::clone_opt(&self.fingerprint),
            metadata: self.metadata.duplicate(),
        }
    }
}

/// What a detector needs: the configuration and the directory layout.
pub struct DetectionContext<'a> {
    pub config: &'a NvConfig,
    pub manager: &'a ConfigManager,
}

impl<'a> DetectionContext<'a> {
    /// Bundles the configuration with the directory layout.
    pub fn new(config: &'a NvConfig, manager: &'a ConfigManager) -> (r: DetectionContext<'a>)
        ensures
            r.config == config,
            r.manager == manager,
    {
        DetectionContext { config, manager }
    }
}

} // verus!
