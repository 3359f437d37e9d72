//! Profiles: named settings documents with single-parent inheritance.
//! A resolve walk follows `extends` pointers child to parent, refusing
//! to visit a name twice, and the collected chain is folded ancestor
//! first through the deep merge, so a child's settings always win.
//! Loading and saving the documents is left to the surrounding I/O
//! code, which drives the walk one document at a time.

use vstd::prelude::*;

use crate::CoreError;
use crate::settings::SettingValue;
use crate::settings::SettingView;
use crate::settings::SettingsMap;
use crate::settings::entries_wf;
use crate::settings::merge_entries;
use crate::settings::set_path;
use crate::settings::split_dots;
use crate::strutil::path_join;
use crate::strutil::str_concat;
use crate::strutil::str_eq;

verus! {

/// One stored profile: its name, the profile it extends, if any, and
/// its own settings.
#[derive(Debug)]
pub struct ProfileDocument {
    pub name: String,
    pub extends: Option<String>,
    pub settings: SettingsMap,
}

impl ProfileDocument {
    /// The settings tree is well formed.
    pub open spec fn wf(&self) -> bool {
        self.settings.wf()
    }

    /// A fresh profile: no parent, no settings.
    pub fn new(name: String) -> (r: ProfileDocument)
        ensures
            r.wf(),
            r.name@ == name@,
            r.extends is None,
            r.settings@ == Seq::<(Seq<char>, SettingView)>::empty(),
    {
        ProfileDocument { name, extends: None, settings: SettingsMap::new() }
    }

    /// A value copy of the document.
    pub fn duplicate(&self) -> (r: ProfileDocument)
        ensures
            r.name@ == self.name@,
            r.extends is Some <==> self.extends is Some,
            r.extends is Some ==> r.extends.unwrap()@ == self.extends.unwrap()@,
            r.settings@ == self.settings@,
    {
        ProfileDocument {
            name: self.name.clone(),
            extends: crate::strutil::clone_opt(&self.extends),
            settings: self.settings.duplicate(),
        }
    }

    /// Applies dotted-path assignments in order, each value stored as a
    /// string, stopping at the first conflicting path.
    pub fn apply_sets(&mut self, values: &Vec<(String, String)>) -> (r: Result<(), CoreError>)
        requires
            old(self).wf(),
        ensures
            final(self).wf(),
            final(self).name@ == old(self).name@,
            final(self).extends == old(self).extends,
            match apply_values(
                old(self).settings@,
                values@.map_values(|p: (String, String)| (p.0@, p.1@)),
            ) {
                Some(m) => r is Ok && final(self).settings@ == m,
                None => r is Err && r.unwrap_err() == CoreError::ParseError,
            },
    {
        let ghost vs = values@.map_values(|p: (String, String)| (p.0@, p.1@));
        let n: usize = values.len();
        let mut i: usize = 0;
        proof {
            assert(vs.take(0).len() == 0);
        }
        while i < n
            invariant
                old(self).wf(),
                vs == values@.map_values(|p: (String, String)| (p.0@, p.1@)),
                n == values@.len(),
                i <= n,
                self.wf(),
                self.name@ == old(self).name@,
                self.extends == old(self).extends,
                apply_values(old(self).settings@, vs.take(i as int)) == Some(self.settings@),
            decreases n - i,
        {
            let key = &values[i].0;
            let value = SettingValue::Str(values[i].1.clone());
            let ghost pre = self.settings@;
            let res = self.settings.set_nested_value(key.as_str(), value);
            proof {
                assert(vs.take(i as int + 1).drop_last() =~= vs.take(i as int));
                assert(vs.take(i as int + 1).last() == vs[i as int]);
            }
            match res {
                Ok(_) => {},
                Err(e) => {
                    proof {
                        assert(apply_values(old(self).settings@, vs.take(i as int + 1)) is None);
                        lemma_apply_values_none(old(self).settings@, vs, i as int + 1);
                    }
                    return Err(e);
                },
            }
            i = i + 1;
        }
        proof {
            assert(vs.take(n as int) =~= vs);
        }
        Ok(())
    }
}

/// Dotted-path assignments applied in order: each key's segments are
/// set to the string value; a conflict anywhere fails the whole run.
pub open spec fn apply_values(
    s: Seq<(Seq<char>, SettingView)>,
    vs: Seq<(Seq<char>, Seq<char>)>,
) -> Option<Seq<(Seq<char>, SettingView)>>
    decreases vs.len(),
{
    if vs.len() == 0 {
        Some(s)
    } else {
        match apply_values(s, vs.drop_last()) {
            Some(m) => set_path(m, split_dots(vs.last().0), SettingView::Str(vs.last().1)),
            None => None,
        }
    }
}

/// Once a prefix fails, the whole run fails.
proof fn lemma_apply_values_none(
    s: Seq<(Seq<char>, SettingView)>,
    vs: Seq<(Seq<char>, Seq<char>)>,
    i: int,
)
    requires
        0 <= i <= vs.len(),
        apply_values(s, vs.take(i)) is None,
    ensures
        apply_values(s, vs) is None,
    decreases vs.len() - i,
{
    if i < vs.len() {
        assert(vs.take(i + 1).drop_last() =~= vs.take(i));
        lemma_apply_values_none(s, vs, i + 1);
    } else {
        assert(vs.take(i) =~= vs);
    }
}

/// A resolved profile: the requested name and one flattened settings
/// tree.
#[derive(Debug)]
pub struct ResolvedProfile {
    pub name: String,
    pub settings: SettingValue,
}

/// The flattened settings of a chain stored child first: the ancestors
/// are folded in first, so each descendant's settings overwrite its
/// ancestors'.
pub open spec fn fold_chain(chain: Seq<ProfileDocument>) -> Seq<(Seq<char>, SettingView)>
    decreases chain.len(),
{
    if chain.len() == 0 {
        Seq::empty()
    } else {
        merge_entries(fold_chain(chain.drop_first()), chain.first().settings@)
    }
}

/// Merging well-formed entries into an empty mapping reproduces them.
proof fn lemma_merge_into_empty(s: Seq<(Seq<char>, SettingView)>)
    requires
        entries_wf(s),
    ensures
        merge_entries(Seq::empty(), s) == s,
    decreases s.len(),
{
    if s.len() > 0 {
        lemma_merge_into_empty(s.drop_last());
        let m1 = merge_entries(Seq::<(Seq<char>, SettingView)>::empty(), s.drop_last());
        assert(m1 == s.drop_last());
        let e = s.last();
        assert(!crate::settings::has_entry(s.drop_last(), e.0)) by {
            crate::settings::lemma_entries_wf_index(s);
            if crate::settings::has_entry(s.drop_last(), e.0) {
                let j = choose|j: int|
                    0 <= j < s.drop_last().len() && (#[trigger] s.drop_last()[j]).0 == e.0;
                assert(s[j].0 == e.0);
                assert(s[s.len() - 1].0 == e.0);
            }
        }
        if e.1 is Mapping {
            assert(crate::settings::merge_step(s.drop_last(), e) == s.drop_last().push(
                (e.0, SettingView::Mapping(e.1->Mapping_0)),
            ));
            assert((e.0, SettingView::Mapping(e.1->Mapping_0)) == e);
        }
        assert(crate::settings::merge_step(s.drop_last(), e) == s.drop_last().push(e));
        assert(merge_entries(Seq::<(Seq<char>, SettingView)>::empty(), s)
            == crate::settings::merge_step(m1, e));
        assert(s.drop_last().push(e) =~= s);
    }
}

/// Resolving a two-document chain, a child over its ancestor, flattens
/// to the deep merge of the ancestor's settings with the child's: the
/// child's values win, nested mappings merge, and ancestor keys not
/// overridden survive.
pub proof fn lemma_fold_chain_pair(child: ProfileDocument, parent: ProfileDocument)
    requires
        child.wf(),
        parent.wf(),
    ensures
        fold_chain(seq![child, parent]) == merge_entries(parent.settings@, child.settings@),
{
    let chain = seq![child, parent];
    assert(chain.drop_first() =~= seq![parent]);
    assert(seq![parent].drop_first() =~= Seq::<ProfileDocument>::empty());
    lemma_merge_into_empty(parent.settings@);
    assert(fold_chain(Seq::<ProfileDocument>::empty()) =~= Seq::<(Seq<char>, SettingView)>::empty());
    assert(fold_chain(seq![parent]) == merge_entries(
        fold_chain(seq![parent].drop_first()),
        seq![parent].first().settings@,
    ));
    assert(seq![parent].first() == parent);
    assert(fold_chain(seq![parent]) == parent.settings@);
    assert(chain.first() == child);
    assert(fold_chain(chain) == merge_entries(fold_chain(chain.drop_first()), child.settings@));
}

/// Some document in the chain carries this name.
pub open spec fn name_in_chain(chain: Seq<ProfileDocument>, n: Seq<char>) -> bool {
    exists|i: int| 0 <= i < chain.len() && (#[trigger] chain[i]).name@ == n
}

/// The walk that resolves a profile: documents are fed in child to
/// parent, each one requested by name, and a name that would be visited
/// twice stops the walk as a cycle.
#[derive(Debug)]
pub struct ResolveWalk {
    pub target: String,
    pub chain: Vec<ProfileDocument>,
    pub pending: Option<String>,
    pub cycle: bool,
}

impl ResolveWalk {
    /// The walk is consistent: the chain starts at the target, each
    /// link's parent follows it, no name repeats, and what is pending is
    /// the unvisited parent of the last link.
    pub open spec fn wf(&self) -> bool {
        &&& forall|i: int| 0 <= i < self.chain@.len() ==> (#[trigger] self.chain@[i]).wf()
        &&& forall|p: int, q: int|
            0 <= p < q < self.chain@.len() ==> (#[trigger] self.chain@[p]).name@ != (
            #[trigger] self.chain@[q]).name@
        &&& self.chain@.len() > 0 ==> self.chain@[0].name@ == self.target@
        &&& forall|i: int|
            0 <= i < self.chain@.len() - 1 ==> (#[trigger] self.chain@[i]).extends is Some
                && self.chain@[i].extends.unwrap()@ == self.chain@[i + 1].name@
        &&& !self.cycle ==> match self.pending {
            Some(p) => {
                &&& (self.chain@.len() == 0 ==> p@ == self.target@)
                &&& (self.chain@.len() > 0 ==> self.chain@.last().extends is Some
                    && self.chain@.last().extends.unwrap()@ == p@)
                &&& !name_in_chain(self.chain@, p@)
            },
            None => self.chain@.len() > 0 && self.chain@.last().extends is None,
        }
        &&& self.cycle ==> self.chain@.len() > 0 && self.chain@.last().extends is Some
            && name_in_chain(self.chain@, self.chain@.last().extends.unwrap()@)
    }

    /// Starts resolving the named profile.
    pub fn begin(name: &str) -> (r: ResolveWalk)
        ensures
            r.wf(),
            r.target@ == name@,
            r.chain@.len() == 0,
            r.pending is Some && r.pending.unwrap()@ == name@,
            !r.cycle,
    {
        let r = ResolveWalk {
            target: String::from_str(name),
            chain: Vec::new(),
            pending: Some(String::from_str(name)),
            cycle: false,
        };
        proof {
            assert(!name_in_chain(r.chain@, name@));
        }
        r
    }

    /// The name of the document the walk needs next, if it is still
    /// going.
    pub fn needed(&self) -> (r: Option<String>)
        ensures
            match r {
                Some(p) => !self.cycle && self.pending is Some && p@ == self.pending.unwrap()@,
                None => self.cycle || self.pending is None,
            },
    {
        if self.cycle {
            return None;
        }
        match &self.pending {
            Some(p) => Some(p.clone()),
            None => None,
        }
    }

    /// Whether the walk found an inheritance cycle.
    pub fn has_cycle(&self) -> (r: bool)
        ensures
            r == self.cycle,
    {
        self.cycle
    }

    /// Whether every document of the chain has been fed in.
    pub fn is_complete(&self) -> (r: bool)
        ensures
            r == (!self.cycle && self.pending is None),
    {
        !self.cycle && matches!(&self.pending, None)
    }

    /// Feeds the document the walk asked for. The document joins the
    /// chain; a parent name already visited stops the walk with a cycle
    /// error, self-extension included.
    pub fn feed(&mut self, doc: ProfileDocument) -> (r: Result<(), CoreError>)
        requires
            old(self).wf(),
            !old(self).cycle,
            old(self).pending is Some,
            doc.name@ == old(self).pending.unwrap()@,
            doc.wf(),
        ensures
            final(self).wf(),
            final(self).target == old(self).target,
            final(self).chain@ == old(self).chain@.push(doc),
            match doc.extends {
                None => r is Ok && !final(self).cycle && final(self).pending is None,
                Some(e) => {
                    if name_in_chain(old(self).chain@.push(doc), e@) {
                        r is Err && r.unwrap_err() == CoreError::CycleDetected && final(self).cycle
                    } else {
                        r is Ok && !final(self).cycle && final(self).pending is Some
                            && final(self).pending.unwrap()@ == e@
                    }
                },
            },
    {
        let next: Option<String> = crate::strutil::clone_opt(&doc.extends);
        let ghost oldchain = self.chain@;
        self.chain.push(doc);
        proof {
            assert(forall|i: int|
                0 <= i < oldchain.len() ==> #[trigger] self.chain@[i] == oldchain[i]);
            assert(self.chain@.last() == doc);
        }
        match next {
            None => {
                self.pending = None;
                proof {
                    assert(self.wf());
                }
                Ok(())
            },
            Some(e) => {
                let mut found = false;
                let n: usize = self.chain.len();
                let mut i: usize = 0;
                while i < n
                    invariant
                        n == self.chain@.len(),
                        i <= n,
                        e@ == e@,
                        found == exists|j: int|
                            0 <= j < i && (#[trigger] self.chain@[j]).name@ == e@,
                    decreases n - i,
                {
                    if str_eq(self.chain[i].name.as_str(), e.as_str()) {
                        proof {
                            assert(self.chain@[i as int].name@ == e@);
                        }
                        found = true;
                    }
                    i = i + 1;
                }
                proof {
                    assert(found == name_in_chain(self.chain@, e@));
                }
                if found {
                    self.cycle = true;
                    self.pending = Some(e);
                    proof {
                        assert(self.wf());
                    }
                    Err(CoreError::CycleDetected)
                } else {
                    self.pending = Some(e);
                    proof {
                        assert(self.wf());
                    }
                    Ok(())
                }
            },
        }
    }

    /// Flattens the finished chain: the settings trees are folded
    /// ancestor first through the deep merge, so each descendant's
    /// settings overwrite its ancestors'.
    pub fn finish(self) -> (r: ResolvedProfile)
        requires
            self.wf(),
            !self.cycle,
            self.pending is None,
        ensures
            r.name@ == self.target@,
            r.settings@ == SettingView::Mapping(fold_chain(self.chain@)),
            r.settings.wf(),
    {
        let mut merged = SettingsMap::new();
        let n: usize = self.chain.len();
        let mut i: usize = n;
        proof {
            assert(self.chain@.skip(n as int).len() == 0);
            assert(merged@ =~= fold_chain(self.chain@.skip(n as int)));
        }
        while i > 0
            invariant
                self.wf(),
                n == self.chain@.len(),
                i <= n,
                merged.wf(),
                merged@ == fold_chain(self.chain@.skip(i as int)),
            decreases i,
        {
            i = i - 1;
            proof {
                assert(forall|j: int|
                    0 <= j < self.chain@.len() ==> (#[trigger] self.chain@[j]).wf());
                assert(self.chain@[i as int].wf());
                assert(self.chain@.skip(i as int).drop_first() =~= self.chain@.skip(i as int + 1));
                assert(self.chain@.skip(i as int).first() == self.chain@[i as int]);
            }
            merged.merge_from(&self.chain[i].settings);
            proof {
                assert(merged@ == fold_chain(self.chain@.skip(i as int)));
            }
        }
        proof {
            assert(self.chain@.skip(0) =~= self.chain@);
        }
        let r = ResolvedProfile { name: self.target, settings: SettingValue::Mapping(merged) };
        r
    }
}

/// The profile store: documents live as files under one directory, one
/// per profile name.
#[derive(Debug)]
pub struct ProfileManager {
    pub root: String,
}

impl ProfileManager {
    /// A store over the given directory.
    pub fn new(root: String) -> (r: ProfileManager)
        ensures
            r.root@ == root@,
    {
        ProfileManager { root }
    }

    /// The file that stores the named profile.
    pub fn path_for(&self, name: &str) -> (r: String)
        ensures
            r@ == self.root@ + seq!['/'] + name@ + ".yaml"@,
    {
        let file = str_concat(name, ".yaml");
        let r = path_join(self.root.as_str(), file.as_str());
        proof {
            assert(r@ =~= self.root@ + seq!['/'] + name@ + ".yaml"@);
        }
        r
    }

    /// Whether the named profile is stored. The answer depends on the
    /// filesystem.
    pub fn exists_on_disk(&self, name: &str) -> bool {
        let path = self.path_for(name);
        path_exists(path.as_str())
    }
}

/// Relies on std::path::Path::exists: whether the path names something
/// on disk. The answer depends on the filesystem, so nothing is
/// promised of it.
#[verifier::external_body]
fn path_exists(path: &str) -> bool {
    std::path::Path::new(path).exists()
}

} // verus!
