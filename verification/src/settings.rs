//! The settings tree of a profile: a mapping from string keys to
//! scalars or nested mappings, in insertion order, with no duplicate
//! keys inside any one mapping. The deep merge that profile resolution
//! folds over inheritance chains lives here, as does the dotted-path
//! update used when a profile is edited.

use vstd::prelude::*;

use crate::CoreError;
use crate::strutil::find_from;
use crate::strutil::scan_for_char;
use crate::strutil::str_eq;
use crate::strutil::str_to_chars;

verus! {

/// One settings value: a scalar or a nested mapping.
#[derive(Debug)]
pub enum SettingValue {
    Null,
    Bool(bool),
    Int(i64),
    Str(String),
    Mapping(SettingsMap),
}

/// A settings mapping: keyed values in insertion order.
#[derive(Debug)]
pub struct SettingsMap {
    pub entries: Vec<(String, SettingValue)>,
}

/// The mathematical shape of a settings value: strings as character
/// sequences, mappings as ordered entry sequences.
pub enum SettingView {
    Null,
    Bool(bool),
    Int(int),
    Str(Seq<char>),
    Mapping(Seq<(Seq<char>, SettingView)>),
}

/// The view of a value.
pub open spec fn sv_view(v: SettingValue) -> SettingView
    decreases v,
{
    match v {
        SettingValue::Null => SettingView::Null,
        SettingValue::Bool(b) => SettingView::Bool(b),
        SettingValue::Int(i) => SettingView::Int(i as int),
        SettingValue::Str(s) => SettingView::Str(s@),
        SettingValue::Mapping(m) => SettingView::Mapping(sm_view(m.entries@)),
    }
}

/// The view of an entry list.
pub open spec fn sm_view(s: Seq<(String, SettingValue)>) -> Seq<(Seq<char>, SettingView)>
    decreases s,
{
    if s.len() == 0 {
        Seq::empty()
    } else {
        sm_view(s.drop_last()).push((s.last().0@, sv_view(s.last().1)))
    }
}

impl View for SettingValue {
    type V = SettingView;

    open spec fn view(&self) -> SettingView {
        sv_view(*self)
    }
}

impl View for SettingsMap {
    type V = Seq<(Seq<char>, SettingView)>;

    open spec fn view(&self) -> Seq<(Seq<char>, SettingView)> {
        sm_view(self.entries@)
    }
}

/// The view of an entry list has one viewed entry per entry.
pub proof fn lemma_sm_view_index(s: Seq<(String, SettingValue)>)
    ensures
        sm_view(s).len() == s.len(),
        forall|i: int|
            0 <= i < s.len() ==> #[trigger] sm_view(s)[i] == ((s[i].0@, sv_view(s[i].1))),
    decreases s,
{
    if s.len() > 0 {
        lemma_sm_view_index(s.drop_last());
        assert(forall|i: int| 0 <= i < s.len() - 1 ==> #[trigger] s.drop_last()[i] == s[i]);
    }
}

/// Well-formed entries: no key twice, every value well formed.
pub open spec fn entries_wf(s: Seq<(Seq<char>, SettingView)>) -> bool
    decreases s,
{
    if s.len() == 0 {
        true
    } else {
        &&& entries_wf(s.drop_last())
        &&& view_wf(s.last().1)
        &&& forall|j: int| 0 <= j < s.len() - 1 ==> (#[trigger] s[j]).0 != s.last().0
    }
}

/// Well-formed value: every mapping in it is well formed.
pub open spec fn view_wf(v: SettingView) -> bool
    decreases v,
{
    match v {
        SettingView::Mapping(m) => entries_wf(m),
        _ => true,
    }
}

/// Well-formed entries have pairwise distinct keys and well-formed
/// values throughout.
pub proof fn lemma_entries_wf_index(s: Seq<(Seq<char>, SettingView)>)
    requires
        entries_wf(s),
    ensures
        forall|p: int, q: int| 0 <= p < q < s.len() ==> (#[trigger] s[p]).0 != (#[trigger] s[q]).0,
        forall|i: int| 0 <= i < s.len() ==> view_wf((#[trigger] s[i]).1),
    decreases s,
{
    if s.len() > 0 {
        lemma_entries_wf_index(s.drop_last());
        assert forall|p: int, q: int| 0 <= p < q < s.len() implies (#[trigger] s[p]).0 != (
        #[trigger] s[q]).0 by {
            if q < s.len() - 1 {
                assert(s.drop_last()[p].0 != s.drop_last()[q].0);
                assert(s.drop_last()[p] == s[p] && s.drop_last()[q] == s[q]);
            } else {
                assert(s[q] == s.last());
            }
        }
        assert forall|i: int| 0 <= i < s.len() implies view_wf((#[trigger] s[i]).1) by {
            if i < s.len() - 1 {
                assert(view_wf(s.drop_last()[i].1));
                assert(s.drop_last()[i] == s[i]);
            } else {
                assert(s[i] == s.last());
            }
        }
    }
}

impl SettingValue {
    /// The value is well formed.
    pub open spec fn wf(&self) -> bool {
        view_wf(self@)
    }

    /// A value copy.
    pub fn duplicate(&self) -> (r: SettingValue)
        ensures
            r@ == self@,
        decreases self,
    {
        match self {
            SettingValue::Null => SettingValue::Null,
            SettingValue::Bool(b) => SettingValue::Bool(*b),
            SettingValue::Int(i) => SettingValue::Int(*i),
            SettingValue::Str(s) => SettingValue::Str(s.clone()),
            SettingValue::Mapping(m) => SettingValue::Mapping(m.duplicate()),
        }
    }
}

impl SettingsMap {
    /// The mapping is well formed.
    pub open spec fn wf(&self) -> bool {
        entries_wf(self@)
    }

    /// An empty mapping.
    pub fn new() -> (r: SettingsMap)
        ensures
            r.wf(),
            r@ == Seq::<(Seq<char>, SettingView)>::empty(),
    {
        let r = SettingsMap { entries: Vec::new() };
        proof {
            assert(r@ =~= Seq::<(Seq<char>, SettingView)>::empty());
        }
        r
    }

    /// A value copy.
    pub fn duplicate(&self) -> (r: SettingsMap)
        ensures
            r@ == self@,
        decreases self,
    {
        let n: usize = self.entries.len();
        let mut entries: Vec<(String, SettingValue)> = Vec::new();
        let mut i: usize = 0;
        while i < n
            invariant
                n == self.entries@.len(),
                i <= n,
                sm_view(entries@) == sm_view(self.entries@.take(i as int)),
            decreases n - i,
        {
            let key = self.entries[i].0.clone();
            let value = self.entries[i].1.duplicate();
            proof {
                assert(key@ == self.entries@[i as int].0@);
                assert(sv_view(value) == sv_view(self.entries@[i as int].1));
            }
            let ghost prev = entries@;
            entries.push((key, value));
            i = i + 1;
            proof {
                assert(entries@.drop_last() =~= prev);
                assert(sm_view(entries@) == sm_view(prev).push(
                    (entries@.last().0@, sv_view(entries@.last().1)),
                ));
                assert(self.entries@.take(i as int).drop_last() =~= self.entries@.take(
                    i as int - 1,
                ));
                assert(self.entries@.take(i as int).last() == self.entries@[i as int - 1]);
                assert(sm_view(self.entries@.take(i as int)) == sm_view(
                    self.entries@.take(i as int - 1),
                ).push(
                    (
                        self.entries@[i as int - 1].0@,
                        sv_view(self.entries@[i as int - 1].1),
                    ),
                ));
            }
        }
        proof {
            assert(self.entries@.take(n as int) =~= self.entries@);
        }
        SettingsMap { entries }
    }
}

/// Some entry carries this key.
pub open spec fn has_entry(s: Seq<(Seq<char>, SettingView)>, k: Seq<char>) -> bool {
    exists|i: int| 0 <= i < s.len() && (#[trigger] s[i]).0 == k
}

/// The index of the entry carrying this key; meaningful under
/// well-formedness when `has_entry` holds.
pub open spec fn entry_index(s: Seq<(Seq<char>, SettingView)>, k: Seq<char>) -> int {
    choose|i: int| 0 <= i < s.len() && (#[trigger] s[i]).0 == k
}

/// The value at a key, if the mapping has it.
pub open spec fn lookup(s: Seq<(Seq<char>, SettingView)>, k: Seq<char>) -> Option<SettingView> {
    if has_entry(s, k) {
        Some(s[entry_index(s, k)].1)
    } else {
        None
    }
}

/// One source entry merged into target entries: a nested mapping merges
/// recursively into a mapping already at that key and replaces anything
/// else; a scalar overwrites; a key not yet present is appended.
pub open spec fn merge_step(
    t: Seq<(Seq<char>, SettingView)>,
    e: (Seq<char>, SettingView),
) -> Seq<(Seq<char>, SettingView)>
    decreases e,
{
    match e.1 {
        SettingView::Mapping(child) => {
            if has_entry(t, e.0) {
                let i = entry_index(t, e.0);
                match t[i].1 {
                    SettingView::Mapping(existing) => t.update(
                        i,
                        (e.0, SettingView::Mapping(merge_entries(existing, child))),
                    ),
                    _ => t.update(i, (e.0, SettingView::Mapping(child))),
                }
            } else {
                t.push((e.0, SettingView::Mapping(child)))
            }
        },
        _ => {
            if has_entry(t, e.0) {
                t.update(entry_index(t, e.0), e)
            } else {
                t.push(e)
            }
        },
    }
}

/// Source entries merged into target entries, in source order. This is
/// the deep merge of profile resolution: descendants' values overwrite,
/// nested mappings merge rather than replace, and keys only the target
/// has survive.
pub open spec fn merge_entries(
    t: Seq<(Seq<char>, SettingView)>,
    s: Seq<(Seq<char>, SettingView)>,
) -> Seq<(Seq<char>, SettingView)>
    decreases s,
{
    if s.len() == 0 {
        t
    } else {
        merge_step(merge_entries(t, s.drop_last()), s.last())
    }
}

/// What one merge step does: the merged key carries the stepped value,
/// every other key is untouched, well-formedness is preserved, and the
/// length never shrinks.
proof fn lemma_merge_step_props(t: Seq<(Seq<char>, SettingView)>, e: (Seq<char>, SettingView))
    requires
        entries_wf(t),
        view_wf(e.1),
    ensures
        entries_wf(merge_step(t, e)),
        lookup(merge_step(t, e), e.0) == Some(
            match e.1 {
                SettingView::Mapping(child) => SettingView::Mapping(
                    match lookup(t, e.0) {
                        Some(SettingView::Mapping(existing)) => merge_entries(existing, child),
                        _ => child,
                    },
                ),
                _ => e.1,
            },
        ),
        forall|k: Seq<char>| k != e.0 ==> #[trigger] lookup(merge_step(t, e), k) == lookup(t, k),
    decreases e,
{
    lemma_entries_wf_index(t);
    let m = merge_step(t, e);
    let ghost newv: SettingView = match e.1 {
        SettingView::Mapping(child) => SettingView::Mapping(
            match lookup(t, e.0) {
                Some(SettingView::Mapping(existing)) => merge_entries(existing, child),
                _ => child,
            },
        ),
        _ => e.1,
    };
    if e.1 is Mapping {
        let child = e.1->Mapping_0;
        if has_entry(t, e.0) {
            let i = entry_index(t, e.0);
            if t[i].1 is Mapping {
                lemma_merge_entries_props(t[i].1->Mapping_0, child);
            }
        }
    }
    assert(view_wf(newv));
    if has_entry(t, e.0) {
        let i = entry_index(t, e.0);
        assert(0 <= i < t.len() && t[i].0 == e.0);
        assert(m == t.update(i, (e.0, newv)));
        assert(m.len() == t.len());
        assert(forall|j: int| 0 <= j < m.len() && j != i ==> #[trigger] m[j] == t[j]);
        assert(m[i] == (e.0, newv));
        assert forall|p: int, q: int| 0 <= p < q < m.len() implies (#[trigger] m[p]).0 != (
        #[trigger] m[q]).0 by {
            assert(m[p].0 == t[p].0 && m[q].0 == t[q].0);
        }
        assert(forall|j: int| 0 <= j < m.len() ==> view_wf((#[trigger] m[j]).1));
        lemma_entries_wf_build(m);
        assert(m[i].0 == e.0);
        assert(has_entry(m, e.0));
        let i2 = entry_index(m, e.0);
        assert(0 <= i2 < m.len() && m[i2].0 == e.0);
        assert(i2 == i);
        assert(lookup(m, e.0) == Some(newv));
        assert forall|k: Seq<char>| k != e.0 implies #[trigger] lookup(m, k) == lookup(t, k) by {
            if has_entry(m, k) {
                let j = choose|j: int| 0 <= j < m.len() && (#[trigger] m[j]).0 == k;
                assert(t[j].0 == k);
                assert(has_entry(t, k));
            }
            if has_entry(t, k) {
                let j = choose|j: int| 0 <= j < t.len() && (#[trigger] t[j]).0 == k;
                assert(m[j].0 == k);
                assert(has_entry(m, k));
                let j1 = entry_index(t, k);
                let j2 = entry_index(m, k);
                assert(0 <= j1 < t.len() && t[j1].0 == k);
                assert(0 <= j2 < m.len() && m[j2].0 == k);
                assert(j1 != i && j2 != i);
                assert(j1 == j2);
            }
        }
    } else {
        assert(forall|j: int| 0 <= j < t.len() ==> (#[trigger] t[j]).0 != e.0);
        assert(m == t.push((e.0, newv)));
        assert(forall|j: int| 0 <= j < t.len() ==> #[trigger] m[j] == t[j]);
        assert(m[m.len() - 1] == (e.0, newv));
        assert forall|p: int, q: int| 0 <= p < q < m.len() implies (#[trigger] m[p]).0 != (
        #[trigger] m[q]).0 by {
            if q < m.len() - 1 {
                assert(m[p].0 == t[p].0 && m[q].0 == t[q].0);
            } else {
                assert(m[p].0 == t[p].0);
            }
        }
        assert(forall|j: int| 0 <= j < m.len() ==> view_wf((#[trigger] m[j]).1));
        lemma_entries_wf_build(m);
        assert(has_entry(m, e.0));
        let i2 = entry_index(m, e.0);
        assert(0 <= i2 < m.len() && m[i2].0 == e.0);
        assert(i2 == m.len() - 1);
        assert(lookup(m, e.0) == Some(newv));
        assert forall|k: Seq<char>| k != e.0 implies #[trigger] lookup(m, k) == lookup(t, k) by {
            if has_entry(m, k) {
                let j = choose|j: int| 0 <= j < m.len() && (#[trigger] m[j]).0 == k;
                assert(j < t.len());
                assert(t[j].0 == k);
            }
            if has_entry(t, k) {
                let j = choose|j: int| 0 <= j < t.len() && (#[trigger] t[j]).0 == k;
                assert(m[j].0 == k);
                let j1 = entry_index(t, k);
                let j2 = entry_index(m, k);
                assert(0 <= j1 < t.len() && t[j1].0 == k);
                assert(0 <= j2 < m.len() && m[j2].0 == k);
                assert(j2 < m.len() - 1);
                assert(j1 == j2);
            }
        }
    }
}

/// Merging well-formed entries yields well-formed entries.
pub proof fn lemma_merge_entries_props(
    t: Seq<(Seq<char>, SettingView)>,
    s: Seq<(Seq<char>, SettingView)>,
)
    requires
        entries_wf(t),
        entries_wf(s),
    ensures
        entries_wf(merge_entries(t, s)),
    decreases s,
{
    if s.len() > 0 {
        lemma_merge_entries_props(t, s.drop_last());
        lemma_merge_step_props(merge_entries(t, s.drop_last()), s.last());
    }
}

/// Pairwise distinct keys and well-formed values make well-formed
/// entries.
proof fn lemma_entries_wf_build(s: Seq<(Seq<char>, SettingView)>)
    requires
        forall|p: int, q: int| 0 <= p < q < s.len() ==> (#[trigger] s[p]).0 != (#[trigger] s[q]).0,
        forall|i: int| 0 <= i < s.len() ==> view_wf((#[trigger] s[i]).1),
    ensures
        entries_wf(s),
    decreases s,
{
    if s.len() > 0 {
        assert(forall|i: int| 0 <= i < s.len() - 1 ==> #[trigger] s.drop_last()[i] == s[i]);
        lemma_entries_wf_build(s.drop_last());
        assert(view_wf(s.last().1)) by {
            assert(s.last() == s[s.len() - 1]);
        }
        assert forall|j: int| 0 <= j < s.len() - 1 implies (#[trigger] s[j]).0 != s.last().0 by {
            assert(s.last() == s[s.len() - 1]);
        }
    }
}

/// The view of an updated entry list is the updated view.
proof fn lemma_sm_view_update(s: Seq<(String, SettingValue)>, j: int, p: (String, SettingValue))
    requires
        0 <= j < s.len(),
    ensures
        sm_view(s.update(j, p)) == sm_view(s).update(j, (p.0@, sv_view(p.1))),
    decreases s,
{
    lemma_sm_view_index(s);
    lemma_sm_view_index(s.update(j, p));
    assert forall|i: int| 0 <= i < s.len() implies #[trigger] sm_view(s.update(j, p))[i] == sm_view(
        s,
    ).update(j, (p.0@, sv_view(p.1)))[i] by {
        if i == j {
            assert(s.update(j, p)[i] == p);
        } else {
            assert(s.update(j, p)[i] == s[i]);
        }
    }
    assert(sm_view(s.update(j, p)) =~= sm_view(s).update(j, (p.0@, sv_view(p.1))));
}

/// Looking up a key other than the last entry's sees the earlier
/// entries.
proof fn lemma_lookup_drop_last(s: Seq<(Seq<char>, SettingView)>, k: Seq<char>)
    requires
        entries_wf(s),
        s.len() > 0,
        k != s.last().0,
    ensures
        lookup(s, k) == lookup(s.drop_last(), k),
{
    lemma_entries_wf_index(s);
    let d = s.drop_last();
    assert(forall|i: int| 0 <= i < d.len() ==> #[trigger] d[i] == s[i]);
    if has_entry(s, k) {
        let i = entry_index(s, k);
        assert(0 <= i < s.len() && s[i].0 == k);
        assert(i < s.len() - 1);
        assert(d[i].0 == k);
        assert(has_entry(d, k));
        let i2 = entry_index(d, k);
        assert(0 <= i2 < d.len() && d[i2].0 == k);
        assert(s[i2].0 == k);
        assert(i2 == i);
    }
    if has_entry(d, k) {
        let i = choose|i: int| 0 <= i < d.len() && (#[trigger] d[i]).0 == k;
        assert(s[i].0 == k);
        assert(has_entry(s, k));
    }
}

/// What the deep merge holds at each key: a key only the source has, or
/// whose source value is a scalar, carries the source value; a key where
/// both sides hold mappings carries their recursive merge; a key only
/// the target has keeps the target's value. This is the guarantee of
/// profile resolution: a descendant's settings always win, nested
/// mappings merge rather than replace, and ancestor keys not overridden
/// survive.
pub proof fn lemma_merge_lookup(
    t: Seq<(Seq<char>, SettingView)>,
    s: Seq<(Seq<char>, SettingView)>,
    k: Seq<char>,
)
    requires
        entries_wf(t),
        entries_wf(s),
    ensures
        match lookup(s, k) {
            None => lookup(merge_entries(t, s), k) == lookup(t, k),
            Some(sv) => match sv {
                SettingView::Mapping(c) => lookup(merge_entries(t, s), k) == Some(
                    SettingView::Mapping(
                        match lookup(t, k) {
                            Some(SettingView::Mapping(existing)) => merge_entries(existing, c),
                            _ => c,
                        },
                    ),
                ),
                _ => lookup(merge_entries(t, s), k) == Some(sv),
            },
        },
    decreases s.len(),
{
    if s.len() == 0 {
        assert(!has_entry(s, k));
        assert(lookup(s, k) is None);
    } else {
        let m1 = merge_entries(t, s.drop_last());
        let e = s.last();
        lemma_merge_entries_props(t, s.drop_last());
        lemma_merge_step_props(m1, e);
        lemma_merge_lookup(t, s.drop_last(), k);
        lemma_entries_wf_index(s);
        if k == e.0 {
            assert(s[s.len() - 1].0 == k);
            assert(has_entry(s, k));
            let i = entry_index(s, k);
            assert(0 <= i < s.len() && s[i].0 == k);
            assert(i == s.len() - 1);
            assert(lookup(s, k) == Some(e.1));
            assert(!has_entry(s.drop_last(), k)) by {
                if has_entry(s.drop_last(), k) {
                    let j = choose|j: int|
                        0 <= j < s.drop_last().len() && (#[trigger] s.drop_last()[j]).0 == k;
                    assert(s[j].0 == k);
                }
            }
            assert(lookup(m1, k) == lookup(t, k));
            assert(lookup(merge_step(m1, e), k) == Some(
                match e.1 {
                    SettingView::Mapping(child) => SettingView::Mapping(
                        match lookup(m1, k) {
                            Some(SettingView::Mapping(existing)) => merge_entries(existing, child),
                            _ => child,
                        },
                    ),
                    _ => e.1,
                },
            ));
        } else {
            lemma_lookup_drop_last(s, k);
            assert(lookup(merge_step(m1, e), k) == lookup(m1, k));
        }
    }
}

/// Setting a key: overwrite in place when present, append when new.
pub open spec fn set_key(
    s: Seq<(Seq<char>, SettingView)>,
    k: Seq<char>,
    v: SettingView,
) -> Seq<(Seq<char>, SettingView)> {
    if has_entry(s, k) {
        s.update(entry_index(s, k), (k, v))
    } else {
        s.push((k, v))
    }
}

/// Setting a value along a dotted path: the last segment is set in the
/// innermost mapping; missing intermediate mappings are created; a
/// segment already held by something other than a mapping is a
/// conflict, and nothing is changed.
pub open spec fn set_path(
    s: Seq<(Seq<char>, SettingView)>,
    path: Seq<Seq<char>>,
    v: SettingView,
) -> Option<Seq<(Seq<char>, SettingView)>>
    decreases path.len(),
{
    if path.len() == 0 {
        Some(s)
    } else if path.len() == 1 {
        Some(set_key(s, path[0], v))
    } else {
        match lookup(s, path[0]) {
            Some(SettingView::Mapping(inner)) => match set_path(inner, path.drop_first(), v) {
                Some(m2) => Some(set_key(s, path[0], SettingView::Mapping(m2))),
                None => None,
            },
            Some(_) => None,
            None => match set_path(
                Seq::<(Seq<char>, SettingView)>::empty(),
                path.drop_first(),
                v,
            ) {
                Some(m2) => Some(set_key(s, path[0], SettingView::Mapping(m2))),
                None => None,
            },
        }
    }
}

/// The segments of a key between its dots, scanning from `i`.
pub open spec fn split_dots_from(s: Seq<char>, i: int) -> Seq<Seq<char>>
    decreases s.len() - i,
    via split_dots_from_decreases
{
    if i < 0 || i > s.len() {
        Seq::empty()
    } else {
        let d = find_from(s, '.', i);
        if d == s.len() {
            seq![s.subrange(i, s.len() as int)]
        } else {
            seq![s.subrange(i, d)] + split_dots_from(s, d + 1)
        }
    }
}

#[via_fn]
proof fn split_dots_from_decreases(s: Seq<char>, i: int) {
    if 0 <= i <= s.len() {
        crate::strutil::lemma_find_from(s, '.', i);
    }
}

/// The segments of a key between its dots.
pub open spec fn split_dots(s: Seq<char>) -> Seq<Seq<char>> {
    split_dots_from(s, 0)
}

/// Splits a key at its dots.
pub fn split_key(key: &str) -> (r: Vec<String>)
    ensures
        r@.map_values(|p: String| p@) == split_dots(key@),
        r@.len() >= 1,
{
    let v = str_to_chars(key);
    let n: usize = v.len();
    let mut r: Vec<String> = Vec::new();
    let mut start: usize = 0;
    loop
        invariant
            n == key@.len(),
            v@ == key@,
            start <= n,
            split_dots(key@) == r@.map_values(|p: String| p@) + split_dots_from(
                key@,
                start as int,
            ),
        decreases n - start,
    {
        let d = crate::strutil::scan_for_char(&v, '.', start);
        let piece = String::from_str(key.substring_char(start, d));
        let ghost prev = r@;
        r.push(piece);
        proof {
            assert(r@.map_values(|p: String| p@) =~= prev.map_values(|p: String| p@) + seq![
                key@.subrange(start as int, d as int),
            ]);
        }
        if d == n {
            proof {
                assert(split_dots_from(key@, start as int) == seq![
                    key@.subrange(start as int, n as int),
                ]);
                assert(split_dots(key@) =~= r@.map_values(|p: String| p@));
            }
            return r;
        }
        proof {
            assert(split_dots_from(key@, start as int) == seq![
                key@.subrange(start as int, d as int),
            ] + split_dots_from(key@, d + 1));
        }
        start = d + 1;
    }
}

impl SettingsMap {
    /// Sets a key to a value: overwrites in place when the key is
    /// present, appends when it is new.
    pub fn set_entry(&mut self, key: &str, value: SettingValue)
        requires
            old(self).wf(),
            value.wf(),
        ensures
            final(self).wf(),
            final(self)@ == set_key(old(self)@, key@, value@),
    {
        let pos = self.position_of(key);
        proof {
            lemma_sm_view_index(self.entries@);
            lemma_entries_wf_index(self@);
        }
        match pos {
            Some(j) => {
                let ghost olds = self.entries@;
                self.entries.set(j, (String::from_str(key), value));
                proof {
                    lemma_sm_view_update(olds, j as int, self.entries@[j as int]);
                    assert(self@ == sm_view(olds).update(
                        j as int,
                        (key@, sv_view(self.entries@[j as int].1)),
                    ));
                    assert(self@ == set_key(sm_view(olds), key@, sv_view(
                        self.entries@[j as int].1,
                    )));
                    assert forall|p: int, q: int| 0 <= p < q < self@.len() implies (
                    #[trigger] self@[p]).0 != (#[trigger] self@[q]).0 by {
                        assert(self@[p].0 == sm_view(olds)[p].0 && self@[q].0 == sm_view(
                            olds,
                        )[q].0);
                    }
                    assert(forall|i: int| 0 <= i < self@.len() ==> view_wf((#[trigger] self@[i]).1));
                    lemma_entries_wf_build(self@);
                }
            },
            None => {
                let ghost olds = self.entries@;
                self.entries.push((String::from_str(key), value));
                proof {
                    assert(self.entries@.drop_last() =~= olds);
                    assert(sm_view(self.entries@) == sm_view(olds).push(
                        (
                            self.entries@.last().0@,
                            sv_view(self.entries@.last().1),
                        ),
                    ));
                    assert(self@ == set_key(sm_view(olds), key@, value@));
                    let m = self@;
                    assert forall|p: int, q: int| 0 <= p < q < m.len() implies (#[trigger] m[p]).0
                        != (#[trigger] m[q]).0 by {
                        if q < m.len() - 1 {
                            assert(m[p].0 == sm_view(olds)[p].0 && m[q].0 == sm_view(olds)[q].0);
                        } else {
                            assert(m[p].0 == sm_view(olds)[p].0);
                            assert(m[q].0 == key@);
                        }
                    }
                    assert forall|i: int| 0 <= i < m.len() implies view_wf((#[trigger] m[i]).1) by {
                        if i < m.len() - 1 {
                            assert(m[i].1 == sm_view(olds)[i].1);
                        }
                    }
                    lemma_entries_wf_build(m);
                }
            },
        }
    }

    /// Sets a value at a dotted path, creating intermediate mappings as
    /// needed. Fails, changing nothing, when a path segment is already
    /// held by something other than a mapping.
    pub fn set_nested_value(&mut self, key: &str, value: SettingValue) -> (r: Result<
        (),
        CoreError,
    >)
        requires
            old(self).wf(),
            value.wf(),
        ensures
            final(self).wf(),
            match set_path(old(self)@, split_dots(key@), value@) {
                Some(m) => r is Ok && final(self)@ == m,
                None => r is Err && r.unwrap_err() == CoreError::ParseError && final(self)@ == old(
                    self,
                )@,
            },
    {
        let parts = split_key(key);
        proof {
            assert(parts@.map_values(|p: String| p@).skip(0) =~= split_dots(key@));
        }
        set_nested_parts(self, &parts, 0, value)
    }
}

/// Sets a value at the path segments from `idx` on.
fn set_nested_parts(
    target: &mut SettingsMap,
    parts: &Vec<String>,
    idx: usize,
    value: SettingValue,
) -> (r: Result<(), CoreError>)
    requires
        old(target).wf(),
        value.wf(),
        idx < parts@.len(),
    ensures
        final(target).wf(),
        match set_path(
            old(target)@,
            parts@.map_values(|p: String| p@).skip(idx as int),
            value@,
        ) {
            Some(m) => r is Ok && final(target)@ == m,
            None => r is Err && r.unwrap_err() == CoreError::ParseError && final(target)@ == old(
                target,
            )@,
        },
    decreases parts@.len() - idx,
{
    let ghost path = parts@.map_values(|p: String| p@).skip(idx as int);
    proof {
        assert(path.len() == parts@.len() - idx);
        assert(path[0] == parts@[idx as int]@);
    }
    if idx == parts.len() - 1 {
        target.set_entry(parts[idx].as_str(), value);
        proof {
            assert(set_path(old(target)@, path, value@) == Some(
                set_key(old(target)@, path[0], value@),
            ));
        }
        Ok(())
    } else {
        proof {
            assert(path.drop_first() =~= parts@.map_values(|p: String| p@).skip(idx as int + 1));
        }
        let pos = target.position_of(parts[idx].as_str());
        proof {
            lemma_sm_view_index(target.entries@);
            lemma_entries_wf_index(target@);
        }
        match pos {
            Some(j) => {
                let inner: Option<SettingsMap> = match &target.entries[j].1 {
                    SettingValue::Mapping(m) => Some(m.duplicate()),
                    _ => None,
                };
                match inner {
                    Some(mut m) => {
                        proof {
                            assert(view_wf(target@[j as int].1));
                            assert(lookup(target@, path[0]) == Some(target@[j as int].1));
                        }
                        let res = set_nested_parts(&mut m, parts, idx + 1, value);
                        match res {
                            Ok(_) => {
                                target.set_entry(parts[idx].as_str(), SettingValue::Mapping(m));
                                Ok(())
                            },
                            Err(e) => Err(e),
                        }
                    },
                    None => {
                        proof {
                            assert(lookup(target@, path[0]) == Some(target@[j as int].1));
                            assert(!(target@[j as int].1 is Mapping));
                        }
                        Err(CoreError::ParseError)
                    },
                }
            },
            None => {
                proof {
                    assert(lookup(target@, path[0]) is None);
                }
                let mut fresh = SettingsMap::new();
                let res = set_nested_parts(&mut fresh, parts, idx + 1, value);
                match res {
                    Ok(_) => {
                        target.set_entry(parts[idx].as_str(), SettingValue::Mapping(fresh));
                        Ok(())
                    },
                    Err(e) => Err(e),
                }
            },
        }
    }
}

impl SettingsMap {
    /// The position of a key among the entries.
    fn position_of(&self, key: &str) -> (r: Option<usize>)
        requires
            self.wf(),
        ensures
            match r {
                Some(i) => {
                    &&& i < self.entries@.len()
                    &&& self@[i as int].0 == key@
                    &&& has_entry(self@, key@)
                    &&& entry_index(self@, key@) == i as int
                },
                None => !has_entry(self@, key@),
            },
    {
        proof {
            lemma_sm_view_index(self.entries@);
            lemma_entries_wf_index(self@);
        }
        let n: usize = self.entries.len();
        let mut i: usize = 0;
        while i < n
            invariant
                self.wf(),
                n == self.entries@.len(),
                n == self@.len(),
                i <= n,
                forall|j: int| 0 <= j < self@.len() ==> (#[trigger] self@[j]).0 == self.entries@[j].0@,
                forall|p: int, q: int|
                    0 <= p < q < self@.len() ==> (#[trigger] self@[p]).0 != (#[trigger] self@[q]).0,
                forall|j: int| 0 <= j < i ==> (#[trigger] self@[j]).0 != key@,
            decreases n - i,
        {
            if str_eq(self.entries[i].0.as_str(), key) {
                proof {
                    assert(self@[i as int].0 == key@);
                    assert(has_entry(self@, key@));
                    let w = entry_index(self@, key@);
                    assert(0 <= w < self@.len() && self@[w].0 == key@);
                    assert(w == i as int);
                }
                return Some(i);
            }
            i = i + 1;
        }
        None
    }

    /// The value at a key, if the mapping has it.
    pub fn get(&self, key: &str) -> (r: Option<&SettingValue>)
        requires
            self.wf(),
        ensures
            match r {
                Some(v) => lookup(self@, key@) == Some(sv_view(*v)),
                None => lookup(self@, key@) is None,
            },
    {
        let pos = self.position_of(key);
        proof {
            lemma_sm_view_index(self.entries@);
        }
        match pos {
            Some(i) => Some(&self.entries[i].1),
            None => None,
        }
    }

    /// Merges the entries of `source` into this mapping: the deep merge
    /// where `source` values overwrite, nested mappings merge
    /// recursively, and keys only this mapping has survive.
    pub fn merge_from(&mut self, source: &SettingsMap)
        requires
            old(self).wf(),
            source.wf(),
        ensures
            final(self).wf(),
            final(self)@ == merge_entries(old(self)@, source@),
        decreases source,
    {
        proof {
            lemma_sm_view_index(source.entries@);
            lemma_entries_wf_index(source@);
        }
        let n: usize = source.entries.len();
        let mut i: usize = 0;
        proof {
            assert(sm_view(source.entries@.take(0)) =~= Seq::<(Seq<char>, SettingView)>::empty());
        }
        while i < n
            invariant
                old(self).wf(),
                source.wf(),
                n == source.entries@.len(),
                i <= n,
                self.wf(),
                self@ == merge_entries(old(self)@, sm_view(source.entries@.take(i as int))),
            decreases n - i,
        {
            let ghost pre = self@;
            let ghost e: (Seq<char>, SettingView) = source@[i as int];
            proof {
                lemma_sm_view_index(source.entries@);
                lemma_entries_wf_index(source@);
                assert(e == (source.entries@[i as int].0@, sv_view(source.entries@[i as int].1)));
                assert(view_wf(e.1));
                lemma_entries_wf_index(pre);
            }
            let key = source.entries[i].0.clone();
            let pos = self.position_of(key.as_str());
            let is_child_map = matches!(&source.entries[i].1, SettingValue::Mapping(_));
            if is_child_map {
                let child_copy = match &source.entries[i].1 {
                    SettingValue::Mapping(child) => child.duplicate(),
                    _ => SettingsMap::new(),
                };
                match pos {
                    Some(j) => {
                        proof {
                            lemma_sm_view_index(self.entries@);
                            lemma_entries_wf_index(pre);
                            assert(view_wf(pre[j as int].1));
                        }
                        let existing_map: Option<SettingsMap> = match &self.entries[j].1 {
                            SettingValue::Mapping(m) => Some(m.duplicate()),
                            _ => None,
                        };
                        match existing_map {
                            Some(mut ex) => {
                                proof {
                                    lemma_entries_wf_index(pre);
                                    assert(view_wf(pre[j as int].1));
                                    lemma_sm_view_index(self.entries@);
                                }
                                let src_child = match &source.entries[i].1 {
                                    SettingValue::Mapping(child) => child,
                                    _ => &child_copy,
                                };
                                ex.merge_from(src_child);
                                let ghost olds = self.entries@;
                                self.entries.set(j, (key, SettingValue::Mapping(ex)));
                                proof {
                                    let existing = pre[j as int].1->Mapping_0;
                                    let child_view = e.1->Mapping_0;
                                    assert(entry_index(pre, e.0) == j as int);
                                    assert(pre[j as int].1 is Mapping);
                                    assert(merge_step(pre, e) == pre.update(
                                        j as int,
                                        (e.0, SettingView::Mapping(merge_entries(existing, child_view))),
                                    ));
                                    lemma_sm_view_update(
                                        olds,
                                        j as int,
                                        self.entries@[j as int],
                                    );
                                    assert(self.entries@[j as int].0@ == e.0);
                                    assert(sv_view(self.entries@[j as int].1)
                                        == SettingView::Mapping(
                                        merge_entries(existing, child_view),
                                    ));
                                    assert(self@ == merge_step(pre, e));
                                }
                            },
                            None => {
                                let ghost olds = self.entries@;
                                self.entries.set(j, (key, SettingValue::Mapping(child_copy)));
                                proof {
                                    let child_view = e.1->Mapping_0;
                                    assert(entry_index(pre, e.0) == j as int);
                                    assert(!(pre[j as int].1 is Mapping));
                                    assert(merge_step(pre, e) == pre.update(
                                        j as int,
                                        (e.0, SettingView::Mapping(child_view)),
                                    ));
                                    lemma_sm_view_update(
                                        olds,
                                        j as int,
                                        self.entries@[j as int],
                                    );
                                    assert(self.entries@[j as int].0@ == e.0);
                                    assert(sv_view(self.entries@[j as int].1)
                                        == SettingView::Mapping(child_view));
                                    assert(self@ == merge_step(pre, e));
                                }
                            },
                        }
                    },
                    None => {
                        let ghost olds = self.entries@;
                        self.entries.push((key, SettingValue::Mapping(child_copy)));
                        proof {
                            assert(self.entries@.drop_last() =~= olds);
                            assert(sm_view(self.entries@) == sm_view(olds).push(
                                (
                                    self.entries@.last().0@,
                                    sv_view(self.entries@.last().1),
                                ),
                            ));
                            assert(self.entries@.last().0@ == e.0);
                            assert(sv_view(self.entries@.last().1) == SettingView::Mapping(
                                e.1->Mapping_0,
                            ));
                            assert(!has_entry(pre, e.0));
                            assert(merge_step(pre, e) == pre.push(
                                (e.0, SettingView::Mapping(e.1->Mapping_0)),
                            ));
                            assert(self@ == merge_step(pre, e));
                        }
                    },
                }
            } else {
                let value = source.entries[i].1.duplicate();
                match pos {
                    Some(j) => {
                        proof {
                            lemma_sm_view_index(self.entries@);
                        }
                        let ghost olds = self.entries@;
                        self.entries.set(j, (key, value));
                        proof {
                            assert(entry_index(pre, e.0) == j as int);
                            assert(merge_step(pre, e) == pre.update(j as int, e));
                            lemma_sm_view_update(olds, j as int, self.entries@[j as int]);
                            assert(self.entries@[j as int].0@ == e.0);
                            assert(sv_view(self.entries@[j as int].1) == e.1);
                            assert((e.0, e.1) == e);
                            assert(self@ == merge_step(pre, e));
                        }
                    },
                    None => {
                        let ghost olds = self.entries@;
                        self.entries.push((key, value));
                        proof {
                            assert(self.entries@.drop_last() =~= olds);
                            assert(sm_view(self.entries@) == sm_view(olds).push(
                                (
                                    self.entries@.last().0@,
                                    sv_view(self.entries@.last().1),
                                ),
                            ));
                            assert(self.entries@.last().0@ == e.0);
                            assert(sv_view(self.entries@.last().1) == e.1);
                            assert(!has_entry(pre, e.0));
                            assert(merge_step(pre, e) == pre.push(e));
                            assert((e.0, e.1) == e);
                            assert(self@ == merge_step(pre, e));
                        }
                    },
                }
            }
            i = i + 1;
            proof {
                lemma_merge_step_props(pre, e);
                assert(sm_view(source.entries@.take(i as int)).drop_last() =~= sm_view(
                    source.entries@.take(i as int - 1),
                )) by {
                    lemma_sm_view_index(source.entries@.take(i as int));
                    lemma_sm_view_index(source.entries@.take(i as int - 1));
                    assert(forall|k: int|
                        0 <= k < i - 1 ==> #[trigger] source.entries@.take(i as int)[k]
                            == source.entries@.take(i as int - 1)[k]);
                }
                assert(sm_view(source.entries@.take(i as int)).last() == e) by {
                    lemma_sm_view_index(source.entries@.take(i as int));
                    assert(source.entries@.take(i as int)[i - 1] == source.entries@[i - 1]);
                }
                assert(sm_view(source.entries@.take(i as int)).len() == i) by {
                    lemma_sm_view_index(source.entries@.take(i as int));
                }
                assert(merge_entries(old(self)@, sm_view(source.entries@.take(i as int)))
                    == merge_step(
                    merge_entries(old(self)@, sm_view(source.entries@.take(i as int - 1))),
                    e,
                ));
            }
        }
        proof {
            assert(source.entries@.take(n as int) =~= source.entries@);
        }
    }
}

} // verus!
