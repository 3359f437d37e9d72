//! Scanner for the flat key/value text format used by Steam metadata
//! files. A pair is a run of non-quote characters (the key), a closing
//! quote, at least one whitespace character, an opening quote, and a
//! possibly empty run of non-quote characters (the value). Scanning is
//! leftmost-first and resumes after each match, so the spec functions
//! below pin down exactly which pairs come out of a given document.

use vstd::prelude::*;

verus! {

use crate::strutil::is_ws;
use crate::strutil::ws_char;

/// End of the run of non-quote characters starting at `i`: the first
/// position at or after `i` holding a quote, or the end of `s`.
pub open spec fn non_quote_end(s: Seq<char>, i: int) -> int
    decreases s.len() - i,
{
    if i < 0 {
        i
    } else if i >= s.len() {
        s.len() as int
    } else if s[i] == '"' {
        i
    } else {
        non_quote_end(s, i + 1)
    }
}

/// End of the whitespace run starting at `i`.
pub open spec fn ws_end(s: Seq<char>, i: int) -> int
    decreases s.len() - i,
{
    if i < 0 {
        i
    } else if i >= s.len() {
        s.len() as int
    } else if !is_ws(s[i]) {
        i
    } else {
        ws_end(s, i + 1)
    }
}

/// A key/value pair: key characters, value characters, and the position
/// just after the match.
pub struct KvMatch {
    pub key: Seq<char>,
    pub value: Seq<char>,
    pub end: int,
}

/// The key/value pair matched at position `i`, if any. The key is the
/// maximal non-empty run of non-quote characters from `i`; it must be
/// closed by a quote, followed by at least one whitespace character and
/// an opening quote; the value is the maximal (possibly empty) run of
/// non-quote characters after that.
pub open spec fn kv_match_at(s: Seq<char>, i: int) -> Option<KvMatch> {
    let q = non_quote_end(s, i);
    if q == i || q >= s.len() {
        None
    } else {
        let w = ws_end(s, q + 1);
        if w == q + 1 || w >= s.len() || s[w] != '"' {
            None
        } else {
            let v = non_quote_end(s, w + 1);
            Some(KvMatch { key: s.subrange(i, q), value: s.subrange(w + 1, v), end: v })
        }
    }
}

/// A successful match always lies within bounds and makes progress.
pub proof fn lemma_kv_match_bounds(s: Seq<char>, i: int)
    requires
        0 <= i < s.len(),
        kv_match_at(s, i) is Some,
    ensures
        i < kv_match_at(s, i).unwrap().end <= s.len(),
{
    lemma_non_quote_end_bounds(s, i);
    let q = non_quote_end(s, i);
    lemma_ws_end_bounds(s, q + 1);
    let w = ws_end(s, q + 1);
    lemma_non_quote_end_bounds(s, w + 1);
}

/// All key/value pairs found scanning `s` from position `i`.
pub open spec fn kv_pairs_from(s: Seq<char>, i: int) -> Seq<(Seq<char>, Seq<char>)>
    decreases s.len() - i,
    via kv_pairs_from_decreases
{
    if i < 0 || i >= s.len() {
        Seq::empty()
    } else {
        match kv_match_at(s, i) {
            Some(m) => seq![(m.key, m.value)] + kv_pairs_from(s, m.end),
            None => kv_pairs_from(s, i + 1),
        }
    }
}

#[via_fn]
proof fn kv_pairs_from_decreases(s: Seq<char>, i: int) {
    if 0 <= i < s.len() && kv_match_at(s, i) is Some {
        lemma_kv_match_bounds(s, i);
    }
}

/// The key/value pairs of the whole document.
pub open spec fn kv_pairs(s: Seq<char>) -> Seq<(Seq<char>, Seq<char>)> {
    kv_pairs_from(s, 0)
}

/// `non_quote_end` stays within bounds and moves forward.
proof fn lemma_non_quote_end_bounds(s: Seq<char>, i: int)
    requires
        0 <= i <= s.len(),
    ensures
        i <= non_quote_end(s, i) <= s.len(),
        non_quote_end(s, i) < s.len() ==> s[non_quote_end(s, i)] == '"',
        forall|k: int| i <= k < non_quote_end(s, i) ==> s[k] != '"',
    decreases s.len() - i,
{
    if i < s.len() && s[i] != '"' {
        lemma_non_quote_end_bounds(s, i + 1);
    }
}

/// `ws_end` stays within bounds and moves forward.
proof fn lemma_ws_end_bounds(s: Seq<char>, i: int)
    requires
        0 <= i <= s.len(),
    ensures
        i <= ws_end(s, i) <= s.len(),
        ws_end(s, i) < s.len() ==> !is_ws(s[ws_end(s, i)]),
        forall|k: int| i <= k < ws_end(s, i) ==> is_ws(s[k]),
    decreases s.len() - i,
{
    if i < s.len() && is_ws(s[i]) {
        lemma_ws_end_bounds(s, i + 1);
    }
}

/// Scans forward from `i` to the end of the non-quote run.
fn scan_non_quote(s: &Vec<char>, i: usize) -> (r: usize)
    requires
        i <= s@.len(),
    ensures
        r == non_quote_end(s@, i as int),
        i <= r <= s@.len(),
{
    let n: usize = s.len();
    let mut j: usize = i;
    while j < n
        invariant
            i <= j <= n,
            n == s@.len(),
            non_quote_end(s@, i as int) == non_quote_end(s@, j as int),
            forall|k: int| i <= k < j ==> s@[k] != '"',
        decreases n - j,
    {
        if s[j] == '"' {
            proof {
                lemma_non_quote_end_bounds(s@, j as int);
            }
            return j;
        }
        j = j + 1;
    }
    proof {
        lemma_non_quote_end_bounds(s@, j as int);
    }
    j
}

/// Scans forward from `i` to the end of the whitespace run.
fn scan_ws(s: &Vec<char>, i: usize) -> (r: usize)
    requires
        i <= s@.len(),
    ensures
        r == ws_end(s@, i as int),
        i <= r <= s@.len(),
{
    let n: usize = s.len();
    let mut j: usize = i;
    while j < n
        invariant
            i <= j <= n,
            n == s@.len(),
            ws_end(s@, i as int) == ws_end(s@, j as int),
        decreases n - j,
    {
        if !ws_char(s[j]) {
            proof {
                lemma_ws_end_bounds(s@, j as int);
            }
            return j;
        }
        j = j + 1;
    }
    proof {
        lemma_ws_end_bounds(s@, j as int);
    }
    j
}

/// A library-path match: the captured path characters and the position
/// just after the match.
pub struct PathMatch {
    pub path: Seq<char>,
    pub end: int,
}

/// The literal `path"` occurs at position `i`.
pub open spec fn path_lit_at(s: Seq<char>, i: int) -> bool {
    0 <= i && i + 5 <= s.len() && s[i] == 'p' && s[i + 1] == 'a' && s[i + 2] == 't' && s[i + 3]
        == 'h' && s[i + 4] == '"'
}

/// The library path captured at position `i`, if any: the literal
/// `path"`, at least one whitespace character, an opening quote, and a
/// non-empty run of non-quote characters.
pub open spec fn path_match_at(s: Seq<char>, i: int) -> Option<PathMatch> {
    if !path_lit_at(s, i) {
        None
    } else {
        let w = ws_end(s, i + 5);
        if w == i + 5 || w >= s.len() || s[w] != '"' {
            None
        } else {
            let v = non_quote_end(s, w + 1);
            if v == w + 1 {
                None
            } else {
                Some(PathMatch { path: s.subrange(w + 1, v), end: v })
            }
        }
    }
}

/// A successful path match always lies within bounds and makes progress.
pub proof fn lemma_path_match_bounds(s: Seq<char>, i: int)
    requires
        0 <= i < s.len(),
        path_match_at(s, i) is Some,
    ensures
        i < path_match_at(s, i).unwrap().end <= s.len(),
{
    lemma_ws_end_bounds(s, i + 5);
    let w = ws_end(s, i + 5);
    lemma_non_quote_end_bounds(s, w + 1);
}

/// All library paths found scanning `s` from position `i`.
pub open spec fn library_paths_from(s: Seq<char>, i: int) -> Seq<Seq<char>>
    decreases s.len() - i,
    via library_paths_from_decreases
{
    if i < 0 || i >= s.len() {
        Seq::empty()
    } else {
        match path_match_at(s, i) {
            Some(m) => seq![m.path] + library_paths_from(s, m.end),
            None => library_paths_from(s, i + 1),
        }
    }
}

#[via_fn]
proof fn library_paths_from_decreases(s: Seq<char>, i: int) {
    if 0 <= i < s.len() && path_match_at(s, i) is Some {
        lemma_path_match_bounds(s, i);
    }
}

/// The library paths captured in the whole document.
pub open spec fn library_paths(s: Seq<char>) -> Seq<Seq<char>> {
    library_paths_from(s, 0)
}

/// Extracts the library paths of a library-folders document, in scan
/// order.
pub fn parse_library_paths(content: &str) -> (r: Vec<String>)
    ensures
        r@.len() == library_paths(content@).len(),
        forall|k: int|
            0 <= k < r@.len() ==> (#[trigger] r@[k])@ == library_paths(content@)[k],
{
    let s = crate::strutil::str_to_chars(content);
    let n: usize = s.len();
    let mut r: Vec<String> = Vec::new();
    let mut i: usize = 0;
    while i < n
        invariant
            n == s@.len(),
            s@ == content@,
            i <= n,
            library_paths(content@) == r@.map_values(|p: String| p@) + library_paths_from(
                s@,
                i as int,
            ),
        decreases n - i,
    {
        let ghost old_i = i as int;
        let mut advanced = false;
        if n - i >= 5 && s[i] == 'p' && s[i + 1] == 'a' && s[i + 2] == 't' && s[i + 3] == 'h'
            && s[i + 4] == '"' {
            let w = scan_ws(&s, i + 5);
            if w > i + 5 && w < n && s[w] == '"' {
                let v = scan_non_quote(&s, w + 1);
                if v > w + 1 {
                    let path = String::from_str(content.substring_char(w + 1, v));
                    proof {
                        let m = path_match_at(s@, old_i).unwrap();
                        assert(m.path == path@);
                        assert(m.end == v as int);
                    }
                    r.push(path);
                    proof {
                        assert(r@.map_values(|p: String| p@) =~= r@.take(
                            r@.len() - 1,
                        ).map_values(|p: String| p@) + seq![path@]);
                    }
                    i = v;
                    advanced = true;
                }
            }
        }
        if !advanced {
            proof {
                assert(path_match_at(s@, old_i) is None);
                assert(library_paths_from(s@, old_i) == library_paths_from(s@, old_i + 1));
            }
            i = i + 1;
        }
    }
    proof {
        assert(library_paths_from(s@, i as int) =~= Seq::<Seq<char>>::empty());
        assert(library_paths(content@) =~= r@.map_values(|p: String| p@));
    }
    r
}

/// Extracts all key/value pairs of the document, in scan order.
pub fn parse_kv_pairs(content: &str) -> (r: Vec<(String, String)>)
    ensures
        r@.len() == kv_pairs(content@).len(),
        forall|k: int|
            0 <= k < r@.len() ==> (#[trigger] r@[k].0)@ == kv_pairs(content@)[k].0 && r@[k].1@
                == kv_pairs(content@)[k].1,
{
    let s = crate::strutil::str_to_chars(content);
    let n: usize = s.len();
    let mut r: Vec<(String, String)> = Vec::new();
    let mut i: usize = 0;
    while i < n
        invariant
            n == s@.len(),
            s@ == content@,
            i <= n,
            kv_pairs(content@) == r@.map_values(|p: (String, String)| (p.0@, p.1@)) + kv_pairs_from(
                s@,
                i as int,
            ),
        decreases n - i,
    {
        let ghost old_i = i as int;
        let q = scan_non_quote(&s, i);
        let mut advanced = false;
        if q > i && q < n {
            let w = scan_ws(&s, q + 1);
            if w > q + 1 && w < n && s[w] == '"' {
                let v = scan_non_quote(&s, w + 1);
                let key = String::from_str(content.substring_char(i, q));
                let value = String::from_str(content.substring_char(w + 1, v));
                proof {
                    let m = kv_match_at(s@, old_i).unwrap();
                    assert(m.key == key@);
                    assert(m.value == value@);
                    assert(m.end == v as int);
                }
                r.push((key, value));
                proof {
                    assert(r@.map_values(|p: (String, String)| (p.0@, p.1@))
                        =~= r@.take(r@.len() - 1).map_values(|p: (String, String)| (p.0@, p.1@))
                        + seq![(key@, value@)]);
                }
                i = v;
                advanced = true;
            }
        }
        if !advanced {
            proof {
                assert(kv_match_at(s@, old_i) is None);
                assert(kv_pairs_from(s@, old_i) == kv_pairs_from(s@, old_i + 1));
            }
            i = i + 1;
        }
    }
    proof {
        assert(kv_pairs_from(s@, i as int) =~= Seq::<(Seq<char>, Seq<char>)>::empty());
        assert(kv_pairs(content@) =~= r@.map_values(|p: (String, String)| (p.0@, p.1@)));
    }
    r
}

} // verus!
