//! The executable resolver: given the files found under an install
//! directory, pick the one most likely to be the game's main executable.
//! Only Windows executables count; names typical of installers, updaters
//! and helper processes are discarded; the rest are scored by how well
//! the name matches the install directory, how shallow the file sits,
//! and how large it is. The walk of the directory itself is done by the
//! surrounding I/O code, which hands in each file's relative path and
//! size.

use vstd::prelude::*;

use crate::strutil::contains_seq;
use crate::strutil::ends_with_seq;
use crate::strutil::lower_of;
use crate::strutil::lowercase;
use crate::strutil::str_contains;
use crate::strutil::str_ends_with;
use crate::strutil::str_to_chars;

verus! {

/// One file found under an install directory: its path relative to that
/// directory (separated by forward slashes) and its size in bytes, when
/// the size could be read.
#[derive(Debug, Clone)]
pub struct ExeCandidate {
    pub rel_path: String,
    pub size: Option<u64>,
}

/// Index of the last path separator, or -1 when there is none.
pub open spec fn last_slash(s: Seq<char>) -> int
    decreases s.len(),
{
    if s.len() == 0 {
        -1
    } else if s.last() == '/' {
        s.len() - 1
    } else {
        last_slash(s.drop_last())
    }
}

/// The file name: everything after the last path separator.
pub open spec fn file_name(s: Seq<char>) -> Seq<char> {
    s.skip(last_slash(s) + 1)
}

/// The directory part: everything before the last path separator.
pub open spec fn parent_component(s: Seq<char>) -> Seq<char> {
    s.take(if last_slash(s) >= 0 {
        last_slash(s)
    } else {
        0
    })
}

/// How many path separators the path holds.
pub open spec fn slash_count(s: Seq<char>) -> nat
    decreases s.len(),
{
    if s.len() == 0 {
        0
    } else {
        slash_count(s.drop_last()) + if s.last() == '/' {
            1nat
        } else {
            0nat
        }
    }
}

/// The depth of a relative path: one for a file at the top, one more per
/// directory.
pub open spec fn depth_of(s: Seq<char>) -> nat {
    slash_count(s) + 1
}

/// `last_slash` is in bounds, marks a separator, and nothing after it is
/// one.
proof fn lemma_last_slash(s: Seq<char>)
    ensures
        -1 <= last_slash(s) < s.len(),
        last_slash(s) >= 0 ==> s[last_slash(s)] == '/',
        forall|k: int| last_slash(s) < k < s.len() ==> s[k] != '/',
    decreases s.len(),
{
    if s.len() > 0 && s.last() != '/' {
        lemma_last_slash(s.drop_last());
        assert forall|k: int| last_slash(s) < k < s.len() implies s[k] != '/' by {
            if k < s.len() - 1 {
                assert(s.drop_last()[k] != '/');
                assert(s.drop_last()[k] == s[k]);
            } else {
                assert(s[k] == s.last());
            }
        }
    }
}

/// Finds the last path separator.
fn scan_last_slash(v: &Vec<char>) -> (r: Option<usize>)
    ensures
        match r {
            Some(i) => i == last_slash(v@) && i < v@.len(),
            None => last_slash(v@) == -1,
        },
{
    let mut j: usize = v.len();
    proof {
        assert(v@ =~= v@.take(v@.len() as int));
    }
    while j > 0
        invariant
            j <= v@.len(),
            last_slash(v@) == last_slash(v@.take(j as int)),
        decreases j,
    {
        proof {
            assert(v@.take(j as int).last() == v@[j - 1]);
            assert(v@.take(j as int).drop_last() =~= v@.take(j as int - 1));
        }
        if v[j - 1] == '/' {
            return Some(j - 1);
        }
        j = j - 1;
    }
    proof {
        assert(v@.take(0).len() == 0);
    }
    None
}

/// The file name of a path: everything after the last separator.
pub fn path_file_name(path: &str) -> (r: String)
    ensures
        r@ == file_name(path@),
{
    let v = str_to_chars(path);
    let n: usize = v.len();
    let start: usize = match scan_last_slash(&v) {
        Some(i) => i + 1,
        None => 0,
    };
    proof {
        lemma_last_slash(path@);
        assert(path@.skip(last_slash(path@) + 1) =~= path@.subrange(start as int, n as int));
    }
    String::from_str(path.substring_char(start, n))
}

/// The directory part of a path: everything before the last separator.
pub fn path_parent(path: &str) -> (r: String)
    ensures
        r@ == parent_component(path@),
{
    let v = str_to_chars(path);
    let end: usize = match scan_last_slash(&v) {
        Some(i) => i,
        None => 0,
    };
    proof {
        lemma_last_slash(path@);
        assert(path@.take(end as int) =~= path@.subrange(0, end as int));
    }
    String::from_str(path.substring_char(0, end))
}

/// Counts the path separators.
fn count_slashes(v: &Vec<char>) -> (r: usize)
    ensures
        r == slash_count(v@),
{
    let n: usize = v.len();
    let mut count: usize = 0;
    let mut i: usize = 0;
    while i < n
        invariant
            n == v@.len(),
            i <= n,
            count == slash_count(v@.take(i as int)),
            count <= i,
        decreases n - i,
    {
        proof {
            assert(v@.take(i as int + 1).drop_last() =~= v@.take(i as int));
            assert(v@.take(i as int + 1).last() == v@[i as int]);
        }
        if v[i] == '/' {
            count = count + 1;
        }
        i = i + 1;
    }
    proof {
        assert(v@.take(n as int) =~= v@);
    }
    count
}

/// The file name names a Windows executable: it ends in a dot and the
/// letters `exe` in either case, with a non-empty part before the dot.
pub open spec fn is_exe_name(f: Seq<char>) -> bool {
    &&& f.len() >= 5
    &&& f[f.len() - 4] == '.'
    &&& (f[f.len() - 3] == 'e' || f[f.len() - 3] == 'E')
    &&& (f[f.len() - 2] == 'x' || f[f.len() - 2] == 'X')
    &&& (f[f.len() - 1] == 'e' || f[f.len() - 1] == 'E')
}

/// The part of an executable file name before its `.exe` extension, or
/// the whole name when it is too short to have one.
pub open spec fn exe_stem(f: Seq<char>) -> Seq<char> {
    if f.len() >= 4 {
        f.take(f.len() - 4)
    } else {
        f.take(0)
    }
}

/// Whether the file name names a Windows executable.
pub fn has_exe_extension(filename: &str) -> (r: bool)
    ensures
        r == is_exe_name(filename@),
{
    let v = str_to_chars(filename);
    let n: usize = v.len();
    if n < 5 {
        return false;
    }
    v[n - 4] == '.' && (v[n - 3] == 'e' || v[n - 3] == 'E') && (v[n - 2] == 'x' || v[n - 2]
        == 'X') && (v[n - 1] == 'e' || v[n - 1] == 'E')
}

/// A lowercased file name that marks a launcher, installer, updater,
/// anti-cheat service, redistributable runtime or other helper process
/// rather than the game itself.
pub open spec fn is_skip_name(f: Seq<char>) -> bool {
    ||| contains_seq(f, "unins"@)
    ||| contains_seq(f, "uninst"@)
    ||| contains_seq(f, "setup"@)
    ||| contains_seq(f, "install"@)
    ||| contains_seq(f, "update"@)
    ||| contains_seq(f, "patch"@)
    ||| contains_seq(f, "crash"@)
    ||| contains_seq(f, "reporter"@)
    ||| contains_seq(f, "helper"@)
    ||| contains_seq(f, "service"@)
    ||| contains_seq(f, "launcher"@)
    ||| contains_seq(f, "easyanticheat"@)
    ||| contains_seq(f, "battleye"@)
    ||| contains_seq(f, "dxsetup"@)
    ||| contains_seq(f, "vcredist"@)
    ||| contains_seq(f, "dotnet"@)
    ||| contains_seq(f, "directx"@)
    ||| contains_seq(f, "physx"@)
    ||| contains_seq(f, "ue4prereq"@)
    ||| contains_seq(f, "redist"@)
    ||| contains_seq(f, "cef"@)
    ||| contains_seq(f, "subprocess"@)
    ||| contains_seq(f, "browser"@)
    ||| contains_seq(f, "webhelper"@)
    ||| contains_seq(f, "upc"@)
    ||| contains_seq(f, "uplay"@)
    ||| contains_seq(f, "origin"@)
    ||| contains_seq(f, "epic"@)
}

/// Whether a lowercased file name marks a launcher or tool rather than
/// the main game.
pub fn is_launcher_or_tool(filename: &str) -> (r: bool)
    ensures
        r == is_skip_name(filename@),
{
    str_contains(filename, "unins") || str_contains(filename, "uninst") || str_contains(
        filename,
        "setup",
    ) || str_contains(filename, "install") || str_contains(filename, "update") || str_contains(
        filename,
        "patch",
    ) || str_contains(filename, "crash") || str_contains(filename, "reporter") || str_contains(
        filename,
        "helper",
    ) || str_contains(filename, "service") || str_contains(filename, "launcher") || str_contains(
        filename,
        "easyanticheat",
    ) || str_contains(filename, "battleye") || str_contains(filename, "dxsetup") || str_contains(
        filename,
        "vcredist",
    ) || str_contains(filename, "dotnet") || str_contains(filename, "directx") || str_contains(
        filename,
        "physx",
    ) || str_contains(filename, "ue4prereq") || str_contains(filename, "redist") || str_contains(
        filename,
        "cef",
    ) || str_contains(filename, "subprocess") || str_contains(filename, "browser") || str_contains(
        filename,
        "webhelper",
    ) || str_contains(filename, "upc") || str_contains(filename, "uplay") || str_contains(
        filename,
        "origin",
    ) || str_contains(filename, "epic")
}

/// `s` with its spaces removed.
pub open spec fn spaceless(s: Seq<char>) -> Seq<char>
    decreases s.len(),
{
    if s.len() == 0 {
        s
    } else if s.last() == ' ' {
        spaceless(s.drop_last())
    } else {
        spaceless(s.drop_last()).push(s.last())
    }
}

/// Removes the spaces of a character vector.
fn strip_spaces(v: &Vec<char>) -> (r: Vec<char>)
    ensures
        r@ == spaceless(v@),
{
    let n: usize = v.len();
    let mut r: Vec<char> = Vec::new();
    let mut i: usize = 0;
    while i < n
        invariant
            n == v@.len(),
            i <= n,
            r@ == spaceless(v@.take(i as int)),
        decreases n - i,
    {
        proof {
            assert(v@.take(i as int + 1).drop_last() =~= v@.take(i as int));
            assert(v@.take(i as int + 1).last() == v@[i as int]);
        }
        if v[i] != ' ' {
            r.push(v[i]);
        }
        i = i + 1;
    }
    proof {
        assert(v@.take(n as int) =~= v@);
    }
    r
}

/// The score of a candidate under an install directory, over the
/// lowercase forms of the names involved. Higher is more likely the main
/// executable: a name shared with the install directory, a shallow
/// location, a conventional binaries directory, engine-typical shipping
/// names and the words `game` or `client` raise it; `server` without
/// `dedicated` and a very small file lower it; a very large file raises
/// it.
pub open spec fn cand_score(c: ExeCandidate, dir: Seq<char>) -> int {
    let rel = c.rel_path@;
    let fname = lower_of(file_name(rel));
    let stem = lower_of(exe_stem(file_name(rel)));
    let dirname = lower_of(file_name(dir));
    let depth = depth_of(rel);
    let parent = file_name(parent_component(rel));
    (if contains_seq(dirname, stem) || contains_seq(stem, spaceless(dirname)) {
        50int
    } else {
        0int
    }) + (if depth <= 1 {
        30int
    } else if depth == 2 && (parent == "bin"@ || parent == "Binaries"@ || parent == "x64"@) {
        25int
    } else {
        0int
    }) + (if ends_with_seq(fname, "-win64-shipping.exe"@) || ends_with_seq(fname, "_win64.exe"@) {
        20int
    } else {
        0int
    }) + (if contains_seq(fname, "game"@) || contains_seq(fname, "client"@) {
        10int
    } else {
        0int
    }) + (if contains_seq(fname, "server"@) && !contains_seq(fname, "dedicated"@) {
        -10int
    } else {
        0int
    }) + (match c.size {
        Some(sz) => if sz < 1000000 {
            -20int
        } else if sz > 50000000 {
            15int
        } else {
            0int
        },
        None => 0int,
    })
}

/// Scores a candidate by how likely it is to be the main executable.
pub fn score_executable(cand: &ExeCandidate, install_dir: &str) -> (r: i32)
    ensures
        r == cand_score(*cand, install_dir@),
{
    let fname_raw = path_file_name(cand.rel_path.as_str());
    let fname = lowercase(fname_raw.as_str());
    let fv = str_to_chars(fname_raw.as_str());
    let stem_end: usize = if fv.len() >= 4 {
        fv.len() - 4
    } else {
        0
    };
    let ghost f = file_name(cand.rel_path@);
    proof {
        if f.len() >= 4 {
            assert(exe_stem(f) =~= f.subrange(0, f.len() - 4));
        } else {
            assert(exe_stem(f) =~= f.subrange(0, 0));
            assert(f.subrange(0, 0) =~= Seq::<char>::empty());
        }
    }
    let stem_raw = fname_raw.as_str().substring_char(0, stem_end);
    let stem = lowercase(stem_raw);
    let dirname_raw = path_file_name(install_dir);
    let dirname = lowercase(dirname_raw.as_str());
    let rel_chars = str_to_chars(cand.rel_path.as_str());
    let slashes = count_slashes(&rel_chars);
    let parent_dir = path_parent(cand.rel_path.as_str());
    let parent = path_file_name(parent_dir.as_str());

    let mut score: i32 = 0;
    let dir_chars = str_to_chars(dirname.as_str());
    let stem_chars = str_to_chars(stem.as_str());
    let dir_nospace = strip_spaces(&dir_chars);
    if crate::strutil::chars_contain(&dir_chars, &stem_chars) || crate::strutil::chars_contain(
        &stem_chars,
        &dir_nospace,
    ) {
        score = score + 50;
    }
    if slashes == 0 {
        score = score + 30;
    } else if slashes == 1 && (crate::strutil::str_eq(parent.as_str(), "bin")
        || crate::strutil::str_eq(parent.as_str(), "Binaries") || crate::strutil::str_eq(
        parent.as_str(),
        "x64",
    )) {
        score = score + 25;
    }
    if str_ends_with(fname.as_str(), "-win64-shipping.exe") || str_ends_with(
        fname.as_str(),
        "_win64.exe",
    ) {
        score = score + 20;
    }
    if str_contains(fname.as_str(), "game") || str_contains(fname.as_str(), "client") {
        score = score + 10;
    }
    if str_contains(fname.as_str(), "server") && !str_contains(fname.as_str(), "dedicated") {
        score = score - 10;
    }
    match cand.size {
        Some(sz) => {
            if sz < 1000000 {
                score = score - 20;
            } else if sz > 50000000 {
                score = score + 15;
            }
        },
        None => {},
    }
    score
}

/// A candidate that may be the main executable: a Windows executable
/// whose lowercased name is not a known launcher or tool name.
pub open spec fn qualifies(c: ExeCandidate) -> bool {
    is_exe_name(file_name(c.rel_path@)) && !is_skip_name(lower_of(file_name(c.rel_path@)))
}

/// The index of the winning candidate among the first `n`: the earliest
/// qualifying candidate of maximal score.
pub open spec fn best_index(cands: Seq<ExeCandidate>, dir: Seq<char>, n: int) -> Option<int>
    decreases n,
{
    if n <= 0 {
        None
    } else {
        let prev = best_index(cands, dir, n - 1);
        if !qualifies(cands[n - 1]) {
            prev
        } else {
            match prev {
                None => Some(n - 1),
                Some(b) => if cand_score(cands[n - 1], dir) > cand_score(cands[b], dir) {
                    Some(n - 1)
                } else {
                    prev
                },
            }
        }
    }
}

/// Picks the most probable main executable among the files found under
/// an install directory, or nothing when no file qualifies. The winner
/// is the earliest qualifying candidate of maximal score; its path is
/// returned relative to the install directory.
pub fn locate_primary_executable(install_dir: &str, candidates: &Vec<ExeCandidate>) -> (r: Option<
    String,
>)
    ensures
        match r {
            Some(path) => {
                &&& best_index(candidates@, install_dir@, candidates@.len() as int) is Some
                &&& path@ == candidates@[best_index(
                    candidates@,
                    install_dir@,
                    candidates@.len() as int,
                ).unwrap()].rel_path@
            },
            None => best_index(candidates@, install_dir@, candidates@.len() as int) is None,
        },
{
    let n: usize = candidates.len();
    let mut best: Option<usize> = None;
    let mut best_score: i32 = 0;
    let mut i: usize = 0;
    while i < n
        invariant
            n == candidates@.len(),
            i <= n,
            match best {
                None => best_index(candidates@, install_dir@, i as int) is None,
                Some(b) => {
                    &&& b < i
                    &&& best_index(candidates@, install_dir@, i as int) == Some(b as int)
                    &&& best_score == cand_score(candidates@[b as int], install_dir@)
                },
            },
        decreases n - i,
    {
        let fname = path_file_name(candidates[i].rel_path.as_str());
        let fname_lower = lowercase(fname.as_str());
        if has_exe_extension(fname.as_str()) && !is_launcher_or_tool(fname_lower.as_str()) {
            let score = score_executable(&candidates[i], install_dir);
            match best {
                None => {
                    best = Some(i);
                    best_score = score;
                },
                Some(_) => {
                    if score > best_score {
                        best = Some(i);
                        best_score = score;
                    }
                },
            }
        }
        i = i + 1;
    }
    match best {
        Some(b) => Some(candidates[b].rel_path.clone()),
        None => None,
    }
}

} // verus!
