//! Verified string utilities: character extraction, substring search,
//! prefix/suffix tests and decimal rendering. Everything here is stated
//! over the `Seq<char>` views of `&str` and `String`.

use vstd::prelude::*;

verus! {

/// The characters of `s`, in order.
pub fn str_to_chars(s: &str) -> (r: Vec<char>)
    ensures
        r@ == s@,
{
    let n: usize = s.unicode_len();
    let mut r: Vec<char> = Vec::new();
    let mut i: usize = 0;
    while i < n
        invariant
            n == s@.len(),
            i <= n,
            r@ == s@.take(i as int),
        decreases n - i,
    {
        let c = s.get_char(i);
        r.push(c);
        i = i + 1;
        proof {
            assert(r@ =~= s@.take(i as int));
        }
    }
    proof {
        assert(s@.take(n as int) =~= s@);
    }
    r
}

/// True when the views of the two strings are equal.
pub fn str_eq(a: &str, b: &str) -> (r: bool)
    ensures
        r == (a@ == b@),
{
    let na: usize = a.unicode_len();
    let nb: usize = b.unicode_len();
    if na != nb {
        proof {
            assert(a@.len() != b@.len());
        }
        return false;
    }
    let mut i: usize = 0;
    while i < na
        invariant
            na == a@.len(),
            na == b@.len(),
            i <= na,
            forall|j: int| 0 <= j < i ==> a@[j] == b@[j],
        decreases na - i,
    {
        if a.get_char(i) != b.get_char(i) {
            return false;
        }
        i = i + 1;
    }
    proof {
        assert(a@ =~= b@);
    }
    true
}

/// `p` occurs in `s` starting at position `i`.
pub open spec fn matches_at(s: Seq<char>, p: Seq<char>, i: int) -> bool {
    0 <= i && i + p.len() <= s.len() && s.subrange(i, i + p.len() as int) == p
}

/// `p` occurs somewhere in `s`.
pub open spec fn contains_seq(s: Seq<char>, p: Seq<char>) -> bool {
    exists|i: int| matches_at(s, p, i)
}

/// Whether `p` occurs in `s` at position `i`.
fn chars_match_at(s: &Vec<char>, p: &Vec<char>, i: usize) -> (r: bool)
    requires
        i + p@.len() <= s@.len(),
    ensures
        r == matches_at(s@, p@, i as int),
{
    let total: usize = s.len();
    let m: usize = p.len();
    let mut j: usize = 0;
    while j < m
        invariant
            total == s@.len(),
            m == p@.len(),
            i + m <= s@.len(),
            j <= m,
            forall|k: int| 0 <= k < j ==> s@[i + k] == p@[k],
        decreases m - j,
    {
        if s[i + j] != p[j] {
            proof {
                assert(s@.subrange(i as int, i + p@.len() as int)[j as int] == s@[i + j]);
            }
            return false;
        }
        j = j + 1;
    }
    proof {
        assert(s@.subrange(i as int, i + p@.len() as int) =~= p@);
    }
    true
}

/// Substring search over character vectors.
pub fn chars_contain(s: &Vec<char>, p: &Vec<char>) -> (r: bool)
    ensures
        r == contains_seq(s@, p@),
{
    let n: usize = s.len();
    let m: usize = p.len();
    if m > n {
        proof {
            assert(forall|i: int| !matches_at(s@, p@, i));
        }
        return false;
    }
    let bound: usize = n - m;
    let mut i: usize = 0;
    loop
        invariant
            n == s@.len(),
            m == p@.len(),
            m <= n,
            bound == n - m,
            i <= bound,
            forall|k: int| 0 <= k < i ==> !matches_at(s@, p@, k),
        decreases bound - i,
    {
        if chars_match_at(s, p, i) {
            return true;
        }
        if i == bound {
            proof {
                assert(forall|k: int| matches_at(s@, p@, k) ==> 0 <= k <= bound);
            }
            return false;
        }
        i = i + 1;
    }
}

/// Substring search over string slices.
pub fn str_contains(s: &str, p: &str) -> (r: bool)
    ensures
        r == contains_seq(s@, p@),
{
    let sv = str_to_chars(s);
    let pv = str_to_chars(p);
    chars_contain(&sv, &pv)
}

/// `s` starts with `p`.
pub open spec fn starts_with_seq(s: Seq<char>, p: Seq<char>) -> bool {
    p.len() <= s.len() && s.subrange(0, p.len() as int) == p
}

/// `s` ends with `p`.
pub open spec fn ends_with_seq(s: Seq<char>, p: Seq<char>) -> bool {
    p.len() <= s.len() && s.subrange(s.len() - p.len(), s.len() as int) == p
}

/// Prefix test over string slices.
pub fn str_starts_with(s: &str, p: &str) -> (r: bool)
    ensures
        r == starts_with_seq(s@, p@),
{
    let sv = str_to_chars(s);
    let pv = str_to_chars(p);
    if pv.len() > sv.len() {
        return false;
    }
    let r = chars_match_at(&sv, &pv, 0);
    proof {
        assert(matches_at(s@, p@, 0) == starts_with_seq(s@, p@));
    }
    r
}

/// Suffix test over string slices.
pub fn str_ends_with(s: &str, p: &str) -> (r: bool)
    ensures
        r == ends_with_seq(s@, p@),
{
    let sv = str_to_chars(s);
    let pv = str_to_chars(p);
    if pv.len() > sv.len() {
        return false;
    }
    let start: usize = sv.len() - pv.len();
    let r = chars_match_at(&sv, &pv, start);
    proof {
        assert(matches_at(s@, p@, s@.len() - p@.len()) == ends_with_seq(s@, p@));
    }
    r
}

/// Decimal digits of `n`, most significant first.
pub open spec fn dec_str(n: nat) -> Seq<char>
    decreases n,
{
    if n < 10 {
        seq![digit_char(n)]
    } else {
        dec_str(n / 10) + seq![digit_char(n % 10)]
    }
}

/// The character for a single decimal digit.
pub open spec fn digit_char(d: nat) -> char {
    if d == 0 { '0' }
    else if d == 1 { '1' }
    else if d == 2 { '2' }
    else if d == 3 { '3' }
    else if d == 4 { '4' }
    else if d == 5 { '5' }
    else if d == 6 { '6' }
    else if d == 7 { '7' }
    else if d == 8 { '8' }
    else { '9' }
}

/// One decimal digit as a string slice.
pub fn digit_str(d: u64) -> (r: &'static str)
    requires
        d < 10,
    ensures
        r@ == seq![digit_char(d as nat)],
{
    let r: &'static str = if d == 0 { "0" }
        else if d == 1 { "1" }
        else if d == 2 { "2" }
        else if d == 3 { "3" }
        else if d == 4 { "4" }
        else if d == 5 { "5" }
        else if d == 6 { "6" }
        else if d == 7 { "7" }
        else { if d == 8 { "8" } else { "9" } };
    proof {
        reveal_strlit("0");
        reveal_strlit("1");
        reveal_strlit("2");
        reveal_strlit("3");
        reveal_strlit("4");
        reveal_strlit("5");
        reveal_strlit("6");
        reveal_strlit("7");
        reveal_strlit("8");
        reveal_strlit("9");
        assert(r@ =~= seq![digit_char(d as nat)]);
    }
    r
}

/// Renders `n` in decimal.
pub fn u64_to_string(n: u64) -> (r: String)
    ensures
        r@ == dec_str(n as nat),
    decreases n,
{
    if n < 10 {
        let s = digit_str(n);
        String::from_str(s)
    } else {
        let mut r = u64_to_string(n / 10);
        let d = digit_str(n % 10);
        r.append(d);
        r
    }
}

/// Decimal rendering of a signed number: a minus sign and the digits of
/// the magnitude.
pub open spec fn dec_str_signed(n: int) -> Seq<char> {
    if n >= 0 {
        dec_str(n as nat)
    } else {
        seq!['-'] + dec_str((-n) as nat)
    }
}

/// Renders `n` in decimal, with a sign when negative.
pub fn i64_to_string(n: i64) -> (r: String)
    ensures
        r@ == dec_str_signed(n as int),
{
    if n >= 0 {
        u64_to_string(n as u64)
    } else {
        let magnitude: u64 = (-(n + 1)) as u64 + 1;
        let mut r = String::from_str("-");
        let digits = u64_to_string(magnitude);
        r.append(digits.as_str());
        proof {
            reveal_strlit("-");
            assert(r@ =~= seq!['-'] + dec_str((-(n as int)) as nat));
        }
        r
    }
}

/// Unicode whitespace, as the `White_Space` property defines it.
pub open spec fn is_ws(c: char) -> bool {
    ||| c == '\u{0009}'
    ||| c == '\u{000A}'
    ||| c == '\u{000B}'
    ||| c == '\u{000C}'
    ||| c == '\u{000D}'
    ||| c == '\u{0020}'
    ||| c == '\u{0085}'
    ||| c == '\u{00A0}'
    ||| c == '\u{1680}'
    ||| ('\u{2000}' <= c && c <= '\u{200A}')
    ||| c == '\u{2028}'
    ||| c == '\u{2029}'
    ||| c == '\u{202F}'
    ||| c == '\u{205F}'
    ||| c == '\u{3000}'
}

/// Whitespace test on a single character.
pub fn ws_char(c: char) -> (r: bool)
    ensures
        r == is_ws(c),
{
    c == '\u{0009}' || c == '\u{000A}' || c == '\u{000B}' || c == '\u{000C}' || c == '\u{000D}'
        || c == '\u{0020}' || c == '\u{0085}' || c == '\u{00A0}' || c == '\u{1680}' || ('\u{2000}'
        <= c && c <= '\u{200A}') || c == '\u{2028}' || c == '\u{2029}' || c == '\u{202F}' || c
        == '\u{205F}' || c == '\u{3000}'
}

/// Lexicographic order on character sequences, by code point.
pub open spec fn lex_le(a: Seq<char>, b: Seq<char>) -> bool
    decreases a.len(),
{
    if a.len() == 0 {
        true
    } else if b.len() == 0 {
        false
    } else if a[0] != b[0] {
        a[0] < b[0]
    } else {
        lex_le(a.drop_first(), b.drop_first())
    }
}

/// Strict lexicographic order.
pub open spec fn lex_lt(a: Seq<char>, b: Seq<char>) -> bool {
    lex_le(a, b) && a != b
}

/// The lexicographic order is total.
pub proof fn lemma_lex_total(a: Seq<char>, b: Seq<char>)
    ensures
        lex_le(a, b) || lex_le(b, a),
    decreases a.len(),
{
    if a.len() > 0 && b.len() > 0 && a[0] == b[0] {
        lemma_lex_total(a.drop_first(), b.drop_first());
    }
}

/// The lexicographic order is transitive.
pub proof fn lemma_lex_trans(a: Seq<char>, b: Seq<char>, c: Seq<char>)
    requires
        lex_le(a, b),
        lex_le(b, c),
    ensures
        lex_le(a, c),
    decreases a.len(),
{
    if a.len() > 0 && b.len() > 0 && c.len() > 0 && a[0] == b[0] && b[0] == c[0] {
        lemma_lex_trans(a.drop_first(), b.drop_first(), c.drop_first());
    }
}

/// Lexicographic comparison of two strings.
pub fn str_lex_le(a: &str, b: &str) -> (r: bool)
    ensures
        r == lex_le(a@, b@),
{
    let av = str_to_chars(a);
    let bv = str_to_chars(b);
    let na: usize = av.len();
    let nb: usize = bv.len();
    let mut i: usize = 0;
    proof {
        assert(a@.skip(0) =~= a@);
        assert(b@.skip(0) =~= b@);
    }
    loop
        invariant
            na == a@.len(),
            nb == b@.len(),
            av@ == a@,
            bv@ == b@,
            i <= na,
            i <= nb,
            lex_le(a@, b@) == lex_le(a@.skip(i as int), b@.skip(i as int)),
        decreases na - i,
    {
        if i == na {
            proof {
                assert(a@.skip(i as int).len() == 0);
            }
            return true;
        }
        if i == nb {
            proof {
                assert(b@.skip(i as int).len() == 0);
                assert(a@.skip(i as int).len() > 0);
            }
            return false;
        }
        let ca = av[i];
        let cb = bv[i];
        if ca != cb {
            proof {
                assert(a@.skip(i as int)[0] == a@[i as int]);
                assert(b@.skip(i as int)[0] == b@[i as int]);
            }
            return ca < cb;
        }
        proof {
            assert(a@.skip(i as int).drop_first() =~= a@.skip(i as int + 1));
            assert(b@.skip(i as int).drop_first() =~= b@.skip(i as int + 1));
            assert(a@.skip(i as int)[0] == b@.skip(i as int)[0]);
        }
        i = i + 1;
    }
}

/// The views of the strings in `v`, in order.
pub open spec fn views(v: Seq<String>) -> Seq<Seq<char>> {
    v.map_values(|s: String| s@)
}

/// Strictly ascending in the lexicographic order: sorted, no duplicates.
pub open spec fn strictly_sorted(s: Seq<Seq<char>>) -> bool {
    forall|i: int, j: int| 0 <= i < j < s.len() ==> lex_lt(#[trigger] s[i], #[trigger] s[j])
}

/// Inserting an element adds exactly that element to what the sequence
/// contains.
proof fn lemma_insert_contains(s: Seq<Seq<char>>, i: int, v: Seq<char>)
    requires
        0 <= i <= s.len(),
    ensures
        forall|y: Seq<char>| #[trigger]
            s.insert(i, v).contains(y) <==> s.contains(y) || y == v,
{
    s.insert_ensures(i, v);
    assert forall|y: Seq<char>| #[trigger]
        s.insert(i, v).contains(y) <==> s.contains(y) || y == v by {
        if s.insert(i, v).contains(y) {
            let k = choose|k: int| 0 <= k < s.insert(i, v).len() && s.insert(i, v)[k] == y;
            if k < i {
                assert(s[k] == y);
            } else if k > i {
                assert(s.insert(i, v)[k - 1 + 1] == s[k - 1]);
                assert(s[k - 1] == y);
            }
        }
        if s.contains(y) {
            let k = choose|k: int| 0 <= k < s.len() && s[k] == y;
            if k < i {
                assert(s.insert(i, v)[k] == y);
            } else {
                assert(s.insert(i, v)[k + 1] == y);
            }
        }
        if y == v {
            assert(s.insert(i, v)[i] == y);
        }
    }
}

/// Sorts the strings and removes duplicates: the result is strictly
/// ascending and holds exactly the values of the input.
pub fn sorted_unique(input: &Vec<String>) -> (r: Vec<String>)
    ensures
        strictly_sorted(views(r@)),
        forall|y: Seq<char>| views(r@).contains(y) <==> views(input@).contains(y),
{
    let mut r: Vec<String> = Vec::new();
    let n: usize = input.len();
    let mut idx: usize = 0;
    while idx < n
        invariant
            n == input@.len(),
            idx <= n,
            strictly_sorted(views(r@)),
            forall|y: Seq<char>|
                views(r@).contains(y) <==> views(input@.take(idx as int)).contains(y),
        decreases n - idx,
    {
        let x = &input[idx];
        let mut j: usize = 0;
        loop
            invariant
                j <= r@.len(),
                strictly_sorted(views(r@)),
                forall|k: int| 0 <= k < j ==> lex_lt(views(r@)[k], x@),
            ensures
                j <= r@.len(),
                forall|k: int| 0 <= k < j ==> lex_lt(views(r@)[k], x@),
                j < r@.len() ==> !lex_lt(views(r@)[j as int], x@),
            decreases r@.len() - j,
        {
            if j == r.len() {
                break;
            }
            let le = str_lex_le(r[j].as_str(), x.as_str());
            let eq = str_eq(r[j].as_str(), x.as_str());
            if le && !eq {
                proof {
                    assert(views(r@)[j as int] == r@[j as int]@);
                }
                j = j + 1;
            } else {
                proof {
                    if !le {
                        assert(!lex_lt(views(r@)[j as int], x@));
                    }
                }
                break;
            }
        }
        let mut is_dup = false;
        if j < r.len() {
            if str_eq(r[j].as_str(), x.as_str()) {
                is_dup = true;
            }
        }
        if is_dup {
            proof {
                assert(views(r@)[j as int] == x@);
                assert(views(r@).contains(x@));
            }
        } else {
            proof {
                if j < r@.len() {
                    lemma_lex_total(views(r@)[j as int], x@);
                    assert(views(r@)[j as int] != x@);
                    assert(lex_lt(x@, views(r@)[j as int]));
                }
            }
            let ghost old_rs: Seq<String> = r@;
            let ghost old_rv: Seq<Seq<char>> = views(r@);
            r.insert(j, x.clone());
            proof {
                old_rs.insert_ensures(j as int, r@[j as int]);
                old_rv.insert_ensures(j as int, x@);
                assert(views(r@) =~= old_rv.insert(j as int, x@)) by {
                    assert forall|k: int| 0 <= k < r@.len() implies views(r@)[k] == old_rv.insert(
                        j as int,
                        x@,
                    )[k] by {
                        if k < j {
                            assert(r@[k] == old_rs[k]);
                        } else if k > j {
                            assert(r@[k - 1 + 1] == old_rs[k - 1]);
                            assert(old_rv.insert(j as int, x@)[k - 1 + 1] == old_rv[k - 1]);
                        }
                    }
                }
                lemma_insert_contains(old_rv, j as int, x@);
                let rv = views(r@);
                assert forall|p: int, q: int| 0 <= p < q < rv.len() implies lex_lt(
                    #[trigger] rv[p],
                    #[trigger] rv[q],
                ) by {
                    if q < j {
                        assert(rv[p] == old_rv[p] && rv[q] == old_rv[q]);
                    } else if q == j {
                        assert(rv[p] == old_rv[p]);
                        assert(lex_lt(old_rv[p], x@));
                    } else if p < j {
                        assert(rv[p] == old_rv[p]);
                        assert(rv[q] == old_rv[q - 1]);
                        assert(p < q - 1);
                        assert(lex_lt(old_rv[p], old_rv[q - 1]));
                    } else if p == j {
                        assert(rv[p] == x@);
                        assert(rv[q] == old_rv[q - 1]);
                        assert(lex_lt(x@, old_rv[j as int]));
                        if q - 1 > j {
                            lemma_lex_trans(x@, old_rv[j as int], old_rv[q - 1]);
                        }
                    } else {
                        assert(rv[p] == old_rv[p - 1]);
                        assert(rv[q] == old_rv[q - 1]);
                        assert(lex_lt(old_rv[p - 1], old_rv[q - 1]));
                    }
                }
            }
        }
        idx = idx + 1;
        proof {
            let prev = views(input@.take(idx as int - 1));
            assert(views(input@.take(idx as int)) =~= prev.insert(prev.len() as int, x@));
            lemma_insert_contains(prev, prev.len() as int, x@);
        }
    }
    proof {
        assert(input@.take(n as int) =~= input@);
    }
    r
}

/// A value copy of an optional string.
pub fn clone_opt(o: &Option<String>) -> (r: Option<String>)
    ensures
        r is Some <==> o is Some,
        r is Some ==> r.unwrap()@ == o.unwrap()@,
{
    match o {
        Some(s) => Some(s.clone()),
        None => None,
    }
}

/// The first position at or after `i` holding `c`, or the length of `s`.
pub open spec fn find_from(s: Seq<char>, c: char, i: int) -> int
    decreases s.len() - i,
{
    if i < 0 {
        i
    } else if i >= s.len() {
        s.len() as int
    } else if s[i] == c {
        i
    } else {
        find_from(s, c, i + 1)
    }
}

/// `find_from` stays within bounds, lands on `c` when it finds one, and
/// skips no occurrence.
pub proof fn lemma_find_from(s: Seq<char>, c: char, i: int)
    requires
        0 <= i <= s.len(),
    ensures
        i <= find_from(s, c, i) <= s.len(),
        find_from(s, c, i) < s.len() ==> s[find_from(s, c, i)] == c,
        forall|k: int| i <= k < find_from(s, c, i) ==> s[k] != c,
    decreases s.len() - i,
{
    if i < s.len() && s[i] != c {
        lemma_find_from(s, c, i + 1);
    }
}

/// Scans for the first occurrence of `c` at or after `i`.
pub fn scan_for_char(v: &Vec<char>, c: char, i: usize) -> (r: usize)
    requires
        i <= v@.len(),
    ensures
        r == find_from(v@, c, i as int),
        i <= r <= v@.len(),
{
    let n: usize = v.len();
    let mut j: usize = i;
    while j < n
        invariant
            i <= j <= n,
            n == v@.len(),
            find_from(v@, c, i as int) == find_from(v@, c, j as int),
        decreases n - j,
    {
        if v[j] == c {
            proof {
                lemma_find_from(v@, c, j as int);
            }
            return j;
        }
        j = j + 1;
    }
    j
}

/// The Unicode lowercase form of a character sequence. What it is on
/// given characters is known only to `str::to_lowercase`; it depends on
/// the characters alone.
pub uninterp spec fn lower_of(s: Seq<char>) -> Seq<char>;

/// Relies on str::to_lowercase: the Unicode lowercase equivalent of the
/// string, a function of its characters alone; empty input gives empty
/// output.
#[verifier::external_body]
pub fn lowercase(s: &str) -> (r: String)
    ensures
        r@ == lower_of(s@),
        s@.len() == 0 ==> r@.len() == 0,
{
    s.to_lowercase()
}

/// The Unicode uppercase form of a character sequence. What it is on
/// given characters is known only to `str::to_uppercase`; it depends on
/// the characters alone.
pub uninterp spec fn upper_of(s: Seq<char>) -> Seq<char>;

/// Relies on str::to_uppercase: the Unicode uppercase equivalent of the
/// string, a function of its characters alone; empty input gives empty
/// output.
#[verifier::external_body]
pub fn uppercase(s: &str) -> (r: String)
    ensures
        r@ == upper_of(s@),
        s@.len() == 0 ==> r@.len() == 0,
{
    s.to_uppercase()
}

/// The two strings, concatenated.
pub fn str_concat(a: &str, b: &str) -> (r: String)
    ensures
        r@ == a@ + b@,
{
    let mut r = String::from_str(a);
    r.append(b);
    r
}

/// `a` and `b` joined with a single path separator.
pub fn path_join(a: &str, b: &str) -> (r: String)
    ensures
        r@ == a@ + seq!['/'] + b@,
{
    let mut r = String::from_str(a);
    r.append("/");
    r.append(b);
    proof {
        reveal_strlit("/");
        assert(r@ =~= a@ + seq!['/'] + b@);
    }
    r
}

/// A path joined the way path buffers do it: an absolute right side
/// replaces the left side; otherwise the two are joined with a
/// separator, without doubling one already there.
pub open spec fn joined_path(base: Seq<char>, rel: Seq<char>) -> Seq<char> {
    if rel.len() > 0 && rel[0] == '/' {
        rel
    } else if base.len() > 0 && base[base.len() - 1] == '/' {
        base + rel
    } else {
        base + seq!['/'] + rel
    }
}

/// Joins a relative path under a base path; an absolute path stands
/// alone.
pub fn join_under(base: &str, rel: &str) -> (r: String)
    ensures
        r@ == joined_path(base@, rel@),
{
    let rv = str_to_chars(rel);
    if rv.len() > 0 {
        if rv[0] == '/' {
            return String::from_str(rel);
        }
    }
    let bv = str_to_chars(base);
    if bv.len() > 0 {
        if bv[bv.len() - 1] == '/' {
            return str_concat(base, rel);
        }
    }
    path_join(base, rel)
}

/// `s` with every backslash replaced by a forward slash.
pub open spec fn slashed(s: Seq<char>) -> Seq<char> {
    s.map_values(|c: char| if c == '\\' { '/' } else { c })
}

/// Replaces every backslash with a forward slash.
pub fn replace_backslashes(s: &str) -> (r: String)
    ensures
        r@ == slashed(s@),
{
    let v = str_to_chars(s);
    let n: usize = v.len();
    let mut r = String::new();
    let mut start: usize = 0;
    let mut i: usize = 0;
    while i < n
        invariant
            n == s@.len(),
            v@ == s@,
            start <= i <= n,
            r@ == slashed(s@.take(start as int)),
            forall|k: int| start <= k < i ==> s@[k] != '\\',
        decreases n - i,
    {
        if v[i] == '\\' {
            let piece = s.substring_char(start, i);
            r.append(piece);
            r.append("/");
            proof {
                reveal_strlit("/");
                assert(r@ =~= slashed(s@.take(i as int + 1)));
            }
            start = i + 1;
        }
        i = i + 1;
    }
    let piece = s.substring_char(start, n);
    r.append(piece);
    proof {
        assert(r@ =~= slashed(s@.take(n as int)));
        assert(s@.take(n as int) =~= s@);
    }
    r
}

} // verus!
