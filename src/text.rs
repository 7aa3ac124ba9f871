//! Character-level text operations on `str`, each proved against a
//! definition over `Seq<char>`.
use vstd::prelude::*;

verus! {

/// Whether `pat` occurs in `s` at position `i`.
pub open spec fn occurs_at(s: Seq<char>, pat: Seq<char>, i: int) -> bool {
    0 <= i && i + pat.len() <= s.len() && s.subrange(i, i + pat.len()) == pat
}

/// Whether the non-empty pattern `pat` occurs anywhere in `s`.
pub open spec fn contains_pattern(s: Seq<char>, pat: Seq<char>) -> bool
    decreases s.len(),
{
    if pat.len() == 0 || s.len() < pat.len() {
        false
    } else if s.subrange(0, pat.len() as int) == pat {
        true
    } else {
        contains_pattern(s.subrange(1, s.len() as int), pat)
    }
}

/// `s` with every occurrence of the non-empty pattern `pat` replaced by
/// `by`, scanning left to right without overlaps.
pub open spec fn replace_all(s: Seq<char>, pat: Seq<char>, by: Seq<char>) -> Seq<char>
    decreases s.len(),
{
    if pat.len() == 0 || s.len() < pat.len() {
        s
    } else if s.subrange(0, pat.len() as int) == pat {
        by + replace_all(s.subrange(pat.len() as int, s.len() as int), pat, by)
    } else {
        seq![s[0]] + replace_all(s.subrange(1, s.len() as int), pat, by)
    }
}

/// The parts joined with `:` between neighbours.
pub open spec fn join_colon(parts: Seq<Seq<char>>) -> Seq<char>
    decreases parts.len(),
{
    if parts.len() == 0 {
        Seq::empty()
    } else if parts.len() == 1 {
        parts[0]
    } else {
        join_colon(parts.drop_last()) + seq![':'] + parts.last()
    }
}

/// Whether two strings hold the same characters.
pub fn same_text(a: &str, b: &str) -> (r: bool)
    ensures
        r == (a@ == b@),
{
    let n = a.unicode_len();
    let m = b.unicode_len();
    if n != m {
        return false;
    }
    let mut i: usize = 0;
    while i < n
        invariant
            n == a@.len(),
            m == b@.len(),
            n == m,
            i <= n,
            a@.subrange(0, i as int) == b@.subrange(0, i as int),
        decreases n - i,
    {
        if a.get_char(i) != b.get_char(i) {
            assert(a@[i as int] != b@[i as int]);
            return false;
        }
        assert(a@.subrange(0, i + 1) =~= a@.subrange(0, i as int).push(a@[i as int]));
        assert(b@.subrange(0, i + 1) =~= b@.subrange(0, i as int).push(b@[i as int]));
        i = i + 1;
    }
    assert(a@ =~= a@.subrange(0, n as int));
    assert(b@ =~= b@.subrange(0, n as int));
    true
}

/// Whether `pat` occurs in `s` at position `i`; `n` and `p` are the
/// character counts of `s` and `pat`.
fn occurs_at_exec(s: &str, n: usize, pat: &str, p: usize, i: usize) -> (r: bool)
    requires
        n == s@.len(),
        p == pat@.len(),
        i <= n,
    ensures
        r == occurs_at(s@, pat@, i as int),
{
    if p > n - i {
        return false;
    }
    let mut j: usize = 0;
    while j < p
        invariant
            n == s@.len(),
            p == pat@.len(),
            i + p <= n,
            j <= p,
            s@.subrange(i as int, i + j) == pat@.subrange(0, j as int),
        decreases p - j,
    {
        if s.get_char(i + j) != pat.get_char(j) {
            assert(s@.subrange(i as int, i + p)[j as int] != pat@[j as int]);
            return false;
        }
        assert(s@.subrange(i as int, i + j + 1) =~= s@.subrange(i as int, i + j).push(
            s@[i + j],
        ));
        assert(pat@.subrange(0, j + 1) =~= pat@.subrange(0, j as int).push(pat@[j as int]));
        j = j + 1;
    }
    assert(pat@ =~= pat@.subrange(0, p as int));
    true
}

proof fn lemma_suffix_step(s: Seq<char>, i: int, k: int)
    requires
        0 <= i,
        0 <= k,
        i + k <= s.len(),
    ensures
        s.subrange(i, s.len() as int).subrange(k, s.len() - i) == s.subrange(i + k, s.len() as int),
        k > 0 ==> s.subrange(i, s.len() as int).subrange(0, k) == s.subrange(i, i + k),
{
    assert(s.subrange(i, s.len() as int).subrange(k, s.len() - i) =~= s.subrange(
        i + k,
        s.len() as int,
    ));
    assert(s.subrange(i, s.len() as int).subrange(0, k) =~= s.subrange(i, i + k));
}

/// Replaces every occurrence of the non-empty `pat` in `s` by `by`, and tells
/// whether there was any.
pub fn replace_pattern(s: &str, pat: &str, by: &str) -> (r: (String, bool))
    requires
        pat@.len() > 0,
    ensures
        r.0@ == replace_all(s@, pat@, by@),
        r.1 == contains_pattern(s@, pat@),
{
    let n = s.unicode_len();
    let p = pat.unicode_len();
    let mut out = String::new();
    let mut found = false;
    let mut i: usize = 0;
    assert(s@.subrange(0, n as int) =~= s@);
    assert(out@ + replace_all(s@, pat@, by@) =~= replace_all(s@, pat@, by@));
    while i < n
        invariant
            n == s@.len(),
            p == pat@.len(),
            p > 0,
            i <= n,
            replace_all(s@, pat@, by@) == out@ + replace_all(
                s@.subrange(i as int, n as int),
                pat@,
                by@,
            ),
            contains_pattern(s@, pat@) == (found || contains_pattern(
                s@.subrange(i as int, n as int),
                pat@,
            )),
        decreases n - i,
    {
        let ghost rest = s@.subrange(i as int, n as int);
        let hit = occurs_at_exec(s, n, pat, p, i);
        proof {
            lemma_suffix_step(s@, i as int, 1);
            if i + p <= n {
                lemma_suffix_step(s@, i as int, p as int);
            }
        }
        if hit {
            let ghost before = out@;
            out.append(by);
            found = true;
            proof {
                let tail = replace_all(s@.subrange(i + p, n as int), pat@, by@);
                assert(before + (by@ + tail) =~= out@ + tail);
            }
            i = i + p;
        } else {
            let ghost before = out@;
            out.append(s.substring_char(i, i + 1));
            proof {
                let tail = replace_all(s@.subrange(i + 1, n as int), pat@, by@);
                assert(s@.subrange(i as int, i + 1) =~= seq![s@[i as int]]);
                assert(before + (seq![s@[i as int]] + tail) =~= out@ + tail);
            }
            i = i + 1;
        }
    }
    assert(out@ + replace_all(s@.subrange(n as int, n as int), pat@, by@) =~= out@);
    (out, found)
}

/// Position of the first occurrence of the non-empty `pat` in `s`, or -1.
pub open spec fn find_model(s: Seq<char>, pat: Seq<char>) -> int
    decreases s.len(),
{
    if pat.len() == 0 || s.len() < pat.len() {
        -1
    } else if s.subrange(0, pat.len() as int) == pat {
        0
    } else {
        let r = find_model(s.subrange(1, s.len() as int), pat);
        if r < 0 {
            -1
        } else {
            r + 1
        }
    }
}

/// `s` up to the first occurrence of `pat`, or all of `s` without one.
pub open spec fn before_pattern(s: Seq<char>, pat: Seq<char>) -> Seq<char> {
    if find_model(s, pat) >= 0 {
        s.subrange(0, find_model(s, pat))
    } else {
        s
    }
}

/// The position of the first occurrence of the non-empty `pat` in `s`.
pub fn find_pattern(s: &str, pat: &str) -> (r: Option<usize>)
    requires
        pat@.len() > 0,
    ensures
        r is None <==> find_model(s@, pat@) < 0,
        r is Some ==> r->0 == find_model(s@, pat@) && r->0 + pat@.len() <= s@.len(),
{
    let n = s.unicode_len();
    let p = pat.unicode_len();
    let mut i: usize = 0;
    assert(s@.subrange(0, n as int) =~= s@);
    while i < n
        invariant
            n == s@.len(),
            p == pat@.len(),
            p > 0,
            i <= n,
            find_model(s@, pat@) == (if find_model(s@.subrange(i as int, n as int), pat@) < 0 {
                -1
            } else {
                find_model(s@.subrange(i as int, n as int), pat@) + i
            }),
        decreases n - i,
    {
        proof {
            lemma_suffix_step(s@, i as int, 1);
            if i + p <= n {
                lemma_suffix_step(s@, i as int, p as int);
            }
        }
        if occurs_at_exec(s, n, pat, p, i) {
            return Some(i);
        }
        if p > n - i {
            return None;
        }
        i = i + 1;
    }
    None
}

} // verus!
