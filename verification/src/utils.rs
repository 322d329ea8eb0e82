//! Path stems: the file name of a path with directory prefix and extension
//! removed, used as the default name of a build artifact.

use vstd::prelude::*;

verus! {

/// The characters of `p` after its last `/`, or all of `p` when it has none.
pub open spec fn after_last_slash(p: Seq<char>) -> Seq<char>
    decreases p.len(),
{
    if p.len() == 0 {
        p
    } else if p.last() == '/' {
        Seq::<char>::empty()
    } else {
        after_last_slash(p.drop_last()).push(p.last())
    }
}

/// The characters of `s` before its first `.`, or all of `s` when it has none.
pub open spec fn before_first_dot(s: Seq<char>) -> Seq<char>
    decreases s.len(),
{
    if s.len() == 0 {
        s
    } else if s[0] == '.' {
        Seq::<char>::empty()
    } else {
        seq![s[0]] + before_first_dot(s.drop_first())
    }
}

/// The stem of a path: its file name with the directory prefix and the
/// extension both removed.
pub open spec fn stem_of(p: Seq<char>) -> Seq<char> {
    before_first_dot(after_last_slash(p))
}

/// `after_last_slash` returns the suffix that starts at `k` whenever `k` is
/// just past the last `/` of `p` (or 0 when `p` has no `/`).
proof fn lemma_after_last_slash_at(p: Seq<char>, k: int)
    requires
        0 <= k <= p.len(),
        k == 0 || p[k - 1] == '/',
        forall|j: int| k <= j < p.len() ==> p[j] != '/',
    ensures
        after_last_slash(p) == p.subrange(k, p.len() as int),
    decreases p.len(),
{
    if p.len() == 0 {
        assert(after_last_slash(p) =~= p.subrange(k, p.len() as int));
    } else if p.last() == '/' {
        assert(k == p.len());
        assert(after_last_slash(p) =~= p.subrange(k, p.len() as int));
    } else {
        assert(k < p.len());
        lemma_after_last_slash_at(p.drop_last(), k);
        assert(after_last_slash(p) =~= p.subrange(k, p.len() as int));
    }
}

/// `before_first_dot` returns the prefix that ends at `e` whenever `e` is the
/// position of the first `.` of `s` (or `s.len()` when `s` has no `.`).
proof fn lemma_before_first_dot_at(s: Seq<char>, e: int)
    requires
        0 <= e <= s.len(),
        forall|j: int| 0 <= j < e ==> s[j] != '.',
        e == s.len() || s[e] == '.',
    ensures
        before_first_dot(s) == s.subrange(0, e),
    decreases s.len(),
{
    if s.len() == 0 {
        assert(before_first_dot(s) =~= s.subrange(0, e));
    } else if s[0] == '.' {
        assert(e == 0);
        assert(before_first_dot(s) =~= s.subrange(0, e));
    } else {
        assert(e >= 1);
        lemma_before_first_dot_at(s.drop_first(), e - 1);
        assert(before_first_dot(s) =~= s.subrange(0, e));
    }
}

/// Every character of `after_last_slash(p)` is a character of `p` at the same
/// distance from the end, and none of them is a `/`.
proof fn lemma_after_last_slash_no_slash(p: Seq<char>)
    ensures
        forall|j: int|
            0 <= j < after_last_slash(p).len() ==> after_last_slash(p)[j] != '/',
    decreases p.len(),
{
    if p.len() == 0 {
    } else if p.last() == '/' {
    } else {
        lemma_after_last_slash_no_slash(p.drop_last());
        let a = after_last_slash(p.drop_last());
        assert forall|j: int|
            0 <= j < after_last_slash(p).len() implies after_last_slash(p)[j] != '/' by {
            if j < a.len() {
                assert(after_last_slash(p)[j] == a[j]);
            } else {
                assert(after_last_slash(p)[j] == p.last());
            }
        }
    }
}

/// `before_first_dot(s)` is a prefix of `s` and contains no `.`.
proof fn lemma_before_first_dot_prefix(s: Seq<char>)
    ensures
        before_first_dot(s).len() <= s.len(),
        forall|j: int|
            0 <= j < before_first_dot(s).len() ==> before_first_dot(s)[j] == s[j],
        forall|j: int|
            0 <= j < before_first_dot(s).len() ==> before_first_dot(s)[j] != '.',
    decreases s.len(),
{
    if s.len() == 0 {
    } else if s[0] == '.' {
    } else {
        lemma_before_first_dot_prefix(s.drop_first());
        let b = before_first_dot(s.drop_first());
        assert forall|j: int|
            0 <= j < before_first_dot(s).len() implies before_first_dot(s)[j] == s[j]
                && before_first_dot(s)[j] != '.' by {
            if j > 0 {
                assert(before_first_dot(s)[j] == b[j - 1]);
                assert(s.drop_first()[j - 1] == s[j]);
            }
        }
    }
}

/// Stem extraction is idempotent: a stem has neither a directory prefix nor
/// an extension left, so extracting again returns it unchanged.
pub proof fn lemma_stem_idempotent(p: Seq<char>)
    ensures
        stem_of(stem_of(p)) == stem_of(p),
{
    let f = after_last_slash(p);
    let st = before_first_dot(f);
    lemma_after_last_slash_no_slash(p);
    lemma_before_first_dot_prefix(f);
    assert forall|j: int| 0 <= j < st.len() implies st[j] != '/' by {
        assert(st[j] == f[j]);
    }
    lemma_after_last_slash_at(st, 0);
    assert(after_last_slash(st) =~= st);
    lemma_before_first_dot_at(st, st.len() as int);
    assert(before_first_dot(st) =~= st);
}

/// A path whose file name has no `.` keeps that whole file name as its
/// stem: only the directory prefix is dropped.
pub proof fn lemma_stem_without_dot(p: Seq<char>)
    requires
        forall|j: int|
            0 <= j < after_last_slash(p).len() ==> after_last_slash(p)[j] != '.',
    ensures
        stem_of(p) == after_last_slash(p),
{
    let f = after_last_slash(p);
    lemma_before_first_dot_at(f, f.len() as int);
    assert(f.subrange(0, f.len() as int) =~= f);
}

/// The suffix of a file name after its last `.`, provided that dot is not the
/// file name's first character; `None` when there is no such dot.
pub open spec fn after_last_dot(s: Seq<char>) -> Option<Seq<char>>
    decreases s.len(),
{
    if s.len() == 0 {
        None
    } else if s.last() == '.' {
        if s.len() == 1 {
            None
        } else {
            Some(Seq::<char>::empty())
        }
    } else {
        match after_last_dot(s.drop_last()) {
            Some(e) => Some(e.push(s.last())),
            None => None,
        }
    }
}

/// The extension of a path: the part of its file name after the last `.`.
/// A file name whose only `.` is its first character has no extension.
pub open spec fn extension_of(p: Seq<char>) -> Option<Seq<char>> {
    after_last_dot(after_last_slash(p))
}

/// The path with its extension replaced by `c`: everything after the last `.`
/// of the file name is dropped and a `c` put in its place; a path without an
/// extension gets `.c` appended.
pub open spec fn with_c_extension(p: Seq<char>) -> Seq<char> {
    match extension_of(p) {
        Some(e) => p.subrange(0, p.len() - e.len()) + seq!['c'],
        None => p + seq!['.', 'c'],
    }
}

/// A file name without a `.` past its first character has no extension.
proof fn lemma_after_last_dot_none(s: Seq<char>)
    requires
        forall|j: int| 1 <= j < s.len() ==> s[j] != '.',
    ensures
        after_last_dot(s) is None,
    decreases s.len(),
{
    if s.len() == 0 {
    } else if s.last() == '.' {
        assert(s.len() == 1);
    } else {
        lemma_after_last_dot_none(s.drop_last());
    }
}

/// When `k` is the position of the last `.` of `s` and lies past the first
/// character, the extension is exactly the suffix after `k`.
proof fn lemma_after_last_dot_at(s: Seq<char>, k: int)
    requires
        1 <= k < s.len(),
        s[k] == '.',
        forall|j: int| k < j < s.len() ==> s[j] != '.',
    ensures
        after_last_dot(s) == Some(s.subrange(k + 1, s.len() as int)),
    decreases s.len(),
{
    if s.last() == '.' {
        assert(k == s.len() - 1);
        assert(s.subrange(k + 1, s.len() as int) =~= Seq::<char>::empty());
    } else {
        lemma_after_last_dot_at(s.drop_last(), k);
        assert(s.drop_last().subrange(k + 1, s.len() - 1).push(s.last()) =~= s.subrange(
            k + 1,
            s.len() as int,
        ));
    }
}

/// The position where the file name of `path` begins: just past its last
/// `/`, or the start when it has none.
fn name_start(path: &str) -> (start: usize)
    ensures
        start <= path@.len(),
        start == 0 || path@[start - 1] == '/',
        forall|j: int| start <= j < path@.len() ==> path@[j] != '/',
        after_last_slash(path@) == path@.subrange(start as int, path@.len() as int),
{
    let n: usize = path.unicode_len();
    let mut start: usize = 0;
    let mut i: usize = 0;
    while i < n
        invariant
            0 <= start <= i <= n,
            n == path@.len(),
            start == 0 || path@[start - 1] == '/',
            forall|j: int| start <= j < i ==> path@[j] != '/',
        decreases n - i,
    {
        if path.get_char(i) == '/' {
            start = i + 1;
        }
        i = i + 1;
    }
    proof {
        lemma_after_last_slash_at(path@, start as int);
    }
    start
}

/// The position of the last `.` of the file name of `path`, when the file
/// name has one past its first character; the file name begins at `start`.
fn last_dot_from(path: &str, start: usize) -> (r: Option<usize>)
    requires
        start <= path@.len(),
    ensures
        match r {
            Some(dot) => start < dot < path@.len() && path@[dot as int] == '.' && forall|j: int|
                dot < j < path@.len() ==> path@[j] != '.',
            None => forall|j: int| start < j < path@.len() ==> path@[j] != '.',
        },
{
    let n: usize = path.unicode_len();
    let mut dot: usize = 0;
    let mut has_dot: bool = false;
    let mut m: usize = start;
    while m < n
        invariant
            start <= m <= n,
            n == path@.len(),
            has_dot ==> start < dot && dot < m && path@[dot as int] == '.',
            has_dot ==> forall|j: int| dot < j < m ==> path@[j] != '.',
            !has_dot ==> forall|j: int| start < j < m ==> path@[j] != '.',
        decreases n - m,
    {
        if m > start && path.get_char(m) == '.' {
            dot = m;
            has_dot = true;
        }
        m = m + 1;
    }
    if has_dot {
        Some(dot)
    } else {
        None
    }
}

/// Whether the extension of `path` is the single character `target`.
pub fn extension_matches(path: &str, target: char) -> (r: bool)
    ensures
        r == (extension_of(path@) == Some(seq![target])),
{
    let n: usize = path.unicode_len();
    let start = name_start(path);
    let ghost name = path@.subrange(start as int, n as int);
    match last_dot_from(path, start) {
        Some(dot) => {
            proof {
                lemma_after_last_dot_at(name, dot - start);
                assert(name.subrange(dot - start + 1, name.len() as int) =~= path@.subrange(
                    dot + 1,
                    n as int,
                ));
            }
            if n - dot == 2 {
                let last = path.get_char(n - 1);
                proof {
                    if last == target {
                        assert(path@.subrange(dot + 1, n as int) =~= seq![target]);
                    } else {
                        assert(path@.subrange(dot + 1, n as int)[0] != target);
                    }
                }
                last == target
            } else {
                proof {
                    assert(path@.subrange(dot + 1, n as int).len() != 1);
                }
                false
            }
        },
        None => {
            proof {
                lemma_after_last_dot_none(name);
            }
            false
        },
    }
}

/// The path with its extension replaced by `c`, as `with_c_extension` says.
pub fn to_c_extension(path: &str) -> (r: String)
    ensures
        r@ == with_c_extension(path@),
{
    let n: usize = path.unicode_len();
    let start = name_start(path);
    let ghost name = path@.subrange(start as int, n as int);
    proof {
        reveal_strlit("c");
        reveal_strlit(".c");
    }
    match last_dot_from(path, start) {
        Some(dot) => {
            proof {
                lemma_after_last_dot_at(name, dot - start);
                assert(name.subrange(dot - start + 1, name.len() as int) =~= path@.subrange(
                    dot + 1,
                    n as int,
                ));
            }
            let mut out = path.substring_char(0, dot + 1).to_owned();
            out.append("c");
            proof {
                assert(out@ =~= with_c_extension(path@));
            }
            out
        },
        None => {
            proof {
                lemma_after_last_dot_none(name);
            }
            let mut out = path.to_owned();
            out.append(".c");
            proof {
                assert(out@ =~= with_c_extension(path@));
            }
            out
        },
    }
}

/// The file name of `path` with its directory prefix and extension removed:
/// everything after the last `/`, cut short at the first `.` that follows.
pub fn file_name(path: &str) -> (r: String)
    ensures
        r@ == stem_of(path@),
{
    let n: usize = path.unicode_len();
    let start = name_start(path);
    let mut m: usize = start;
    while m < n && path.get_char(m) != '.'
        invariant
            start <= m <= n,
            n == path@.len(),
            forall|j: int| start <= j < m ==> path@[j] != '.',
        decreases n - m,
    {
        m = m + 1;
    }
    let part = path.substring_char(start, m);
    proof {
        let s = path@.subrange(start as int, n as int);
        lemma_before_first_dot_at(s, m - start);
        assert(s.subrange(0, m - start) =~= path@.subrange(start as int, m as int));
    }
    part.to_owned()
}

} // verus!
