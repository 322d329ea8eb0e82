//! The include scanner: extraction of the targets of local (double-quoted)
//! include directives from a source file's text, line by line.
//!
//! A directive is the keyword `#include`, then any run of whitespace, then a
//! double-quoted target. Only the first directive of a line counts, its
//! closing quote is the last quote of the line, and angle-bracket includes
//! are never returned.

use vstd::prelude::*;

verus! {

/// Whether `c` is whitespace, as the scanner skips it between the keyword
/// and the opening quote (the unicode white-space characters).
pub open spec fn is_space(c: char) -> bool {
    let u = c as u32;
    u == 0x20 || (0x09 <= u && u <= 0x0d) || u == 0x85 || u == 0xa0 || u == 0x1680 || (0x2000
        <= u && u <= 0x200a) || u == 0x2028 || u == 0x2029 || u == 0x202f || u == 0x205f || u
        == 0x3000
}

/// Whether `c` is whitespace, as `is_space` says.
fn is_space_char(c: char) -> (r: bool)
    ensures
        r == is_space(c),
{
    let u = c as u32;
    u == 0x20 || (0x09 <= u && u <= 0x0d) || u == 0x85 || u == 0xa0 || u == 0x1680 || (0x2000
        <= u && u <= 0x200a) || u == 0x2028 || u == 0x2029 || u == 0x202f || u == 0x205f || u
        == 0x3000
}

/// The directive keyword.
pub open spec fn include_keyword() -> Seq<char> {
    seq!['#', 'i', 'n', 'c', 'l', 'u', 'd', 'e']
}

/// The position of the first non-whitespace character of `line` at or after
/// `j`, or the line's end.
pub open spec fn skip_spaces(line: Seq<char>, j: int) -> int
    decreases line.len() - j,
    when 0 <= j <= line.len()
{
    if j < line.len() && is_space(line[j]) {
        skip_spaces(line, j + 1)
    } else {
        j
    }
}

/// The position of the last `"` of `line` before `upto`, or `-1`.
pub open spec fn last_quote(line: Seq<char>, upto: int) -> int
    decreases upto,
    when upto <= line.len()
{
    if upto <= 0 {
        -1
    } else if line[upto - 1] == '"' {
        upto - 1
    } else {
        last_quote(line, upto - 1)
    }
}

/// Whether a double-quoted include directive begins at position `i` of
/// `line`: the keyword, a whitespace run, an opening quote, and a closing
/// quote somewhere after it.
pub open spec fn directive_at(line: Seq<char>, i: int) -> bool {
    &&& 0 <= i
    &&& i + 8 <= line.len()
    &&& line.subrange(i, i + 8) == include_keyword()
    &&& ({
        let j = skip_spaces(line, i + 8);
        &&& j < line.len()
        &&& line[j] == '"'
        &&& exists|k: int| j < k < line.len() && line[k] == '"'
    })
}

/// The target of the directive that begins at position `i` of `line`: the
/// characters between the opening quote and the last quote of the line.
pub open spec fn target_at(line: Seq<char>, i: int) -> Seq<char> {
    let j = skip_spaces(line, i + 8);
    let k = last_quote(line, line.len() as int);
    line.subrange(j + 1, k)
}

/// The position of the first directive of `line` at or after `i`, if any.
pub open spec fn first_directive_from(line: Seq<char>, i: int) -> Option<int>
    decreases line.len() - i,
    when 0 <= i <= line.len()
{
    if i >= line.len() {
        None
    } else if directive_at(line, i) {
        Some(i)
    } else {
        first_directive_from(line, i + 1)
    }
}

/// The include target of `line`, when it holds a directive.
pub open spec fn line_include(line: Seq<char>) -> Option<Seq<char>> {
    match first_directive_from(line, 0) {
        Some(i) => Some(target_at(line, i)),
        None => None,
    }
}

/// The position of the first `\n` of `s` at or after `from`, or the end.
pub open spec fn first_newline(s: Seq<char>, from: int) -> int
    decreases s.len() - from,
    when 0 <= from <= s.len()
{
    if from >= s.len() {
        s.len() as int
    } else if s[from] == '\n' {
        from
    } else {
        first_newline(s, from + 1)
    }
}

/// A line with a trailing carriage return has it removed.
pub open spec fn strip_cr(l: Seq<char>) -> Seq<char> {
    if l.len() > 0 && l.last() == '\r' {
        l.drop_last()
    } else {
        l
    }
}

/// The lines of `s`: split at `\n`, each terminated piece with one
/// trailing `\r` removed; a final unterminated piece keeps its characters,
/// and a final empty piece after the last `\n` is not a line.
pub open spec fn spec_lines(s: Seq<char>) -> Seq<Seq<char>>
    decreases s.len(),
{
    if s.len() == 0 {
        Seq::<Seq<char>>::empty()
    } else {
        proof {
            lemma_first_newline_bounds(s, 0);
        }
        let n = first_newline(s, 0);
        if n == s.len() {
            seq![s.subrange(0, n)]
        } else {
            seq![strip_cr(s.subrange(0, n))] + spec_lines(s.subrange(n + 1, s.len() as int))
        }
    }
}

/// `first_newline` stays within the bounds of `s`.
pub proof fn lemma_first_newline_bounds(s: Seq<char>, from: int)
    requires
        0 <= from <= s.len(),
    ensures
        from <= first_newline(s, from) <= s.len(),
    decreases s.len() - from,
{
    if from < s.len() && s[from] != '\n' {
        lemma_first_newline_bounds(s, from + 1);
    }
}

/// The include targets of the given lines, in order, one per line that
/// holds a directive.
pub open spec fn includes_of_lines(ls: Seq<Seq<char>>) -> Seq<Seq<char>>
    decreases ls.len(),
{
    if ls.len() == 0 {
        Seq::<Seq<char>>::empty()
    } else {
        match line_include(ls[0]) {
            Some(t) => seq![t] + includes_of_lines(ls.drop_first()),
            None => includes_of_lines(ls.drop_first()),
        }
    }
}

/// The include targets of `content`, line by line, top to bottom.
pub open spec fn spec_includes(content: Seq<char>) -> Seq<Seq<char>> {
    includes_of_lines(spec_lines(content))
}

/// `skip_spaces` lands on `e` when everything before `e` (from `lo`) is
/// whitespace and `e` is the end or not whitespace.
proof fn lemma_skip_spaces_at(line: Seq<char>, lo: int, e: int)
    requires
        0 <= lo <= e <= line.len(),
        forall|j: int| lo <= j < e ==> is_space(line[j]),
        e == line.len() || !is_space(line[e]),
    ensures
        skip_spaces(line, lo) == e,
    decreases e - lo,
{
    if lo < e {
        lemma_skip_spaces_at(line, lo + 1, e);
    }
}

/// `last_quote` finds `k` when `line[k]` is a quote and nothing after it is.
proof fn lemma_last_quote_at(line: Seq<char>, upto: int, k: int)
    requires
        0 <= k < upto <= line.len(),
        line[k] == '"',
        forall|j: int| k < j < upto ==> line[j] != '"',
    ensures
        last_quote(line, upto) == k,
    decreases upto,
{
    if k < upto - 1 {
        lemma_last_quote_at(line, upto - 1, k);
    }
}

/// `first_directive_from` finds `i` when a directive begins there and none
/// begins earlier (from `lo`).
proof fn lemma_first_directive_some(line: Seq<char>, lo: int, i: int)
    requires
        0 <= lo <= i,
        directive_at(line, i),
        forall|x: int| lo <= x < i ==> !directive_at(line, x),
    ensures
        first_directive_from(line, lo) == Some(i),
    decreases i - lo,
{
    if lo < i {
        lemma_first_directive_some(line, lo + 1, i);
    }
}

/// `first_directive_from` finds nothing when no directive begins at or
/// after `lo`.
proof fn lemma_first_directive_none(line: Seq<char>, lo: int)
    requires
        0 <= lo <= line.len(),
        forall|x: int| lo <= x < line.len() ==> !directive_at(line, x),
    ensures
        first_directive_from(line, lo) is None,
    decreases line.len() - lo,
{
    if lo < line.len() {
        lemma_first_directive_none(line, lo + 1);
    }
}

/// `skip_spaces` stays within the bounds of `line`.
proof fn lemma_skip_spaces_bounds(line: Seq<char>, lo: int)
    requires
        0 <= lo <= line.len(),
    ensures
        lo <= skip_spaces(line, lo) <= line.len(),
    decreases line.len() - lo,
{
    if lo < line.len() && is_space(line[lo]) {
        lemma_skip_spaces_bounds(line, lo + 1);
    }
}

/// A line without a double quote holds no include directive: an
/// angle-bracket include, in particular, contributes nothing.
pub proof fn lemma_line_without_quotes_has_no_include(line: Seq<char>)
    requires
        forall|j: int| 0 <= j < line.len() ==> line[j] != '"',
    ensures
        line_include(line) is None,
{
    assert forall|i: int| 0 <= i < line.len() implies !directive_at(line, i) by {
        if directive_at(line, i) {
            lemma_skip_spaces_bounds(line, i + 8);
            let j = skip_spaces(line, i + 8);
            assert(line[j] == '"');
        }
    }
    lemma_first_directive_none(line, 0);
}

/// `first_newline` lands on `e` when nothing before `e` (from `lo`) is a
/// newline and `e` is the end or a newline.
proof fn lemma_first_newline_at(s: Seq<char>, lo: int, e: int)
    requires
        0 <= lo <= e <= s.len(),
        forall|j: int| lo <= j < e ==> s[j] != '\n',
        e == s.len() || s[e] == '\n',
    ensures
        first_newline(s, lo) == e,
    decreases e - lo,
{
    if lo < e {
        lemma_first_newline_at(s, lo + 1, e);
    }
}

/// Scan one line, given as the characters of `cs` from `ls` to `le`: the
/// bounds of the first directive's target, as positions in `cs`.
fn scan_line(cs: &Vec<char>, ls: usize, le: usize) -> (r: Option<(usize, usize)>)
    requires
        ls <= le <= cs.len(),
    ensures
        ({
            let line = cs@.subrange(ls as int, le as int);
            match r {
                Some(t) => {
                    &&& ls < t.0 <= t.1 <= le
                    &&& line_include(line) == Some(cs@.subrange(t.0 as int, t.1 as int))
                },
                None => line_include(line) is None,
            }
        }),
{
    let ghost line = cs@.subrange(ls as int, le as int);
    let mut lastq: usize = 0;
    let mut has_q: bool = false;
    let mut q: usize = ls;
    while q < le
        invariant
            ls <= q <= le <= cs.len(),
            has_q ==> ls <= lastq < q && cs@[lastq as int] == '"',
            has_q ==> forall|j: int| lastq < j < q ==> cs@[j] != '"',
            !has_q ==> forall|j: int| ls <= j < q ==> cs@[j] != '"',
        decreases le - q,
    {
        if cs[q] == '"' {
            lastq = q;
            has_q = true;
        }
        q = q + 1;
    }
    let mut i: usize = ls;
    while i < le
        invariant
            ls <= i <= le <= cs.len(),
            line == cs@.subrange(ls as int, le as int),
            has_q ==> ls <= lastq < le && cs@[lastq as int] == '"',
            has_q ==> forall|j: int| lastq < j < le ==> cs@[j] != '"',
            !has_q ==> forall|j: int| ls <= j < le ==> cs@[j] != '"',
            forall|x: int| 0 <= x < i - ls ==> !directive_at(line, x),
        decreases le - i,
    {
        if le - i >= 8 {
            let kw = cs[i] == '#' && cs[i + 1] == 'i' && cs[i + 2] == 'n' && cs[i + 3] == 'c'
                && cs[i + 4] == 'l' && cs[i + 5] == 'u' && cs[i + 6] == 'd' && cs[i + 7] == 'e';
            if kw {
                let mut j = i + 8;
                while j < le && is_space_char(cs[j])
                    invariant
                        i + 8 <= j <= le <= cs.len(),
                        forall|x: int| i + 8 <= x < j ==> is_space(cs@[x]),
                    decreases le - j,
                {
                    j = j + 1;
                }
                proof {
                    lemma_skip_spaces_at(line, i - ls + 8, j - ls);
                }
                if j < le && cs[j] == '"' && lastq > j {
                    proof {
                        lemma_last_quote_at(line, le - ls, lastq - ls);
                        assert(directive_at(line, i - ls)) by {
                            assert(line.subrange(i - ls, i - ls + 8) =~= include_keyword());
                            assert(line[lastq - ls] == '"');
                        }
                        lemma_first_directive_some(line, 0, i - ls);
                        assert(target_at(line, i - ls) =~= cs@.subrange(
                            j + 1,
                            lastq as int,
                        ));
                    }
                    return Some((j + 1, lastq));
                }
                proof {
                    assert(!directive_at(line, i - ls)) by {
                        if directive_at(line, i - ls) {
                            let js = skip_spaces(line, i - ls + 8);
                            assert(js == j - ls);
                            if j < le && cs@[j as int] == '"' {
                                let k = choose|k: int|
                                    js < k < line.len() && line[k] == '"';
                                assert(cs@[ls + k] == '"');
                                assert(has_q);
                                assert(ls + k <= lastq);
                            }
                        }
                    }
                }
            } else {
                proof {
                    assert(!directive_at(line, i - ls)) by {
                        if line.subrange(i - ls, i - ls + 8) == include_keyword() {
                            assert(line[i - ls + 0] == '#');
                            assert(line[i - ls + 1] == 'i');
                            assert(line[i - ls + 2] == 'n');
                            assert(line[i - ls + 3] == 'c');
                            assert(line[i - ls + 4] == 'l');
                            assert(line[i - ls + 5] == 'u');
                            assert(line[i - ls + 6] == 'd');
                            assert(line[i - ls + 7] == 'e');
                        }
                    }
                }
            }
        } else {
            proof {
                assert(!directive_at(line, i - ls));
            }
        }
        i = i + 1;
    }
    proof {
        lemma_first_directive_none(line, 0);
    }
    None
}

/// The targets of the double-quoted include directives of `content`, in
/// source order, top to bottom, one per line at most, as `spec_includes`
/// says; angle-bracket includes contribute nothing.
pub fn get_all_includes(content: &str) -> (includes: Vec<String>)
    ensures
        includes.deep_view() == spec_includes(content@),
{
    let total: usize = content.unicode_len();
    let mut cs: Vec<char> = Vec::new();
    let mut ci: usize = 0;
    while ci < total
        invariant
            ci <= total,
            total == content@.len(),
            cs@ == content@.subrange(0, ci as int),
        decreases total - ci,
    {
        let c = content.get_char(ci);
        cs.push(c);
        proof {
            assert(cs@ =~= content@.subrange(0, ci + 1));
        }
        ci = ci + 1;
    }
    proof {
        assert(cs@ =~= content@);
    }
    let mut includes: Vec<String> = Vec::new();
    let mut pos: usize = 0;
    while pos < total
        invariant
            pos <= total,
            total == content@.len(),
            cs@ == content@,
            cs.len() == total,
            spec_includes(content@) == includes.deep_view() + spec_includes(
                content@.subrange(pos as int, total as int),
            ),
        decreases total - pos,
    {
        let ghost suffix = content@.subrange(pos as int, total as int);
        let mut e: usize = pos;
        while e < total && cs[e] != '\n'
            invariant
                pos <= e <= total,
                cs.len() == total,
                cs@ == content@,
                forall|j: int| pos <= j < e ==> cs@[j] != '\n',
            decreases total - e,
        {
            e = e + 1;
        }
        let mut le: usize = e;
        if e < total && le > pos && cs[le - 1] == '\r' {
            le = le - 1;
        }
        let ghost nn = e - pos;
        proof {
            lemma_first_newline_at(suffix, 0, nn as int);
            assert(suffix.subrange(0, nn as int) =~= content@.subrange(pos as int, e as int));
            if e < total {
                assert(strip_cr(suffix.subrange(0, nn as int)) =~= content@.subrange(
                    pos as int,
                    le as int,
                ));
            }
        }
        let ghost line = content@.subrange(pos as int, le as int);
        let ghost pre = includes.deep_view();
        let r = scan_line(&cs, pos, le);
        match r {
            Some(t) => {
                let target = content.substring_char(t.0, t.1);
                includes.push(target.to_owned());
                proof {
                    assert(includes.deep_view() =~= pre.push(
                        content@.subrange(t.0 as int, t.1 as int),
                    ));
                }
            },
            None => {},
        }
        let next: usize = if e < total {
            e + 1
        } else {
            total
        };
        proof {
            let rest = content@.subrange(next as int, total as int);
            let lns = spec_lines(suffix);
            if e < total {
                assert(suffix.subrange(nn + 1, suffix.len() as int) =~= rest);
                assert(lns == seq![line] + spec_lines(rest));
            } else {
                assert(rest =~= Seq::<char>::empty());
                assert(spec_lines(rest) == Seq::<Seq<char>>::empty());
                assert(lns =~= seq![line] + spec_lines(rest));
            }
            assert(lns[0] == line);
            assert(lns.drop_first() =~= spec_lines(rest));
            match line_include(line) {
                Some(tgt) => {
                    assert(includes_of_lines(lns) == seq![tgt] + includes_of_lines(
                        spec_lines(rest),
                    ));
                    assert(includes.deep_view() =~= pre.push(tgt));
                    assert(pre + (seq![tgt] + spec_includes(rest)) =~= includes.deep_view()
                        + spec_includes(rest));
                },
                None => {
                    assert(includes_of_lines(lns) == includes_of_lines(spec_lines(rest)));
                },
            }
        }
        pos = next;
    }
    proof {
        assert(content@.subrange(total as int, total as int) =~= Seq::<char>::empty());
        assert(spec_includes(Seq::<char>::empty()) =~= Seq::<Seq<char>>::empty());
        assert(includes.deep_view() =~= includes.deep_view() + Seq::<Seq<char>>::empty());
    }
    includes
}

} // verus!
