//! The build-unit tree: one node per discovered source file, with the units
//! it must be compiled and linked with as children.
//!
//! The tree is grown from a main file's local includes: every include target
//! that names a recorded header is resolved to the source file obtained by
//! swapping the header's extension for `c`, and every such source file
//! becomes a child node, built recursively the same way. An include with no
//! matching header, and a header with no matching source, contribute
//! nothing. The recursion is bounded by one more than the number of recorded
//! source files; an acyclic include graph can never reach that depth, so the
//! bound only cuts off cyclic local includes instead of recursing forever.

use vstd::prelude::*;

pub mod builder;
pub mod dirinfo;

use crate::act::builder::get_all_includes;
use crate::act::builder::spec_includes;
use crate::act::dirinfo::DirInfo;
use crate::utils::to_c_extension;
use crate::utils::with_c_extension;

verus! {

/// One source file handed to the builder: its path and its full text.
pub struct SourceFile {
    pub path: String,
    pub text: String,
}

/// The texts of the given files by path; the first entry of a path wins.
pub open spec fn store_map(files: Seq<SourceFile>) -> Map<Seq<char>, Seq<char>>
    decreases files.len(),
{
    if files.len() == 0 {
        Map::<Seq<char>, Seq<char>>::empty()
    } else {
        store_map(files.drop_first()).insert(files[0].path@, files[0].text@)
    }
}

/// The first entry of a path decides its text.
proof fn lemma_store_map_found(files: Seq<SourceFile>, i: int)
    requires
        0 <= i < files.len(),
        forall|j: int| 0 <= j < i ==> files[j].path@ != files[i].path@,
    ensures
        store_map(files).contains_key(files[i].path@),
        store_map(files)[files[i].path@] == files[i].text@,
    decreases files.len(),
{
    if i > 0 {
        lemma_store_map_found(files.drop_first(), i - 1);
    }
}

/// A path on no entry is no key of the store.
proof fn lemma_store_map_absent(files: Seq<SourceFile>, key: Seq<char>)
    requires
        forall|j: int| 0 <= j < files.len() ==> files[j].path@ != key,
    ensures
        !store_map(files).contains_key(key),
    decreases files.len(),
{
    if files.len() > 0 {
        lemma_store_map_absent(files.drop_first(), key);
    }
}

/// The text recorded for `path`: that of its first entry in `files`.
pub fn store_text<'a>(files: &'a Vec<SourceFile>, path: &String) -> (t: &'a String)
    requires
        store_map(files@).contains_key(path@),
    ensures
        t@ == store_map(files@)[path@],
{
    let n: usize = files.len();
    let mut i: usize = 0;
    while i < n
        invariant
            i <= n,
            n == files.len(),
            store_map(files@).contains_key(path@),
            forall|j: int| 0 <= j < i ==> files@[j].path@ != path@,
        decreases n - i,
    {
        if files[i].path == *path {
            proof {
                lemma_store_map_found(files@, i as int);
            }
            return &files[i].text;
        }
        i = i + 1;
    }
    proof {
        lemma_store_map_absent(files@, path@);
    }
    vstd::pervasive::unreached()
}

/// The recorded sources equal to `c`, in recorded order.
pub open spec fn matching_sources(sources: Seq<Seq<char>>, c: Seq<char>) -> Seq<Seq<char>> {
    sources.filter(|s: Seq<char>| s == c)
}

/// The dependency source paths that one include target `t` resolves to:
/// for every recorded header equal to `t`, in order, every recorded source
/// equal to the header with its extension swapped for `c`.
pub open spec fn deps_for_target(
    t: Seq<char>,
    headers: Seq<Seq<char>>,
    sources: Seq<Seq<char>>,
) -> Seq<Seq<char>>
    decreases headers.len(),
{
    if headers.len() == 0 {
        Seq::<Seq<char>>::empty()
    } else {
        deps_for_target(t, headers.drop_last(), sources) + (if headers.last() == t {
            matching_sources(sources, with_c_extension(headers.last()))
        } else {
            Seq::<Seq<char>>::empty()
        })
    }
}

/// The dependency source paths of the include targets `ts`, in order.
pub open spec fn deps_for_targets(
    ts: Seq<Seq<char>>,
    headers: Seq<Seq<char>>,
    sources: Seq<Seq<char>>,
) -> Seq<Seq<char>>
    decreases ts.len(),
{
    if ts.len() == 0 {
        Seq::<Seq<char>>::empty()
    } else {
        deps_for_targets(ts.drop_last(), headers, sources) + deps_for_target(
            ts.last(),
            headers,
            sources,
        )
    }
}

/// An include target that no recorded header equals resolves to no
/// dependency at all: an unresolvable include is no error, the build
/// simply records nothing for it.
pub proof fn lemma_unmatched_target_no_deps(
    t: Seq<char>,
    headers: Seq<Seq<char>>,
    sources: Seq<Seq<char>>,
)
    requires
        forall|i: int| 0 <= i < headers.len() ==> headers[i] != t,
    ensures
        deps_for_target(t, headers, sources) == Seq::<Seq<char>>::empty(),
    decreases headers.len(),
{
    if headers.len() > 0 {
        lemma_unmatched_target_no_deps(t, headers.drop_last(), sources);
        assert(deps_for_target(t, headers, sources) =~= Seq::<Seq<char>>::empty());
    }
}

/// A header-only include resolves to no dependency either: when no
/// recorded source matches the target with its extension swapped for `c`,
/// the build records nothing for it.
pub proof fn lemma_header_without_source_no_deps(
    t: Seq<char>,
    headers: Seq<Seq<char>>,
    sources: Seq<Seq<char>>,
)
    requires
        forall|j: int| 0 <= j < sources.len() ==> sources[j] != with_c_extension(t),
    ensures
        deps_for_target(t, headers, sources) == Seq::<Seq<char>>::empty(),
    decreases headers.len(),
{
    if headers.len() > 0 {
        lemma_header_without_source_no_deps(t, headers.drop_last(), sources);
        if headers.last() == t {
            lemma_no_match_no_sources(sources, with_c_extension(t));
        }
        assert(deps_for_target(t, headers, sources) =~= Seq::<Seq<char>>::empty());
    }
}

/// Filtering for a path that occurs nowhere yields nothing.
proof fn lemma_no_match_no_sources(sources: Seq<Seq<char>>, c: Seq<char>)
    requires
        forall|j: int| 0 <= j < sources.len() ==> sources[j] != c,
    ensures
        matching_sources(sources, c) == Seq::<Seq<char>>::empty(),
    decreases sources.len(),
{
    reveal(Seq::filter);
    if sources.len() > 0 {
        lemma_no_match_no_sources(sources.drop_last(), c);
        assert(matching_sources(sources, c) =~= Seq::<Seq<char>>::empty());
    }
}

/// The dependency source paths of the file at `path`: those of the include
/// targets of its recorded text.
pub open spec fn dep_paths(
    path: Seq<char>,
    headers: Seq<Seq<char>>,
    sources: Seq<Seq<char>>,
    store: Map<Seq<char>, Seq<char>>,
) -> Seq<Seq<char>> {
    deps_for_targets(spec_includes(store[path]), headers, sources)
}

/// Whether `a` is the build unit grown for the file at `path`: it is named
/// by the path, carries no header or linkers, and (while fuel lasts) has one
/// child per resolved dependency path, in order, each grown the same way
/// with one unit of fuel less. At fuel zero the node has no children.
pub open spec fn is_build_of(
    a: ACT,
    path: Seq<char>,
    headers: Seq<Seq<char>>,
    sources: Seq<Seq<char>>,
    store: Map<Seq<char>, Seq<char>>,
    fuel: nat,
) -> bool
    decreases fuel,
{
    &&& a.name@ == path
    &&& a.header is None
    &&& a.linkers@.len() == 0
    &&& if fuel == 0 {
        a.dependencies@.len() == 0
    } else {
        let deps = dep_paths(path, headers, sources, store);
        &&& a.dependencies@.len() == deps.len()
        &&& forall|i: int|
            0 <= i < deps.len() ==> is_build_of(
                #[trigger] a.dependencies@[i],
                deps[i],
                headers,
                sources,
                store,
                (fuel - 1) as nat,
            )
    }
}

/// Whether the units `deps` are the build units grown for the paths `ds`,
/// in order, each with the given fuel.
spec fn deps_match(
    deps: Seq<ACT>,
    ds: Seq<Seq<char>>,
    headers: Seq<Seq<char>>,
    sources: Seq<Seq<char>>,
    store: Map<Seq<char>, Seq<char>>,
    fuel: nat,
) -> bool {
    &&& deps.len() == ds.len()
    &&& forall|i: int|
        0 <= i < ds.len() ==> is_build_of(#[trigger] deps[i], ds[i], headers, sources, store, fuel)
}

/// The recursion bound of the builder: one more than the number of recorded
/// source files, which no acyclic include graph can reach.
pub open spec fn build_fuel(dirinfo: &DirInfo) -> nat {
    dirinfo.c_files@.len() + 1
}

/// One build unit: a source file together with the units it depends on.
#[derive(Debug, PartialEq)]
pub struct ACT {
    pub name: String,
    pub header: Option<String>,
    pub linkers: Vec<String>,
    pub dependencies: Vec<ACT>,
}

impl ACT {
    /// A fresh unit for the named file, with no dependencies yet.
    pub fn new(name: &str) -> (a: Self)
        ensures
            a.name@ == name@,
            a.header is None,
            a.linkers@.len() == 0,
            a.dependencies@.len() == 0,
    {
        Self { name: name.to_owned(), header: None, linkers: Vec::new(), dependencies: Vec::new() }
    }

    /// Grow the build-unit tree rooted at `filepath` from the recorded
    /// headers, sources and file texts, as `is_build_of` says.
    pub fn build(filepath: &String, dirinfo: &DirInfo, files: &Vec<SourceFile>) -> (a: Self)
        requires
            dirinfo.c_files@.len() < usize::MAX,
            store_map(files@).contains_key(filepath@),
            forall|i: int|
                0 <= i < dirinfo.c_files@.len() ==> store_map(files@).contains_key(
                    #[trigger] dirinfo.c_files@[i]@,
                ),
        ensures
            is_build_of(
                a,
                filepath@,
                dirinfo.headers(),
                dirinfo.sources(),
                store_map(files@),
                build_fuel(dirinfo),
            ),
    {
        let fuel: usize = dirinfo.c_files.len() + 1;
        Self::build_rec(filepath, dirinfo, files, fuel)
    }

    /// Grow the tree with an explicit recursion bound.
    fn build_rec(filepath: &String, dirinfo: &DirInfo, files: &Vec<SourceFile>, fuel: usize) -> (a:
        Self)
        requires
            store_map(files@).contains_key(filepath@),
            forall|i: int|
                0 <= i < dirinfo.c_files@.len() ==> store_map(files@).contains_key(
                    #[trigger] dirinfo.c_files@[i]@,
                ),
        ensures
            is_build_of(
                a,
                filepath@,
                dirinfo.headers(),
                dirinfo.sources(),
                store_map(files@),
                fuel as nat,
            ),
        decreases fuel,
    {
        let ghost hs = dirinfo.headers();
        let ghost ss = dirinfo.sources();
        let ghost store = store_map(files@);
        let mut current = ACT::new(filepath.as_str());
        if fuel == 0 {
            return current;
        }
        let text = store_text(files, filepath);
        let includes = get_all_includes(text.as_str());
        let ghost incs = includes.deep_view();
        let nt: usize = includes.len();
        let mut ti: usize = 0;
        while ti < nt
            invariant
                ti <= nt,
                nt == includes.len(),
                fuel >= 1,
                incs == includes.deep_view(),
                hs == dirinfo.headers(),
                ss == dirinfo.sources(),
                store == store_map(files@),
                store.contains_key(filepath@),
                forall|i: int|
                    0 <= i < dirinfo.c_files@.len() ==> store.contains_key(
                        #[trigger] dirinfo.c_files@[i]@,
                    ),
                current.name@ == filepath@,
                current.header is None,
                current.linkers@.len() == 0,
                deps_match(
                    current.dependencies@,
                    deps_for_targets(incs.subrange(0, ti as int), hs, ss),
                    hs,
                    ss,
                    store,
                    (fuel - 1) as nat,
                ),
            decreases nt - ti,
        {
            let ghost base = deps_for_targets(incs.subrange(0, ti as int), hs, ss);
            let nh: usize = dirinfo.header_files.len();
            let mut hi: usize = 0;
            while hi < nh
                invariant
                    hi <= nh,
                    ti < nt,
                    nt == includes.len(),
                    nh == dirinfo.header_files.len(),
                    fuel >= 1,
                    incs == includes.deep_view(),
                    hs == dirinfo.headers(),
                    ss == dirinfo.sources(),
                    store == store_map(files@),
                    store.contains_key(filepath@),
                    forall|i: int|
                        0 <= i < dirinfo.c_files@.len() ==> store.contains_key(
                            #[trigger] dirinfo.c_files@[i]@,
                        ),
                    current.name@ == filepath@,
                    current.header is None,
                    current.linkers@.len() == 0,
                    base == deps_for_targets(incs.subrange(0, ti as int), hs, ss),
                    deps_match(
                        current.dependencies@,
                        base + deps_for_target(incs[ti as int], hs.subrange(0, hi as int), ss),
                        hs,
                        ss,
                        store,
                        (fuel - 1) as nat,
                    ),
                decreases nh - hi,
            {
                let ghost mid = base + deps_for_target(
                    incs[ti as int],
                    hs.subrange(0, hi as int),
                    ss,
                );
                if dirinfo.header_files[hi] == includes[ti] {
                    let c_file = to_c_extension(dirinfo.header_files[hi].as_str());
                    let ns: usize = dirinfo.c_files.len();
                    let mut si: usize = 0;
                    while si < ns
                        invariant
                            si <= ns,
                            ti < nt,
                            hi < nh,
                            nt == includes.len(),
                            nh == dirinfo.header_files.len(),
                            ns == dirinfo.c_files.len(),
                            fuel >= 1,
                            incs == includes.deep_view(),
                            hs == dirinfo.headers(),
                            ss == dirinfo.sources(),
                            store == store_map(files@),
                            store.contains_key(filepath@),
                            forall|i: int|
                                0 <= i < dirinfo.c_files@.len() ==> store.contains_key(
                                    #[trigger] dirinfo.c_files@[i]@,
                                ),
                            current.name@ == filepath@,
                            current.header is None,
                            current.linkers@.len() == 0,
                            c_file@ == with_c_extension(hs[hi as int]),
                            hs[hi as int] == incs[ti as int],
                            mid == base + deps_for_target(
                                incs[ti as int],
                                hs.subrange(0, hi as int),
                                ss,
                            ),
                            deps_match(
                                current.dependencies@,
                                mid + matching_sources(ss.subrange(0, si as int), c_file@),
                                hs,
                                ss,
                                store,
                                (fuel - 1) as nat,
                            ),
                        decreases ns - si,
                    {
                        let ghost sofar = mid + matching_sources(
                            ss.subrange(0, si as int),
                            c_file@,
                        );
                        if dirinfo.c_files[si] == c_file {
                            let child = Self::build_rec(
                                &dirinfo.c_files[si],
                                dirinfo,
                                files,
                                fuel - 1,
                            );
                            current.dependencies.push(child);
                        }
                        proof {
                            reveal(Seq::filter);
                            let pred = |s: Seq<char>| s == c_file@;
                            assert(ss.subrange(0, si + 1).drop_last() =~= ss.subrange(
                                0,
                                si as int,
                            ));
                            assert(ss.subrange(0, si + 1).last() == ss[si as int]);
                            assert(matching_sources(ss.subrange(0, si + 1), c_file@)
                                == if pred(ss[si as int]) {
                                matching_sources(ss.subrange(0, si as int), c_file@).push(
                                    ss[si as int],
                                )
                            } else {
                                matching_sources(ss.subrange(0, si as int), c_file@)
                            });
                            if dirinfo.c_files@[si as int]@ == c_file@ {
                                assert(mid + matching_sources(ss.subrange(0, si + 1), c_file@)
                                    =~= sofar.push(ss[si as int]));
                            } else {
                                assert(mid + matching_sources(ss.subrange(0, si + 1), c_file@)
                                    =~= sofar);
                            }
                        }
                        si = si + 1;
                    }
                    proof {
                        assert(ss.subrange(0, ss.len() as int) =~= ss);
                        assert(hs.subrange(0, hi + 1).drop_last() =~= hs.subrange(0, hi as int));
                        assert(hs.subrange(0, hi + 1).last() == hs[hi as int]);
                        assert(mid + matching_sources(ss, c_file@) =~= base + deps_for_target(
                            incs[ti as int],
                            hs.subrange(0, hi + 1),
                            ss,
                        ));
                    }
                } else {
                    proof {
                        assert(hs.subrange(0, hi + 1).drop_last() =~= hs.subrange(0, hi as int));
                        assert(hs.subrange(0, hi + 1).last() == hs[hi as int]);
                        assert(hs[hi as int] != incs[ti as int]);
                        assert(mid =~= base + deps_for_target(
                            incs[ti as int],
                            hs.subrange(0, hi + 1),
                            ss,
                        ));
                    }
                }
                hi = hi + 1;
            }
            proof {
                assert(hs.subrange(0, hs.len() as int) =~= hs);
                assert(incs.subrange(0, ti + 1).drop_last() =~= incs.subrange(0, ti as int));
                assert(incs.subrange(0, ti + 1).last() == incs[ti as int]);
                assert(base + deps_for_target(incs[ti as int], hs, ss) =~= deps_for_targets(
                    incs.subrange(0, ti + 1),
                    hs,
                    ss,
                ));
            }
            ti = ti + 1;
        }
        proof {
            assert(incs.subrange(0, nt as int) =~= incs);
            assert(incs == spec_includes(store[filepath@]));
        }
        current
    }
}

} // verus!
