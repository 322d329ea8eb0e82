//! The build configuration: compiler command, compiler flags, build output
//! directory and include directories, together with a builder for it.

use vstd::prelude::*;

verus! {

/// Clone every string of `v`.
fn clone_strings(v: &Vec<String>) -> (r: Vec<String>)
    ensures
        r.deep_view() == v.deep_view(),
{
    let mut out: Vec<String> = Vec::new();
    let n: usize = v.len();
    let mut i: usize = 0;
    while i < n
        invariant
            i <= n,
            n == v.len(),
            out.deep_view() == v.deep_view().subrange(0, i as int),
        decreases n - i,
    {
        let c = v[i].clone();
        let ghost pre = out@;
        let ghost predv = out.deep_view();
        out.push(c);
        proof {
            assert(pre.len() == predv.len());
            assert(predv.len() == i as int);
            assert(out@ == pre.push(c));
            assert forall|k: int| 0 <= k < i + 1 implies out.deep_view()[k] == v.deep_view()[k] by {
                assert(out.deep_view()[k] == out@[k]@);
                if k < i {
                    assert(out@[k] == pre[k]);
                    assert(predv[k] == pre[k]@);
                    assert(predv[k] == v.deep_view()[k]);
                } else {
                    assert(out@[k] == c);
                    assert(c@ == v@[i as int]@);
                    assert(v.deep_view()[k] == v@[k]@);
                }
            }
            assert(out.deep_view().len() == i + 1);
            assert(out.deep_view() =~= v.deep_view().subrange(0, i + 1));
        }
        i = i + 1;
    }
    proof {
        assert(v.deep_view().subrange(0, n as int) =~= v.deep_view());
    }
    out
}

/// The configuration of one build and run cycle, immutable once built.
#[derive(Debug)]
pub struct Config {
    cc: String,
    cflags: Option<Vec<String>>,
    builddir: Option<String>,
    includes: Option<Vec<String>>,
}

impl Config {
    /// The configured compiler command.
    pub closed spec fn spec_cc(&self) -> Seq<char> {
        self.cc@
    }

    /// The configured compiler flags; unset means none.
    pub closed spec fn spec_cflags(&self) -> Seq<Seq<char>> {
        match self.cflags {
            Some(v) => v.deep_view(),
            None => Seq::<Seq<char>>::empty(),
        }
    }

    /// The configured build output directory, `.out` when unset.
    pub closed spec fn spec_build_dir(&self) -> Seq<char> {
        match self.builddir {
            Some(d) => d@,
            None => ".out"@,
        }
    }

    /// The configured include directories; unset means none.
    pub closed spec fn spec_include_dirs(&self) -> Seq<Seq<char>> {
        match self.includes {
            Some(v) => v.deep_view(),
            None => Seq::<Seq<char>>::empty(),
        }
    }

    /// The compiler command.
    pub fn get_cc(&self) -> (r: &String)
        ensures
            r@ == self.spec_cc(),
    {
        &self.cc
    }

    /// The compiler flags, empty when none were configured.
    pub fn get_cflags(&self) -> (r: Vec<String>)
        ensures
            r.deep_view() == self.spec_cflags(),
    {
        match &self.cflags {
            Some(v) => clone_strings(v),
            None => Vec::new(),
        }
    }

    /// The build output directory, `.out` when none was configured.
    pub fn get_build_dir(&self) -> (r: String)
        ensures
            r@ == self.spec_build_dir(),
    {
        match &self.builddir {
            Some(d) => d.clone(),
            None => ".out".to_owned(),
        }
    }

    /// The include directories, empty when none were configured.
    pub fn get_includes(&self) -> (r: Vec<String>)
        ensures
            r.deep_view() == self.spec_include_dirs(),
    {
        match &self.includes {
            Some(v) => clone_strings(v),
            None => Vec::new(),
        }
    }
}

/// A builder for [`Config`].
pub struct ConfigBuilder {
    cc: String,
    cflags: Vec<String>,
    build_dir: Option<String>,
    includes: Vec<String>,
}

impl ConfigBuilder {
    /// The compiler command set so far.
    pub closed spec fn spec_cc(&self) -> Seq<char> {
        self.cc@
    }

    /// The compiler flags added so far.
    pub closed spec fn spec_cflags(&self) -> Seq<Seq<char>> {
        self.cflags.deep_view()
    }

    /// The build output directory set so far, if any.
    pub closed spec fn spec_build_dir(&self) -> Option<Seq<char>> {
        match self.build_dir {
            Some(d) => Some(d@),
            None => None,
        }
    }

    /// The include directories added so far.
    pub closed spec fn spec_include_dirs(&self) -> Seq<Seq<char>> {
        self.includes.deep_view()
    }

    /// Set the compiler command.
    pub fn set_cc(self, cc: &str) -> (r: Self)
        ensures
            r.spec_cc() == cc@,
            r.spec_cflags() == self.spec_cflags(),
            r.spec_build_dir() == self.spec_build_dir(),
            r.spec_include_dirs() == self.spec_include_dirs(),
    {
        let mut this = self;
        this.cc = cc.to_owned();
        this
    }

    /// Add one compiler flag.
    pub fn add_cflag(self, cflag: &str) -> (r: Self)
        ensures
            r.spec_cc() == self.spec_cc(),
            r.spec_cflags() == self.spec_cflags().push(cflag@),
            r.spec_build_dir() == self.spec_build_dir(),
            r.spec_include_dirs() == self.spec_include_dirs(),
    {
        let mut this = self;
        this.cflags.push(cflag.to_owned());
        proof {
            assert(this.cflags.deep_view() =~= self.spec_cflags().push(cflag@));
        }
        this
    }

    /// Set the build output directory.
    pub fn set_build_dir(self, build_dir: &str) -> (r: Self)
        ensures
            r.spec_cc() == self.spec_cc(),
            r.spec_cflags() == self.spec_cflags(),
            r.spec_build_dir() == Some(build_dir@),
            r.spec_include_dirs() == self.spec_include_dirs(),
    {
        let mut this = self;
        this.build_dir = Some(build_dir.to_owned());
        this
    }

    /// Add one include directory.
    pub fn add_include(self, dir: &str) -> (r: Self)
        ensures
            r.spec_cc() == self.spec_cc(),
            r.spec_cflags() == self.spec_cflags(),
            r.spec_build_dir() == self.spec_build_dir(),
            r.spec_include_dirs() == self.spec_include_dirs().push(dir@),
    {
        let mut this = self;
        this.includes.push(dir.to_owned());
        proof {
            assert(this.includes.deep_view() =~= self.spec_include_dirs().push(dir@));
        }
        this
    }

    /// Finish the configuration: everything set so far is kept, and a build
    /// directory left unset falls back to `.out` when read.
    pub fn build(self) -> (r: Config)
        ensures
            r.spec_cc() == self.spec_cc(),
            r.spec_cflags() == self.spec_cflags(),
            r.spec_build_dir() == (match self.spec_build_dir() {
                Some(d) => d,
                None => ".out"@,
            }),
            r.spec_include_dirs() == self.spec_include_dirs(),
    {
        Config {
            cc: self.cc,
            cflags: Some(self.cflags),
            builddir: self.build_dir,
            includes: Some(self.includes),
        }
    }
}

impl Default for ConfigBuilder {
    /// An empty builder: no command, no flags, no build directory, no
    /// include directories.
    fn default() -> (r: Self)
        ensures
            r.spec_cc() == Seq::<char>::empty(),
            r.spec_cflags() == Seq::<Seq<char>>::empty(),
            r.spec_build_dir() is None,
            r.spec_include_dirs() == Seq::<Seq<char>>::empty(),
    {
        let r = ConfigBuilder {
            cc: String::new(),
            cflags: Vec::new(),
            build_dir: None,
            includes: Vec::new(),
        };
        proof {
            assert(r.cflags.deep_view() =~= Seq::<Seq<char>>::empty());
            assert(r.includes.deep_view() =~= Seq::<Seq<char>>::empty());
        }
        r
    }
}

} // verus!
