//! An automatic build-and-run pipeline for single-entry C projects: it
//! discovers a main file's local dependency tree from `#include "..."`
//! directives, plans one compiler invocation per discovered unit in
//! dependency order, and sequences the run of the produced executable.
//!
//! The pipeline itself performs no reads, writes or process spawns: it is
//! driven from outside. [`Execution`] hands out the invocations to perform,
//! one at a time, and is told each outcome; it decides what follows and
//! which error, if any, the whole cycle ends with.

use vstd::prelude::*;

pub mod act;
pub mod config;
pub mod error;
pub mod utils;

pub use error::MorfoError;
pub use error::MorfoResult;

use crate::act::ACT;
use crate::config::Config;
use crate::utils::file_name;
use crate::utils::stem_of;

verus! {

broadcast use vstd::std_specs::vec::group_vec_axioms;

/// One subprocess invocation: a program and its arguments.
#[derive(Debug, PartialEq)]
pub struct Cmd {
    pub program: String,
    pub args: Vec<String>,
}

/// The given parts joined by single spaces.
pub open spec fn join_spaces(parts: Seq<Seq<char>>) -> Seq<char>
    decreases parts.len(),
{
    if parts.len() == 0 {
        Seq::<char>::empty()
    } else if parts.len() == 1 {
        parts[0]
    } else {
        join_spaces(parts.drop_last()) + seq![' '] + parts.last()
    }
}

/// `base` and `file` joined by a path separator; a `base` that is empty or
/// already ends in `/` gets no separator added.
pub open spec fn spec_join(base: Seq<char>, file: Seq<char>) -> Seq<char> {
    if base.len() == 0 {
        file
    } else if base.last() == '/' {
        base + file
    } else {
        base + seq!['/'] + file
    }
}

/// The artifact path of the unit named `name`: its stem under the build
/// output directory.
pub open spec fn artifact_path(build_dir: Seq<char>, name: Seq<char>) -> Seq<char> {
    spec_join(build_dir, stem_of(name))
}

/// The compiler arguments for the unit named `name`: the configured flags
/// joined into one argument (when there are any), the unit's path, `-o`,
/// and the unit's artifact path.
pub open spec fn compile_args(name: Seq<char>, c: Config) -> Seq<Seq<char>> {
    let tail = seq![name, seq!['-', 'o'], artifact_path(c.spec_build_dir(), name)];
    if c.spec_cflags().len() == 0 {
        tail
    } else {
        seq![join_spaces(c.spec_cflags())] + tail
    }
}

/// The unit names of the tree rooted at `a` in compile order: every
/// dependency subtree first, left to right, then the unit itself.
pub open spec fn plan_names(a: ACT) -> Seq<Seq<char>>
    decreases a, 0int,
{
    deps_plan_names(a.dependencies@) + seq![a.name@]
}

/// The unit names of the given subtrees in compile order.
pub open spec fn deps_plan_names(ds: Seq<ACT>) -> Seq<Seq<char>>
    decreases ds, 1int,
{
    if ds.len() == 0 {
        Seq::<Seq<char>>::empty()
    } else {
        plan_names(ds[0]) + deps_plan_names(ds.drop_first())
    }
}

/// Whether `plan` holds one compiler invocation per name of `names`, in
/// order, each formed as `compile_args` says.
pub open spec fn is_compile_plan(plan: Seq<Cmd>, names: Seq<Seq<char>>, c: Config) -> bool {
    &&& plan.len() == names.len()
    &&& forall|i: int|
        0 <= i < names.len() ==> (#[trigger] plan[i]).program@ == c.spec_cc()
            && plan[i].args.deep_view() == compile_args(names[i], c)
}

/// Push `s`, tracking the deep view.
fn push_string(v: &mut Vec<String>, s: String)
    ensures
        final(v).deep_view() == old(v).deep_view().push(s@),
{
    let ghost pre = v@;
    let ghost predv = v.deep_view();
    let ghost sv = s@;
    v.push(s);
    proof {
        assert(pre.len() == predv.len());
        assert forall|k: int| 0 <= k < v@.len() implies v.deep_view()[k] == predv.push(sv)[k] by {
            assert(v.deep_view()[k] == v@[k]@);
            if k < pre.len() {
                assert(v@[k] == pre[k]);
                assert(predv[k] == pre[k]@);
            } else {
                assert(v@[k]@ == sv);
            }
        }
        assert(v.deep_view() =~= predv.push(sv));
    }
}

/// The given flags joined into one argument by single spaces.
fn join_flags(flags: &Vec<String>) -> (r: String)
    requires
        flags.len() > 0,
    ensures
        r@ == join_spaces(flags.deep_view()),
{
    let mut out = flags[0].clone();
    let n: usize = flags.len();
    let mut i: usize = 1;
    proof {
        assert(flags.deep_view().subrange(0, 1)[0] == flags@[0]@);
    }
    while i < n
        invariant
            1 <= i <= n,
            n == flags.len(),
            out@ == join_spaces(flags.deep_view().subrange(0, i as int)),
        decreases n - i,
    {
        let ghost prefix = flags.deep_view().subrange(0, i as int);
        out.append(" ");
        out.append(flags[i].as_str());
        proof {
            reveal_strlit(" ");
            assert((" ")@ =~= seq![' ']);
            let extended = flags.deep_view().subrange(0, i + 1);
            assert(extended.drop_last() =~= prefix);
            assert(extended.last() == flags@[i as int]@);
            assert(out@ == join_spaces(extended));
        }
        i = i + 1;
    }
    proof {
        assert(flags.deep_view().subrange(0, n as int) =~= flags.deep_view());
    }
    out
}

/// `base` and `file` joined by a path separator, as `spec_join` says.
pub fn join_path(base: &str, file: &str) -> (r: String)
    ensures
        r@ == spec_join(base@, file@),
{
    let n: usize = base.unicode_len();
    if n == 0 {
        return file.to_owned();
    }
    let mut out = base.to_owned();
    if base.get_char(n - 1) != '/' {
        out.append("/");
        proof {
            reveal_strlit("/");
            assert(("/")@ =~= seq!['/']);
        }
    }
    out.append(file);
    proof {
        assert(out@ =~= spec_join(base@, file@));
    }
    out
}

/// The compiler invocation for the unit named `name`: the configured
/// command with the arguments that `compile_args` says.
pub fn compile_command(name: &String, config: &Config) -> (c: Cmd)
    ensures
        c.program@ == config.spec_cc(),
        c.args.deep_view() == compile_args(name@, *config),
{
    let cflags = config.get_cflags();
    let mut args: Vec<String> = Vec::new();
    proof {
        assert(args.deep_view() =~= Seq::<Seq<char>>::empty());
    }
    if cflags.len() != 0 {
        push_string(&mut args, join_flags(&cflags));
    }
    push_string(&mut args, name.clone());
    push_string(&mut args, "-o".to_owned());
    let bd = config.get_build_dir();
    let stem = file_name(name.as_str());
    push_string(&mut args, join_path(bd.as_str(), stem.as_str()));
    proof {
        reveal_strlit("-o");
        assert(("-o")@ =~= seq!['-', 'o']);
        assert(args.deep_view() =~= compile_args(name@, *config));
    }
    Cmd { program: config.get_cc().clone(), args }
}

/// Append the unit names of the tree rooted at `a` in compile order.
fn push_plan_names(a: &ACT, out: &mut Vec<String>)
    ensures
        final(out).deep_view() == old(out).deep_view() + plan_names(*a),
    decreases *a,
{
    let n: usize = a.dependencies.len();
    let mut i: usize = 0;
    while i < n
        invariant
            i <= n,
            n == a.dependencies.len(),
            out.deep_view() == old(out).deep_view() + deps_plan_names(
                a.dependencies@.subrange(0, i as int),
            ),
        decreases n - i,
    {
        push_plan_names(&a.dependencies[i], out);
        proof {
            lemma_deps_plan_names_snoc(a.dependencies@.subrange(0, i + 1));
            assert(a.dependencies@.subrange(0, i + 1).drop_last() =~= a.dependencies@.subrange(
                0,
                i as int,
            ));
            assert(out.deep_view() =~= old(out).deep_view() + deps_plan_names(
                a.dependencies@.subrange(0, i + 1),
            ));
        }
        i = i + 1;
    }
    push_string(out, a.name.clone());
    proof {
        assert(a.dependencies@.subrange(0, n as int) =~= a.dependencies@);
        assert(out.deep_view() =~= old(out).deep_view() + plan_names(*a));
    }
}

/// The names of a sequence of subtrees end with the names of the last one.
proof fn lemma_deps_plan_names_snoc(ds: Seq<ACT>)
    requires
        ds.len() > 0,
    ensures
        deps_plan_names(ds) == deps_plan_names(ds.drop_last()) + plan_names(ds.last()),
    decreases ds.len(),
{
    if ds.len() == 1 {
        assert(deps_plan_names(ds.drop_first()) =~= Seq::<Seq<char>>::empty());
        assert(deps_plan_names(ds.drop_last()) =~= Seq::<Seq<char>>::empty());
        assert(deps_plan_names(ds) =~= plan_names(ds[0]) + deps_plan_names(ds.drop_first()));
        assert(deps_plan_names(ds) =~= deps_plan_names(ds.drop_last()) + plan_names(ds.last()));
    } else {
        lemma_deps_plan_names_snoc(ds.drop_first());
        assert(ds.drop_first().drop_last() =~= ds.drop_last().drop_first());
        assert(ds.drop_first().last() == ds.last());
        assert(ds.drop_last()[0] == ds[0]);
        assert(deps_plan_names(ds) =~= deps_plan_names(ds.drop_last()) + plan_names(ds.last()));
    }
}

/// The compiler invocations of the tree rooted at `act`, in compile order:
/// one per unit, dependencies before dependents, first to fail aborting the
/// rest by the session's rules.
pub fn compile_plan(act: &ACT, config: &Config) -> (plan: Vec<Cmd>)
    ensures
        is_compile_plan(plan@, plan_names(*act), *config),
{
    let mut names: Vec<String> = Vec::new();
    push_plan_names(act, &mut names);
    proof {
        assert(names.deep_view() =~= plan_names(*act));
    }
    let n: usize = names.len();
    let mut plan: Vec<Cmd> = Vec::new();
    let mut i: usize = 0;
    while i < n
        invariant
            i <= n,
            n == names.len(),
            names.deep_view() == plan_names(*act),
            plan@.len() == i,
            forall|j: int|
                0 <= j < i ==> (#[trigger] plan@[j]).program@ == config.spec_cc()
                    && plan@[j].args.deep_view() == compile_args(names.deep_view()[j], *config),
        decreases n - i,
    {
        plan.push(compile_command(&names[i], config));
        i = i + 1;
    }
    plan
}

/// The run invocation for the tree rooted at `act`: its artifact path as
/// the program, with the caller's program arguments.
pub fn run_command(act: &ACT, config: &Config, prog_args: Vec<String>) -> (c: Cmd)
    ensures
        c.program@ == artifact_path(config.spec_build_dir(), act.name@),
        c.args.deep_view() == prog_args.deep_view(),
{
    let bd = config.get_build_dir();
    let stem = file_name(act.name.as_str());
    Cmd { program: join_path(bd.as_str(), stem.as_str()), args: prog_args }
}

/// `s` with every double quote removed.
pub open spec fn without_quotes(s: Seq<char>) -> Seq<char> {
    s.filter(|c: char| c != '"')
}

/// `s` with every double quote removed, as `without_quotes` says.
fn strip_quotes(s: &str) -> (r: String)
    ensures
        r@ == without_quotes(s@),
{
    let n: usize = s.unicode_len();
    let mut out = String::new();
    let mut i: usize = 0;
    while i < n
        invariant
            i <= n,
            n == s@.len(),
            out@ == without_quotes(s@.subrange(0, i as int)),
        decreases n - i,
    {
        let ghost prefix = s@.subrange(0, i as int);
        if s.get_char(i) != '"' {
            let piece = s.substring_char(i, i + 1);
            out.append(piece);
        }
        proof {
            reveal(Seq::filter);
            let extended = s@.subrange(0, i + 1);
            assert(extended.drop_last() =~= prefix);
            assert(extended.last() == s@[i as int]);
            if s@[i as int] != '"' {
                assert(s@.subrange(i as int, i + 1) =~= seq![s@[i as int]]);
                assert(out@ =~= without_quotes(prefix).push(s@[i as int]));
            }
            assert(out@ == without_quotes(extended));
        }
        i = i + 1;
    }
    proof {
        assert(s@.subrange(0, n as int) =~= s@);
    }
    out
}

/// The diagnostic echo of an invocation: program and arguments joined by
/// single spaces, with every double quote removed.
pub open spec fn spec_render(program: Seq<char>, args: Seq<Seq<char>>) -> Seq<char> {
    without_quotes(join_spaces(seq![program] + args))
}

/// The diagnostic echo of `cmd`, as `spec_render` says.
pub fn render(cmd: &Cmd) -> (r: String)
    ensures
        r@ == spec_render(cmd.program@, cmd.args.deep_view()),
{
    let mut joined = cmd.program.clone();
    let ghost all = seq![cmd.program@] + cmd.args.deep_view();
    let n: usize = cmd.args.len();
    let mut i: usize = 0;
    proof {
        assert(all.subrange(0, 1)[0] == cmd.program@);
        assert(joined@ == join_spaces(all.subrange(0, 1)));
    }
    while i < n
        invariant
            i <= n,
            n == cmd.args.len(),
            all == seq![cmd.program@] + cmd.args.deep_view(),
            joined@ == join_spaces(all.subrange(0, i + 1)),
        decreases n - i,
    {
        let ghost prefix = all.subrange(0, i + 1);
        joined.append(" ");
        joined.append(cmd.args[i].as_str());
        proof {
            reveal_strlit(" ");
            assert((" ")@ =~= seq![' ']);
            let extended = all.subrange(0, i + 2);
            assert(extended.drop_last() =~= prefix);
            assert(extended.last() == cmd.args@[i as int]@);
            assert(joined@ == join_spaces(extended));
        }
        i = i + 1;
    }
    proof {
        assert(all.subrange(0, n + 1) =~= all);
    }
    strip_quotes(joined.as_str())
}

/// What the pipeline should do next.
pub enum Step<'a> {
    /// Run this compiler invocation and report how it exited.
    Compile(&'a Cmd),
    /// Check that the run invocation's program exists, run it, and report
    /// the outcome.
    Run(&'a Cmd),
    /// Nothing is left to do; the outcome is settled.
    Finished,
}

/// One build-and-run cycle, driven from outside: it hands out the planned
/// compiler invocations in dependency order, then the run invocation, and
/// records the first reported failure, which settles the outcome.
///
/// The run invocation is only ever handed out once every compiler
/// invocation has been reported to exit with code zero: a compilation
/// failure is the error the cycle surfaces, and the run phase never starts.
pub struct Execution {
    plan: Vec<Cmd>,
    run: Cmd,
    next: usize,
    ran: bool,
    failed: Option<MorfoError>,
}

impl Execution {
    /// The planned compiler invocations, in dependency order.
    pub closed spec fn spec_plan(&self) -> Seq<Cmd> {
        self.plan@
    }

    /// The planned run invocation.
    pub closed spec fn spec_run(&self) -> Cmd {
        self.run
    }

    /// How many compiler invocations have been reported successful.
    pub closed spec fn spec_next(&self) -> int {
        self.next as int
    }

    /// Whether the run phase has completed.
    pub closed spec fn spec_ran(&self) -> bool {
        self.ran
    }

    /// The first reported failure, if any.
    pub closed spec fn spec_failed(&self) -> Option<MorfoError> {
        self.failed
    }

    /// Whether the outcome is settled: something failed, or the run phase
    /// completed.
    pub open spec fn is_finished(&self) -> bool {
        self.spec_failed() is Some || self.spec_ran()
    }

    /// A session is well formed when it never counts more successes than
    /// there are planned invocations.
    pub open spec fn wf(&self) -> bool {
        0 <= self.spec_next() <= self.spec_plan().len()
    }

    /// Plan one build-and-run cycle for the tree rooted at `act`: one
    /// compiler invocation per unit, dependencies first, then the run of
    /// the artifact with the caller's program arguments.
    pub fn new(act: &ACT, config: &Config, prog_args: Vec<String>) -> (s: Self)
        ensures
            s.wf(),
            is_compile_plan(s.spec_plan(), plan_names(*act), *config),
            s.spec_run().program@ == artifact_path(config.spec_build_dir(), act.name@),
            s.spec_run().args.deep_view() == prog_args.deep_view(),
            s.spec_next() == 0,
            !s.spec_ran(),
            s.spec_failed() is None,
    {
        let plan = compile_plan(act, config);
        let run = run_command(act, config, prog_args);
        Execution { plan, run, next: 0, ran: false, failed: None }
    }

    /// What to do next: the first unreported compiler invocation; after
    /// all succeeded, the run invocation; after a failure or a completed
    /// run, nothing.
    pub fn next_step<'a>(&'a self) -> (r: Step<'a>)
        requires
            self.wf(),
        ensures
            match r {
                Step::Compile(c) => !self.is_finished() && self.spec_next()
                    < self.spec_plan().len() && *c == self.spec_plan()[self.spec_next()],
                Step::Run(c) => !self.is_finished() && self.spec_next()
                    == self.spec_plan().len() && *c == self.spec_run(),
                Step::Finished => self.is_finished(),
            },
    {
        if self.failed.is_some() || self.ran {
            Step::Finished
        } else if self.next < self.plan.len() {
            Step::Compile(&self.plan[self.next])
        } else {
            Step::Run(&self.run)
        }
    }

    /// Record how the compiler invocation handed out last exited: code
    /// zero counts it successful; any other code, or none (the process
    /// died without one), settles the outcome as a compilation failure
    /// carrying exactly that exit.
    pub fn on_compile_exit(&mut self, code: Option<i32>)
        requires
            old(self).wf(),
            !old(self).is_finished(),
            old(self).spec_next() < old(self).spec_plan().len(),
        ensures
            final(self).wf(),
            final(self).spec_plan() == old(self).spec_plan(),
            final(self).spec_run() == old(self).spec_run(),
            final(self).spec_ran() == old(self).spec_ran(),
            code == Some(0i32) ==> final(self).spec_next() == old(self).spec_next() + 1
                && final(self).spec_failed() is None,
            code != Some(0i32) ==> final(self).spec_next() == old(self).spec_next()
                && final(self).spec_failed() == Some(MorfoError::CompilationFailure(code)),
    {
        match code {
            Some(c) => {
                if c == 0 {
                    proof {
                        assert(self.next < self.plan.len());
                    }
                    self.next = self.next + 1;
                } else {
                    self.failed = Some(MorfoError::CompilationFailure(Some(c)));
                }
            },
            None => {
                self.failed = Some(MorfoError::CompilationFailure(None));
            },
        }
    }

    /// Record that the invocation handed out last could not be performed
    /// at all; the carried error settles the outcome.
    pub fn on_io_error(&mut self, err: MorfoError)
        requires
            old(self).wf(),
            !old(self).is_finished(),
        ensures
            final(self).wf(),
            final(self).spec_plan() == old(self).spec_plan(),
            final(self).spec_run() == old(self).spec_run(),
            final(self).spec_ran() == old(self).spec_ran(),
            final(self).spec_next() == old(self).spec_next(),
            final(self).spec_failed() == Some(err),
    {
        self.failed = Some(err);
    }

    /// Record that the run invocation's program was not found where the
    /// build should have put it; the outcome is a missing-executable
    /// error, kept distinct from compilation failures.
    pub fn on_missing_executable(&mut self)
        requires
            old(self).wf(),
            !old(self).is_finished(),
            old(self).spec_next() == old(self).spec_plan().len(),
        ensures
            final(self).wf(),
            final(self).spec_plan() == old(self).spec_plan(),
            final(self).spec_run() == old(self).spec_run(),
            final(self).spec_ran() == old(self).spec_ran(),
            final(self).spec_next() == old(self).spec_next(),
            final(self).spec_failed() == Some(MorfoError::MissingExecutable),
    {
        self.failed = Some(MorfoError::MissingExecutable);
    }

    /// Record that the run invocation completed and its output was
    /// collected; the outcome is settled as success.
    pub fn on_run_completed(&mut self)
        requires
            old(self).wf(),
            !old(self).is_finished(),
            old(self).spec_next() == old(self).spec_plan().len(),
        ensures
            final(self).wf(),
            final(self).spec_plan() == old(self).spec_plan(),
            final(self).spec_run() == old(self).spec_run(),
            final(self).spec_ran(),
            final(self).spec_next() == old(self).spec_next(),
            final(self).spec_failed() is None,
    {
        self.ran = true;
    }

    /// The failure that settled the outcome, if any: `None` on a session
    /// that finished successfully (or has not finished).
    pub fn outcome(&self) -> (r: Option<&MorfoError>)
        ensures
            match r {
                Some(e) => self.spec_failed() == Some(*e),
                None => self.spec_failed() is None,
            },
    {
        match &self.failed {
            Some(e) => Some(e),
            None => None,
        }
    }
}

} // verus!
