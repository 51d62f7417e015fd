//! The build orchestrator: a state machine over an ordered stage registry.
//!
//! Each stage passes through Pending, Discovering/Compiling and Done in
//! turn, strictly sequentially: a compile request for a stage is only ever
//! issued once every earlier stage's artifact is recorded, and any hard
//! failure ends the run with no request issued again. The surrounding
//! program drives the machine: it asks for the next request, performs the
//! compiler invocation, and records what the toolchain reported.

use vstd::prelude::*;
use crate::discovery::{DiscoveryError, SourceFile, clone_path, discover, resolve_in};
use crate::flags::{Profile, build_flags, flag_list};
use crate::fs_tree::{FsNode, PathModel, entries_files, entries_readable};
use crate::stage::{StageDescriptor, StageRoot};
use crate::toolchain::{BuildResult, CompileOutcome, CompileRequest, FailureCause, stage_result};

verus! {

/// The files one root contributes to a stage: none when the root names no
/// directory, the matching files under it otherwise.
pub open spec fn root_files(fs: Seq<FsNode>, root: StageRoot, exts: Seq<Seq<char>>) -> Seq<PathModel> {
    match resolve_in(fs, root.path.deep_view()) {
        None => Seq::empty(),
        Some(es) => entries_files(es, exts, root.recurse, root.path.deep_view()),
    }
}

/// Walking this root meets no unreadable entry (a missing root is not
/// walked at all).
pub open spec fn root_readable_in(fs: Seq<FsNode>, root: StageRoot) -> bool {
    match resolve_in(fs, root.path.deep_view()) {
        None => true,
        Some(es) => entries_readable(es, root.recurse),
    }
}

/// The files a list of roots contributes, concatenated in declaration order.
pub open spec fn roots_files(fs: Seq<FsNode>, roots: Seq<StageRoot>, exts: Seq<Seq<char>>) -> Seq<
    PathModel,
>
    decreases roots.len(),
{
    if roots.len() == 0 {
        Seq::empty()
    } else {
        root_files(fs, roots[0], exts)
            + roots_files(fs, roots.subrange(1, roots.len() as int), exts)
    }
}

/// The first root, in declaration order, whose walk meets an unreadable
/// entry, if any.
pub open spec fn first_unreadable_root(fs: Seq<FsNode>, roots: Seq<StageRoot>) -> Option<StageRoot>
    decreases roots.len(),
{
    if roots.len() == 0 {
        None
    } else if !root_readable_in(fs, roots[0]) {
        Some(roots[0])
    } else {
        first_unreadable_root(fs, roots.subrange(1, roots.len() as int))
    }
}

/// Everything the files of one stage amount to: its roots' contributions,
/// in root-declaration order.
pub open spec fn stage_files(fs: Seq<FsNode>, stage: StageDescriptor) -> Seq<PathModel> {
    roots_files(fs, stage.roots@, stage.extensions.deep_view())
}

/// Appending one root appends its contribution.
proof fn lemma_roots_files_push(
    fs: Seq<FsNode>,
    roots: Seq<StageRoot>,
    root: StageRoot,
    exts: Seq<Seq<char>>,
)
    ensures
        roots_files(fs, roots.push(root), exts)
            == roots_files(fs, roots, exts) + root_files(fs, root, exts),
    decreases roots.len(),
{
    let rn = roots.push(root);
    assert(rn.len() == roots.len() + 1);
    if roots.len() == 0 {
        assert(rn[0] == root);
        assert(rn.subrange(1, rn.len() as int) =~= Seq::<StageRoot>::empty());
        assert(roots_files(fs, rn.subrange(1, rn.len() as int), exts) =~= Seq::<PathModel>::empty());
        assert(roots_files(fs, rn, exts)
            =~= roots_files(fs, roots, exts) + root_files(fs, root, exts));
    } else {
        assert(rn[0] == roots[0]);
        assert(rn.subrange(1, rn.len() as int) =~= roots.subrange(1, roots.len() as int).push(root));
        lemma_roots_files_push(fs, roots.subrange(1, roots.len() as int), root, exts);
        assert(roots_files(fs, rn, exts)
            =~= roots_files(fs, roots, exts) + root_files(fs, root, exts));
    }
}

/// Appending one root to a list with no unreadable root: the appended root
/// decides whether there is one.
proof fn lemma_first_unreadable_push(fs: Seq<FsNode>, roots: Seq<StageRoot>, root: StageRoot)
    requires
        first_unreadable_root(fs, roots) is None,
    ensures
        first_unreadable_root(fs, roots.push(root)) == if root_readable_in(fs, root) {
            None::<StageRoot>
        } else {
            Some(root)
        },
    decreases roots.len(),
{
    let rn = roots.push(root);
    assert(rn.len() == roots.len() + 1);
    if roots.len() == 0 {
        assert(rn[0] == root);
        assert(rn.subrange(1, rn.len() as int) =~= Seq::<StageRoot>::empty());
        assert(first_unreadable_root(fs, rn.subrange(1, rn.len() as int)) is None);
    } else {
        assert(rn[0] == roots[0]);
        assert(root_readable_in(fs, roots[0]));
        assert(rn.subrange(1, rn.len() as int) =~= roots.subrange(1, roots.len() as int).push(root));
        lemma_first_unreadable_push(fs, roots.subrange(1, roots.len() as int), root);
        assert(first_unreadable_root(fs, rn)
            == first_unreadable_root(fs, rn.subrange(1, rn.len() as int)));
    }
}

/// Discovers the files of every root of `stage`, in root-declaration order.
/// The walk of the first unreadable root, if there is one, is the error.
pub fn discover_stage(fs: &Vec<FsNode>, stage: &StageDescriptor) -> (r: Result<
    Vec<SourceFile>,
    FailureCause,
>)
    ensures
        match first_unreadable_root(fs@, stage.roots@) {
            None => r matches Ok(files) && files.deep_view() == stage_files(fs@, *stage),
            Some(bad) => r matches Err(FailureCause::UnreadableNode { root })
                && root.deep_view() == bad.path.deep_view(),
        },
{
    let ghost exts_dv = stage.extensions.deep_view();
    let mut out: Vec<SourceFile> = Vec::new();
    let mut i: usize = 0;
    proof {
        assert(stage.roots@.subrange(0, 0) =~= Seq::<StageRoot>::empty());
    }
    while i < stage.roots.len()
        invariant
            i <= stage.roots@.len(),
            exts_dv == stage.extensions.deep_view(),
            first_unreadable_root(fs@, stage.roots@.subrange(0, i as int)) is None,
            out.deep_view() == roots_files(fs@, stage.roots@.subrange(0, i as int), exts_dv),
        decreases stage.roots@.len() - i,
    {
        let ghost done = stage.roots@.subrange(0, i as int);
        let ghost old_dv = out.deep_view();
        let root = &stage.roots[i];
        match discover(fs, &root.path, &stage.extensions, root.recurse) {
            Ok(mut files) => {
                proof {
                    assert(root_readable_in(fs@, stage.roots@[i as int]));
                    assert(files.deep_view() == root_files(fs@, stage.roots@[i as int], exts_dv));
                }
                let ghost files_dv = files.deep_view();
                out.append(&mut files);
                proof {
                    assert(out.deep_view() =~= old_dv + files_dv);
                    assert(stage.roots@.subrange(0, i + 1) =~= done.push(stage.roots@[i as int]));
                    lemma_roots_files_push(fs@, done, stage.roots@[i as int], exts_dv);
                    lemma_first_unreadable_push(fs@, done, stage.roots@[i as int]);
                }
            },
            Err(DiscoveryError::UnreadableEntry) => {
                proof {
                    assert(!root_readable_in(fs@, stage.roots@[i as int]));
                    assert(stage.roots@.subrange(0, i + 1) =~= done.push(stage.roots@[i as int]));
                    lemma_first_unreadable_push(fs@, done, stage.roots@[i as int]);
                    lemma_first_unreadable_suffix(fs@, stage.roots@, i as int);
                }
                return Err(FailureCause::UnreadableNode { root: clone_path(&root.path) });
            },
        }
        i = i + 1;
    }
    proof {
        assert(stage.roots@.subrange(0, stage.roots@.len() as int) =~= stage.roots@);
    }
    Ok(out)
}

/// When the roots before `k` are readable and root `k` is not, root `k` is
/// the first unreadable root of the whole list.
proof fn lemma_first_unreadable_suffix(fs: Seq<FsNode>, roots: Seq<StageRoot>, k: int)
    requires
        0 <= k < roots.len(),
        first_unreadable_root(fs, roots.subrange(0, k)) is None,
        !root_readable_in(fs, roots[k]),
    ensures
        first_unreadable_root(fs, roots) == Some(roots[k]),
    decreases k,
{
    if k == 0 {
        assert(first_unreadable_root(fs, roots) == Some(roots[0]));
    } else {
        let pre = roots.subrange(0, k);
        assert(pre[0] == roots[0]);
        assert(root_readable_in(fs, roots[0]));
        let rest = roots.subrange(1, roots.len() as int);
        assert(pre.subrange(1, pre.len() as int) =~= rest.subrange(0, k - 1));
        assert(rest[k - 1] == roots[k]);
        lemma_first_unreadable_suffix(fs, rest, k - 1);
    }
}

/// One run of the orchestrator, stage by stage.
///
/// The machine starts with no stage built. While no stage has failed,
/// `next_request` yields the compile request of the first not-yet-built
/// stage (or records that stage's hard failure itself, for a missing
/// required revision or an unreadable entry), and `record_outcome` folds
/// the toolchain's report into the results. After a failure the machine is
/// done: no further request is ever issued.
pub struct BuildRun {
    /// The stage registry, in build order.
    pub stages: Vec<StageDescriptor>,
    /// The build profile of this run.
    pub profile: Profile,
    /// The source revision, when one could be resolved.
    pub revision: Option<String>,
    /// Index of the first stage whose artifact is not recorded yet.
    pub next_stage: usize,
    /// A request for stage `next_stage` is issued and not yet recorded.
    pub compiling: bool,
    /// A stage failed hard; the run is over.
    pub failed: bool,
    /// One result per stage that reached Done or failed, in build order.
    pub results: Vec<BuildResult>,
}

impl BuildRun {
    /// The revision as a mathematical value.
    pub open spec fn rev_model(&self) -> Option<Seq<char>> {
        match self.revision {
            Some(s) => Some(s@),
            None => None,
        }
    }

    /// Every recorded result before `upto` is the artifact of its stage.
    pub open spec fn results_complete(&self, upto: int) -> bool {
        forall|k: int|
            0 <= k < upto ==> (#[trigger] self.results@[k]).is_artifact_named(
                self.stages@[k].artifact@,
            )
    }

    /// The state invariant: results are recorded in stage order, every
    /// stage before `next_stage` completed, and a failed run carries the
    /// failing stage's result last and issues nothing further.
    pub open spec fn wf(&self) -> bool {
        &&& self.next_stage <= self.stages@.len()
        &&& self.compiling ==> !self.failed && self.next_stage < self.stages@.len()
        &&& !self.failed ==> self.results@.len() == self.next_stage
            && self.results_complete(self.next_stage as int)
        &&& self.failed ==> {
            &&& !self.compiling
            &&& self.next_stage < self.stages@.len()
            &&& self.results@.len() == self.next_stage + 1
            &&& self.results_complete(self.next_stage as int)
            &&& (self.results@[self.next_stage as int] matches BuildResult::Failure {
                stage,
                ..
            } && stage@ == self.stages@[self.next_stage as int].name@)
        }
    }

    /// The run is over: every stage is built, or one failed.
    pub open spec fn done_state(&self) -> bool {
        self.failed || self.next_stage == self.stages@.len()
    }

    /// The stage the machine works on next.
    pub open spec fn current_stage(&self) -> StageDescriptor {
        self.stages@[self.next_stage as int]
    }

    /// Starts a run: nothing built, nothing failed.
    pub fn new(stages: Vec<StageDescriptor>, profile: Profile, revision: Option<String>) -> (r:
        BuildRun)
        ensures
            r.wf(),
            !r.compiling,
            !r.failed,
            r.next_stage == 0,
            r.results@.len() == 0,
            r.stages == stages,
            r.profile == profile,
            r.revision == revision,
    {
        BuildRun {
            stages,
            profile,
            revision,
            next_stage: 0,
            compiling: false,
            failed: false,
            results: Vec::new(),
        }
    }

    /// The run is over: every stage is built, or one failed.
    pub fn done(&self) -> (r: bool)
        ensures
            r == self.done_state(),
    {
        self.failed || self.next_stage == self.stages.len()
    }

    /// Issues the compile request of the first not-yet-built stage: its
    /// files in root-declaration order, its flag set (with the revision
    /// define exactly when the stage requires the revision), its artifact
    /// name. A stage whose required revision is missing, or one of whose
    /// roots meets an unreadable entry, fails here instead, and the run is
    /// over. When the run is already over, nothing is issued and nothing
    /// changes.
    pub fn next_request(&mut self, fs: &Vec<FsNode>) -> (r: Option<CompileRequest>)
        requires
            old(self).wf(),
            !old(self).compiling,
        ensures
            final(self).wf(),
            final(self).stages == old(self).stages,
            final(self).profile == old(self).profile,
            final(self).revision == old(self).revision,
            old(self).done_state() ==> r is None && *final(self) == *old(self),
            !old(self).done_state() ==> {
                let stage = old(self).current_stage();
                &&& (r is Some <==> !(stage.needs_revision && old(self).rev_model() is None)
                    && first_unreadable_root(fs@, stage.roots@) is None)
                &&& (r matches Some(req) ==> {
                    &&& *final(self) == BuildRun { compiling: true, ..*old(self) }
                    &&& req.artifact@ == stage.artifact@
                    &&& req.files.deep_view() == stage_files(fs@, stage)
                    &&& req.flags.deep_view() == flag_list(
                        old(self).profile,
                        if stage.needs_revision {
                            old(self).rev_model()
                        } else {
                            None
                        },
                    )
                })
                &&& (r is None ==> {
                    &&& final(self).failed
                    &&& final(self).next_stage == old(self).next_stage
                    &&& final(self).results@ == old(self).results@.push(
                        final(self).results@.last(),
                    )
                    &&& (final(self).results@.last() matches BuildResult::Failure {
                        stage: s,
                        cause,
                    } && s@ == stage.name@ && {
                        if stage.needs_revision && old(self).rev_model() is None {
                            cause is RevisionUnavailable
                        } else {
                            cause matches FailureCause::UnreadableNode { root }
                                && Some(root.deep_view()) == match first_unreadable_root(
                                fs@,
                                stage.roots@,
                            ) {
                                Some(bad) => Some(bad.path.deep_view()),
                                None => None::<Seq<Seq<char>>>,
                            }
                        }
                    })
                })
            },
    {
        if self.failed || self.next_stage == self.stages.len() {
            return None;
        }
        let needs_rev = self.stages[self.next_stage].needs_revision;
        let rev_missing = needs_rev && (match &self.revision {
            Some(_) => false,
            None => true,
        });
        if rev_missing {
            let name = self.stages[self.next_stage].name.clone();
            self.results.push(
                BuildResult::Failure { stage: name, cause: FailureCause::RevisionUnavailable },
            );
            self.failed = true;
            return None;
        }
        match discover_stage(fs, &self.stages[self.next_stage]) {
            Err(cause) => {
                let name = self.stages[self.next_stage].name.clone();
                self.results.push(BuildResult::Failure { stage: name, cause });
                self.failed = true;
                None
            },
            Ok(files) => {
                let rev_for_stage: Option<&String> = if needs_rev {
                    match &self.revision {
                        Some(s) => Some(s),
                        None => None,
                    }
                } else {
                    None
                };
                let flags = build_flags(self.profile, rev_for_stage);
                let artifact = self.stages[self.next_stage].artifact.clone();
                self.compiling = true;
                Some(CompileRequest { files, flags, artifact })
            },
        }
    }

    /// Folds what the toolchain reported for the issued request into the
    /// results: success records the stage's artifact and moves to the next
    /// stage; failure records the stage's name with the diagnostic,
    /// verbatim, and ends the run.
    pub fn record_outcome(&mut self, outcome: CompileOutcome)
        requires
            old(self).wf(),
            old(self).compiling,
        ensures
            final(self).wf(),
            !final(self).compiling,
            final(self).stages == old(self).stages,
            final(self).profile == old(self).profile,
            final(self).revision == old(self).revision,
            final(self).results@ == old(self).results@.push(final(self).results@.last()),
            outcome is Succeeded ==> {
                &&& !final(self).failed
                &&& final(self).next_stage == old(self).next_stage + 1
                &&& final(self).results@.last().is_artifact_named(
                    old(self).current_stage().artifact@,
                )
            },
            outcome matches CompileOutcome::Failed { diagnostic } ==> {
                &&& final(self).failed
                &&& final(self).next_stage == old(self).next_stage
                &&& (final(self).results@.last() matches BuildResult::Failure {
                    stage: s,
                    cause: FailureCause::Toolchain { diagnostic: d },
                } && s@ == old(self).current_stage().name@ && d@ == diagnostic@)
            },
    {
        let succeeded = match &outcome {
            CompileOutcome::Succeeded => true,
            CompileOutcome::Failed { .. } => false,
        };
        let result = stage_result(
            &self.stages[self.next_stage].name,
            &self.stages[self.next_stage].artifact,
            outcome,
        );
        self.results.push(result);
        self.compiling = false;
        if succeeded {
            let total = self.stages.len();
            assert(self.next_stage < total);
            self.next_stage = self.next_stage + 1;
        } else {
            self.failed = true;
        }
    }
}

/// Stage ordering: while a run is not over, exactly the stages before
/// `next_stage` are built, each recorded as its own artifact, so any
/// request the machine issues next belongs to the first unbuilt stage; and
/// a failed run is over, so no request follows a failure.
pub proof fn lemma_stage_ordering(run: BuildRun)
    requires
        run.wf(),
    ensures
        !run.done_state() ==> run.results@.len() == run.next_stage,
        !run.done_state() ==> forall|k: int|
            0 <= k < run.next_stage ==> (#[trigger] run.results@[k]).is_artifact_named(
                run.stages@[k].artifact@,
            ),
        run.failed ==> run.done_state(),
{
}

} // verus!
