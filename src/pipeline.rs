//! The release review pipeline: a state machine that decides each step, and
//! the report it assembles. The caller performs each action and hands back
//! what came of it.
use vstd::prelude::*;

use crate::api_diff::{
    added_spec, changed_spec, diff_text, item_views, removed_spec, ApiItem, ItemView,
    PublicApiDiff,
};
use crate::commit_parse::{changelog_text, group_spec, parse_log, render_changelog};

verus! {

/// The API snapshot of one crate at one revision, or why it could not be built.
#[derive(Debug)]
pub struct CrateBuild {
    pub manifest: String,
    pub name: String,
    pub items: Result<Vec<ApiItem>, String>,
}

/// The items of a build, if it succeeded.
pub open spec fn build_items(b: CrateBuild) -> Option<Seq<ItemView>> {
    match b.items {
        Ok(v) => Some(item_views(v@)),
        Err(_) => None,
    }
}

/// The first index at or after `i` of a build of `manifest`, or `base.len()`.
pub open spec fn find_build(base: Seq<CrateBuild>, manifest: Seq<char>, i: int) -> int
    decreases base.len() - i,
{
    if i < 0 || i >= base.len() {
        base.len() as int
    } else if base[i].manifest@ == manifest {
        i
    } else {
        find_build(base, manifest, i + 1)
    }
}

/// The base-revision items of the crate of `manifest`: empty when it is
/// missing there or did not build.
pub open spec fn base_items(base: Seq<CrateBuild>, manifest: Seq<char>) -> Seq<ItemView> {
    let j = find_build(base, manifest, 0);
    if 0 <= j < base.len() {
        match build_items(base[j]) {
            Some(v) => v,
            None => Seq::empty(),
        }
    } else {
        Seq::empty()
    }
}

/// The rendered diff from `old` to `new`.
pub open spec fn snapshot_diff_text(old: Seq<ItemView>, new: Seq<ItemView>) -> Seq<char> {
    diff_text(removed_spec(old, new), changed_spec(old, new), added_spec(old, new))
}

/// The section of one crate: nothing when its diff is empty.
pub open spec fn crate_section(name: Seq<char>, d: Seq<char>) -> Seq<char> {
    if d.len() == 0 {
        Seq::empty()
    } else {
        "## "@ + name + "\n"@ + d + "\n"@
    }
}

/// The sections of the first `n` dev-revision crates.
pub open spec fn api_report_upto(dev: Seq<CrateBuild>, base: Seq<CrateBuild>, n: int) -> Seq<char>
    decreases n,
{
    if n <= 0 {
        Seq::empty()
    } else {
        api_report_upto(dev, base, n - 1) + crate_part(dev[n - 1], base)
    }
}

/// The section of one dev-revision crate; nothing when it did not build.
pub open spec fn crate_part(b: CrateBuild, base: Seq<CrateBuild>) -> Seq<char> {
    match build_items(b) {
        Some(new) => crate_section(b.name@, snapshot_diff_text(base_items(base, b.manifest@), new)),
        None => Seq::empty(),
    }
}

/// The API changes of every crate built at the dev revision, in order.
pub open spec fn api_report(dev: Seq<CrateBuild>, base: Seq<CrateBuild>) -> Seq<char> {
    api_report_upto(dev, base, dev.len() as int)
}

fn find_build_index(base: &Vec<CrateBuild>, manifest: &String) -> (r: usize)
    ensures
        r == find_build(base@, manifest@, 0),
        r <= base@.len(),
{
    let mut i: usize = 0;
    while i < base.len()
        invariant
            i <= base@.len(),
            find_build(base@, manifest@, i as int) == find_build(base@, manifest@, 0),
        decreases base@.len() - i,
    {
        if base[i].manifest == *manifest {
            return i;
        }
        i = i + 1;
    }
    i
}

fn render_crate(b: &CrateBuild, base: &Vec<CrateBuild>) -> (r: String)
    ensures
        r@ == crate_part(*b, base@),
{
    let mut out = String::new();
    let empty: Vec<ApiItem> = Vec::new();
    match &b.items {
        Ok(new) => {
            let j = find_build_index(base, &b.manifest);
            let old: &Vec<ApiItem> = if j < base.len() {
                match &base[j].items {
                    Ok(v) => v,
                    Err(_) => &empty,
                }
            } else {
                &empty
            };
            proof {
                assert(item_views(empty@) =~= Seq::<ItemView>::empty());
            }
            let d = PublicApiDiff::between(old, new);
            let text = d.render_changelog();
            if text.as_str().unicode_len() > 0 {
                out.append("## ");
                out.append(b.name.as_str());
                out.append("\n");
                out.append(text.as_str());
                out.append("\n");
            }
        },
        Err(_) => {},
    }
    out
}

/// Renders the API changes: for each crate built at the dev revision, in
/// order, its diff against the base revision (against an empty snapshot when
/// the crate is missing there or did not build), under `## <name>`; crates
/// without changes are left out.
pub fn api_changes(dev: &Vec<CrateBuild>, base: &Vec<CrateBuild>) -> (r: String)
    ensures
        r@ == api_report(dev@, base@),
{
    let mut out = String::new();
    let mut i: usize = 0;
    while i < dev.len()
        invariant
            i <= dev@.len(),
            out@ == api_report_upto(dev@, base@, i as int),
        decreases dev@.len() - i,
    {
        let part = render_crate(&dev[i], base);
        out.append(part.as_str());
        i = i + 1;
    }
    out
}

/// The whole report: the changelog, then the API changes.
pub open spec fn full_report(changelog: Seq<char>, api: Seq<char>) -> Seq<char> {
    "# Commits\n\n"@ + changelog + "\n# API Changes\n\n"@ + api
}

/// A stage of the pipeline.
#[derive(Debug, Clone, Copy, PartialEq, Eq, Structural)]
pub enum Phase {
    CheckStaged,
    CheckUnstaged,
    ListCommits,
    PrepareToolchain,
    FindOriginal,
    CheckoutDev,
    CollectDev,
    CheckoutBase,
    CollectBase,
    Restore,
    Rollback,
    Finished,
    Failed,
    RestoreFailed,
}

/// Whether a step went as wished.
#[derive(Debug, Clone, Copy, PartialEq, Eq, Structural)]
pub enum Outcome {
    Success,
    Failure,
}

/// Where the working tree stands.
#[derive(Debug, Clone, Copy, PartialEq, Eq, Structural)]
pub enum Tree {
    Original,
    Dev,
    Base,
    Unknown,
}

/// The stage after `p` when its step had outcome `o`.
pub open spec fn next_phase(p: Phase, o: Outcome) -> Phase {
    let ok = o == Outcome::Success;
    match p {
        Phase::CheckStaged => if ok { Phase::CheckUnstaged } else { Phase::Failed },
        Phase::CheckUnstaged => if ok { Phase::ListCommits } else { Phase::Failed },
        Phase::ListCommits => if ok { Phase::PrepareToolchain } else { Phase::Failed },
        Phase::PrepareToolchain => if ok { Phase::FindOriginal } else { Phase::Failed },
        Phase::FindOriginal => if ok { Phase::CheckoutDev } else { Phase::Failed },
        Phase::CheckoutDev => if ok { Phase::CollectDev } else { Phase::Rollback },
        Phase::CollectDev => if ok { Phase::CheckoutBase } else { Phase::Rollback },
        Phase::CheckoutBase => if ok { Phase::CollectBase } else { Phase::Rollback },
        Phase::CollectBase => if ok { Phase::Restore } else { Phase::Rollback },
        Phase::Restore => if ok { Phase::Finished } else { Phase::RestoreFailed },
        Phase::Rollback => if ok { Phase::Failed } else { Phase::RestoreFailed },
        _ => p,
    }
}

/// The stages where the pipeline has ended.
pub open spec fn is_terminal(p: Phase) -> bool {
    p == Phase::Finished || p == Phase::Failed || p == Phase::RestoreFailed
}

/// The revision that stage `p` checks out, if it checks one out.
pub open spec fn checkout_target(p: Phase) -> Option<Tree> {
    match p {
        Phase::CheckoutDev => Some(Tree::Dev),
        Phase::CheckoutBase => Some(Tree::Base),
        Phase::Restore => Some(Tree::Original),
        Phase::Rollback => Some(Tree::Original),
        _ => None,
    }
}

/// Where the working tree stands after the step of `p`, from `t`: a checkout
/// that succeeded moves it to its target; one that failed leaves it anywhere.
pub open spec fn tree_after(p: Phase, t: Tree, o: Outcome) -> Tree {
    match checkout_target(p) {
        Some(x) => if o == Outcome::Success { x } else { Tree::Unknown },
        None => t,
    }
}

/// The stage and the working tree after running the outcomes `os` from `p`
/// and `t`.
pub open spec fn run(p: Phase, t: Tree, os: Seq<Outcome>) -> (Phase, Tree)
    decreases os.len(),
{
    if os.len() == 0 {
        (p, t)
    } else {
        run(next_phase(p, os[0]), tree_after(p, t, os[0]), os.drop_first())
    }
}

/// Where the working tree stands at each stage of a run from the original
/// revision.
pub open spec fn tree_consistent(p: Phase, t: Tree) -> bool {
    match p {
        Phase::CollectDev | Phase::CheckoutBase => t == Tree::Dev,
        Phase::CollectBase => t == Tree::Base,
        Phase::Restore | Phase::Rollback | Phase::RestoreFailed => true,
        _ => t == Tree::Original,
    }
}

proof fn lemma_run_consistent(p: Phase, t: Tree, os: Seq<Outcome>)
    requires
        tree_consistent(p, t),
    ensures
        tree_consistent(run(p, t, os).0, run(p, t, os).1),
    decreases os.len(),
{
    if os.len() > 0 {
        lemma_run_consistent(next_phase(p, os[0]), tree_after(p, t, os[0]), os.drop_first());
    }
}

/// Whatever each step brings, a run that starts on the original revision and
/// ends in success or in an ordinary failure leaves the working tree on the
/// original revision again; only a failed restore leaves it elsewhere.
pub proof fn lemma_checkout_restored(os: Seq<Outcome>)
    ensures
        ({
            let (p, t) = run(Phase::CheckStaged, Tree::Original, os);
            (p == Phase::Finished || p == Phase::Failed) ==> t == Tree::Original
        }),
{
    lemma_run_consistent(Phase::CheckStaged, Tree::Original, os);
}

/// How many steps stage `p` may still take before the pipeline ends.
pub open spec fn steps_left(p: Phase) -> nat {
    match p {
        Phase::CheckStaged => 10,
        Phase::CheckUnstaged => 9,
        Phase::ListCommits => 8,
        Phase::PrepareToolchain => 7,
        Phase::FindOriginal => 6,
        Phase::CheckoutDev => 5,
        Phase::CollectDev => 4,
        Phase::CheckoutBase => 3,
        Phase::CollectBase => 2,
        Phase::Restore => 1,
        Phase::Rollback => 1,
        _ => 0,
    }
}

proof fn lemma_run_ends(p: Phase, t: Tree, os: Seq<Outcome>)
    requires
        os.len() >= steps_left(p),
    ensures
        is_terminal(run(p, t, os).0),
    decreases os.len(),
{
    if os.len() > 0 {
        lemma_run_ends(next_phase(p, os[0]), tree_after(p, t, os[0]), os.drop_first());
    } else {
        assert(is_terminal(p));
    }
}

/// Every run has ended after ten steps, whatever they brought.
pub proof fn lemma_pipeline_ends(os: Seq<Outcome>)
    requires
        os.len() >= 10,
    ensures
        is_terminal(run(Phase::CheckStaged, Tree::Original, os).0),
{
    lemma_run_ends(Phase::CheckStaged, Tree::Original, os);
}

/// What ended a run.
#[derive(Debug)]
pub enum PipelineError {
    /// The working tree has staged or unstaged changes.
    DirtyWorkingTree,
    /// An outside tool could not be run, or reported an error.
    Tool { message: String },
    /// The commit log holds a line that matches neither grammar.
    MalformedCommitLine { line: String },
    /// A checkout failed.
    Checkout { target: String, message: String },
    /// A crate's API snapshot could not be built at the dev revision.
    SnapshotBuild { name: String, message: String },
    /// The caller reported something other than what the step asked for.
    UnexpectedEvent,
    /// Checking the original revision out again failed; the working tree is
    /// left on an unknown revision. `cause` is the error that led to the
    /// restore, if any.
    RestoreFailure { message: String, cause: Option<Box<PipelineError>> },
}

/// What the caller is asked to do next.
#[derive(Debug)]
pub enum Action {
    /// Report whether the index has staged changes (`Event::Flag`).
    QueryStaged,
    /// Report whether the working tree has unstaged changes (`Event::Flag`).
    QueryUnstaged,
    /// Report the one-line log from the common ancestor of `dev` and `base`
    /// to `dev` (`Event::Text`).
    ListCommits { dev: String, base: String },
    /// Make the documentation toolchain available (`Event::Done`).
    PrepareToolchain,
    /// Report the branch, or else the commit, checked out now (`Event::Text`).
    QueryCurrentRevision,
    /// Check out `target` quietly, without force (`Event::Done`).
    Checkout { target: String },
    /// Build the API snapshot of every crate (`Event::Snapshots`).
    CollectSnapshots,
    /// Nothing more: the run has ended.
    Stop,
}

/// What came of an action.
#[derive(Debug)]
pub enum Event {
    Flag(bool),
    Text(String),
    Done,
    Snapshots(Vec<CrateBuild>),
    Failed(String),
}

/// Every crate of the list built.
pub open spec fn all_built(v: Seq<CrateBuild>) -> bool {
    forall|i: int| 0 <= i < v.len() ==> (#[trigger] build_items(v[i])) is Some
}

/// Whether event `e` is a success for the step of stage `p`.
pub open spec fn outcome_of(p: Phase, e: Event) -> Outcome {
    let ok = match p {
        Phase::CheckStaged | Phase::CheckUnstaged => match e {
            Event::Flag(b) => !b,
            _ => false,
        },
        Phase::ListCommits => match e {
            Event::Text(t) => parse_log(t@) is Ok,
            _ => false,
        },
        Phase::FindOriginal => e is Text,
        Phase::CollectDev => match e {
            Event::Snapshots(v) => all_built(v@),
            _ => false,
        },
        Phase::CollectBase => e is Snapshots,
        _ => e is Done,
    };
    if ok {
        Outcome::Success
    } else {
        Outcome::Failure
    }
}

/// The state of one run of the pipeline.
#[derive(Debug)]
pub struct Pipeline {
    pub phase: Phase,
    pub dev: String,
    pub base: String,
    /// The revision checked out when the run began.
    pub original: String,
    /// The rendered changelog.
    pub changelog: String,
    /// The snapshots taken at the dev revision.
    pub dev_builds: Vec<CrateBuild>,
    /// The error that ended the run, or that a rollback is under way for.
    pub error: Option<PipelineError>,
    /// The full report, once both revisions have been inspected.
    pub report: String,
}

fn first_failed_build(v: &Vec<CrateBuild>) -> (r: Option<PipelineError>)
    ensures
        r is None <==> all_built(v@),
        r matches Some(e) ==> e is SnapshotBuild,
{
    let mut i: usize = 0;
    while i < v.len()
        invariant
            i <= v@.len(),
            forall|k: int| 0 <= k < i ==> (#[trigger] build_items(v@[k])) is Some,
        decreases v@.len() - i,
    {
        match &v[i].items {
            Ok(_) => {},
            Err(message) => {
                proof {
                    assert(!(build_items(v@[i as int]) is Some));
                }
                return Some(
                    PipelineError::SnapshotBuild { name: v[i].name.clone(), message: message.clone() },
                );
            },
        }
        i = i + 1;
    }
    None
}

impl Pipeline {
    /// An error is recorded exactly in the stages that a failure leads to.
    pub open spec fn wf(&self) -> bool {
        (self.error is Some) <==> (self.phase == Phase::Rollback || self.phase == Phase::Failed
            || self.phase == Phase::RestoreFailed)
    }

    /// A run that will review `dev` against `base`.
    pub fn new(dev: String, base: String) -> (r: Pipeline)
        ensures
            r.phase == Phase::CheckStaged,
            r.dev@ == dev@,
            r.base@ == base@,
            r.error is None,
            r.wf(),
    {
        Pipeline {
            phase: Phase::CheckStaged,
            dev,
            base,
            original: String::new(),
            changelog: String::new(),
            dev_builds: Vec::new(),
            error: None,
            report: String::new(),
        }
    }

    /// The action that the current stage asks for: each checkout names the
    /// dev revision, the base revision, or (to restore) the original one.
    pub fn action(&self) -> (r: Action)
        ensures
            checkout_target(self.phase) == Some(Tree::Dev) ==> (r matches Action::Checkout {
                target,
            } && target@ == self.dev@),
            checkout_target(self.phase) == Some(Tree::Base) ==> (r matches Action::Checkout {
                target,
            } && target@ == self.base@),
            checkout_target(self.phase) == Some(Tree::Original) ==> (r matches Action::Checkout {
                target,
            } && target@ == self.original@),
            checkout_target(self.phase) is None ==> !(r is Checkout),
            self.phase == Phase::CheckStaged ==> r is QueryStaged,
            self.phase == Phase::CheckUnstaged ==> r is QueryUnstaged,
            self.phase == Phase::PrepareToolchain ==> r is PrepareToolchain,
            self.phase == Phase::FindOriginal ==> r is QueryCurrentRevision,
            self.phase == Phase::CollectDev || self.phase == Phase::CollectBase ==> r is CollectSnapshots,
            self.phase == Phase::ListCommits ==> (r matches Action::ListCommits { dev, base } && dev@
                == self.dev@ && base@ == self.base@),
            is_terminal(self.phase) <==> r is Stop,
    {
        match self.phase {
            Phase::CheckStaged => Action::QueryStaged,
            Phase::CheckUnstaged => Action::QueryUnstaged,
            Phase::ListCommits => Action::ListCommits { dev: self.dev.clone(), base: self.base.clone() },
            Phase::PrepareToolchain => Action::PrepareToolchain,
            Phase::FindOriginal => Action::QueryCurrentRevision,
            Phase::CheckoutDev => Action::Checkout { target: self.dev.clone() },
            Phase::CollectDev => Action::CollectSnapshots,
            Phase::CheckoutBase => Action::Checkout { target: self.base.clone() },
            Phase::CollectBase => Action::CollectSnapshots,
            Phase::Restore => Action::Checkout { target: self.original.clone() },
            Phase::Rollback => Action::Checkout { target: self.original.clone() },
            _ => Action::Stop,
        }
    }

    fn fail_with(&mut self, next: Phase, err: PipelineError)
        ensures
            final(self).phase == next,
            final(self).error == Some(err),
            final(self).dev@ == old(self).dev@,
            final(self).base@ == old(self).base@,
            final(self).original@ == old(self).original@,
            final(self).changelog@ == old(self).changelog@,
            final(self).dev_builds@ == old(self).dev_builds@,
            final(self).report@ == old(self).report@,
    {
        self.phase = next;
        self.error = Some(err);
    }

    /// Moves to the next stage on what came of the current action. A failure
    /// before the first checkout ends the run; a failure after it starts a
    /// rollback to the original revision; a failed restore ends the run with
    /// a restore failure that keeps the error that caused it. An ended run
    /// stays as it is.
    pub fn step(&mut self, e: Event)
        requires
            old(self).wf(),
        ensures
            final(self).wf(),
            final(self).phase == next_phase(old(self).phase, outcome_of(old(self).phase, e)),
            final(self).dev@ == old(self).dev@,
            final(self).base@ == old(self).base@,
            old(self).phase != Phase::FindOriginal ==> final(self).original@ == old(self).original@,
            old(self).phase == Phase::FindOriginal ==> (e matches Event::Text(t) ==> final(self).original@
                == t@),
            old(self).phase == Phase::ListCommits ==> (e matches Event::Text(t) ==> (parse_log(
                t@,
            ) matches Ok(rs) ==> final(self).changelog@ == changelog_text(group_spec(rs)))),
            old(self).phase == Phase::CollectDev ==> (e matches Event::Snapshots(v) ==> (all_built(
                v@,
            ) ==> final(self).dev_builds@ == v@)),
            old(self).phase == Phase::CollectBase ==> (e matches Event::Snapshots(v)
                ==> final(self).report@ == full_report(
                old(self).changelog@,
                api_report(old(self).dev_builds@, v@),
            )),
            old(self).phase == Phase::CheckStaged || old(self).phase == Phase::CheckUnstaged
                ==> (e == Event::Flag(true) ==> (final(self).error matches Some(
                PipelineError::DirtyWorkingTree,
            ))),
            old(self).phase == Phase::CollectDev ==> (e matches Event::Snapshots(v) ==> (!all_built(v@)
                ==> (final(self).error matches Some(PipelineError::SnapshotBuild { .. })))),
            final(self).phase == Phase::RestoreFailed && !is_terminal(old(self).phase)
                ==> (final(self).error matches Some(PipelineError::RestoreFailure { .. })),
            (old(self).phase == Phase::Restore || old(self).phase == Phase::Rollback) ==> (e matches Event::Failed(m)
                ==> (final(self).error matches Some(PipelineError::RestoreFailure { message, cause })
                && message@ == m@ && (old(self).error matches Some(c0) ==> (cause matches Some(c) && *c == c0))
                && (old(self).error is None ==> cause is None))),
            old(self).phase == Phase::ListCommits ==> (e matches Event::Text(t) ==> (parse_log(t@) matches Err(l)
                ==> (final(self).error matches Some(PipelineError::MalformedCommitLine { line }) && line@ == l))),
            (old(self).phase == Phase::CheckStaged || old(self).phase == Phase::CheckUnstaged
                || old(self).phase == Phase::ListCommits || old(self).phase == Phase::FindOriginal
                || old(self).phase == Phase::PrepareToolchain || old(self).phase == Phase::CollectDev
                || old(self).phase == Phase::CollectBase) ==> (e matches Event::Failed(m)
                ==> (final(self).error matches Some(PipelineError::Tool { message }) && message@ == m@)),
            (old(self).phase == Phase::CheckoutDev || old(self).phase == Phase::CheckoutBase) ==> (e matches Event::Failed(m)
                ==> (final(self).error matches Some(PipelineError::Checkout { target, message })
                && message@ == m@ && target@ == (if old(self).phase == Phase::CheckoutDev { old(self).dev@ } else { old(self).base@ }))),
            final(self).phase == Phase::Failed ==> final(self).error is Some,
            final(self).phase == Phase::Finished ==> final(self).error is None,
    {
        match self.phase {
            Phase::CheckStaged | Phase::CheckUnstaged => {
                let next = if self.phase == Phase::CheckStaged {
                    Phase::CheckUnstaged
                } else {
                    Phase::ListCommits
                };
                match e {
                    Event::Flag(dirty) => {
                        if dirty {
                            self.fail_with(Phase::Failed, PipelineError::DirtyWorkingTree);
                        } else {
                            self.phase = next;
                        }
                    },
                    Event::Failed(message) => {
                        self.fail_with(Phase::Failed, PipelineError::Tool { message });
                    },
                    _ => {
                        self.fail_with(Phase::Failed, PipelineError::UnexpectedEvent);
                    },
                }
            },
            Phase::ListCommits => {
                match e {
                    Event::Text(t) => {
                        match render_changelog(t.as_str()) {
                            Ok(c) => {
                                self.changelog = c;
                                self.phase = Phase::PrepareToolchain;
                            },
                            Err(m) => {
                                self.fail_with(
                                    Phase::Failed,
                                    PipelineError::MalformedCommitLine { line: m.line },
                                );
                            },
                        }
                    },
                    Event::Failed(message) => {
                        self.fail_with(Phase::Failed, PipelineError::Tool { message });
                    },
                    _ => {
                        self.fail_with(Phase::Failed, PipelineError::UnexpectedEvent);
                    },
                }
            },
            Phase::FindOriginal => {
                match e {
                    Event::Text(t) => {
                        self.original = t;
                        self.phase = Phase::CheckoutDev;
                    },
                    Event::Failed(message) => {
                        self.fail_with(Phase::Failed, PipelineError::Tool { message });
                    },
                    _ => {
                        self.fail_with(Phase::Failed, PipelineError::UnexpectedEvent);
                    },
                }
            },
            Phase::CollectDev => {
                match e {
                    Event::Snapshots(v) => {
                        match first_failed_build(&v) {
                            None => {
                                self.dev_builds = v;
                                self.phase = Phase::CheckoutBase;
                            },
                            Some(err) => {
                                self.fail_with(Phase::Rollback, err);
                            },
                        }
                    },
                    Event::Failed(message) => {
                        self.fail_with(Phase::Rollback, PipelineError::Tool { message });
                    },
                    _ => {
                        self.fail_with(Phase::Rollback, PipelineError::UnexpectedEvent);
                    },
                }
            },
            Phase::CollectBase => {
                match e {
                    Event::Snapshots(v) => {
                        let api = api_changes(&self.dev_builds, &v);
                        let mut report = String::new();
                        report.append("# Commits\n\n");
                        report.append(self.changelog.as_str());
                        report.append("\n# API Changes\n\n");
                        report.append(api.as_str());
                        self.report = report;
                        self.phase = Phase::Restore;
                    },
                    Event::Failed(message) => {
                        self.fail_with(Phase::Rollback, PipelineError::Tool { message });
                    },
                    _ => {
                        self.fail_with(Phase::Rollback, PipelineError::UnexpectedEvent);
                    },
                }
            },
            Phase::PrepareToolchain | Phase::CheckoutDev | Phase::CheckoutBase => {
                let (next, fallback) = match self.phase {
                    Phase::PrepareToolchain => (Phase::FindOriginal, Phase::Failed),
                    Phase::CheckoutDev => (Phase::CollectDev, Phase::Rollback),
                    _ => (Phase::CollectBase, Phase::Rollback),
                };
                match e {
                    Event::Done => {
                        self.phase = next;
                    },
                    Event::Failed(message) => {
                        let err = if self.phase == Phase::PrepareToolchain {
                            PipelineError::Tool { message }
                        } else if self.phase == Phase::CheckoutDev {
                            PipelineError::Checkout { target: self.dev.clone(), message }
                        } else {
                            PipelineError::Checkout { target: self.base.clone(), message }
                        };
                        self.fail_with(fallback, err);
                    },
                    _ => {
                        self.fail_with(fallback, PipelineError::UnexpectedEvent);
                    },
                }
            },
            Phase::Restore | Phase::Rollback => {
                match e {
                    Event::Done => {
                        self.phase = if self.phase == Phase::Restore {
                            Phase::Finished
                        } else {
                            Phase::Failed
                        };
                    },
                    other => {
                        let message = match other {
                            Event::Failed(m) => m,
                            _ => String::new(),
                        };
                        let cause = match self.error.take() {
                            Some(c) => Some(Box::new(c)),
                            None => None,
                        };
                        self.fail_with(
                            Phase::RestoreFailed,
                            PipelineError::RestoreFailure { message, cause },
                        );
                    },
                }
            },
            _ => {},
        }
    }
}

} // verus!
