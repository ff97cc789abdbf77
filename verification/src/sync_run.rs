//! The decisions of a sync, one step at a time.
//!
//! Setting a store up to sync, running a sync, and forgetting the remote each
//! alternate work outside the library (running git, touching the store's
//! files, asking the machine its name) with decisions about what to do next.
//! A `SyncRun` holds where a flow stands; `step` takes what the last piece of
//! work came to and says what to do next, until the flow is done or reports.
//!
//! A sync runs in a fixed order: commit this machine's insights; without a
//! remote, stop there; if the remote has the branch, rebase onto it; a
//! rebase that stops is undone before anything is reported, and a conflict
//! in it is reported and stops the sync; push.

use vstd::prelude::*;
use crate::git::{
    abort_args, abort_command, add_args, add_command, branch_args, branch_command,
    changed_paths, changed_paths_spec, changed_since, changed_since_args, changed_since_command,
    changed_since_spec, commit_args, commit_command, commit_message, commit_message_spec,
    conflicted_args, conflicted_command, conflicted_paths, conflicted_paths_spec, current_branch,
    current_branch_spec, done_spec, enclosing_spec, ErrorView, GitOutput, GitOutputView, head,
    head_args, head_command, head_spec, init_args, init_command, insight_paths, only_insights,
    opt_text, pull_args, pull_command, pull_outcome_spec, pull_rebase, push, push_args,
    push_command, ran_view, refuse_enclosing_repo, remote_has_branch, remote_has_branch_spec,
    remote_url, remote_url_args, remote_url_command, remote_url_spec, remove_remote,
    remove_remote_args, run_checked, set_remote, set_remote_args, status_args, strs,
    toplevel_args, toplevel_command, PullOutcome, SyncError,
};
use crate::report::{ReportView, SyncReport};
use crate::text::{chars_of, string_of, trim, trim_chars};

verus! {

broadcast use vstd::string::group_string_axioms;

/// Which flow a run carries out.
#[derive(Debug, Clone, Copy, PartialEq, Eq, Structural)]
pub enum Flow {
    /// Commit, take in the other machines' insights, push.
    Sync,
    /// Make the store a repository pointed at a remote.
    Init,
    /// Stop the store syncing, keeping its history.
    ForgetRemote,
}

/// Where a run stands: what it is waiting to hear back about.
#[derive(Debug, Clone, Copy, PartialEq, Eq, Structural)]
pub enum Stage {
    CheckingRepo,
    CreatingStore,
    FindingEnclosing,
    Initializing,
    WritingGitignore,
    ReadingRemote,
    SettingRemote,
    RemovingRemote,
    ReadingStatus,
    NamingMachine,
    Adding,
    Committing,
    ReadingBranch,
    CheckingRemoteBranch,
    ReadingHead,
    Pulling,
    ReadingConflicts,
    Aborting,
    ReadingNewHead,
    ReadingArrivals,
    Pushing,
    Finished,
}

/// What the last piece of outside work came to.
pub enum Event {
    /// Whether the store has a `.git` of its own.
    RepoChecked(bool),
    /// Creating the store's directory: done, or why not.
    StoreCreated(Result<(), String>),
    /// A git command ran, or could not be started.
    GitRan(Result<GitOutput, String>),
    /// Writing the store's `.gitignore` (left alone when already right):
    /// done, or why not.
    GitignoreWritten(Result<(), String>),
    /// The name of this machine, when it has one.
    MachineNamed(Option<String>),
}

/// What to do next.
pub enum Action {
    /// Find out whether the store has a `.git` of its own.
    CheckRepo,
    /// Create the store's directory and any missing parents.
    CreateStore,
    /// Run git in the store with these arguments.
    Git(Vec<String>),
    /// Make sure the store's `.gitignore` keeps this machine's own files out.
    WriteGitignore,
    /// Find the name of this machine.
    NameMachine,
    /// The flow is over: it succeeded, or failed with this error.
    Done(Result<(), SyncError>),
    /// The sync is over, and this is what it did.
    Report(SyncReport),
}

/// A flow in progress.
pub struct SyncRun {
    pub flow: Flow,
    pub stage: Stage,
    /// The remote to point the store at, for `Flow::Init`.
    pub url: String,
    /// What the run has found and done so far.
    pub report: SyncReport,
    /// The branch being synced, once read.
    pub branch: String,
    /// The commit the store sat on before pulling.
    pub before: Option<String>,
    /// The insights the commit carries.
    pub insights: Vec<String>,
    /// The message of the commit.
    pub message: String,
    /// The paths a stopped rebase could not reconcile.
    pub conflicts: Vec<String>,
    /// What a failed pull printed on stderr, trimmed.
    pub pull_error: String,
    /// Why the paths a stopped rebase left in conflict could not be read;
    /// reported once the rebase is undone.
    pub listing_error: Option<SyncError>,
}

/// The mathematical content of a run.
#[verifier::ext_equal]
pub struct RunView {
    pub flow: Flow,
    pub stage: Stage,
    pub url: Seq<char>,
    pub report: ReportView,
    pub branch: Seq<char>,
    pub before: Option<Seq<char>>,
    pub insights: Seq<Seq<char>>,
    pub message: Seq<char>,
    pub conflicts: Seq<Seq<char>>,
    pub pull_error: Seq<char>,
    pub listing_error: Option<ErrorView>,
}

impl View for SyncRun {
    type V = RunView;

    open spec fn view(&self) -> RunView {
        RunView {
            flow: self.flow,
            stage: self.stage,
            url: self.url@,
            report: self.report@,
            branch: self.branch@,
            before: opt_text(self.before),
            insights: strs(self.insights@),
            message: self.message@,
            conflicts: strs(self.conflicts@),
            pull_error: self.pull_error@,
            listing_error: match self.listing_error {
                Some(e) => Some(e@),
                None => None,
            },
        }
    }
}

/// The mathematical content of an event.
pub enum EventView {
    RepoChecked(bool),
    StoreCreated(Result<(), Seq<char>>),
    GitRan(Result<GitOutputView, Seq<char>>),
    GitignoreWritten(Result<(), Seq<char>>),
    MachineNamed(Option<Seq<char>>),
}

/// The view of a result carrying nothing or a message.
pub open spec fn unit_or_text(r: Result<(), String>) -> Result<(), Seq<char>> {
    match r {
        Ok(()) => Ok(()),
        Err(e) => Err(e@),
    }
}

impl View for Event {
    type V = EventView;

    open spec fn view(&self) -> EventView {
        match self {
            Event::RepoChecked(b) => EventView::RepoChecked(*b),
            Event::StoreCreated(r) => EventView::StoreCreated(unit_or_text(*r)),
            Event::GitRan(r) => EventView::GitRan(ran_view(*r)),
            Event::GitignoreWritten(r) => EventView::GitignoreWritten(unit_or_text(*r)),
            Event::MachineNamed(n) => EventView::MachineNamed(opt_text(*n)),
        }
    }
}

/// The mathematical content of an action.
pub enum ActionView {
    CheckRepo,
    CreateStore,
    Git(Seq<Seq<char>>),
    WriteGitignore,
    NameMachine,
    Done(Result<(), ErrorView>),
    Report(ReportView),
}

/// The view of a result carrying nothing or a sync error.
pub open spec fn done_view(r: Result<(), SyncError>) -> Result<(), ErrorView> {
    match r {
        Ok(()) => Ok(()),
        Err(e) => Err(e@),
    }
}

impl View for Action {
    type V = ActionView;

    open spec fn view(&self) -> ActionView {
        match self {
            Action::CheckRepo => ActionView::CheckRepo,
            Action::CreateStore => ActionView::CreateStore,
            Action::Git(args) => ActionView::Git(strs(args@)),
            Action::WriteGitignore => ActionView::WriteGitignore,
            Action::NameMachine => ActionView::NameMachine,
            Action::Done(r) => ActionView::Done(done_view(*r)),
            Action::Report(r) => ActionView::Report(r@),
        }
    }
}

// ---------------------------------------------------------------------------
// The transitions
// ---------------------------------------------------------------------------

/// Whether a run at `stage` is waiting for an event of this kind.
pub open spec fn expects(stage: Stage, e: EventView) -> bool {
    match stage {
        Stage::CheckingRepo => e is RepoChecked,
        Stage::CreatingStore => e is StoreCreated,
        Stage::WritingGitignore => e is GitignoreWritten,
        Stage::NamingMachine => e is MachineNamed,
        Stage::Finished => false,
        _ => e is GitRan,
    }
}

/// The run moved on to `stage`, asking for `action`.
pub open spec fn go(s: RunView, stage: Stage, action: ActionView) -> (RunView, ActionView) {
    (RunView { stage, ..s }, action)
}

/// The run is over with an error.
pub open spec fn fail(s: RunView, e: ErrorView) -> (RunView, ActionView) {
    go(s, Stage::Finished, ActionView::Done(Err(e)))
}

/// The run is over and worked.
pub open spec fn succeed(s: RunView) -> (RunView, ActionView) {
    go(s, Stage::Finished, ActionView::Done(Ok(())))
}

/// The sync is over, reporting `s.report`.
pub open spec fn report(s: RunView) -> (RunView, ActionView) {
    go(s, Stage::Finished, ActionView::Report(s.report))
}

/// Once this machine's work is committed: without a remote the sync is over;
/// with one, the branch is read.
pub open spec fn after_commit(s: RunView) -> (RunView, ActionView) {
    if s.report.remote is None {
        report(s)
    } else {
        go(s, Stage::ReadingBranch, ActionView::Git(branch_args()))
    }
}

/// Once the remote's insights are in: push.
pub open spec fn to_push(s: RunView) -> (RunView, ActionView) {
    go(s, Stage::Pushing, ActionView::Git(push_args(s.branch)))
}

/// A run's report with `pulled` set.
pub open spec fn with_pulled(s: RunView, pulled: Seq<Seq<char>>) -> RunView {
    RunView { report: ReportView { pulled, ..s.report }, ..s }
}

/// The commit the store sat on before pulling, as text.
pub open spec fn before_text(s: RunView) -> Seq<char> {
    match s.before {
        Some(b) => b,
        None => Seq::<char>::empty(),
    }
}

/// The git output an event carries.
pub open spec fn ran_of(e: EventView) -> Result<GitOutputView, Seq<char>> {
    match e {
        EventView::GitRan(r) => r,
        _ => Err(Seq::<char>::empty()),
    }
}

/// What a run does next, given where it stands and what the last piece of
/// work came to.
pub open spec fn next(s: RunView, e: EventView) -> (RunView, ActionView) {
    let ran = ran_of(e);
    match s.stage {
        Stage::CheckingRepo => match e {
            EventView::RepoChecked(exists) => if s.flow == Flow::ForgetRemote {
                if exists {
                    go(s, Stage::ReadingRemote, ActionView::Git(remote_url_args()))
                } else {
                    succeed(s)
                }
            } else if exists {
                go(s, Stage::WritingGitignore, ActionView::WriteGitignore)
            } else {
                go(s, Stage::CreatingStore, ActionView::CreateStore)
            },
            _ => (s, ActionView::CheckRepo),
        },
        Stage::CreatingStore => match e {
            EventView::StoreCreated(Ok(())) => go(s, Stage::FindingEnclosing, ActionView::Git(toplevel_args())),
            EventView::StoreCreated(Err(m)) => fail(s, ErrorView::Io(m)),
            _ => (s, ActionView::CreateStore),
        },
        Stage::FindingEnclosing => match enclosing_spec(s.report.store, ran) {
            Ok(()) => go(s, Stage::Initializing, ActionView::Git(init_args())),
            Err(err) => fail(s, err),
        },
        Stage::Initializing => match done_spec(init_args(), ran) {
            Ok(()) => go(s, Stage::WritingGitignore, ActionView::WriteGitignore),
            Err(err) => fail(s, err),
        },
        Stage::WritingGitignore => match e {
            EventView::GitignoreWritten(Ok(())) => go(s, Stage::ReadingRemote, ActionView::Git(remote_url_args())),
            EventView::GitignoreWritten(Err(m)) => fail(s, ErrorView::Io(m)),
            _ => (s, ActionView::WriteGitignore),
        },
        Stage::ReadingRemote => {
            let url = remote_url_spec(ran);
            let t = RunView { report: ReportView { remote: url, ..s.report }, ..s };
            match s.flow {
                Flow::Sync => go(t, Stage::ReadingStatus, ActionView::Git(status_args())),
                Flow::Init => go(t, Stage::SettingRemote, ActionView::Git(set_remote_args(url is Some, s.url))),
                Flow::ForgetRemote => if url is Some {
                    go(t, Stage::RemovingRemote, ActionView::Git(remove_remote_args()))
                } else {
                    succeed(t)
                },
            }
        },
        Stage::SettingRemote => match done_spec(set_remote_args(s.report.remote is Some, s.url), ran) {
            Ok(()) => succeed(s),
            Err(err) => fail(s, err),
        },
        Stage::RemovingRemote => match done_spec(remove_remote_args(), ran) {
            Ok(()) => succeed(s),
            Err(err) => fail(s, err),
        },
        Stage::ReadingStatus => match changed_paths_spec(ran) {
            Err(err) => fail(s, err),
            Ok(changed) => if changed.len() == 0 {
                after_commit(s)
            } else {
                go(
                    RunView { insights: insight_paths(changed), ..s },
                    Stage::NamingMachine,
                    ActionView::NameMachine,
                )
            },
        },
        Stage::NamingMachine => match e {
            EventView::MachineNamed(machine) => go(
                RunView { message: commit_message_spec(s.insights.len(), machine), ..s },
                Stage::Adding,
                ActionView::Git(add_args()),
            ),
            _ => (s, ActionView::NameMachine),
        },
        Stage::Adding => match done_spec(add_args(), ran) {
            Ok(()) => go(s, Stage::Committing, ActionView::Git(commit_args(s.message))),
            Err(err) => fail(s, err),
        },
        Stage::Committing => match done_spec(commit_args(s.message), ran) {
            Ok(()) => after_commit(RunView { report: ReportView { committed: s.insights, ..s.report }, ..s }),
            Err(err) => fail(s, err),
        },
        Stage::ReadingBranch => match current_branch_spec(ran) {
            Ok(b) => go(RunView { branch: b, ..s }, Stage::CheckingRemoteBranch, ActionView::Git(crate::git::ls_remote_args(b))),
            Err(err) => fail(s, err),
        },
        Stage::CheckingRemoteBranch => if remote_has_branch_spec(ran) {
            go(s, Stage::ReadingHead, ActionView::Git(head_args()))
        } else {
            to_push(s)
        },
        Stage::ReadingHead => go(
            RunView { before: head_spec(ran), ..s },
            Stage::Pulling,
            ActionView::Git(pull_args(s.branch)),
        ),
        Stage::Pulling => match ran {
            Err(m) => fail(s, ErrorView::CouldNotRun(m)),
            Ok(o) => if o.success {
                match s.before {
                    None => to_push(with_pulled(s, seq![])),
                    Some(_) => go(s, Stage::ReadingNewHead, ActionView::Git(head_args())),
                }
            } else {
                go(
                    RunView { pull_error: trim(o.stderr), ..s },
                    Stage::ReadingConflicts,
                    ActionView::Git(conflicted_args()),
                )
            },
        },
        Stage::ReadingNewHead => if head_spec(ran) == s.before {
            to_push(with_pulled(s, seq![]))
        } else {
            go(s, Stage::ReadingArrivals, ActionView::Git(changed_since_args(before_text(s))))
        },
        Stage::ReadingArrivals => match changed_since_spec(before_text(s), ran) {
            Ok(paths) => to_push(with_pulled(s, insight_paths(paths))),
            Err(err) => fail(s, err),
        },
        Stage::ReadingConflicts => match conflicted_paths_spec(ran) {
            Ok(paths) => go(RunView { conflicts: paths, ..s }, Stage::Aborting, ActionView::Git(abort_args())),
            Err(err) => go(RunView { listing_error: Some(err), ..s }, Stage::Aborting, ActionView::Git(abort_args())),
        },
        Stage::Aborting => match s.listing_error {
            Some(err) => fail(s, err),
            None => if s.conflicts.len() == 0 {
                fail(s, ErrorView::PullFailed(s.pull_error))
            } else {
                report(RunView { report: ReportView { conflicted: s.conflicts, ..s.report }, ..s })
            },
        },
        Stage::Pushing => match done_spec(push_args(s.branch), ran) {
            Ok(()) => report(RunView { report: ReportView { pushed: true, ..s.report }, ..s }),
            Err(err) => fail(s, err),
        },
        Stage::Finished => (s, ActionView::Done(Ok(()))),
    }
}

// ---------------------------------------------------------------------------
// Running the transitions
// ---------------------------------------------------------------------------

fn copy_text(s: &String) -> (r: String)
    ensures
        r@ == s@,
{
    string_of(chars_of(s.as_str()).as_slice())
}

fn copy_texts(v: &Vec<String>) -> (r: Vec<String>)
    ensures
        strs(r@) == strs(v@),
{
    let mut out: Vec<String> = Vec::new();
    let mut i: usize = 0;
    while i < v.len()
        invariant
            i <= v@.len(),
            strs(out@) == strs(v@).take(i as int),
        decreases v@.len() - i,
    {
        let ghost before = out@;
        out.push(copy_text(&v[i]));
        proof {
            assert(strs(out@) =~= strs(before).push(v@[i as int]@));
            assert(strs(v@).take(i + 1) =~= strs(v@).take(i as int).push(v@[i as int]@));
        }
        i = i + 1;
    }
    proof {
        assert(strs(v@).take(v@.len() as int) =~= strs(v@));
    }
    out
}

fn copy_error(e: &SyncError) -> (r: SyncError)
    ensures
        r@ == e@,
{
    match e {
        SyncError::CouldNotRun(m) => SyncError::CouldNotRun(copy_text(m)),
        SyncError::GitFailed { command, stderr } => SyncError::GitFailed {
            command: copy_text(command),
            stderr: copy_text(stderr),
        },
        SyncError::NotOnBranch => SyncError::NotOnBranch,
        SyncError::PullFailed(m) => SyncError::PullFailed(copy_text(m)),
        SyncError::InsideRepo { store, toplevel } => SyncError::InsideRepo {
            store: copy_text(store),
            toplevel: copy_text(toplevel),
        },
        SyncError::Io(m) => SyncError::Io(copy_text(m)),
    }
}

fn copy_opt_text(o: &Option<String>) -> (r: Option<String>)
    ensures
        opt_text(r) == opt_text(*o),
{
    match o {
        Some(s) => Some(copy_text(s)),
        None => None,
    }
}

fn copy_report(r: &SyncReport) -> (c: SyncReport)
    ensures
        c@ == r@,
{
    SyncReport {
        committed: copy_texts(&r.committed),
        pulled: copy_texts(&r.pulled),
        conflicted: copy_texts(&r.conflicted),
        pushed: r.pushed,
        remote: copy_opt_text(&r.remote),
        store: copy_text(&r.store),
    }
}

/// A run of `flow` on the store at `store`, before anything has happened.
fn start(flow: Flow, store: &str, url: &str) -> (r: SyncRun)
    ensures
        r@ == start_view(flow, store@, url@),
{
    let r = SyncRun {
        flow,
        stage: Stage::CheckingRepo,
        url: string_of(chars_of(url).as_slice()),
        report: SyncReport {
            committed: Vec::new(),
            pulled: Vec::new(),
            conflicted: Vec::new(),
            pushed: false,
            remote: None,
            store: string_of(chars_of(store).as_slice()),
        },
        branch: String::new(),
        before: None,
        insights: Vec::new(),
        message: String::new(),
        conflicts: Vec::new(),
        pull_error: String::new(),
        listing_error: None,
    };
    proof {
        assert(strs(r.report.committed@) =~= seq![]);
        assert(strs(r.report.pulled@) =~= seq![]);
        assert(strs(r.report.conflicted@) =~= seq![]);
        assert(strs(r.insights@) =~= seq![]);
        assert(strs(r.conflicts@) =~= seq![]);
        assert(r.branch@ =~= seq![]);
        assert(r.message@ =~= seq![]);
        assert(r.pull_error@ =~= seq![]);
        assert(r@ =~= start_view(flow, store@, url@));
    }
    r
}

/// A run of `flow` before anything has happened: nothing found, nothing done.
pub open spec fn start_view(flow: Flow, store: Seq<char>, url: Seq<char>) -> RunView {
    RunView {
        flow,
        stage: Stage::CheckingRepo,
        url,
        report: ReportView {
            committed: seq![],
            pulled: seq![],
            conflicted: seq![],
            pushed: false,
            remote: None,
            store,
        },
        branch: seq![],
        before: None,
        insights: seq![],
        message: seq![],
        conflicts: seq![],
        pull_error: seq![],
        listing_error: None,
    }
}

/// Starts committing this machine's insights, taking in the other
/// machines', and pushing. A store that is not yet a repository becomes one
/// on the way.
pub fn sync(store: &str) -> (r: (SyncRun, Action))
    ensures
        r.0@ == start_view(Flow::Sync, store@, seq![]),
        r.1@ == ActionView::CheckRepo,
{
    proof {
        reveal_strlit("");
        assert(""@ =~= Seq::<char>::empty());
    }
    (start(Flow::Sync, store, ""), Action::CheckRepo)
}

/// Starts making the store a git repository pointed at `remote`. A store
/// that is already one keeps its history and takes the new remote.
pub fn init(store: &str, remote: &str) -> (r: (SyncRun, Action))
    ensures
        r.0@ == start_view(Flow::Init, store@, remote@),
        r.1@ == ActionView::CheckRepo,
{
    (start(Flow::Init, store, remote), Action::CheckRepo)
}

/// Starts stopping the store syncing, keeping its history for whenever a
/// remote is set again.
pub fn forget_remote(store: &str) -> (r: (SyncRun, Action))
    ensures
        r.0@ == start_view(Flow::ForgetRemote, store@, seq![]),
        r.1@ == ActionView::CheckRepo,
{
    proof {
        reveal_strlit("");
        assert(""@ =~= Seq::<char>::empty());
    }
    (start(Flow::ForgetRemote, store, ""), Action::CheckRepo)
}

impl SyncRun {
    fn finish_report(&mut self) -> (a: Action)
        ensures
            final(self)@ == (RunView { stage: Stage::Finished, ..old(self)@ }),
            a@ == ActionView::Report(old(self)@.report),
    {
        self.stage = Stage::Finished;
        Action::Report(copy_report(&self.report))
    }

    fn finish(&mut self, r: Result<(), SyncError>) -> (a: Action)
        ensures
            final(self)@ == (RunView { stage: Stage::Finished, ..old(self)@ }),
            a@ == ActionView::Done(done_view(r)),
    {
        self.stage = Stage::Finished;
        Action::Done(r)
    }

    fn after_commit_exec(&mut self) -> (a: Action)
        ensures
            (final(self)@, a@) == after_commit(old(self)@),
    {
        if self.report.remote.is_none() {
            self.finish_report()
        } else {
            self.stage = Stage::ReadingBranch;
            Action::Git(branch_command())
        }
    }

    fn to_push_exec(&mut self) -> (a: Action)
        ensures
            (final(self)@, a@) == to_push(old(self)@),
    {
        self.stage = Stage::Pushing;
        Action::Git(push_command(self.branch.as_str()))
    }

    /// What to do next, given what the last piece of work came to.
    pub fn step(&mut self, event: Event) -> (a: Action)
        requires
            expects(old(self)@.stage, event@),
        ensures
            (final(self)@, a@) == next(old(self)@, event@),
    {
        match self.stage {
            Stage::CheckingRepo => {
                let exists = match event {
                    Event::RepoChecked(b) => b,
                    _ => false,
                };
                if self.flow == Flow::ForgetRemote {
                    if exists {
                        self.stage = Stage::ReadingRemote;
                        Action::Git(remote_url_command())
                    } else {
                        self.finish(Ok(()))
                    }
                } else if exists {
                    self.stage = Stage::WritingGitignore;
                    Action::WriteGitignore
                } else {
                    self.stage = Stage::CreatingStore;
                    Action::CreateStore
                }
            },
            Stage::CreatingStore => match event {
                Event::StoreCreated(Ok(())) => {
                    self.stage = Stage::FindingEnclosing;
                    Action::Git(toplevel_command())
                },
                Event::StoreCreated(Err(m)) => self.finish(Err(SyncError::Io(m))),
                _ => Action::CreateStore,
            },
            Stage::WritingGitignore => match event {
                Event::GitignoreWritten(Ok(())) => {
                    self.stage = Stage::ReadingRemote;
                    Action::Git(remote_url_command())
                },
                Event::GitignoreWritten(Err(m)) => self.finish(Err(SyncError::Io(m))),
                _ => Action::WriteGitignore,
            },
            Stage::NamingMachine => match event {
                Event::MachineNamed(machine) => {
                    self.message = commit_message(self.insights.as_slice(), &machine);
                    self.stage = Stage::Adding;
                    Action::Git(add_command())
                },
                _ => Action::NameMachine,
            },
            Stage::Finished => Action::Done(Ok(())),
            _ => match event {
                Event::GitRan(ran) => self.on_git(ran),
                _ => Action::Done(Ok(())),
            },
        }
    }

    fn on_git(&mut self, ran: Result<GitOutput, String>) -> (a: Action)
        requires
            expects(old(self)@.stage, EventView::GitRan(ran_view(ran))),
        ensures
            (final(self)@, a@) == next(old(self)@, EventView::GitRan(ran_view(ran))),
    {
        match self.stage {
            Stage::FindingEnclosing | Stage::Initializing | Stage::ReadingRemote | Stage::SettingRemote | Stage::RemovingRemote => self.on_setup(ran),
            Stage::ReadingStatus | Stage::Adding | Stage::Committing => self.on_commit(ran),
            Stage::ReadingBranch | Stage::CheckingRemoteBranch | Stage::ReadingHead | Stage::Pulling => self.on_pull(ran),
            Stage::ReadingNewHead | Stage::ReadingArrivals => self.on_arrivals(ran),
            Stage::ReadingConflicts | Stage::Aborting | Stage::Pushing => self.on_end(ran),
            _ => Action::Done(Ok(())),
        }
    }

    fn on_setup(&mut self, ran: Result<GitOutput, String>) -> (a: Action)
        requires
            old(self).stage == Stage::FindingEnclosing || old(self).stage == Stage::Initializing || old(self).stage == Stage::ReadingRemote || old(self).stage == Stage::SettingRemote || old(self).stage == Stage::RemovingRemote,
        ensures
            (final(self)@, a@) == next(old(self)@, EventView::GitRan(ran_view(ran))),
    {
        match self.stage {
            Stage::FindingEnclosing => match refuse_enclosing_repo(self.report.store.as_str(), &ran) {
                Ok(()) => {
                    self.stage = Stage::Initializing;
                    Action::Git(init_command())
                },
                Err(e) => self.finish(Err(e)),
            },
            Stage::Initializing => match run_checked(&init_command(), &ran) {
                Ok(_) => {
                    self.stage = Stage::WritingGitignore;
                    Action::WriteGitignore
                },
                Err(e) => self.finish(Err(e)),
            },
            Stage::ReadingRemote => {
                let url = remote_url(&ran);
                let has = url.is_some();
                self.report.remote = url;
                match self.flow {
                    Flow::Sync => {
                        self.stage = Stage::ReadingStatus;
                        Action::Git(crate::git::status_command())
                    },
                    Flow::Init => {
                        self.stage = Stage::SettingRemote;
                        Action::Git(set_remote(has, self.url.as_str()))
                    },
                    Flow::ForgetRemote => match remove_remote(has) {
                        Some(args) => {
                            self.stage = Stage::RemovingRemote;
                            Action::Git(args)
                        },
                        None => self.finish(Ok(())),
                    },
                }
            },
            Stage::SettingRemote => {
                let args = set_remote(self.report.remote.is_some(), self.url.as_str());
                match run_checked(&args, &ran) {
                    Ok(_) => self.finish(Ok(())),
                    Err(e) => self.finish(Err(e)),
                }
            },
            Stage::RemovingRemote => {
                let args = crate::git::remove_remote_command();
                match run_checked(&args, &ran) {
                    Ok(_) => self.finish(Ok(())),
                    Err(e) => self.finish(Err(e)),
                }
            },
            _ => Action::Done(Ok(())),
        }
    }

    fn on_commit(&mut self, ran: Result<GitOutput, String>) -> (a: Action)
        requires
            old(self).stage == Stage::ReadingStatus || old(self).stage == Stage::Adding || old(self).stage == Stage::Committing,
        ensures
            (final(self)@, a@) == next(old(self)@, EventView::GitRan(ran_view(ran))),
    {
        match self.stage {
            Stage::ReadingStatus => match changed_paths(&ran) {
                Err(e) => self.finish(Err(e)),
                Ok(changed) => {
                    if changed.len() == 0 {
                        self.after_commit_exec()
                    } else {
                        self.insights = only_insights(changed.as_slice());
                        self.stage = Stage::NamingMachine;
                        Action::NameMachine
                    }
                },
            },
            Stage::Adding => match run_checked(&add_command(), &ran) {
                Ok(_) => {
                    self.stage = Stage::Committing;
                    Action::Git(commit_command(self.message.as_str()))
                },
                Err(e) => self.finish(Err(e)),
            },
            Stage::Committing => match run_checked(&commit_command(self.message.as_str()), &ran) {
                Ok(_) => {
                    self.report.committed = copy_texts(&self.insights);
                    self.after_commit_exec()
                },
                Err(e) => self.finish(Err(e)),
            },
            _ => Action::Done(Ok(())),
        }
    }

    fn on_pull(&mut self, ran: Result<GitOutput, String>) -> (a: Action)
        requires
            old(self).stage == Stage::ReadingBranch || old(self).stage == Stage::CheckingRemoteBranch || old(self).stage == Stage::ReadingHead || old(self).stage == Stage::Pulling,
        ensures
            (final(self)@, a@) == next(old(self)@, EventView::GitRan(ran_view(ran))),
    {
        match self.stage {
            Stage::ReadingBranch => match current_branch(&ran) {
                Ok(b) => {
                    let args = crate::git::ls_remote_command(b.as_str());
                    self.branch = b;
                    self.stage = Stage::CheckingRemoteBranch;
                    Action::Git(args)
                },
                Err(e) => self.finish(Err(e)),
            },
            Stage::CheckingRemoteBranch => if remote_has_branch(&ran) {
                self.stage = Stage::ReadingHead;
                Action::Git(head_command())
            } else {
                self.to_push_exec()
            },
            Stage::ReadingHead => {
                self.before = head(&ran);
                self.stage = Stage::Pulling;
                Action::Git(pull_command(self.branch.as_str()))
            },
            Stage::Pulling => match ran {
                Err(m) => self.finish(Err(SyncError::CouldNotRun(m))),
                Ok(o) => {
                    if o.success {
                        if self.before.is_none() {
                            self.report.pulled = Vec::new();
                            self.to_push_exec()
                        } else {
                            self.stage = Stage::ReadingNewHead;
                            Action::Git(head_command())
                        }
                    } else {
                        self.pull_error = string_of(trim_chars(chars_of(o.stderr.as_str()).as_slice()).as_slice());
                        self.stage = Stage::ReadingConflicts;
                        Action::Git(conflicted_command())
                    }
                },
            },
            _ => Action::Done(Ok(())),
        }
    }

    fn on_arrivals(&mut self, ran: Result<GitOutput, String>) -> (a: Action)
        requires
            old(self).stage == Stage::ReadingNewHead || old(self).stage == Stage::ReadingArrivals,
        ensures
            (final(self)@, a@) == next(old(self)@, EventView::GitRan(ran_view(ran))),
    {
        match self.stage {
            Stage::ReadingNewHead => {
                let now = head(&ran);
                let same = match (&now, &self.before) {
                    (Some(a), Some(b)) => *a == *b,
                    (None, None) => true,
                    _ => false,
                };
                if same {
                    self.report.pulled = Vec::new();
                    self.to_push_exec()
                } else {
                    let before = match &self.before {
                        Some(b) => copy_text(b),
                        None => String::new(),
                    };
                    self.stage = Stage::ReadingArrivals;
                    Action::Git(changed_since_command(before.as_str()))
                }
            },
            Stage::ReadingArrivals => {
                let before = match &self.before {
                    Some(b) => copy_text(b),
                    None => String::new(),
                };
                match changed_since(before.as_str(), &ran) {
                    Ok(paths) => {
                        self.report.pulled = only_insights(paths.as_slice());
                        self.to_push_exec()
                    },
                    Err(e) => self.finish(Err(e)),
                }
            },
            _ => Action::Done(Ok(())),
        }
    }

    fn on_end(&mut self, ran: Result<GitOutput, String>) -> (a: Action)
        requires
            old(self).stage == Stage::ReadingConflicts || old(self).stage == Stage::Aborting || old(self).stage == Stage::Pushing,
        ensures
            (final(self)@, a@) == next(old(self)@, EventView::GitRan(ran_view(ran))),
    {
        match self.stage {
            Stage::ReadingConflicts => match conflicted_paths(&ran) {
                Ok(paths) => {
                    self.conflicts = paths;
                    self.stage = Stage::Aborting;
                    Action::Git(abort_command())
                },
                Err(e) => {
                    self.listing_error = Some(e);
                    self.stage = Stage::Aborting;
                    Action::Git(abort_command())
                },
            },
            Stage::Aborting => {
                if let Some(e) = &self.listing_error {
                    let e = copy_error(e);
                    return self.finish(Err(e));
                }
                let outcome = pull_rebase(
                    &GitOutput { success: false, stdout: String::new(), stderr: copy_text(&self.pull_error) },
                    copy_texts(&self.conflicts),
                );
                match outcome {
                    Ok(PullOutcome::Conflicted(paths)) => {
                        self.report.conflicted = paths;
                        self.finish_report()
                    },
                    Ok(PullOutcome::Merged) => self.finish_report(),
                    Err(_) => {
                        let e = SyncError::PullFailed(copy_text(&self.pull_error));
                        self.finish(Err(e))
                    },
                }
            },
            Stage::Pushing => match push(self.branch.as_str(), &ran) {
                Ok(()) => {
                    self.report.pushed = true;
                    self.finish_report()
                },
                Err(e) => self.finish(Err(e)),
            },
            _ => Action::Done(Ok(())),
        }
    }
}

// ---------------------------------------------------------------------------
// What every run keeps to
// ---------------------------------------------------------------------------

/// How far along its flow a stage is: every step moves a run to a later one.
pub open spec fn rank(stage: Stage) -> nat {
    match stage {
        Stage::CheckingRepo => 0,
        Stage::CreatingStore => 1,
        Stage::FindingEnclosing => 2,
        Stage::Initializing => 3,
        Stage::WritingGitignore => 4,
        Stage::ReadingRemote => 5,
        Stage::SettingRemote => 6,
        Stage::RemovingRemote => 6,
        Stage::ReadingStatus => 7,
        Stage::NamingMachine => 8,
        Stage::Adding => 9,
        Stage::Committing => 10,
        Stage::ReadingBranch => 11,
        Stage::CheckingRemoteBranch => 12,
        Stage::ReadingHead => 13,
        Stage::Pulling => 14,
        Stage::ReadingNewHead => 15,
        Stage::ReadingArrivals => 16,
        Stage::ReadingConflicts => 17,
        Stage::Aborting => 18,
        Stage::Pushing => 19,
        Stage::Finished => 20,
    }
}

/// Where a run stands after the events `es`, one after another.
pub open spec fn after(s: RunView, es: Seq<EventView>) -> RunView
    decreases es.len(),
{
    if es.len() == 0 {
        s
    } else {
        next(after(s, es.drop_last()), es.last()).0
    }
}

/// The action a run asks for in answer to the `j`th event.
pub open spec fn action_at(s: RunView, es: Seq<EventView>, j: int) -> ActionView {
    next(after(s, es.take(j)), es[j]).1
}

/// Whether each event came while the run was waiting for one of its kind.
pub open spec fn well_fed(s: RunView, es: Seq<EventView>) -> bool {
    forall|i: int| 0 <= i < es.len() ==> expects(#[trigger] after(s, es.take(i)).stage, es[i])
}

/// Whether an action runs `git pull`.
pub open spec fn is_pull(a: ActionView) -> bool {
    a matches ActionView::Git(args) && args.len() == 4 && args[0] == "pull"@
}

/// Whether an action runs `git push`.
pub open spec fn is_push(a: ActionView) -> bool {
    a matches ActionView::Git(args) && args.len() == 4 && args[0] == "push"@
}

/// Whether the `i`th event completed this machine's commit: the status
/// answered with nothing changed, or the commit answered with success.
pub open spec fn committed_at(s: RunView, es: Seq<EventView>, i: int) -> bool {
    let si = after(s, es.take(i));
    ||| si.stage == Stage::ReadingStatus && nothing_changed(ran_of(es[i]))
    ||| si.stage == Stage::Committing && done_spec(commit_args(si.message), ran_of(es[i])) is Ok
}

/// Whether `git status` answered that nothing changed.
pub open spec fn nothing_changed(ran: Result<GitOutputView, Seq<char>>) -> bool {
    match changed_paths_spec(ran) {
        Ok(c) => c.len() == 0,
        Err(_) => false,
    }
}

/// Whether an action reports a sync that had no remote.
pub open spec fn reports_without_remote(a: ActionView) -> bool {
    match a {
        ActionView::Report(r) => r.remote is None,
        _ => false,
    }
}

/// Whether an action reports a sync that stopped on a conflict.
pub open spec fn reports_conflict(a: ActionView) -> bool {
    match a {
        ActionView::Report(r) => r.conflicted.len() > 0,
        _ => false,
    }
}

/// Whether an action reports a sync that pulled and pushed nothing.
pub open spec fn reports_no_exchange(a: ActionView) -> bool {
    match a {
        ActionView::Report(r) => !r.pushed && r.pulled.len() == 0,
        _ => false,
    }
}

/// What holds of a run's report at every point: nothing is pulled, pushed or
/// in conflict before the pull; past the commit a running sync has a remote;
/// without a remote nothing was exchanged; a conflict ends the run with
/// nothing pulled or pushed.
pub open spec fn report_inv(s: RunView) -> bool {
    &&& (rank(s.stage) <= rank(Stage::Pulling) || s.stage == Stage::ReadingConflicts || s.stage
        == Stage::Aborting) ==> (!s.report.pushed && s.report.pulled.len() == 0
        && s.report.conflicted.len() == 0)
    &&& (rank(s.stage) > rank(Stage::Committing) && s.stage != Stage::Finished) ==> s.report.remote is Some
    &&& s.report.remote is None ==> (!s.report.pushed && s.report.pulled.len() == 0
        && s.report.conflicted.len() == 0)
    &&& s.report.conflicted.len() > 0 ==> (s.stage == Stage::Finished && !s.report.pushed
        && s.report.pulled.len() == 0)
}

proof fn lemma_after_push(s: RunView, es: Seq<EventView>, e: EventView)
    ensures
        after(s, es.push(e)) == next(after(s, es), e).0,
        forall|i: int| 0 <= i <= es.len() ==> #[trigger] es.push(e).take(i) == es.take(i),
{
    assert(es.push(e).drop_last() =~= es);
    assert forall|i: int| 0 <= i <= es.len() implies #[trigger] es.push(e).take(i) == es.take(i) by {
        assert(es.push(e).take(i) =~= es.take(i));
    }
}

/// Every step moves a run to a later stage, so every flow ends within as
/// many steps as there are stages.
pub proof fn law_every_step_moves_forward(s: RunView, e: EventView)
    requires
        expects(s.stage, e),
    ensures
        rank(next(s, e).0.stage) > rank(s.stage),
{
}

proof fn lemma_inv_step(s: RunView, e: EventView)
    requires
        report_inv(s),
        expects(s.stage, e),
    ensures
        report_inv(next(s, e).0),
{
}

/// A run that starts as a flow starts keeps `report_inv` through any events
/// it is fed.
pub proof fn law_report_inv_holds(s: RunView, es: Seq<EventView>)
    requires
        report_inv(s),
        well_fed(s, es),
    ensures
        report_inv(after(s, es)),
    decreases es.len(),
{
    if es.len() > 0 {
        let p = es.drop_last();
        assert(es =~= p.push(es.last()));
        lemma_after_push(s, p, es.last());
        assert forall|i: int| 0 <= i < p.len() implies expects(#[trigger] after(s, p.take(i)).stage, p[i]) by {
            assert(es.take(i) == p.take(i));
            assert(expects(after(s, es.take(i)).stage, es[i]));
        }
        law_report_inv_holds(s, p);
        assert(es.take(p.len() as int) == p);
        assert(expects(after(s, es.take(p.len() as int)).stage, es[p.len() as int]));
        lemma_inv_step(after(s, p), es.last());
    }
}

/// A flow's starting point keeps `report_inv`.
pub proof fn law_start_keeps_report_inv(flow: Flow, store: Seq<char>, url: Seq<char>)
    ensures
        report_inv(start_view(flow, store, url)),
{
}

proof fn lemma_first_words()
    ensures
        "pull"@ != "push"@,
        "pull"@ != "diff"@,
        "pull"@ != "remote"@,
        "pull"@ != "ls-remote"@,
        "push"@ != "diff"@,
        "push"@ != "remote"@,
        "push"@ != "ls-remote"@,
{
    reveal_strlit("pull");
    reveal_strlit("push");
    reveal_strlit("diff");
    reveal_strlit("remote");
    reveal_strlit("ls-remote");
    assert("pull"@[2] != "push"@[2]);
    assert("pull"@[0] != "diff"@[0]);
    assert("push"@[0] != "diff"@[0]);
    assert("pull"@.len() != "remote"@.len());
    assert("pull"@.len() != "ls-remote"@.len());
}

proof fn lemma_pull_only_from_head(s: RunView, e: EventView)
    requires
        expects(s.stage, e),
        is_pull(next(s, e).1),
    ensures
        s.stage == Stage::ReadingHead,
{
    lemma_first_words();
}

proof fn lemma_push_only_late(s: RunView, e: EventView)
    requires
        expects(s.stage, e),
        is_push(next(s, e).1),
    ensures
        rank(s.stage) > rank(Stage::Committing),
        s.stage != Stage::Finished,
{
    lemma_first_words();
}

proof fn lemma_commit_evidence(s: RunView, es: Seq<EventView>)
    requires
        well_fed(s, es),
        rank(s.stage) <= rank(Stage::Committing),
    ensures
        (rank(after(s, es).stage) > rank(Stage::Committing) && after(s, es).stage != Stage::Finished)
            ==> exists|i: int| 0 <= i < es.len() && #[trigger] committed_at(s, es, i),
    decreases es.len(),
{
    if es.len() > 0 {
        let p = es.drop_last();
        let e = es.last();
        assert(es =~= p.push(e));
        lemma_after_push(s, p, e);
        assert forall|i: int| 0 <= i < p.len() implies expects(#[trigger] after(s, p.take(i)).stage, p[i]) by {
            assert(es.take(i) == p.take(i));
            assert(expects(after(s, es.take(i)).stage, es[i]));
        }
        lemma_commit_evidence(s, p);
        let sp = after(s, p);
        assert(es.take(p.len() as int) == p);
        assert(expects(after(s, es.take(p.len() as int)).stage, es[p.len() as int]));
        law_every_step_moves_forward(sp, e);
        if rank(after(s, es).stage) > rank(Stage::Committing) && after(s, es).stage != Stage::Finished {
            if rank(sp.stage) > rank(Stage::Committing) && sp.stage != Stage::Finished {
                let i = choose|i: int| 0 <= i < p.len() && #[trigger] committed_at(s, p, i);
                assert(es.take(i) == p.take(i));
                assert(es[i] == p[i]);
                assert(committed_at(s, es, i));
            } else {
                assert(committed_at(s, es, p.len() as int));
            }
        }
    }
}

/// A run's state after the first `j` events is reached by a well-fed
/// prefix.
proof fn lemma_prefix_well_fed(s: RunView, es: Seq<EventView>, j: int)
    requires
        well_fed(s, es),
        0 <= j <= es.len(),
    ensures
        well_fed(s, es.take(j)),
{
    assert forall|i: int| 0 <= i < es.take(j).len() implies expects(#[trigger] after(s, es.take(j).take(i)).stage, es.take(j)[i]) by {
        assert(es.take(j).take(i) =~= es.take(i));
    }
}

/// This machine's insights are committed before anything is pulled: in any
/// run, every `git pull` it asks for comes after an event that completed the
/// commit (the status showed nothing to commit, or the commit succeeded).
pub proof fn law_sync_commits_before_pulling(flow: Flow, store: Seq<char>, url: Seq<char>, es: Seq<EventView>)
    requires
        well_fed(start_view(flow, store, url), es),
    ensures
        forall|j: int|
            0 <= j < es.len() && is_pull(#[trigger] action_at(start_view(flow, store, url), es, j))
                ==> exists|i: int| 0 <= i < j && #[trigger] committed_at(start_view(flow, store, url), es, i),
{
    let s0 = start_view(flow, store, url);
    assert forall|j: int|
        0 <= j < es.len() && is_pull(#[trigger] action_at(s0, es, j)) implies exists|i: int|
        0 <= i < j && #[trigger] committed_at(s0, es, i) by {
        let pre = es.take(j);
        lemma_prefix_well_fed(s0, es, j);
        assert(expects(after(s0, es.take(j)).stage, es[j]));
        lemma_pull_only_from_head(after(s0, pre), es[j]);
        lemma_commit_evidence(s0, pre);
        let i = choose|i: int| 0 <= i < pre.len() && #[trigger] committed_at(s0, pre, i);
        assert(pre.take(i) =~= es.take(i));
        assert(pre[i] == es[i]);
        assert(committed_at(s0, es, i));
    }
}

/// A store without a remote is only committed to: a run pulls or pushes only
/// once it has found a remote, and a report without one shows nothing pulled
/// or pushed.
pub proof fn law_no_remote_no_exchange(flow: Flow, store: Seq<char>, url: Seq<char>, es: Seq<EventView>)
    requires
        well_fed(start_view(flow, store, url), es),
    ensures
        forall|j: int|
            0 <= j < es.len() && (is_pull(#[trigger] action_at(start_view(flow, store, url), es, j))
                || is_push(action_at(start_view(flow, store, url), es, j))) ==> after(
                start_view(flow, store, url),
                es.take(j),
            ).report.remote is Some,
        forall|j: int|
            0 <= j < es.len() && reports_without_remote(#[trigger] action_at(start_view(flow, store, url), es, j))
                ==> reports_no_exchange(action_at(start_view(flow, store, url), es, j)),
{
    let s0 = start_view(flow, store, url);
    assert forall|j: int| 0 <= j < es.len() implies (reports_without_remote(#[trigger] action_at(s0, es, j))
        ==> reports_no_exchange(action_at(s0, es, j))) && ((is_pull(action_at(s0, es, j))
        || is_push(action_at(s0, es, j))) ==> after(s0, es.take(j)).report.remote is Some) by {
        lemma_prefix_well_fed(s0, es, j);
        law_report_inv_holds(s0, es.take(j));
        assert(expects(after(s0, es.take(j)).stage, es[j]));
        lemma_inv_step(after(s0, es.take(j)), es[j]);
        if is_pull(action_at(s0, es, j)) {
            lemma_pull_only_from_head(after(s0, es.take(j)), es[j]);
        }
        if is_push(action_at(s0, es, j)) {
            lemma_push_only_late(after(s0, es.take(j)), es[j]);
        }
    }
}

/// A conflict stops the sync with the store as it was: a report that names
/// conflicts has pulled and pushed nothing, and the run's last request
/// before it was `git rebase --abort`.
pub proof fn law_conflict_stops_the_sync(flow: Flow, store: Seq<char>, url: Seq<char>, es: Seq<EventView>)
    requires
        well_fed(start_view(flow, store, url), es),
    ensures
        forall|j: int|
            0 <= j < es.len() && reports_conflict(#[trigger] action_at(start_view(flow, store, url), es, j))
                ==> reports_no_exchange(action_at(start_view(flow, store, url), es, j)) && j > 0 && action_at(
                start_view(flow, store, url),
                es,
                j - 1,
            ) == ActionView::Git(abort_args()),
{
    let s0 = start_view(flow, store, url);
    assert forall|j: int| 0 <= j < es.len() && reports_conflict(#[trigger] action_at(s0, es, j)) implies reports_no_exchange(
        action_at(s0, es, j),
    ) && j > 0 && action_at(s0, es, j - 1) == ActionView::Git(abort_args()) by {
        lemma_prefix_well_fed(s0, es, j);
        law_report_inv_holds(s0, es.take(j));
        let sj = after(s0, es.take(j));
        assert(expects(sj.stage, es[j]));
        lemma_inv_step(sj, es[j]);
        {
            assert(sj.stage == Stage::Aborting);
            assert(j > 0);
            let pre = es.take(j - 1);
            lemma_prefix_well_fed(s0, es, j - 1);
            assert(es.take(j) =~= pre.push(es[j - 1]));
            lemma_after_push(s0, pre, es[j - 1]);
            assert(expects(after(s0, es.take(j - 1)).stage, es[j - 1]));
            law_every_step_moves_forward(after(s0, pre), es[j - 1]);
        }
    }
}

/// Whether git arguments are one of the commands a run asks for: reading
/// the store's state, committing, pulling, pushing and setting the remote.
/// None of them creates or switches a branch.
pub open spec fn run_command(args: Seq<Seq<char>>) -> bool {
    ||| args == status_args()
    ||| args == branch_args()
    ||| args == head_args()
    ||| args == conflicted_args()
    ||| args == remote_url_args()
    ||| args == remove_remote_args()
    ||| args == abort_args()
    ||| args == add_args()
    ||| args == init_args()
    ||| args == toplevel_args()
    ||| exists|m: Seq<char>| args == #[trigger] commit_args(m)
    ||| exists|c: Seq<char>| args == #[trigger] changed_since_args(c)
    ||| exists|b: Seq<char>| args == #[trigger] crate::git::ls_remote_args(b)
    ||| exists|b: Seq<char>| args == #[trigger] pull_args(b)
    ||| exists|b: Seq<char>| args == #[trigger] push_args(b)
    ||| exists|h: bool, u: Seq<char>| args == #[trigger] set_remote_args(h, u)
}

proof fn lemma_step_stays_on_branch(s: RunView, e: EventView)
    requires
        expects(s.stage, e),
    ensures
        next(s, e).1 matches ActionView::Git(args) ==> run_command(args),
        is_pull(next(s, e).1) ==> next(s, e).1 == ActionView::Git(pull_args(s.branch)),
        is_push(next(s, e).1) ==> next(s, e).1 == ActionView::Git(push_args(s.branch)),
        next(s, e).0.branch != s.branch ==> s.stage == Stage::ReadingBranch && current_branch_spec(
            ran_of(e),
        ) == Ok::<Seq<char>, ErrorView>(next(s, e).0.branch),
{
    lemma_first_words();
    reveal_strlit("pull");
    reveal_strlit("push");
    reveal_strlit("diff");
    reveal_strlit("remote");
    reveal_strlit("ls-remote");
}

/// A sync stays on the branch the store is on (the single-branch decision):
/// every git command a run asks for is one of the run's own, none of which
/// creates or switches a branch; the branch is set only by reading the one
/// the store is on; and every pull and push names that branch on `origin`.
pub proof fn law_sync_is_single_branch(flow: Flow, store: Seq<char>, url: Seq<char>, es: Seq<EventView>)
    requires
        well_fed(start_view(flow, store, url), es),
    ensures
        forall|j: int|
            0 <= j < es.len() ==> (#[trigger] action_at(start_view(flow, store, url), es, j) matches ActionView::Git(
                args,
            ) ==> run_command(args)),
        forall|j: int|
            0 <= j < es.len() && is_pull(#[trigger] action_at(start_view(flow, store, url), es, j))
                ==> action_at(start_view(flow, store, url), es, j) == ActionView::Git(
                pull_args(after(start_view(flow, store, url), es.take(j)).branch),
            ),
        forall|j: int|
            0 <= j < es.len() && is_push(#[trigger] action_at(start_view(flow, store, url), es, j))
                ==> action_at(start_view(flow, store, url), es, j) == ActionView::Git(
                push_args(after(start_view(flow, store, url), es.take(j)).branch),
            ),
        forall|j: int|
            0 <= j < es.len() && #[trigger] after(start_view(flow, store, url), es.take(j + 1)).branch != after(
                start_view(flow, store, url),
                es.take(j),
            ).branch ==> after(start_view(flow, store, url), es.take(j)).stage == Stage::ReadingBranch
                && current_branch_spec(ran_of(es[j])) == Ok::<Seq<char>, ErrorView>(
                after(start_view(flow, store, url), es.take(j + 1)).branch,
            ),
{
    let s0 = start_view(flow, store, url);
    assert forall|j: int| 0 <= j < es.len() implies {
        &&& (#[trigger] action_at(s0, es, j) matches ActionView::Git(args) ==> run_command(args))
        &&& (is_pull(action_at(s0, es, j)) ==> action_at(s0, es, j) == ActionView::Git(
            pull_args(after(s0, es.take(j)).branch),
        ))
        &&& (is_push(action_at(s0, es, j)) ==> action_at(s0, es, j) == ActionView::Git(
            push_args(after(s0, es.take(j)).branch),
        ))
    } by {
        lemma_prefix_well_fed(s0, es, j);
        assert(expects(after(s0, es.take(j)).stage, es[j]));
        lemma_step_stays_on_branch(after(s0, es.take(j)), es[j]);
    }
    assert forall|j: int|
        0 <= j < es.len() && #[trigger] after(s0, es.take(j + 1)).branch != after(s0, es.take(j)).branch implies after(
        s0,
        es.take(j),
    ).stage == Stage::ReadingBranch && current_branch_spec(ran_of(es[j])) == Ok::<Seq<char>, ErrorView>(
        after(s0, es.take(j + 1)).branch,
    ) by {
        lemma_prefix_well_fed(s0, es, j);
        assert(expects(after(s0, es.take(j)).stage, es[j]));
        assert(es.take(j + 1) =~= es.take(j).push(es[j]));
        lemma_after_push(s0, es.take(j), es[j]);
        lemma_step_stays_on_branch(after(s0, es.take(j)), es[j]);
    }
}

proof fn lemma_undo_step(s: RunView, e: EventView)
    ensures
        (s.stage == Stage::Pulling && (ran_of(e) matches Ok(o) && !o.success)) ==> next(s, e).1 == ActionView::Git(
            conflicted_args(),
        ),
        s.stage == Stage::ReadingConflicts ==> next(s, e).1 == ActionView::Git(abort_args()),
        s.stage == Stage::Aborting ==> next(s, e).0.stage == Stage::Finished,
{
}

/// A rebase that stops is undone before the run says anything: a failed
/// pull is answered by reading the conflicted paths, whatever that reading
/// comes to is answered by `git rebase --abort`, and the run ends right
/// after the abort, with the report of the conflict or the error.
pub proof fn law_failed_pull_is_undone(flow: Flow, store: Seq<char>, url: Seq<char>, es: Seq<EventView>)
    requires
        well_fed(start_view(flow, store, url), es),
    ensures
        forall|j: int|
            0 <= j < es.len() && #[trigger] after(start_view(flow, store, url), es.take(j)).stage == Stage::Pulling
                && (ran_of(es[j]) matches Ok(o) && !o.success) ==> action_at(start_view(flow, store, url), es, j)
                == ActionView::Git(conflicted_args()),
        forall|j: int|
            0 <= j < es.len() && #[trigger] after(start_view(flow, store, url), es.take(j)).stage
                == Stage::ReadingConflicts ==> action_at(start_view(flow, store, url), es, j) == ActionView::Git(
                abort_args(),
            ),
        forall|j: int|
            0 <= j < es.len() && #[trigger] after(start_view(flow, store, url), es.take(j)).stage == Stage::Aborting
                ==> after(start_view(flow, store, url), es.take(j + 1)).stage == Stage::Finished,
{
    let s0 = start_view(flow, store, url);
    assert forall|j: int| 0 <= j < es.len() implies {
        &&& (#[trigger] after(s0, es.take(j)).stage == Stage::Pulling && (ran_of(es[j]) matches Ok(o) && !o.success)
            ==> action_at(s0, es, j) == ActionView::Git(conflicted_args()))
        &&& (after(s0, es.take(j)).stage == Stage::ReadingConflicts ==> action_at(s0, es, j) == ActionView::Git(
            abort_args(),
        ))
        &&& (after(s0, es.take(j)).stage == Stage::Aborting ==> after(s0, es.take(j + 1)).stage == Stage::Finished)
    } by {
        assert(es.take(j + 1) =~= es.take(j).push(es[j]));
        lemma_after_push(s0, es.take(j), es[j]);
        lemma_undo_step(after(s0, es.take(j)), es[j]);
    }
}

} // verus!
