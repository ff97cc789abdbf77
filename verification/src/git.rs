//! Reading what git says about the insight store: the output of each command
//! a sync runs, what it means, and the errors a sync reports.

use vstd::prelude::*;
use crate::store_path::{is_insight_file, is_insight_file_spec};
use crate::text::{
    char_utf8_len, chars_of, decimal, decimal_exec, extend, join, join_exec, lines, lines_exec,
    slice_vec, string_of, trim, trim_chars, trim_end, trim_end_chars, utf8_len,
};

verus! {

broadcast use vstd::string::group_string_axioms;

/// What a git command produced when it ran: whether it exited successfully,
/// and its output streams, decoded as UTF-8 with invalid sequences replaced.
pub struct GitOutput {
    pub success: bool,
    pub stdout: String,
    pub stderr: String,
}

/// The mathematical content of a command's output.
pub struct GitOutputView {
    pub success: bool,
    pub stdout: Seq<char>,
    pub stderr: Seq<char>,
}

impl View for GitOutput {
    type V = GitOutputView;

    open spec fn view(&self) -> GitOutputView {
        GitOutputView { success: self.success, stdout: self.stdout@, stderr: self.stderr@ }
    }
}

/// What running a git command came to: its output, or why git could not be
/// run at all.
pub open spec fn ran_view(r: Result<GitOutput, String>) -> Result<GitOutputView, Seq<char>> {
    match r {
        Ok(o) => Ok(o@),
        Err(e) => Err(e@),
    }
}

/// Why a sync, or setting one up, failed.
#[derive(Debug, PartialEq, Eq)]
pub enum SyncError {
    /// Git could not be started.
    CouldNotRun(String),
    /// A git command exited unsuccessfully: the command's arguments joined
    /// by spaces, and what it printed on stderr, trimmed.
    GitFailed { command: String, stderr: String },
    /// The store is not on a branch.
    NotOnBranch,
    /// A pull failed without leaving a conflict to report: its stderr, trimmed.
    PullFailed(String),
    /// The store lies inside another git repository: the store, and the top
    /// of that repository.
    InsideRepo { store: String, toplevel: String },
    /// Reading or writing a file of the store failed.
    Io(String),
}

/// The mathematical content of a sync error.
pub enum ErrorView {
    CouldNotRun(Seq<char>),
    GitFailed { command: Seq<char>, stderr: Seq<char> },
    NotOnBranch,
    PullFailed(Seq<char>),
    InsideRepo { store: Seq<char>, toplevel: Seq<char> },
    Io(Seq<char>),
}

impl View for SyncError {
    type V = ErrorView;

    open spec fn view(&self) -> ErrorView {
        match self {
            SyncError::CouldNotRun(e) => ErrorView::CouldNotRun(e@),
            SyncError::GitFailed { command, stderr } => ErrorView::GitFailed {
                command: command@,
                stderr: stderr@,
            },
            SyncError::NotOnBranch => ErrorView::NotOnBranch,
            SyncError::PullFailed(e) => ErrorView::PullFailed(e@),
            SyncError::InsideRepo { store, toplevel } => ErrorView::InsideRepo {
                store: store@,
                toplevel: toplevel@,
            },
            SyncError::Io(e) => ErrorView::Io(e@),
        }
    }
}

/// The message a sync error is reported with.
pub open spec fn error_message(e: ErrorView) -> Seq<char> {
    match e {
        ErrorView::CouldNotRun(m) => "Could not run git (is it installed and on PATH?): "@ + m,
        ErrorView::GitFailed { command, stderr } => "git "@ + command + " failed: "@ + stderr,
        ErrorView::NotOnBranch => "The insight store is not on a branch, so there is nothing to sync."@,
        ErrorView::PullFailed(m) => "git pull --rebase failed: "@ + m,
        ErrorView::InsideRepo { store, toplevel } => "The insight store at "@ + store
            + " sits inside the git repository at "@ + toplevel
            + ". Move the store outside it, or set INSIGHTS_ROOT to a directory of its own."@,
        ErrorView::Io(m) => m,
    }
}

/// The concatenation of three strings.
fn concat3(a: &str, b: &str, c: &str) -> (r: String)
    ensures
        r@ == a@ + b@ + c@,
{
    let mut out = chars_of(a);
    extend(&mut out, chars_of(b).as_slice());
    extend(&mut out, chars_of(c).as_slice());
    string_of(out.as_slice())
}

impl SyncError {
    /// The message the error is reported with.
    pub fn message(&self) -> (r: String)
        ensures
            r@ == error_message(self@),
    {
        proof {
            reveal_strlit("");
        }
        match self {
            SyncError::CouldNotRun(m) => concat3(
                "Could not run git (is it installed and on PATH?): ",
                m.as_str(),
                "",
            ),
            SyncError::GitFailed { command, stderr } => {
                let head = concat3("git ", command.as_str(), " failed: ");
                concat3(head.as_str(), stderr.as_str(), "")
            },
            SyncError::NotOnBranch => "The insight store is not on a branch, so there is nothing to sync.".to_string(),
            SyncError::PullFailed(m) => concat3("git pull --rebase failed: ", m.as_str(), ""),
            SyncError::InsideRepo { store, toplevel } => {
                let head = concat3(
                    "The insight store at ",
                    store.as_str(),
                    " sits inside the git repository at ",
                );
                concat3(
                    head.as_str(),
                    toplevel.as_str(),
                    ". Move the store outside it, or set INSIGHTS_ROOT to a directory of its own.",
                )
            },
            SyncError::Io(m) => string_of(chars_of(m.as_str()).as_slice()),
        }
    }
}

/// The views of a sequence of strings.
pub open spec fn strs(v: Seq<String>) -> Seq<Seq<char>> {
    v.map_values(|s: String| s@)
}

/// What a command must have produced for a sync to go on: its standard
/// output without trailing whitespace, or the error it is reported as. Only
/// the end is trimmed, since `git status --porcelain` starts a line with a
/// blank column.
pub open spec fn checked_spec(args: Seq<Seq<char>>, ran: Result<GitOutputView, Seq<char>>) -> Result<
    Seq<char>,
    ErrorView,
> {
    match ran {
        Err(e) => Err(ErrorView::CouldNotRun(e)),
        Ok(o) => if o.success {
            Ok(trim_end(o.stdout))
        } else {
            Err(ErrorView::GitFailed { command: join(args, seq![' ']), stderr: trim(o.stderr) })
        },
    }
}

/// The view of a result carrying text or a sync error.
pub open spec fn text_result(r: Result<String, SyncError>) -> Result<Seq<char>, ErrorView> {
    match r {
        Ok(s) => Ok(s@),
        Err(e) => Err(e@),
    }
}

/// A copy of a string.
fn copy(s: &String) -> (r: String)
    ensures
        r@ == s@,
{
    string_of(chars_of(s.as_str()).as_slice())
}

/// What a command must have produced for a sync to go on.
pub fn run_checked(args: &Vec<String>, ran: &Result<GitOutput, String>) -> (r: Result<String, SyncError>)
    ensures
        text_result(r) == checked_spec(strs(args@), ran_view(*ran)),
{
    match ran {
        Err(e) => Err(SyncError::CouldNotRun(copy(e))),
        Ok(o) => {
            if o.success {
                let out = trim_end_chars(chars_of(o.stdout.as_str()).as_slice());
                Ok(string_of(out.as_slice()))
            } else {
                let mut parts: Vec<Vec<char>> = Vec::new();
                let mut i: usize = 0;
                while i < args.len()
                    invariant
                        i <= args@.len(),
                        parts@.map_values(|p: Vec<char>| p@) == strs(args@).take(i as int),
                    decreases args@.len() - i,
                {
                    let ghost before = parts@;
                    parts.push(chars_of(args[i].as_str()));
                    proof {
                        assert(parts@.map_values(|p: Vec<char>| p@) =~= before.map_values(
                            |p: Vec<char>| p@,
                        ).push(args@[i as int]@));
                        assert(strs(args@).take(i + 1) =~= strs(args@).take(i as int).push(
                            args@[i as int]@,
                        ));
                    }
                    i = i + 1;
                }
                proof {
                    assert(strs(args@).take(args@.len() as int) =~= strs(args@));
                }
                let space = [' '];
                let command = join_exec(&parts, &space);
                let err = trim_chars(chars_of(o.stderr.as_str()).as_slice());
                proof {
                    assert(space@ =~= seq![' ']);
                }
                Err(
                    SyncError::GitFailed {
                        command: string_of(command.as_slice()),
                        stderr: string_of(err.as_slice()),
                    },
                )
            }
        },
    }
}

// ---------------------------------------------------------------------------
// Paths in git's output
// ---------------------------------------------------------------------------

/// The lines of output that hold something, trimmed.
pub open spec fn nonblank_trimmed(ls: Seq<Seq<char>>) -> Seq<Seq<char>>
    decreases ls.len(),
{
    if ls.len() == 0 {
        seq![]
    } else {
        let rest = nonblank_trimmed(ls.drop_last());
        let t = trim(ls.last());
        if t.len() == 0 {
            rest
        } else {
            rest.push(t)
        }
    }
}

/// The paths in git's line-per-path output: each line trimmed, blank ones
/// dropped.
pub open spec fn paths_spec(output: Seq<char>) -> Seq<Seq<char>> {
    nonblank_trimmed(lines(output))
}

/// The paths in git's line-per-path output.
pub fn paths(output: &str) -> (r: Vec<String>)
    ensures
        strs(r@) == paths_spec(output@),
{
    let ls = lines_exec(chars_of(output).as_slice());
    let ghost all = lines(output@);
    let mut out: Vec<String> = Vec::new();
    let mut i: usize = 0;
    while i < ls.len()
        invariant
            i <= ls@.len(),
            ls@.len() == all.len(),
            forall|k: int| 0 <= k < ls@.len() ==> #[trigger] ls@[k]@ == all[k],
            strs(out@) == nonblank_trimmed(all.take(i as int)),
        decreases ls@.len() - i,
    {
        let t = trim_chars(ls[i].as_slice());
        proof {
            assert(all.take(i + 1).drop_last() =~= all.take(i as int));
            assert(all.take(i + 1).last() == all[i as int]);
        }
        if t.len() > 0 {
            let ghost before = out@;
            out.push(string_of(t.as_slice()));
            proof {
                assert(strs(out@) =~= strs(before).push(t@));
            }
        }
        i = i + 1;
    }
    proof {
        assert(all.take(ls@.len() as int) =~= all);
    }
    out
}

/// What is left of `s` past its first `n` bytes in UTF-8, `str::get(n..)`:
/// none when `s` is shorter or the `n`th byte falls inside a character.
pub open spec fn after_bytes(s: Seq<char>, n: int) -> Option<Seq<char>>
    decreases s.len(),
{
    if n == 0 {
        Some(s)
    } else if n < 0 || s.len() == 0 {
        None
    } else if utf8_len(seq![s[0]]) > n {
        None
    } else {
        after_bytes(s.drop_first(), n - utf8_len(seq![s[0]]))
    }
}

/// What is left of `s` past its first `n` bytes.
fn after_bytes_exec(s: &[char], n: usize) -> (r: Option<Vec<char>>)
    ensures
        match r {
            Some(t) => after_bytes(s@, n as int) == Some(t@),
            None => after_bytes(s@, n as int) is None,
        },
{
    let mut i: usize = 0;
    let mut left: usize = n;
    proof {
        assert(s@.skip(0) =~= s@);
    }
    while left > 0
        invariant
            i <= s@.len(),
            after_bytes(s@, n as int) == after_bytes(s@.skip(i as int), left as int),
        decreases left,
    {
        if i >= s.len() {
            return None;
        }
        let w = char_utf8_len(s[i]);
        proof {
            let t = s@.skip(i as int);
            assert(t[0] == s@[i as int]);
            assert(t.drop_first() =~= s@.skip(i + 1));
        }
        if w > left {
            return None;
        }
        left = left - w;
        i = i + 1;
    }
    let rest = slice_vec(s, i, s.len());
    proof {
        assert(rest@ =~= s@.skip(i as int));
    }
    Some(rest)
}

/// The paths in `git status --porcelain` lines: each line past its status
/// columns (its first three bytes), trimmed, blank ones dropped.
pub open spec fn status_paths(ls: Seq<Seq<char>>) -> Seq<Seq<char>>
    decreases ls.len(),
{
    if ls.len() == 0 {
        seq![]
    } else {
        let rest = status_paths(ls.drop_last());
        match after_bytes(ls.last(), 3) {
            Some(p) => if trim(p).len() == 0 {
                rest
            } else {
                rest.push(trim(p))
            },
            None => rest,
        }
    }
}

/// The arguments of `git status` as a sync runs it.
pub open spec fn status_args() -> Seq<Seq<char>> {
    seq!["status"@, "--porcelain"@, "--untracked-files=all"@]
}

/// The paths changed since the last sync, from what `git status` produced.
pub open spec fn changed_paths_spec(ran: Result<GitOutputView, Seq<char>>) -> Result<Seq<Seq<char>>, ErrorView> {
    match checked_spec(status_args(), ran) {
        Ok(text) => Ok(status_paths(lines(text))),
        Err(e) => Err(e),
    }
}

/// The view of a result carrying paths or a sync error.
pub open spec fn paths_result(r: Result<Vec<String>, SyncError>) -> Result<Seq<Seq<char>>, ErrorView> {
    match r {
        Ok(v) => Ok(strs(v@)),
        Err(e) => Err(e@),
    }
}

/// A vector of strings made from string literals.
fn string_vec(items: &[&str]) -> (r: Vec<String>)
    ensures
        strs(r@) == items@.map_values(|s: &str| s@),
{
    let mut out: Vec<String> = Vec::new();
    let mut i: usize = 0;
    while i < items.len()
        invariant
            i <= items@.len(),
            strs(out@) == items@.map_values(|s: &str| s@).take(i as int),
        decreases items@.len() - i,
    {
        let ghost before = out@;
        out.push(items[i].to_string());
        proof {
            assert(strs(out@) =~= strs(before).push(items@[i as int]@));
            assert(items@.map_values(|s: &str| s@).take(i + 1) =~= items@.map_values(|s: &str| s@).take(
                i as int,
            ).push(items@[i as int]@));
        }
        i = i + 1;
    }
    proof {
        assert(items@.map_values(|s: &str| s@).take(items@.len() as int) =~= items@.map_values(
            |s: &str| s@,
        ));
    }
    out
}

/// The arguments of `git status` as a sync runs it.
pub fn status_command() -> (r: Vec<String>)
    ensures
        strs(r@) == status_args(),
{
    let items = ["status", "--porcelain", "--untracked-files=all"];
    let r = string_vec(&items);
    proof {
        assert(items@.map_values(|s: &str| s@) =~= status_args());
    }
    r
}

/// The insights changed since the last sync (added, edited, deleted, or new
/// to git), as paths relative to the store, from what `git status` produced.
pub fn changed_paths(ran: &Result<GitOutput, String>) -> (r: Result<Vec<String>, SyncError>)
    ensures
        paths_result(r) == changed_paths_spec(ran_view(*ran)),
{
    let args = status_command();
    let text = match run_checked(&args, ran) {
        Ok(t) => t,
        Err(e) => return Err(e),
    };
    let ls = lines_exec(chars_of(text.as_str()).as_slice());
    let ghost all = lines(text@);
    let mut out: Vec<String> = Vec::new();
    let mut i: usize = 0;
    while i < ls.len()
        invariant
            i <= ls@.len(),
            ls@.len() == all.len(),
            forall|k: int| 0 <= k < ls@.len() ==> #[trigger] ls@[k]@ == all[k],
            strs(out@) == status_paths(all.take(i as int)),
        decreases ls@.len() - i,
    {
        proof {
            assert(all.take(i + 1).drop_last() =~= all.take(i as int));
            assert(all.take(i + 1).last() == all[i as int]);
        }
        if let Some(p) = after_bytes_exec(ls[i].as_slice(), 3) {
            let t = trim_chars(p.as_slice());
            if t.len() > 0 {
                let ghost before = out@;
                out.push(string_of(t.as_slice()));
                proof {
                    assert(strs(out@) =~= strs(before).push(t@));
                }
            }
        }
        i = i + 1;
    }
    proof {
        assert(all.take(ls@.len() as int) =~= all);
    }
    Ok(out)
}

/// The insights among some paths, in order.
pub open spec fn insight_paths(ps: Seq<Seq<char>>) -> Seq<Seq<char>>
    decreases ps.len(),
{
    if ps.len() == 0 {
        seq![]
    } else if is_insight_file_spec(ps.last()) {
        insight_paths(ps.drop_last()).push(ps.last())
    } else {
        insight_paths(ps.drop_last())
    }
}

/// The insights among some changed paths, in order: a sync commits
/// everything in the store, but only insights are worth telling the
/// operator about.
pub fn only_insights(paths: &[String]) -> (r: Vec<String>)
    ensures
        strs(r@) == insight_paths(strs(paths@)),
{
    let ghost all = strs(paths@);
    let mut out: Vec<String> = Vec::new();
    let mut i: usize = 0;
    while i < paths.len()
        invariant
            i <= paths@.len(),
            all == strs(paths@),
            strs(out@) == insight_paths(all.take(i as int)),
        decreases paths@.len() - i,
    {
        proof {
            assert(all.take(i + 1).drop_last() =~= all.take(i as int));
            assert(all.take(i + 1).last() == all[i as int]);
        }
        if is_insight_file(paths[i].as_str()) {
            let ghost before = out@;
            out.push(copy(&paths[i]));
            proof {
                assert(strs(out@) =~= strs(before).push(all[i as int]));
            }
        }
        i = i + 1;
    }
    proof {
        assert(all.take(paths@.len() as int) =~= all);
    }
    out
}

// ---------------------------------------------------------------------------
// One command each
// ---------------------------------------------------------------------------

/// A command's arguments: fixed words, then one more.
fn command_then(items: &[&str], last: &str) -> (r: Vec<String>)
    ensures
        strs(r@) == items@.map_values(|s: &str| s@).push(last@),
{
    let mut r = string_vec(items);
    let ghost before = r@;
    r.push(string_of(chars_of(last).as_slice()));
    proof {
        assert(strs(r@) =~= strs(before).push(last@));
    }
    r
}

/// The arguments of `git branch --show-current`.
pub open spec fn branch_args() -> Seq<Seq<char>> {
    seq!["branch"@, "--show-current"@]
}

/// The branch the store is on, from what `git branch --show-current`
/// produced: an error when it names none.
pub open spec fn current_branch_spec(ran: Result<GitOutputView, Seq<char>>) -> Result<Seq<char>, ErrorView> {
    match checked_spec(branch_args(), ran) {
        Ok(b) => if b.len() == 0 {
            Err(ErrorView::NotOnBranch)
        } else {
            Ok(b)
        },
        Err(e) => Err(e),
    }
}

/// The arguments of `git branch --show-current`.
pub fn branch_command() -> (r: Vec<String>)
    ensures
        strs(r@) == branch_args(),
{
    let items = ["branch", "--show-current"];
    let r = string_vec(&items);
    proof {
        assert(items@.map_values(|s: &str| s@) =~= branch_args());
    }
    r
}

/// The branch the store is on.
pub fn current_branch(ran: &Result<GitOutput, String>) -> (r: Result<String, SyncError>)
    ensures
        text_result(r) == current_branch_spec(ran_view(*ran)),
{
    let args = branch_command();
    match run_checked(&args, ran) {
        Ok(b) => if chars_of(b.as_str()).len() == 0 {
            Err(SyncError::NotOnBranch)
        } else {
            Ok(b)
        },
        Err(e) => Err(e),
    }
}

/// The arguments of `git rev-parse HEAD`.
pub open spec fn head_args() -> Seq<Seq<char>> {
    seq!["rev-parse"@, "HEAD"@]
}

/// The arguments of `git rev-parse HEAD`.
pub fn head_command() -> (r: Vec<String>)
    ensures
        strs(r@) == head_args(),
{
    let items = ["rev-parse", "HEAD"];
    let r = string_vec(&items);
    proof {
        assert(items@.map_values(|s: &str| s@) =~= head_args());
    }
    r
}

/// The commit the store is on, from what `git rev-parse HEAD` produced:
/// none before the first commit, or when git could not run.
pub open spec fn head_spec(ran: Result<GitOutputView, Seq<char>>) -> Option<Seq<char>> {
    match ran {
        Ok(o) => if o.success {
            Some(trim(o.stdout))
        } else {
            None
        },
        Err(_) => None,
    }
}

/// The view of an optional string.
pub open spec fn opt_text(o: Option<String>) -> Option<Seq<char>> {
    match o {
        Some(s) => Some(s@),
        None => None,
    }
}

/// The commit the store is on.
pub fn head(ran: &Result<GitOutput, String>) -> (r: Option<String>)
    ensures
        opt_text(r) == head_spec(ran_view(*ran)),
{
    match ran {
        Ok(o) => if o.success {
            Some(string_of(trim_chars(chars_of(o.stdout.as_str()).as_slice()).as_slice()))
        } else {
            None
        },
        Err(_) => None,
    }
}

/// The arguments of `git diff --name-only <commit> HEAD`.
pub open spec fn changed_since_args(commit: Seq<char>) -> Seq<Seq<char>> {
    seq!["diff"@, "--name-only"@, commit, "HEAD"@]
}

/// The arguments of `git diff --name-only <commit> HEAD`.
pub fn changed_since_command(commit: &str) -> (r: Vec<String>)
    ensures
        strs(r@) == changed_since_args(commit@),
{
    let items = ["diff", "--name-only"];
    let mut r = command_then(&items, commit);
    let ghost before = r@;
    r.push("HEAD".to_string());
    proof {
        assert(strs(r@) =~= strs(before).push("HEAD"@));
        assert(strs(r@) =~= changed_since_args(commit@));
    }
    r
}

/// The paths that differ between a commit and where the store is now, from
/// what `git diff --name-only <commit> HEAD` produced.
pub open spec fn changed_since_spec(commit: Seq<char>, ran: Result<GitOutputView, Seq<char>>) -> Result<
    Seq<Seq<char>>,
    ErrorView,
> {
    match checked_spec(changed_since_args(commit), ran) {
        Ok(text) => Ok(paths_spec(text)),
        Err(e) => Err(e),
    }
}

/// The paths that differ between a commit and where the store is now.
pub fn changed_since(commit: &str, ran: &Result<GitOutput, String>) -> (r: Result<Vec<String>, SyncError>)
    ensures
        paths_result(r) == changed_since_spec(commit@, ran_view(*ran)),
{
    let args = changed_since_command(commit);
    match run_checked(&args, ran) {
        Ok(text) => Ok(paths(text.as_str())),
        Err(e) => Err(e),
    }
}

/// The arguments of `git diff --name-only --diff-filter=U`.
pub open spec fn conflicted_args() -> Seq<Seq<char>> {
    seq!["diff"@, "--name-only"@, "--diff-filter=U"@]
}

/// The arguments of `git diff --name-only --diff-filter=U`.
pub fn conflicted_command() -> (r: Vec<String>)
    ensures
        strs(r@) == conflicted_args(),
{
    let items = ["diff", "--name-only", "--diff-filter=U"];
    let r = string_vec(&items);
    proof {
        assert(items@.map_values(|s: &str| s@) =~= conflicted_args());
    }
    r
}

/// The paths a stopped rebase could not reconcile, from what
/// `git diff --name-only --diff-filter=U` produced.
pub open spec fn conflicted_paths_spec(ran: Result<GitOutputView, Seq<char>>) -> Result<Seq<Seq<char>>, ErrorView> {
    match checked_spec(conflicted_args(), ran) {
        Ok(text) => Ok(paths_spec(text)),
        Err(e) => Err(e),
    }
}

/// The paths a stopped rebase could not reconcile.
pub fn conflicted_paths(ran: &Result<GitOutput, String>) -> (r: Result<Vec<String>, SyncError>)
    ensures
        paths_result(r) == conflicted_paths_spec(ran_view(*ran)),
{
    let args = conflicted_command();
    match run_checked(&args, ran) {
        Ok(text) => Ok(paths(text.as_str())),
        Err(e) => Err(e),
    }
}

/// The arguments of `git remote get-url origin`.
pub open spec fn remote_url_args() -> Seq<Seq<char>> {
    seq!["remote"@, "get-url"@, "origin"@]
}

/// The arguments of `git remote get-url origin`.
pub fn remote_url_command() -> (r: Vec<String>)
    ensures
        strs(r@) == remote_url_args(),
{
    let items = ["remote", "get-url", "origin"];
    let r = string_vec(&items);
    proof {
        assert(items@.map_values(|s: &str| s@) =~= remote_url_args());
    }
    r
}

/// The URL the store syncs through, from what `git remote get-url origin`
/// produced: none when git fails, could not run, or names nothing.
pub open spec fn remote_url_spec(ran: Result<GitOutputView, Seq<char>>) -> Option<Seq<char>> {
    match ran {
        Ok(o) => if o.success && trim(o.stdout).len() > 0 {
            Some(trim(o.stdout))
        } else {
            None
        },
        Err(_) => None,
    }
}

/// The URL the store syncs through, if one is set.
pub fn remote_url(ran: &Result<GitOutput, String>) -> (r: Option<String>)
    ensures
        opt_text(r) == remote_url_spec(ran_view(*ran)),
{
    match ran {
        Ok(o) => {
            if !o.success {
                return None;
            }
            let url = trim_chars(chars_of(o.stdout.as_str()).as_slice());
            if url.len() > 0 {
                Some(string_of(url.as_slice()))
            } else {
                None
            }
        },
        Err(_) => None,
    }
}

/// The arguments of `git ls-remote --heads origin <branch>`.
pub open spec fn ls_remote_args(branch: Seq<char>) -> Seq<Seq<char>> {
    seq!["ls-remote"@, "--heads"@, "origin"@, branch]
}

/// The arguments of `git ls-remote --heads origin <branch>`.
pub fn ls_remote_command(branch: &str) -> (r: Vec<String>)
    ensures
        strs(r@) == ls_remote_args(branch@),
{
    let items = ["ls-remote", "--heads", "origin"];
    let r = command_then(&items, branch);
    proof {
        assert(items@.map_values(|s: &str| s@).push(branch@) =~= ls_remote_args(branch@));
    }
    r
}

/// Whether the remote has the branch, from what `git ls-remote` produced:
/// it succeeded and printed something.
pub open spec fn remote_has_branch_spec(ran: Result<GitOutputView, Seq<char>>) -> bool {
    match ran {
        Ok(o) => o.success && o.stdout.len() > 0,
        Err(_) => false,
    }
}

/// Whether the remote has a branch to pull, which it does not before the
/// first push to an empty repository.
pub fn remote_has_branch(ran: &Result<GitOutput, String>) -> (r: bool)
    ensures
        r == remote_has_branch_spec(ran_view(*ran)),
{
    match ran {
        Ok(o) => o.success && chars_of(o.stdout.as_str()).len() > 0,
        Err(_) => false,
    }
}

/// The arguments of `git push --set-upstream origin <branch>`.
pub open spec fn push_args(branch: Seq<char>) -> Seq<Seq<char>> {
    seq!["push"@, "--set-upstream"@, "origin"@, branch]
}

/// The arguments of `git push --set-upstream origin <branch>`.
pub fn push_command(branch: &str) -> (r: Vec<String>)
    ensures
        strs(r@) == push_args(branch@),
{
    let items = ["push", "--set-upstream", "origin"];
    let r = command_then(&items, branch);
    proof {
        assert(items@.map_values(|s: &str| s@).push(branch@) =~= push_args(branch@));
    }
    r
}

/// The view of a result carrying nothing or a sync error.
pub open spec fn unit_result(r: Result<(), SyncError>) -> Result<(), ErrorView> {
    match r {
        Ok(()) => Ok(()),
        Err(e) => Err(e@),
    }
}

/// The outcome of a command whose only news is whether it worked.
pub open spec fn done_spec(args: Seq<Seq<char>>, ran: Result<GitOutputView, Seq<char>>) -> Result<(), ErrorView> {
    match checked_spec(args, ran) {
        Ok(_) => Ok(()),
        Err(e) => Err(e),
    }
}

/// Whether sending local commits to the remote worked, from what
/// `git push --set-upstream origin <branch>` produced.
pub fn push(branch: &str, ran: &Result<GitOutput, String>) -> (r: Result<(), SyncError>)
    ensures
        unit_result(r) == done_spec(push_args(branch@), ran_view(*ran)),
{
    let args = push_command(branch);
    match run_checked(&args, ran) {
        Ok(_) => Ok(()),
        Err(e) => Err(e),
    }
}

/// The arguments that point the store at `url`: replacing the remote it has,
/// or adding one.
pub open spec fn set_remote_args(has_remote: bool, url: Seq<char>) -> Seq<Seq<char>> {
    if has_remote {
        seq!["remote"@, "set-url"@, "origin"@, url]
    } else {
        seq!["remote"@, "add"@, "origin"@, url]
    }
}

/// The command that points the store at `url`, given whether it has a
/// remote already.
pub fn set_remote(has_remote: bool, url: &str) -> (r: Vec<String>)
    ensures
        strs(r@) == set_remote_args(has_remote, url@),
{
    if has_remote {
        let items = ["remote", "set-url", "origin"];
        let r = command_then(&items, url);
        proof {
            assert(items@.map_values(|s: &str| s@).push(url@) =~= set_remote_args(true, url@));
        }
        r
    } else {
        let items = ["remote", "add", "origin"];
        let r = command_then(&items, url);
        proof {
            assert(items@.map_values(|s: &str| s@).push(url@) =~= set_remote_args(false, url@));
        }
        r
    }
}

/// The arguments of `git remote remove origin`.
pub open spec fn remove_remote_args() -> Seq<Seq<char>> {
    seq!["remote"@, "remove"@, "origin"@]
}

/// The command that drops the store's remote, when it has one: none is
/// needed otherwise, so dropping it twice is safe.
pub fn remove_remote(has_remote: bool) -> (r: Option<Vec<String>>)
    ensures
        match r {
            Some(v) => has_remote && strs(v@) == remove_remote_args(),
            None => !has_remote,
        },
{
    if !has_remote {
        return None;
    }
    let items = ["remote", "remove", "origin"];
    let r = string_vec(&items);
    proof {
        assert(items@.map_values(|s: &str| s@) =~= remove_remote_args());
    }
    Some(r)
}

/// The arguments of `git remote remove origin`.
pub fn remove_remote_command() -> (r: Vec<String>)
    ensures
        strs(r@) == remove_remote_args(),
{
    let items = ["remote", "remove", "origin"];
    let r = string_vec(&items);
    proof {
        assert(items@.map_values(|s: &str| s@) =~= remove_remote_args());
    }
    r
}

/// The arguments of `git rev-parse --show-toplevel`.
pub open spec fn toplevel_args() -> Seq<Seq<char>> {
    seq!["rev-parse"@, "--show-toplevel"@]
}

/// Whether a store that is not yet a repository may become one, from what
/// `git rev-parse --show-toplevel` produced in it: not when git finds an
/// enclosing repository.
pub open spec fn enclosing_spec(store: Seq<char>, ran: Result<GitOutputView, Seq<char>>) -> Result<(), ErrorView> {
    match ran {
        Err(e) => Err(ErrorView::CouldNotRun(e)),
        Ok(o) => if o.success {
            Err(ErrorView::InsideRepo { store, toplevel: trim(o.stdout) })
        } else {
            Ok(())
        },
    }
}

/// Fails when the store, which is not yet a repository, lies within one:
/// made a repository there it would take that project's remote, and a sync
/// would commit the project's files as insights.
pub fn refuse_enclosing_repo(store: &str, ran: &Result<GitOutput, String>) -> (r: Result<(), SyncError>)
    ensures
        unit_result(r) == enclosing_spec(store@, ran_view(*ran)),
{
    match ran {
        Err(e) => Err(SyncError::CouldNotRun(copy(e))),
        Ok(o) => if o.success {
            Err(
                SyncError::InsideRepo {
                    store: string_of(chars_of(store).as_slice()),
                    toplevel: string_of(trim_chars(chars_of(o.stdout.as_str()).as_slice()).as_slice()),
                },
            )
        } else {
            Ok(())
        },
    }
}

// ---------------------------------------------------------------------------
// Commit messages
// ---------------------------------------------------------------------------

/// The first of some names that holds more than whitespace, trimmed.
pub open spec fn first_name(names: Seq<Option<Seq<char>>>) -> Option<Seq<char>>
    decreases names.len(),
{
    if names.len() == 0 {
        None
    } else {
        match names[0] {
            Some(n) => if trim(n).len() > 0 {
                Some(trim(n))
            } else {
                first_name(names.drop_first())
            },
            None => first_name(names.drop_first()),
        }
    }
}

/// The name of this machine, from the places that may give it, in the order
/// they are asked (`HOSTNAME`, then `COMPUTERNAME`, then the `hostname`
/// command): the first that holds more than whitespace, trimmed.
pub fn machine_name(names: &[Option<String>]) -> (r: Option<String>)
    ensures
        opt_text(r) == first_name(names@.map_values(|o: Option<String>| opt_text(o))),
{
    let ghost all = names@.map_values(|o: Option<String>| opt_text(o));
    let mut i: usize = 0;
    proof {
        assert(all.skip(0) =~= all);
    }
    while i < names.len()
        invariant
            i <= names@.len(),
            all == names@.map_values(|o: Option<String>| opt_text(o)),
            first_name(all) == first_name(all.skip(i as int)),
        decreases names@.len() - i,
    {
        proof {
            assert(all.skip(i as int)[0] == opt_text(names@[i as int]));
            assert(all.skip(i as int).drop_first() =~= all.skip(i + 1));
        }
        if let Some(n) = &names[i] {
            let t = trim_chars(chars_of(n.as_str()).as_slice());
            if t.len() > 0 {
                return Some(string_of(t.as_slice()));
            }
        }
        i = i + 1;
    }
    proof {
        assert(all.skip(i as int).len() == 0);
    }
    None
}

/// The message of the commit a sync makes, named after the insights it
/// carries and, when known, the machine they were written on; a commit that
/// carries no insights says so.
pub open spec fn commit_message_spec(count: nat, machine: Option<Seq<char>>) -> Seq<char> {
    if count == 0 {
        "Sync store settings"@
    } else {
        let base = "Sync "@ + decimal(count) + " insight"@ + if count == 1 {
            Seq::<char>::empty()
        } else {
            "s"@
        };
        match machine {
            Some(m) => base + " from "@ + m,
            None => base,
        }
    }
}

/// The message of the commit a sync makes:
/// `Sync 1 insight from <machine>`, or `Sync store settings`.
pub fn commit_message(insights: &[String], machine: &Option<String>) -> (r: String)
    ensures
        r@ == commit_message_spec(insights@.len(), opt_text(*machine)),
{
    if insights.len() == 0 {
        return "Sync store settings".to_string();
    }
    let mut out = chars_of("Sync ");
    extend(&mut out, decimal_exec(insights.len()).as_slice());
    extend(&mut out, chars_of(" insight").as_slice());
    if insights.len() != 1 {
        extend(&mut out, chars_of("s").as_slice());
    }
    proof {
        assert(out@ =~= "Sync "@ + decimal(insights@.len()) + " insight"@ + if insights@.len() == 1 {
            Seq::<char>::empty()
        } else {
            "s"@
        });
    }
    match machine {
        Some(m) => {
            extend(&mut out, chars_of(" from ").as_slice());
            extend(&mut out, chars_of(m.as_str()).as_slice());
        },
        None => {},
    }
    string_of(out.as_slice())
}

// ---------------------------------------------------------------------------
// Pulling
// ---------------------------------------------------------------------------

/// What pulling did.
#[derive(Debug, PartialEq, Eq)]
pub enum PullOutcome {
    /// The remote's insights are now in the store.
    Merged,
    /// These insights were edited on two machines, and the store was left
    /// as it was for the operator to reconcile.
    Conflicted(Vec<String>),
}

/// The arguments of `git pull --rebase origin <branch>`.
pub open spec fn pull_args(branch: Seq<char>) -> Seq<Seq<char>> {
    seq!["pull"@, "--rebase"@, "origin"@, branch]
}

/// The arguments of `git pull --rebase origin <branch>`.
pub fn pull_command(branch: &str) -> (r: Vec<String>)
    ensures
        strs(r@) == pull_args(branch@),
{
    let items = ["pull", "--rebase", "origin"];
    let r = command_then(&items, branch);
    proof {
        assert(items@.map_values(|s: &str| s@).push(branch@) =~= pull_args(branch@));
    }
    r
}

/// The arguments of `git rebase --abort`.
pub open spec fn abort_args() -> Seq<Seq<char>> {
    seq!["rebase"@, "--abort"@]
}

/// The arguments of `git rebase --abort`, which puts the store back the way
/// it was before a rebase stopped on a conflict.
pub fn abort_command() -> (r: Vec<String>)
    ensures
        strs(r@) == abort_args(),
{
    let items = ["rebase", "--abort"];
    let r = string_vec(&items);
    proof {
        assert(items@.map_values(|s: &str| s@) =~= abort_args());
    }
    r
}

/// What a pull came to: merged when it succeeded; otherwise, once the
/// conflicted paths were read and the rebase undone, the conflict, or, with
/// no path in conflict, the pull's failure.
pub open spec fn pull_outcome_spec(pull: GitOutputView, conflicts: Seq<Seq<char>>) -> Result<
    Option<Seq<Seq<char>>>,
    ErrorView,
> {
    if pull.success {
        Ok(None)
    } else if conflicts.len() == 0 {
        Err(ErrorView::PullFailed(trim(pull.stderr)))
    } else {
        Ok(Some(conflicts))
    }
}

/// The view of a pull's outcome: the conflicted paths, or none when merged.
pub open spec fn outcome_view(r: Result<PullOutcome, SyncError>) -> Result<Option<Seq<Seq<char>>>, ErrorView> {
    match r {
        Ok(PullOutcome::Merged) => Ok(None),
        Ok(PullOutcome::Conflicted(v)) => Ok(Some(strs(v@))),
        Err(e) => Err(e@),
    }
}

/// What replaying local commits on top of the remote's came to, given the
/// pull's output and the paths the stopped rebase could not reconcile.
pub fn pull_rebase(pull: &GitOutput, conflicts: Vec<String>) -> (r: Result<PullOutcome, SyncError>)
    ensures
        outcome_view(r) == pull_outcome_spec(pull@, strs(conflicts@)),
{
    if pull.success {
        Ok(PullOutcome::Merged)
    } else if conflicts.len() == 0 {
        Err(SyncError::PullFailed(string_of(trim_chars(chars_of(pull.stderr.as_str()).as_slice()).as_slice())))
    } else {
        Ok(PullOutcome::Conflicted(conflicts))
    }
}

/// The arguments of `git add --all`.
pub open spec fn add_args() -> Seq<Seq<char>> {
    seq!["add"@, "--all"@]
}

/// The arguments of `git add --all`.
pub fn add_command() -> (r: Vec<String>)
    ensures
        strs(r@) == add_args(),
{
    let items = ["add", "--all"];
    let r = string_vec(&items);
    proof {
        assert(items@.map_values(|s: &str| s@) =~= add_args());
    }
    r
}

/// The arguments of `git commit --message <message>`.
pub open spec fn commit_args(message: Seq<char>) -> Seq<Seq<char>> {
    seq!["commit"@, "--message"@, message]
}

/// The arguments of `git commit --message <message>`.
pub fn commit_command(message: &str) -> (r: Vec<String>)
    ensures
        strs(r@) == commit_args(message@),
{
    let items = ["commit", "--message"];
    let r = command_then(&items, message);
    proof {
        assert(items@.map_values(|s: &str| s@).push(message@) =~= commit_args(message@));
    }
    r
}

/// The arguments of `git init`.
pub open spec fn init_args() -> Seq<Seq<char>> {
    seq!["init"@]
}

/// The arguments of `git init`.
pub fn init_command() -> (r: Vec<String>)
    ensures
        strs(r@) == init_args(),
{
    let items = ["init"];
    let r = string_vec(&items);
    proof {
        assert(items@.map_values(|s: &str| s@) =~= init_args());
    }
    r
}

/// The arguments of `git rev-parse --show-toplevel`.
pub fn toplevel_command() -> (r: Vec<String>)
    ensures
        strs(r@) == toplevel_args(),
{
    let items = ["rev-parse", "--show-toplevel"];
    let r = string_vec(&items);
    proof {
        assert(items@.map_values(|s: &str| s@) =~= toplevel_args());
    }
    r
}

} // verus!
