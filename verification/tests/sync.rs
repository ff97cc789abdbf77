use insights::git::{
    changed_paths, changed_since, commit_message, conflicted_paths, current_branch, head,
    machine_name, only_insights, paths, pull_rebase, push, refuse_enclosing_repo, remote_has_branch,
    remote_url, remove_remote, run_checked, set_remote, status_command, GitOutput, PullOutcome,
    SyncError,
};
use insights::report::{Paint, SyncReport};
use insights::sync_run::{forget_remote, init, sync, Action, Event, Stage, SyncRun};

fn ok(stdout: &str) -> Result<GitOutput, String> {
    Ok(GitOutput { success: true, stdout: stdout.to_string(), stderr: String::new() })
}

fn failed(stderr: &str) -> Result<GitOutput, String> {
    Ok(GitOutput { success: false, stdout: String::new(), stderr: stderr.to_string() })
}

fn strings(items: &[&str]) -> Vec<String> {
    items.iter().map(|s| s.to_string()).collect()
}

/// The arguments of the git command an action asks for.
fn git_args(action: &Action) -> Vec<String> {
    match action {
        Action::Git(args) => args.clone(),
        _ => panic!("expected a git command"),
    }
}

/// Feeds a run the events in order, checking before each that the run asked
/// for the git command given alongside it (when one is given).
fn drive(run: &mut SyncRun, first: Action, script: Vec<(Option<&[&str]>, Event)>) -> Action {
    let mut action = first;
    for (expected, event) in script {
        if let Some(args) = expected {
            assert_eq!(git_args(&action), strings(args));
        }
        action = run.step(event);
    }
    action
}

fn report_of(action: Action) -> SyncReport {
    match action {
        Action::Report(r) => r,
        _ => panic!("expected a report"),
    }
}

fn plain(report: &SyncReport) -> String {
    colored::control::set_override(false);
    report.render()
}

#[test]
fn run_checked_reports_failures_with_the_command() {
    let args = strings(&["status", "--porcelain"]);
    assert_eq!(run_checked(&args, &ok("out \n")), Ok("out".to_string()));
    let err = run_checked(&args, &failed("  fatal: not a repo\n")).unwrap_err();
    assert_eq!(
        err,
        SyncError::GitFailed { command: "status --porcelain".to_string(), stderr: "fatal: not a repo".to_string() }
    );
    assert_eq!(err.message(), "git status --porcelain failed: fatal: not a repo");
    let err = run_checked(&args, &Err("No such file".to_string())).unwrap_err();
    assert_eq!(err.message(), "Could not run git (is it installed and on PATH?): No such file");
}

#[test]
fn paths_drop_blank_lines() {
    assert_eq!(paths("a.insight.md\n\n  b.insight.md  \n"), strings(&["a.insight.md", "b.insight.md"]));
}

#[test]
fn status_lines_give_the_changed_insights() {
    assert_eq!(status_command(), strings(&["status", "--porcelain", "--untracked-files=all"]));
    let out = ok(" M rust/a.insight.md\n?? go/b.insight.md\n M .gitignore\nD  old.insight.md\n");
    let changed = changed_paths(&out).unwrap();
    assert_eq!(changed, strings(&["rust/a.insight.md", "go/b.insight.md", ".gitignore", "old.insight.md"]));
    assert_eq!(only_insights(&changed), strings(&["rust/a.insight.md", "go/b.insight.md", "old.insight.md"]));
}

#[test]
fn branch_head_and_remote_readings() {
    assert_eq!(current_branch(&ok("main\n")), Ok("main".to_string()));
    assert_eq!(current_branch(&ok("\n")), Err(SyncError::NotOnBranch));
    assert_eq!(
        SyncError::NotOnBranch.message(),
        "The insight store is not on a branch, so there is nothing to sync."
    );
    assert_eq!(head(&ok("abc123\n")), Some("abc123".to_string()));
    assert_eq!(head(&failed("fatal: bad revision")), None);
    assert_eq!(remote_url(&ok("git@host:me/insights.git\n")), Some("git@host:me/insights.git".to_string()));
    assert_eq!(remote_url(&failed("error: No such remote")), None);
    assert_eq!(remote_url(&ok("  \n")), None);
    assert!(remote_has_branch(&ok("abc\trefs/heads/main\n")));
    assert!(!remote_has_branch(&ok("")));
    assert!(!remote_has_branch(&failed("x")));
}

#[test]
fn history_readings() {
    assert_eq!(changed_since("abc", &ok("a.insight.md\nb.md\n")), Ok(strings(&["a.insight.md", "b.md"])));
    assert_eq!(conflicted_paths(&ok("rust/a.insight.md\n")), Ok(strings(&["rust/a.insight.md"])));
    assert!(push("main", &ok("")).is_ok());
    assert_eq!(
        push("main", &failed("rejected\n")),
        Err(SyncError::GitFailed {
            command: "push --set-upstream origin main".to_string(),
            stderr: "rejected".to_string()
        })
    );
}

#[test]
fn remote_commands() {
    assert_eq!(set_remote(false, "u"), strings(&["remote", "add", "origin", "u"]));
    assert_eq!(set_remote(true, "u"), strings(&["remote", "set-url", "origin", "u"]));
    assert_eq!(remove_remote(true), Some(strings(&["remote", "remove", "origin"])));
    assert_eq!(remove_remote(false), None);
}

#[test]
fn a_store_inside_a_repository_is_refused() {
    assert!(refuse_enclosing_repo("/work/proj/store", &failed("fatal: not a git repository")).is_ok());
    let err = refuse_enclosing_repo("/work/proj/store", &ok("/work/proj\n")).unwrap_err();
    assert_eq!(
        err,
        SyncError::InsideRepo { store: "/work/proj/store".to_string(), toplevel: "/work/proj".to_string() }
    );
    assert_eq!(
        err.message(),
        "The insight store at /work/proj/store sits inside the git repository at /work/proj. Move the store outside it, or set INSIGHTS_ROOT to a directory of its own."
    );
}

#[test]
fn the_machine_is_named_by_the_first_name_that_holds_something() {
    let names = vec![None, Some("   ".to_string()), Some(" laptop \n".to_string()), Some("other".to_string())];
    assert_eq!(machine_name(&names), Some("laptop".to_string()));
    assert_eq!(machine_name(&[None, Some("".to_string())]), None);
}

#[test]
fn commit_messages_count_the_insights() {
    let one = strings(&["rust/a.insight.md"]);
    let two = strings(&["rust/a.insight.md", "go/b.insight.md"]);
    assert_eq!(commit_message(&one, &Some("laptop".to_string())), "Sync 1 insight from laptop");
    assert_eq!(commit_message(&two, &None), "Sync 2 insights");
    assert_eq!(commit_message(&[], &Some("laptop".to_string())), "Sync store settings");
}

#[test]
fn pulls_merge_conflict_or_fail() {
    let merged = GitOutput { success: true, stdout: String::new(), stderr: String::new() };
    assert_eq!(pull_rebase(&merged, vec![]), Ok(PullOutcome::Merged));
    let stopped = GitOutput { success: false, stdout: String::new(), stderr: " CONFLICT \n".to_string() };
    assert_eq!(
        pull_rebase(&stopped, strings(&["rust/a.insight.md"])),
        Ok(PullOutcome::Conflicted(strings(&["rust/a.insight.md"])))
    );
    assert_eq!(pull_rebase(&stopped, vec![]), Err(SyncError::PullFailed("CONFLICT".to_string())));
    assert_eq!(SyncError::PullFailed("x".to_string()).message(), "git pull --rebase failed: x");
}

#[test]
fn a_sync_without_a_remote_commits_and_stops() {
    let (mut run, first) = sync("/store");
    assert!(matches!(first, Action::CheckRepo));
    let step = run.step(Event::RepoChecked(true));
    assert!(matches!(step, Action::WriteGitignore));
    let step = run.step(Event::GitignoreWritten(Ok(())));
    let last = drive(
        &mut run,
        step,
        vec![
            (Some(&["remote", "get-url", "origin"]), Event::GitRan(failed("error: No such remote 'origin'"))),
            (
                Some(&["status", "--porcelain", "--untracked-files=all"]),
                Event::GitRan(ok("?? rust/async.insight.md\n M .gitignore\n")),
            ),
        ],
    );
    assert!(matches!(last, Action::NameMachine));
    let step = run.step(Event::MachineNamed(Some("laptop".to_string())));
    let last = drive(
        &mut run,
        step,
        vec![
            (Some(&["add", "--all"]), Event::GitRan(ok(""))),
            (Some(&["commit", "--message", "Sync 1 insight from laptop"]), Event::GitRan(ok(""))),
        ],
    );
    assert_eq!(run.stage, Stage::Finished);
    let report = report_of(last);
    assert_eq!(report.committed, strings(&["rust/async.insight.md"]));
    assert!(report.pulled.is_empty());
    assert!(!report.pushed);
    assert_eq!(report.remote, None);
    assert_eq!(
        plain(&report),
        "\u{2713} Sent 1 insight\n    rust/async\n! Committed locally. Set a remote with insights sync --remote <url> to share these."
    );
}

#[test]
fn a_sync_with_nothing_changed_goes_straight_to_the_remote() {
    let (mut run, first) = sync("/store");
    let step = run.step(Event::RepoChecked(true));
    let step2 = run.step(Event::GitignoreWritten(Ok(())));
    assert!(matches!(first, Action::CheckRepo) && matches!(step, Action::WriteGitignore));
    let last = drive(
        &mut run,
        step2,
        vec![
            (Some(&["remote", "get-url", "origin"]), Event::GitRan(ok("git@host:me/i.git\n"))),
            (Some(&["status", "--porcelain", "--untracked-files=all"]), Event::GitRan(ok(""))),
            (Some(&["branch", "--show-current"]), Event::GitRan(ok("main\n"))),
            (Some(&["ls-remote", "--heads", "origin", "main"]), Event::GitRan(ok(""))),
            (Some(&["push", "--set-upstream", "origin", "main"]), Event::GitRan(ok(""))),
        ],
    );
    let report = report_of(last);
    assert!(report.committed.is_empty());
    assert!(report.pushed);
    assert_eq!(plain(&report), "\u{2713} In sync with git@host:me/i.git");
}

#[test]
fn a_sync_takes_in_what_arrived_and_pushes() {
    let (mut run, _) = sync("/store");
    run.step(Event::RepoChecked(true));
    let step = run.step(Event::GitignoreWritten(Ok(())));
    let last = drive(
        &mut run,
        step,
        vec![
            (Some(&["remote", "get-url", "origin"]), Event::GitRan(ok("git@host:me/i.git\n"))),
            (Some(&["status", "--porcelain", "--untracked-files=all"]), Event::GitRan(ok(" M rust/a.insight.md\n"))),
        ],
    );
    assert!(matches!(last, Action::NameMachine));
    let step = run.step(Event::MachineNamed(None));
    let last = drive(
        &mut run,
        step,
        vec![
            (Some(&["add", "--all"]), Event::GitRan(ok(""))),
            (Some(&["commit", "--message", "Sync 1 insight"]), Event::GitRan(ok(""))),
            (Some(&["branch", "--show-current"]), Event::GitRan(ok("main\n"))),
            (Some(&["ls-remote", "--heads", "origin", "main"]), Event::GitRan(ok("abc\trefs/heads/main\n"))),
            (Some(&["rev-parse", "HEAD"]), Event::GitRan(ok("aaa\n"))),
            (Some(&["pull", "--rebase", "origin", "main"]), Event::GitRan(ok(""))),
            (Some(&["rev-parse", "HEAD"]), Event::GitRan(ok("bbb\n"))),
            (
                Some(&["diff", "--name-only", "aaa", "HEAD"]),
                Event::GitRan(ok("go/b.insight.md\n.gitignore\n")),
            ),
            (Some(&["push", "--set-upstream", "origin", "main"]), Event::GitRan(ok(""))),
        ],
    );
    let report = report_of(last);
    assert_eq!(report.committed, strings(&["rust/a.insight.md"]));
    assert_eq!(report.pulled, strings(&["go/b.insight.md"]));
    assert!(report.pushed);
    assert_eq!(
        plain(&report),
        "\u{2713} Sent 1 insight\n    rust/a\n\u{2713} Received 1 insight\n    go/b\n\u{2713} In sync with git@host:me/i.git"
    );
}

#[test]
fn a_conflict_stops_the_sync_and_is_reported() {
    let (mut run, _) = sync("/store");
    run.step(Event::RepoChecked(true));
    let step = run.step(Event::GitignoreWritten(Ok(())));
    let last = drive(
        &mut run,
        step,
        vec![
            (None, Event::GitRan(ok("git@host:me/i.git\n"))),
            (None, Event::GitRan(ok(""))),
            (None, Event::GitRan(ok("main\n"))),
            (None, Event::GitRan(ok("abc\trefs/heads/main\n"))),
            (None, Event::GitRan(ok("aaa\n"))),
            (Some(&["pull", "--rebase", "origin", "main"]), Event::GitRan(failed("CONFLICT (content)\n"))),
            (
                Some(&["diff", "--name-only", "--diff-filter=U"]),
                Event::GitRan(ok("rust/a.insight.md\n")),
            ),
            (Some(&["rebase", "--abort"]), Event::GitRan(ok(""))),
        ],
    );
    let report = report_of(last);
    assert_eq!(report.conflicted, strings(&["rust/a.insight.md"]));
    assert!(!report.pushed);
    assert!(report.pulled.is_empty());
    let lines = report.lines();
    assert_eq!(lines.len(), 3);
    assert_eq!(lines[0][0].paint, Paint::Red);
    assert_eq!(
        plain(&report),
        "\u{2717} Conflict: 1 insight you've updated has also recently changed on the remote:\n    rust/a\n\nThe store was left untouched. Reconcile them by hand, then sync again:\n  git -C /store pull --rebase\n  resolve the conflicts, commit, then\n  insights sync"
    );
}

#[test]
fn a_failed_pull_without_conflicts_is_an_error() {
    let (mut run, _) = sync("/store");
    run.step(Event::RepoChecked(true));
    let step = run.step(Event::GitignoreWritten(Ok(())));
    let last = drive(
        &mut run,
        step,
        vec![
            (None, Event::GitRan(ok("u\n"))),
            (None, Event::GitRan(ok(""))),
            (None, Event::GitRan(ok("main\n"))),
            (None, Event::GitRan(ok("x\n"))),
            (None, Event::GitRan(ok("aaa\n"))),
            (None, Event::GitRan(failed("network down\n"))),
            (None, Event::GitRan(ok(""))),
            (Some(&["rebase", "--abort"]), Event::GitRan(failed("no rebase in progress"))),
        ],
    );
    match last {
        Action::Done(Err(e)) => assert_eq!(e, SyncError::PullFailed("network down".to_string())),
        _ => panic!("expected the pull's failure"),
    }
}

#[test]
fn a_sync_of_a_missing_store_sets_it_up_first() {
    let (mut run, _) = sync("/new/store");
    assert!(matches!(run.step(Event::RepoChecked(false)), Action::CreateStore));
    let step = run.step(Event::StoreCreated(Ok(())));
    let last = drive(
        &mut run,
        step,
        vec![
            (Some(&["rev-parse", "--show-toplevel"]), Event::GitRan(failed("fatal: not a git repository"))),
            (Some(&["init"]), Event::GitRan(ok(""))),
        ],
    );
    assert!(matches!(last, Action::WriteGitignore));
}

#[test]
fn setting_up_inside_a_repository_is_refused() {
    let (mut run, _) = init("/work/proj/store", "git@host:me/i.git");
    run.step(Event::RepoChecked(false));
    let step = run.step(Event::StoreCreated(Ok(())));
    assert_eq!(git_args(&step), strings(&["rev-parse", "--show-toplevel"]));
    match run.step(Event::GitRan(ok("/work/proj\n"))) {
        Action::Done(Err(e)) => assert_eq!(
            e,
            SyncError::InsideRepo { store: "/work/proj/store".to_string(), toplevel: "/work/proj".to_string() }
        ),
        _ => panic!("expected a refusal"),
    }
}

#[test]
fn init_points_the_store_at_the_remote() {
    let (mut run, _) = init("/store", "git@host:me/i.git");
    run.step(Event::RepoChecked(true));
    let step = run.step(Event::GitignoreWritten(Ok(())));
    let last = drive(
        &mut run,
        step,
        vec![
            (Some(&["remote", "get-url", "origin"]), Event::GitRan(ok("git@old:x.git\n"))),
            (Some(&["remote", "set-url", "origin", "git@host:me/i.git"]), Event::GitRan(ok(""))),
        ],
    );
    assert!(matches!(last, Action::Done(Ok(()))));
}

#[test]
fn failing_to_create_the_store_is_reported() {
    let (mut run, _) = init("/store", "u");
    run.step(Event::RepoChecked(false));
    match run.step(Event::StoreCreated(Err("permission denied".to_string()))) {
        Action::Done(Err(e)) => assert_eq!(e.message(), "permission denied"),
        _ => panic!("expected the error"),
    }
}

#[test]
fn forgetting_the_remote_removes_it_once() {
    let (mut run, _) = forget_remote("/store");
    let step = run.step(Event::RepoChecked(true));
    let last = drive(
        &mut run,
        step,
        vec![
            (Some(&["remote", "get-url", "origin"]), Event::GitRan(ok("u\n"))),
            (Some(&["remote", "remove", "origin"]), Event::GitRan(ok(""))),
        ],
    );
    assert!(matches!(last, Action::Done(Ok(()))));

    let (mut run, _) = forget_remote("/store");
    let step = run.step(Event::RepoChecked(true));
    assert!(matches!(run.step(Event::GitRan(failed("No such remote"))), Action::Done(Ok(()))));
    assert_eq!(git_args(&step), strings(&["remote", "get-url", "origin"]));

    let (mut run, _) = forget_remote("/nowhere");
    assert!(matches!(run.step(Event::RepoChecked(false)), Action::Done(Ok(()))));
}

#[test]
fn long_lists_of_insights_are_cut_short() {
    let report = SyncReport {
        committed: (0..10).map(|i| format!("t/n{i}.insight.md")).collect(),
        pulled: vec![],
        conflicted: vec![],
        pushed: false,
        remote: None,
        store: "/store".to_string(),
    };
    let shown = plain(&report);
    assert!(shown.starts_with("\u{2713} Sent 10 insights\n    t/n0\n"));
    assert!(shown.contains("    t/n7\n    and 2 more\n"));
    assert!(!shown.contains("t/n8"));
}

#[test]
fn a_sync_pulls_and_pushes_the_branch_the_store_is_on() {
    let (mut run, _) = sync("/store");
    run.step(Event::RepoChecked(true));
    let step = run.step(Event::GitignoreWritten(Ok(())));
    let last = drive(
        &mut run,
        step,
        vec![
            (None, Event::GitRan(ok("u\n"))),
            (None, Event::GitRan(ok(""))),
            (Some(&["branch", "--show-current"]), Event::GitRan(ok("notes\n"))),
            (Some(&["ls-remote", "--heads", "origin", "notes"]), Event::GitRan(ok("abc\trefs/heads/notes\n"))),
            (Some(&["rev-parse", "HEAD"]), Event::GitRan(ok("aaa\n"))),
            (Some(&["pull", "--rebase", "origin", "notes"]), Event::GitRan(ok(""))),
            (Some(&["rev-parse", "HEAD"]), Event::GitRan(ok("aaa\n"))),
            (Some(&["push", "--set-upstream", "origin", "notes"]), Event::GitRan(ok(""))),
        ],
    );
    assert_eq!(run.branch, "notes");
    assert!(report_of(last).pushed);
}

#[test]
fn a_failed_conflict_listing_still_undoes_the_rebase() {
    let (mut run, _) = sync("/store");
    run.step(Event::RepoChecked(true));
    let step = run.step(Event::GitignoreWritten(Ok(())));
    let last = drive(
        &mut run,
        step,
        vec![
            (None, Event::GitRan(ok("u\n"))),
            (None, Event::GitRan(ok(""))),
            (None, Event::GitRan(ok("main\n"))),
            (None, Event::GitRan(ok("x\n"))),
            (None, Event::GitRan(ok("aaa\n"))),
            (Some(&["pull", "--rebase", "origin", "main"]), Event::GitRan(failed("CONFLICT\n"))),
            (Some(&["diff", "--name-only", "--diff-filter=U"]), Event::GitRan(failed("fatal: broken\n"))),
            (Some(&["rebase", "--abort"]), Event::GitRan(ok(""))),
        ],
    );
    match last {
        Action::Done(Err(e)) => assert_eq!(
            e,
            SyncError::GitFailed {
                command: "diff --name-only --diff-filter=U".to_string(),
                stderr: "fatal: broken".to_string()
            }
        ),
        _ => panic!("expected the listing's failure"),
    }
}
