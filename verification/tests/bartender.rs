use kota_core::bartender::cli::{after_look, choose_project_root, parse_command, shell_quote, Command, Wait, SYNC_TIMEOUT};
use kota_core::bartender::git::{
    active_git_operation, current_branch, output_line, pending_range,
    append_listed_paths, append_name_status_paths, change_phrase, changed_file_phrase, concise_git_error,
    count_porcelain_changes, failure_message, is_index_lock_error, looks_like_empty_cherry_pick, parse_count,
};
use kota_core::bartender::manager::{
    check_dispatch, sync_dispatch_receipt, sync_request, valid_sync_request_id, BartenderManager, FinishedFile,
    BARTENDER_DISPATCH_SCHEMA,
};
use kota_core::bartender::remote::{
    after_merge, compared_reference, initial_push_args, initial_pushed, merge_args, plan_pull, plan_push, pull_conflict, pulled, push_args,
    pushed, upstream_or_default, BartenderPullConflict, MergeStep, PullStep, PushStep,
};
use kota_core::bartender::status::{
    agent_targets, compute_status, initial_push_status, AgentFacts, AgentSpec, AgentSyncTarget, InitialPush, PushFacts,
    StatusFacts, WorkspaceProject,
};
use kota_core::bartender::sync::{after_reset, blocked_sync, snapshot_message, PublishRun, ResetStep, SyncRun, WorktreeLook};
use kota_core::order::OrderedSet;
use kota_core::outbox::{error_name, places, requests, result_name, unique_name};

fn texts(list: &[&str]) -> Vec<String> {
    list.iter().map(|s| s.to_string()).collect()
}

fn workspace(agents: &[(&str, bool)]) -> WorkspaceProject {
    WorkspaceProject {
        project_id: "project".into(),
        source_dir: "/room/source".into(),
        local_root: "/room".into(),
        default_branch: "main".into(),
        agents: agents
            .iter()
            .map(|(id, active)| AgentSpec {
                agent_id: id.to_string(),
                worktree_root: format!("/room/{id}"),
                active: *active,
            })
            .collect(),
    }
}

fn agent(id: &str, head: &str) -> AgentFacts {
    AgentFacts {
        agent_id: id.into(),
        path: format!("/room/{id}"),
        exists: true,
        head: head.into(),
        pending: vec![],
        commit_paths: vec![],
        work_paths: vec![],
        lag_paths: vec![],
    }
}

fn facts(agents: Vec<AgentFacts>) -> StatusFacts {
    StatusFacts {
        source_head: "head".into(),
        source_paths: vec![],
        agents,
        ahead: 0,
        behind: 0,
        initial_push: None,
        checked_at: "2026-09-12T12:00:00Z".into(),
    }
}

fn target(id: &str) -> AgentSyncTarget {
    AgentSyncTarget { agent_id: id.into(), path: format!("/room/{id}") }
}

#[test]
fn counts_porcelain_lines() {
    assert_eq!(count_porcelain_changes(" M a\n?? b\nR  c -> d\n"), 3);
    assert_eq!(count_porcelain_changes("\n"), 0);
}

#[test]
fn formats_change_phrase() {
    assert_eq!(change_phrase(1), "1 change");
    assert_eq!(change_phrase(2), "2 changes");
    assert_eq!(changed_file_phrase(1), "1 changed file");
    assert_eq!(changed_file_phrase(2), "2 changed files");
}

#[test]
fn reads_finished_and_failed_sync_dispatch_receipts() {
    let finished_id = "sync-finished123";
    let file = FinishedFile {
        request_id: Some(finished_id.into()),
        result: Some("Synced 1 change.".into()),
    };
    let finished = sync_dispatch_receipt("/p", finished_id, &Some(file), &None).unwrap();
    assert_eq!(finished.phase, "finished");
    assert_eq!(finished.request_id, finished_id);
    assert_eq!(finished.result.as_deref(), Some("Synced 1 change."));
    let failed = sync_dispatch_receipt("/p", "sync-failed456", &None, &Some("sync failed\n".into())).unwrap();
    assert_eq!(failed.phase, "failed");
    assert_eq!(failed.error.as_deref(), Some("sync failed"));
    let pending = sync_dispatch_receipt("/p", "sync-pending789", &None, &None).unwrap();
    assert_eq!(pending.phase, "pending");
    assert!(sync_dispatch_receipt("/p", "../escape", &None, &None).is_err());
}

#[test]
fn git_answers_are_read() {
    assert_eq!(parse_count(" 12\n"), Some(12));
    assert!(parse_count("x").is_none());
    assert!(!concise_git_error("fatal: nope").is_empty());
}

#[test]
fn paths_are_taken_from_what_git_lists() {
    let mut paths = OrderedSet::new();
    append_name_status_paths(&mut paths, "M\0src/a.rs\0A\0/new.rs\0D\0src\\a.rs\0");
    append_listed_paths(&mut paths, "new.rs\0untracked.txt\0");
    let list: Vec<&str> = paths.map.entries.iter().map(|e| e.0.as_str()).collect();
    assert_eq!(list, vec!["new.rs", "src/a.rs", "untracked.txt"]);
    assert!(is_index_lock_error("Unable to create '/x/.git/index.lock': File exists."));
    assert!(!is_index_lock_error("fatal: bad object"));
    assert!(looks_like_empty_cherry_pick("The previous cherry-pick is now empty, possibly due to conflict resolution."));
    assert!(failure_message("/room", &texts(&["status"]), "", "fatal: nope").contains("fatal: nope"));
}

#[test]
fn a_file_that_two_agents_changed_counts_once() {
    let mut a = agent("alpha", "head");
    a.work_paths = texts(&["shared.txt", "alpha.txt"]);
    let mut b = agent("beta", "other");
    b.pending = texts(&["c1", "c2"]);
    b.commit_paths = texts(&["shared.txt"]);
    let mut f = facts(vec![a, b]);
    f.source_paths = texts(&["shared.txt"]);
    let status = compute_status(&workspace(&[("alpha", true), ("beta", true)]), &f);
    assert_eq!(status.room_change_count, 2);
    assert_eq!(status.source_change_count, 1);
    assert_eq!(status.dirty_agents.len(), 2);
    assert_eq!(status.dirty_agents[1].pending_commit_count, 2);
    assert_eq!(status.dirty_agents[1].change_count, 1);
}

#[test]
fn an_agent_that_lags_behind_has_something_to_sync() {
    let mut a = agent("alpha", "older");
    a.lag_paths = texts(&["new.txt"]);
    let w = workspace(&[("alpha", true)]);
    let status = compute_status(&w, &facts(vec![a]));
    assert_eq!(status.room_change_count, 1);
    let clean = compute_status(&w, &facts(vec![agent("alpha", "head")]));
    assert_eq!(clean.room_change_count, 0);
    assert!(clean.dirty_agents.is_empty());
    let mut gone = agent("alpha", "older");
    gone.exists = false;
    gone.work_paths = texts(&["x"]);
    assert!(compute_status(&w, &facts(vec![gone])).dirty_agents.is_empty());
}

#[test]
fn only_active_agents_are_synced_each_once() {
    let w = workspace(&[("alpha", true), ("left", false), ("alpha", true)]);
    let ids: Vec<String> = agent_targets(&w).into_iter().map(|t| t.agent_id).collect();
    assert_eq!(ids, vec!["alpha"]);
    assert_eq!(snapshot_message("alpha"), "Bartender snapshot: alpha");
}

#[test]
fn a_first_push_needs_an_origin_and_a_branch() {
    let push = |has_origin: bool, branch: Option<&str>, count: Option<usize>| {
        let f = PushFacts {
            has_origin,
            branch: branch.map(String::from),
            commit_count: count,
            upstream: None,
            upstream_known: false,
        };
        initial_push_status(&f, "main")
    };
    let p = push(true, Some("main"), Some(3)).unwrap();
    assert_eq!((p.branch.as_str(), p.commit_count), ("main", 3));
    assert!(push(false, Some("main"), Some(3)).is_none());
    assert!(push(true, None, Some(3)).is_none());
}

#[test]
fn commits_are_picked_until_one_conflicts() {
    let mut run = PublishRun::begin("alpha", texts(&["c1", "c2", "c3"]));
    assert_eq!(run.current().unwrap(), "c1");
    assert!(run.picked(Ok(())).is_none());
    assert_eq!(run.current().unwrap(), "c2");
    let outcome = run.picked(Err("CONFLICT".into())).unwrap();
    assert_eq!(outcome.published_commits, 1);
    let c = outcome.conflict.unwrap();
    assert_eq!(c.agent_id, "alpha");
    assert_eq!(c.commit.as_deref(), Some("c2"));
    let whole = PublishRun::begin("alpha", vec![]);
    assert!(whole.current().is_none());
    assert_eq!(whole.finish().published_commits, 0);
}

#[test]
fn a_conflict_is_tried_again_while_others_make_progress() {
    let status = || compute_status(&workspace(&[]), &facts(vec![]));
    let conflict = |id: &str| {
        let mut r = PublishRun::begin(id, texts(&["c"]));
        r.picked(Err("CONFLICT".into())).unwrap()
    };
    let clean = |id: &str| {
        let mut r = PublishRun::begin(id, texts(&["c"]));
        match r.picked(Ok(())) {
            Some(o) => o,
            None => r.finish(),
        }
    };
    let mut run = SyncRun::begin(1, vec![target("alpha"), target("beta")]);
    assert_eq!(run.current().unwrap().agent_id, "alpha");
    run.handle(conflict("alpha"), Ok(()));
    run.handle(clean("beta"), Ok(()));
    assert!(run.end_pass());
    assert_eq!(run.current().unwrap().agent_id, "alpha");
    run.handle(clean("alpha"), Ok(()));
    assert!(!run.end_pass());
    assert!(run.refreshes());
    let r = run.finish(status());
    assert!(r.ok);
    assert_eq!(r.published_commit_count, 2);
    assert_eq!(r.message, "Synced 2 changes.");

    let mut run = SyncRun::begin(0, vec![target("alpha")]);
    run.handle(conflict("alpha"), Ok(()));
    assert!(!run.end_pass());
    assert!(!run.refreshes());
    let r = run.finish(status());
    assert!(!r.ok);
    assert_eq!(r.message, "1 change need agent conflict resolution.");

    let mut run = SyncRun::begin(0, vec![]);
    assert!(!run.end_pass());
    run.refresh("alpha", Err("index.lock".into()));
    let r = run.finish(status());
    assert!(!r.ok);
    assert!(r.message.starts_with("Could not refresh 1 agent worktree after sync. "));
    let none = SyncRun::begin(0, vec![]).finish(status());
    assert_eq!(none.message, "Nothing to sync.");
    assert!(!blocked_sync("merge", status()).ok);
}

#[test]
fn a_reset_is_repeated_while_the_index_is_locked() {
    assert!(matches!(after_reset(0, Ok(())), ResetStep::Done));
    assert!(matches!(after_reset(0, Err("index.lock': File exists".into())), ResetStep::Again));
    assert!(matches!(after_reset(0, Err("fatal".into())), ResetStep::Failed(_)));
    assert!(matches!(after_reset(200, Err("index.lock': File exists".into())), ResetStep::Failed(_)));
}

#[test]
fn pulling_and_pushing_wait_for_what_comes_first() {
    let w = workspace(&[]);
    let status = |room: bool, ahead: usize, behind: usize| {
        let mut a = agent("alpha", "head");
        if room {
            a.work_paths = texts(&["x"]);
        }
        let mut f = facts(vec![a]);
        f.ahead = ahead;
        f.behind = behind;
        compute_status(&w, &f)
    };
    let pull_message = |s: PullStep| match s {
        PullStep::Done(r) => r.message,
        _ => panic!("expected a result"),
    };
    assert_eq!(pull_message(plan_pull(status(true, 0, 2), &None)), "Sync Local before pulling from GitHub.");
    assert_eq!(pull_message(plan_pull(status(false, 0, 0), &None)), "Nothing to pull.");
    assert_eq!(
        pull_message(plan_pull(status(false, 0, 1), &Some("merge".into()))),
        "Resolve the active merge before pulling from GitHub."
    );
    assert!(matches!(plan_pull(status(false, 0, 1), &None), PullStep::FastForward(_)));
    assert!(matches!(plan_pull(status(false, 1, 1), &None), PullStep::Merge(_)));
    assert_eq!(pulled(&status(false, 0, 2), false, status(false, 0, 0)).message, "Pulled 2 changes from GitHub.");
    let push_message = |s: PushStep| match s {
        PushStep::Done(r) => r.message,
        _ => panic!("expected a result"),
    };
    assert_eq!(push_message(plan_push(status(true, 1, 0), "main")), "Sync Local before pushing to GitHub.");
    assert_eq!(push_message(plan_push(status(false, 1, 1), "main")), "GitHub has 1 change. Pull first, then push.");
    assert_eq!(push_message(plan_push(status(false, 0, 0), "main")), "Nothing to push.");
    assert!(matches!(plan_push(status(false, 2, 0), "main"), PushStep::Push(_)));
    let mut f = facts(vec![]);
    f.initial_push = Some(InitialPush { branch: "dev".into(), commit_count: 4 });
    let first = compute_status(&w, &f);
    assert!(first.github_needs_initial_push);
    assert!(matches!(plan_push(first.copy(), "main"), PushStep::Initial(b, _) if b == "dev"));
    assert!(initial_pushed(&first, Ok(()), status(false, 0, 0)).ok);
    assert!(!pushed(&first, Err("rejected".into()), status(false, 0, 0)).ok);
    assert_eq!(upstream_or_default(&None, "main"), "origin/main");
    assert_eq!(initial_push_args("dev"), texts(&["push", "-u", "origin", "HEAD:dev"]));
    assert_eq!(push_args("origin/main", "main"), texts(&["push", "origin", "HEAD:main"]));
    assert_eq!(push_args("fork/main", "main"), texts(&["push"]));
}

#[test]
fn a_status_is_good_for_a_while() {
    let mut m = BartenderManager::new();
    let w = workspace(&[("alpha", true)]);
    let mut dirty = agent("alpha", "head");
    dirty.work_paths = texts(&["x"]);
    assert_eq!(m.status(&w, &facts(vec![dirty]), 1000).room_change_count, 1);
    let clean = facts(vec![agent("alpha", "head")]);
    assert_eq!(m.status(&w, &clean, 5999).room_change_count, 1);
    assert_eq!(m.status(&w, &clean, 6000).room_change_count, 0);
    assert!(m.cached_status(&w, 6001).is_some());
    assert!(m.cached_status(&workspace(&[]), 6001).is_none());
    m.invalidate_status_cache();
    assert!(m.cached_status(&w, 6001).is_none());
    assert_eq!(m.fetch_github(&w, &clean, 7000).message, "Fetched GitHub.");
}

#[test]
fn a_request_names_a_known_action_for_this_project() {
    let r = sync_request("/p");
    assert!(valid_sync_request_id(&r.request_id));
    assert_ne!(r.request_id, sync_request("/p").request_id);
    assert!(r.created_at.ends_with("+00:00"));
    assert!(check_dispatch(&r.schema, &r.project_root, "/p", true, &r.action).is_ok());
    assert_eq!(
        check_dispatch("other", "/p", "/p", true, "sync").err().unwrap(),
        "unsupported Bartender dispatch schema: other"
    );
    assert_eq!(
        check_dispatch(BARTENDER_DISPATCH_SCHEMA, "/q", "/p", false, "sync").err().unwrap(),
        "Bartender dispatch project mismatch: /q != /p"
    );
    assert_eq!(
        check_dispatch(BARTENDER_DISPATCH_SCHEMA, "/p", "/p", true, "push").err().unwrap(),
        "unknown Bartender dispatch action: push"
    );
    assert!(!valid_sync_request_id("sync-"));
    assert!(!valid_sync_request_id("sync-../x"));
}

#[test]
fn a_receipt_belongs_to_its_request() {
    let file = |id: Option<&str>, result: Option<&str>| {
        Some(FinishedFile { request_id: id.map(String::from), result: result.map(String::from) })
    };
    let fault = |f: Option<FinishedFile>| sync_dispatch_receipt("/p", "sync-a", &f, &None).err().unwrap();
    assert_eq!(fault(file(None, Some("{}"))), "Bartender sync result is missing requestId");
    assert_eq!(fault(file(Some("sync-b"), Some("{}"))), "Bartender sync result request id mismatch");
    assert_eq!(fault(file(Some("sync-a"), None)), "Bartender sync result payload is missing result");
}

#[test]
fn requests_lie_in_their_directories_in_order() {
    let p = places("/p", "bartender");
    assert_eq!(p.outbox, "/p/project-memory/.violet/bartender/outbox");
    assert_eq!(p.failed, "/p/project-memory/.violet/bartender/failed");
    assert_eq!(requests(&texts(&["b.json", "a.json", "c.json.tmp", ".json", "note"])), texts(&["a.json", "b.json"]));
    assert_eq!(result_name("sync-a.json"), "sync-a.result.json");
    assert_eq!(error_name("sync-a.json"), "sync-a.error.txt");
    assert_eq!(unique_name("a.json", &texts(&["b.json"])), "a.json");
    assert_eq!(unique_name("a.json", &texts(&["a.json", "a-1.json"])), "a-2.json");
    assert_eq!(unique_name("a", &texts(&["a"])), "a-1");
}

#[test]
fn the_command_line_is_read() {
    assert!(matches!(parse_command(&texts(&[])), Ok(Command::Usage)));
    assert!(matches!(parse_command(&texts(&["sync", "--help"])), Ok(Command::Usage)));
    match parse_command(&texts(&["status", "--json", "--project-root", "/p"])) {
        Ok(Command::Status(o)) => assert!(o.json && o.project_root.as_deref() == Some("/p")),
        _ => panic!("expected status"),
    }
    assert_eq!(parse_command(&texts(&["fly"])).err().unwrap(), "unknown kota-bartender command: fly");
    assert_eq!(
        parse_command(&texts(&["sync", "--project-root"])).err().unwrap(),
        "--project-root requires a path"
    );
    assert_eq!(choose_project_root(&Some("/a".into()), &Some("/b".into()), &None).unwrap(), "/a");
    assert!(choose_project_root(&None, &None, &None).is_err());
    assert_eq!(shell_quote("/a/b.c"), "/a/b.c");
    assert_eq!(shell_quote("a b"), "'a b'");
    assert!(matches!(after_look(&Some("{}".into()), &None, 0), Wait::Finished(_)));
    assert!(matches!(after_look(&None, &Some(" x \n".into()), 0), Wait::Failed(e) if e == "x"));
    assert!(matches!(after_look(&None, &None, 1), Wait::Again));
    assert!(matches!(after_look(&None, &None, SYNC_TIMEOUT), Wait::TimedOut(_)));
}

#[test]
fn a_sync_begins_with_the_worktrees_that_have_commits() {
    let look = |id: &str, present: bool, changed: bool, pending: bool| WorktreeLook {
        target: target(id),
        present,
        changed,
        pending,
    };
    let looks = || {
        vec![
            look("alpha", true, true, true),
            look("beta", true, false, false),
            look("gamma", false, true, true),
            look("delta", true, false, true),
        ]
    };
    let run = SyncRun::prepare(true, looks());
    assert_eq!(run.snapshot_count, 2);
    assert_eq!(run.pass.iter().map(|t| t.agent_id.as_str()).collect::<Vec<_>>(), ["alpha", "delta"]);
    assert_eq!(SyncRun::prepare(false, looks()).snapshot_count, 1);
    assert!(SyncRun::prepare(false, vec![]).current().is_none());
}

#[test]
fn a_merge_that_fails_is_a_conflict_and_a_branch_that_cannot_move_an_error() {
    assert_eq!(merge_args(true, "origin/main"), texts(&["merge", "--no-ff", "--no-edit", "origin/main"]));
    assert_eq!(merge_args(false, "origin/main"), texts(&["merge", "--ff-only", "origin/main"]));
    assert!(matches!(after_merge(true, Ok(())), MergeStep::Merged));
    assert!(matches!(after_merge(false, Ok(())), MergeStep::Merged));
    assert!(matches!(after_merge(true, Err("CONFLICT".into())), MergeStep::Conflict(e) if e == "CONFLICT"));
    assert!(matches!(after_merge(false, Err("diverged".into())), MergeStep::Failed(e) if e == "diverged"));
    let conflict = BartenderPullConflict {
        message: "CONFLICT".into(),
        source_head: "a".into(),
        upstream: "origin/main".into(),
        upstream_head: "b".into(),
        default_branch: "main".into(),
    };
    let r = pull_conflict(conflict, compute_status(&workspace(&[]), &facts(vec![])));
    assert!(!r.ok && r.needs_human_pick);
    assert_eq!(r.conflict.unwrap().message, "CONFLICT");
}

#[test]
fn commits_are_counted_against_what_the_branch_follows() {
    let upstream = Some("fork/topic".to_string());
    assert_eq!(compared_reference(&upstream, "main", false).as_deref(), Some("fork/topic"));
    assert_eq!(compared_reference(&upstream, "main", true).as_deref(), Some("fork/topic"));
    assert_eq!(compared_reference(&None, "main", true).as_deref(), Some("origin/main"));
    assert!(compared_reference(&None, "main", false).is_none());
}

#[test]
fn short_answers_of_git_are_read() {
    assert_eq!(output_line(" origin/main\n").as_deref(), Some("origin/main"));
    assert!(output_line(" \n").is_none());
    assert_eq!(current_branch("main\n").as_deref(), Some("main"));
    assert!(current_branch("HEAD\n").is_none());
    assert!(current_branch("").is_none());
    assert_eq!(active_git_operation(true, true).as_deref(), Some("Git merge"));
    assert_eq!(active_git_operation(false, true).as_deref(), Some("Git cherry-pick"));
    assert!(active_git_operation(false, false).is_none());
    assert_eq!(pending_range("a", "b").as_deref(), Some("a...b"));
    assert!(pending_range("a", "a").is_none());
}
