//! Exchanging commits with the remote: when to pull, when to push, and what
//! to say about it.
use vstd::prelude::*;
use crate::bartender::git::{change_phrase, changes};
use crate::bartender::status::BartenderStatus;
use crate::text::{begins, begins_with, opt_text, own, plus, plus3, texts, Text};
use crate::text::stands_at;
use crate::text::occurs;

verus! {

pub struct BartenderPushResult {
    pub ok: bool,
    pub message: String,
    pub pushed_commit_count: usize,
    pub status: BartenderStatus,
}

pub struct BartenderFetchResult {
    pub ok: bool,
    pub message: String,
    pub status: BartenderStatus,
}

pub struct BartenderPullConflict {
    pub message: String,
    pub source_head: String,
    pub upstream: String,
    pub upstream_head: String,
    pub default_branch: String,
}

pub struct BartenderPullResult {
    pub ok: bool,
    pub message: String,
    pub pulled_commit_count: usize,
    pub needs_human_pick: bool,
    pub conflict: Option<BartenderPullConflict>,
    pub status: BartenderStatus,
}

pub struct BartenderRoutePullConflictRequest {
    pub project_root: Option<String>,
    pub agent_id: String,
    pub pull_conflict_prompt: Option<String>,
}

pub struct BartenderRoutePullConflictResult {
    pub ok: bool,
    pub message: String,
    pub status: BartenderStatus,
}

// ---------------------------------------------------------------------- pull

/// What a pull does, given the room's status.
pub enum PullStep {
    /// Nothing to do, or not now.
    Done(BartenderPullResult),
    /// Move the branch forward; the room has nothing of its own.
    FastForward(BartenderStatus),
    /// Merge; both sides have commits.
    Merge(BartenderStatus),
}

/// A pull that ended without taking anything over.
pub open spec fn nothing_pulled(r: BartenderPullResult, ok: bool, message: Text, status: BartenderStatus) -> bool {
    &&& r.ok == ok
    &&& r.message@ == message
    &&& r.pulled_commit_count == 0
    &&& !r.needs_human_pick
    &&& r.conflict is None
    &&& r.status == status
}

/// The decision of a pull: local changes, then nothing new, then a running
/// operation stop it, in this order.
pub open spec fn pull_decision(before: BartenderStatus, operation: Option<Text>, step: PullStep) -> bool {
    if before.room_change_count > 0 {
        step matches PullStep::Done(r) && nothing_pulled(r, false, "Sync Local before pulling from GitHub."@, before)
    } else if before.github_behind_count == 0 {
        step matches PullStep::Done(r) && nothing_pulled(r, true, "Nothing to pull."@, before)
    } else if operation is Some {
        step matches PullStep::Done(r) && nothing_pulled(
            r,
            false,
            "Resolve the active "@ + operation->0 + " before pulling from GitHub."@,
            before,
        )
    } else if before.github_change_count == 0 {
        step == PullStep::FastForward(before)
    } else {
        step == PullStep::Merge(before)
    }
}

fn no_pull(ok: bool, message: String, status: BartenderStatus) -> (r: BartenderPullResult)
    ensures
        nothing_pulled(r, ok, message@, status),
{
    BartenderPullResult {
        ok,
        message,
        pulled_commit_count: 0,
        needs_human_pick: false,
        conflict: None,
        status,
    }
}

pub fn plan_pull(before: BartenderStatus, operation: &Option<String>) -> (r: PullStep)
    ensures
        pull_decision(before, opt_text(*operation), r),
{
    if before.room_change_count > 0 {
        return PullStep::Done(no_pull(false, own("Sync Local before pulling from GitHub."), before));
    }
    if before.github_behind_count == 0 {
        return PullStep::Done(no_pull(true, own("Nothing to pull."), before));
    }
    if let Some(operation) = operation {
        let message = plus3("Resolve the active ", operation, " before pulling from GitHub.");
        return PullStep::Done(no_pull(false, message, before));
    }
    if before.github_change_count == 0 {
        PullStep::FastForward(before)
    } else {
        PullStep::Merge(before)
    }
}

/// How git is asked to take over the remote's commits.
pub fn merge_args(merge: bool, upstream: &str) -> (r: Vec<String>)
    ensures
        texts(r@) == (if merge {
            seq!["merge"@, "--no-ff"@, "--no-edit"@, upstream@]
        } else {
            seq!["merge"@, "--ff-only"@, upstream@]
        }),
{
    let mut args: Vec<String> = Vec::new();
    args.push(own("merge"));
    if merge {
        args.push(own("--no-ff"));
        args.push(own("--no-edit"));
    } else {
        args.push(own("--ff-only"));
    }
    args.push(own(upstream));
    assert(texts(args@) =~= (if merge {
        seq!["merge"@, "--no-ff"@, "--no-edit"@, upstream@]
    } else {
        seq!["merge"@, "--ff-only"@, upstream@]
    }));
    args
}

/// What follows when git was asked.
pub enum MergeStep {
    /// The commits are in: refresh the worktrees.
    Merged,
    /// Both sides changed the same: report the conflict with git's words.
    Conflict(String),
    /// The pull failed with git's words.
    Failed(String),
}

/// A merge that fails is a conflict; a branch that cannot be moved forward is
/// an error.
pub fn after_merge(merge: bool, outcome: Result<(), String>) -> (r: MergeStep)
    ensures
        match outcome {
            Ok(_) => r == MergeStep::Merged,
            Err(e) => r == (if merge {
                MergeStep::Conflict(e)
            } else {
                MergeStep::Failed(e)
            }),
        },
{
    match outcome {
        Ok(_) => MergeStep::Merged,
        Err(e) => if merge {
            MergeStep::Conflict(e)
        } else {
            MergeStep::Failed(e)
        },
    }
}

/// The remote's commits were taken over.
pub fn pulled(before: &BartenderStatus, merged: bool, status: BartenderStatus) -> (r: BartenderPullResult)
    ensures
        r.ok,
        r.message@ == (if merged {
            "Merged "@
        } else {
            "Pulled "@
        }) + changes(before.github_behind_count as nat) + " from GitHub."@,
        r.pulled_commit_count == before.github_behind_count,
        !r.needs_human_pick,
        r.conflict is None,
        r.status == status,
{
    let verb = if merged {
        own("Merged ")
    } else {
        own("Pulled ")
    };
    BartenderPullResult {
        ok: true,
        message: plus3(&verb, &change_phrase(before.github_behind_count), " from GitHub."),
        pulled_commit_count: before.github_behind_count,
        needs_human_pick: false,
        conflict: None,
        status,
    }
}

/// The merge failed: a human picks an agent to resolve it.
pub fn pull_conflict(conflict: BartenderPullConflict, status: BartenderStatus) -> (r: BartenderPullResult)
    ensures
        !r.ok,
        r.message@
            == "There is a pull conflict when pulling GitHub to the local version. Human, pick an agent to resolve it."@,
        r.pulled_commit_count == 0,
        r.needs_human_pick,
        r.conflict == Some(conflict),
        r.status == status,
{
    BartenderPullResult {
        ok: false,
        message: own(
            "There is a pull conflict when pulling GitHub to the local version. Human, pick an agent to resolve it.",
        ),
        pulled_commit_count: 0,
        needs_human_pick: true,
        conflict: Some(conflict),
        status,
    }
}

// ---------------------------------------------------------------------- push

/// What a push does, given the room's status.
pub enum PushStep {
    Done(BartenderPushResult),
    /// Push this branch for the first time.
    Initial(String, BartenderStatus),
    /// Push the new commits.
    Push(BartenderStatus),
}

pub open spec fn push_result(r: BartenderPushResult, ok: bool, message: Text, count: nat, status: BartenderStatus) -> bool {
    r.ok == ok && r.message@ == message && r.pushed_commit_count == count && r.status == status
}

pub open spec fn pull_first(behind: nat) -> Text {
    "GitHub has "@ + changes(behind) + ". Pull first, then push."@
}

/// The decision of a push: local changes, then commits on the remote stop it.
pub open spec fn push_decision(before: BartenderStatus, default_branch: Text, step: PushStep) -> bool {
    if before.room_change_count > 0 {
        step matches PushStep::Done(r) && push_result(r, false, "Sync Local before pushing to GitHub."@, 0, before)
    } else if before.github_behind_count > 0 {
        step matches PushStep::Done(r) && push_result(
            r,
            false,
            pull_first(before.github_behind_count as nat),
            0,
            before,
        )
    } else if before.github_needs_initial_push {
        step matches PushStep::Initial(branch, status) && status == before && branch@ == (
        match before.github_push_branch {
            Some(b) => b@,
            None => default_branch,
        })
    } else if before.github_change_count == 0 {
        step matches PushStep::Done(r) && push_result(r, true, "Nothing to push."@, 0, before)
    } else {
        step == PushStep::Push(before)
    }
}

fn push_done(ok: bool, message: String, count: usize, status: BartenderStatus) -> (r: BartenderPushResult)
    ensures
        push_result(r, ok, message@, count as nat, status),
{
    BartenderPushResult { ok, message, pushed_commit_count: count, status }
}

pub fn plan_push(before: BartenderStatus, default_branch: &str) -> (r: PushStep)
    ensures
        push_decision(before, default_branch@, r),
{
    if before.room_change_count > 0 {
        return PushStep::Done(push_done(false, own("Sync Local before pushing to GitHub."), 0, before));
    }
    if before.github_behind_count > 0 {
        let message = plus3("GitHub has ", &change_phrase(before.github_behind_count), ". Pull first, then push.");
        return PushStep::Done(push_done(false, message, 0, before));
    }
    if before.github_needs_initial_push {
        let branch = match &before.github_push_branch {
            Some(b) => b.clone(),
            None => own(default_branch),
        };
        return PushStep::Initial(branch, before);
    }
    if before.github_change_count == 0 {
        return PushStep::Done(push_done(true, own("Nothing to push."), 0, before));
    }
    PushStep::Push(before)
}

/// The reference that a room's branch follows, by default the one of the same
/// name on the origin.
pub fn upstream_or_default(upstream: &Option<String>, default_branch: &str) -> (r: String)
    ensures
        r@ == match *upstream {
            Some(u) => u@,
            None => "origin/"@ + default_branch@,
        },
{
    match upstream {
        Some(u) => u.clone(),
        None => plus("origin/", default_branch),
    }
}

/// The reference that commits ahead and behind are counted against: the one
/// that the branch follows, else the branch of the same name on the origin, if
/// that is known. `default_known` tells whether it is.
pub fn compared_reference(upstream: &Option<String>, default_branch: &str, default_known: bool) -> (r: Option<String>)
    ensures
        opt_text(r) == match *upstream {
            Some(u) => Some(u@),
            None => if default_known {
                Some("origin/"@ + default_branch@)
            } else {
                None
            },
        },
{
    if upstream.is_some() || default_known {
        Some(upstream_or_default(upstream, default_branch))
    } else {
        None
    }
}

/// The arguments of `git` for a first push.
pub fn initial_push_args(branch: &str) -> (r: Vec<String>)
    ensures
        texts(r@) == seq!["push"@, "-u"@, "origin"@, "HEAD:"@ + branch@],
{
    let mut args: Vec<String> = Vec::new();
    args.push(own("push"));
    args.push(own("-u"));
    args.push(own("origin"));
    args.push(plus("HEAD:", branch));
    assert(texts(args@) =~= seq!["push"@, "-u"@, "origin"@, "HEAD:"@ + branch@]);
    args
}

/// The arguments of `git` for a push. A branch that follows the origin is
/// named; any other follows its own configuration.
pub fn push_args(upstream: &str, default_branch: &str) -> (r: Vec<String>)
    ensures
        texts(r@) == if begins(upstream@, "origin/"@) {
            seq!["push"@, "origin"@, "HEAD:"@ + default_branch@]
        } else {
            seq!["push"@]
        },
{
    let mut args: Vec<String> = Vec::new();
    args.push(own("push"));
    if begins_with(upstream, "origin/") {
        args.push(own("origin"));
        args.push(plus("HEAD:", default_branch));
        assert(texts(args@) =~= seq!["push"@, "origin"@, "HEAD:"@ + default_branch@]);
    } else {
        assert(texts(args@) =~= seq!["push"@]);
    }
    args
}

/// The first push ended; `status` was computed after it.
pub fn initial_pushed(before: &BartenderStatus, outcome: Result<(), String>, status: BartenderStatus) -> (r:
    BartenderPushResult)
    ensures
        match outcome {
            Ok(_) => push_result(
                r,
                true,
                "Initial push to GitHub complete."@,
                before.github_initial_push_commit_count as nat,
                status,
            ),
            Err(e) => push_result(r, false, "Initial GitHub push failed: "@ + e@, 0, status),
        },
{
    match outcome {
        Ok(_) => push_done(
            true,
            own("Initial push to GitHub complete."),
            before.github_initial_push_commit_count,
            status,
        ),
        Err(e) => push_done(false, plus("Initial GitHub push failed: ", &e), 0, status),
    }
}

/// A push ended; `status` was computed after it. A push that failed because
/// the remote moved on asks for a pull.
pub fn pushed(before: &BartenderStatus, outcome: Result<(), String>, status: BartenderStatus) -> (r:
    BartenderPushResult)
    ensures
        match outcome {
            Ok(_) => push_result(r, true, "Pushed to GitHub."@, before.github_change_count as nat, status),
            Err(e) => if status.github_behind_count > 0 {
                push_result(r, false, pull_first(status.github_behind_count as nat), 0, status)
            } else {
                push_result(r, false, "GitHub push failed: "@ + e@, 0, status)
            },
        },
{
    match outcome {
        Ok(_) => push_done(true, own("Pushed to GitHub."), before.github_change_count, status),
        Err(e) => {
            if status.github_behind_count > 0 {
                let message = plus3(
                    "GitHub has ",
                    &change_phrase(status.github_behind_count),
                    ". Pull first, then push.",
                );
                push_done(false, message, 0, status)
            } else {
                push_done(false, plus("GitHub push failed: ", &e), 0, status)
            }
        },
    }
}

/// Neither direction moves commits while the room has changes of its own.
pub proof fn local_changes_stop_both_directions(
    before: BartenderStatus,
    operation: Option<Text>,
    branch: Text,
    pull: PullStep,
    push: PushStep,
)
    requires
        before.room_change_count > 0,
        pull_decision(before, operation, pull),
        push_decision(before, branch, push),
    ensures
        pull matches PullStep::Done(r) && !r.ok && r.pulled_commit_count == 0,
        push matches PushStep::Done(r) && !r.ok && r.pushed_commit_count == 0,
{
}

/// A push never goes out while the remote has commits that the room lacks.
pub proof fn a_push_never_overtakes_the_remote(before: BartenderStatus, branch: Text, push: PushStep)
    requires
        before.github_behind_count > 0,
        push_decision(before, branch, push),
    ensures
        push matches PushStep::Done(r) && !r.ok && r.pushed_commit_count == 0,
{
}

/// A room without changes of its own takes over what the remote has: by moving
/// its branch forward if it has no commits of its own, else by merging. Without
/// anything new it does nothing, and during another operation it refuses.
pub proof fn a_pull_follows_the_room(before: BartenderStatus, operation: Option<Text>, step: PullStep)
    requires
        pull_decision(before, operation, step),
    ensures
        step matches PullStep::FastForward(s) ==> s == before && before.room_change_count == 0 && before.github_behind_count
            > 0 && before.github_change_count == 0 && operation is None,
        step matches PullStep::Merge(s) ==> s == before && before.room_change_count == 0 && before.github_behind_count > 0
            && before.github_change_count > 0 && operation is None,
        step matches PullStep::Done(r) ==> r.pulled_commit_count == 0 && r.conflict is None && !r.needs_human_pick && r.status
            == before && (r.ok <==> before.room_change_count == 0 && before.github_behind_count == 0) && (
        before.room_change_count > 0 || before.github_behind_count == 0 || operation is Some),
        before.room_change_count == 0 && before.github_behind_count > 0 && (operation matches Some(o) && true) ==> (step
            matches PullStep::Done(r) && !r.ok && occurs(r.message@, operation->0)),
{
    if before.room_change_count == 0 && before.github_behind_count > 0 && operation is Some {
        let o = operation->0;
        let a = "Resolve the active "@;
        if let PullStep::Done(r) = step {
            assert(r.message@.subrange(a.len() as int, (a.len() + o.len()) as int) =~= o);
            assert(stands_at(r.message@, o, a.len() as int));
        }
    }
}

/// A room without changes of its own and with nothing to pull pushes what it
/// has: the first time under the branch of its status, else as new commits.
/// Without commits it does nothing.
pub proof fn a_push_follows_the_room(before: BartenderStatus, branch: Text, step: PushStep)
    requires
        push_decision(before, branch, step),
    ensures
        step matches PushStep::Push(s) ==> s == before && before.room_change_count == 0 && before.github_behind_count == 0
            && !before.github_needs_initial_push && before.github_change_count > 0,
        step matches PushStep::Initial(b, s) ==> s == before && before.room_change_count == 0 && before.github_behind_count
            == 0 && before.github_needs_initial_push && (before.github_push_branch matches Some(x) ==> b@ == x@) && (
        before.github_push_branch is None ==> b@ == branch),
        step matches PushStep::Done(r) ==> r.pushed_commit_count == 0 && r.status == before && (r.ok <==> before.room_change_count
            == 0 && before.github_behind_count == 0 && !before.github_needs_initial_push && before.github_change_count == 0),
{
}

} // verus!
