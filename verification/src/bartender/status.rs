//! The status of a room, computed from what `git` reports.
use vstd::prelude::*;
use crate::bartender::git::{change_phrase, changed_file_phrase, changed_files, changes};
use crate::order::{text_set, Key, OrderedSet, Parts};
use crate::text::{begins, begins_with, copy_opt, opt_text, own, plus, plus3, same, strip_front, texts, Text};

verus! {

/// An agent of a workspace.
pub struct AgentSpec {
    pub agent_id: String,
    pub worktree_root: String,
    /// The agent still belongs to the room.
    pub active: bool,
}

/// A room: the source repository and its agents' worktrees.
pub struct WorkspaceProject {
    pub project_id: String,
    pub source_dir: String,
    pub local_root: String,
    pub default_branch: String,
    pub agents: Vec<AgentSpec>,
}

/// A worktree to publish and refresh.
pub struct AgentSyncTarget {
    pub agent_id: String,
    pub path: String,
}

pub open spec fn target_pairs(v: Seq<AgentSyncTarget>) -> Seq<(Text, Text)> {
    Seq::new(v.len(), |i: int| (v[i].agent_id@, v[i].path@))
}

pub open spec fn has_agent(s: Seq<(Text, Text)>, id: Text) -> bool {
    exists|i: int| 0 <= i < s.len() && (#[trigger] s[i]).0 == id
}

/// The active agents in order, each once.
pub open spec fn active_targets(agents: Seq<AgentSpec>) -> Seq<(Text, Text)>
    decreases agents.len(),
{
    if agents.len() == 0 {
        Seq::empty()
    } else {
        let rest = active_targets(agents.drop_last());
        let a = agents.last();
        if a.active && !has_agent(rest, a.agent_id@) {
            rest.push((a.agent_id@, a.worktree_root@))
        } else {
            rest
        }
    }
}

pub fn agent_targets(workspace: &WorkspaceProject) -> (r: Vec<AgentSyncTarget>)
    ensures
        target_pairs(r@) == active_targets(workspace.agents@),
{
    let agents = &workspace.agents;
    let mut out: Vec<AgentSyncTarget> = Vec::new();
    let mut i: usize = 0;
    assert(target_pairs(out@) =~= active_targets(agents@.take(0)));
    while i < agents.len()
        invariant
            i <= agents@.len(),
            target_pairs(out@) == active_targets(agents@.take(i as int)),
        decreases agents@.len() - i,
    {
        let ghost next = agents@.take(i + 1);
        let ghost was = out@;
        assert(next.drop_last() =~= agents@.take(i as int));
        assert(next.last() == agents@[i as int]);
        let a = &agents[i];
        let mut known = false;
        let mut j: usize = 0;
        while j < out.len()
            invariant
                j <= out@.len(),
                out@ == was,
                known == exists|x: int| 0 <= x < j && (#[trigger] target_pairs(out@)[x]).0 == a.agent_id@,
            decreases out@.len() - j,
        {
            if same(&out[j].agent_id, &a.agent_id) {
                assert(target_pairs(out@)[j as int].0 == a.agent_id@);
                known = true;
            } else {
                assert(target_pairs(out@)[j as int].0 != a.agent_id@);
            }
            j += 1;
        }
        assert(known == has_agent(target_pairs(was), a.agent_id@));
        if a.active && !known {
            out.push(AgentSyncTarget { agent_id: a.agent_id.clone(), path: a.worktree_root.clone() });
            assert(target_pairs(out@) =~= target_pairs(was).push((a.agent_id@, a.worktree_root@)));
        }
        i += 1;
    }
    assert(agents@.take(i as int) =~= agents@);
    out
}

/// What `git` reports of one agent's worktree.
pub struct AgentFacts {
    pub agent_id: String,
    pub path: String,
    pub exists: bool,
    pub head: String,
    /// Commits that the source repository lacks.
    pub pending: Vec<String>,
    /// Files that those commits touch.
    pub commit_paths: Vec<String>,
    /// Files that differ from the worktree's own head.
    pub work_paths: Vec<String>,
    /// Files that differ from the source repository's head.
    pub lag_paths: Vec<String>,
}

/// A branch that was never pushed.
pub struct InitialPush {
    pub branch: String,
    pub commit_count: usize,
}

/// What `git` reports of the room.
pub struct StatusFacts {
    /// The head of the source repository; empty without one.
    pub source_head: String,
    pub source_paths: Vec<String>,
    pub agents: Vec<AgentFacts>,
    pub ahead: usize,
    pub behind: usize,
    pub initial_push: Option<InitialPush>,
    pub checked_at: String,
}

pub struct BartenderDirtyAgent {
    pub agent_id: String,
    pub path: String,
    pub change_count: usize,
    pub pending_commit_count: usize,
}

pub struct DirtyModel {
    pub agent_id: Text,
    pub path: Text,
    pub change_count: nat,
    pub pending_commit_count: nat,
}

impl View for BartenderDirtyAgent {
    type V = DirtyModel;

    open spec fn view(&self) -> DirtyModel {
        DirtyModel {
            agent_id: self.agent_id@,
            path: self.path@,
            change_count: self.change_count as nat,
            pending_commit_count: self.pending_commit_count as nat,
        }
    }
}

pub struct BartenderStatus {
    pub project_id: String,
    pub source_dir: String,
    pub default_branch: String,
    pub room_change_count: usize,
    pub source_change_count: usize,
    pub github_change_count: usize,
    pub github_behind_count: usize,
    pub github_needs_initial_push: bool,
    pub github_push_branch: Option<String>,
    pub github_initial_push_commit_count: usize,
    pub dirty_agents: Vec<BartenderDirtyAgent>,
    pub checked_at: String,
    pub state: String,
    pub message: String,
}

pub struct StatusModel {
    pub project_id: Text,
    pub source_dir: Text,
    pub default_branch: Text,
    pub room_change_count: nat,
    pub source_change_count: nat,
    pub github_change_count: nat,
    pub github_behind_count: nat,
    pub github_needs_initial_push: bool,
    pub github_push_branch: Option<Text>,
    pub github_initial_push_commit_count: nat,
    pub dirty_agents: Seq<DirtyModel>,
    pub checked_at: Text,
    pub state: Text,
    pub message: Text,
}

pub open spec fn dirty_models(s: Seq<BartenderDirtyAgent>) -> Seq<DirtyModel> {
    Seq::new(s.len(), |i: int| s[i]@)
}

impl View for BartenderStatus {
    type V = StatusModel;

    open spec fn view(&self) -> StatusModel {
        StatusModel {
            project_id: self.project_id@,
            source_dir: self.source_dir@,
            default_branch: self.default_branch@,
            room_change_count: self.room_change_count as nat,
            source_change_count: self.source_change_count as nat,
            github_change_count: self.github_change_count as nat,
            github_behind_count: self.github_behind_count as nat,
            github_needs_initial_push: self.github_needs_initial_push,
            github_push_branch: opt_text(self.github_push_branch),
            github_initial_push_commit_count: self.github_initial_push_commit_count as nat,
            dirty_agents: dirty_models(self.dirty_agents@),
            checked_at: self.checked_at@,
            state: self.state@,
            message: self.message@,
        }
    }
}

impl BartenderStatus {
    pub fn copy(&self) -> (r: BartenderStatus)
        ensures
            r@ == self@,
    {
        let mut agents: Vec<BartenderDirtyAgent> = Vec::new();
        let mut i: usize = 0;
        while i < self.dirty_agents.len()
            invariant
                i <= self.dirty_agents@.len(),
                dirty_models(agents@) == dirty_models(self.dirty_agents@).take(i as int),
            decreases self.dirty_agents@.len() - i,
        {
            let ghost was = agents@;
            let a = &self.dirty_agents[i];
            agents.push(
                BartenderDirtyAgent {
                    agent_id: a.agent_id.clone(),
                    path: a.path.clone(),
                    change_count: a.change_count,
                    pending_commit_count: a.pending_commit_count,
                },
            );
            i += 1;
            assert(dirty_models(agents@) =~= dirty_models(was).push(a@));
            assert(dirty_models(agents@) =~= dirty_models(self.dirty_agents@).take(i as int));
        }
        assert(dirty_models(agents@) =~= dirty_models(self.dirty_agents@));
        BartenderStatus {
            project_id: self.project_id.clone(),
            source_dir: self.source_dir.clone(),
            default_branch: self.default_branch.clone(),
            room_change_count: self.room_change_count,
            source_change_count: self.source_change_count,
            github_change_count: self.github_change_count,
            github_behind_count: self.github_behind_count,
            github_needs_initial_push: self.github_needs_initial_push,
            github_push_branch: copy_opt(&self.github_push_branch),
            github_initial_push_commit_count: self.github_initial_push_commit_count,
            dirty_agents: agents,
            checked_at: self.checked_at.clone(),
            state: self.state.clone(),
            message: self.message.clone(),
        }
    }
}

// ----------------------------------------------------------------- the rules

/// Pending commits count only against a source repository that has a head.
pub open spec fn pending_count(head: Text, a: AgentFacts) -> nat {
    if head.len() == 0 {
        0
    } else {
        a.pending@.len()
    }
}

/// The files that an agent changed: by commits, in its worktree, or, when it
/// merely lags behind, against the source repository.
pub open spec fn agent_paths(head: Text, a: AgentFacts) -> Set<Parts> {
    let commits = if pending_count(head, a) > 0 {
        text_set(texts(a.commit_paths@))
    } else {
        Set::empty()
    };
    let lag = if pending_count(head, a) == 0 && head.len() > 0 && a.head@ != head {
        text_set(texts(a.lag_paths@))
    } else {
        Set::empty()
    };
    commits.union(text_set(texts(a.work_paths@))).union(lag)
}

/// An agent with something to publish.
pub open spec fn is_dirty(head: Text, a: AgentFacts) -> bool {
    a.exists && (agent_paths(head, a).len() > 0 || pending_count(head, a) > 0)
}

pub open spec fn dirty_list(head: Text, agents: Seq<AgentFacts>) -> Seq<DirtyModel>
    decreases agents.len(),
{
    if agents.len() == 0 {
        Seq::empty()
    } else {
        let rest = dirty_list(head, agents.drop_last());
        let a = agents.last();
        if is_dirty(head, a) {
            rest.push(
                DirtyModel {
                    agent_id: a.agent_id@,
                    path: a.path@,
                    change_count: agent_paths(head, a).len(),
                    pending_commit_count: pending_count(head, a),
                },
            )
        } else {
            rest
        }
    }
}

/// The files changed anywhere in the room, each once.
pub open spec fn room_paths(f: StatusFacts, n: int) -> Set<Parts>
    decreases n,
{
    if n <= 0 {
        text_set(texts(f.source_paths@))
    } else if n <= f.agents@.len() && is_dirty(f.source_head@, f.agents@[n - 1]) {
        room_paths(f, n - 1).union(agent_paths(f.source_head@, f.agents@[n - 1]))
    } else {
        room_paths(f, n - 1)
    }
}

/// Where the changes of a room wait.
pub open spec fn place(source_changed: bool, some_dirty: bool) -> Text {
    if source_changed && !some_dirty {
        "source repo"@
    } else if source_changed {
        "source repo and agent worktrees"@
    } else {
        "agent worktrees"@
    }
}

/// The state of a room and what is said of it: local changes first, then the
/// remote.
pub open spec fn verdict(
    room: nat,
    source: nat,
    some_dirty: bool,
    ahead: nat,
    behind: nat,
    initial: Option<Text>,
) -> (Text, Text) {
    if room > 0 {
        ("roomDiff"@, changed_files(room) + " waiting in "@ + place(source > 0, some_dirty) + "."@)
    } else if ahead > 0 && behind > 0 {
        (
            "githubDiverged"@,
            "GitHub has "@ + changes(behind) + "; local has "@ + changes(ahead) + ". Pull first."@,
        )
    } else if behind > 0 {
        ("githubBehind"@, changes(behind) + " available from GitHub."@)
    } else if ahead > 0 {
        ("githubDiff"@, changes(ahead) + " ready for GitHub."@)
    } else if initial is Some {
        ("githubInitialPush"@, initial->0 + " is ready for initial GitHub push."@)
    } else {
        ("idle"@, "Room is in sync."@)
    }
}

pub open spec fn initial_branch(p: Option<InitialPush>) -> Option<Text> {
    match p {
        Some(x) => Some(x.branch@),
        None => None,
    }
}

/// The status that the facts amount to.
pub open spec fn status_of(w: WorkspaceProject, f: StatusFacts) -> StatusModel {
    let room = room_paths(f, f.agents@.len() as int).len();
    let source = text_set(texts(f.source_paths@)).len();
    let dirty = dirty_list(f.source_head@, f.agents@);
    let v = verdict(
        room,
        source,
        dirty.len() > 0,
        f.ahead as nat,
        f.behind as nat,
        initial_branch(f.initial_push),
    );
    StatusModel {
        project_id: w.project_id@,
        source_dir: w.source_dir@,
        default_branch: w.default_branch@,
        room_change_count: room,
        source_change_count: source,
        github_change_count: f.ahead as nat,
        github_behind_count: f.behind as nat,
        github_needs_initial_push: f.initial_push is Some,
        github_push_branch: initial_branch(f.initial_push),
        github_initial_push_commit_count: match f.initial_push {
            Some(x) => x.commit_count as nat,
            None => 0,
        },
        dirty_agents: dirty,
        checked_at: f.checked_at@,
        state: v.0,
        message: v.1,
    }
}

fn collect_agent_paths(head: &str, a: &AgentFacts) -> (r: OrderedSet<String>)
    ensures
        r.wf(),
        r@ == agent_paths(head@, *a),
{
    let mut set: OrderedSet<String> = OrderedSet::new();
    let pending = !head.is_empty() && a.pending.len() > 0;
    let ghost none = Set::<Parts>::empty();
    if pending {
        set.add_texts(&a.commit_paths);
        assert(none.union(text_set(texts(a.commit_paths@))) =~= text_set(texts(a.commit_paths@)));
    }
    set.add_texts(&a.work_paths);
    let ghost two = set@;
    if !pending && !head.is_empty() && !same(&a.head, head) {
        set.add_texts(&a.lag_paths);
    } else {
        assert(two.union(none) =~= two);
    }
    set
}

fn describe(
    room: usize,
    source: usize,
    some_dirty: bool,
    ahead: usize,
    behind: usize,
    initial: &Option<InitialPush>,
) -> (r: (String, String))
    ensures
        (r.0@, r.1@) == verdict(
            room as nat,
            source as nat,
            some_dirty,
            ahead as nat,
            behind as nat,
            initial_branch(*initial),
        ),
{
    if room > 0 {
        let location = if source > 0 && !some_dirty {
            own("source repo")
        } else if source > 0 {
            own("source repo and agent worktrees")
        } else {
            own("agent worktrees")
        };
        let mut message = plus3(&changed_file_phrase(room), " waiting in ", &location);
        message.append(".");
        return (own("roomDiff"), message);
    }
    if ahead > 0 && behind > 0 {
        let mut message = plus3("GitHub has ", &change_phrase(behind), "; local has ");
        message.append(&change_phrase(ahead));
        message.append(". Pull first.");
        return (own("githubDiverged"), message);
    }
    if behind > 0 {
        return (own("githubBehind"), plus(&change_phrase(behind), " available from GitHub."));
    }
    if ahead > 0 {
        return (own("githubDiff"), plus(&change_phrase(ahead), " ready for GitHub."));
    }
    match initial {
        Some(p) => (own("githubInitialPush"), plus(&p.branch, " is ready for initial GitHub push.")),
        None => (own("idle"), own("Room is in sync.")),
    }
}

/// Compute the status of a room.
pub fn compute_status(workspace: &WorkspaceProject, facts: &StatusFacts) -> (r: BartenderStatus)
    ensures
        r@ == status_of(*workspace, *facts),
{
    let ghost head = facts.source_head@;
    let ghost agents = facts.agents@;
    let mut room: OrderedSet<String> = OrderedSet::new();
    room.add_texts(&facts.source_paths);
    assert(Set::<Parts>::empty().union(text_set(texts(facts.source_paths@))) =~= text_set(
        texts(facts.source_paths@),
    ));
    let source_change_count = room.len();
    let mut dirty: Vec<BartenderDirtyAgent> = Vec::new();
    let mut i: usize = 0;
    assert(dirty_models(dirty@) =~= dirty_list(head, agents.take(0)));
    while i < facts.agents.len()
        invariant
            room.wf(),
            head == facts.source_head@,
            agents == facts.agents@,
            i <= agents.len(),
            room@ == room_paths(*facts, i as int),
            dirty_models(dirty@) == dirty_list(head, agents.take(i as int)),
        decreases agents.len() - i,
    {
        let ghost next = agents.take(i + 1);
        let ghost was = dirty@;
        assert(next.drop_last() =~= agents.take(i as int));
        assert(next.last() == agents[i as int]);
        let a = &facts.agents[i];
        if a.exists {
            let paths = collect_agent_paths(&facts.source_head, a);
            let change_count = paths.len();
            let pending_commit_count = if facts.source_head.as_str().is_empty() {
                0
            } else {
                a.pending.len()
            };
            if change_count > 0 || pending_commit_count > 0 {
                room.add_all(&paths);
                let entry = BartenderDirtyAgent {
                    agent_id: a.agent_id.clone(),
                    path: a.path.clone(),
                    change_count,
                    pending_commit_count,
                };
                dirty.push(entry);
                assert(dirty_models(dirty@) =~= dirty_models(was).push(entry@));
            }
        }
        i += 1;
    }
    assert(agents.take(i as int) =~= agents);
    let room_change_count = room.len();
    let (state, message) = describe(
        room_change_count,
        source_change_count,
        dirty.len() > 0,
        facts.ahead,
        facts.behind,
        &facts.initial_push,
    );
    let (branch, commits): (Option<String>, usize) = match &facts.initial_push {
        Some(p) => (Some(p.branch.clone()), p.commit_count),
        None => (None, 0),
    };
    assert(dirty_models(dirty@).len() == dirty@.len());
    BartenderStatus {
        project_id: workspace.project_id.clone(),
        source_dir: workspace.source_dir.clone(),
        default_branch: workspace.default_branch.clone(),
        room_change_count,
        source_change_count,
        github_change_count: facts.ahead,
        github_behind_count: facts.behind,
        github_needs_initial_push: facts.initial_push.is_some(),
        github_push_branch: branch,
        github_initial_push_commit_count: commits,
        dirty_agents: dirty,
        checked_at: facts.checked_at.clone(),
        state,
        message,
    }
}

/// What `git` reports about a branch that may never have been pushed.
pub struct PushFacts {
    pub has_origin: bool,
    pub branch: Option<String>,
    pub commit_count: Option<usize>,
    pub upstream: Option<String>,
    pub upstream_known: bool,
}

/// The branch of a remote reference: the remote's name goes, as often as it is written.
pub open spec fn without_origin(s: Text) -> Text
    decreases s.len(),
{
    if "origin/"@.len() > 0 && begins(s, "origin/"@) {
        without_origin(s.skip("origin/"@.len() as int))
    } else {
        s
    }
}

fn strip_origin(s: &str) -> (r: String)
    ensures
        r@ == without_origin(s@),
    decreases s@.len(),
{
    proof {
        reveal_strlit("origin/");
    }
    match strip_front(s, "origin/") {
        Some(rest) => strip_origin(&rest),
        None => own(s),
    }
}

/// Must the branch be pushed for the first time? Only the default branch with
/// commits, when its upstream is on the origin and unknown, or not set.
pub open spec fn first_push(f: PushFacts, default_branch: Text) -> Option<(Text, nat)> {
    if !f.has_origin || opt_text(f.branch) != Some(default_branch) || f.commit_count is None || f.commit_count->0 == 0 {
        None
    } else {
        match f.upstream {
            None => Some((default_branch, f.commit_count->0 as nat)),
            Some(u) => if !f.upstream_known && begins(u@, "origin/"@) {
                Some((without_origin(u@), f.commit_count->0 as nat))
            } else {
                None
            },
        }
    }
}

pub fn initial_push_status(facts: &PushFacts, default_branch: &str) -> (r: Option<InitialPush>)
    ensures
        r is Some == first_push(*facts, default_branch@) is Some,
        r matches Some(p) ==> first_push(*facts, default_branch@) == Some((p.branch@, p.commit_count as nat)),
{
    let on_default = match &facts.branch {
        Some(b) => same(b, default_branch),
        None => false,
    };
    if !facts.has_origin || !on_default {
        return None;
    }
    let count = match facts.commit_count {
        Some(n) => n,
        None => {
            return None;
        },
    };
    if count == 0 {
        return None;
    }
    match &facts.upstream {
        None => Some(InitialPush { branch: own(default_branch), commit_count: count }),
        Some(u) => {
            if !facts.upstream_known && begins_with(u, "origin/") {
                Some(InitialPush { branch: strip_origin(u), commit_count: count })
            } else {
                None
            }
        },
    }
}

/// A room with local changes never shows a remote state: the remote is only
/// spoken of once the room itself is in step.
pub proof fn local_changes_come_first(w: WorkspaceProject, f: StatusFacts)
    ensures
        status_of(w, f).room_change_count > 0 <==> status_of(w, f).state == "roomDiff"@,
{
    reveal_strlit("roomDiff");
    reveal_strlit("githubDiverged");
    reveal_strlit("githubBehind");
    reveal_strlit("githubDiff");
    reveal_strlit("githubInitialPush");
    reveal_strlit("idle");
    assert("roomDiff"@.len() == 8);
    assert("githubDiverged"@.len() == 14);
    assert("githubBehind"@.len() == 12);
    assert("githubDiff"@.len() == 10);
    assert("githubInitialPush"@.len() == 17);
    assert("idle"@.len() == 4);
}

proof fn lemma_states_differ()
    ensures
        "roomDiff"@.len() == 8,
        "githubDiverged"@.len() == 14,
        "githubBehind"@.len() == 12,
        "githubDiff"@.len() == 10,
        "githubInitialPush"@.len() == 17,
        "idle"@.len() == 4,
{
    reveal_strlit("roomDiff");
    reveal_strlit("githubDiverged");
    reveal_strlit("githubBehind");
    reveal_strlit("githubDiff");
    reveal_strlit("githubInitialPush");
    reveal_strlit("idle");
}

/// In a room without local changes the state tells on which side commits are
/// missing, and the message how many: GitHub has commits that the room lacks,
/// the room has commits that GitHub lacks, or both. Only where neither lacks
/// any is a first push spoken of, and only without one is the room in sync.
pub proof fn the_state_tells_the_direction(w: WorkspaceProject, f: StatusFacts)
    requires
        status_of(w, f).room_change_count == 0,
    ensures
        ({
            let s = status_of(w, f);
            let (ahead, behind) = (f.ahead as nat, f.behind as nat);
            &&& s.state == "githubBehind"@ <==> behind > 0 && ahead == 0
            &&& s.state == "githubDiff"@ <==> ahead > 0 && behind == 0
            &&& s.state == "githubDiverged"@ <==> ahead > 0 && behind > 0
            &&& s.state == "githubInitialPush"@ <==> ahead == 0 && behind == 0 && f.initial_push is Some
            &&& s.state == "idle"@ <==> ahead == 0 && behind == 0 && f.initial_push is None
            &&& behind > 0 && ahead == 0 ==> s.message == changes(behind) + " available from GitHub."@
            &&& ahead > 0 && behind == 0 ==> s.message == changes(ahead) + " ready for GitHub."@
            &&& ahead > 0 && behind > 0 ==> s.message == "GitHub has "@ + changes(behind) + "; local has "@ + changes(
                ahead,
            ) + ". Pull first."@
            &&& ahead == 0 && behind == 0 ==> s.message == (match f.initial_push {
                Some(p) => p.branch@ + " is ready for initial GitHub push."@,
                None => "Room is in sync."@,
            })
        }),
{
    lemma_states_differ();
}

/// The counts of a status are those that were reported: how far the room is
/// ahead of and behind GitHub, and the first push that is due.
pub proof fn a_status_counts_what_was_reported(w: WorkspaceProject, f: StatusFacts)
    ensures
        ({
            let s = status_of(w, f);
            &&& s.github_change_count == f.ahead
            &&& s.github_behind_count == f.behind
            &&& s.github_needs_initial_push == f.initial_push is Some
            &&& f.initial_push matches Some(p) ==> s.github_push_branch == Some(p.branch@)
                && s.github_initial_push_commit_count == p.commit_count
            &&& f.initial_push is None ==> s.github_push_branch is None && s.github_initial_push_commit_count == 0
            &&& s.source_change_count == text_set(texts(f.source_paths@)).len()
            &&& s.room_change_count == room_paths(f, f.agents@.len() as int).len()
            &&& s.project_id == w.project_id@
            &&& s.source_dir == w.source_dir@
            &&& s.default_branch == w.default_branch@
            &&& s.checked_at == f.checked_at@
        }),
{
}

/// Where the local changes of a room wait is told: in the source repository,
/// in the agents' worktrees, or in both.
pub proof fn a_room_with_changes_tells_where_they_wait(w: WorkspaceProject, f: StatusFacts)
    requires
        status_of(w, f).room_change_count > 0,
    ensures
        ({
            let s = status_of(w, f);
            let (source, agents) = (s.source_change_count > 0, s.dirty_agents.len() > 0);
            &&& s.state == "roomDiff"@
            &&& source && agents ==> s.message == changed_files(s.room_change_count)
                + " waiting in "@ + "source repo and agent worktrees"@ + "."@
            &&& source && !agents ==> s.message == changed_files(s.room_change_count) + " waiting in "@
                + "source repo"@ + "."@
            &&& !source ==> s.message == changed_files(s.room_change_count) + " waiting in "@ + "agent worktrees"@ + "."@
        }),
{
}

/// A file is changed in the worktree of an agent: it differs from the agent's
/// own head, or a commit touches it that the source repository lacks, or,
/// without such commits, it differs from the source repository's other head.
pub open spec fn touches(head: Text, a: AgentFacts, path: Text) -> bool {
    ||| texts(a.work_paths@).contains(path)
    ||| head.len() > 0 && a.pending@.len() > 0 && texts(a.commit_paths@).contains(path)
    ||| head.len() > 0 && a.pending@.len() == 0 && a.head@ != head && texts(a.lag_paths@).contains(path)
}

proof fn lemma_text_set(s: Seq<Text>, path: Text)
    ensures
        text_set(s).contains(seq![path]) <==> s.contains(path),
{
    if text_set(s).contains(seq![path]) {
        let i = choose|i: int| 0 <= i < s.len() && seq![path] == seq![#[trigger] s[i]];
        assert(seq![path][0] == seq![s[i]][0]);
    }
    if s.contains(path) {
        let i = choose|i: int| 0 <= i < s.len() && s[i] == path;
        assert(seq![path] == seq![s[i]]);
    }
}

proof fn lemma_agent_paths(head: Text, a: AgentFacts, path: Text)
    ensures
        agent_paths(head, a).contains(seq![path]) <==> touches(head, a, path),
{
    lemma_text_set(texts(a.work_paths@), path);
    lemma_text_set(texts(a.commit_paths@), path);
    lemma_text_set(texts(a.lag_paths@), path);
}

/// A file counts for a room exactly if it is changed in the source repository
/// or in the worktree of an agent that exists and has something to publish,
/// wherever else it is changed as well.
pub proof fn a_room_counts_each_changed_file_once(f: StatusFacts, path: Text)
    ensures
        room_paths(f, f.agents@.len() as int).contains(seq![path]) <==> texts(f.source_paths@).contains(path) || exists|
            i: int,
        |
            0 <= i < f.agents@.len() && is_dirty(f.source_head@, #[trigger] f.agents@[i]) && touches(
                f.source_head@,
                f.agents@[i],
                path,
            ),
{
    lemma_room_paths(f, f.agents@.len() as int, path);
}

proof fn lemma_room_paths(f: StatusFacts, n: int, path: Text)
    requires
        0 <= n <= f.agents@.len(),
    ensures
        room_paths(f, n).contains(seq![path]) <==> texts(f.source_paths@).contains(path) || exists|i: int|
            0 <= i < n && is_dirty(f.source_head@, #[trigger] f.agents@[i]) && touches(f.source_head@, f.agents@[i], path),
    decreases n,
{
    lemma_text_set(texts(f.source_paths@), path);
    if n > 0 {
        lemma_room_paths(f, n - 1, path);
        lemma_agent_paths(f.source_head@, f.agents@[n - 1], path);
    }
}

/// The agents with something to publish are listed in turn and no others: a
/// worktree that is missing never is, one with commits that the source
/// repository lacks always is. Each is listed with its own files and commits.
pub proof fn agents_with_something_to_publish_are_listed(head: Text, agents: Seq<AgentFacts>, i: int)
    requires
        0 <= i < agents.len(),
    ensures
        ({
            let a = agents[i];
            let entry = DirtyModel {
                agent_id: a.agent_id@,
                path: a.path@,
                change_count: agent_paths(head, a).len(),
                pending_commit_count: if head.len() > 0 {
                    a.pending@.len()
                } else {
                    0
                },
            };
            &&& is_dirty(head, a) ==> dirty_list(head, agents).contains(entry)
            &&& !a.exists ==> !is_dirty(head, a)
            &&& a.exists && head.len() > 0 && a.pending@.len() > 0 ==> is_dirty(head, a)
            &&& a.exists && agent_paths(head, a).len() > 0 ==> is_dirty(head, a)
        }),
        forall|d: DirtyModel|
            #[trigger] dirty_list(head, agents).contains(d) ==> exists|k: int|
                0 <= k < agents.len() && is_dirty(head, #[trigger] agents[k]) && agents[k].agent_id@ == d.agent_id
                    && agents[k].path@ == d.path,
    decreases agents.len(),
{
    let rest = dirty_list(head, agents.drop_last());
    let out = dirty_list(head, agents);
    if agents.len() > 1 {
        let k = if i < agents.len() - 1 {
            i
        } else {
            0
        };
        agents_with_something_to_publish_are_listed(head, agents.drop_last(), k);
    }
    assert(agents[agents.len() - 1] == agents.last());
    if is_dirty(head, agents.last()) {
        assert(out[rest.len() as int] == out.last());
    }
    assert forall|d: DirtyModel| rest.contains(d) implies out.contains(d) by {
        let x = choose|x: int| 0 <= x < rest.len() && rest[x] == d;
        assert(out[x] == d);
    }
    if i < agents.len() - 1 {
        assert(agents.drop_last()[i] == agents[i]);
    }
    assert forall|d: DirtyModel| #[trigger] out.contains(d) implies exists|k: int|
        0 <= k < agents.len() && is_dirty(head, #[trigger] agents[k]) && agents[k].agent_id@ == d.agent_id
            && agents[k].path@ == d.path by {
        let x = choose|x: int| 0 <= x < out.len() && out[x] == d;
        if x < rest.len() {
            assert(rest[x] == d);
            assert(rest.contains(d));
            let k = choose|k: int|
                0 <= k < agents.drop_last().len() && is_dirty(head, #[trigger] agents.drop_last()[k])
                    && agents.drop_last()[k].agent_id@ == d.agent_id && agents.drop_last()[k].path@ == d.path;
            assert(agents[k] == agents.drop_last()[k]);
        } else {
            assert(is_dirty(head, agents[agents.len() - 1]));
        }
    }
}

/// A worktree is published and refreshed for every active agent, once and
/// where that agent works, and for no other.
pub proof fn every_active_agent_is_a_target(agents: Seq<AgentSpec>)
    ensures
        forall|i: int|
            0 <= i < agents.len() && (#[trigger] agents[i]).active ==> has_agent(active_targets(agents), agents[i].agent_id@),
        forall|i: int, j: int|
            0 <= i < j < active_targets(agents).len() ==> (#[trigger] active_targets(agents)[i]).0 != (
            #[trigger] active_targets(agents)[j]).0,
        forall|i: int|
            0 <= i < active_targets(agents).len() ==> exists|k: int|
                0 <= k < agents.len() && (#[trigger] agents[k]).active && (agents[k].agent_id@, agents[k].worktree_root@)
                    == #[trigger] active_targets(agents)[i],
    decreases agents.len(),
{
    if agents.len() > 0 {
        let head = agents.drop_last();
        let rest = active_targets(head);
        let out = active_targets(agents);
        every_active_agent_is_a_target(head);
        assert(agents[agents.len() - 1] == agents.last());
        assert forall|id: Text| has_agent(rest, id) implies has_agent(out, id) by {
            let x = choose|x: int| 0 <= x < rest.len() && (#[trigger] rest[x]).0 == id;
            assert(out[x] == rest[x]);
        }
        assert forall|i: int| 0 <= i < agents.len() && (#[trigger] agents[i]).active implies has_agent(
            out,
            agents[i].agent_id@,
        ) by {
            if i < head.len() {
                assert(head[i] == agents[i]);
            } else if out.len() > rest.len() {
                assert(out[rest.len() as int].0 == agents[i].agent_id@);
            }
        }
        assert forall|i: int| 0 <= i < out.len() implies exists|k: int|
            0 <= k < agents.len() && (#[trigger] agents[k]).active && (agents[k].agent_id@, agents[k].worktree_root@)
                == #[trigger] out[i] by {
            if i < rest.len() {
                assert(out[i] == rest[i]);
                let k = choose|k: int|
                    0 <= k < head.len() && (#[trigger] head[k]).active && (head[k].agent_id@, head[k].worktree_root@)
                        == rest[i];
                assert(agents[k] == head[k]);
            }
        }
        assert forall|i: int, j: int| 0 <= i < j < out.len() implies (#[trigger] out[i]).0 != (#[trigger] out[j]).0 by {
            assert(out[i] == rest[i]);
            if j < rest.len() {
                assert(out[j] == rest[j]);
            } else if rest[i].0 == out[j].0 {
                assert(has_agent(rest, out[j].0));
            }
        }
    }
}

/// A first push is due exactly for the default branch with commits of a
/// repository that has an origin, if the branch follows nothing or something on
/// the origin that is not known there.
pub proof fn a_first_push_is_for_the_default_branch(f: PushFacts, default_branch: Text)
    ensures
        ({
            let due = first_push(f, default_branch);
            &&& !f.has_origin ==> due is None
            &&& opt_text(f.branch) != Some(default_branch) ==> due is None
            &&& f.commit_count is None || f.commit_count == Some(0usize) ==> due is None
            &&& f.upstream is Some && f.upstream_known ==> due is None
            &&& f.upstream matches Some(u) ==> !begins(u@, "origin/"@) ==> due is None
            &&& due matches Some(d) ==> f.commit_count == Some(d.1 as usize) && d.1 > 0
            &&& due matches Some(d) ==> f.upstream is None ==> d.0 == default_branch
            &&& f.has_origin && opt_text(f.branch) == Some(default_branch) && (f.commit_count matches Some(n) && n > 0) && (
            f.upstream is None || (!f.upstream_known && begins(f.upstream->0@, "origin/"@))) ==> due is Some
        }),
{
}

} // verus!
