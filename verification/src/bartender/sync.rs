//! Publishing agents' commits into the source repository, pass by pass, and
//! refreshing their worktrees.
use vstd::prelude::*;
use crate::bartender::git::{change_phrase, changes, concise, concise_git_error, is_empty_pick, is_index_lock_error};
use crate::bartender::git::{is_lock_error, looks_like_empty_cherry_pick};
use crate::bartender::status::{target_pairs, AgentSyncTarget, BartenderStatus};
use crate::order::{Key, OrderedMap, Parts};
use crate::text::{copy_opt, decimal, opt_text, own, plus, plus3, to_decimal, Text};
use crate::text::begins;

verus! {

pub struct BartenderPublishedAgent {
    pub agent_id: String,
    pub commit_count: usize,
}

pub struct BartenderConflict {
    pub agent_id: String,
    pub commit: Option<String>,
    pub message: String,
}

pub struct ConflictModel {
    pub agent_id: Text,
    pub commit: Option<Text>,
    pub message: Text,
}

impl View for BartenderConflict {
    type V = ConflictModel;

    open spec fn view(&self) -> ConflictModel {
        ConflictModel { agent_id: self.agent_id@, commit: opt_text(self.commit), message: self.message@ }
    }
}

pub struct BartenderSyncResult {
    pub ok: bool,
    pub message: String,
    pub snapshot_count: usize,
    pub published_commit_count: usize,
    pub published_agents: Vec<BartenderPublishedAgent>,
    pub conflicts: Vec<BartenderConflict>,
    pub status: BartenderStatus,
}

// -------------------------------------------------------------- one worktree

/// How far an agent's commits came.
pub struct PublishOutcome {
    pub published_commits: usize,
    pub conflict: Option<BartenderConflict>,
}

pub open spec fn opt_conflict(c: Option<BartenderConflict>) -> Option<ConflictModel> {
    match c {
        Some(x) => Some(x@),
        None => None,
    }
}

/// Picking an agent's commits one after the other.
pub struct PublishRun {
    pub agent_id: String,
    pub commits: Vec<String>,
    pub at: usize,
    pub published: usize,
}

impl PublishRun {
    pub open spec fn wf(&self) -> bool {
        self.published <= self.at <= self.commits@.len()
    }

    pub fn begin(agent_id: &str, commits: Vec<String>) -> (r: PublishRun)
        ensures
            r.wf(),
            r.agent_id@ == agent_id@,
            r.commits == commits,
            r.at == 0,
            r.published == 0,
    {
        PublishRun { agent_id: own(agent_id), commits, at: 0, published: 0 }
    }

    /// The commit to pick next, if one is left.
    pub fn current(&self) -> (r: Option<&String>)
        requires
            self.wf(),
        ensures
            r is Some == (self.at < self.commits@.len()),
            r matches Some(c) ==> *c == self.commits@[self.at as int],
    {
        if self.at < self.commits.len() {
            Some(&self.commits[self.at])
        } else {
            None
        }
    }

    /// The current commit was picked, or picking it failed. A commit with
    /// nothing left to apply is passed over; any other failure ends the run.
    pub fn picked(&mut self, outcome: Result<(), String>) -> (r: Option<PublishOutcome>)
        requires
            old(self).wf(),
            old(self).at < old(self).commits@.len(),
        ensures
            final(self).wf(),
            final(self).agent_id == old(self).agent_id,
            final(self).commits == old(self).commits,
            match outcome {
                Ok(_) => r is None && final(self).at == old(self).at + 1 && final(self).published == old(
                    self,
                ).published + 1,
                Err(e) => if is_empty_pick(e@) {
                    r is None && final(self).at == old(self).at + 1 && final(self).published == old(self).published
                } else {
                    &&& *final(self) == *old(self)
                    &&& r matches Some(o) && o.published_commits == old(self).published && opt_conflict(
                        o.conflict,
                    ) == Some(
                        ConflictModel {
                            agent_id: old(self).agent_id@,
                            commit: Some(old(self).commits@[old(self).at as int]@),
                            message: e@,
                        },
                    )
                },
            },
    {
        let total = self.commits.len();
        assert(self.at < total);
        match outcome {
            Ok(_) => {
                self.published = self.published + 1;
                self.at = self.at + 1;
                None
            },
            Err(e) => {
                if looks_like_empty_cherry_pick(&e) {
                    self.at = self.at + 1;
                    return None;
                }
                let conflict = BartenderConflict {
                    agent_id: self.agent_id.clone(),
                    commit: Some(self.commits[self.at].clone()),
                    message: e,
                };
                Some(PublishOutcome { published_commits: self.published, conflict: Some(conflict) })
            },
        }
    }

    /// All commits were picked or passed over.
    pub fn finish(&self) -> (r: PublishOutcome)
        requires
            self.wf(),
            self.at == self.commits@.len(),
        ensures
            r.published_commits == self.published,
            r.conflict is None,
    {
        PublishOutcome { published_commits: self.published, conflict: None }
    }
}

/// What to do after an attempt to reset a worktree.
pub enum ResetStep {
    Done,
    /// Another process holds the index: wait, then try again.
    Again,
    Failed(String),
}

/// A worktree is reset up to five times while its index is locked.
pub fn after_reset(attempt: u8, outcome: Result<(), String>) -> (r: ResetStep)
    ensures
        match outcome {
            Ok(_) => r is Done,
            Err(e) => if is_lock_error(e@) && attempt < 4 {
                r is Again
            } else {
                r == ResetStep::Failed(e)
            },
        },
{
    match outcome {
        Ok(_) => ResetStep::Done,
        Err(e) => {
            if is_index_lock_error(&e) && attempt < 4 {
                ResetStep::Again
            } else {
                ResetStep::Failed(e)
            }
        },
    }
}

// ------------------------------------------------------------------ the room

/// A sync under way. A pass goes through the worktrees that still have
/// commits; those in conflict come again in the next pass, as long as a pass
/// publishes something.
pub struct SyncRun {
    pub snapshot_count: usize,
    pub published_commit_count: usize,
    pub published_agents: Vec<BartenderPublishedAgent>,
    pub reset_failures: OrderedMap<String, String>,
    /// The worktrees of this pass, and how many of them are done.
    pub pass: Vec<AgentSyncTarget>,
    pub at: usize,
    pub pass_published: usize,
    pub pass_conflicts: Vec<BartenderConflict>,
    /// The worktrees left for the next pass.
    pub later: Vec<AgentSyncTarget>,
    /// The conflicts that no pass could resolve.
    pub conflicts: Vec<BartenderConflict>,
}

pub struct SyncModel {
    pub snapshots: nat,
    pub published: nat,
    pub agents: Seq<(Text, nat)>,
    pub failures: Map<Parts, Text>,
    pub pass: Seq<(Text, Text)>,
    pub at: nat,
    pub pass_published: nat,
    pub pass_conflicts: Seq<ConflictModel>,
    pub later: Seq<(Text, Text)>,
    pub conflicts: Seq<ConflictModel>,
}

pub open spec fn conflict_models(s: Seq<BartenderConflict>) -> Seq<ConflictModel> {
    Seq::new(s.len(), |i: int| s[i]@)
}

pub open spec fn published_models(s: Seq<BartenderPublishedAgent>) -> Seq<(Text, nat)> {
    Seq::new(s.len(), |i: int| (s[i].agent_id@, s[i].commit_count as nat))
}

impl View for SyncRun {
    type V = SyncModel;

    open spec fn view(&self) -> SyncModel {
        SyncModel {
            snapshots: self.snapshot_count as nat,
            published: self.published_commit_count as nat,
            agents: published_models(self.published_agents@),
            failures: self.reset_failures@.map_values(|s: String| s@),
            pass: target_pairs(self.pass@),
            at: self.at as nat,
            pass_published: self.pass_published as nat,
            pass_conflicts: conflict_models(self.pass_conflicts@),
            later: target_pairs(self.later@),
            conflicts: conflict_models(self.conflicts@),
        }
    }
}

/// What was found in the worktree of an agent.
pub struct WorktreeLook {
    pub target: AgentSyncTarget,
    pub present: bool,
    /// It had changes that were not committed.
    pub changed: bool,
    /// It has commits that the room lacks.
    pub pending: bool,
}

pub open spec fn snapshots_in(looks: Seq<WorktreeLook>) -> nat
    decreases looks.len(),
{
    if looks.len() == 0 {
        0
    } else if looks.last().present && looks.last().changed {
        snapshots_in(looks.drop_last()) + 1
    } else {
        snapshots_in(looks.drop_last())
    }
}

pub open spec fn waiting_in(looks: Seq<WorktreeLook>) -> Seq<(Text, Text)>
    decreases looks.len(),
{
    if looks.len() == 0 {
        Seq::empty()
    } else {
        let rest = waiting_in(looks.drop_last());
        if looks.last().present && looks.last().pending {
            rest.push((looks.last().target.agent_id@, looks.last().target.path@))
        } else {
            rest
        }
    }
}

/// A sync that has published nothing yet.
pub open spec fn begun(snapshots: nat, waiting: Seq<(Text, Text)>) -> SyncModel {
    SyncModel {
        snapshots,
        published: 0,
        agents: Seq::empty(),
        failures: Map::empty(),
        pass: waiting,
        at: 0,
        pass_published: 0,
        pass_conflicts: Seq::empty(),
        later: Seq::empty(),
        conflicts: Seq::empty(),
    }
}

/// A worktree in conflict waits for the next pass; one whose commits are
/// published counts as such once it was reset.
pub open spec fn handled(m: SyncModel, published: nat, conflict: Option<ConflictModel>, reset: Option<Text>) -> SyncModel {
    let target = m.pass[m.at as int];
    let base = SyncModel {
        published: m.published + published,
        pass_published: m.pass_published + published,
        at: m.at + 1,
        ..m
    };
    if conflict is Some {
        SyncModel {
            pass_conflicts: m.pass_conflicts.push(conflict->0),
            later: m.later.push(target),
            ..base
        }
    } else if reset is Some {
        SyncModel { failures: m.failures.insert(seq![target.0], concise(reset->0)), ..base }
    } else {
        SyncModel {
            failures: m.failures.remove(seq![target.0]),
            agents: m.agents.push((target.0, published)),
            ..base
        }
    }
}

/// Another pass is worth it.
pub open spec fn goes_on(m: SyncModel) -> bool {
    m.later.len() > 0 && m.pass_published > 0
}

/// The end of a pass.
pub open spec fn passed(m: SyncModel) -> SyncModel {
    if goes_on(m) {
        SyncModel {
            pass: m.later,
            at: 0,
            pass_published: 0,
            pass_conflicts: Seq::empty(),
            later: Seq::empty(),
            ..m
        }
    } else if m.later.len() == 0 {
        SyncModel { conflicts: Seq::empty(), ..m }
    } else {
        SyncModel { conflicts: m.pass_conflicts, ..m }
    }
}

/// A worktree was reset after all passes.
pub open spec fn refreshed(m: SyncModel, agent: Text, failure: Option<Text>) -> SyncModel {
    match failure {
        Some(e) => SyncModel { failures: m.failures.insert(seq![agent], concise(e)), ..m },
        None => SyncModel { failures: m.failures.remove(seq![agent]), ..m },
    }
}

pub open spec fn error_text(r: Result<(), String>) -> Option<Text> {
    match r {
        Ok(_) => None,
        Err(e) => Some(e@),
    }
}

/// The message about worktrees that could not be refreshed.
pub open spec fn failure_note(s: Seq<(String, String)>) -> Text {
    "Could not refresh "@ + decimal(s.len()) + " agent worktree"@ + (if s.len() == 1 {
        ""@
    } else {
        "s"@
    }) + " after sync. "@ + s[0].1@
}

pub open spec fn larger(a: nat, b: nat) -> nat {
    if a >= b {
        a
    } else {
        b
    }
}

/// What is said at the end of a sync.
pub open spec fn closing(m: SyncModel, failures: Seq<(String, String)>) -> Text {
    if failures.len() > 0 {
        failure_note(failures)
    } else if m.conflicts.len() > 0 {
        changes(m.conflicts.len()) + " need agent conflict resolution."@
    } else if m.published == 0 && m.snapshots == 0 {
        "Nothing to sync."@
    } else {
        "Synced "@ + changes(larger(m.published, m.snapshots)) + "."@
    }
}

impl SyncRun {
    pub open spec fn wf(&self) -> bool {
        self.reset_failures.wf() && self.at <= self.pass@.len()
    }

    /// Begin with the worktrees that have commits to publish.
    pub fn begin(snapshot_count: usize, remaining: Vec<AgentSyncTarget>) -> (r: SyncRun)
        ensures
            r.wf(),
            r@ == begun(snapshot_count as nat, target_pairs(remaining@)),
    {
        let r = SyncRun {
            snapshot_count,
            published_commit_count: 0,
            published_agents: Vec::new(),
            reset_failures: OrderedMap::new(),
            pass: remaining,
            at: 0,
            pass_published: 0,
            pass_conflicts: Vec::new(),
            later: Vec::new(),
            conflicts: Vec::new(),
        };
        proof {
            assert(r@.agents =~= Seq::empty());
            assert(r@.failures =~= Map::empty());
            assert(r@.pass_conflicts =~= Seq::empty());
            assert(r@.later =~= Seq::empty());
            assert(r@.conflicts =~= Seq::empty());
        }
        r
    }

    /// Begin with what was found in the worktrees. Each one with changes was
    /// snapshotted; those with commits that the room lacks are published.
    pub fn prepare(source_changed: bool, looks: Vec<WorktreeLook>) -> (r: SyncRun)
        requires
            looks@.len() < usize::MAX,
        ensures
            r.wf(),
            r@ == begun(
                snapshots_in(looks@) + if source_changed {
                    1nat
                } else {
                    0nat
                },
                waiting_in(looks@),
            ),
    {
        let ghost all = looks@;
        let mut looks = looks;
        let mut snapshots: usize = if source_changed {
            1
        } else {
            0
        };
        let ghost first = snapshots as nat;
        let mut remaining: Vec<AgentSyncTarget> = Vec::new();
        let ghost mut n: int = 0;
        proof {
            assert(all.skip(0) =~= all);
            assert(all.take(0) =~= Seq::empty());
            assert(target_pairs(remaining@) =~= Seq::empty());
        }
        while looks.len() > 0
            invariant
                0 <= n <= all.len(),
                all.len() < usize::MAX,
                looks@ == all.skip(n),
                first <= 1,
                snapshots <= first + n,
                snapshots == first + snapshots_in(all.take(n)),
                target_pairs(remaining@) == waiting_in(all.take(n)),
            decreases all.len() - n,
        {
            let look = looks.remove(0);
            let ghost was = remaining@;
            proof {
                assert(look == all[n]);
                assert(all.skip(n).remove(0) =~= all.skip(n + 1));
                assert(all.take(n + 1).drop_last() =~= all.take(n));
            }
            if look.present && look.changed {
                snapshots += 1;
            }
            if look.present && look.pending {
                let ghost pair = (look.target.agent_id@, look.target.path@);
                remaining.push(look.target);
                assert(target_pairs(remaining@) =~= target_pairs(was).push(pair));
            }
            proof {
                n = n + 1;
            }
        }
        assert(all.take(n) =~= all);
        SyncRun::begin(snapshots, remaining)
    }

    /// The worktree whose turn it is.
    pub fn current(&self) -> (r: Option<&AgentSyncTarget>)
        requires
            self.wf(),
        ensures
            r is Some == (self@.at < self@.pass.len()),
            r matches Some(t) ==> (t.agent_id@, t.path@) == self@.pass[self@.at as int],
    {
        if self.at < self.pass.len() {
            Some(&self.pass[self.at])
        } else {
            None
        }
    }

    /// The current worktree was published as far as possible and, unless it is
    /// in conflict, reset with this result.
    pub fn handle(&mut self, outcome: PublishOutcome, reset: Result<(), String>)
        requires
            old(self).wf(),
            old(self)@.at < old(self)@.pass.len(),
            old(self).published_commit_count + outcome.published_commits <= usize::MAX,
            old(self).pass_published + outcome.published_commits <= usize::MAX,
        ensures
            final(self).wf(),
            final(self)@ == handled(
                old(self)@,
                outcome.published_commits as nat,
                opt_conflict(outcome.conflict),
                error_text(reset),
            ),
    {
        let ghost m = self@;
        let total = self.pass.len();
        assert(self.at < total);
        self.published_commit_count = self.published_commit_count + outcome.published_commits;
        self.pass_published = self.pass_published + outcome.published_commits;
        let id = self.pass[self.at].agent_id.clone();
        let path = self.pass[self.at].path.clone();
        self.at = self.at + 1;
        proof {
            assert(m.pass[m.at as int] == (id@, path@));
        }
        match outcome.conflict {
            Some(conflict) => {
                self.pass_conflicts.push(conflict);
                self.later.push(AgentSyncTarget { agent_id: id, path });
                proof {
                    assert(self@.pass_conflicts =~= m.pass_conflicts.push(conflict@));
                    assert(self@.later =~= m.later.push((id@, path@)));
                    assert(self@.failures =~= m.failures);
                }
            },
            None => match reset {
                Ok(_) => {
                    self.reset_failures.remove(&id);
                    let ghost name = id@;
                    self.published_agents.push(
                        BartenderPublishedAgent { agent_id: id, commit_count: outcome.published_commits },
                    );
                    proof {
                        assert(self@.failures =~= m.failures.remove(seq![name]));
                        assert(self@.agents =~= m.agents.push((name, outcome.published_commits as nat)));
                    }
                },
                Err(e) => {
                    let note = concise_git_error(&e);
                    let ghost name = id@;
                    self.reset_failures.insert(id, note);
                    assert(self@.failures =~= m.failures.insert(seq![name], note@));
                },
            },
        }
    }

    /// The pass is over: tells whether another one follows.
    pub fn end_pass(&mut self) -> (again: bool)
        requires
            old(self).wf(),
            old(self)@.at == old(self)@.pass.len(),
        ensures
            final(self).wf(),
            final(self)@ == passed(old(self)@),
            again == goes_on(old(self)@),
    {
        let ghost m = self@;
        assert(m.later.len() == self.later@.len());
        if self.later.len() == 0 {
            self.conflicts = Vec::new();
            assert(self@.conflicts =~= Seq::empty());
            return false;
        }
        if self.pass_published == 0 {
            let mut stalled: Vec<BartenderConflict> = Vec::new();
            let mut i: usize = 0;
            while i < self.pass_conflicts.len()
                invariant
                    self.wf(),
                    self@ == m,
                    i <= self.pass_conflicts@.len(),
                    conflict_models(stalled@) == m.pass_conflicts.take(i as int),
                decreases self.pass_conflicts@.len() - i,
            {
                let ghost was = stalled@;
                let c = &self.pass_conflicts[i];
                stalled.push(
                    BartenderConflict {
                        agent_id: c.agent_id.clone(),
                        commit: copy_opt(&c.commit),
                        message: c.message.clone(),
                    },
                );
                i += 1;
                assert(conflict_models(stalled@) =~= conflict_models(was).push(c@));
                assert(conflict_models(stalled@) =~= m.pass_conflicts.take(i as int));
            }
            assert(m.pass_conflicts.take(i as int) =~= m.pass_conflicts);
            self.conflicts = stalled;
            return false;
        }
        let mut next: Vec<AgentSyncTarget> = Vec::new();
        core::mem::swap(&mut next, &mut self.later);
        self.pass = next;
        self.at = 0;
        self.pass_published = 0;
        self.pass_conflicts = Vec::new();
        proof {
            assert(self@.later =~= Seq::empty());
            assert(self@.pass_conflicts =~= Seq::empty());
        }
        true
    }

    /// After the last pass: are the worktrees brought to the new head? Only
    /// where no conflict is left.
    pub fn refreshes(&self) -> (r: bool)
        ensures
            r == (self@.conflicts.len() == 0),
    {
        self.conflicts.is_empty()
    }

    /// A worktree was reset to the new head after all passes.
    pub fn refresh(&mut self, agent_id: &str, outcome: Result<(), String>)
        requires
            old(self).wf(),
        ensures
            final(self).wf(),
            final(self)@ == refreshed(old(self)@, agent_id@, error_text(outcome)),
    {
        let ghost m = self@;
        let id = own(agent_id);
        match outcome {
            Ok(_) => {
                self.reset_failures.remove(&id);
                assert(self@.failures =~= m.failures.remove(seq![agent_id@]));
            },
            Err(e) => {
                let note = concise_git_error(&e);
                self.reset_failures.insert(id, note);
                assert(self@.failures =~= m.failures.insert(seq![agent_id@], note@));
            },
        }
    }

    /// The result, given the room's new status.
    pub fn finish(self, status: BartenderStatus) -> (r: BartenderSyncResult)
        requires
            self.wf(),
        ensures
            r.ok == (self@.conflicts.len() == 0 && self.reset_failures.entries@.len() == 0),
            r.message@ == closing(self@, self.reset_failures.entries@),
            r.snapshot_count == self.snapshot_count,
            r.published_commit_count == self.published_commit_count,
            r.published_agents == self.published_agents,
            r.conflicts == self.conflicts,
            r.status == status,
    {
        let conflicts = self.conflicts.len();
        let failures = self.reset_failures.entries.len();
        let message = if failures > 0 {
            let mut note = plus3("Could not refresh ", &to_decimal(failures as u64), " agent worktree");
            if failures != 1 {
                note.append("s");
            } else {
                note.append("");
            }
            note.append(" after sync. ");
            note.append(&self.reset_failures.entries[0].1);
            note
        } else if conflicts > 0 {
            plus(&change_phrase(conflicts), " need agent conflict resolution.")
        } else if self.published_commit_count == 0 && self.snapshot_count == 0 {
            own("Nothing to sync.")
        } else {
            let most = if self.published_commit_count >= self.snapshot_count {
                self.published_commit_count
            } else {
                self.snapshot_count
            };
            plus3("Synced ", &change_phrase(most), ".")
        };
        BartenderSyncResult {
            ok: conflicts == 0 && failures == 0,
            message,
            snapshot_count: self.snapshot_count,
            published_commit_count: self.published_commit_count,
            published_agents: self.published_agents,
            conflicts: self.conflicts,
            status,
        }
    }
}

/// A source repository in the middle of another operation is left alone.
pub fn blocked_sync(operation: &str, status: BartenderStatus) -> (r: BartenderSyncResult)
    ensures
        !r.ok,
        r.message@ == "Resolve the active "@ + operation@ + " before syncing local."@,
        r.snapshot_count == 0,
        r.published_commit_count == 0,
        r.published_agents@.len() == 0,
        r.conflicts@.len() == 0,
        r.status == status,
{
    BartenderSyncResult {
        ok: false,
        message: plus3("Resolve the active ", operation, " before syncing local."),
        snapshot_count: 0,
        published_commit_count: 0,
        published_agents: Vec::new(),
        conflicts: Vec::new(),
        status,
    }
}

/// The message of the commit that saves an agent's uncommitted changes.
pub fn snapshot_message(agent_id: &str) -> (r: String)
    ensures
        r@ == "Bartender snapshot: "@ + agent_id@,
{
    plus("Bartender snapshot: ", agent_id)
}

// ---------------------------------------------------------------------- laws

/// Passes do not go on for ever: another pass follows only when the last one
/// published a commit.
pub proof fn a_pass_without_progress_is_the_last(m: SyncModel)
    requires
        m.pass_published == 0,
    ensures
        !goes_on(m),
        m.later.len() > 0 ==> passed(m).conflicts == m.pass_conflicts,
{
}

/// A pass of conflicts alone reports every one of them; a pass that leaves
/// nothing reports none.
pub proof fn the_last_pass_decides_the_conflicts(m: SyncModel)
    requires
        !goes_on(m),
    ensures
        passed(m).conflicts == if m.later.len() == 0 {
            Seq::<ConflictModel>::empty()
        } else {
            m.pass_conflicts
        },
{
}

/// A worktree is never both published and left for the next pass, and a pass
/// loses none: each handled worktree is in exactly one of the three places.
pub proof fn every_worktree_is_accounted_for(
    m: SyncModel,
    published: nat,
    conflict: Option<ConflictModel>,
    reset: Option<Text>,
)
    requires
        m.at < m.pass.len(),
    ensures
        ({
            let n = handled(m, published, conflict, reset);
            let id = m.pass[m.at as int].0;
            &&& conflict is Some ==> n.later == m.later.push(m.pass[m.at as int]) && n.agents == m.agents
                && n.failures == m.failures
            &&& conflict is None && reset is None ==> n.later == m.later && n.agents == m.agents.push((id, published))
                && !n.failures.contains_key(seq![id])
            &&& conflict is None && reset is Some ==> n.later == m.later && n.agents == m.agents
                && n.failures.contains_key(seq![id])
        }),
{
}

/// A sync begins with every worktree that is there and has commits, in order,
/// and with nothing done.
pub proof fn every_waiting_worktree_is_published(looks: Seq<WorktreeLook>, i: int, t: (Text, Text))
    ensures
        0 <= i < looks.len() && looks[i].present && looks[i].pending ==> waiting_in(looks).contains(
            (looks[i].target.agent_id@, looks[i].target.path@),
        ),
        waiting_in(looks).contains(t) ==> exists|k: int|
            0 <= k < looks.len() && (#[trigger] looks[k]).present && looks[k].pending && t == (
                looks[k].target.agent_id@,
                looks[k].target.path@,
            ),
    decreases looks.len(),
{
    let out = waiting_in(looks);
    if looks.len() > 0 {
        let head = looks.drop_last();
        let rest = waiting_in(head);
        every_waiting_worktree_is_published(head, i, t);
        assert(looks[looks.len() - 1] == looks.last());
        assert(forall|k: int| 0 <= k < head.len() ==> head[k] == #[trigger] looks[k]);
        let x = (looks[i].target.agent_id@, looks[i].target.path@);
        if 0 <= i < head.len() && rest.contains(x) {
            let j = choose|j: int| 0 <= j < rest.len() && rest[j] == x;
            assert(out[j] == x);
        }
        if i == looks.len() - 1 && looks[i].present && looks[i].pending {
            assert(out[rest.len() as int] == x);
        }
        if out.contains(t) {
            let j = choose|j: int| 0 <= j < out.len() && out[j] == t;
            if j < rest.len() {
                assert(rest[j] == t);
                assert(rest.contains(t));
                let k = choose|k: int|
                    0 <= k < head.len() && (#[trigger] head[k]).present && head[k].pending && t == (
                        head[k].target.agent_id@,
                        head[k].target.path@,
                    );
                assert(looks[k] == head[k]);
            }
        }
    }
}

/// One snapshot is counted for each worktree that is there and has changes: a
/// further worktree adds one exactly if it has.
pub proof fn every_changed_worktree_is_snapshotted(looks: Seq<WorktreeLook>, next: WorktreeLook)
    ensures
        snapshots_in(Seq::<WorktreeLook>::empty()) == 0,
        next.present && next.changed ==> snapshots_in(looks.push(next)) == snapshots_in(looks) + 1,
        !(next.present && next.changed) ==> snapshots_in(looks.push(next)) == snapshots_in(looks),
        snapshots_in(looks) <= looks.len(),
    decreases looks.len(),
{
    assert(looks.push(next).drop_last() =~= looks);
    if looks.len() > 0 {
        every_changed_worktree_is_snapshotted(looks.drop_last(), looks.last());
        assert(looks.drop_last().push(looks.last()) =~= looks);
    }
}

/// Commits that were published are counted, in the pass and in all, whether or
/// not the worktree ended in a conflict, and the next worktree's turn comes.
pub proof fn published_commits_are_counted(
    m: SyncModel,
    published: nat,
    conflict: Option<ConflictModel>,
    reset: Option<Text>,
)
    requires
        m.at < m.pass.len(),
    ensures
        ({
            let n = handled(m, published, conflict, reset);
            &&& n.published == m.published + published
            &&& n.pass_published == m.pass_published + published
            &&& n.at == m.at + 1
            &&& n.pass == m.pass && n.snapshots == m.snapshots && n.conflicts == m.conflicts
            &&& conflict matches Some(c) ==> n.pass_conflicts == m.pass_conflicts.push(c)
            &&& conflict is None ==> n.pass_conflicts == m.pass_conflicts
        }),
{
}

/// The worktrees in conflict come again, all of them, as long as a pass
/// published something; what was published and what failed is kept.
pub proof fn worktrees_in_conflict_come_again(m: SyncModel)
    ensures
        m.later.len() > 0 && m.pass_published > 0 ==> {
            let n = passed(m);
            n.pass == m.later && n.at == 0 && n.pass_published == 0 && n.later.len() == 0 && n.pass_conflicts.len() == 0
        },
        m.later.len() == 0 || m.pass_published == 0 ==> passed(m).pass == m.pass && passed(m).at == m.at,
        passed(m).published == m.published && passed(m).agents == m.agents && passed(m).failures == m.failures
            && passed(m).snapshots == m.snapshots,
        goes_on(m) <==> m.later.len() > 0 && m.pass_published > 0,
{
}

/// A worktree that could not be brought to the new head is told; one that could
/// is not. Others are left as they are.
pub proof fn a_worktree_that_was_not_refreshed_is_told(m: SyncModel, agent: Text, failure: Option<Text>, other: Text)
    ensures
        ({
            let n = refreshed(m, agent, failure);
            &&& failure is Some <==> n.failures.contains_key(seq![agent])
            &&& other != agent ==> n.failures.contains_key(seq![other]) == m.failures.contains_key(seq![other])
            &&& n.published == m.published && n.conflicts == m.conflicts && n.agents == m.agents
        }),
{
    assert(seq![agent][0] == agent);
    assert(seq![other][0] == other);
}

/// What is said at the end: a worktree that failed comes first, then the
/// conflicts by their number, then the number of changes; nothing without any.
pub proof fn the_closing_word_tells_the_outcome(m: SyncModel, failures: Seq<(String, String)>)
    ensures
        failures.len() > 0 ==> begins(closing(m, failures), "Could not refresh "@) && crate::text::ends(
            closing(m, failures),
            failures[0].1@,
        ),
        failures.len() == 0 && m.conflicts.len() > 0 ==> begins(closing(m, failures), changes(m.conflicts.len())),
        failures.len() == 0 && m.conflicts.len() == 0 && m.published == 0 && m.snapshots == 0 ==> closing(m, failures)
            == "Nothing to sync."@,
        failures.len() == 0 && m.conflicts.len() == 0 && m.published >= m.snapshots && m.published > 0 ==> closing(
            m,
            failures,
        ) == "Synced "@ + changes(m.published) + "."@,
        failures.len() == 0 && m.conflicts.len() == 0 && m.snapshots > m.published ==> closing(m, failures) == "Synced "@
            + changes(m.snapshots) + "."@,
{
    let c = closing(m, failures);
    if failures.len() > 0 {
        let a = "Could not refresh "@;
        assert(c.take(a.len() as int) =~= a);
        let e = failures[0].1@;
        assert(c.skip(c.len() - e.len()) =~= e);
    } else if m.conflicts.len() > 0 {
        let a = changes(m.conflicts.len());
        assert(c.take(a.len() as int) =~= a);
    }
}

} // verus!
