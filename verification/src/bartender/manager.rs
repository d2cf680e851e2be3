//! The room's keeper: the cached status and the entry points of each action.
use vstd::prelude::*;
use crate::bartender::remote::{plan_pull, plan_push, pull_decision, push_decision, BartenderFetchResult, PullStep};
use crate::bartender::remote::PushStep;
use crate::bartender::status::{compute_status, status_of, AgentSpec, BartenderStatus, StatusFacts, StatusModel};
use crate::bartender::status::WorkspaceProject;
use crate::bartender::sync::{closing, BartenderSyncResult, SyncRun};
use crate::ids::MAX_ID;
use crate::outside::{all_hex, fresh_hex, is_hex, now_precise};
use crate::text::{alnum, begins, begins_with, char_count, chars_of, copy_opt, is_alnum, opt_text, own, plus, plus3};
use crate::text::{ends, same, trim, trimmed, Text};

verus! {

/// How long a computed status is good for, in milliseconds.
pub const STATUS_CACHE_TTL: u64 = 5000;

pub const BARTENDER_DISPATCH_SCHEMA: &'static str = "kota.bartender.dispatch.v1";

pub struct BartenderSyncEvent {
    pub project_root: String,
    pub request_id: String,
    pub phase: String,
    pub result: Option<BartenderSyncResult>,
    pub error: Option<String>,
}

pub struct BartenderSyncProgressEvent {
    pub project_root: String,
    pub phase: String,
    pub message: String,
    pub elapsed_ms: u64,
}

pub struct BartenderRequest {
    pub project_root: Option<String>,
    pub conflict_prompt: Option<String>,
}

/// What a status depends on.
pub struct StatusKey {
    pub project_id: String,
    pub source_dir: String,
    pub local_root: String,
    pub default_branch: String,
    pub agents: Vec<(String, String)>,
}

pub struct StatusKeyModel {
    pub project_id: Text,
    pub source_dir: Text,
    pub local_root: Text,
    pub default_branch: Text,
    pub agents: Seq<(Text, Text)>,
}

pub open spec fn pair_texts(s: Seq<(String, String)>) -> Seq<(Text, Text)> {
    Seq::new(s.len(), |i: int| (s[i].0@, s[i].1@))
}

impl View for StatusKey {
    type V = StatusKeyModel;

    open spec fn view(&self) -> StatusKeyModel {
        StatusKeyModel {
            project_id: self.project_id@,
            source_dir: self.source_dir@,
            local_root: self.local_root@,
            default_branch: self.default_branch@,
            agents: pair_texts(self.agents@),
        }
    }
}

/// The active agents and their worktrees.
pub open spec fn active_pairs(agents: Seq<AgentSpec>) -> Seq<(Text, Text)>
    decreases agents.len(),
{
    if agents.len() == 0 {
        Seq::empty()
    } else if agents.last().active {
        active_pairs(agents.drop_last()).push((agents.last().agent_id@, agents.last().worktree_root@))
    } else {
        active_pairs(agents.drop_last())
    }
}

pub open spec fn key_of(w: WorkspaceProject) -> StatusKeyModel {
    StatusKeyModel {
        project_id: w.project_id@,
        source_dir: w.source_dir@,
        local_root: w.local_root@,
        default_branch: w.default_branch@,
        agents: active_pairs(w.agents@),
    }
}

pub fn status_cache_key(workspace: &WorkspaceProject) -> (r: StatusKey)
    ensures
        r@ == key_of(*workspace),
{
    let agents = &workspace.agents;
    let mut pairs: Vec<(String, String)> = Vec::new();
    let mut i: usize = 0;
    assert(pair_texts(pairs@) =~= active_pairs(agents@.take(0)));
    while i < agents.len()
        invariant
            i <= agents@.len(),
            pair_texts(pairs@) == active_pairs(agents@.take(i as int)),
        decreases agents@.len() - i,
    {
        let ghost next = agents@.take(i + 1);
        let ghost was = pairs@;
        assert(next.drop_last() =~= agents@.take(i as int));
        assert(next.last() == agents@[i as int]);
        if agents[i].active {
            pairs.push((agents[i].agent_id.clone(), agents[i].worktree_root.clone()));
            assert(pair_texts(pairs@) =~= pair_texts(was).push(
                (agents@[i as int].agent_id@, agents@[i as int].worktree_root@),
            ));
        }
        i += 1;
    }
    assert(agents@.take(i as int) =~= agents@);
    StatusKey {
        project_id: workspace.project_id.clone(),
        source_dir: workspace.source_dir.clone(),
        local_root: workspace.local_root.clone(),
        default_branch: workspace.default_branch.clone(),
        agents: pairs,
    }
}

impl StatusKey {
    pub fn same(&self, other: &StatusKey) -> (r: bool)
        ensures
            r == (self@ == other@),
    {
        if !(same(&self.project_id, &other.project_id) && same(&self.source_dir, &other.source_dir) && same(
            &self.local_root,
            &other.local_root,
        ) && same(&self.default_branch, &other.default_branch)) {
            return false;
        }
        if self.agents.len() != other.agents.len() {
            assert(self@.agents.len() != other@.agents.len());
            return false;
        }
        let mut i: usize = 0;
        while i < self.agents.len()
            invariant
                i <= self.agents@.len() == other.agents@.len(),
                forall|j: int| 0 <= j < i ==> self@.agents[j] == other@.agents[j],
            decreases self.agents@.len() - i,
        {
            if !(same(&self.agents[i].0, &other.agents[i].0) && same(&self.agents[i].1, &other.agents[i].1)) {
                assert(self@.agents[i as int] != other@.agents[i as int]);
                return false;
            }
            i += 1;
        }
        assert(self@.agents =~= other@.agents);
        true
    }
}

pub struct CachedStatus {
    pub key: StatusKey,
    pub checked_at: u64,
    pub status: BartenderStatus,
}

/// Keeps the last computed status.
pub struct BartenderManager {
    pub cache: Option<CachedStatus>,
}

/// The status that is still good for a workspace at a time.
pub open spec fn fresh(c: Option<CachedStatus>, key: StatusKeyModel, now: u64) -> Option<StatusModel> {
    match c {
        Some(x) => if x.key@ == key && now - x.checked_at < STATUS_CACHE_TTL {
            Some(x.status@)
        } else {
            None
        },
        None => None,
    }
}

/// The cache holds this status of the workspace since this time.
pub open spec fn holds_status(c: Option<CachedStatus>, key: StatusKeyModel, status: StatusModel, now: u64) -> bool {
    c matches Some(x) && x.key@ == key && x.status@ == status && x.checked_at == now
}

impl BartenderManager {
    pub fn new() -> (r: BartenderManager)
        ensures
            r.cache is None,
    {
        BartenderManager { cache: None }
    }

    /// The cached status, if it is still good.
    pub fn cached_status(&self, workspace: &WorkspaceProject, now: u64) -> (r: Option<BartenderStatus>)
        ensures
            r is Some == fresh(self.cache, key_of(*workspace), now) is Some,
            r matches Some(s) ==> fresh(self.cache, key_of(*workspace), now) == Some(s@),
    {
        let key = status_cache_key(workspace);
        match &self.cache {
            Some(cached) => {
                let young = now < cached.checked_at || now - cached.checked_at < STATUS_CACHE_TTL;
                if cached.key.same(&key) && young {
                    Some(cached.status.copy())
                } else {
                    None
                }
            },
            None => None,
        }
    }

    pub fn store_status(&mut self, workspace: &WorkspaceProject, status: &BartenderStatus, now: u64)
        ensures
            holds_status(final(self).cache, key_of(*workspace), status@, now),
    {
        self.cache = Some(
            CachedStatus { key: status_cache_key(workspace), checked_at: now, status: status.copy() },
        );
    }

    pub fn invalidate_status_cache(&mut self)
        ensures
            final(self).cache is None,
    {
        self.cache = None;
    }

    /// The status of a room: the cached one while it is good, else the one
    /// that the facts amount to.
    pub fn status(&mut self, workspace: &WorkspaceProject, facts: &StatusFacts, now: u64) -> (r: BartenderStatus)
        ensures
            match fresh(old(self).cache, key_of(*workspace), now) {
                Some(s) => r@ == s && *final(self) == *old(self),
                None => r@ == status_of(*workspace, *facts) && holds_status(
                    final(self).cache,
                    key_of(*workspace),
                    status_of(*workspace, *facts),
                    now,
                ),
            },
    {
        match self.cached_status(workspace, now) {
            Some(status) => status,
            None => {
                let status = compute_status(workspace, facts);
                self.store_status(workspace, &status, now);
                status
            },
        }
    }

    /// A local sync is over: its result, with the room's new status, which is
    /// cached.
    pub fn sync_local(&mut self, workspace: &WorkspaceProject, run: SyncRun, facts: &StatusFacts, now: u64) -> (r:
        BartenderSyncResult)
        requires
            run.wf(),
        ensures
            r.ok == (run@.conflicts.len() == 0 && run.reset_failures.entries@.len() == 0),
            r.message@ == closing(run@, run.reset_failures.entries@),
            r.snapshot_count == run.snapshot_count,
            r.published_commit_count == run.published_commit_count,
            r.published_agents == run.published_agents,
            r.conflicts == run.conflicts,
            r.status@ == status_of(*workspace, *facts),
            holds_status(final(self).cache, key_of(*workspace), status_of(*workspace, *facts), now),
    {
        let status = compute_status(workspace, facts);
        self.store_status(workspace, &status, now);
        run.finish(status)
    }

    /// The remote was fetched: the room's new status, which is cached.
    pub fn fetch_github(&mut self, workspace: &WorkspaceProject, facts: &StatusFacts, now: u64) -> (r:
        BartenderFetchResult)
        ensures
            r.ok,
            r.message@ == "Fetched GitHub."@,
            r.status@ == status_of(*workspace, *facts),
            holds_status(final(self).cache, key_of(*workspace), status_of(*workspace, *facts), now),
    {
        let status = compute_status(workspace, facts);
        self.store_status(workspace, &status, now);
        BartenderFetchResult { ok: true, message: own("Fetched GitHub."), status }
    }

    /// Decide a pull from facts gathered after a fetch. The cached status is void.
    pub fn pull_from_github(
        &mut self,
        workspace: &WorkspaceProject,
        facts: &StatusFacts,
        operation: &Option<String>,
    ) -> (r: PullStep)
        ensures
            final(self).cache is None,
            exists|before: BartenderStatus|
                before@ == status_of(*workspace, *facts) && #[trigger] pull_decision(before, opt_text(*operation), r),
    {
        self.invalidate_status_cache();
        let before = compute_status(workspace, facts);
        let ghost b = before;
        let r = plan_pull(before, operation);
        assert(pull_decision(b, opt_text(*operation), r));
        r
    }

    /// Decide a push. The cached status is void.
    pub fn push_to_github(&mut self, workspace: &WorkspaceProject, facts: &StatusFacts) -> (r: PushStep)
        ensures
            final(self).cache is None,
            exists|before: BartenderStatus|
                before@ == status_of(*workspace, *facts) && #[trigger] push_decision(
                    before,
                    workspace.default_branch@,
                    r,
                ),
    {
        self.invalidate_status_cache();
        let before = compute_status(workspace, facts);
        let ghost b = before;
        let r = plan_push(before, &workspace.default_branch);
        assert(push_decision(b, workspace.default_branch@, r));
        r
    }
}

// ------------------------------------------------------------------ requests

/// The identifier of a sync request.
pub open spec fn is_sync_id(s: Text) -> bool {
    &&& s.len() > "sync-"@.len()
    &&& s.len() <= MAX_ID
    &&& begins(s, "sync-"@)
    &&& forall|i: int| 0 <= i < s.len() ==> is_alnum(#[trigger] s[i]) || s[i] == '-' || s[i] == '_'
}

pub fn valid_sync_request_id(id: &str) -> (r: bool)
    ensures
        r == is_sync_id(id@),
{
    let v = chars_of(id);
    if v.len() <= char_count("sync-") || v.len() > MAX_ID || !begins_with(id, "sync-") {
        return false;
    }
    let mut i: usize = 0;
    while i < v.len()
        invariant
            v@ == id@,
            i <= v.len(),
            forall|j: int| 0 <= j < i ==> is_alnum(#[trigger] v@[j]) || v@[j] == '-' || v@[j] == '_',
        decreases v.len() - i,
    {
        if !(alnum(v[i]) || v[i] == '-' || v[i] == '_') {
            assert(!(is_alnum(id@[i as int]) || id@[i as int] == '-' || id@[i as int] == '_'));
            return false;
        }
        i += 1;
    }
    true
}

/// A request as it is written into the outbox.
pub struct BartenderDispatchFile {
    pub schema: String,
    pub created_at: String,
    pub project_root: String,
    pub request_id: String,
    pub action: String,
}

/// A request to sync a project, under a fresh identifier. It will be accepted:
/// its schema and its action are known ones, and its identifier is sound.
pub fn sync_request(project_root: &str) -> (r: BartenderDispatchFile)
    ensures
        r.schema@ == BARTENDER_DISPATCH_SCHEMA@,
        r.project_root@ == project_root@,
        r.action@ == "sync"@,
        ends(r.created_at@, "+00:00"@),
        is_sync_id(r.request_id@),
        exists|token: Text| token.len() == 32 && #[trigger] all_hex(token) && r.request_id@ == "sync-"@ + token,
{
    let token = fresh_hex();
    let id = plus("sync-", &token);
    proof {
        reveal_strlit("sync-");
        let t = token@;
        assert(all_hex(t));
        assert(id@.len() == 37);
        assert("sync-"@[0] == 's' && "sync-"@[1] == 'y' && "sync-"@[2] == 'n' && "sync-"@[3] == 'c' && "sync-"@[4] == '-');
        assert(id@.take(5) =~= "sync-"@);
        assert forall|i: int| 0 <= i < id@.len() implies is_alnum(#[trigger] id@[i]) || id@[i] == '-' || id@[i] == '_' by {
            if i >= 5 {
                assert(id@[i] == t[i - 5]);
                assert(is_hex(t[i - 5]));
            } else {
                assert(id@[i] == "sync-"@[i]);
            }
        }
    }
    BartenderDispatchFile {
        schema: own(BARTENDER_DISPATCH_SCHEMA),
        created_at: now_precise(),
        project_root: own(project_root),
        request_id: id,
        action: own("sync"),
    }
}

/// May a dispatch file be handled for this project?
pub fn check_dispatch(schema: &str, dispatch_root: &str, project_root: &str, same_place: bool, action: &str) -> (r:
    Result<(), String>)
    ensures
        r is Ok == (schema@ == BARTENDER_DISPATCH_SCHEMA@ && same_place && action@ == "sync"@),
        r matches Err(e) ==> e@ == if schema@ != BARTENDER_DISPATCH_SCHEMA@ {
            "unsupported Bartender dispatch schema: "@ + schema@
        } else if !same_place {
            "Bartender dispatch project mismatch: "@ + dispatch_root@ + " != "@ + project_root@
        } else {
            "unknown Bartender dispatch action: "@ + action@
        },
{
    if !same(schema, BARTENDER_DISPATCH_SCHEMA) {
        return Err(plus("unsupported Bartender dispatch schema: ", schema));
    }
    if !same_place {
        let mut e = plus3("Bartender dispatch project mismatch: ", dispatch_root, " != ");
        e.append(project_root);
        return Err(e);
    }
    if !same(action, "sync") {
        return Err(plus("unknown Bartender dispatch action: ", action));
    }
    Ok(())
}

/// What the file of a finished request holds.
pub struct FinishedFile {
    pub request_id: Option<String>,
    pub result: Option<String>,
}

/// Where a request stands.
pub struct BartenderSyncReceipt {
    pub project_root: String,
    pub request_id: String,
    pub phase: String,
    pub result: Option<String>,
    pub error: Option<String>,
}

pub open spec fn receipt(r: BartenderSyncReceipt, root: Text, id: Text, phase: Text, result: Option<Text>, error: Option<Text>) -> bool {
    r.project_root@ == root && r.request_id@ == id && r.phase@ == phase && opt_text(r.result) == result && opt_text(r.error) == error
}

/// The receipt for a request: its result once it is finished, its error once
/// it failed, and pending before. A result under another request's identifier
/// is refused.
pub fn sync_dispatch_receipt(
    project_root: &str,
    request_id: &str,
    finished: &Option<FinishedFile>,
    failed: &Option<String>,
) -> (r: Result<BartenderSyncReceipt, String>)
    ensures
        ({
            let id = trimmed(request_id@);
            if !is_sync_id(id) {
                r is Err && r->Err_0@ == "invalid Bartender sync request id"@
            } else {
                match *finished {
                    Some(f) => if f.request_id is None {
                        r is Err && r->Err_0@ == "Bartender sync result is missing requestId"@
                    } else if f.request_id->0@ != id {
                        r is Err && r->Err_0@ == "Bartender sync result request id mismatch"@
                    } else if f.result is None {
                        r is Err && r->Err_0@ == "Bartender sync result payload is missing result"@
                    } else {
                        r is Ok && receipt(r->Ok_0, project_root@, id, "finished"@, opt_text(f.result), None)
                    },
                    None => match *failed {
                        Some(e) => r is Ok && receipt(r->Ok_0, project_root@, id, "failed"@, None, Some(trimmed(e@))),
                        None => r is Ok && receipt(r->Ok_0, project_root@, id, "pending"@, None, None),
                    },
                }
            }
        }),
{
    let id = trim(request_id);
    if !valid_sync_request_id(&id) {
        return Err(own("invalid Bartender sync request id"));
    }
    if let Some(f) = finished {
        match &f.request_id {
            None => {
                return Err(own("Bartender sync result is missing requestId"));
            },
            Some(stored) => {
                if !same(stored, &id) {
                    return Err(own("Bartender sync result request id mismatch"));
                }
            },
        }
        if f.result.is_none() {
            return Err(own("Bartender sync result payload is missing result"));
        }
        return Ok(
            BartenderSyncReceipt {
                project_root: own(project_root),
                request_id: id,
                phase: own("finished"),
                result: copy_opt(&f.result),
                error: None,
            },
        );
    }
    if let Some(e) = failed {
        return Ok(
            BartenderSyncReceipt {
                project_root: own(project_root),
                request_id: id,
                phase: own("failed"),
                result: None,
                error: Some(trim(e)),
            },
        );
    }
    Ok(
        BartenderSyncReceipt {
            project_root: own(project_root),
            request_id: id,
            phase: own("pending"),
            result: None,
            error: None,
        },
    )
}

/// A stored status is served for five seconds, to the workspace it is of, and
/// no longer.
pub proof fn a_status_is_served_while_it_is_young(
    cache: Option<CachedStatus>,
    key: StatusKeyModel,
    status: StatusModel,
    stored: u64,
    asked: StatusKeyModel,
    now: u64,
)
    requires
        holds_status(cache, key, status, stored),
    ensures
        fresh(cache, asked, now) == if asked == key && now < stored + STATUS_CACHE_TTL {
            Some(status)
        } else {
            None
        },
{
}

/// A status is cached for a workspace as it is: another project, place or branch
/// or another active agent makes another workspace.
pub proof fn a_status_is_of_its_workspace(w: WorkspaceProject, v: WorkspaceProject)
    requires
        key_of(w) == key_of(v),
    ensures
        w.project_id@ == v.project_id@,
        w.source_dir@ == v.source_dir@,
        w.local_root@ == v.local_root@,
        w.default_branch@ == v.default_branch@,
        active_pairs(w.agents@) == active_pairs(v.agents@),
{
}

/// Every active agent counts with its worktree, and no other does.
pub proof fn only_active_agents_count(agents: Seq<AgentSpec>, i: int, t: (Text, Text))
    ensures
        0 <= i < agents.len() && agents[i].active ==> active_pairs(agents).contains(
            (agents[i].agent_id@, agents[i].worktree_root@),
        ),
        active_pairs(agents).contains(t) ==> exists|k: int|
            0 <= k < agents.len() && (#[trigger] agents[k]).active && t == (agents[k].agent_id@, agents[k].worktree_root@),
    decreases agents.len(),
{
    let out = active_pairs(agents);
    if agents.len() > 0 {
        let head = agents.drop_last();
        let rest = active_pairs(head);
        only_active_agents_count(head, i, t);
        assert(agents[agents.len() - 1] == agents.last());
        assert(forall|k: int| 0 <= k < head.len() ==> head[k] == #[trigger] agents[k]);
        let x = (agents[i].agent_id@, agents[i].worktree_root@);
        if 0 <= i < head.len() && rest.contains(x) {
            let j = choose|j: int| 0 <= j < rest.len() && rest[j] == x;
            assert(out[j] == x);
        }
        if i == agents.len() - 1 && agents[i].active {
            assert(out[rest.len() as int] == x);
        }
        if out.contains(t) {
            let j = choose|j: int| 0 <= j < out.len() && out[j] == t;
            if j < rest.len() {
                assert(rest[j] == t);
                assert(rest.contains(t));
                let k = choose|k: int|
                    0 <= k < head.len() && (#[trigger] head[k]).active && t == (head[k].agent_id@, head[k].worktree_root@);
                assert(agents[k] == head[k]);
            }
        }
    }
}

/// A status is served for less than five seconds, and only as it was stored.
pub proof fn an_old_status_is_not_served(c: CachedStatus, key: StatusKeyModel, now: u64)
    ensures
        fresh(Some(c), key, now) is Some <==> key == c.key@ && now < c.checked_at + 5000,
        fresh(Some(c), key, now) matches Some(s) ==> s == c.status@,
        fresh(None, key, now) is None,
{
}

/// The identifier of a sync request begins with `sync-`, goes on, and holds at
/// most 128 letters, digits, hyphens and underscores.
pub proof fn a_sync_request_is_named_soundly(s: Text, i: int)
    ensures
        is_sync_id(s) ==> begins(s, "sync-"@) && 5 < s.len() <= 128,
        is_sync_id(s) && 0 <= i < s.len() ==> ('0' <= s[i] <= '9') || ('A' <= s[i] <= 'Z') || ('a' <= s[i] <= 'z') || s[i]
            == '-' || s[i] == '_',
{
    reveal_strlit("sync-");
    assert("sync-"@.len() == 5);
}

} // verus!
