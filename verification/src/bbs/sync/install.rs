//! Entering what was received from another device.
use vstd::prelude::*;
use crate::bbs::mentions::{fault_of, member_pair, Membership};
use crate::bbs::posts::{attachment_refs, meta_model, post_refs, shared_fault, validate_post_meta};
use crate::bbs::sync::avatars::{FileRead, OriginModel, OriginSnapshot};
use crate::bbs::sync::exchange::{avatar_allowed, check_fence, declares, fence_fault, find_attachment, first_declared};
use crate::bbs::sync::exchange::{given, picture_in_posts, require_shared, sharing_fault, source, source_in};
use crate::bbs::sync::exchange::{source_of, GroupFence, SourceSight};
use crate::bbs::sync::inspect::{meta_read, parse_post};
use crate::bbs::sync::inventory::{ledger_rows, locate_row, located, LocationModel};
use crate::bbs::sync::model::{lemma_at, lemma_found, opt_version, ref_models, same_stamp, suppressed, tkey};
use crate::bbs::sync::model::{version_key, AttachmentRef, AttachmentState, FileStamp, LedgerEntry, PostVersion};
use crate::bbs::sync::model::{RefModel, RowModel, StateModel, StoredModel, SyncState, VersionModel};
use crate::bbs::sync::refresh::{assemble, is_version, seen_files, seen_version};
use crate::bbs::sync::resources::{attachment_relative, attachment_resource, avatar_path, checked_attachment};
use crate::bbs::sync::resources::{checked_post, is_resource, path_result, picture_of, post_relative, post_resource};
use crate::bbs::sync::resources::{KindModel, Resource, ResourceKind, ResourceModel};
use crate::bbs::types::{BbsPostMeta, PostModel};
use crate::order::{Change, Parts};
use crate::outside::{now_iso, sha256, sha256_hex};
use crate::sort::{lemma_sorted_map, rank_fn, sorted_by, stable_sort, Ranked};
use crate::text::{before, own, plus3, same, Text};
use crate::bbs::sync::model::shared_in;

verus! {

// --------------------------------------------------------------- the message

impl Ranked for AttachmentRef {
    open spec fn rank(&self) -> Parts {
        tkey(self@.id)
    }

    fn rank_before(&self, other: &Self) -> (r: bool) {
        proof {
            reveal_with_fuel(crate::order::parts_lt, 2);
            assert(tkey(self@.id).drop_first() =~= Seq::<Text>::empty());
            assert(tkey(other@.id).drop_first() =~= Seq::<Text>::empty());
        }
        if same(&self.id, &other.id) {
            return false;
        }
        before(&self.id, &other.id)
    }
}

pub open spec fn ref_rank_fn() -> spec_fn(RefModel) -> Parts {
    |a: RefModel| tkey(a.id)
}

/// The attachments as they are declared, whatever is here of them.
pub open spec fn declared(s: Seq<RefModel>) -> Seq<RefModel> {
    s.map_values(|a: RefModel| RefModel { available: false, ..a })
}

/// The same attachments, in whatever order.
pub open spec fn same_attachments(a: Seq<RefModel>, b: Seq<RefModel>) -> bool {
    sorted_by(a, ref_rank_fn()) == sorted_by(declared(b), ref_rank_fn())
}

fn sort_refs(v: Vec<AttachmentRef>) -> (r: Vec<AttachmentRef>)
    ensures
        ref_models(r@) == sorted_by(ref_models(v@), ref_rank_fn()),
{
    let ghost list = v@;
    let sorted = stable_sort(v);
    proof {
        let f = |a: AttachmentRef| a@;
        assert forall|a: AttachmentRef| #[trigger] rank_fn::<AttachmentRef>()(a) == ref_rank_fn()(f(a)) by {}
        lemma_sorted_map(list, f, rank_fn::<AttachmentRef>(), ref_rank_fn());
        assert(ref_models(sorted@) =~= sorted@.map_values(f));
        assert(ref_models(list) =~= list.map_values(f));
    }
    sorted
}

fn undeliver(v: &Vec<AttachmentRef>) -> (r: Vec<AttachmentRef>)
    ensures
        ref_models(r@) == declared(ref_models(v@)),
{
    let mut out: Vec<AttachmentRef> = Vec::new();
    let mut i: usize = 0;
    while i < v.len()
        invariant
            i <= v@.len(),
            out@.len() == i,
            forall|j: int| 0 <= j < i ==> (#[trigger] out@[j])@ == (RefModel { available: false, ..v@[j]@ }),
        decreases v@.len() - i,
    {
        let mut a = v[i].copy();
        a.available = false;
        out.push(a);
        i += 1;
    }
    assert(ref_models(out@) =~= declared(ref_models(v@)));
    out
}

fn same_refs(a: &Vec<AttachmentRef>, b: &Vec<AttachmentRef>) -> (r: bool)
    ensures
        r == (ref_models(a@) == ref_models(b@)),
{
    if a.len() != b.len() {
        assert(ref_models(a@).len() != ref_models(b@).len());
        return false;
    }
    let mut i: usize = 0;
    while i < a.len()
        invariant
            a@.len() == b@.len(),
            i <= a@.len(),
            forall|j: int| 0 <= j < i ==> (#[trigger] a@[j])@ == b@[j]@,
        decreases a@.len() - i,
    {
        let x = &a[i];
        let y = &b[i];
        if !(same(&x.id, &y.id) && same(&x.sha256, &y.sha256) && x.size_bytes == y.size_bytes && same(&x.ext, &y.ext)
            && x.available == y.available) {
            assert(ref_models(a@)[i as int] != ref_models(b@)[i as int]);
            return false;
        }
        i += 1;
    }
    assert(ref_models(a@) =~= ref_models(b@));
    true
}

/// Why received bytes are not the post that was asked for: `meta` is what was
/// read in them, or why nothing was.
pub open spec fn body_fault(
    r: ResourceModel,
    offered: Option<VersionModel>,
    meta: Result<PostModel, Text>,
    len: nat,
    hash: Text,
) -> Option<Text> {
    match (r.identity, offered) {
        (KindModel::Post { thread_id, post_id, version_id }, Some(p)) => if !is_version(p) {
            Some("invalid_post"@)
        } else if post_resource(p) != r {
            Some("unrequested_resource"@)
        } else {
            match meta {
                Err(e) => Some(e),
                Ok(m) => if shared_fault(m, thread_id, post_id) is Some {
                    shared_fault(m, thread_id, post_id)
                } else if hash != r.sha256 || len != r.size || m.kind != p.kind {
                    Some("invalid_post_relationship"@)
                } else {
                    match post_refs(m) {
                        Err(e) => Some(e),
                        Ok(refs) => if same_attachments(refs, p.attachments) {
                            None
                        } else {
                            Some("attachment_manifest_mismatch"@)
                        },
                    }
                },
            }
        },
        (KindModel::Post { .. }, None) => Some("missing_version_offer"@),
        _ => None,
    }
}

/// Judge received bytes by their number, their hash and what was read in them.
pub fn judge_body(
    resource: &Resource,
    offered: &Option<PostVersion>,
    meta: &Result<BbsPostMeta, String>,
    len: u64,
    hash: &str,
) -> (r: Result<(), String>)
    ensures
        fault_of(r) == body_fault(resource@, opt_version(*offered), meta_model(*meta), len as nat, hash@),
{
    match &resource.identity {
        ResourceKind::Post { thread_id, post_id, version_id } => {
            let p = match offered {
                Some(p) => p,
                None => {
                    return Err(own("missing_version_offer"));
                },
            };
            if !p.valid() {
                return Err(own("invalid_post"));
            }
            if !p.resource().is_same(resource) {
                return Err(own("unrequested_resource"));
            }
            let m = match meta {
                Ok(m) => m,
                Err(e) => {
                    return Err(e.clone());
                },
            };
            match validate_post_meta(m, thread_id, post_id) {
                Ok(_) => {},
                Err(e) => {
                    return Err(e);
                },
            }
            if !same(hash, &resource.sha256) || len != resource.size_bytes || !same(&m.kind, &p.kind) {
                return Err(own("invalid_post_relationship"));
            }
            let refs = match attachment_refs(m) {
                Ok(v) => v,
                Err(e) => {
                    return Err(e);
                },
            };
            let a = sort_refs(refs);
            let b = sort_refs(undeliver(&p.attachments));
            if !same_refs(&a, &b) {
                return Err(own("attachment_manifest_mismatch"));
            }
            Ok(())
        },
        _ => Ok(()),
    }
}

/// A received file is the post that was asked for. `meta` is what the parser
/// reads from its frontmatter.
pub fn check_body(
    resource: &Resource,
    offered: &Option<PostVersion>,
    meta: &Result<BbsPostMeta, String>,
    file: &FileRead,
) -> (r: Result<(), String>)
    ensures
        fault_of(r) == body_fault(
            resource@,
            opt_version(*offered),
            meta_read(*file, meta_model(*meta)),
            file.bytes@.len(),
            sha256(file.bytes@),
        ),
{
    let parsed = parse_post(file, meta);
    let hash = sha256_hex(&file.bytes);
    judge_body(resource, offered, &parsed, file.bytes.len() as u64, &hash)
}

// ------------------------------------------------------------------ the plan

/// A known version contradicts a new one: a post never changes its thread or
/// its kind, and a thread has one topic.
pub open spec fn contradicts(old_version: VersionModel, p: VersionModel) -> bool {
    ||| old_version.post_id == p.post_id && (old_version.thread_id != p.thread_id || old_version.kind != p.kind)
    ||| {
        &&& p.kind == "topic"@
        &&& old_version.thread_id == p.thread_id
        &&& old_version.kind == "topic"@
        &&& old_version.post_id != p.post_id
    }
}

pub open spec fn row_contradicts(row: RowModel, p: VersionModel) -> bool {
    row.descriptor matches Some(o) && contradicts(o, p)
}

pub open spec fn ledger_contradicts(s: StateModel, p: VersionModel) -> bool {
    exists|k: Parts| #[trigger] s.ledger.contains_key(k) && row_contradicts(s.ledger[k], p)
}

fn find_contradiction(state: &SyncState, p: &PostVersion) -> (r: bool)
    requires
        state.wf(),
    ensures
        r == ledger_contradicts(state@, p@),
{
    let v = &state.ledger.entries;
    let mut i: usize = 0;
    while i < v.len()
        invariant
            state.wf(),
            v == state.ledger.entries,
            i <= v@.len(),
            forall|j: int| 0 <= j < i ==> !row_contradicts((#[trigger] v@[j]).1@, p@),
        decreases v@.len() - i,
    {
        let found = match &v[i].1.descriptor {
            Some(o) => (same(&o.post_id, &p.post_id) && (!same(&o.thread_id, &p.thread_id) || !same(&o.kind, &p.kind)))
                || (same(&p.kind, "topic") && same(&o.thread_id, &p.thread_id) && same(&o.kind, "topic") && !same(
                &o.post_id,
                &p.post_id,
            )),
            None => false,
        };
        assert(found == row_contradicts(v@[i as int].1@, p@));
        if found {
            proof {
                lemma_at(state.ledger, i as int);
                assert(state@.ledger.contains_key(tkey(v@[i as int].0@)));
            }
            return true;
        }
        i += 1;
    }
    proof {
        if ledger_contradicts(state@, p@) {
            let k = choose|k: Parts| #[trigger] state@.ledger.contains_key(k) && row_contradicts(state@.ledger[k], p@);
            let j = lemma_found(state.ledger, k);
            assert(!row_contradicts(v@[j].1@, p@));
        }
    }
    false
}

/// What to do with received bytes.
pub enum InstallPlan {
    /// They are here already.
    AlreadyHere,
    /// Where they belong. A post that is not the resident one is an extra
    /// version.
    Place { path: String, extra: Option<String> },
}

pub enum InstallModel {
    AlreadyHere,
    Place { path: Text, extra: Option<Text> },
}

impl View for InstallPlan {
    type V = InstallModel;

    open spec fn view(&self) -> InstallModel {
        match self {
            InstallPlan::AlreadyHere => InstallModel::AlreadyHere,
            InstallPlan::Place { path, extra } => InstallModel::Place { path: path@, extra: crate::text::opt_text(*extra) },
        }
    }
}

pub open spec fn plan_result(r: Result<InstallPlan, String>) -> Result<InstallModel, Text> {
    match r {
        Ok(x) => Ok(x@),
        Err(e) => Err(e@),
    }
}

pub open spec fn post_plan(
    s: StateModel,
    group: Text,
    thread: Text,
    post: Text,
    version: Text,
    p: VersionModel,
    intact: bool,
    sight: SourceSight,
) -> Result<InstallModel, Text> {
    let k = tkey(version_key(post, version));
    if sharing_fault(s, group, thread, post, version) is Some {
        Err(sharing_fault(s, group, thread, post, version)->0)
    } else if !intact {
        Err("partial_changed"@)
    } else if ledger_contradicts(s, p) {
        Err("invalid_post_relationship"@)
    } else if !s.records.contains_key(tkey(thread)) {
        Err("missing_thread_record"@)
    } else if s.ledger.contains_key(k) && located(s.ledger[k], sight.resident, sight.versioned) is Some {
        Ok(InstallModel::AlreadyHere)
    } else {
        let extra = if sight.resident is Some {
            Some(version)
        } else {
            None
        };
        match checked_post(thread, post, extra) {
            Err(e) => Err(e),
            Ok(path) => if extra is Some && sight.versioned is Some {
                Err("version_requires_reindex"@)
            } else {
                Ok(InstallModel::Place { path, extra })
            },
        }
    }
}

pub open spec fn attachment_plan(
    s: StateModel,
    group: Text,
    thread: Text,
    post: Text,
    version: Text,
    id: Text,
    r: ResourceModel,
    sight: SourceSight,
) -> Result<InstallModel, Text> {
    let k = tkey(version_key(post, version));
    if sharing_fault(s, group, thread, post, version) is Some {
        Err(sharing_fault(s, group, thread, post, version)->0)
    } else if !s.ledger.contains_key(k) {
        Err("missing_post_body"@)
    } else {
        let row = s.ledger[k];
        match located(row, sight.resident, sight.versioned) {
            None => Err("post_body_changed"@),
            Some(at) => match row.descriptor {
                None => Err("missing_post_body"@),
                Some(p) => if !declares(p, id, r) {
                    Err("unrequested_resource"@)
                } else {
                    match checked_attachment(thread, at.post, at.extra, p.attachments[first_declared(p, id, r)]) {
                        Err(e) => Err(e),
                        Ok(path) => if is_checked(row, id, at, sight) {
                            Ok(InstallModel::AlreadyHere)
                        } else {
                            Ok(InstallModel::Place { path, extra: at.extra })
                        },
                    }
                },
            },
        }
    }
}

/// The attachment's file is the one that was checked before.
pub open spec fn is_checked(row: RowModel, id: Text, at: LocationModel, sight: SourceSight) -> bool {
    let now = if at.extra is Some {
        sight.versioned_file
    } else {
        sight.resident_file
    };
    row.attachments.contains_key(tkey(id)) && row.attachments[tkey(id)].verified && row.attachments[tkey(id)].stamp is Some
        && now == row.attachments[tkey(id)].stamp
}

/// What to do with a received resource: `partial` is the stamp of the file
/// that holds it, `read` what it was when the bytes were checked.
pub open spec fn install_plan(
    s: StateModel,
    member: Option<(Text, Text)>,
    group: Text,
    membership: Text,
    r: ResourceModel,
    offered: Option<VersionModel>,
    in_roster: bool,
    partial: Option<FileStamp>,
    read: Option<FileStamp>,
    sight: SourceSight,
) -> Result<InstallModel, Text> {
    if !is_resource(r) {
        Err("invalid_resource"@)
    } else if r.identity is Post && offered is None {
        Err("missing_version_offer"@)
    } else if fence_fault(member, group, membership) is Some {
        Err(fence_fault(member, group, membership)->0)
    } else if partial is None {
        Err("partial_missing"@)
    } else if partial->0.len != r.size {
        Err("partial_changed"@)
    } else {
        match r.identity {
            KindModel::Post { thread_id, post_id, version_id } => post_plan(
                s,
                group,
                thread_id,
                post_id,
                version_id,
                offered->0,
                read == partial,
                sight,
            ),
            KindModel::Attachment { thread_id, post_id, version_id, attachment_id } => attachment_plan(
                s,
                group,
                thread_id,
                post_id,
                version_id,
                attachment_id,
                r,
                sight,
            ),
            KindModel::Avatar { sha256, ext } => if in_roster || picture_in_posts(s, group, r) {
                Ok(InstallModel::Place { path: avatar_path(sha256, ext), extra: None })
            } else {
                Err("unrequested_avatar"@)
            },
        }
    }
}

fn plan_post(
    state: &SyncState,
    group: &str,
    thread: &str,
    post: &str,
    version: &str,
    p: &PostVersion,
    intact: bool,
    sight: &SourceSight,
) -> (r: Result<InstallPlan, String>)
    requires
        state.wf(),
    ensures
        plan_result(r) == post_plan(state@, group@, thread@, post@, version@, p@, intact, *sight),
{
    match require_shared(state, group, thread, post, version) {
        Ok(_) => {},
        Err(e) => {
            return Err(e);
        },
    }
    if !intact {
        return Err(own("partial_changed"));
    }
    if find_contradiction(state, p) {
        return Err(own("invalid_post_relationship"));
    }
    if !state.thread_records.has(&own(thread)) {
        return Err(own("missing_thread_record"));
    }
    if let Some(row) = state.row(post, version) {
        if locate_row(row, sight.resident, sight.versioned).is_some() {
            return Ok(InstallPlan::AlreadyHere);
        }
    }
    let extra = if sight.resident.is_some() {
        Some(own(version))
    } else {
        None
    };
    match post_relative(thread, post, &extra) {
        Ok(path) => {
            if extra.is_some() && sight.versioned.is_some() {
                return Err(own("version_requires_reindex"));
            }
            Ok(InstallPlan::Place { path, extra })
        },
        Err(e) => Err(e),
    }
}

fn plan_attachment(
    state: &SyncState,
    group: &str,
    thread: &str,
    post: &str,
    version: &str,
    id: &str,
    resource: &Resource,
    sight: &SourceSight,
) -> (r: Result<InstallPlan, String>)
    requires
        state.wf(),
    ensures
        plan_result(r) == attachment_plan(state@, group@, thread@, post@, version@, id@, resource@, *sight),
{
    match require_shared(state, group, thread, post, version) {
        Ok(_) => {},
        Err(e) => {
            return Err(e);
        },
    }
    let row = match state.row(post, version) {
        Some(row) => row,
        None => {
            return Err(own("missing_post_body"));
        },
    };
    let at = match locate_row(row, sight.resident, sight.versioned) {
        Some(at) => at,
        None => {
            return Err(own("post_body_changed"));
        },
    };
    let p = match &row.descriptor {
        Some(p) => p,
        None => {
            return Err(own("missing_post_body"));
        },
    };
    let i = match find_attachment(p, id, resource) {
        Some(i) => i,
        None => {
            return Err(own("unrequested_resource"));
        },
    };
    proof {
        crate::bbs::sync::exchange::lemma_first_declared(p@, id@, resource@, i as int);
    }
    let a = &p.attachments[i];
    assert(p@.attachments[i as int] == a@);
    let path = match attachment_relative(thread, &at.post, &at.extra, a) {
        Ok(path) => path,
        Err(e) => {
            return Err(e);
        },
    };
    let now = if at.extra.is_some() {
        sight.versioned_file
    } else {
        sight.resident_file
    };
    let here = match row.attachments.get(&own(id)) {
        Some(s) => {
            assert(row@.attachments[tkey(id@)] == s@);
            s.verified && s.stamp.is_some() && same_stamp(&now, &s.stamp)
        },
        None => false,
    };
    assert(here == is_checked(row@, id@, at@, *sight));
    if here {
        return Ok(InstallPlan::AlreadyHere);
    }
    Ok(InstallPlan::Place { path, extra: at.extra })
}

pub fn plan_install(
    state: &SyncState,
    member: &Option<Membership>,
    fence: &GroupFence,
    resource: &Resource,
    offered: &Option<PostVersion>,
    in_roster: bool,
    partial: Option<FileStamp>,
    read: Option<FileStamp>,
    sight: &SourceSight,
) -> (r: Result<InstallPlan, String>)
    requires
        state.wf(),
    ensures
        plan_result(r) == install_plan(
            state@,
            member_pair(*member),
            fence.group_id@,
            fence.membership_id@,
            resource@,
            opt_version(*offered),
            in_roster,
            partial,
            read,
            *sight,
        ),
{
    if !resource.valid() {
        return Err(own("invalid_resource"));
    }
    let is_post = match &resource.identity {
        ResourceKind::Post { .. } => true,
        _ => false,
    };
    if is_post && offered.is_none() {
        return Err(own("missing_version_offer"));
    }
    match check_fence(member, fence) {
        Ok(_) => {},
        Err(e) => {
            return Err(e);
        },
    }
    match partial {
        Some(s) => {
            if s.len != resource.size_bytes {
                return Err(own("partial_changed"));
            }
        },
        None => {
            return Err(own("partial_missing"));
        },
    }
    match &resource.identity {
        ResourceKind::Post { thread_id, post_id, version_id } => match offered {
            Some(p) => plan_post(
                state,
                &fence.group_id,
                thread_id,
                post_id,
                version_id,
                p,
                same_stamp(&read, &partial),
                sight,
            ),
            None => Err(own("missing_version_offer")),
        },
        ResourceKind::Attachment { thread_id, post_id, version_id, attachment_id } => plan_attachment(
            state,
            &fence.group_id,
            thread_id,
            post_id,
            version_id,
            attachment_id,
            resource,
            sight,
        ),
        ResourceKind::Avatar { sha256, ext } => {
            if !avatar_allowed(state, &fence.group_id, resource, in_roster) {
                return Err(own("unrequested_avatar"));
            }
            let mut path = plus3("avatars/", sha256, ".");
            path.append(ext);
            Ok(InstallPlan::Place { path, extra: None })
        },
    }
}

// ---------------------------------------------------------------- the commit

/// No attachment is here.
pub open spec fn no_files(n: nat) -> Seq<Option<FileStamp>> {
    Seq::new(n, |i: int| None)
}

/// The row of a post that was received, with nothing of its attachments.
pub open spec fn received_row(p: VersionModel, origin: OriginModel, stamp: Option<FileStamp>, now: Text) -> RowModel {
    let files = no_files(p.attachments.len());
    RowModel {
        thread_id: p.thread_id,
        post_id: p.post_id,
        version_id: p.version_id,
        updated_at: now,
        attachments: seen_files(p.attachments, files),
        body_stamp: stamp,
        descriptor: Some(seen_version(p, origin, files)),
        avatar_stamp: None,
    }
}

pub open spec fn installed_post(s: StateModel, p: VersionModel, origin: OriginModel, stamp: Option<FileStamp>, now: Text) -> StateModel {
    StateModel {
        ledger: s.ledger.insert(tkey(version_key(p.post_id, p.version_id)), received_row(p, origin, stamp, now)),
        ..s
    }
}

/// The origin of a received post: the picture that came with it.
pub fn received_origin(p: &PostVersion) -> (r: OriginSnapshot)
    requires
        p.avatar is Some,
    ensures
        r@ == (OriginModel { schema: 1, origin: "received"@, avatar: p@.avatar->0 }),
{
    OriginSnapshot {
        schema_version: 1,
        origin: own("received"),
        avatar: match &p.avatar {
            Some(a) => a.copy(),
            None => crate::bbs::sync::model::AvatarSidecar::none(),
        },
    }
}

/// A received post lies in its place: `stamp` is that of its file there.
pub fn commit_post(state: &mut SyncState, p: PostVersion, origin: &OriginSnapshot, stamp: Option<FileStamp>, now: &str)
    requires
        old(state).wf(),
    ensures
        final(state).wf(),
        final(state)@ == installed_post(old(state)@, p@, origin@, stamp, now@),
{
    let mut files: Vec<Option<FileStamp>> = Vec::new();
    let n = p.attachments.len();
    let mut i: usize = 0;
    while i < n
        invariant
            i <= n,
            files@ == no_files(i as nat),
        decreases n - i,
    {
        files.push(None);
        i += 1;
        assert(files@ =~= no_files(i as nat));
    }
    let ghost v = p@;
    let key = plus3(&p.post_id, "/", &p.version_id);
    let (q, stored) = assemble(p, origin, &files);
    let row = LedgerEntry {
        thread_id: q.thread_id.clone(),
        post_id: q.post_id.clone(),
        version_id: q.version_id.clone(),
        updated_at: own(now),
        attachments: stored,
        body_stamp: stamp,
        descriptor: Some(q),
        avatar_stamp: None,
    };
    assert(row@ =~= received_row(v, origin@, stamp, now@));
    state.put_row(key, row);
}

/// A received post lies in its place now.
pub fn install_post(state: &mut SyncState, p: PostVersion, origin: &OriginSnapshot, stamp: Option<FileStamp>)
    requires
        old(state).wf(),
    ensures
        final(state).wf(),
        exists|now: Text| final(state)@ == #[trigger] installed_post(old(state)@, p@, origin@, stamp, now),
{
    let now = now_iso();
    commit_post(state, p, origin, stamp, &now)
}

/// The first attachment with this name is here.
pub open spec fn is_first(s: Seq<RefModel>, id: Text, i: int) -> bool {
    s[i].id == id && forall|j: int| 0 <= j < i ==> (#[trigger] s[j]).id != id
}

pub open spec fn delivered(s: Seq<RefModel>, id: Text) -> Seq<RefModel> {
    Seq::new(
        s.len(),
        |i: int|
            if is_first(s, id, i) {
                RefModel { available: true, ..s[i] }
            } else {
                s[i]
            },
    )
}

/// A row with an attachment that was received.
pub open spec fn with_attachment(row: RowModel, id: Text, r: ResourceModel, stamp: Option<FileStamp>) -> RowModel {
    RowModel {
        attachments: row.attachments.insert(
            tkey(id),
            StoredModel { sha256: r.sha256, size: r.size, verified: true, stamp },
        ),
        descriptor: match row.descriptor {
            Some(p) => Some(VersionModel { attachments: delivered(p.attachments, id), ..p }),
            None => None,
        },
        ..row
    }
}

pub open spec fn installed_attachment(
    s: StateModel,
    post: Text,
    version: Text,
    id: Text,
    r: ResourceModel,
    stamp: Option<FileStamp>,
) -> StateModel {
    let k = tkey(version_key(post, version));
    if s.ledger.contains_key(k) {
        StateModel { ledger: s.ledger.insert(k, with_attachment(s.ledger[k], id, r, stamp)), ..s }
    } else {
        s
    }
}

fn deliver(v: Vec<AttachmentRef>, id: &str) -> (r: Vec<AttachmentRef>)
    ensures
        ref_models(r@) == delivered(ref_models(v@), id@),
{
    let ghost refs = ref_models(v@);
    let mut list = v;
    let mut i: usize = 0;
    while i < list.len()
        invariant
            i <= list@.len(),
            ref_models(list@) == refs,
            refs == ref_models(v@),
            forall|j: int| 0 <= j < i ==> (#[trigger] refs[j]).id != id@,
        decreases list@.len() - i,
    {
        assert(refs[i as int] == list@[i as int]@);
        if same(&list[i].id, id) {
            let mut a = list.remove(i);
            a.available = true;
            list.insert(i, a);
            proof {
                assert(is_first(refs, id@, i as int));
                assert forall|j: int| 0 <= j < refs.len() implies #[trigger] ref_models(list@)[j] == delivered(refs, id@)[j] by {
                    if j < i {
                        assert(refs[j].id != id@);
                    } else if j > i {
                        assert(refs[i as int].id == id@);
                        assert(!is_first(refs, id@, j));
                    }
                }
                assert(ref_models(list@) =~= delivered(refs, id@));
            }
            return list;
        }
        i += 1;
    }
    assert(ref_models(list@) =~= delivered(refs, id@));
    list
}

/// A received attachment lies in its place.
pub fn commit_attachment(
    state: &mut SyncState,
    post: &str,
    version: &str,
    id: &str,
    resource: &Resource,
    stamp: Option<FileStamp>,
)
    requires
        old(state).wf(),
    ensures
        final(state).wf(),
        final(state)@ == installed_attachment(old(state)@, post@, version@, id@, resource@, stamp),
{
    let ghost was = *state;
    let key = plus3(post, "/", version);
    let ghost k = tkey(version_key(post@, version@));
    assert(key@ == version_key(post@, version@));
    if !state.ledger.has(&key) {
        return;
    }
    match state.ledger.remove(&key) {
        Some(row) => {
            proof {
                let j = lemma_found(was.ledger, k);
                assert(was.ledger.entries@[j].1.wf());
                assert forall|i: int| 0 <= i < state.ledger.entries@.len() implies (
                #[trigger] state.ledger.entries@[i]).1.wf() by {
                    lemma_at(state.ledger, i);
                    let j = lemma_found(was.ledger, tkey(state.ledger.entries@[i].0@));
                }
            }
            let ghost before_row = row@;
            let mut attachments = row.attachments;
            let ghost had = attachments@;
            attachments.insert(
                own(id),
                AttachmentState {
                    sha256: resource.sha256.clone(),
                    size_bytes: resource.size_bytes,
                    verified: true,
                    stamp,
                },
            );
            let descriptor = match row.descriptor {
                Some(p) => Some(
                    PostVersion {
                        thread_id: p.thread_id,
                        post_id: p.post_id,
                        version_id: p.version_id,
                        size_bytes: p.size_bytes,
                        kind: p.kind,
                        attachments: deliver(p.attachments, id),
                        avatar: p.avatar,
                    },
                ),
                None => None,
            };
            let fresh = LedgerEntry {
                thread_id: row.thread_id,
                post_id: row.post_id,
                version_id: row.version_id,
                updated_at: row.updated_at,
                attachments,
                body_stamp: row.body_stamp,
                descriptor,
                avatar_stamp: row.avatar_stamp,
            };
            assert(fresh@.attachments =~= with_attachment(before_row, id@, resource@, stamp).attachments);
            assert(fresh@ =~= with_attachment(before_row, id@, resource@, stamp));
            state.put_row(key, fresh);
            assert(state@.ledger =~= was@.ledger.insert(k, fresh@));
        },
        None => {},
    }
}

/// A row whose author has this picture, with the stamp of the picture's file.
pub open spec fn pictured(row: RowModel, r: ResourceModel, stamp: Option<FileStamp>) -> RowModel {
    if row.descriptor matches Some(p) && picture_of(p) == Some(r) {
        RowModel { avatar_stamp: stamp, ..row }
    } else {
        row
    }
}

pub open spec fn installed_picture(s: StateModel, r: ResourceModel, stamp: Option<FileStamp>) -> StateModel {
    StateModel { ledger: s.ledger.map_values(|row: RowModel| pictured(row, r, stamp)), ..s }
}

pub struct Picture<'a> {
    pub resource: &'a Resource,
    pub stamp: Option<FileStamp>,
}

impl<'a> Change<LedgerEntry> for Picture<'a> {
    open spec fn takes(&self, v: LedgerEntry) -> bool {
        v.wf()
    }

    open spec fn makes(&self, v: LedgerEntry, w: LedgerEntry) -> bool {
        w.wf() && w@ == pictured(v@, self.resource@, self.stamp)
    }

    fn apply(&self, v: LedgerEntry) -> (w: LedgerEntry) {
        let shown = match &v.descriptor {
            Some(p) => match p.picture() {
                Some(x) => x.is_same(self.resource),
                None => false,
            },
            None => false,
        };
        if !shown {
            return v;
        }
        let mut w = v;
        w.avatar_stamp = self.stamp;
        w
    }
}

/// A received picture lies in its place.
pub fn commit_picture(state: &mut SyncState, resource: &Resource, stamp: Option<FileStamp>)
    requires
        old(state).wf(),
    ensures
        final(state).wf(),
        final(state)@ == installed_picture(old(state)@, resource@, stamp),
{
    let ghost was = *state;
    state.ledger.change(&Picture { resource, stamp });
    proof {
        assert forall|i: int| 0 <= i < state.ledger.entries@.len() implies (
        #[trigger] state.ledger.entries@[i]).1.wf() by {
            lemma_at(state.ledger, i);
        }
        assert(state@.ledger =~= installed_picture(was@, resource@, stamp).ledger);
    }
}

// -------------------------------------------------------------------- copies

/// A picture that is here already is adopted: `checked` is the stamp of its
/// file when its bytes were checked, `now` what it is now.
pub open spec fn adoption(
    s: StateModel,
    member: Option<(Text, Text)>,
    group: Text,
    membership: Text,
    r: ResourceModel,
    in_roster: bool,
    checked: Option<FileStamp>,
    now: Option<FileStamp>,
) -> Result<bool, Text> {
    if !is_resource(r) {
        Err("invalid_resource"@)
    } else if checked is None {
        Ok(false)
    } else if fence_fault(member, group, membership) is Some {
        Err(fence_fault(member, group, membership)->0)
    } else if !(in_roster || picture_in_posts(s, group, r)) {
        Err("unrequested_avatar"@)
    } else if now != checked {
        Err("avatar_changed"@)
    } else {
        Ok(true)
    }
}

pub open spec fn bool_result(r: Result<bool, String>) -> Result<bool, Text> {
    match r {
        Ok(b) => Ok(b),
        Err(e) => Err(e@),
    }
}

pub fn adopt_picture(
    state: &mut SyncState,
    member: &Option<Membership>,
    fence: &GroupFence,
    resource: &Resource,
    in_roster: bool,
    checked: Option<FileStamp>,
    now: Option<FileStamp>,
) -> (r: Result<bool, String>)
    requires
        old(state).wf(),
    ensures
        final(state).wf(),
        bool_result(r) == adoption(
            old(state)@,
            member_pair(*member),
            fence.group_id@,
            fence.membership_id@,
            resource@,
            in_roster,
            checked,
            now,
        ),
        final(state)@ == (if bool_result(r) == Ok::<bool, Text>(true) {
            installed_picture(old(state)@, resource@, checked)
        } else {
            old(state)@
        }),
{
    if !resource.valid() {
        return Err(own("invalid_resource"));
    }
    if checked.is_none() {
        return Ok(false);
    }
    match check_fence(member, fence) {
        Ok(_) => {},
        Err(e) => {
            return Err(e);
        },
    }
    if !avatar_allowed(state, &fence.group_id, resource, in_roster) {
        return Err(own("unrequested_avatar"));
    }
    if !same_stamp(&now, &checked) {
        return Err(own("avatar_changed"));
    }
    commit_picture(state, resource, checked);
    Ok(true)
}

/// The same bytes in the same post: an attachment may be that of another
/// version.
pub open spec fn same_content(a: ResourceModel, target: ResourceModel) -> bool {
    &&& a.sha256 == target.sha256
    &&& a.size == target.size
    &&& match (a.identity, target.identity) {
        (
            KindModel::Attachment { thread_id: t, post_id: p, .. },
            KindModel::Attachment { thread_id: u, post_id: q, .. },
        ) => t == u && p == q,
        (x, y) => x == y,
    }
}

/// The attachments of a version that have the wanted bytes.
pub open spec fn matching(p: VersionModel, refs: Seq<RefModel>, target: ResourceModel) -> Seq<ResourceModel>
    decreases refs.len(),
{
    if refs.len() == 0 {
        Seq::empty()
    } else {
        let rest = matching(p, refs.drop_last(), target);
        let x = attachment_resource(p, refs.last());
        if same_content(x, target) {
            rest.push(x)
        } else {
            rest
        }
    }
}

pub open spec fn row_candidates(row: RowModel, target: ResourceModel) -> Seq<ResourceModel> {
    match row.descriptor {
        None => Seq::empty(),
        Some(p) => match target.identity {
            KindModel::Post { .. } => if post_resource(p) == target {
                seq![target]
            } else {
                Seq::empty()
            },
            KindModel::Attachment { .. } => matching(p, p.attachments, target),
            KindModel::Avatar { .. } => if picture_of(p) == Some(target) {
                seq![target]
            } else {
                Seq::empty()
            },
        },
    }
}

/// The registered resources that hold the wanted bytes, in the ledger's order.
pub open spec fn candidates(rows: Seq<RowModel>, target: ResourceModel) -> Seq<ResourceModel>
    decreases rows.len(),
{
    if rows.len() == 0 {
        Seq::empty()
    } else {
        candidates(rows.drop_last(), target) + row_candidates(rows.last(), target)
    }
}

pub open spec fn resource_models(s: Seq<Resource>) -> Seq<ResourceModel> {
    s.map_values(|r: Resource| r@)
}

fn matching_attachments(p: &PostVersion, target: &Resource) -> (r: Vec<Resource>)
    requires
        target@.identity is Attachment,
    ensures
        resource_models(r@) == matching(p@, p@.attachments, target@),
{
    let mut out: Vec<Resource> = Vec::new();
    let ghost refs = p@.attachments;
    let mut i: usize = 0;
    assert(resource_models(out@) =~= matching(p@, refs.take(0), target@));
    while i < p.attachments.len()
        invariant
            target@.identity is Attachment,
            refs == ref_models(p.attachments@),
            i <= p.attachments@.len(),
            resource_models(out@) == matching(p@, refs.take(i as int), target@),
        decreases p.attachments@.len() - i,
    {
        let ghost was = out@;
        let a = &p.attachments[i];
        assert(refs[i as int] == a@);
        assert(refs.take(i + 1).drop_last() =~= refs.take(i as int));
        assert(refs.take(i + 1).last() == a@);
        let x = p.attachment(a);
        let alike = same(&x.sha256, &target.sha256) && x.size_bytes == target.size_bytes && (match &target.identity {
            ResourceKind::Attachment { thread_id, post_id, .. } => same(&p.thread_id, thread_id) && same(
                &p.post_id,
                post_id,
            ),
            _ => false,
        });
        assert(alike == same_content(x@, target@));
        if alike {
            out.push(x);
            assert(resource_models(out@) =~= resource_models(was).push(x@));
        }
        i += 1;
    }
    assert(refs.take(i as int) =~= refs);
    out
}

fn candidates_in(row: &LedgerEntry, target: &Resource) -> (r: Vec<Resource>)
    ensures
        resource_models(r@) == row_candidates(row@, target@),
{
    let mut out: Vec<Resource> = Vec::new();
    match &row.descriptor {
        None => {},
        Some(p) => match &target.identity {
            ResourceKind::Post { .. } => {
                let x = p.resource();
                if x.is_same(target) {
                    out.push(x);
                }
            },
            ResourceKind::Attachment { .. } => {
                return matching_attachments(p, target);
            },
            ResourceKind::Avatar { .. } => {
                if let Some(x) = p.picture() {
                    if x.is_same(target) {
                        out.push(x);
                    }
                }
            },
        },
    }
    assert(resource_models(out@) =~= row_candidates(row@, target@));
    out
}

/// Where bytes could be copied from instead of being sent once more.
pub fn copy_candidates(state: &SyncState, target: &Resource) -> (r: Vec<Resource>)
    requires
        state.wf(),
    ensures
        resource_models(r@) == candidates(ledger_rows(state.ledger.entries@), target@),
{
    let v = &state.ledger.entries;
    let ghost rows = ledger_rows(v@);
    let mut out: Vec<Resource> = Vec::new();
    let mut i: usize = 0;
    assert(resource_models(out@) =~= candidates(rows.take(0), target@));
    while i < v.len()
        invariant
            v == state.ledger.entries,
            rows == ledger_rows(v@),
            i <= v@.len(),
            resource_models(out@) == candidates(rows.take(i as int), target@),
        decreases v@.len() - i,
    {
        let ghost was = out@;
        assert(rows.take(i + 1).drop_last() =~= rows.take(i as int));
        assert(rows.take(i + 1).last() == v@[i as int].1@);
        let mut more = candidates_in(&v[i].1, target);
        let ghost w = more@;
        out.append(&mut more);
        assert(resource_models(out@) =~= resource_models(was) + resource_models(w));
        i += 1;
    }
    assert(rows.take(i as int) =~= rows);
    out
}

/// The first candidate whose file is still the registered one.
pub open spec fn first_source(s: StateModel, from: Seq<ResourceModel>, sights: Seq<SourceSight>) -> Option<Text>
    decreases from.len(),
{
    if from.len() == 0 {
        None
    } else {
        match source_of(s, None, from[0], sights[0]) {
            Ok(path) => Some(path),
            Err(_) => first_source(s, from.drop_first(), sights.drop_first()),
        }
    }
}

fn search_source(state: &SyncState, from: &Vec<Resource>, sights: &Vec<SourceSight>) -> (r: Option<String>)
    requires
        state.wf(),
        from@.len() == sights@.len(),
    ensures
        crate::text::opt_text(r) == first_source(state@, resource_models(from@), sights@),
{
    let ghost all = resource_models(from@);
    assert(all.skip(0) =~= all);
    assert(sights@.skip(0) =~= sights@);
    let mut i: usize = 0;
    while i < from.len()
        invariant
            state.wf(),
            all == resource_models(from@),
            from@.len() == sights@.len(),
            i <= from@.len(),
            first_source(state@, all, sights@) == first_source(state@, all.skip(i as int), sights@.skip(i as int)),
        decreases from@.len() - i,
    {
        let ghost x = all.skip(i as int);
        let ghost y = sights@.skip(i as int);
        assert(x[0] == from@[i as int]@);
        assert(y[0] == sights@[i as int]);
        assert(x.drop_first() =~= all.skip(i + 1));
        assert(y.drop_first() =~= sights@.skip(i + 1));
        let found = source_in(state, None, &from[i], &sights[i]);
        assert(path_result(found) == source_of(state@, None, x[0], y[0]));
        if let Ok(path) = found {
            return Some(path);
        }
        i += 1;
    }
    None
}

/// Whether bytes have to be sent.
pub enum CopyPlan {
    /// They are here in their place.
    Present,
    /// They can be copied from this file.
    From(String),
    Missing,
}

pub enum CopyModel {
    Present,
    From(Text),
    Missing,
}

impl View for CopyPlan {
    type V = CopyModel;

    open spec fn view(&self) -> CopyModel {
        match self {
            CopyPlan::Present => CopyModel::Present,
            CopyPlan::From(p) => CopyModel::From(p@),
            CopyPlan::Missing => CopyModel::Missing,
        }
    }
}

pub open spec fn copy_plan(
    s: StateModel,
    member: Option<(Text, Text)>,
    group: Text,
    membership: Text,
    target: ResourceModel,
    sight: SourceSight,
    from: Seq<ResourceModel>,
    sights: Seq<SourceSight>,
) -> Result<CopyModel, Text> {
    if fence_fault(member, group, membership) is Some {
        Err(fence_fault(member, group, membership)->0)
    } else if source_of(s, Some(group), target, sight) is Ok {
        Ok(CopyModel::Present)
    } else {
        match first_source(s, from, sights) {
            Some(path) => Ok(CopyModel::From(path)),
            None => Ok(CopyModel::Missing),
        }
    }
}

pub open spec fn copy_result(r: Result<CopyPlan, String>) -> Result<CopyModel, Text> {
    match r {
        Ok(x) => Ok(x@),
        Err(e) => Err(e@),
    }
}

/// Decide whether the bytes of a post or an attachment are here: `sight` are
/// the files that should hold them, `sights` those of the candidates.
pub fn plan_copy(
    state: &SyncState,
    member: &Option<Membership>,
    fence: &GroupFence,
    target: &Resource,
    sight: &SourceSight,
    sights: &Vec<SourceSight>,
) -> (r: Result<CopyPlan, String>)
    requires
        state.wf(),
        sights@.len() == candidates(ledger_rows(state.ledger.entries@), target@).len(),
    ensures
        copy_result(r) == copy_plan(
            state@,
            member_pair(*member),
            fence.group_id@,
            fence.membership_id@,
            target@,
            *sight,
            candidates(ledger_rows(state.ledger.entries@), target@),
            sights@,
        ),
{
    match check_fence(member, fence) {
        Ok(_) => {},
        Err(e) => {
            return Err(e);
        },
    }
    match source_in(state, Some(fence.group_id.as_str()), target, sight) {
        Ok(_) => {
            return Ok(CopyPlan::Present);
        },
        Err(_) => {},
    }
    let from = copy_candidates(state, target);
    assert(resource_models(from@).len() == from@.len());
    match search_source(state, &from, sights) {
        Some(path) => Ok(CopyPlan::From(path)),
        None => Ok(CopyPlan::Missing),
    }
}

/// A copy has the wanted bytes: `len` is the length of the source when it was
/// opened, `total` and `hash` are of what was copied.
pub fn judge_copy(resource: &Resource, len: u64, total: u64, hash: &str, unchanged: bool) -> (r: Result<(), String>)
    ensures
        r is Ok == (len == resource@.size && total == resource@.size && hash@ == resource@.sha256 && unchanged),
        r matches Err(e) ==> e@ == "copy_source_changed"@,
{
    if len != resource.size_bytes || total != resource.size_bytes || !same(hash, &resource.sha256) || !unchanged {
        return Err(own("copy_source_changed"));
    }
    Ok(())
}

// --------------------------------------------------------------- the picture

/// A post that is offered in this round shows the picture, and its file is the
/// one that was checked.
pub open spec fn offers_picture(s: StateModel, group: Text, p: VersionModel, stamp: FileStamp, r: ResourceModel) -> bool {
    let k = tkey(version_key(p.post_id, p.version_id));
    &&& sharing_fault(s, group, p.thread_id, p.post_id, p.version_id) is None
    &&& s.ledger.contains_key(k) && s.ledger[k].avatar_stamp == Some(stamp)
    &&& picture_of(p) == Some(r)
}

pub open spec fn some_offers(s: StateModel, group: Text, catalog: Seq<PostVersion>, stamp: FileStamp, r: ResourceModel) -> bool {
    exists|i: int| 0 <= i < catalog.len() && offers_picture(s, group, (#[trigger] catalog[i])@, stamp, r)
}

/// A picture is given to the device of an exchange if this device's directory
/// names it, or a post that is offered in this round.
pub open spec fn exchanged(
    s: StateModel,
    member: Option<(Text, Text)>,
    group: Text,
    membership: Text,
    r: ResourceModel,
    catalog: Seq<PostVersion>,
    in_roster: bool,
    sight: SourceSight,
) -> Result<Text, Text> {
    match r.identity {
        KindModel::Avatar { sha256, ext } => if !is_resource(r) {
            Err("invalid_resource"@)
        } else if fence_fault(member, group, membership) is Some {
            Err(fence_fault(member, group, membership)->0)
        } else if sight.picture is None {
            Err("source_unavailable"@)
        } else if in_roster || some_offers(s, group, catalog, sight.picture->0, r) {
            Ok(avatar_path(sha256, ext))
        } else {
            Err("unrequested_avatar"@)
        },
        _ => given(s, member, group, membership, r, sight),
    }
}

fn catalog_offers(state: &SyncState, group: &str, catalog: &Vec<PostVersion>, stamp: FileStamp, resource: &Resource) -> (r: bool)
    requires
        state.wf(),
    ensures
        r == some_offers(state@, group@, catalog@, stamp, resource@),
{
    let mut i: usize = 0;
    while i < catalog.len()
        invariant
            state.wf(),
            i <= catalog@.len(),
            forall|j: int| 0 <= j < i ==> !offers_picture(state@, group@, (#[trigger] catalog@[j])@, stamp, resource@),
        decreases catalog@.len() - i,
    {
        let p = &catalog[i];
        let found = require_shared(state, group, &p.thread_id, &p.post_id, &p.version_id).is_ok() && (match state.row(
            &p.post_id,
            &p.version_id,
        ) {
            Some(row) => same_stamp(&row.avatar_stamp, &Some(stamp)),
            None => false,
        }) && (match p.picture() {
            Some(x) => x.is_same(resource),
            None => false,
        });
        assert(found == offers_picture(state@, group@, catalog@[i as int]@, stamp, resource@));
        if found {
            return true;
        }
        i += 1;
    }
    false
}

pub fn source_for_exchange(
    state: &SyncState,
    member: &Option<Membership>,
    fence: &GroupFence,
    resource: &Resource,
    catalog: &Vec<PostVersion>,
    in_roster: bool,
    sight: &SourceSight,
) -> (r: Result<String, String>)
    requires
        state.wf(),
    ensures
        path_result(r) == exchanged(
            state@,
            member_pair(*member),
            fence.group_id@,
            fence.membership_id@,
            resource@,
            catalog@,
            in_roster,
            *sight,
        ),
{
    match &resource.identity {
        ResourceKind::Avatar { sha256, ext } => {
            if !resource.valid() {
                return Err(own("invalid_resource"));
            }
            match check_fence(member, fence) {
                Ok(_) => {},
                Err(e) => {
                    return Err(e);
                },
            }
            let stamp = match sight.picture {
                Some(s) => s,
                None => {
                    return Err(own("source_unavailable"));
                },
            };
            if !in_roster && !catalog_offers(state, &fence.group_id, catalog, stamp, resource) {
                return Err(own("unrequested_avatar"));
            }
            let mut path = plus3("avatars/", sha256, ".");
            path.append(ext);
            Ok(path)
        },
        _ => source(state, member, fence, resource, sight),
    }
}

// ---------------------------------------------------------------------- laws

/// What is received twice is entered once: a post that was put in its place is
/// found there.
pub proof fn a_received_post_is_here(
    s: StateModel,
    group: Text,
    p: VersionModel,
    origin: OriginModel,
    stamp: FileStamp,
    now: Text,
    before_sight: SourceSight,
    sight: SourceSight,
)
    requires
        post_plan(s, group, p.thread_id, p.post_id, p.version_id, p, true, before_sight) is Ok,
        sight.resident == Some(stamp) || sight.versioned == Some(stamp),
    ensures
        post_plan(
            installed_post(s, p, origin, Some(stamp), now),
            group,
            p.thread_id,
            p.post_id,
            p.version_id,
            p,
            true,
            sight,
        ) == Ok::<InstallModel, Text>(InstallModel::AlreadyHere),
{
    let t = installed_post(s, p, origin, Some(stamp), now);
    let k = tkey(version_key(p.post_id, p.version_id));
    if ledger_contradicts(t, p) {
        let x = choose|x: Parts| #[trigger] t.ledger.contains_key(x) && row_contradicts(t.ledger[x], p);
        if x != k {
            assert(s.ledger.contains_key(x) && row_contradicts(s.ledger[x], p));
        }
    }
}

/// A received attachment that was put in its place is found there.
pub proof fn a_received_attachment_is_here(
    row: RowModel,
    id: Text,
    r: ResourceModel,
    stamp: FileStamp,
    at: LocationModel,
    sight: SourceSight,
)
    requires
        (if at.extra is Some {
            sight.versioned_file
        } else {
            sight.resident_file
        }) == Some(stamp),
    ensures
        is_checked(with_attachment(row, id, r, Some(stamp)), id, at, sight),
{
}

/// Nothing that is deleted, or not shared with the group, is entered.
pub proof fn nothing_deleted_is_entered(
    s: StateModel,
    member: Option<(Text, Text)>,
    group: Text,
    membership: Text,
    r: ResourceModel,
    offered: Option<VersionModel>,
    in_roster: bool,
    partial: Option<FileStamp>,
    read: Option<FileStamp>,
    sight: SourceSight,
    thread: Text,
    post: Text,
    version: Text,
)
    requires
        r.identity == (KindModel::Post { thread_id: thread, post_id: post, version_id: version }),
        install_plan(s, member, group, membership, r, offered, in_roster, partial, read, sight) is Ok,
    ensures
        crate::bbs::sync::model::shared_in(s, group, thread),
        !suppressed(s, thread, post, version),
        !ledger_contradicts(s, offered->0),
{
}

/// A received body is accepted exactly if it has the hash and the size that
/// were promised, is the post that was offered, of the same kind, and has the
/// attachments that were offered.
pub proof fn only_the_promised_body_is_accepted(
    p: VersionModel,
    meta: Result<PostModel, Text>,
    len: nat,
    hash: Text,
)
    ensures
        body_fault(post_resource(p), Some(p), meta, len, hash) is None <==> {
            &&& is_version(p)
            &&& hash == p.version_id
            &&& len == p.size
            &&& meta matches Ok(m) && shared_fault(m, p.thread_id, p.post_id) is None && m.kind == p.kind && (post_refs(m)
                matches Ok(refs) && same_attachments(refs, p.attachments))
        },
        body_fault(post_resource(p), None, meta, len, hash) == Some("missing_version_offer"@),
{
}

/// What two versions may not say of one post or of one thread: another thread,
/// another kind, a second topic.
pub proof fn a_post_keeps_its_thread_and_kind(a: VersionModel, b: VersionModel)
    ensures
        a.post_id == b.post_id && a.thread_id != b.thread_id ==> contradicts(a, b),
        a.post_id == b.post_id && a.kind != b.kind ==> contradicts(a, b),
        a.post_id != b.post_id && a.thread_id == b.thread_id && a.kind == "topic"@ && b.kind == "topic"@ ==> contradicts(
            a,
            b,
        ),
        a.post_id == b.post_id && a.thread_id == b.thread_id && a.kind == b.kind ==> !contradicts(a, b),
        a.post_id != b.post_id && (a.thread_id != b.thread_id || a.kind != "topic"@ || b.kind != "topic"@)
            ==> !contradicts(a, b),
{
}

/// A received post takes its place among the posts if that is free, and else
/// becomes an extra version. It is put nowhere if it is here already, if the
/// thread is unknown, or if it changed on the way.
pub proof fn a_received_post_finds_its_place(
    s: StateModel,
    group: Text,
    p: VersionModel,
    intact: bool,
    sight: SourceSight,
)
    requires
        is_version(p),
        shared_in(s, group, p.thread_id),
        !suppressed(s, p.thread_id, p.post_id, p.version_id),
        !ledger_contradicts(s, p),
        !s.ledger.contains_key(tkey(version_key(p.post_id, p.version_id))),
    ensures
        ({
            let r = post_plan(s, group, p.thread_id, p.post_id, p.version_id, p, intact, sight);
            let known = s.records.contains_key(tkey(p.thread_id));
            &&& !intact ==> r == Err::<InstallModel, Text>("partial_changed"@)
            &&& intact && !known ==> r == Err::<InstallModel, Text>("missing_thread_record"@)
            &&& intact && known && sight.resident is None ==> r == Ok::<InstallModel, Text>(
                InstallModel::Place {
                    path: crate::bbs::sync::resources::post_path(p.thread_id, p.post_id, None),
                    extra: None,
                },
            )
            &&& intact && known && sight.resident is Some && sight.versioned is None ==> r == Ok::<InstallModel, Text>(
                InstallModel::Place {
                    path: crate::bbs::sync::resources::post_path(p.thread_id, p.post_id, Some(p.version_id)),
                    extra: Some(p.version_id),
                },
            )
            &&& intact && known && sight.resident is Some && sight.versioned is Some ==> r == Err::<InstallModel, Text>(
                "version_requires_reindex"@,
            )
        }),
{
}

/// Nothing is put in place but under the membership of the exchange, and only
/// if the received file is there and has the promised size.
pub proof fn only_complete_files_are_put_in_place(
    s: StateModel,
    member: Option<(Text, Text)>,
    group: Text,
    membership: Text,
    r: ResourceModel,
    offered: Option<VersionModel>,
    in_roster: bool,
    partial: Option<FileStamp>,
    read: Option<FileStamp>,
    sight: SourceSight,
)
    requires
        install_plan(s, member, group, membership, r, offered, in_roster, partial, read, sight) is Ok,
    ensures
        is_resource(r),
        member == Some((group, membership)),
        partial matches Some(f) && f.len == r.size,
        r.identity is Post ==> offered is Some && read == partial,
{
}

/// The row of a received post tells of the post what was offered, with its
/// file and its picture, and that none of its attachments is here.
pub proof fn a_received_row_tells_what_was_offered(
    s: StateModel,
    p: VersionModel,
    origin: OriginModel,
    stamp: Option<FileStamp>,
    now: Text,
    i: int,
    other: Parts,
)
    ensures
        ({
            let k = tkey(version_key(p.post_id, p.version_id));
            let t = installed_post(s, p, origin, stamp, now);
            let row = t.ledger[k];
            &&& t.ledger.contains_key(k)
            &&& row.thread_id == p.thread_id && row.post_id == p.post_id && row.version_id == p.version_id
            &&& row.body_stamp == stamp && row.updated_at == now && row.avatar_stamp is None
            &&& row.descriptor matches Some(q) && q.thread_id == p.thread_id && q.post_id == p.post_id && q.version_id
                == p.version_id && q.kind == p.kind && q.size == p.size && q.avatar == Some(origin.avatar)
                && q.attachments.len() == p.attachments.len() && (0 <= i < p.attachments.len() ==> q.attachments[i].id
                == p.attachments[i].id && q.attachments[i].sha256 == p.attachments[i].sha256 && !q.attachments[i].available)
            &&& other != k ==> t.ledger.contains_key(other) == s.ledger.contains_key(other) && (s.ledger.contains_key(
                other,
            ) ==> t.ledger[other] == s.ledger[other])
            &&& t.groups == s.groups && t.tombstones == s.tombstones && t.records == s.records
        }),
{
}

/// A received attachment is entered with its hash, size and file, counts as
/// checked, and is available in its version; nothing else changes.
pub proof fn a_received_attachment_is_entered(
    s: StateModel,
    post: Text,
    version: Text,
    id: Text,
    r: ResourceModel,
    stamp: Option<FileStamp>,
    other: Text,
    i: int,
)
    requires
        s.ledger.contains_key(tkey(version_key(post, version))),
    ensures
        ({
            let k = tkey(version_key(post, version));
            let t = installed_attachment(s, post, version, id, r, stamp);
            let a = t.ledger[k].attachments;
            &&& t.ledger.contains_key(k)
            &&& a.contains_key(tkey(id)) && a[tkey(id)].verified && a[tkey(id)].sha256 == r.sha256 && a[tkey(id)].size
                == r.size && a[tkey(id)].stamp == stamp
            &&& other != id ==> a.contains_key(tkey(other)) == s.ledger[k].attachments.contains_key(tkey(other)) && (
            s.ledger[k].attachments.contains_key(tkey(other)) ==> a[tkey(other)] == s.ledger[k].attachments[tkey(other)])
            &&& t.ledger[k].body_stamp == s.ledger[k].body_stamp && t.ledger[k].thread_id == s.ledger[k].thread_id
            &&& s.ledger[k].descriptor matches Some(p) ==> t.ledger[k].descriptor matches Some(q) && q.attachments.len()
                == p.attachments.len() && (0 <= i < p.attachments.len() ==> {
                &&& q.attachments[i].id == p.attachments[i].id && q.attachments[i].sha256 == p.attachments[i].sha256
                &&& p.attachments[i].id != id ==> q.attachments[i].available == p.attachments[i].available
                &&& p.attachments[i].id == id && (forall|j: int| 0 <= j < i ==> (#[trigger] p.attachments[j]).id != id)
                    ==> q.attachments[i].available
            })
        }),
{
    assert(tkey(id)[0] == id);
    assert(tkey(other)[0] == other);
}

/// A picture that was received is the picture of exactly those rows whose
/// author shows it.
pub proof fn a_received_picture_goes_to_its_author(
    s: StateModel,
    r: ResourceModel,
    stamp: Option<FileStamp>,
    k: Parts,
)
    requires
        s.ledger.contains_key(k),
    ensures
        ({
            let t = installed_picture(s, r, stamp);
            let shows = s.ledger[k].descriptor matches Some(p) && picture_of(p) == Some(r);
            &&& t.ledger.contains_key(k)
            &&& shows ==> t.ledger[k].avatar_stamp == stamp
            &&& !shows ==> t.ledger[k] == s.ledger[k]
            &&& t.ledger[k].body_stamp == s.ledger[k].body_stamp
        }),
{
}

/// A picture is adopted exactly if its bytes were checked and its file is still
/// the same, for somebody who is wanted, under the membership of the exchange.
pub proof fn only_a_checked_picture_is_adopted(
    s: StateModel,
    member: Option<(Text, Text)>,
    group: Text,
    membership: Text,
    r: ResourceModel,
    in_roster: bool,
    checked: Option<FileStamp>,
    now: Option<FileStamp>,
)
    ensures
        adoption(s, member, group, membership, r, in_roster, checked, now) == Ok::<bool, Text>(true) <==> {
            &&& is_resource(r)
            &&& checked is Some && now == checked
            &&& member == Some((group, membership))
            &&& in_roster || picture_in_posts(s, group, r)
        },
{
}

proof fn lemma_matching(p: VersionModel, refs: Seq<RefModel>, target: ResourceModel, x: ResourceModel)
    ensures
        matching(p, refs, target).contains(x) <==> same_content(x, target) && exists|i: int|
            0 <= i < refs.len() && x == attachment_resource(p, #[trigger] refs[i]),
    decreases refs.len(),
{
    let out = matching(p, refs, target);
    if refs.len() > 0 {
        let head = refs.drop_last();
        lemma_matching(p, head, target, x);
        let rest = matching(p, head, target);
        assert(refs[refs.len() - 1] == refs.last());
        if rest.contains(x) {
            let j = choose|j: int| 0 <= j < rest.len() && rest[j] == x;
            assert(out[j] == x);
            let i = choose|i: int| 0 <= i < head.len() && x == attachment_resource(p, #[trigger] head[i]);
            assert(refs[i] == head[i]);
        }
        if out.contains(x) && !rest.contains(x) {
            let j = choose|j: int| 0 <= j < out.len() && out[j] == x;
            if j < rest.len() {
                assert(rest[j] == x);
            }
        }
        if same_content(x, target) && exists|i: int| 0 <= i < refs.len() && x == attachment_resource(p, #[trigger] refs[i]) {
            let i = choose|i: int| 0 <= i < refs.len() && x == attachment_resource(p, #[trigger] refs[i]);
            if i < head.len() {
                assert(head[i] == refs[i]);
            } else {
                assert(out[rest.len() as int] == x);
            }
        }
    }
}

/// Bytes are copied only from where the same bytes lie: with the same hash and
/// size, and an attachment only from the same post.
pub proof fn bytes_are_copied_from_the_same_bytes(rows: Seq<RowModel>, target: ResourceModel, x: ResourceModel)
    requires
        candidates(rows, target).contains(x),
    ensures
        x.sha256 == target.sha256,
        x.size == target.size,
        target.identity is Post ==> x == target,
        target.identity is Avatar ==> x == target,
        target.identity is Attachment ==> (x.identity matches KindModel::Attachment { thread_id: t, post_id: q, .. }
            && target.identity matches KindModel::Attachment { thread_id: u, post_id: v, .. } && t == u && q == v),
    decreases rows.len(),
{
    if rows.len() > 0 {
        let a = candidates(rows.drop_last(), target);
        let b = row_candidates(rows.last(), target);
        let i = choose|i: int| 0 <= i < (a + b).len() && (a + b)[i] == x;
        if i < a.len() {
            assert(a[i] == x);
            bytes_are_copied_from_the_same_bytes(rows.drop_last(), target, x);
        } else {
            assert(b[i - a.len()] == x);
            assert(b.contains(x));
            if let Some(p) = rows.last().descriptor {
                lemma_matching(p, p.attachments, target, x);
            }
        }
    }
}

/// Bytes that are in their place are not copied; else they are copied from the
/// first candidate whose file is still registered, and only without one are
/// they sent.
pub proof fn bytes_are_sent_only_if_missing(
    s: StateModel,
    member: Option<(Text, Text)>,
    group: Text,
    membership: Text,
    target: ResourceModel,
    sight: SourceSight,
    from: Seq<ResourceModel>,
    sights: Seq<SourceSight>,
    i: int,
)
    requires
        member == Some((group, membership)),
        from.len() == sights.len(),
    ensures
        ({
            let r = copy_plan(s, member, group, membership, target, sight, from, sights);
            let here = source_of(s, Some(group), target, sight) is Ok;
            &&& here ==> r == Ok::<CopyModel, Text>(CopyModel::Present)
            &&& !here && 0 <= i < from.len() && source_of(s, None, from[i], sights[i]) is Ok ==> (r matches Ok(
                CopyModel::From(_),
            ))
            &&& r == Ok::<CopyModel, Text>(CopyModel::Missing) ==> forall|j: int|
                0 <= j < from.len() ==> source_of(s, None, #[trigger] from[j], sights[j]) is Err
        }),
{
    lemma_first_source(s, from, sights);
}

proof fn lemma_first_source(s: StateModel, from: Seq<ResourceModel>, sights: Seq<SourceSight>)
    requires
        from.len() == sights.len(),
    ensures
        first_source(s, from, sights) is None <==> forall|j: int|
            0 <= j < from.len() ==> source_of(s, None, #[trigger] from[j], sights[j]) is Err,
        first_source(s, from, sights) matches Some(path) ==> exists|j: int|
            0 <= j < from.len() && source_of(s, None, #[trigger] from[j], sights[j]) == Ok::<Text, Text>(path),
    decreases from.len(),
{
    if from.len() > 0 {
        let f = from.drop_first();
        let g = sights.drop_first();
        lemma_first_source(s, f, g);
        assert(forall|j: int| 0 <= j < f.len() ==> #[trigger] f[j] == from[j + 1] && g[j] == sights[j + 1]);
        if source_of(s, None, from[0], sights[0]) is Err {
            if first_source(s, f, g) is None {
                assert forall|j: int| 0 <= j < from.len() implies source_of(s, None, #[trigger] from[j], sights[j]) is Err by {
                    if j > 0 {
                        assert(f[j - 1] == from[j]);
                    }
                }
            } else {
                let path = first_source(s, f, g)->0;
                let j = choose|j: int|
                    0 <= j < f.len() && source_of(s, None, #[trigger] f[j], g[j]) == Ok::<Text, Text>(path);
                assert(source_of(s, None, from[j + 1], sights[j + 1]) == Ok::<Text, Text>(path));
            }
        }
    }
}

/// A picture is given in an exchange exactly if this device's directory names
/// it, or a shared post that is offered shows it and its file was checked.
pub proof fn an_offered_picture_is_given(
    s: StateModel,
    member: Option<(Text, Text)>,
    group: Text,
    membership: Text,
    r: ResourceModel,
    catalog: Seq<PostVersion>,
    in_roster: bool,
    sight: SourceSight,
)
    requires
        r.identity is Avatar,
        is_resource(r),
    ensures
        exchanged(s, member, group, membership, r, catalog, in_roster, sight) is Ok <==> {
            &&& member == Some((group, membership))
            &&& sight.picture matches Some(t) && (in_roster || exists|i: int|
                0 <= i < catalog.len() && picture_of((#[trigger] catalog[i])@) == Some(r) && shared_in(
                    s,
                    group,
                    catalog[i]@.thread_id,
                ) && !suppressed(s, catalog[i]@.thread_id, catalog[i]@.post_id, catalog[i]@.version_id)
                    && s.ledger.contains_key(tkey(version_key(catalog[i]@.post_id, catalog[i]@.version_id)))
                    && s.ledger[tkey(version_key(catalog[i]@.post_id, catalog[i]@.version_id))].avatar_stamp == Some(t))
        },
{
    if let Some(t) = sight.picture {
        if some_offers(s, group, catalog, t, r) {
            let i = choose|i: int| 0 <= i < catalog.len() && offers_picture(s, group, (#[trigger] catalog[i])@, t, r);
            assert(picture_of(catalog[i]@) == Some(r));
        }
        if exists|i: int|
            0 <= i < catalog.len() && picture_of((#[trigger] catalog[i])@) == Some(r) && shared_in(
                s,
                group,
                catalog[i]@.thread_id,
            ) && !suppressed(s, catalog[i]@.thread_id, catalog[i]@.post_id, catalog[i]@.version_id)
                && s.ledger.contains_key(tkey(version_key(catalog[i]@.post_id, catalog[i]@.version_id)))
                && s.ledger[tkey(version_key(catalog[i]@.post_id, catalog[i]@.version_id))].avatar_stamp == Some(t) {
            let i = choose|i: int|
                0 <= i < catalog.len() && picture_of((#[trigger] catalog[i])@) == Some(r) && shared_in(
                    s,
                    group,
                    catalog[i]@.thread_id,
                ) && !suppressed(s, catalog[i]@.thread_id, catalog[i]@.post_id, catalog[i]@.version_id)
                    && s.ledger.contains_key(tkey(version_key(catalog[i]@.post_id, catalog[i]@.version_id)))
                    && s.ledger[tkey(version_key(catalog[i]@.post_id, catalog[i]@.version_id))].avatar_stamp == Some(t);
            assert(offers_picture(s, group, catalog[i]@, t, r));
        }
    }
}

} // verus!
