//! What a device gives to the others of its group, and what it takes.
use vstd::prelude::*;
use crate::bbs::mentions::{fault_of, member_pair, Membership};
use crate::bbs::sync::inventory::{locate_row, located, LocationModel, PostLocation};
use crate::bbs::sync::model::{lemma_at, lemma_found, opt_version, same_stamp, shared_in, suppressed, tkey};
use crate::bbs::sync::model::{version_key, FileStamp, LedgerEntry, PostVersion, RowModel, StateModel, SyncState};
use crate::bbs::sync::model::VersionModel;
use crate::bbs::sync::refresh::is_version;
use crate::bbs::sync::resources::{attachment_relative, attachment_resource, avatar_path, checked_attachment};
use crate::bbs::sync::resources::{checked_post, is_resource, path_result, picture_of, post_resource, KindModel};
use crate::bbs::sync::resources::{Resource, ResourceKind, ResourceModel};
use crate::ids::{is_hash, is_safe_id, safe_id, valid_hash};
use crate::order::Parts;
use crate::text::{own, plus3, same, Text};

verus! {

// --------------------------------------------------------------------- fence

/// The group, and this device's membership in it, that an exchange belongs to.
pub struct GroupFence {
    pub group_id: String,
    pub membership_id: String,
}

pub open spec fn fence_fault(member: Option<(Text, Text)>, group: Text, membership: Text) -> Option<Text> {
    if member == Some((group, membership)) {
        None
    } else {
        Some("group_context_changed"@)
    }
}

/// The device is still in the group, by the same membership.
pub fn check_fence(member: &Option<Membership>, fence: &GroupFence) -> (r: Result<(), String>)
    ensures
        fault_of(r) == fence_fault(member_pair(*member), fence.group_id@, fence.membership_id@),
{
    match member {
        Some(m) => if same(&m.group_id, &fence.group_id) && same(&m.membership_id, &fence.membership_id) {
            Ok(())
        } else {
            Err(own("group_context_changed"))
        },
        None => Err(own("group_context_changed")),
    }
}

/// Why a version is none of the group's business.
pub open spec fn sharing_fault(s: StateModel, group: Text, thread: Text, post: Text, version: Text) -> Option<Text> {
    if !shared_in(s, group, thread) {
        Some("resource_not_shared"@)
    } else if suppressed(s, thread, post, version) {
        Some("resource_deleted"@)
    } else {
        None
    }
}

pub fn require_shared(state: &SyncState, group: &str, thread: &str, post: &str, version: &str) -> (r: Result<(), String>)
    requires
        state.wf(),
    ensures
        fault_of(r) == sharing_fault(state@, group@, thread@, post@, version@),
{
    if !state.shared_in(group, thread) {
        return Err(own("resource_not_shared"));
    }
    if state.suppressed(thread, post, version) {
        return Err(own("resource_deleted"));
    }
    Ok(())
}

// ------------------------------------------------------------------- refusal

/// A shared post that is here shows this picture.
pub open spec fn shows_picture(s: StateModel, group: Text, row: RowModel, r: ResourceModel) -> bool {
    &&& row.body_stamp is Some
    &&& sharing_fault(s, group, row.thread_id, row.post_id, row.version_id) is None
    &&& row.descriptor matches Some(p) && picture_of(p) == Some(r)
}

pub open spec fn picture_in_posts(s: StateModel, group: Text, r: ResourceModel) -> bool {
    exists|k: Parts| #[trigger] s.ledger.contains_key(k) && shows_picture(s, group, s.ledger[k], r)
}

fn same_picture(p: &PostVersion, resource: &Resource) -> (r: bool)
    ensures
        r == (picture_of(p@) == Some(resource@)),
{
    match p.picture() {
        Some(x) => x.is_same(resource),
        None => false,
    }
}

/// A picture is wanted if the other device's directory names it, or a shared
/// post that is here.
pub fn avatar_allowed(state: &SyncState, group: &str, resource: &Resource, in_roster: bool) -> (r: bool)
    requires
        state.wf(),
    ensures
        r == (in_roster || picture_in_posts(state@, group@, resource@)),
{
    if in_roster {
        return true;
    }
    let v = &state.ledger.entries;
    let mut i: usize = 0;
    while i < v.len()
        invariant
            state.wf(),
            v == state.ledger.entries,
            i <= v@.len(),
            forall|j: int| 0 <= j < i ==> !shows_picture(state@, group@, (#[trigger] v@[j]).1@, resource@),
        decreases v@.len() - i,
    {
        let row = &v[i].1;
        let shown = row.body_stamp.is_some() && require_shared(
            state,
            group,
            &row.thread_id,
            &row.post_id,
            &row.version_id,
        ).is_ok() && (match &row.descriptor {
            Some(p) => same_picture(p, resource),
            None => false,
        });
        assert(shown == shows_picture(state@, group@, row@, resource@));
        if shown {
            proof {
                lemma_at(state.ledger, i as int);
                assert(state@.ledger.contains_key(tkey(v@[i as int].0@)));
            }
            return true;
        }
        i += 1;
    }
    proof {
        if picture_in_posts(state@, group@, resource@) {
            let k = choose|k: Parts|
                #[trigger] state@.ledger.contains_key(k) && shows_picture(
                    state@,
                    group@,
                    state@.ledger[k],
                    resource@,
                );
            let j = lemma_found(state.ledger, k);
            assert(!shows_picture(state@, group@, v@[j].1@, resource@));
        }
    }
    false
}

/// A version has this attachment.
pub open spec fn declares(p: VersionModel, id: Text, r: ResourceModel) -> bool {
    exists|i: int| declares_at(p, id, r, i)
}

pub open spec fn declares_at(p: VersionModel, id: Text, r: ResourceModel, i: int) -> bool {
    0 <= i < p.attachments.len() && p.attachments[i].id == id && attachment_resource(p, p.attachments[i]) == r
}

/// The first attachment of a version that is this resource.
pub fn find_attachment(p: &PostVersion, id: &str, resource: &Resource) -> (r: Option<usize>)
    ensures
        r is Some == declares(p@, id@, resource@),
        r matches Some(i) ==> i < p.attachments@.len() && declares_at(p@, id@, resource@, i as int) && forall|j: int|
            0 <= j < i ==> !#[trigger] declares_at(p@, id@, resource@, j),
{
    let v = &p.attachments;
    let mut i: usize = 0;
    while i < v.len()
        invariant
            v == p.attachments,
            i <= v@.len(),
            forall|j: int| 0 <= j < i ==> !#[trigger] declares_at(p@, id@, resource@, j),
        decreases v@.len() - i,
    {
        assert(p@.attachments[i as int] == v@[i as int]@);
        if same(&v[i].id, id) && p.attachment(&v[i]).is_same(resource) {
            assert(declares_at(p@, id@, resource@, i as int));
            return Some(i);
        }
        i += 1;
    }
    assert(forall|j: int| !#[trigger] declares_at(p@, id@, resource@, j));
    None
}

/// Why a resource is none that was asked for.
pub open spec fn request_fault(
    s: StateModel,
    group: Text,
    r: ResourceModel,
    offered: Option<VersionModel>,
    in_roster: bool,
) -> Option<Text> {
    match r.identity {
        KindModel::Post { thread_id, post_id, version_id } => match sharing_fault(
            s,
            group,
            thread_id,
            post_id,
            version_id,
        ) {
            Some(e) => Some(e),
            None => if offered matches Some(p) && post_resource(p) == r {
                None
            } else {
                Some("unrequested_resource"@)
            },
        },
        KindModel::Attachment { thread_id, post_id, version_id, attachment_id } => match sharing_fault(
            s,
            group,
            thread_id,
            post_id,
            version_id,
        ) {
            Some(e) => Some(e),
            None => {
                let k = tkey(version_key(post_id, version_id));
                if !s.ledger.contains_key(k) || s.ledger[k].descriptor is None {
                    Some("missing_post_body"@)
                } else if declares(s.ledger[k].descriptor->0, attachment_id, r) {
                    None
                } else {
                    Some("unrequested_resource"@)
                }
            },
        },
        KindModel::Avatar { .. } => if in_roster || picture_in_posts(s, group, r) {
            None
        } else {
            Some("unrequested_resource"@)
        },
    }
}

/// Why a resource is not taken from another device.
pub open spec fn admission_fault(
    s: StateModel,
    member: Option<(Text, Text)>,
    group: Text,
    membership: Text,
    r: ResourceModel,
    offered: Option<VersionModel>,
    in_roster: bool,
    space: u128,
) -> Option<Text> {
    if !is_resource(r) {
        Some("invalid_resource"@)
    } else if offered matches Some(p) && !is_version(p) {
        Some("invalid_post"@)
    } else if fence_fault(member, group, membership) is Some {
        fence_fault(member, group, membership)
    } else if request_fault(s, group, r, offered, in_roster) is Some {
        request_fault(s, group, r, offered, in_roster)
    } else if space < r.size {
        Some("insufficient_space"@)
    } else {
        None
    }
}

fn check_request(state: &SyncState, group: &str, resource: &Resource, offered: &Option<PostVersion>, in_roster: bool) -> (r:
    Result<(), String>)
    requires
        state.wf(),
    ensures
        fault_of(r) == request_fault(state@, group@, resource@, opt_version(*offered), in_roster),
{
    match &resource.identity {
        ResourceKind::Post { thread_id, post_id, version_id } => {
            match require_shared(state, group, thread_id, post_id, version_id) {
                Ok(_) => {},
                Err(e) => {
                    return Err(e);
                },
            }
            let asked = match offered {
                Some(p) => p.resource().is_same(resource),
                None => false,
            };
            if !asked {
                return Err(own("unrequested_resource"));
            }
            Ok(())
        },
        ResourceKind::Attachment { thread_id, post_id, version_id, attachment_id } => {
            match require_shared(state, group, thread_id, post_id, version_id) {
                Ok(_) => {},
                Err(e) => {
                    return Err(e);
                },
            }
            match state.row(post_id, version_id) {
                Some(row) => match &row.descriptor {
                    Some(p) => {
                        if find_attachment(p, attachment_id, resource).is_none() {
                            return Err(own("unrequested_resource"));
                        }
                        Ok(())
                    },
                    None => Err(own("missing_post_body")),
                },
                None => Err(own("missing_post_body")),
            }
        },
        ResourceKind::Avatar { .. } => {
            if !avatar_allowed(state, group, resource, in_roster) {
                return Err(own("unrequested_resource"));
            }
            Ok(())
        },
    }
}

/// There is room for so many bytes.
pub fn ensure_space(available: u128, size: u64) -> (r: Result<(), String>)
    ensures
        r is Ok == (available >= size),
        r matches Err(e) ==> e@ == "insufficient_space"@,
{
    if available < size as u128 {
        return Err(own("insufficient_space"));
    }
    Ok(())
}

/// Before a resource is received: it must be one that was asked for, and there
/// must be room for it.
pub fn prepare_receive(
    state: &SyncState,
    member: &Option<Membership>,
    fence: &GroupFence,
    resource: &Resource,
    offered: &Option<PostVersion>,
    in_roster: bool,
    available: u128,
) -> (r: Result<(), String>)
    requires
        state.wf(),
    ensures
        fault_of(r) == admission_fault(
            state@,
            member_pair(*member),
            fence.group_id@,
            fence.membership_id@,
            resource@,
            opt_version(*offered),
            in_roster,
            available,
        ),
{
    if !resource.valid() {
        return Err(own("invalid_resource"));
    }
    if let Some(p) = offered {
        if !p.valid() {
            return Err(own("invalid_post"));
        }
    }
    match check_fence(member, fence) {
        Ok(_) => {},
        Err(e) => {
            return Err(e);
        },
    }
    match check_request(state, &fence.group_id, resource, offered, in_roster) {
        Ok(_) => {},
        Err(e) => {
            return Err(e);
        },
    }
    ensure_space(available, resource.size_bytes)
}

// ------------------------------------------------------------------- serving

/// The files that may hold a resource, as they are now.
pub struct SourceSight {
    /// The resident post, and the extra version.
    pub resident: Option<FileStamp>,
    pub versioned: Option<FileStamp>,
    /// The attachment of the resident post, and of the extra version.
    pub resident_file: Option<FileStamp>,
    pub versioned_file: Option<FileStamp>,
    pub picture: Option<FileStamp>,
}

pub open spec fn shared_with(s: StateModel, group: Option<Text>, thread: Text) -> bool {
    group matches Some(g) ==> shared_in(s, g, thread)
}

/// A picture that a version may give away: its file is the one that was
/// checked.
pub open spec fn gives_picture(
    s: StateModel,
    group: Option<Text>,
    row: RowModel,
    observed: Option<FileStamp>,
    r: ResourceModel,
) -> bool {
    &&& shared_with(s, group, row.thread_id)
    &&& !suppressed(s, row.thread_id, row.post_id, row.version_id)
    &&& row.avatar_stamp == observed
    &&& row.descriptor matches Some(p) && picture_of(p) == Some(r)
}

pub open spec fn some_gives_picture(s: StateModel, group: Option<Text>, observed: Option<FileStamp>, r: ResourceModel) -> bool {
    exists|k: Parts| #[trigger] s.ledger.contains_key(k) && gives_picture(s, group, s.ledger[k], observed, r)
}

pub open spec fn key_fault(post: Text, version: Text) -> Option<Text> {
    if !is_safe_id(post) {
        Some("invalid_id"@)
    } else if !is_hash(version) {
        Some("invalid_hash"@)
    } else {
        None
    }
}

/// The row of a version that may be given away.
pub open spec fn served_row(
    s: StateModel,
    group: Option<Text>,
    thread: Text,
    post: Text,
    version: Text,
) -> Result<RowModel, Text> {
    let k = tkey(version_key(post, version));
    if !shared_with(s, group, thread) || suppressed(s, thread, post, version) {
        Err("resource_not_shared"@)
    } else if key_fault(post, version) is Some {
        Err(key_fault(post, version)->0)
    } else if !s.ledger.contains_key(k) || s.ledger[k].thread_id != thread || s.ledger[k].descriptor is None {
        Err("resource_not_registered"@)
    } else {
        Ok(s.ledger[k])
    }
}

/// The place of an attachment's file, if it is the one that was checked.
pub open spec fn served_attachment(
    thread: Text,
    row: RowModel,
    at: LocationModel,
    id: Text,
    r: ResourceModel,
    sight: SourceSight,
) -> Result<Text, Text> {
    let p = row.descriptor->0;
    if !declares(p, id, r) {
        Err("resource_not_registered"@)
    } else if !row.attachments.contains_key(tkey(id)) || !row.attachments[tkey(id)].verified
        || row.attachments[tkey(id)].stamp is None {
        Err("resource_unavailable"@)
    } else {
        let a = p.attachments[first_declared(p, id, r)];
        let now = if at.extra is Some {
            sight.versioned_file
        } else {
            sight.resident_file
        };
        match checked_attachment(thread, at.post, at.extra, a) {
            Err(e) => Err(e),
            Ok(path) => if now != row.attachments[tkey(id)].stamp {
                Err("resource_changed"@)
            } else {
                Ok(path)
            },
        }
    }
}

/// The first of a version's attachments that is this resource.
pub open spec fn first_declared(p: VersionModel, id: Text, r: ResourceModel) -> int {
    choose|i: int| declares_at(p, id, r, i) && forall|j: int| 0 <= j < i ==> !#[trigger] declares_at(p, id, r, j)
}

/// The file of a resource that may be given away, or why it may not.
pub open spec fn source_of(s: StateModel, group: Option<Text>, r: ResourceModel, sight: SourceSight) -> Result<Text, Text> {
    match r.identity {
        KindModel::Post { thread_id, post_id, version_id } => match served_row(s, group, thread_id, post_id, version_id) {
            Err(e) => Err(e),
            Ok(row) => match located(row, sight.resident, sight.versioned) {
                None => Err("resource_changed"@),
                Some(at) => if post_resource(row.descriptor->0) == r {
                    checked_post(thread_id, at.post, at.extra)
                } else {
                    Err("resource_not_registered"@)
                },
            },
        },
        KindModel::Attachment { thread_id, post_id, version_id, attachment_id } => match served_row(
            s,
            group,
            thread_id,
            post_id,
            version_id,
        ) {
            Err(e) => Err(e),
            Ok(row) => match located(row, sight.resident, sight.versioned) {
                None => Err("resource_changed"@),
                Some(at) => served_attachment(thread_id, row, at, attachment_id, r, sight),
            },
        },
        KindModel::Avatar { sha256, ext } => if sight.picture is None {
            Err("resource_unavailable"@)
        } else if some_gives_picture(s, group, sight.picture, r) {
            Ok(avatar_path(sha256, ext))
        } else {
            Err("resource_not_registered"@)
        },
    }
}

pub open spec fn opt_group(g: Option<&str>) -> Option<Text> {
    match g {
        Some(x) => Some(x@),
        None => None,
    }
}

fn is_shared_with(state: &SyncState, group: Option<&str>, thread: &str) -> (r: bool)
    requires
        state.wf(),
    ensures
        r == shared_with(state@, opt_group(group), thread@),
{
    match group {
        Some(g) => state.shared_in(g, thread),
        None => true,
    }
}

pub open spec fn row_ref_result(r: Result<&LedgerEntry, String>) -> Result<RowModel, Text> {
    match r {
        Ok(x) => Ok(x@),
        Err(e) => Err(e@),
    }
}

fn serve_row<'a>(state: &'a SyncState, group: Option<&str>, thread: &str, post: &str, version: &str) -> (r: Result<
    &'a LedgerEntry,
    String,
>)
    requires
        state.wf(),
    ensures
        row_ref_result(r) == served_row(state@, opt_group(group), thread@, post@, version@),
        r matches Ok(x) ==> x.wf() && x.descriptor is Some,
{
    if !is_shared_with(state, group, thread) || state.suppressed(thread, post, version) {
        return Err(own("resource_not_shared"));
    }
    if !safe_id(post) {
        return Err(own("invalid_id"));
    }
    if !valid_hash(version) {
        return Err(own("invalid_hash"));
    }
    match state.row(post, version) {
        Some(row) => if same(&row.thread_id, thread) && row.descriptor.is_some() {
            Ok(row)
        } else {
            Err(own("resource_not_registered"))
        },
        None => Err(own("resource_not_registered")),
    }
}

fn gives(state: &SyncState, group: Option<&str>, observed: Option<FileStamp>, resource: &Resource) -> (r: bool)
    requires
        state.wf(),
    ensures
        r == some_gives_picture(state@, opt_group(group), observed, resource@),
{
    let v = &state.ledger.entries;
    let ghost g = opt_group(group);
    let mut i: usize = 0;
    while i < v.len()
        invariant
            state.wf(),
            v == state.ledger.entries,
            g == opt_group(group),
            i <= v@.len(),
            forall|j: int| 0 <= j < i ==> !gives_picture(state@, g, (#[trigger] v@[j]).1@, observed, resource@),
        decreases v@.len() - i,
    {
        let row = &v[i].1;
        let found = is_shared_with(state, group, &row.thread_id) && !state.suppressed(
            &row.thread_id,
            &row.post_id,
            &row.version_id,
        ) && same_stamp(&row.avatar_stamp, &observed) && (match &row.descriptor {
            Some(p) => same_picture(p, resource),
            None => false,
        });
        assert(found == gives_picture(state@, g, row@, observed, resource@));
        if found {
            proof {
                lemma_at(state.ledger, i as int);
                assert(state@.ledger.contains_key(tkey(v@[i as int].0@)));
            }
            return true;
        }
        i += 1;
    }
    proof {
        if some_gives_picture(state@, g, observed, resource@) {
            let k = choose|k: Parts|
                #[trigger] state@.ledger.contains_key(k) && gives_picture(
                    state@,
                    g,
                    state@.ledger[k],
                    observed,
                    resource@,
                );
            let j = lemma_found(state.ledger, k);
            assert(!gives_picture(state@, g, v@[j].1@, observed, resource@));
        }
    }
    false
}

pub proof fn lemma_first_declared(p: VersionModel, id: Text, r: ResourceModel, i: int)
    requires
        declares_at(p, id, r, i),
        forall|j: int| 0 <= j < i ==> !#[trigger] declares_at(p, id, r, j),
    ensures
        first_declared(p, id, r) == i,
{
    let c = first_declared(p, id, r);
    assert(declares_at(p, id, r, c));
    if c < i {
        assert(!declares_at(p, id, r, c));
    } else if i < c {
        assert(!declares_at(p, id, r, i));
    }
}

fn serve_attachment(thread: &str, row: &LedgerEntry, at: &PostLocation, id: &str, resource: &Resource, sight: &SourceSight) -> (r:
    Result<String, String>)
    requires
        row.wf(),
        row.descriptor is Some,
    ensures
        path_result(r) == served_attachment(thread@, row@, at@, id@, resource@, *sight),
{
    match &row.descriptor {
        Some(p) => {
            let i = match find_attachment(p, id, resource) {
                Some(i) => i,
                None => {
                    return Err(own("resource_not_registered"));
                },
            };
            proof {
                lemma_first_declared(p@, id@, resource@, i as int);
            }
            let a = &p.attachments[i];
            assert(p@.attachments[i as int] == a@);
            let stored = match row.attachments.get(&own(id)) {
                Some(s) => s,
                None => {
                    return Err(own("resource_unavailable"));
                },
            };
            assert(row@.attachments[tkey(id@)] == stored@);
            if !stored.verified || stored.stamp.is_none() {
                return Err(own("resource_unavailable"));
            }
            let path = match attachment_relative(thread, &at.post, &at.extra, a) {
                Ok(p) => p,
                Err(e) => {
                    return Err(e);
                },
            };
            let now = if at.extra.is_some() {
                sight.versioned_file
            } else {
                sight.resident_file
            };
            if !same_stamp(&now, &stored.stamp) {
                return Err(own("resource_changed"));
            }
            Ok(path)
        },
        None => Err(own("resource_not_registered")),
    }
}

/// The file of a registered resource. No path of another device ever gets
/// here: what it asks for is named by what it is.
pub fn source_in(state: &SyncState, group: Option<&str>, resource: &Resource, sight: &SourceSight) -> (r: Result<
    String,
    String,
>)
    requires
        state.wf(),
    ensures
        path_result(r) == source_of(state@, opt_group(group), resource@, *sight),
{
    match &resource.identity {
        ResourceKind::Post { thread_id, post_id, version_id } => {
            let row = match serve_row(state, group, thread_id, post_id, version_id) {
                Ok(row) => row,
                Err(e) => {
                    return Err(e);
                },
            };
            let at = match locate_row(row, sight.resident, sight.versioned) {
                Some(at) => at,
                None => {
                    return Err(own("resource_changed"));
                },
            };
            let asked = match &row.descriptor {
                Some(p) => p.resource().is_same(resource),
                None => false,
            };
            if !asked {
                return Err(own("resource_not_registered"));
            }
            at.relative(thread_id)
        },
        ResourceKind::Attachment { thread_id, post_id, version_id, attachment_id } => {
            let row = match serve_row(state, group, thread_id, post_id, version_id) {
                Ok(row) => row,
                Err(e) => {
                    return Err(e);
                },
            };
            let at = match locate_row(row, sight.resident, sight.versioned) {
                Some(at) => at,
                None => {
                    return Err(own("resource_changed"));
                },
            };
            serve_attachment(thread_id, row, &at, attachment_id, resource, sight)
        },
        ResourceKind::Avatar { sha256, ext } => {
            if sight.picture.is_none() {
                return Err(own("resource_unavailable"));
            }
            if !gives(state, group, sight.picture, resource) {
                return Err(own("resource_not_registered"));
            }
            let mut p = plus3("avatars/", sha256, ".");
            p.append(ext);
            Ok(p)
        },
    }
}

/// What an authenticated device of the group may be given.
pub open spec fn given(
    s: StateModel,
    member: Option<(Text, Text)>,
    group: Text,
    membership: Text,
    r: ResourceModel,
    sight: SourceSight,
) -> Result<Text, Text> {
    if !is_resource(r) {
        Err("invalid_resource"@)
    } else if fence_fault(member, group, membership) is Some {
        Err(fence_fault(member, group, membership)->0)
    } else {
        source_of(s, Some(group), r, sight)
    }
}

pub fn source(
    state: &SyncState,
    member: &Option<Membership>,
    fence: &GroupFence,
    resource: &Resource,
    sight: &SourceSight,
) -> (r: Result<String, String>)
    requires
        state.wf(),
    ensures
        path_result(r) == given(
            state@,
            member_pair(*member),
            fence.group_id@,
            fence.membership_id@,
            resource@,
            *sight,
        ),
{
    if !resource.valid() {
        return Err(own("invalid_resource"));
    }
    match check_fence(member, fence) {
        Ok(_) => {},
        Err(e) => {
            return Err(e);
        },
    }
    source_in(state, Some(fence.group_id.as_str()), resource, sight)
}

// ---------------------------------------------------------------------- laws

/// Nothing is given away that is deleted, not shared with the group, or other
/// than what was asked for.
pub proof fn only_shared_posts_are_given(
    s: StateModel,
    member: Option<(Text, Text)>,
    group: Text,
    membership: Text,
    r: ResourceModel,
    sight: SourceSight,
    thread: Text,
    post: Text,
    version: Text,
)
    requires
        r.identity == (KindModel::Post { thread_id: thread, post_id: post, version_id: version }),
        given(s, member, group, membership, r, sight) is Ok,
    ensures
        member == Some((group, membership)),
        shared_in(s, group, thread),
        !suppressed(s, thread, post, version),
        s.ledger.contains_key(tkey(version_key(post, version))),
        post_resource(s.ledger[tkey(version_key(post, version))].descriptor->0) == r,
{
}

/// Nothing is taken into a deleted thread, nor into one that is not shared.
pub proof fn nothing_deleted_is_taken(
    s: StateModel,
    member: Option<(Text, Text)>,
    group: Text,
    membership: Text,
    r: ResourceModel,
    offered: Option<VersionModel>,
    in_roster: bool,
    space: u128,
    thread: Text,
    post: Text,
    version: Text,
)
    requires
        r.identity == (KindModel::Post { thread_id: thread, post_id: post, version_id: version }),
        suppressed(s, thread, post, version) || !shared_in(s, group, thread),
    ensures
        admission_fault(s, member, group, membership, r, offered, in_roster, space) is Some,
{
}

/// After a device has left its group, or joined it anew, nothing of the former
/// membership's exchange goes on.
pub proof fn a_left_group_gets_nothing(
    s: StateModel,
    member: Option<(Text, Text)>,
    group: Text,
    membership: Text,
    r: ResourceModel,
    sight: SourceSight,
)
    requires
        member != Some((group, membership)),
    ensures
        given(s, member, group, membership, r, sight) is Err,
{
}

/// A group gets nothing of a thread that is not shared with it, and nothing
/// that is deleted; each has its own answer.
pub proof fn a_group_has_what_is_shared_with_it(s: StateModel, group: Text, thread: Text, post: Text, version: Text)
    ensures
        sharing_fault(s, group, thread, post, version) is None <==> shared_in(s, group, thread) && !suppressed(
            s,
            thread,
            post,
            version,
        ),
        !shared_in(s, group, thread) ==> sharing_fault(s, group, thread, post, version) == Some("resource_not_shared"@),
        shared_in(s, group, thread) && suppressed(s, thread, post, version) ==> sharing_fault(
            s,
            group,
            thread,
            post,
            version,
        ) == Some("resource_deleted"@),
{
}

/// An exchange goes on only under the membership it began with.
pub proof fn an_exchange_belongs_to_its_membership(member: Option<(Text, Text)>, group: Text, membership: Text)
    ensures
        fence_fault(member, group, membership) is None <==> (member matches Some(m) && m.0 == group && m.1 == membership),
        fence_fault(member, group, membership) is Some ==> fence_fault(member, group, membership) == Some(
            "group_context_changed"@,
        ),
{
}

/// A post is taken exactly if it is the version that was offered, in a thread
/// that is shared and not deleted, the membership stands and there is room.
pub proof fn an_offered_post_is_taken(
    s: StateModel,
    member: Option<(Text, Text)>,
    group: Text,
    membership: Text,
    p: VersionModel,
    in_roster: bool,
    space: u128,
)
    requires
        is_version(p),
        is_resource(post_resource(p)),
    ensures
        admission_fault(s, member, group, membership, post_resource(p), Some(p), in_roster, space) is None <==> {
            &&& member == Some((group, membership))
            &&& shared_in(s, group, p.thread_id)
            &&& !suppressed(s, p.thread_id, p.post_id, p.version_id)
            &&& p.size <= space
        },
        admission_fault(s, member, group, membership, post_resource(p), None, in_roster, space) is Some,
{
}

/// An attachment is taken exactly if the version that is here declares it, in a
/// thread that is shared and not deleted, the membership stands and there is
/// room.
pub proof fn a_declared_attachment_is_taken(
    s: StateModel,
    member: Option<(Text, Text)>,
    group: Text,
    membership: Text,
    p: VersionModel,
    i: int,
    space: u128,
)
    requires
        0 <= i < p.attachments.len(),
        is_resource(attachment_resource(p, p.attachments[i])),
        s.ledger.contains_key(tkey(version_key(p.post_id, p.version_id))),
        s.ledger[tkey(version_key(p.post_id, p.version_id))].descriptor == Some(p),
    ensures
        admission_fault(
            s,
            member,
            group,
            membership,
            attachment_resource(p, p.attachments[i]),
            None,
            false,
            space,
        ) is None <==> {
            &&& member == Some((group, membership))
            &&& shared_in(s, group, p.thread_id)
            &&& !suppressed(s, p.thread_id, p.post_id, p.version_id)
            &&& p.attachments[i].size <= space
        },
{
    assert(declares_at(p, p.attachments[i].id, attachment_resource(p, p.attachments[i]), i));
}

/// A registered post that is shared and not deleted is given from where it
/// lies unchanged: among the posts, or in the directory of its version. A post
/// whose files changed is not given.
pub proof fn a_shared_post_is_given_from_its_place(
    s: StateModel,
    member: Option<(Text, Text)>,
    group: Text,
    membership: Text,
    p: VersionModel,
    sight: SourceSight,
    stamp: FileStamp,
)
    requires
        is_resource(post_resource(p)),
        member == Some((group, membership)),
        shared_in(s, group, p.thread_id),
        !suppressed(s, p.thread_id, p.post_id, p.version_id),
        s.ledger.contains_key(tkey(version_key(p.post_id, p.version_id))),
        s.ledger[tkey(version_key(p.post_id, p.version_id))].descriptor == Some(p),
        s.ledger[tkey(version_key(p.post_id, p.version_id))].thread_id == p.thread_id,
        s.ledger[tkey(version_key(p.post_id, p.version_id))].post_id == p.post_id,
        s.ledger[tkey(version_key(p.post_id, p.version_id))].version_id == p.version_id,
        s.ledger[tkey(version_key(p.post_id, p.version_id))].body_stamp == Some(stamp),
    ensures
        ({
            let r = given(s, member, group, membership, post_resource(p), sight);
            &&& sight.resident == Some(stamp) ==> r == Ok::<Text, Text>(
                crate::bbs::sync::resources::post_path(p.thread_id, p.post_id, None),
            )
            &&& sight.resident != Some(stamp) && sight.versioned == Some(stamp) ==> r == Ok::<Text, Text>(
                crate::bbs::sync::resources::post_path(p.thread_id, p.post_id, Some(p.version_id)),
            )
            &&& sight.resident != Some(stamp) && sight.versioned != Some(stamp) ==> r == Err::<Text, Text>(
                "resource_changed"@,
            )
        }),
{
}

/// An attachment is given only with the bytes that were checked: declared by a
/// shared version that is here, verified, and its file unchanged.
pub proof fn only_checked_attachments_are_given(
    s: StateModel,
    member: Option<(Text, Text)>,
    group: Text,
    membership: Text,
    r: ResourceModel,
    sight: SourceSight,
    thread: Text,
    post: Text,
    version: Text,
    id: Text,
)
    requires
        r.identity == (KindModel::Attachment {
            thread_id: thread,
            post_id: post,
            version_id: version,
            attachment_id: id,
        }),
        given(s, member, group, membership, r, sight) is Ok,
    ensures
        ({
            let row = s.ledger[tkey(version_key(post, version))];
            &&& member == Some((group, membership))
            &&& shared_in(s, group, thread)
            &&& !suppressed(s, thread, post, version)
            &&& s.ledger.contains_key(tkey(version_key(post, version)))
            &&& row.descriptor matches Some(p) && declares(p, id, r)
            &&& row.attachments.contains_key(tkey(id)) && row.attachments[tkey(id)].verified
            &&& row.attachments[tkey(id)].stamp is Some
            &&& row.attachments[tkey(id)].stamp == sight.resident_file || row.attachments[tkey(id)].stamp
                == sight.versioned_file
        }),
{
}

/// A picture is wanted exactly if the other device's directory names it or a
/// shared post that is here shows it.
pub proof fn a_shown_picture_is_wanted(s: StateModel, group: Text, r: ResourceModel, in_roster: bool, k: Parts)
    requires
        r.identity is Avatar,
    ensures
        in_roster ==> request_fault(s, group, r, None, in_roster) is None,
        s.ledger.contains_key(k) && s.ledger[k].body_stamp is Some && shared_in(s, group, s.ledger[k].thread_id)
            && !suppressed(s, s.ledger[k].thread_id, s.ledger[k].post_id, s.ledger[k].version_id) && (s.ledger[k].descriptor
            matches Some(p) && picture_of(p) == Some(r)) ==> request_fault(s, group, r, None, in_roster) is None,
        request_fault(s, group, r, None, in_roster) is None && !in_roster ==> exists|l: Parts|
            #[trigger] s.ledger.contains_key(l) && s.ledger[l].body_stamp is Some && shared_in(
                s,
                group,
                s.ledger[l].thread_id,
            ) && (s.ledger[l].descriptor matches Some(p) && picture_of(p) == Some(r)),
{
    if s.ledger.contains_key(k) && s.ledger[k].body_stamp is Some && shared_in(s, group, s.ledger[k].thread_id)
        && !suppressed(s, s.ledger[k].thread_id, s.ledger[k].post_id, s.ledger[k].version_id) && (s.ledger[k].descriptor
        matches Some(p) && picture_of(p) == Some(r)) {
        assert(shows_picture(s, group, s.ledger[k], r));
    }
}

/// A version is served only in the thread that the ledger knows it in, if it is
/// described there, shared and not deleted.
pub proof fn a_served_version_belongs_to_its_thread(
    s: StateModel,
    group: Option<Text>,
    thread: Text,
    post: Text,
    version: Text,
)
    ensures
        ({
            let k = tkey(version_key(post, version));
            served_row(s, group, thread, post, version) is Ok <==> {
                &&& (group matches Some(g) ==> shared_in(s, g, thread))
                &&& !suppressed(s, thread, post, version)
                &&& is_safe_id(post) && is_hash(version)
                &&& s.ledger.contains_key(k)
                &&& s.ledger[k].thread_id == thread
                &&& s.ledger[k].descriptor is Some
            }
        }),
        served_row(s, group, thread, post, version) matches Ok(row) ==> row == s.ledger[tkey(version_key(post, version))],
{
}

/// A picture is given if it is there as it was checked, for a post that is
/// shared, not deleted and shows it.
pub proof fn a_picture_is_given_for_a_shared_post(
    s: StateModel,
    g: Text,
    sha256: Text,
    ext: Text,
    r: ResourceModel,
    sight: SourceSight,
    k: Parts,
)
    requires
        r.identity == (KindModel::Avatar { sha256, ext }),
    ensures
        sight.picture is None ==> source_of(s, Some(g), r, sight) is Err,
        sight.picture is Some && s.ledger.contains_key(k) && s.ledger[k].avatar_stamp == sight.picture && shared_in(
            s,
            g,
            s.ledger[k].thread_id,
        ) && !suppressed(s, s.ledger[k].thread_id, s.ledger[k].post_id, s.ledger[k].version_id) && (s.ledger[k].descriptor
            matches Some(p) && picture_of(p) == Some(r)) ==> source_of(s, Some(g), r, sight) == Ok::<Text, Text>(
            "avatars/"@ + sha256 + "."@ + ext,
        ),
        source_of(s, Some(g), r, sight) is Ok ==> exists|l: Parts|
            #[trigger] s.ledger.contains_key(l) && s.ledger[l].avatar_stamp == sight.picture && shared_in(
                s,
                g,
                s.ledger[l].thread_id,
            ) && !suppressed(s, s.ledger[l].thread_id, s.ledger[l].post_id, s.ledger[l].version_id) && (
            s.ledger[l].descriptor matches Some(p) && picture_of(p) == Some(r)),
{
    if source_of(s, Some(g), r, sight) is Ok {
        let l = choose|l: Parts|
            #[trigger] s.ledger.contains_key(l) && gives_picture(s, Some(g), s.ledger[l], sight.picture, r);
        assert(s.ledger.contains_key(l) && gives_picture(s, Some(g), s.ledger[l], sight.picture, r));
    }
    if sight.picture is Some && s.ledger.contains_key(k) && s.ledger[k].avatar_stamp == sight.picture && shared_in(
        s,
        g,
        s.ledger[k].thread_id,
    ) && !suppressed(s, s.ledger[k].thread_id, s.ledger[k].post_id, s.ledger[k].version_id) && (s.ledger[k].descriptor
        matches Some(p) && picture_of(p) == Some(r)) {
        assert(gives_picture(s, Some(g), s.ledger[k], sight.picture, r));
        assert(some_gives_picture(s, Some(g), sight.picture, r));
    }
}

/// An attachment that was checked, and is still as it was, is given from beside
/// its post.
pub proof fn a_checked_attachment_is_given(
    thread: Text,
    row: RowModel,
    at: LocationModel,
    id: Text,
    r: ResourceModel,
    sight: SourceSight,
)
    requires
        row.descriptor is Some,
        declares(row.descriptor->0, id, r),
        row.attachments.contains_key(tkey(id)),
        row.attachments[tkey(id)].verified,
        row.attachments[tkey(id)].stamp is Some,
    ensures
        at.extra is None && sight.resident_file == row.attachments[tkey(id)].stamp ==> served_attachment(
            thread,
            row,
            at,
            id,
            r,
            sight,
        ) == checked_attachment(
            thread,
            at.post,
            None,
            row.descriptor->0.attachments[first_declared(row.descriptor->0, id, r)],
        ),
        at.extra is Some && sight.versioned_file == row.attachments[tkey(id)].stamp ==> served_attachment(
            thread,
            row,
            at,
            id,
            r,
            sight,
        ) == checked_attachment(
            thread,
            at.post,
            at.extra,
            row.descriptor->0.attachments[first_declared(row.descriptor->0, id, r)],
        ),
        at.extra is None && sight.resident_file != row.attachments[tkey(id)].stamp ==> served_attachment(
            thread,
            row,
            at,
            id,
            r,
            sight,
        ) is Err,
{
}

} // verus!
