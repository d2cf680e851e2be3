use base64::Engine as _;
use kota_core::bbs::mentions::Membership;
use kota_core::bbs::sync::avatars::{
    avatar_view, builtin_avatar, captured_avatar, choose_avatar, is_received, read_roster_avatar, read_verified_avatar,
    registered_extension, settle_origin, verify_roster_avatar, AvatarChoice, AvatarView, FileRead, FileSight,
    OriginSnapshot,
};
use kota_core::bbs::sync::deletions::{
    check_moved, commit_promotion, delete_item, delete_local, forget_thread, is_staging, logical_posts, needs_proof,
    observed_posts, post_leftovers, promote, prune, recovery, retire_version, Folder, FolderSight, MovedFile, Observation,
    ObservedPost, PromotionSight, Recovery,
};
use kota_core::bbs::sync::detach::{finish_detach, plan_detach, DetachStep, Moved};
use kota_core::bbs::sync::exchange::{
    avatar_allowed, check_fence, ensure_space, prepare_receive, require_shared, source, GroupFence, SourceSight,
};
use kota_core::bbs::sync::inspect::{look_through, refresh_root, Reading, VersionSight};
use kota_core::bbs::sync::install::{
    adopt_picture, check_body, commit_attachment, commit_picture, commit_post, copy_candidates, install_post, judge_copy,
    plan_copy, plan_install, received_origin, source_for_exchange, CopyPlan, InstallPlan,
};
use kota_core::bbs::sync::inventory::{
    glance, inherit_origin, locate_row, locations, rehome, validate_existing_post_relationship, verify_content, FoundHeader,
    Glance, PostLocation, ResidentEntry, VersionEntry,
};
use kota_core::bbs::sync::model::{
    AttachmentRef, AvatarSidecar, FileStamp, LedgerEntry, PostVersion, SyncState, ThreadRecord, ThreadRecordItem, Tombstone,
    UnavailablePost, UnavailableReason, MAX_BODY_BYTES, MAX_FRONTMATTER_BYTES,
};
use kota_core::bbs::sync::page::{
    apply_plan, clears_deletions, local_record, looks_through, page_roots, register_page, Applied, LocalRecord,
    ManifestPhase, MarkSight, PageAction, Parsed, Plan,
};
use kota_core::bbs::sync::refresh::{
    gather_issues, merge_scan, meta_from_record, read_record, record_from_meta, Inspected, MetaSight, Oversized,
    RecordSight, RootReport,
};
use kota_core::bbs::sync::resources::{managed, roster_avatar_path, Resource, ResourceKind, Step};
use kota_core::bbs::sync::unavailable::{
    check_marker, ineligible_file, inspect_header, inspect_relation, mark_unavailable, unavailable_views, Header,
    MarkerEntry, Marking, UnavailableView, HEADER_LIMIT,
};
use kota_core::bbs::types::{BbsAttachment, BbsPostMeta};
use kota_core::order::OrderedSet;
use kota_core::path::PathName;

const NOW: &str = "2026-09-12T12:00:00Z";

fn hash(bytes: &[u8]) -> String {
    format!("{:x}", <sha2::Sha256 as sha2::Digest>::digest(bytes))
}

fn stamp(inode: u64, len: u64) -> FileStamp {
    FileStamp { inode, len, modified: 1, modified_ns: 0, changed: 1, changed_ns: 0 }
}

fn set(list: &[&str]) -> OrderedSet<String> {
    let mut s = OrderedSet::new();
    for x in list {
        s.insert(x.to_string());
    }
    s
}

fn attachment(post: &str, bytes: &[u8]) -> BbsAttachment {
    BbsAttachment {
        id: "att-one".into(),
        name: "one.txt".into(),
        path: format!("attachments/{post}/att-one.txt"),
        size_bytes: bytes.len() as u64,
        sha256: hash(bytes),
    }
}

fn metadata(post: &str, kind: &str, attachments: Vec<BbsAttachment>) -> BbsPostMeta {
    BbsPostMeta {
        schema: "kota.bbs.post.v1".into(),
        post_id: post.into(),
        thread_id: "thread-one".into(),
        project_id: "remote-project".into(),
        agent_id: "codex".into(),
        agent_display_name: "Codex".into(),
        agent_avatar: Some("codex".into()),
        project_display_name: "Remote".into(),
        created_at: "2026-09-12T10:00:00Z".into(),
        kind: kind.into(),
        attachments,
        mentions: vec![],
    }
}

/// A post as it travels, and what its frontmatter reads.
fn raw_post(post: &str, kind: &str, body: &str, attachments: Vec<BbsAttachment>) -> (Vec<u8>, PostVersion, BbsPostMeta) {
    let raw = format!("---\npost: {post}\n---\n\n{body}\n").into_bytes();
    let refs = attachments
        .iter()
        .map(|a| AttachmentRef {
            id: a.id.clone(),
            sha256: a.sha256.clone(),
            size_bytes: a.size_bytes,
            ext: "txt".into(),
            available: false,
        })
        .collect();
    let version = PostVersion {
        thread_id: "thread-one".into(),
        post_id: post.into(),
        version_id: hash(&raw),
        size_bytes: raw.len() as u64,
        kind: kind.into(),
        attachments: refs,
        avatar: Some(AvatarSidecar::none()),
    };
    let meta = metadata(post, kind, attachments);
    (raw, version, meta)
}

fn record() -> ThreadRecord {
    ThreadRecord {
        schema: "kota.bbs.thread.v1".into(),
        thread_id: "thread-one".into(),
        status: "open".into(),
        visibility: "broadcast".into(),
        project_tags: vec![],
        created_by_project: "remote-project".into(),
        created_by_agent: "codex".into(),
        created_at: "2026-09-12T10:00:00Z".into(),
    }
}

fn item() -> ThreadRecordItem {
    ThreadRecordItem { record: record(), sha256: "1".repeat(64) }
}

fn tombstone(post: Option<&str>, version: Option<&str>) -> Tombstone {
    Tombstone {
        thread_id: "thread-one".into(),
        post_id: post.map(String::from),
        version_id: version.map(String::from),
        deleted_at: NOW.into(),
    }
}

fn whole_file(raw: &[u8], at: FileStamp) -> FileRead {
    FileRead { regular: true, before: at, bytes: raw.to_vec(), after: at, at_path: Some(at) }
}

fn nowhere() -> SourceSight {
    SourceSight { resident: None, versioned: None, resident_file: None, versioned_file: None, picture: None }
}

struct Board {
    state: SyncState,
    fence: GroupFence,
    member: Option<Membership>,
    inode: u64,
}

impl Board {
    fn new() -> Board {
        let mut state = SyncState::new();
        state.share("group-test", "thread-one");
        state.thread_records.insert("thread-one".into(), item());
        Board {
            state,
            fence: GroupFence { group_id: "group-test".into(), membership_id: "member-test".into() },
            member: Some(Membership { group_id: "group-test".into(), membership_id: "member-test".into() }),
            inode: 10,
        }
    }

    /// Receive a post: the stamp of its file, or why it is refused.
    fn receive(&mut self, p: &PostVersion, raw: &[u8], meta: &BbsPostMeta, sight: &SourceSight) -> Result<FileStamp, String> {
        self.inode += 1;
        let at = stamp(self.inode, raw.len() as u64);
        let resource = p.resource();
        let offered = Some(p.copy());
        check_body(&resource, &offered, &Ok(meta.copy()), &whole_file(raw, at))?;
        match plan_install(
            &self.state,
            &self.member,
            &self.fence,
            &resource,
            &offered,
            false,
            Some(at),
            Some(at),
            sight,
        )? {
            InstallPlan::AlreadyHere => {}
            InstallPlan::Place { .. } => {
                let origin = settle_origin(&None, &received_origin(p))?;
                commit_post(&mut self.state, p.copy(), &origin, Some(at), NOW);
            }
        }
        Ok(at)
    }

    fn row(&self, p: &PostVersion) -> &LedgerEntry {
        self.state.row(&p.post_id, &p.version_id).unwrap()
    }
}

fn resident(at: FileStamp) -> SourceSight {
    SourceSight { resident: Some(at), ..nowhere() }
}

fn observed(p: &PostVersion, meta: &BbsPostMeta, extra: bool, at: FileStamp) -> ObservedPost {
    ObservedPost {
        location: PostLocation {
            post: p.post_id.clone(),
            extra: if extra { Some(p.version_id.clone()) } else { None },
        },
        meta: meta.copy(),
        version: p.version_id.clone(),
        stamp: at,
    }
}

#[test]
fn a_received_post_is_entered_and_a_second_version_stands_beside_it() {
    let mut b = Board::new();
    let bytes = b"registered attachment";
    let (raw, first, meta) = raw_post("root", "topic", "First", vec![attachment("root", bytes)]);
    let at = b.receive(&first, &raw, &meta, &nowhere()).unwrap();
    assert_eq!(b.row(&first).body_stamp, Some(at));
    assert!(!b.row(&first).attachments.get(&"att-one".to_string()).unwrap().verified);

    let here = plan_install(
        &b.state,
        &b.member,
        &b.fence,
        &first.resource(),
        &Some(first.copy()),
        false,
        Some(at),
        Some(at),
        &resident(at),
    );
    assert!(matches!(here, Ok(InstallPlan::AlreadyHere)));

    let (fork_raw, fork, fork_meta) = raw_post("root", "topic", "Second", vec![attachment("root", bytes)]);
    let file = stamp(40, fork_raw.len() as u64);
    match plan_install(
        &b.state,
        &b.member,
        &b.fence,
        &fork.resource(),
        &Some(fork.copy()),
        false,
        Some(file),
        Some(file),
        &resident(at),
    ) {
        Ok(InstallPlan::Place { path, extra }) => {
            assert_eq!(path, format!("threads/thread-one/versions/root/{}/post.md", fork.version_id));
            assert_eq!(extra.as_deref(), Some(fork.version_id.as_str()));
        }
        _ => panic!("expected a place"),
    }
    b.receive(&fork, &fork_raw, &fork_meta, &resident(at)).unwrap();
    assert_eq!(b.state.ledger.entries.len(), 2);

    let taken = SourceSight { resident: Some(at), versioned: Some(stamp(99, 1)), ..nowhere() };
    let (_, third, _) = raw_post("root", "topic", "Third", vec![]);
    let err = plan_install(
        &b.state,
        &b.member,
        &b.fence,
        &third.resource(),
        &Some(third.copy()),
        false,
        Some(stamp(41, third.size_bytes)),
        Some(stamp(41, third.size_bytes)),
        &taken,
    );
    assert_eq!(err.err().unwrap(), "version_requires_reindex");
}

#[test]
fn a_received_attachment_can_be_copied_within_its_post_only() {
    let mut b = Board::new();
    let bytes = b"same bytes, different logical post";
    let (raw, root, meta) = raw_post("root", "topic", "existing", vec![attachment("root", bytes)]);
    let at = b.receive(&root, &raw, &meta, &nowhere()).unwrap();
    let resource = root.attachment(&root.attachments[0]);
    let file = stamp(50, bytes.len() as u64);
    match plan_install(
        &b.state,
        &b.member,
        &b.fence,
        &resource,
        &None,
        false,
        Some(file),
        None,
        &resident(at),
    ) {
        Ok(InstallPlan::Place { path, .. }) => assert_eq!(path, "threads/thread-one/attachments/root/att-one.txt"),
        _ => panic!("expected a place"),
    }
    commit_attachment(&mut b.state, "root", &root.version_id, "att-one", &resource, Some(file));
    let row = b.row(&root);
    assert!(row.attachments.get(&"att-one".to_string()).unwrap().verified);
    assert!(row.descriptor.as_ref().unwrap().attachments[0].available);
    let sight = SourceSight { resident: Some(at), resident_file: Some(file), ..nowhere() };
    assert_eq!(
        source(&b.state, &b.member, &b.fence, &resource, &sight).unwrap(),
        "threads/thread-one/attachments/root/att-one.txt"
    );
    let again = plan_install(&b.state, &b.member, &b.fence, &resource, &None, false, Some(file), None, &sight);
    assert!(matches!(again, Ok(InstallPlan::AlreadyHere)));

    let (fork_raw, fork, fork_meta) = raw_post("root", "topic", "edited", vec![attachment("root", bytes)]);
    b.receive(&fork, &fork_raw, &fork_meta, &resident(at)).unwrap();
    let target = fork.attachment(&fork.attachments[0]);
    let from = copy_candidates(&b.state, &target);
    assert_eq!(from.len(), 2);
    let own = SourceSight { resident: Some(at), versioned: Some(b.row(&fork).body_stamp.unwrap()), ..nowhere() };
    let sights: Vec<SourceSight> = from
        .iter()
        .map(|r| {
            if r.is_same(&resource) {
                SourceSight { resident: Some(at), resident_file: Some(file), ..nowhere() }
            } else {
                SourceSight { resident: Some(at), versioned: own.versioned, ..nowhere() }
            }
        })
        .collect();
    match plan_copy(&b.state, &b.member, &b.fence, &target, &own, &sights) {
        Ok(CopyPlan::From(path)) => assert_eq!(path, "threads/thread-one/attachments/root/att-one.txt"),
        _ => panic!("expected a copy"),
    }

    let (reply_raw, reply, reply_meta) = raw_post("unrelated", "reply", "other", vec![attachment("unrelated", bytes)]);
    b.receive(&reply, &reply_raw, &reply_meta, &nowhere()).unwrap();
    let target = reply.attachment(&reply.attachments[0]);
    let from = copy_candidates(&b.state, &target);
    let nothing: Vec<SourceSight> = from.iter().map(|_| nowhere()).collect();
    assert!(from.iter().all(|r| !r.is_same(&resource)));
    assert!(matches!(
        plan_copy(&b.state, &b.member, &b.fence, &target, &nowhere(), &nothing),
        Ok(CopyPlan::Missing)
    ));
    assert!(judge_copy(&target, bytes.len() as u64, bytes.len() as u64, &hash(bytes), true).is_ok());
    assert!(judge_copy(&target, bytes.len() as u64, bytes.len() as u64, &hash(b"other"), true).is_err());
    assert!(judge_copy(&target, bytes.len() as u64, bytes.len() as u64, &hash(bytes), false).is_err());
}

#[test]
fn what_does_not_fit_is_refused_before_it_is_entered() {
    let mut b = Board::new();
    let (raw, root, meta) = raw_post("root", "topic", "valid", vec![]);
    b.receive(&root, &raw, &meta, &nowhere()).unwrap();
    let (raw2, second, meta2) = raw_post("another-root", "topic", "second root", vec![]);
    assert_eq!(b.receive(&second, &raw2, &meta2, &nowhere()).err().unwrap(), "invalid_post_relationship");

    let mut bad = root.copy();
    bad.kind = "reply".into();
    assert_eq!(b.receive(&bad, &raw, &meta, &nowhere()).err().unwrap(), "invalid_post_relationship");

    let mut elsewhere = meta.copy();
    elsewhere.thread_id = "other-thread".into();
    assert_eq!(b.receive(&root, &raw, &elsewhere, &nowhere()).err().unwrap(), "invalid_post_relationship");

    let (later_raw, later, later_meta) = raw_post("reply-late", "reply", "late", vec![]);
    b.member = None;
    assert!(b.receive(&later, &later_raw, &later_meta, &nowhere()).is_err());
    assert_eq!(b.state.ledger.entries.len(), 1);

    let mut c = Board::new();
    c.state.thread_records.remove(&"thread-one".to_string());
    assert_eq!(c.receive(&later, &later_raw, &later_meta, &nowhere()).err().unwrap(), "missing_thread_record");
    let mut d = Board::new();
    d.state.groups.remove(&"group-test".to_string());
    assert!(d.receive(&later, &later_raw, &later_meta, &nowhere()).is_err());
}

#[test]
fn received_bytes_must_be_the_post_that_was_offered() {
    let (raw, p, meta) = raw_post("root", "topic", "body", vec![attachment("root", b"x")]);
    let at = stamp(1, raw.len() as u64);
    let r = p.resource();
    let offered = Some(p.copy());
    assert!(check_body(&r, &offered, &Ok(meta.copy()), &whole_file(&raw, at)).is_ok());
    let fault = |meta: &Result<BbsPostMeta, String>, f: &FileRead| check_body(&r, &offered, meta, f).err().unwrap();
    assert_eq!(check_body(&r, &None, &Ok(meta.copy()), &whole_file(&raw, at)).err().unwrap(), "missing_version_offer");
    assert_eq!(fault(&Err("no yaml".into()), &whole_file(&raw, at)), "invalid_sync_post_metadata");
    let mut changed = whole_file(&raw, at);
    changed.after = stamp(1, 7);
    assert_eq!(fault(&Ok(meta.copy()), &changed), "sync_source_changed");
    let mut huge = whole_file(&raw, stamp(1, MAX_BODY_BYTES + 1));
    huge.regular = true;
    assert_eq!(fault(&Ok(meta.copy()), &huge), "sync_source_too_large_or_not_regular");
    let other = b"---\na\n---\n\nother\n";
    assert_eq!(
        fault(&Ok(meta.copy()), &whole_file(other, stamp(1, other.len() as u64))),
        "invalid_post_relationship"
    );
    let broken = b"no frontmatter";
    assert_eq!(
        fault(&Ok(meta.copy()), &whole_file(broken, stamp(1, broken.len() as u64))),
        "invalid_sync_frontmatter"
    );
    let mut fewer = meta.copy();
    fewer.attachments.clear();
    assert_eq!(fault(&Ok(fewer), &whole_file(&raw, at)), "attachment_manifest_mismatch");
    let mut invalid = p.copy();
    invalid.avatar = None;
    assert_eq!(
        check_body(&r, &Some(invalid), &Ok(meta.copy()), &whole_file(&raw, at)).err().unwrap(),
        "invalid_post"
    );
    let (_, q, _) = raw_post("other", "reply", "body", vec![]);
    assert_eq!(
        check_body(&r, &Some(q), &Ok(meta), &whole_file(&raw, at)).err().unwrap(),
        "unrequested_resource"
    );
}

#[test]
fn a_partial_that_changed_is_not_installed() {
    let b = Board::new();
    let (raw, p, _) = raw_post("root", "topic", "bytes", vec![]);
    let at = stamp(5, raw.len() as u64);
    let plan = |partial: Option<FileStamp>, read: Option<FileStamp>| {
        plan_install(
            &b.state,
            &b.member,
            &b.fence,
            &p.resource(),
            &Some(p.copy()),
            false,
            partial,
            read,
            &nowhere(),
        )
    };
    assert!(matches!(plan(Some(at), Some(at)), Ok(InstallPlan::Place { .. })));
    assert_eq!(plan(None, Some(at)).err().unwrap(), "partial_missing");
    assert_eq!(plan(Some(stamp(5, 1)), Some(at)).err().unwrap(), "partial_changed");
    assert_eq!(plan(Some(stamp(6, raw.len() as u64)), Some(at)).err().unwrap(), "partial_changed");
}

#[test]
fn only_a_version_that_is_not_the_last_can_be_deleted_alone() {
    let mut b = Board::new();
    let (raw, first, meta) = raw_post("root", "topic", "First", vec![]);
    let (raw2, second, _) = raw_post("root", "topic", "Second", vec![]);
    let one = b.receive(&first, &raw, &meta, &nowhere()).unwrap();
    let two = b.receive(&second, &raw2, &meta, &resident(one)).unwrap();
    let posts = vec![observed(&first, &meta, false, one), observed(&second, &meta, true, two)];
    let stamps = vec![Some(one), Some(two)];
    let root = Some("root".to_string());
    delete_local(
        &mut b.state,
        "thread-one",
        &root,
        &Some(first.version_id.clone()),
        &posts,
        &stamps,
        true,
        NOW,
    )
    .unwrap();
    let keys: Vec<&str> = b.state.tombstones.entries.iter().map(|e| e.0.as_str()).collect();
    assert_eq!(keys, vec![format!("version:thread-one/root/{}", first.version_id)]);
    assert!(b.receive(&first, &raw, &meta, &nowhere()).is_err());

    let left = vec![observed(&second, &meta, true, two)];
    for (version, error) in [
        (Some("bad-version".to_string()), None),
        (Some(first.version_id.clone()), None),
        (Some(second.version_id.clone()), Some("last_version_use_logical_delete")),
    ] {
        let r = delete_local(&mut b.state, "thread-one", &root, &version, &left, &vec![Some(two)], true, NOW);
        assert!(r.is_err());
        if let Some(e) = error {
            assert_eq!(r.err().unwrap(), e);
        }
    }

    // The survivor takes the place of the deleted version.
    let mut done = OrderedSet::new();
    let free = PromotionSight {
        resident: None,
        body: Some(two),
        source: FolderSight::Missing,
        target_there: false,
        moved_intact: false,
    };
    assert_eq!(promote(&b.state, &mut done, "thread-one", &left[0], &free), Ok(Some(Folder::Keep)));
    assert_eq!(promote(&b.state, &mut done, "thread-one", &left[0], &free), Ok(None));
    commit_promotion(&mut b.state, "root", &second.version_id, Some(stamp(77, two.len)));
    assert_eq!(b.row(&second).body_stamp, Some(stamp(77, two.len)));

    // A deletion from elsewhere takes even the last one.
    let page = Parsed {
        deletions: vec![tombstone(Some("root"), Some(&second.version_id))],
        threads: vec![],
        posts: vec![],
        unavailable_posts: vec![],
    };
    register_page(&mut b.state, "group-test", &page).unwrap();
    assert!(b.state.suppressed("thread-one", "root", &second.version_id));
    assert!(!b.state.logical_deleted("thread-one", "root"));
    assert!(!b.state.thread_deleted("thread-one"));
}

fn written_steps(steps: &[DetachStep]) -> Vec<String> {
    steps
        .iter()
        .map(|step| match step {
            DetachStep::Retire(path) => format!("retire {path}"),
            DetachStep::Unlist => "unlist".to_string(),
            DetachStep::MoveAttachments { from, to } => format!("attachments {from} to {to}"),
            DetachStep::MovePost { from, to, .. } => format!("post {from} to {to}"),
        })
        .collect()
}

#[test]
fn a_surviving_version_moves_into_the_place_of_a_deleted_one() {
    let mut b = Board::new();
    let (raw, first, meta) = raw_post("root", "topic", "First", vec![]);
    let (raw2, second, _) = raw_post("root", "topic", "Second", vec![]);
    let one = b.receive(&first, &raw, &meta, &nowhere()).unwrap();
    let two = b.receive(&second, &raw2, &meta, &resident(one)).unwrap();
    let posts = vec![observed(&first, &meta, false, one), observed(&second, &meta, true, two)];
    let sight = |resident: Option<FileStamp>, body: FileStamp, source: FolderSight| PromotionSight {
        resident,
        body: Some(body),
        source,
        target_there: false,
        moved_intact: false,
    };
    let sights = |source: FolderSight| {
        vec![sight(Some(one), one, FolderSight::Missing), sight(Some(one), two, source)]
    };
    let idle = plan_detach(&b.state, "thread-one", &posts, &sights(FolderSight::Directory));
    assert!(idle.steps.is_empty() && idle.fault.is_none());

    let root = Some("root".to_string());
    let version = Some(first.version_id.clone());
    let stamps = vec![Some(one), Some(two)];
    delete_local(&mut b.state, "thread-one", &root, &version, &posts, &stamps, true, NOW).unwrap();
    let plan = plan_detach(&b.state, "thread-one", &posts, &sights(FolderSight::Directory));
    let extra = format!("threads/thread-one/versions/root/{}", second.version_id);
    let retired = [
        "retire threads/thread-one/posts/root.md".to_string(),
        "retire threads/thread-one/attachments/root".to_string(),
        format!("retire threads/thread-one/sidecars/root/{}.json", first.version_id),
    ];
    let steps = written_steps(&plan.steps);
    assert_eq!(steps[..3], retired);
    assert_eq!(
        steps[3..],
        [
            "retire threads/thread-one/attachments/root".to_string(),
            format!("attachments {extra}/attachments to threads/thread-one/attachments/root"),
            format!("post {extra}/post.md to threads/thread-one/posts/root.md"),
        ]
    );
    assert_eq!(plan.fault, None);

    let stopped = plan_detach(&b.state, "thread-one", &posts, &sights(FolderSight::Unsafe));
    assert_eq!(written_steps(&stopped.steps), retired);
    assert_eq!(stopped.fault.as_deref(), Some("unsafe_sync_path"));

    let moved = Moved {
        post: "root".into(),
        version: second.version_id.clone(),
        stamp: Some(stamp(77, two.len)),
    };
    finish_detach(&mut b.state, "thread-one", &vec![moved]);
    assert_eq!(b.row(&second).body_stamp, Some(stamp(77, two.len)));
    assert!(b.state.row("root", &first.version_id).is_none());

    delete_item(&mut b.state, "thread-one", &None, &None, &vec![], &vec![], true).unwrap();
    let whole = plan_detach(&b.state, "thread-one", &vec![], &vec![]);
    assert_eq!(written_steps(&whole.steps), ["retire threads/thread-one", "unlist"]);
    finish_detach(&mut b.state, "thread-one", &vec![]);
    assert!(b.state.ledger.is_empty());
    assert_eq!(plan_detach(&b.state, "../x", &vec![], &vec![]).fault.as_deref(), Some("invalid_id"));
}

#[test]
fn deleting_a_topic_deletes_its_thread() {
    let mut b = Board::new();
    let (raw, root, meta) = raw_post("root", "topic", "root", vec![]);
    let (reply_raw, reply, reply_meta) = raw_post("reply", "reply", "reply", vec![]);
    let one = b.receive(&root, &raw, &meta, &nowhere()).unwrap();
    let two = b.receive(&reply, &reply_raw, &reply_meta, &nowhere()).unwrap();
    let posts = vec![observed(&root, &meta, false, one), observed(&reply, &reply_meta, false, two)];
    let stamps = vec![Some(one), Some(two)];
    delete_item(&mut b.state, "thread-one", &Some("reply".into()), &None, &posts, &stamps, true).unwrap();
    assert!(b.state.logical_deleted("thread-one", "reply"));
    assert!(!b.state.thread_deleted("thread-one"));
    assert_eq!(recovery(&b.state, "thread-one"), Recovery::Parts);
    let whole = logical_posts(&b.state, "thread-one");
    assert!(whole.has(&"reply".to_string()) && !whole.has(&"root".to_string()));
    assert_eq!(post_leftovers("thread-one", "reply").unwrap()[0], "threads/thread-one/posts/reply.md");
    prune(&mut b.state, "thread-one", &whole);
    assert!(b.state.row("reply", &reply.version_id).is_none());
    assert!(b.state.row("root", &root.version_id).is_some());

    delete_item(&mut b.state, "thread-one", &Some("root".into()), &None, &posts, &stamps, true).unwrap();
    assert!(b.state.thread_deleted("thread-one"));
    assert_eq!(recovery(&b.state, "thread-one"), Recovery::Whole);
    forget_thread(&mut b.state, "thread-one");
    assert!(b.state.ledger.is_empty());
    assert_eq!(recovery(&b.state, "thread-two"), Recovery::Nothing);
    assert!(delete_item(&mut b.state, "thread-two", &None, &None, &vec![], &vec![], false).is_err());
}

#[test]
fn only_the_files_of_the_version_that_was_read_are_retired() {
    let mut b = Board::new();
    let (raw, p, meta) = raw_post("root", "topic", "x", vec![]);
    let at = b.receive(&p, &raw, &meta, &nowhere()).unwrap();
    b.state.bury(tombstone(Some("root"), Some(&p.version_id)));
    let o = observed(&p, &meta, false, at);
    let none = OrderedSet::new();
    assert_eq!(
        retire_version(&b.state, "thread-one", &none, &o, Some(at)).unwrap(),
        vec![
            "threads/thread-one/posts/root.md".to_string(),
            "threads/thread-one/attachments/root".to_string(),
            format!("threads/thread-one/sidecars/root/{}.json", p.version_id),
        ]
    );
    assert!(retire_version(&b.state, "thread-one", &none, &o, Some(stamp(0, 0))).unwrap().is_empty());
    assert!(retire_version(&b.state, "thread-one", &set(&["root"]), &o, Some(at)).unwrap().is_empty());
}

#[test]
fn a_promotion_checks_what_an_interrupted_one_has_moved() {
    let mut b = Board::new();
    let bytes = b"verified";
    let (raw, first, meta1) = raw_post("root", "topic", "first", vec![]);
    let (raw2, second, meta2) = raw_post("root", "topic", "second", vec![attachment("root", bytes)]);
    let one = b.receive(&first, &raw, &meta1, &nowhere()).unwrap();
    let two = b.receive(&second, &raw2, &meta2, &resident(one)).unwrap();
    b.state.bury(tombstone(Some("root"), Some(&first.version_id)));
    let p = observed(&second, &meta2, true, two);
    assert!(needs_proof(&b.state, "thread-one", &p, false, true));
    assert!(!needs_proof(&b.state, "thread-one", &p, true, true));
    let read = |bytes: &[u8], unchanged: bool| Reading {
        observed: Some(stamp(3, bytes.len() as u64)),
        total: bytes.len() as u64,
        hash: hash(bytes),
        unchanged,
    };
    let file = |name: &str, read: Result<Reading, String>| MovedFile { name: name.into(), read };
    let check = |files: Vec<MovedFile>| check_moved(&meta2, &files);
    assert_eq!(check(vec![file("att-one.txt", Ok(read(bytes, true)))]), Ok(Some(vec![stamp(3, 8)])));
    assert_eq!(check(vec![]), Ok(Some(vec![])));
    assert_eq!(check(vec![file("att-one.txt", Ok(read(b"another!", true)))]), Ok(None));
    assert_eq!(check(vec![file("att-one.txt", Ok(read(b"short", true)))]), Ok(None));
    assert_eq!(check(vec![file("att-one.txt", Ok(read(bytes, false)))]), Err("source_changed".into()));
    assert_eq!(check(vec![file("att-one.txt", Err("denied".into()))]), Err("denied".into()));
    assert_eq!(check(vec![file("stranger.txt", Ok(read(bytes, true)))]), Ok(None));
    let both = vec![file("stranger.txt", Err("denied".into())), file("att-one.txt", Err("denied".into()))];
    assert_eq!(check(both), Ok(None));
    let sight = |source: FolderSight, target_there: bool, moved_intact: bool| PromotionSight {
        resident: None,
        body: Some(two),
        source,
        target_there,
        moved_intact,
    };
    let go = |s: PromotionSight| promote(&b.state, &mut OrderedSet::new(), "thread-one", &p, &s);
    assert_eq!(go(sight(FolderSight::Missing, true, true)), Ok(Some(Folder::Keep)));
    assert_eq!(go(sight(FolderSight::Missing, true, false)), Ok(Some(Folder::Retire)));
    assert_eq!(go(sight(FolderSight::Directory, true, false)), Ok(Some(Folder::Replace)));
    assert_eq!(go(sight(FolderSight::Unsafe, true, false)).err().unwrap(), "unsafe_sync_path");
    let occupied = PromotionSight { resident: Some(one), ..sight(FolderSight::Missing, false, false) };
    assert_eq!(go(occupied), Ok(None));
}

#[test]
fn posts_are_observed_only_while_their_files_hold_still() {
    let (raw, p, meta) = raw_post("root", "topic", "x", vec![]);
    let at = stamp(1, raw.len() as u64);
    let look = |before: Option<FileStamp>, read: bool, after: Option<FileStamp>| Observation {
        location: PostLocation { post: "root".into(), extra: None },
        before,
        read: if read { Some((meta.copy(), p.version_id.clone())) } else { None },
        after,
    };
    assert_eq!(observed_posts("thread-one", vec![look(Some(at), true, Some(at))]).unwrap().len(), 1);
    assert!(observed_posts("thread-one", vec![look(Some(at), true, Some(stamp(2, 2)))]).is_err());
    assert!(observed_posts("thread-one", vec![look(Some(at), false, Some(at))]).unwrap().is_empty());
    assert!(observed_posts("thread-two", vec![look(Some(at), true, Some(at))]).unwrap().is_empty());
}

#[test]
fn only_own_leftovers_are_taken_for_staging_files() {
    assert!(is_staging(".receive-67e55044-10b1-426f-9247-bb680e5fe0c8.partial"));
    assert!(is_staging(".removed-67e55044-10b1-426f-9247-bb680e5fe0c8"));
    assert!(!is_staging("user-recovery.partial"));
    assert!(!is_staging(".receive-67E55044-10B1-426F-9247-BB680E5FE0C8.partial"));
    assert!(!is_staging(".receive-67e5504410b1426f9247bb680e5fe0c8.partial"));
    assert!(!is_staging(".receive-x.partial"));
}

fn notice(post: &str, kind: Option<&str>) -> UnavailablePost {
    UnavailablePost {
        thread_id: "thread-one".into(),
        post_id: post.into(),
        reason: UnavailableReason::TooLargeToSync,
        kind: kind.map(String::from),
    }
}

fn marker(post: &str, kind: Option<&str>) -> UnavailableView {
    UnavailableView {
        post_id: post.into(),
        reason: UnavailableReason::TooLargeToSync,
        kind: kind.map(String::from),
    }
}

#[test]
fn the_kind_of_a_marker_is_only_refined() {
    let b = Board::new();
    let mark = |kind: Option<&str>, old: Option<UnavailableView>| {
        mark_unavailable(&b.state, &notice("missing", kind), &vec![], &Ok(old)).unwrap()
    };
    assert!(matches!(mark(None, None), Marking::Write(v) if v.kind.is_none()));
    assert!(
        matches!(mark(Some("reply"), Some(marker("missing", None))), Marking::Write(v) if v.kind.as_deref() == Some("reply"))
    );
    assert!(matches!(mark(None, Some(marker("missing", Some("reply")))), Marking::Nothing));
    match mark(Some("topic"), Some(marker("missing", Some("reply")))) {
        Marking::Conflict(i) => assert_eq!(i.code, "unavailable_kind_mismatch"),
        _ => panic!("expected a conflict"),
    }
}

#[test]
fn real_posts_and_deletions_take_precedence_over_markers() {
    let mut b = Board::new();
    let (raw, p, meta) = raw_post("root", "topic", "now small enough", vec![]);
    b.receive(&p, &raw, &meta, &nowhere()).unwrap();
    let found = vec![p.version_id.clone()];
    let r = mark_unavailable(&b.state, &notice("root", Some("topic")), &found, &Ok(Some(marker("root", None)))).unwrap();
    assert!(matches!(r, Marking::Clear));
    b.state.bury(tombstone(Some("missing"), Some(&"a".repeat(64))));
    let r = mark_unavailable(&b.state, &notice("missing", None), &vec![], &Ok(None)).unwrap();
    assert!(matches!(r, Marking::Write(_)));
    b.state.bury(tombstone(Some("missing"), None));
    let r = mark_unavailable(&b.state, &notice("missing", None), &vec![], &Ok(None)).unwrap();
    assert!(!matches!(r, Marking::Write(_)));
    let views = |state: &SyncState, real: &[&str]| {
        let entries = vec![
            MarkerEntry { name: "another.json".into(), marker: Some(marker("another", None)) },
            MarkerEntry { name: "missing.json".into(), marker: Some(marker("missing", None)) },
            MarkerEntry { name: "root.json".into(), marker: Some(marker("root", None)) },
        ];
        let v = unavailable_views(state, "thread-one", &set(real), &entries);
        v.into_iter().map(|v| v.post_id).collect::<Vec<_>>()
    };
    assert_eq!(views(&b.state, &["root"]), vec!["another"]);
    b.state.bury(tombstone(None, None));
    assert!(views(&b.state, &[]).is_empty());
}

#[test]
fn any_number_of_markers_is_shown() {
    let b = Board::new();
    let entries: Vec<MarkerEntry> = (0..4097)
        .map(|n| {
            let post = format!("post-{n:05}");
            MarkerEntry { name: format!("{post}.json"), marker: Some(marker(&post, None)) }
        })
        .collect();
    assert_eq!(unavailable_views(&b.state, "thread-one", &OrderedSet::new(), &entries).len(), 4097);
}

#[test]
fn a_marker_belongs_to_its_post() {
    assert!(check_marker("thread-one", "p", 1, marker("p", Some("reply"))).is_ok());
    assert!(check_marker("thread-one", "p", 2, marker("p", None)).is_err());
    assert!(check_marker("thread-one", "p", 1, marker("q", None)).is_err());
    assert!(check_marker("thread-one", "p", 1, marker("p", Some("other"))).is_err());
}

#[test]
fn headers_are_read_no_further_than_their_bound() {
    let front = b"---\na: 1\n---\nbody".to_vec();
    assert!(matches!(inspect_header(&front, true), Ok(Header::Ends(_))));
    assert!(matches!(inspect_header(&b"---\na: 1".to_vec(), false), Ok(Header::More)));
    let long = format!("---\npadding: {}\n---\nbody", "x".repeat(MAX_FRONTMATTER_BYTES + 100)).into_bytes();
    assert!(matches!(inspect_header(&long[..HEADER_LIMIT].to_vec(), false), Ok(Header::TooLarge)));
    assert!(inspect_header(&b"no".to_vec(), true).is_err());
    assert!(inspect_relation(&front, true).unwrap().is_some());
    let meta = metadata("huge-root", "topic", vec![]);
    let p = ineligible_file("thread-one", "huge-root", MAX_BODY_BYTES + 1, &Some(meta.copy()), &None).unwrap().unwrap();
    assert_eq!(p.kind.as_deref(), Some("topic"));
    assert!(ineligible_file("thread-one", "huge-root", MAX_BODY_BYTES, &Some(meta), &None).unwrap().is_none());
    let unknown = ineligible_file("thread-one", "non-mint-id", 10, &None, &None).unwrap().unwrap();
    assert!(unknown.kind.is_none());
}

#[test]
fn a_notice_needs_a_shared_thread() {
    let mut b = Board::new();
    let plan = || Plan {
        shared_roots: vec![],
        threads: vec![],
        unavailable_posts: vec![notice("missing", None)],
        issues: vec![],
        warnings: vec![],
    };
    let sight = || vec![MarkSight { found: vec![], marker: Ok(None) }];
    let mut private = SyncState::new();
    private.thread_records.insert("thread-one".into(), item());
    let done = apply_plan(private, "group-test", plan(), vec![], vec![], &sight()).unwrap();
    assert_eq!(done.issues[0].code, "unshared_unavailable_post");
    assert!(done.actions.is_empty());
    let state = std::mem::replace(&mut b.state, SyncState::new());
    let done = apply_plan(state, "group-test", plan(), vec![], vec![], &sight()).unwrap();
    assert!(done.issues.is_empty());
    assert!(matches!(&done.actions[0], PageAction::WriteMarker { view, .. } if view.post_id == "missing"));
}

#[test]
fn a_marker_that_cannot_be_read_stops_the_page_where_it_is_needed() {
    let mut b = Board::new();
    let plan = |posts: Vec<UnavailablePost>| Plan {
        shared_roots: vec![],
        threads: vec![],
        unavailable_posts: posts,
        issues: vec![],
        warnings: vec![],
    };
    let broken = || MarkSight { found: vec![], marker: Err("invalid_unavailable_marker".into()) };
    let with_record = || {
        let mut state = SyncState::new();
        state.share("group-test", "thread-one");
        state.thread_records.insert("thread-one".into(), item());
        state
    };
    let error = |r: Result<_, String>| r.map(|_: Applied| ()).unwrap_err();
    let done = apply_plan(with_record(), "group-test", plan(vec![notice("missing", None)]), vec![], vec![], &vec![broken()]);
    assert_eq!(error(done), "invalid_unavailable_marker");
    let posts = vec![notice("missing", None), notice("bad id", None)];
    let done = apply_plan(with_record(), "group-test", plan(posts), vec![], vec![], &vec![broken(), broken()]);
    assert_eq!(error(done), "invalid_unavailable_marker");
    let posts = vec![notice("bad id", None), notice("missing", None)];
    let done = apply_plan(with_record(), "group-test", plan(posts), vec![], vec![], &vec![broken(), broken()]);
    assert_eq!(error(done), "invalid_unavailable_post");
    let mut deleted = with_record();
    deleted.bury(tombstone(Some("missing"), None));
    let done = apply_plan(deleted, "group-test", plan(vec![notice("missing", None)]), vec![], vec![], &vec![broken()]);
    assert!(done.unwrap().actions.is_empty());
    b.state.thread_records.remove(&"thread-one".to_string());
    let done = apply_plan(b.state, "group-test", plan(vec![notice("missing", None)]), vec![], vec![], &vec![broken()]);
    assert!(done.unwrap().actions.is_empty());
}

#[test]
fn a_page_compares_the_record_that_is_here_whatever_thread_it_names() {
    let sight = |len: u64, thread: &str, schema: &str, sealed: Result<String, String>| {
        let mut meta = meta_from_record(&item().record);
        meta.thread_id = thread.into();
        meta.schema = schema.into();
        Some(MetaSight { len, meta: Ok(meta), sealed })
    };
    let schema = item().record.schema;
    let seal = || Ok("3".repeat(64));
    assert!(matches!(local_record(None), LocalRecord::Absent));
    match local_record(sight(10, "thread-other", &schema, seal())) {
        LocalRecord::Found(found) => {
            assert_eq!(found.record.thread_id, "thread-other");
            assert_eq!(found.sha256, "3".repeat(64));
        }
        _ => panic!("expected a record"),
    }
    assert!(matches!(local_record(sight(65_536, "thread-one", &schema, seal())), LocalRecord::Found(_)));
    assert!(matches!(local_record(sight(65_537, "thread-one", &schema, seal())), LocalRecord::Unreadable));
    assert!(matches!(local_record(sight(10, "thread-one", "other.schema", seal())), LocalRecord::Unreadable));
    assert!(matches!(local_record(sight(10, "thread-one", &schema, Err("bad".into()))), LocalRecord::Unreadable));
    let broken = Some(MetaSight { len: 10, meta: Err("yaml".into()), sealed: seal() });
    assert!(matches!(local_record(broken), LocalRecord::Unreadable));
}

#[test]
fn a_page_brings_threads_but_does_not_change_those_that_are_here() {
    let b = Board::new();
    let mut other = item();
    other.record.thread_id = "thread-two".into();
    let mut third = item();
    third.record.thread_id = "thread-three".into();
    let mut here = third.copy();
    here.sha256 = "2".repeat(64);
    let plan = Plan {
        shared_roots: vec!["thread-two".into(), "thread-three".into()],
        threads: vec![other, third, item()],
        unavailable_posts: vec![],
        issues: vec![],
        warnings: vec![],
    };
    let locals = vec![LocalRecord::Absent, LocalRecord::Found(here), LocalRecord::Unreadable];
    let done = apply_plan(b.state, "group-test", plan, vec![], locals, &vec![]).unwrap();
    assert!(done.state.shared_in("group-test", "thread-two"));
    assert!(done.state.shared_in("group-test", "thread-one"));
    assert!(matches!(&done.actions[0], PageAction::WriteThread(m) if m.thread_id == "thread-two"));
    assert_eq!(done.warnings[0].local_sha256, "2".repeat(64));
    assert_eq!(done.warnings[0].remote_sha256, "1".repeat(64));
    assert_eq!(done.issues[0].code, "invalid_local_thread_record");
}

#[test]
fn a_page_registers_its_deletions_and_looks_where_it_has_to() {
    let mut b = Board::new();
    let (_, p, _) = raw_post("root", "topic", "x", vec![]);
    let page = Parsed {
        deletions: vec![tombstone(Some("gone"), None)],
        threads: vec![item()],
        posts: vec![p],
        unavailable_posts: vec![notice("missing", None)],
    };
    let roots = page_roots(&page);
    assert!(roots.has(&"thread-one".to_string()));
    register_page(&mut b.state, "group-test", &page).unwrap();
    assert!(b.state.logical_deleted("thread-one", "gone"));
    assert!(clears_deletions(ManifestPhase::Tombstones));
    assert!(looks_through(ManifestPhase::Versions));
    assert!(!looks_through(ManifestPhase::Unavailable));
}

fn seen(post: &str, extra: Option<&str>, raw: &[u8], at: FileStamp, meta: &BbsPostMeta) -> VersionSight {
    VersionSight {
        location: PostLocation { post: post.into(), extra: extra.map(String::from) },
        observed: Some(at),
        header: Ok((at.len, Some(meta.copy()))),
        file: whole_file(raw, at),
        meta: Ok(meta.copy()),
        moved: Err("not moved".into()),
        origin: Ok(None),
        previous: None,
        others: vec![],
        captured: None,
        attachments: vec![],
        picture: Err("no picture".into()),
    }
}

#[test]
fn a_thread_is_looked_through_and_entered() {
    let mut b = Board::new();
    let bytes = b"attached";
    let (raw, p, meta) = raw_post("root", "topic", "original", vec![attachment("root", bytes)]);
    let at = stamp(3, raw.len() as u64);
    let mut s = seen("root", None, &raw, at, &meta);
    s.captured = Some(builtin_avatar("codex".into()));
    s.attachments =
        vec![Ok(Reading { observed: Some(stamp(4, 8)), total: 8, hash: hash(bytes), unchanged: true })];
    let look = look_through(&b.state, "thread-one", &vec![s], NOW);
    assert!(look.issues.is_empty());
    let found = &look.rows[0];
    assert_eq!(found.row.version_id, p.version_id);
    assert_eq!(found.row.updated_at, NOW);
    assert_eq!(found.origin.origin, "local");
    assert_eq!(found.row.descriptor.as_ref().unwrap().avatar.as_ref().unwrap().id.as_deref(), Some("codex"));
    assert!(found.row.attachments.get(&"att-one".to_string()).unwrap().verified);

    let mut rows = look.rows;
    let found = rows.remove(0);
    let kept = merge_scan(
        &mut b.state,
        "thread-one",
        RecordSight::Found { item: item(), unchanged: true },
        vec![],
        vec![Inspected { row: found.row, origin: found.origin, body_now: Some(at), files_now: vec![Some(stamp(4, 8))] }],
    );
    assert_eq!(kept.len(), 1);
    assert_eq!(b.row(&p).body_stamp, Some(at));

    // The second time nothing has to be read: file and attachment are known.
    let mut s = seen("root", None, b"", at, &meta);
    s.header = Err("not read".into());
    s.meta = Err("not read".into());
    s.attachments = vec![Ok(Reading { observed: Some(stamp(4, 8)), total: 0, hash: String::new(), unchanged: false })];
    let look = refresh_root(&b.state, "thread-one", &vec![s]);
    assert!(look.issues.is_empty());
    assert_eq!(look.rows[0].row.version_id, p.version_id);

    // An edit is another version, and the old one is no longer here.
    let mut changed = raw.clone();
    changed.extend_from_slice(b"\nmanual change\n");
    let later = stamp(3, changed.len() as u64);
    let mut s = seen("root", None, &changed, later, &meta);
    s.attachments = vec![Ok(Reading { observed: None, total: 0, hash: String::new(), unchanged: true })];
    let mut look = look_through(&b.state, "thread-one", &vec![s], NOW);
    let found = look.rows.remove(0);
    assert_eq!(found.row.version_id, hash(&changed));
    merge_scan(
        &mut b.state,
        "thread-one",
        RecordSight::Missing,
        vec![],
        vec![Inspected { row: found.row, origin: found.origin, body_now: Some(later), files_now: vec![None] }],
    );
    assert!(b.row(&p).body_stamp.is_none());
    assert!(b.state.row("root", &hash(&changed)).unwrap().body_stamp.is_some());
    assert!(b.state.thread_records.is_empty());
}

#[test]
fn an_edited_extra_version_moves_and_keeps_its_origin() {
    let mut b = Board::new();
    let (raw, first, meta) = raw_post("root", "topic", "first", vec![]);
    let (raw2, second, _) = raw_post("root", "topic", "second", vec![]);
    let one = b.receive(&first, &raw, &meta, &nowhere()).unwrap();
    b.receive(&second, &raw2, &meta, &resident(one)).unwrap();
    let mut raw3 = raw2.clone();
    raw3.extend_from_slice(b"\nmanual extra edit\n");
    let at = stamp(60, raw3.len() as u64);
    let mut s = seen("root", Some(&second.version_id), &raw3, at, &meta);
    let origin = received_origin(&second);
    s.previous = Some(origin.copy());
    s.captured = Some(builtin_avatar("codex".into()));
    let look = look_through(&b.state, "thread-one", &vec![s], NOW);
    assert_eq!(look.issues[0].code, "invalid_or_changed_local_version");
    let mut s = seen("root", Some(&second.version_id), &raw3, at, &meta);
    s.previous = Some(origin.copy());
    s.captured = Some(builtin_avatar("codex".into()));
    s.moved = Ok(stamp(61, at.len));
    let look = look_through(&b.state, "thread-one", &vec![s], NOW);
    let found = &look.rows[0];
    assert_eq!(found.extra.as_deref(), Some(hash(&raw3).as_str()));
    assert_eq!(found.row.body_stamp, Some(stamp(61, at.len)));
    assert_eq!(found.origin.origin, "received");
    assert_eq!(found.origin.avatar.kind, "none");

    let location = PostLocation { post: "root".into(), extra: Some(second.version_id.clone()) };
    let mut third = second.copy();
    third.version_id = hash(&raw3);
    assert_eq!(rehome(&b.state, "thread-one", &third, &location, true, false), Ok(true));
    assert_eq!(rehome(&b.state, "thread-one", &second, &location, true, false), Ok(false));
    assert_eq!(rehome(&b.state, "thread-one", &third, &location, false, false).err().unwrap(), "source_changed");
    assert_eq!(
        rehome(&b.state, "thread-one", &third, &location, true, true).err().unwrap(),
        "version_container_already_exists"
    );
}

#[test]
fn one_bad_file_does_not_hide_the_others() {
    let b = Board::new();
    let (raw, _, meta) = raw_post("root", "topic", "root", vec![]);
    let (raw2, reply, reply_meta) = raw_post("reply", "reply", "reply", vec![]);
    let (raw3, _, second_root) = raw_post("root-two", "topic", "second", vec![]);
    let huge = metadata("huge", "reply", vec![]);
    let mut big = seen("huge", None, b"", stamp(9, MAX_BODY_BYTES + 1), &huge);
    big.file.regular = false;
    let sights = vec![
        seen("root", None, &raw, stamp(1, raw.len() as u64), &meta),
        seen("root-two", None, &raw3, stamp(2, raw3.len() as u64), &second_root),
        big,
        seen("reply", None, &raw2, stamp(3, raw2.len() as u64), &reply_meta),
    ];
    let look = look_through(&b.state, "thread-one", &sights, NOW);
    assert_eq!(look.rows.iter().map(|r| r.at).collect::<Vec<_>>(), vec![0, 3]);
    assert_eq!(look.rows[1].row.version_id, reply.version_id);
    assert_eq!(look.oversized[0].at, 2);
    assert_eq!(look.oversized[0].item.post_id, "huge");
    assert_eq!(look.issues.len(), 1);
    assert_eq!(look.issues[0].post_id.as_deref(), Some("root-two"));
}

#[test]
fn a_scan_neither_undoes_a_deletion_nor_keeps_what_has_changed() {
    let mut b = Board::new();
    let (raw, p, meta) = raw_post("root", "topic", "x", vec![]);
    let at = stamp(1, raw.len() as u64);
    let find = |b: &Board| look_through(&b.state, "thread-one", &vec![seen("root", None, &raw, at, &meta)], NOW).rows.remove(0);
    let found = find(&b);
    b.state.bury(tombstone(Some("root"), None));
    let items = vec![Inspected { row: found.row, origin: found.origin, body_now: Some(at), files_now: vec![] }];
    let kept = merge_scan(
        &mut b.state,
        "thread-one",
        RecordSight::Found { item: item(), unchanged: true },
        vec![Oversized { item: notice("root", None), unchanged: true }],
        items,
    );
    assert!(kept.is_empty());
    assert!(b.state.row("root", &p.version_id).is_none());
    assert!(b.state.local_unavailable.is_empty());
    assert!(b.state.logical_deleted("thread-one", "root"));
    assert!(b.state.shared_in("group-test", "thread-one"));

    let mut c = Board::new();
    let found = find(&c);
    let items = vec![Inspected { row: found.row, origin: found.origin, body_now: None, files_now: vec![] }];
    let over = vec![
        Oversized { item: notice("big", None), unchanged: true },
        Oversized { item: notice("moved", None), unchanged: false },
    ];
    let kept = merge_scan(&mut c.state, "thread-one", RecordSight::Missing, over, items);
    assert!(kept.is_empty());
    assert_eq!(c.state.local_unavailable.entries.len(), 1);
    // A deleted version is not found again.
    let mut d = Board::new();
    d.state.bury(tombstone(Some("root"), Some(&p.version_id)));
    let look = look_through(&d.state, "thread-one", &vec![seen("root", None, &raw, at, &meta)], NOW);
    assert!(look.rows.is_empty() && look.issues.is_empty());
}

#[test]
fn a_record_is_read_from_its_thread_only() {
    let meta = meta_from_record(&record());
    assert_eq!(record_from_meta(&meta).created_at, record().created_at);
    let sight = |len: u64, thread: &str, sealed: Result<String, String>| {
        let mut m = meta.copy();
        m.thread_id = thread.into();
        Some(MetaSight { len, meta: Ok(m), sealed })
    };
    let sealed = || Ok("3".repeat(64));
    let (item, issue) = read_record("thread-one", sight(100, "thread-one", sealed()));
    assert_eq!(item.unwrap().sha256, "3".repeat(64));
    assert!(issue.is_none());
    for bad in [
        sight(65537, "thread-one", sealed()),
        sight(100, "thread-two", sealed()),
        sight(100, "thread-one", Err("too_many_tags".into())),
        Some(MetaSight { len: 100, meta: Err("yaml".into()), sealed: sealed() }),
    ] {
        let (item, issue) = read_record("thread-one", bad);
        assert!(item.is_none());
        assert_eq!(issue.unwrap().code, "invalid_local_thread_record");
    }
    let (item, issue) = read_record("thread-one", None);
    assert!(item.is_none() && issue.is_none());
    let all = gather_issues(vec![
        RootReport { root: "a".into(), issues: None },
        RootReport { root: "b".into(), issues: Some(vec![]) },
    ]);
    assert_eq!(all.len(), 1);
    assert_eq!(all[0].code, "local_thread_unavailable");
}

#[test]
fn the_versions_of_a_post_are_found_in_their_places() {
    let v = "a".repeat(64);
    let files = vec![
        ResidentEntry { name: "root.md".into(), is_file: true },
        ResidentEntry { name: "notes.txt".into(), is_file: true },
        ResidentEntry { name: "dir.md".into(), is_file: false },
    ];
    let versions = vec![
        VersionEntry { post: "root".into(), hash: v.clone(), is_dir: true, present: true },
        VersionEntry { post: "root".into(), hash: "short".into(), is_dir: true, present: true },
        VersionEntry { post: "root".into(), hash: "b".repeat(64), is_dir: true, present: false },
    ];
    let all = locations(&files, &versions);
    assert_eq!(all.len(), 2);
    assert!(all.iter().any(|l| l.post == "root" && l.extra.is_none()));
    assert!(all.iter().any(|l| l.extra.as_deref() == Some(v.as_str())));
    let at = PostLocation { post: "root".into(), extra: Some(v.clone()) };
    assert_eq!(at.relative("thread-one").unwrap(), format!("threads/thread-one/versions/root/{v}/post.md"));
    let bad = PostLocation { post: "../x".into(), extra: None };
    assert_eq!(bad.relative("thread-one").err().unwrap(), "invalid_id");

    let mut b = Board::new();
    let (raw, p, meta) = raw_post("root", "topic", "x", vec![]);
    let one = b.receive(&p, &raw, &meta, &nowhere()).unwrap();
    assert!(locate_row(b.row(&p), Some(one), None).unwrap().extra.is_none());
    assert!(locate_row(b.row(&p), None, Some(one)).unwrap().extra.is_some());
    assert!(locate_row(b.row(&p), None, None).is_none());
}

#[test]
fn a_file_is_read_only_if_it_is_not_known() {
    let at = stamp(1, 3);
    assert!(matches!(glance(None, 3, None), Glance::Absent));
    assert!(matches!(glance(Some(at), 4, None), Glance::Absent));
    assert!(matches!(glance(Some(at), 3, Some(at)), Glance::Known(_)));
    assert!(matches!(glance(Some(at), 3, None), Glance::Read(_)));
    let abc = b"abc".to_vec();
    assert_eq!(verify_content(Some(at), &hash(b"abc"), 3, None, &abc, true), Ok(Some(at)));
    assert_eq!(verify_content(Some(at), &hash(b"xyz"), 3, None, &abc, true), Ok(None));
    assert_eq!(verify_content(Some(at), &hash(b"abc"), 3, None, &abc, false).err().unwrap(), "source_changed");
}

#[test]
fn a_post_keeps_its_thread_and_its_kind() {
    let (_, p, meta) = raw_post("root", "topic", "x", vec![]);
    let header = |m: Option<BbsPostMeta>, thread: &str, unchanged: bool| FoundHeader { thread: thread.into(), meta: m, unchanged };
    assert!(validate_existing_post_relationship(&p, &vec![header(Some(meta.copy()), "thread-one", true)]).is_ok());
    let mut old = meta.copy();
    old.thread_id = "private-legacy".into();
    for bad in [
        header(Some(old), "private-legacy", true),
        header(None, "thread-one", true),
        header(Some(meta.copy()), "thread-one", false),
    ] {
        assert_eq!(
            validate_existing_post_relationship(&p, &vec![bad]).err().unwrap(),
            "invalid_post_relationship"
        );
    }
}

#[test]
fn only_members_get_what_is_shared() {
    let mut b = Board::new();
    let (raw, p, meta) = raw_post("root", "topic", "x", vec![]);
    let at = b.receive(&p, &raw, &meta, &nowhere()).unwrap();
    let r = p.resource();
    assert_eq!(
        source(&b.state, &b.member, &b.fence, &r, &resident(at)).unwrap(),
        "threads/thread-one/posts/root.md"
    );
    assert!(source(&b.state, &None, &b.fence, &r, &resident(at)).is_err());
    assert!(source(&b.state, &b.member, &b.fence, &r, &nowhere()).is_err());
    assert!(check_fence(&b.member, &b.fence).is_ok());
    let other = GroupFence { group_id: "group-test".into(), membership_id: "earlier".into() };
    assert!(check_fence(&b.member, &other).is_err());
    assert!(require_shared(&b.state, "group-test", "thread-one", "root", &p.version_id).is_ok());
    assert!(require_shared(&b.state, "group-other", "thread-one", "root", &p.version_id).is_err());
    assert!(ensure_space(u128::MAX, 1).is_ok());
    assert!(ensure_space(0, 1).is_err());
    let (_, q, _) = raw_post("reply", "reply", "y", vec![]);
    assert!(prepare_receive(&b.state, &b.member, &b.fence, &q.resource(), &Some(q.copy()), false, u128::MAX).is_ok());
    assert!(prepare_receive(&b.state, &b.member, &b.fence, &q.resource(), &None, false, u128::MAX).is_err());
    assert!(prepare_receive(&b.state, &b.member, &b.fence, &q.resource(), &Some(q.copy()), false, 0).is_err());
    assert!(source_for_exchange(&b.state, &b.member, &b.fence, &r, &vec![], false, &resident(at)).is_ok());
    b.state.bury(tombstone(Some("root"), None));
    assert!(source(&b.state, &b.member, &b.fence, &r, &resident(at)).is_err());
}

#[test]
fn the_origin_of_a_version_is_written_once() {
    let (_, mut p, _) = raw_post("root", "topic", "x", vec![]);
    let first = settle_origin(&None, &received_origin(&p)).unwrap();
    p.avatar = Some(builtin_avatar("codex".into()));
    let second = settle_origin(&Some(first.copy()), &received_origin(&p)).unwrap();
    assert_eq!(second.avatar.kind, "none");
    let nothing = FileSight { path: None, stamp: None };
    assert!(matches!(avatar_view(&Ok(Some(second)), &vec![], &nothing, None), Some(AvatarView::Nothing)));
    assert!(avatar_view(&Ok(None), &vec![], &nothing, None).is_none());
    let bad = OriginSnapshot { schema_version: 2, origin: "received".into(), avatar: AvatarSidecar::none() };
    assert_eq!(settle_origin(&None, &bad).err().unwrap(), "invalid_origin_snapshot");
    assert!(is_received(&Ok(Some(first.copy()))));
    let own = inherit_origin(&None, &None, &vec![], &None);
    assert_eq!(own.origin, "local");
    let edit = inherit_origin(&None, &None, &vec![None, Some(first)], &Some(builtin_avatar("codex".into())));
    assert_eq!(edit.origin, "received");
}

#[test]
fn a_picture_is_shown_once_its_bytes_are_checked() {
    let png = b"\x89PNG\r\n\x1a\nsource-avatar";
    let avatar = AvatarSidecar {
        kind: "image".into(),
        id: None,
        sha256: Some(hash(png)),
        ext: Some("png".into()),
        size_bytes: Some(png.len() as u64),
    };
    let mut b = Board::new();
    let (raw, mut p, meta) = raw_post("root", "topic", "image source", vec![]);
    p.avatar = Some(avatar.copy());
    b.receive(&p, &raw, &meta, &nowhere()).unwrap();
    let at = stamp(70, png.len() as u64);
    let origin = Ok(Some(received_origin(&p)));
    let image = FileSight { path: Some("/board/avatars/x.png".into()), stamp: Some(at) };
    let view = |b: &Board| avatar_view(&origin, &vec![], &image, Some(&b.state));
    match view(&b) {
        Some(AvatarView::Image { local_path, available, .. }) => assert!(!available && local_path.is_none()),
        _ => panic!("expected an image"),
    }
    let file = whole_file(png, at);
    assert!(read_verified_avatar(Some(&b.state), &hash(png), "png", &file).is_err());
    let r = avatar.resource().unwrap();
    assert!(avatar_allowed(&b.state, "group-test", &r, false));
    assert!(adopt_picture(&mut b.state, &b.member, &b.fence, &r, false, None, None).is_ok());
    commit_picture(&mut b.state, &r, Some(at));
    match view(&b) {
        Some(AvatarView::Image { local_path, available, .. }) => assert!(available && local_path.is_some()),
        _ => panic!("expected an image"),
    }
    let data = read_verified_avatar(Some(&b.state), &hash(png), "png", &file).unwrap();
    let bytes = base64::engine::general_purpose::STANDARD
        .decode(data.strip_prefix("data:image/png;base64,").unwrap())
        .unwrap();
    assert_eq!(bytes, png);
    assert!(read_verified_avatar(Some(&b.state), &hash(png), "gif", &file).is_err());
    assert!(read_verified_avatar(Some(&b.state), "../escape", "png", &file).is_err());
    let changed = whole_file(b"unverified modification", stamp(70, 23));
    assert!(read_verified_avatar(Some(&b.state), &hash(png), "png", &changed).is_err());
    let pictured = SourceSight { picture: Some(at), ..nowhere() };
    let give = |catalog: &Vec<PostVersion>, in_roster: bool, sight: &SourceSight| {
        source_for_exchange(&b.state, &b.member, &b.fence, &r, catalog, in_roster, sight)
    };
    assert_eq!(give(&vec![p.copy()], false, &pictured).unwrap(), format!("avatars/{}.png", hash(png)));
    assert_eq!(give(&vec![], false, &pictured).err().unwrap(), "unrequested_avatar");
    assert!(give(&vec![], true, &pictured).is_ok());
    assert_eq!(give(&vec![p.copy()], false, &nowhere()).err().unwrap(), "source_unavailable");
    assert!(read_roster_avatar(&r, &file).is_ok());
    assert_eq!(verify_roster_avatar(&r, &Some(file)), Ok(Some(at)));
    assert_eq!(verify_roster_avatar(&r, &None), Ok(None));
    assert_eq!(roster_avatar_path(&hash(png), "png").unwrap(), format!("avatars/{}.png", hash(png)));
    assert!(roster_avatar_path(&hash(png), "gif").is_err());
}

#[test]
fn avatars_are_chosen_and_captured() {
    let builtin = vec!["codex".to_string()];
    assert!(matches!(choose_avatar(&None, &builtin), AvatarChoice::Nothing));
    assert!(matches!(choose_avatar(&Some("codex".into()), &builtin), AvatarChoice::Builtin(id) if id == "codex"));
    assert!(matches!(choose_avatar(&Some("user:x".into()), &builtin), AvatarChoice::Registered(_)));
    assert_eq!(registered_extension("x.png", "image/png").unwrap(), "png");
    assert!(registered_extension("x.gif", "image/gif").is_err());
    let a = captured_avatar("png", &b"bytes".to_vec()).unwrap();
    assert_eq!(a.sha256.as_deref(), Some(hash(b"bytes").as_str()));
    assert!(captured_avatar("png", &vec![]).is_err());
}

#[test]
fn no_path_leaves_the_board() {
    let p = PathName::parse("threads/thread-one/posts");
    assert!(managed(&p, &vec![Step::Directory, Step::Directory, Step::Missing]).is_ok());
    assert_eq!(
        managed(&p, &vec![Step::Directory, Step::Directory, Step::Link]).err().unwrap(),
        "unsafe_sync_path"
    );
    assert_eq!(managed(&p, &vec![Step::Directory, Step::File, Step::Missing]).err().unwrap(), "unsafe_sync_path");
    let up = PathName::parse("threads/../x");
    assert_eq!(
        managed(&up, &vec![Step::Directory, Step::Directory, Step::Missing]).err().unwrap(),
        "invalid_sync_path"
    );
}

#[test]
fn a_thread_is_shared_once_and_versions_have_their_own_key() {
    let mut b = Board::new();
    b.state.share("group-test", "thread-new");
    b.state.share("group-test", "thread-new");
    assert!(b.state.shared_in("group-test", "thread-new"));
    assert!(!b.state.shared_in("group-other", "thread-new"));
    let v = "a".repeat(64);
    assert_eq!(LedgerEntry::version_key("root", &v), Some(format!("root/{v}")));
    assert_eq!(LedgerEntry::version_key("ro/ot", &v), None);
    assert_eq!(tombstone(None, None).key(), "thread:thread-one");
    assert_eq!(tombstone(Some("p"), Some(&v)).key(), format!("version:thread-one/p/{v}"));
    let (raw, p, meta) = raw_post("root", "topic", "x", vec![]);
    install_post(&mut b.state, p.copy(), &received_origin(&p), Some(stamp(1, raw.len() as u64)));
    assert_eq!(b.row(&p).thread_id, meta.thread_id);
    let other = Resource {
        identity: ResourceKind::Avatar { sha256: v.clone(), ext: "png".into() },
        sha256: v,
        size_bytes: 1,
    };
    assert!(other.valid());
    assert!(!other.is_same(&p.resource()));
}
