//! Looking through a thread: from what its files show to the rows of the
//! ledger.
use vstd::prelude::*;
use crate::bbs::posts::{attachment_refs, meta_model, post_refs, shared_fault, shared_front, shared_frontmatter};
use crate::bbs::posts::validate_post_meta;
use crate::bbs::sync::avatars::{opt_origin, origin_models, FileRead, OriginModel, OriginSnapshot};
use crate::bbs::sync::inventory::{checked_file, failed_version, first_cached, inherit_origin, judge_reading, learned};
use crate::bbs::sync::inventory::{ledger_rows, origin_of, oversized_clash, scan_of, stamp_result, version_clash};
use crate::bbs::sync::inventory::{PostLocation, Scan, ScanModel};
use crate::bbs::sync::model::{copy_avatar, logical_deleted, opt_avatar, ref_models, same_stamp, suppressed, tkey};
use crate::bbs::sync::model::{version_key, AttachmentRef, AvatarModel, AvatarSidecar, FileStamp, LedgerEntry};
use crate::bbs::sync::model::{PostVersion, RefModel, RowModel, StateModel, SyncState, UnavailableModel};
use crate::bbs::sync::model::{UnavailablePost, VersionModel, MAX_BODY_BYTES};
use crate::bbs::sync::refresh::{complete_row, completed};
use crate::bbs::sync::resources::avatar_resource;
use crate::bbs::sync::unavailable::{eligibility, ineligible_file, issue_models, opt_meta, Issue, IssueModel};
use crate::bbs::types::{BbsPostMeta, PostModel};
use crate::outside::{now_iso, sha256, sha256_hex};
use crate::text::{copy_opt, opt_text, own, same, Text};

verus! {

// ------------------------------------------------------------------- reading

/// The hash of a file that was read whole, or why that does not count.
pub open spec fn bounded(f: FileRead, max: u64) -> Result<Text, Text> {
    if !f.regular || f.before.len > max {
        Err("sync_source_too_large_or_not_regular"@)
    } else if f.bytes@.len() > max {
        Err("sync_source_grew"@)
    } else if f.after != f.before || f.at_path != Some(f.before) || f.bytes@.len() != f.before.len {
        Err("sync_source_changed"@)
    } else {
        Ok(sha256(f.bytes@))
    }
}

pub open spec fn text_result(r: Result<String, String>) -> Result<Text, Text> {
    match r {
        Ok(s) => Ok(s@),
        Err(e) => Err(e@),
    }
}

pub fn read_bounded(f: &FileRead, max: u64) -> (r: Result<String, String>)
    ensures
        text_result(r) == bounded(*f, max),
{
    if !f.regular || f.before.len > max {
        return Err(own("sync_source_too_large_or_not_regular"));
    }
    let n = f.bytes.len() as u64;
    if n > max {
        return Err(own("sync_source_grew"));
    }
    if !same_stamp(&Some(f.after), &Some(f.before)) || !same_stamp(&f.at_path, &Some(f.before)) || n != f.before.len {
        return Err(own("sync_source_changed"));
    }
    Ok(sha256_hex(&f.bytes))
}

/// The frontmatter of a post that was read whole. `meta` is what the parser
/// makes of it.
pub open spec fn meta_read(f: FileRead, meta: Result<PostModel, Text>) -> Result<PostModel, Text> {
    match (bounded(f, MAX_BODY_BYTES), shared_front(f.bytes@), meta) {
        (Err(e), _, _) => Err(e),
        (Ok(_), Err(e), _) => Err(e),
        (Ok(_), Ok(_), Err(_)) => Err("invalid_sync_post_metadata"@),
        (Ok(_), Ok(_), Ok(m)) => Ok(m),
    }
}

pub fn parse_post(f: &FileRead, meta: &Result<BbsPostMeta, String>) -> (r: Result<BbsPostMeta, String>)
    ensures
        meta_model(r) == meta_read(*f, meta_model(*meta)),
{
    match read_bounded(f, MAX_BODY_BYTES) {
        Ok(_) => {},
        Err(e) => {
            return Err(e);
        },
    }
    let raw = f.bytes.clone();
    assert(raw@ =~= f.bytes@);
    match shared_frontmatter(raw) {
        Ok(_) => {},
        Err(e) => {
            return Err(e);
        },
    }
    match meta {
        Ok(m) => Ok(m.copy()),
        Err(_) => Err(own("invalid_sync_post_metadata")),
    }
}

/// The version that a file holds.
pub open spec fn version_read(thread: Text, post: Text, f: FileRead, meta: Result<PostModel, Text>) -> Result<
    VersionModel,
    Text,
> {
    match meta_read(f, meta) {
        Err(e) => Err(e),
        Ok(m) => match (shared_fault(m, thread, post), post_refs(m)) {
            (None, Ok(attachments)) => Ok(
                VersionModel {
                    thread_id: thread,
                    post_id: post,
                    version_id: sha256(f.bytes@),
                    size: f.bytes@.len(),
                    kind: m.kind,
                    attachments,
                    avatar: None,
                },
            ),
            (Some(e), _) => Err(e),
            (None, Err(e)) => Err(e),
        },
    }
}

pub open spec fn version_result(r: Result<PostVersion, String>) -> Result<VersionModel, Text> {
    match r {
        Ok(v) => Ok(v@),
        Err(e) => Err(e@),
    }
}

pub fn read_version(thread: &str, post: &str, f: &FileRead, meta: &Result<BbsPostMeta, String>) -> (r: Result<
    PostVersion,
    String,
>)
    ensures
        version_result(r) == version_read(thread@, post@, *f, meta_model(*meta)),
{
    let m = match parse_post(f, meta) {
        Ok(m) => m,
        Err(e) => {
            return Err(e);
        },
    };
    match validate_post_meta(&m, thread, post) {
        Ok(_) => {},
        Err(e) => {
            return Err(e);
        },
    }
    match attachment_refs(&m) {
        Ok(attachments) => Ok(
            PostVersion {
                thread_id: own(thread),
                post_id: own(post),
                version_id: sha256_hex(&f.bytes),
                size_bytes: f.bytes.len() as u64,
                kind: m.kind,
                attachments,
                avatar: None,
            },
        ),
        Err(e) => Err(e),
    }
}

// ----------------------------------------------------------------- one file

/// What was read of a file that should hold certain bytes: how many there
/// were, and their hash.
pub struct Reading {
    pub observed: Option<FileStamp>,
    pub total: u64,
    pub hash: String,
    pub unchanged: bool,
}

/// The file as the ledger last saw it, if it was checked to be this one.
pub open spec fn trusted(row: Option<RowModel>, a: RefModel) -> Option<FileStamp> {
    match row {
        Some(r) => if r.attachments.contains_key(tkey(a.id)) && r.attachments[tkey(a.id)].verified
            && r.attachments[tkey(a.id)].sha256 == a.sha256 && r.attachments[tkey(a.id)].size == a.size {
            r.attachments[tkey(a.id)].stamp
        } else {
            None
        },
        None => None,
    }
}

pub open spec fn opt_row(r: Option<&LedgerEntry>) -> Option<RowModel> {
    match r {
        Some(x) => Some(x@),
        None => None,
    }
}

pub fn trusted_stamp(row: Option<&LedgerEntry>, a: &AttachmentRef) -> (r: Option<FileStamp>)
    requires
        row matches Some(x) ==> x.wf(),
    ensures
        r == trusted(opt_row(row), a@),
{
    match row {
        Some(x) => match x.attachments.get(&a.id) {
            Some(s) => {
                assert(x@.attachments[tkey(a.id@)] == s@);
                if s.verified && same(&s.sha256, &a.sha256) && s.size_bytes == a.size_bytes {
                    s.stamp
                } else {
                    None
                }
            },
            None => None,
        },
        None => None,
    }
}

/// What is found of an attachment. A file nobody has looked for is missing.
pub open spec fn file_at(files: Seq<Result<Reading, String>>, i: int, hash: Text, size: u64, cached: Option<FileStamp>) -> Result<
    Option<FileStamp>,
    Text,
> {
    if 0 <= i < files.len() {
        match files[i] {
            Ok(f) => checked_file(f.observed, hash, size, cached, f.total as nat, f.hash@, f.unchanged),
            Err(e) => Err(e@),
        }
    } else {
        Ok(None)
    }
}

/// What is found of all attachments, or what stands in the way of the first
/// that cannot be judged.
pub open spec fn files_at(row: Option<RowModel>, refs: Seq<RefModel>, files: Seq<Result<Reading, String>>) -> Result<
    Seq<Option<FileStamp>>,
    Text,
>
    decreases refs.len(),
{
    if refs.len() == 0 {
        Ok(Seq::empty())
    } else {
        let a = refs.last();
        match files_at(row, refs.drop_last(), files) {
            Err(e) => Err(e),
            Ok(s) => match file_at(files, refs.len() - 1, a.sha256, a.size as u64, trusted(row, a)) {
                Err(e) => Err(e),
                Ok(f) => Ok(s.push(f)),
            },
        }
    }
}

pub open spec fn files_result(r: Result<Vec<Option<FileStamp>>, String>) -> Result<Seq<Option<FileStamp>>, Text> {
    match r {
        Ok(v) => Ok(v@),
        Err(e) => Err(e@),
    }
}

fn judge_file(f: &Result<Reading, String>, hash: &str, size: u64, cached: Option<FileStamp>) -> (r: Result<
    Option<FileStamp>,
    String,
>)
    ensures
        forall|files: Seq<Result<Reading, String>>, i: int|
            0 <= i < files.len() && files[i] == *f ==> stamp_result(r) == #[trigger] file_at(files, i, hash@, size, cached),
{
    match f {
        Ok(x) => judge_reading(x.observed, hash, size, cached, x.total, &x.hash, x.unchanged),
        Err(e) => Err(e.clone()),
    }
}

fn judge_files(row: Option<&LedgerEntry>, refs: &Vec<AttachmentRef>, files: &Vec<Result<Reading, String>>) -> (r: Result<
    Vec<Option<FileStamp>>,
    String,
>)
    requires
        row matches Some(x) ==> x.wf(),
    ensures
        files_result(r) == files_at(opt_row(row), ref_models(refs@), files@),
        r matches Ok(v) ==> v@.len() == refs@.len(),
{
    let ghost all = ref_models(refs@);
    let ghost known = opt_row(row);
    let mut out: Vec<Option<FileStamp>> = Vec::new();
    let mut i: usize = 0;
    assert(all.take(0) =~= Seq::empty());
    assert(out@ =~= Seq::empty());
    while i < refs.len()
        invariant
            i <= refs@.len(),
            all == ref_models(refs@),
            known == opt_row(row),
            row matches Some(x) ==> x.wf(),
            out@.len() == i,
            files_at(known, all.take(i as int), files@) == Ok::<Seq<Option<FileStamp>>, Text>(out@),
        decreases refs@.len() - i,
    {
        let a = &refs[i];
        assert(all.take(i + 1).drop_last() =~= all.take(i as int));
        assert(all.take(i + 1).last() == a@);
        let cached = trusted_stamp(row, a);
        let found = if i < files.len() {
            judge_file(&files[i], &a.sha256, a.size_bytes, cached)
        } else {
            Ok(None)
        };
        assert(stamp_result(found) == file_at(files@, i as int, a@.sha256, a.size_bytes, trusted(known, a@)));
        match found {
            Ok(f) => {
                out.push(f);
            },
            Err(e) => {
                proof {
                    lemma_files_stop(known, all, files@, i + 1);
                }
                return Err(e);
            },
        }
        i += 1;
    }
    assert(all.take(i as int) =~= all);
    Ok(out)
}

/// What stands in the way of one attachment stands in the way of all that
/// follow.
proof fn lemma_files_stop(row: Option<RowModel>, refs: Seq<RefModel>, files: Seq<Result<Reading, String>>, n: int)
    requires
        0 <= n <= refs.len(),
        files_at(row, refs.take(n), files) is Err,
    ensures
        files_at(row, refs, files) == files_at(row, refs.take(n), files),
    decreases refs.len() - n,
{
    if n == refs.len() {
        assert(refs.take(n) =~= refs);
    } else {
        assert(refs.take(n + 1).drop_last() =~= refs.take(n));
        lemma_files_stop(row, refs, files, n + 1);
    }
}

/// All that is seen of one post's file, and of what belongs to it. What is
/// not needed to judge the file may be left out: it is not looked at.
pub struct VersionSight {
    pub location: PostLocation,
    pub observed: Option<FileStamp>,
    /// The size of the file and its frontmatter, unless that is too large.
    pub header: Result<(u64, Option<BbsPostMeta>), String>,
    pub file: FileRead,
    pub meta: Result<BbsPostMeta, String>,
    /// The file once its directory has the name of its hash, or why it was
    /// not moved there.
    pub moved: Result<FileStamp, String>,
    /// The origin of this version, of the one it was made of, and of all
    /// other versions of the post.
    pub origin: Result<Option<OriginSnapshot>, String>,
    pub previous: Option<OriginSnapshot>,
    pub others: Vec<Option<OriginSnapshot>>,
    /// The picture that the author has on this device.
    pub captured: Option<AvatarSidecar>,
    pub attachments: Vec<Result<Reading, String>>,
    pub picture: Result<Reading, String>,
}

/// What a file turns out to be.
pub enum Start {
    Oversized(UnavailablePost),
    Version { version: PostVersion, body: FileStamp, avatar: Option<AvatarSidecar> },
}

pub enum StartModel {
    Oversized(UnavailableModel),
    Version { version: VersionModel, body: FileStamp, avatar: Option<AvatarModel> },
}

pub open spec fn start_result(r: Result<Start, String>) -> Result<StartModel, Text> {
    match r {
        Ok(Start::Oversized(p)) => Ok(StartModel::Oversized(p@)),
        Ok(Start::Version { version, body, avatar }) => Ok(
            StartModel::Version { version: version@, body, avatar: opt_avatar(avatar) },
        ),
        Err(e) => Err(e@),
    }
}

/// The kind that is known of a post of the thread.
pub open spec fn kind_known(m: ScanModel, post: Text) -> Option<Text> {
    if m.known.contains_key(tkey(post)) && m.known[tkey(post)].0 == m.thread {
        Some(m.known[tkey(post)].1)
    } else {
        None
    }
}

pub open spec fn header_model(h: Result<(u64, Option<BbsPostMeta>), String>) -> Result<(u64, Option<PostModel>), Text> {
    match h {
        Ok(x) => Ok((x.0, opt_meta(x.1))),
        Err(e) => Err(e@),
    }
}

/// A file that is unchanged is the version it was before. One that is too
/// large cannot travel. Any other is read.
pub open spec fn started(rows: Seq<RowModel>, m: ScanModel, s: VersionSight) -> Result<StartModel, Text> {
    let post = s.location@.post;
    match s.observed {
        None => Err("source_changed"@),
        Some(o) => match first_cached(rows, m.thread, post, o) {
            Some(v) => Ok(StartModel::Version { version: v, body: o, avatar: v.avatar }),
            None => match header_model(s.header) {
                Err(e) => Err(e),
                Ok((len, meta)) => match eligibility(m.thread, post, len, meta, kind_known(m, post)) {
                    Err(e) => Err(e),
                    Ok(Some(p)) => Ok(StartModel::Oversized(p)),
                    Ok(None) => match version_read(m.thread, post, s.file, meta_model(s.meta)) {
                        Err(e) => Err(e),
                        Ok(v) => Ok(
                            StartModel::Version { version: v, body: s.file.before, avatar: opt_avatar(s.captured) },
                        ),
                    },
                },
            },
        },
    }
}

fn start(state: &SyncState, scan: &Scan, s: &VersionSight) -> (r: Result<Start, String>)
    requires
        state.wf(),
        scan.wf(),
    ensures
        start_result(r) == started(ledger_rows(state.ledger.entries@), scan@, *s),
{
    let post = &s.location.post;
    let observed = match s.observed {
        Some(o) => o,
        None => {
            return Err(own("source_changed"));
        },
    };
    if let Some(version) = scan.cached(state, post, observed) {
        let avatar = copy_avatar(&version.avatar);
        return Ok(Start::Version { version, body: observed, avatar });
    }
    match &s.header {
        Err(e) => Err(e.clone()),
        Ok(h) => match ineligible_file(&scan.thread, post, h.0, &h.1, &scan.known_kind(post)) {
            Err(e) => Err(e),
            Ok(Some(p)) => Ok(Start::Oversized(p)),
            Ok(None) => match read_version(&scan.thread, post, &s.file, &s.meta) {
                Err(e) => Err(e),
                Ok(version) => Ok(
                    Start::Version { version, body: s.file.before, avatar: copy_avatar(&s.captured) },
                ),
            },
        },
    }
}

/// What comes of looking at a file.
pub enum Finding {
    /// It is deleted.
    Nothing,
    /// It cannot travel.
    Oversized(UnavailablePost),
    /// It is a version, and stands in the directory of `extra` now.
    Row { row: LedgerEntry, origin: OriginSnapshot, extra: Option<String> },
}

pub enum FindingModel {
    Nothing,
    Oversized(UnavailableModel),
    Row { row: RowModel, origin: OriginModel, extra: Option<Text> },
}

impl View for Finding {
    type V = FindingModel;

    open spec fn view(&self) -> FindingModel {
        match *self {
            Finding::Nothing => FindingModel::Nothing,
            Finding::Oversized(p) => FindingModel::Oversized(p@),
            Finding::Row { row, origin, extra } => FindingModel::Row { row: row@, origin: origin@, extra: opt_text(extra) },
        }
    }
}

impl Finding {
    pub open spec fn wf(&self) -> bool {
        match *self {
            Finding::Row { row, .. } => row.wf(),
            _ => true,
        }
    }
}

pub open spec fn finding_result(r: Result<Finding, String>) -> Result<FindingModel, Text> {
    match r {
        Ok(x) => Ok(x@),
        Err(e) => Err(e@),
    }
}

/// An extra version that was edited has to move to the directory of its new
/// hash.
pub open spec fn moves(s: VersionSight, version: Text) -> bool {
    s.location@.extra is Some && s.location@.extra != Some(version)
}

/// What the ledger says of a version.
pub open spec fn known_row(st: StateModel, v: VersionModel) -> Option<RowModel> {
    let k = tkey(version_key(v.post_id, v.version_id));
    if st.ledger.contains_key(k) {
        Some(st.ledger[k])
    } else {
        None
    }
}

/// The picture of a version's author, if it has one.
pub open spec fn picture_at(row: Option<RowModel>, avatar: AvatarModel, f: Result<Reading, String>) -> Result<
    Option<FileStamp>,
    Text,
> {
    match avatar_resource(avatar) {
        None => Ok(None),
        Some(r) => file_at(
            seq![f],
            0,
            r.sha256,
            r.size as u64,
            match row {
                Some(x) => x.avatar_stamp,
                None => None,
            },
        ),
    }
}

/// The row of a version, with its origin, its attachments and its picture.
pub open spec fn finished(
    st: StateModel,
    thread: Text,
    v: VersionModel,
    body: FileStamp,
    avatar: Option<AvatarModel>,
    s: VersionSight,
    now: Text,
) -> Result<FindingModel, Text> {
    let row = known_row(st, v);
    if moves(s, v.version_id) && s.moved is Err {
        Err(s.moved->Err_0@)
    } else if s.origin is Err {
        Err(s.origin->Err_0@)
    } else {
        let origin = origin_of(opt_origin(s.origin->Ok_0), opt_origin(s.previous), origin_models(s.others@), avatar);
        let stamp = if moves(s, v.version_id) {
            s.moved->Ok_0
        } else {
            body
        };
        match files_at(row, v.attachments, s.attachments@) {
            Err(e) => Err(e),
            Ok(files) => match picture_at(row, origin.avatar, s.picture) {
                Err(e) => Err(e),
                Ok(picture) => match completed(thread, v, origin, stamp, files, picture, now) {
                    Err(e) => Err(e),
                    Ok(x) => Ok(
                        FindingModel::Row {
                            row: x,
                            origin,
                            extra: if moves(s, v.version_id) {
                                Some(v.version_id)
                            } else {
                                s.location@.extra
                            },
                        },
                    ),
                },
            },
        }
    }
}

fn finish(
    state: &SyncState,
    thread: &str,
    version: PostVersion,
    body: FileStamp,
    avatar: &Option<AvatarSidecar>,
    s: &VersionSight,
    now: &str,
) -> (r: Result<Finding, String>)
    requires
        state.wf(),
    ensures
        finding_result(r) == finished(state@, thread@, version@, body, opt_avatar(*avatar), *s, now@),
        r matches Ok(x) ==> x.wf(),
{
    let away = match &s.location.extra {
        Some(e) => !same(e, &version.version_id),
        None => false,
    };
    assert(away == moves(*s, version@.version_id));
    let mut stamp = body;
    if away {
        match &s.moved {
            Ok(f) => {
                stamp = *f;
            },
            Err(e) => {
                return Err(e.clone());
            },
        }
    }
    let origin = match &s.origin {
        Ok(o) => inherit_origin(o, &s.previous, &s.others, avatar),
        Err(e) => {
            return Err(e.clone());
        },
    };
    let row = state.row(&version.post_id, &version.version_id);
    assert(opt_row(row) == known_row(state@, version@));
    let files = match judge_files(row, &version.attachments, &s.attachments) {
        Ok(v) => v,
        Err(e) => {
            return Err(e);
        },
    };
    let cached = match row {
        Some(x) => x.avatar_stamp,
        None => None,
    };
    let picture = match origin.avatar.resource() {
        None => None,
        Some(r) => {
            let judged = judge_file(&s.picture, &r.sha256, r.size_bytes, cached);
            assert(seq![s.picture][0] == s.picture);
            assert(stamp_result(judged) == file_at(seq![s.picture], 0, r@.sha256, r.size_bytes, cached));
            match judged {
                Ok(f) => f,
                Err(e) => {
                    return Err(e);
                },
            }
        },
    };
    let extra = if away {
        Some(version.version_id.clone())
    } else {
        copy_opt(&s.location.extra)
    };
    match complete_row(thread, version, &origin, stamp, &files, picture, now) {
        Ok(row) => Ok(Finding::Row { row, origin, extra }),
        Err(e) => Err(e),
    }
}

/// Look at one file, knowing what the files before it have shown.
pub open spec fn inspected(rows: Seq<RowModel>, st: StateModel, m: ScanModel, s: VersionSight, now: Text) -> (
    Result<FindingModel, Text>,
    ScanModel,
) {
    match started(rows, m, s) {
        Err(e) => (Err(e), m),
        Ok(StartModel::Oversized(p)) => if oversized_clash(m, p) {
            (Err("invalid_post_relationship"@), m)
        } else if logical_deleted(st, m.thread, p.post_id) {
            (Ok(FindingModel::Nothing), m)
        } else {
            (
                Ok(FindingModel::Oversized(p)),
                match p.kind {
                    Some(k) => learned(m, p.post_id, m.thread, k),
                    None => m,
                },
            )
        },
        Ok(StartModel::Version { version, body, avatar }) => if version_clash(m, version) {
            (Err("invalid_post_relationship"@), m)
        } else {
            (
                if suppressed(st, m.thread, version.post_id, version.version_id) {
                    Ok(FindingModel::Nothing)
                } else {
                    finished(st, m.thread, version, body, avatar, s, now)
                },
                learned(m, version.post_id, version.thread_id, version.kind),
            )
        },
    }
}

pub fn inspect(state: &SyncState, scan: &mut Scan, s: &VersionSight, now: &str) -> (r: Result<Finding, String>)
    requires
        state.wf(),
        old(scan).wf(),
    ensures
        final(scan).wf(),
        (finding_result(r), final(scan)@) == inspected(
            ledger_rows(state.ledger.entries@),
            state@,
            old(scan)@,
            *s,
            now@,
        ),
        r matches Ok(x) ==> x.wf(),
{
    match start(state, scan, s) {
        Err(e) => Err(e),
        Ok(Start::Oversized(p)) => match scan.meet_oversized(state, &p) {
            Err(e) => Err(e),
            Ok(keep) => if keep {
                Ok(Finding::Oversized(p))
            } else {
                Ok(Finding::Nothing)
            },
        },
        Ok(Start::Version { version, body, avatar }) => match scan.meet_version(state, &version) {
            Err(e) => Err(e),
            Ok(keep) => if keep {
                let thread = scan.thread.clone();
                finish(state, &thread, version, body, &avatar, s, now)
            } else {
                Ok(Finding::Nothing)
            },
        },
    }
}

// --------------------------------------------------------------- all files

/// A version that was found: `at` is the number of its file.
pub struct FoundRow {
    pub at: usize,
    pub row: LedgerEntry,
    pub origin: OriginSnapshot,
    pub extra: Option<String>,
}

#[verifier::ext_equal]
pub struct FoundRowModel {
    pub at: int,
    pub row: RowModel,
    pub origin: OriginModel,
    pub extra: Option<Text>,
}

impl View for FoundRow {
    type V = FoundRowModel;

    open spec fn view(&self) -> FoundRowModel {
        FoundRowModel { at: self.at as int, row: self.row@, origin: self.origin@, extra: opt_text(self.extra) }
    }
}

/// A file that cannot travel: `at` is its number.
pub struct FoundOversized {
    pub at: usize,
    pub item: UnavailablePost,
}

pub open spec fn found_rows(s: Seq<FoundRow>) -> Seq<FoundRowModel> {
    s.map_values(|r: FoundRow| r@)
}

pub open spec fn found_oversized(s: Seq<FoundOversized>) -> Seq<(int, UnavailableModel)> {
    s.map_values(|p: FoundOversized| (p.at as int, p.item@))
}

/// What looking through a thread brings up.
pub struct Look {
    pub rows: Vec<FoundRow>,
    pub oversized: Vec<FoundOversized>,
    pub issues: Vec<Issue>,
}

#[verifier::ext_equal]
pub struct LookModel {
    pub scan: ScanModel,
    pub rows: Seq<FoundRowModel>,
    pub oversized: Seq<(int, UnavailableModel)>,
    pub issues: Seq<IssueModel>,
}

/// The files one after the other. One that cannot be judged is an issue and
/// does not keep the others from being looked at.
pub open spec fn looked(rows: Seq<RowModel>, st: StateModel, thread: Text, sights: Seq<VersionSight>, now: Text) -> LookModel
    decreases sights.len(),
{
    if sights.len() == 0 {
        LookModel {
            scan: scan_of(rows, thread),
            rows: Seq::empty(),
            oversized: Seq::empty(),
            issues: Seq::empty(),
        }
    } else {
        let l = looked(rows, st, thread, sights.drop_last(), now);
        let at = sights.len() - 1;
        let (found, scan) = inspected(rows, st, l.scan, sights.last(), now);
        match found {
            Ok(FindingModel::Nothing) => LookModel { scan, ..l },
            Ok(FindingModel::Oversized(p)) => LookModel { scan, oversized: l.oversized.push((at, p)), ..l },
            Ok(FindingModel::Row { row, origin, extra }) => LookModel {
                scan,
                rows: l.rows.push(FoundRowModel { at, row, origin, extra }),
                ..l
            },
            Err(_) => LookModel {
                scan,
                issues: l.issues.push(
                    IssueModel {
                        code: "invalid_or_changed_local_version"@,
                        thread: Some(thread),
                        post: Some(sights.last().location@.post),
                    },
                ),
                ..l
            },
        }
    }
}

pub open spec fn is_look(l: Look, m: LookModel) -> bool {
    &&& found_rows(l.rows@) == m.rows
    &&& found_oversized(l.oversized@) == m.oversized
    &&& issue_models(l.issues@) == m.issues
    &&& forall|i: int| 0 <= i < l.rows@.len() ==> (#[trigger] l.rows@[i]).row.wf()
}

pub fn look_through(state: &SyncState, thread: &str, sights: &Vec<VersionSight>, now: &str) -> (r: Look)
    requires
        state.wf(),
    ensures
        is_look(r, looked(ledger_rows(state.ledger.entries@), state@, thread@, sights@, now@)),
{
    let ghost known = ledger_rows(state.ledger.entries@);
    let mut scan = Scan::begin(state, thread);
    let mut l = Look { rows: Vec::new(), oversized: Vec::new(), issues: Vec::new() };
    let mut i: usize = 0;
    proof {
        let none = looked(known, state@, thread@, sights@.take(0), now@);
        assert(found_rows(l.rows@) =~= none.rows);
        assert(found_oversized(l.oversized@) =~= none.oversized);
        assert(issue_models(l.issues@) =~= none.issues);
    }
    while i < sights.len()
        invariant
            i <= sights@.len(),
            state.wf(),
            known == ledger_rows(state.ledger.entries@),
            scan.wf(),
            scan@ == looked(known, state@, thread@, sights@.take(i as int), now@).scan,
            is_look(l, looked(known, state@, thread@, sights@.take(i as int), now@)),
        decreases sights@.len() - i,
    {
        let ghost was = l;
        let ghost m = looked(known, state@, thread@, sights@.take(i as int), now@);
        assert(sights@.take(i + 1).drop_last() =~= sights@.take(i as int));
        assert(sights@.take(i + 1).last() == sights@[i as int]);
        let s = &sights[i];
        match inspect(state, &mut scan, s, now) {
            Ok(Finding::Nothing) => {},
            Ok(Finding::Oversized(item)) => {
                l.oversized.push(FoundOversized { at: i, item });
                assert(found_oversized(l.oversized@) =~= m.oversized.push((i as int, item@)));
            },
            Ok(Finding::Row { row, origin, extra }) => {
                let x = FoundRow { at: i, row, origin, extra };
                l.rows.push(x);
                assert(found_rows(l.rows@) =~= m.rows.push(x@));
            },
            Err(_) => {
                let e = failed_version(thread, &s.location.post);
                l.issues.push(e);
                assert(issue_models(l.issues@) =~= m.issues.push(e@));
            },
        }
        i += 1;
    }
    assert(sights@.take(i as int) =~= sights@);
    l
}

/// Look through a thread now.
pub fn refresh_root(state: &SyncState, thread: &str, sights: &Vec<VersionSight>) -> (r: Look)
    requires
        state.wf(),
    ensures
        exists|now: Text|
            is_look(r, #[trigger] looked(ledger_rows(state.ledger.entries@), state@, thread@, sights@, now)),
{
    let now = now_iso();
    look_through(state, thread, sights, &now)
}

// ---------------------------------------------------------------------- laws

/// Nothing that is deleted is found again: neither a version nor a post that
/// cannot travel.
pub proof fn nothing_deleted_is_found(
    rows: Seq<RowModel>,
    st: StateModel,
    thread: Text,
    sights: Seq<VersionSight>,
    now: Text,
)
    ensures
        ({
            let l = looked(rows, st, thread, sights, now);
            &&& forall|i: int|
                0 <= i < l.rows.len() ==> !suppressed(
                    st,
                    thread,
                    (#[trigger] l.rows[i]).row.post_id,
                    l.rows[i].row.version_id,
                )
            &&& forall|i: int|
                0 <= i < l.oversized.len() ==> !logical_deleted(st, thread, (#[trigger] l.oversized[i]).1.post_id)
        }),
    decreases sights.len(),
{
    if sights.len() > 0 {
        nothing_deleted_is_found(rows, st, thread, sights.drop_last(), now);
        lemma_thread(rows, st, thread, sights.drop_last(), now);
    }
}

/// Looking through a thread never leaves it.
proof fn lemma_thread(rows: Seq<RowModel>, st: StateModel, thread: Text, sights: Seq<VersionSight>, now: Text)
    ensures
        looked(rows, st, thread, sights, now).scan.thread == thread,
    decreases sights.len() + rows.len(),
{
    if sights.len() > 0 {
        lemma_thread(rows, st, thread, sights.drop_last(), now);
    } else if rows.len() > 0 {
        lemma_thread(rows.drop_last(), st, thread, sights, now);
    }
}

/// Every file is a version, or cannot travel, or is an issue, or is deleted:
/// none is counted twice.
pub proof fn every_file_counts_once(
    rows: Seq<RowModel>,
    st: StateModel,
    thread: Text,
    sights: Seq<VersionSight>,
    now: Text,
)
    ensures
        ({
            let l = looked(rows, st, thread, sights, now);
            l.rows.len() + l.oversized.len() + l.issues.len() <= sights.len()
        }),
    decreases sights.len(),
{
    if sights.len() > 0 {
        every_file_counts_once(rows, st, thread, sights.drop_last(), now);
    }
}

/// A version that was read, and not merely found unchanged, has the hash and
/// the size of its bytes.
pub proof fn a_version_has_the_hash_of_its_bytes(rows: Seq<RowModel>, m: ScanModel, s: VersionSight)
    requires
        started(rows, m, s) matches Ok(StartModel::Version { .. }),
        first_cached(rows, m.thread, s.location@.post, s.observed->0) is None,
    ensures
        started(rows, m, s) matches Ok(StartModel::Version { version, body, .. }) && version.version_id == sha256(
            s.file.bytes@,
        ) && version.size == body.len && body == s.file.before,
{
}

/// A file that was read whole counts exactly if it is a regular file of the
/// allowed size and did not change, neither under its name nor once open; it
/// has the hash of its bytes.
pub proof fn a_file_counts_if_it_was_steady(f: FileRead, max: u64)
    ensures
        bounded(f, max) is Ok <==> {
            &&& f.regular
            &&& f.before.len <= max
            &&& f.bytes@.len() == f.before.len
            &&& f.after == f.before
            &&& f.at_path == Some(f.before)
        },
        bounded(f, max) matches Ok(h) ==> h == sha256(f.bytes@),
{
}

/// A version that is read tells the file's own hash, size, kind and
/// attachments, for the thread and post that were asked for.
pub proof fn a_version_tells_of_its_file(thread: Text, post: Text, f: FileRead, meta: Result<PostModel, Text>)
    requires
        version_read(thread, post, f, meta) is Ok,
    ensures
        ({
            let v = version_read(thread, post, f, meta)->Ok_0;
            &&& v.thread_id == thread && v.post_id == post
            &&& v.version_id == sha256(f.bytes@) && v.size == f.bytes@.len()
            &&& meta matches Ok(m) && v.kind == m.kind && m.thread_id == thread && m.post_id == post && post_refs(m) == Ok::<
                Seq<RefModel>,
                Text,
            >(v.attachments)
            &&& v.avatar is None
            &&& f.bytes@.len() <= 8388608
        }),
{
}

/// A file that the ledger knows is trusted only as the attachment that was
/// checked: verified, with the same hash and the same size.
pub proof fn only_a_checked_attachment_is_trusted(row: Option<RowModel>, a: RefModel)
    ensures
        trusted(row, a) is Some ==> (row matches Some(r) && r.attachments.contains_key(tkey(a.id))
            && r.attachments[tkey(a.id)].verified && r.attachments[tkey(a.id)].sha256 == a.sha256
            && r.attachments[tkey(a.id)].size == a.size && trusted(row, a) == r.attachments[tkey(a.id)].stamp),
        row matches Some(r) ==> r.attachments.contains_key(tkey(a.id)) && r.attachments[tkey(a.id)].verified
            && r.attachments[tkey(a.id)].sha256 == a.sha256 && r.attachments[tkey(a.id)].size == a.size ==> trusted(row, a)
            == r.attachments[tkey(a.id)].stamp,
        row is None ==> trusted(row, a) is None,
{
}

/// What is found of each attachment is found of that attachment: its file, by
/// its own hash and size.
pub proof fn every_attachment_is_judged_by_itself(
    row: Option<RowModel>,
    refs: Seq<RefModel>,
    files: Seq<Result<Reading, String>>,
    i: int,
)
    requires
        files_at(row, refs, files) is Ok,
        0 <= i < refs.len(),
    ensures
        files_at(row, refs, files)->Ok_0.len() == refs.len(),
        file_at(files, i, refs[i].sha256, refs[i].size as u64, trusted(row, refs[i])) == Ok::<Option<FileStamp>, Text>(
            files_at(row, refs, files)->Ok_0[i],
        ),
        i >= files.len() ==> files_at(row, refs, files)->Ok_0[i] is None,
    decreases refs.len(),
{
    let head = refs.drop_last();
    lemma_files_len(row, refs, files);
    lemma_files_len(row, head, files);
    if i < head.len() {
        every_attachment_is_judged_by_itself(row, head, files, i);
        assert(head[i] == refs[i]);
        assert(files_at(row, refs, files)->Ok_0[i] == files_at(row, head, files)->Ok_0[i]);
    }
}

proof fn lemma_files_len(row: Option<RowModel>, refs: Seq<RefModel>, files: Seq<Result<Reading, String>>)
    ensures
        files_at(row, refs, files) matches Ok(s) ==> s.len() == refs.len(),
    decreases refs.len(),
{
    if refs.len() > 0 {
        lemma_files_len(row, refs.drop_last(), files);
    }
}

/// A file whose stamp the ledger knows is not read again; one that is gone is
/// an error; one that cannot travel is told so.
pub proof fn an_unchanged_file_is_not_read(rows: Seq<RowModel>, m: ScanModel, s: VersionSight, v: VersionModel)
    ensures
        s.observed is None ==> started(rows, m, s) == Err::<StartModel, Text>("source_changed"@),
        s.observed matches Some(o) ==> first_cached(rows, m.thread, s.location@.post, o) == Some(v) ==> started(rows, m, s)
            == Ok::<StartModel, Text>(StartModel::Version { version: v, body: o, avatar: v.avatar }),
{
}

/// The kind of a post counts as known only in its own thread.
pub proof fn a_kind_is_known_in_its_thread(m: ScanModel, post: Text)
    ensures
        kind_known(m, post) matches Some(k) ==> m.known.contains_key(tkey(post)) && m.known[tkey(post)] == (m.thread, k),
        m.known.contains_key(tkey(post)) && m.known[tkey(post)].0 == m.thread ==> kind_known(m, post) == Some(
            m.known[tkey(post)].1,
        ),
{
}

/// The row of a version tells its thread, post and version, the file it lies in
/// now, and each attachment as it was found.
pub proof fn a_found_row_tells_of_its_version(
    st: StateModel,
    thread: Text,
    v: VersionModel,
    body: FileStamp,
    avatar: Option<AvatarModel>,
    s: VersionSight,
    now: Text,
    i: int,
)
    requires
        finished(st, thread, v, body, avatar, s, now) is Ok,
    ensures
        finished(st, thread, v, body, avatar, s, now) matches Ok(FindingModel::Row { row, origin, extra }) && {
            &&& row.thread_id == thread && row.post_id == v.post_id && row.version_id == v.version_id
            &&& row.updated_at == now
            &&& s.location@.extra is None || s.location@.extra == Some(v.version_id) ==> row.body_stamp == Some(body)
                && extra == s.location@.extra
            &&& s.location@.extra is Some && s.location@.extra != Some(v.version_id) ==> s.moved is Ok && row.body_stamp
                == Some(s.moved->Ok_0) && extra == Some(v.version_id)
            &&& row.descriptor matches Some(q) && q.kind == v.kind && q.size == v.size && q.avatar == Some(origin.avatar)
                && q.attachments.len() == v.attachments.len() && (0 <= i < v.attachments.len() ==> q.attachments[i].id
                == v.attachments[i].id && q.attachments[i].sha256 == v.attachments[i].sha256)
        },
{
}

/// A picture that is as the ledger last saw it is not read; any other counts
/// only by its bytes, and a post without a picture needs none.
pub proof fn a_known_picture_is_not_read(
    row: RowModel,
    avatar: AvatarModel,
    f: Reading,
    stamp: FileStamp,
    e: String,
)
    requires
        f.observed == Some(stamp),
    ensures
        avatar_resource(avatar) is None ==> picture_at(Some(row), avatar, Ok(f)) == Ok::<Option<FileStamp>, Text>(None),
        avatar_resource(avatar) matches Some(r) ==> {
            &&& stamp.len == r.size as u64 && row.avatar_stamp == Some(stamp) ==> picture_at(Some(row), avatar, Ok(f)) == Ok::<
                Option<FileStamp>,
                Text,
            >(Some(stamp))
            &&& stamp.len == r.size as u64 && row.avatar_stamp != Some(stamp) ==> (picture_at(Some(row), avatar, Ok(f)) == Ok::<
                Option<FileStamp>,
                Text,
            >(Some(stamp)) <==> f.total == stamp.len && f.hash@ == r.sha256 && f.unchanged)
            &&& picture_at(None, avatar, Ok(f)) == Ok::<Option<FileStamp>, Text>(Some(stamp)) ==> f.hash@ == r.sha256
            &&& picture_at(Some(row), avatar, Err(e)) == Err::<Option<FileStamp>, Text>(e@)
        },
{
    assert(seq![Ok::<Reading, String>(f)][0] == Ok::<Reading, String>(f));
    assert(seq![Err::<Reading, String>(e)][0] == Err::<Reading, String>(e));
}

} // verus!
