//! What a device remembers of the content that it shares: the versions it
//! knows, what was deleted, and which threads belong to which group.
use vstd::prelude::*;
use crate::ids::{is_hash, is_safe_id, safe_id, valid_hash};
use crate::order::{Key, OrderedMap, OrderedSet, Parts};
use crate::text::{copy_opt, opt_text, own, plus, plus3, same, texts, Text};

verus! {

/// The longest post that travels, 8 MiB.
pub const MAX_BODY_BYTES: u64 = 8388608;

/// The longest frontmatter that travels, 64 KiB.
pub const MAX_FRONTMATTER_BYTES: usize = 65536;

/// The longest record of a thread, 64 KiB.
pub const MAX_THREAD_BYTES: usize = 65536;

/// The key under which an ordered map holds a text.
pub open spec fn tkey(s: Text) -> Parts {
    seq![s]
}

// -------------------------------------------------------------------- stamps

/// What tells one state of a file from another: the file itself, its length
/// and its times to the nanosecond.
#[derive(Clone, Copy, Debug, PartialEq, Eq, Structural)]
pub struct FileStamp {
    pub inode: u64,
    pub len: u64,
    pub modified: i64,
    pub modified_ns: i64,
    pub changed: i64,
    pub changed_ns: i64,
}

pub fn same_stamp(a: &Option<FileStamp>, b: &Option<FileStamp>) -> (r: bool)
    ensures
        r == (*a == *b),
{
    match (a, b) {
        (Some(x), Some(y)) => *x == *y,
        (None, None) => true,
        _ => false,
    }
}

// ------------------------------------------------------------------ versions

/// An attachment that a version refers to.
pub struct AttachmentRef {
    pub id: String,
    pub sha256: String,
    pub size_bytes: u64,
    pub ext: String,
    pub available: bool,
}

pub struct RefModel {
    pub id: Text,
    pub sha256: Text,
    pub size: nat,
    pub ext: Text,
    pub available: bool,
}

impl View for AttachmentRef {
    type V = RefModel;

    open spec fn view(&self) -> RefModel {
        RefModel {
            id: self.id@,
            sha256: self.sha256@,
            size: self.size_bytes as nat,
            ext: self.ext@,
            available: self.available,
        }
    }
}

impl AttachmentRef {
    pub fn copy(&self) -> (r: AttachmentRef)
        ensures
            r == *self,
    {
        AttachmentRef {
            id: self.id.clone(),
            sha256: self.sha256.clone(),
            size_bytes: self.size_bytes,
            ext: self.ext.clone(),
            available: self.available,
        }
    }
}

pub open spec fn ref_models(s: Seq<AttachmentRef>) -> Seq<RefModel> {
    s.map_values(|a: AttachmentRef| a@)
}

pub fn copy_refs(v: &Vec<AttachmentRef>) -> (r: Vec<AttachmentRef>)
    ensures
        r@ == v@,
{
    let mut out: Vec<AttachmentRef> = Vec::new();
    let mut i: usize = 0;
    while i < v.len()
        invariant
            i <= v@.len(),
            out@ == v@.take(i as int),
        decreases v@.len() - i,
    {
        out.push(v[i].copy());
        i += 1;
        assert(out@ =~= v@.take(i as int));
    }
    assert(v@.take(i as int) =~= v@);
    out
}

/// The picture of an author, as it was when the post was written.
pub struct AvatarSidecar {
    pub kind: String,
    pub id: Option<String>,
    pub sha256: Option<String>,
    pub ext: Option<String>,
    pub size_bytes: Option<u64>,
}

pub struct AvatarModel {
    pub kind: Text,
    pub id: Option<Text>,
    pub sha256: Option<Text>,
    pub ext: Option<Text>,
    pub size: Option<u64>,
}

impl View for AvatarSidecar {
    type V = AvatarModel;

    open spec fn view(&self) -> AvatarModel {
        AvatarModel {
            kind: self.kind@,
            id: opt_text(self.id),
            sha256: opt_text(self.sha256),
            ext: opt_text(self.ext),
            size: self.size_bytes,
        }
    }
}

pub open spec fn no_avatar() -> AvatarModel {
    AvatarModel { kind: "none"@, id: None, sha256: None, ext: None, size: None }
}

pub open spec fn is_image_ext(s: Text) -> bool {
    s == "png"@ || s == "jpg"@ || s == "webp"@
}

/// The longest picture.
pub const MAX_AVATAR_BYTES: u64 = 600000;

/// A picture is none, a built-in one, or an image with its hash.
pub open spec fn is_avatar(a: AvatarModel) -> bool {
    ||| a == no_avatar()
    ||| a.kind == "builtin"@ && a.id is Some && a.sha256 is None && a.ext is None && a.size is None
    ||| {
        &&& a.kind == "image"@
        &&& a.id is None
        &&& a.sha256 is Some && is_hash(a.sha256->0)
        &&& a.ext is Some && is_image_ext(a.ext->0)
        &&& a.size is Some && 0 < a.size->0 <= MAX_AVATAR_BYTES
    }
}

pub fn image_ext(s: &str) -> (r: bool)
    ensures
        r == is_image_ext(s@),
{
    same(s, "png") || same(s, "jpg") || same(s, "webp")
}

impl AvatarSidecar {
    pub fn none() -> (r: AvatarSidecar)
        ensures
            r@ == no_avatar(),
    {
        AvatarSidecar { kind: own("none"), id: None, sha256: None, ext: None, size_bytes: None }
    }

    pub fn copy(&self) -> (r: AvatarSidecar)
        ensures
            r == *self,
    {
        AvatarSidecar {
            kind: self.kind.clone(),
            id: copy_opt(&self.id),
            sha256: copy_opt(&self.sha256),
            ext: copy_opt(&self.ext),
            size_bytes: self.size_bytes,
        }
    }

    pub fn valid(&self) -> (r: bool)
        ensures
            r == is_avatar(self@),
    {
        proof {
            reveal_strlit("none");
            reveal_strlit("builtin");
            reveal_strlit("image");
            assert("none"@.len() == 4 && "builtin"@.len() == 7 && "image"@.len() == 5);
        }
        if same(&self.kind, "none") {
            return self.id.is_none() && self.sha256.is_none() && self.ext.is_none() && self.size_bytes.is_none();
        }
        if same(&self.kind, "builtin") {
            return self.id.is_some() && self.sha256.is_none() && self.ext.is_none() && self.size_bytes.is_none();
        }
        if !same(&self.kind, "image") || self.id.is_some() {
            return false;
        }
        match (&self.sha256, &self.ext, self.size_bytes) {
            (Some(h), Some(e), Some(n)) => valid_hash(h) && image_ext(e) && 0 < n && n <= MAX_AVATAR_BYTES,
            _ => false,
        }
    }
}

pub open spec fn opt_avatar(a: Option<AvatarSidecar>) -> Option<AvatarModel> {
    match a {
        Some(x) => Some(x@),
        None => None,
    }
}

pub fn copy_avatar(a: &Option<AvatarSidecar>) -> (r: Option<AvatarSidecar>)
    ensures
        r == *a,
{
    match a {
        Some(x) => Some(x.copy()),
        None => None,
    }
}

/// One version of a post.
pub struct PostVersion {
    pub thread_id: String,
    pub post_id: String,
    pub version_id: String,
    pub size_bytes: u64,
    pub kind: String,
    pub attachments: Vec<AttachmentRef>,
    pub avatar: Option<AvatarSidecar>,
}

pub struct VersionModel {
    pub thread_id: Text,
    pub post_id: Text,
    pub version_id: Text,
    pub size: nat,
    pub kind: Text,
    pub attachments: Seq<RefModel>,
    pub avatar: Option<AvatarModel>,
}

impl View for PostVersion {
    type V = VersionModel;

    open spec fn view(&self) -> VersionModel {
        VersionModel {
            thread_id: self.thread_id@,
            post_id: self.post_id@,
            version_id: self.version_id@,
            size: self.size_bytes as nat,
            kind: self.kind@,
            attachments: ref_models(self.attachments@),
            avatar: opt_avatar(self.avatar),
        }
    }
}

impl PostVersion {
    pub fn copy(&self) -> (r: PostVersion)
        ensures
            r@ == self@,
    {
        PostVersion {
            thread_id: self.thread_id.clone(),
            post_id: self.post_id.clone(),
            version_id: self.version_id.clone(),
            size_bytes: self.size_bytes,
            kind: self.kind.clone(),
            attachments: copy_refs(&self.attachments),
            avatar: copy_avatar(&self.avatar),
        }
    }
}

pub open spec fn opt_version(p: Option<PostVersion>) -> Option<VersionModel> {
    match p {
        Some(x) => Some(x@),
        None => None,
    }
}

// -------------------------------------------------------------------- ledger

/// What is known of an attachment's bytes on this device.
pub struct AttachmentState {
    pub sha256: String,
    pub size_bytes: u64,
    pub verified: bool,
    pub stamp: Option<FileStamp>,
}

pub struct StoredModel {
    pub sha256: Text,
    pub size: nat,
    pub verified: bool,
    pub stamp: Option<FileStamp>,
}

impl View for AttachmentState {
    type V = StoredModel;

    open spec fn view(&self) -> StoredModel {
        StoredModel {
            sha256: self.sha256@,
            size: self.size_bytes as nat,
            verified: self.verified,
            stamp: self.stamp,
        }
    }
}

pub open spec fn stored_models(m: Map<Parts, AttachmentState>) -> Map<Parts, StoredModel> {
    m.map_values(|s: AttachmentState| s@)
}

/// A version that this device knows, and the proofs of its files.
pub struct LedgerEntry {
    pub thread_id: String,
    pub post_id: String,
    pub version_id: String,
    pub updated_at: String,
    pub attachments: OrderedMap<String, AttachmentState>,
    pub body_stamp: Option<FileStamp>,
    pub descriptor: Option<PostVersion>,
    pub avatar_stamp: Option<FileStamp>,
}

#[verifier::ext_equal]
pub struct RowModel {
    pub thread_id: Text,
    pub post_id: Text,
    pub version_id: Text,
    pub updated_at: Text,
    pub attachments: Map<Parts, StoredModel>,
    pub body_stamp: Option<FileStamp>,
    pub descriptor: Option<VersionModel>,
    pub avatar_stamp: Option<FileStamp>,
}

impl View for LedgerEntry {
    type V = RowModel;

    open spec fn view(&self) -> RowModel {
        RowModel {
            thread_id: self.thread_id@,
            post_id: self.post_id@,
            version_id: self.version_id@,
            updated_at: self.updated_at@,
            attachments: stored_models(self.attachments@),
            body_stamp: self.body_stamp,
            descriptor: opt_version(self.descriptor),
            avatar_stamp: self.avatar_stamp,
        }
    }
}

/// Where the ledger keeps a version.
pub open spec fn version_key(post: Text, version: Text) -> Text {
    post + "/"@ + version
}

impl LedgerEntry {
    pub open spec fn wf(&self) -> bool {
        self.attachments.wf()
    }

    /// The key of a version, if it can have one.
    pub fn version_key(post: &str, version: &str) -> (r: Option<String>)
        ensures
            r is Some == (is_safe_id(post@) && is_hash(version@)),
            r matches Some(k) ==> k@ == version_key(post@, version@),
    {
        if !safe_id(post) || !valid_hash(version) {
            return None;
        }
        Some(plus3(post, "/", version))
    }
}

// ------------------------------------------------------------------ deletion

/// Something that was deleted: a thread, a post with all its versions, or one
/// version.
pub struct Tombstone {
    pub thread_id: String,
    pub post_id: Option<String>,
    pub version_id: Option<String>,
    pub deleted_at: String,
}

pub struct TombModel {
    pub thread_id: Text,
    pub post_id: Option<Text>,
    pub version_id: Option<Text>,
    pub deleted_at: Text,
}

impl View for Tombstone {
    type V = TombModel;

    open spec fn view(&self) -> TombModel {
        TombModel {
            thread_id: self.thread_id@,
            post_id: opt_text(self.post_id),
            version_id: opt_text(self.version_id),
            deleted_at: self.deleted_at@,
        }
    }
}

/// The deletion concerns this version.
pub open spec fn covers(d: TombModel, thread: Text, post: Text, version: Text) -> bool {
    &&& d.thread_id == thread
    &&& d.post_id is None || d.post_id == Some(post)
    &&& d.version_id is None || d.version_id == Some(version)
}

/// The deletion concerns the whole post.
pub open spec fn covers_post(d: TombModel, thread: Text, post: Text) -> bool {
    &&& d.thread_id == thread
    &&& d.post_id is None || d.post_id == Some(post)
    &&& d.version_id is None
}

/// The key of a deleted thread.
pub open spec fn thread_key(thread: Text) -> Text {
    "thread:"@ + thread
}

/// The key of a deletion.
pub open spec fn tomb_key(d: TombModel) -> Text {
    match (d.post_id, d.version_id) {
        (Some(p), Some(v)) => "version:"@ + d.thread_id + "/"@ + p + "/"@ + v,
        (Some(p), None) => "post:"@ + d.thread_id + "/"@ + p,
        _ => thread_key(d.thread_id),
    }
}

/// A deletion names a version only together with its post.
pub open spec fn is_tomb(d: TombModel) -> bool {
    d.version_id is Some ==> d.post_id is Some
}

impl Tombstone {
    pub fn covers(&self, thread: &str, post: &str, version: &str) -> (r: bool)
        ensures
            r == covers(self@, thread@, post@, version@),
    {
        same(&self.thread_id, thread) && (match &self.post_id {
            Some(p) => same(p, post),
            None => true,
        }) && (match &self.version_id {
            Some(v) => same(v, version),
            None => true,
        })
    }

    pub fn covers_post(&self, thread: &str, post: &str) -> (r: bool)
        ensures
            r == covers_post(self@, thread@, post@),
    {
        same(&self.thread_id, thread) && (match &self.post_id {
            Some(p) => same(p, post),
            None => true,
        }) && self.version_id.is_none()
    }

    pub fn key(&self) -> (r: String)
        ensures
            r@ == tomb_key(self@),
    {
        match (&self.post_id, &self.version_id) {
            (Some(p), Some(v)) => {
                let mut k = plus3("version:", &self.thread_id, "/");
                k.append(p);
                k.append("/");
                k.append(v);
                k
            },
            (Some(p), None) => {
                let mut k = plus3("post:", &self.thread_id, "/");
                k.append(p);
                k
            },
            _ => plus("thread:", &self.thread_id),
        }
    }

    pub fn copy(&self) -> (r: Tombstone)
        ensures
            r == *self,
    {
        Tombstone {
            thread_id: self.thread_id.clone(),
            post_id: copy_opt(&self.post_id),
            version_id: copy_opt(&self.version_id),
            deleted_at: self.deleted_at.clone(),
        }
    }
}

// ----------------------------------------------------------- threads and groups

/// What a thread is made of, without its posts.
pub struct ThreadRecord {
    pub schema: String,
    pub thread_id: String,
    pub status: String,
    pub visibility: String,
    pub project_tags: Vec<String>,
    pub created_by_project: String,
    pub created_by_agent: String,
    pub created_at: String,
}

pub struct RecordModel {
    pub schema: Text,
    pub thread_id: Text,
    pub status: Text,
    pub visibility: Text,
    pub project_tags: Seq<Text>,
    pub created_by_project: Text,
    pub created_by_agent: Text,
    pub created_at: Text,
}

impl View for ThreadRecord {
    type V = RecordModel;

    open spec fn view(&self) -> RecordModel {
        RecordModel {
            schema: self.schema@,
            thread_id: self.thread_id@,
            status: self.status@,
            visibility: self.visibility@,
            project_tags: texts(self.project_tags@),
            created_by_project: self.created_by_project@,
            created_by_agent: self.created_by_agent@,
            created_at: self.created_at@,
        }
    }
}

/// A record and its hash.
pub struct ThreadRecordItem {
    pub record: ThreadRecord,
    pub sha256: String,
}

pub struct ItemModel {
    pub record: RecordModel,
    pub sha256: Text,
}

impl View for ThreadRecordItem {
    type V = ItemModel;

    open spec fn view(&self) -> ItemModel {
        ItemModel { record: self.record@, sha256: self.sha256@ }
    }
}

impl ThreadRecordItem {
    pub fn copy(&self) -> (r: ThreadRecordItem)
        ensures
            r@ == self@,
    {
        ThreadRecordItem {
            record: ThreadRecord {
                schema: self.record.schema.clone(),
                thread_id: self.record.thread_id.clone(),
                status: self.record.status.clone(),
                visibility: self.record.visibility.clone(),
                project_tags: crate::text::copy_texts(&self.record.project_tags),
                created_by_project: self.record.created_by_project.clone(),
                created_by_agent: self.record.created_by_agent.clone(),
                created_at: self.record.created_at.clone(),
            },
            sha256: self.sha256.clone(),
        }
    }
}

/// Why a post cannot travel.
#[derive(Clone, Copy, Debug, PartialEq, Eq, Structural)]
pub enum UnavailableReason {
    TooLargeToSync,
}

/// A post that exists but cannot travel.
pub struct UnavailablePost {
    pub thread_id: String,
    pub post_id: String,
    pub reason: UnavailableReason,
    pub kind: Option<String>,
}

pub struct UnavailableModel {
    pub thread_id: Text,
    pub post_id: Text,
    pub reason: UnavailableReason,
    pub kind: Option<Text>,
}

impl View for UnavailablePost {
    type V = UnavailableModel;

    open spec fn view(&self) -> UnavailableModel {
        UnavailableModel {
            thread_id: self.thread_id@,
            post_id: self.post_id@,
            reason: self.reason,
            kind: opt_text(self.kind),
        }
    }
}

pub open spec fn is_kind(s: Text) -> bool {
    s == "topic"@ || s == "reply"@
}

pub fn known_kind(s: &str) -> (r: bool)
    ensures
        r == is_kind(s@),
{
    same(s, "topic") || same(s, "reply")
}

pub open spec fn is_unavailable(p: UnavailableModel) -> bool {
    is_safe_id(p.thread_id) && is_safe_id(p.post_id) && (p.kind is Some ==> is_kind(p.kind->0))
}

/// Where a post that cannot travel is remembered.
pub open spec fn unavailable_key(thread: Text, post: Text) -> Text {
    thread + "/"@ + post
}

impl UnavailablePost {
    pub fn valid(&self) -> (r: bool)
        ensures
            r == is_unavailable(self@),
    {
        safe_id(&self.thread_id) && safe_id(&self.post_id) && (match &self.kind {
            Some(k) => known_kind(k),
            None => true,
        })
    }

    pub fn key(&self) -> (r: String)
        ensures
            r@ == unavailable_key(self@.thread_id, self@.post_id),
    {
        plus3(&self.thread_id, "/", &self.post_id)
    }

    pub fn copy(&self) -> (r: UnavailablePost)
        ensures
            r == *self,
    {
        UnavailablePost {
            thread_id: self.thread_id.clone(),
            post_id: self.post_id.clone(),
            reason: self.reason,
            kind: copy_opt(&self.kind),
        }
    }
}

/// A group's shared threads.
pub struct Group {
    pub shared_threads: OrderedSet<String>,
}

// --------------------------------------------------------------------- state

pub struct SyncState {
    pub groups: OrderedMap<String, Group>,
    pub ledger: OrderedMap<String, LedgerEntry>,
    pub tombstones: OrderedMap<String, Tombstone>,
    pub thread_records: OrderedMap<String, ThreadRecordItem>,
    pub local_unavailable: OrderedMap<String, UnavailablePost>,
}

#[verifier::ext_equal]
pub struct StateModel {
    /// The shared threads of each group.
    pub groups: Map<Parts, Set<Parts>>,
    pub ledger: Map<Parts, RowModel>,
    pub tombstones: Map<Parts, TombModel>,
    pub records: Map<Parts, ItemModel>,
    pub unavailable: Map<Parts, UnavailableModel>,
}

pub open spec fn group_models(m: Map<Parts, Group>) -> Map<Parts, Set<Parts>> {
    m.map_values(|g: Group| g.shared_threads@)
}

pub open spec fn row_models(m: Map<Parts, LedgerEntry>) -> Map<Parts, RowModel> {
    m.map_values(|e: LedgerEntry| e@)
}

pub open spec fn tomb_models(m: Map<Parts, Tombstone>) -> Map<Parts, TombModel> {
    m.map_values(|d: Tombstone| d@)
}

pub open spec fn item_models(m: Map<Parts, ThreadRecordItem>) -> Map<Parts, ItemModel> {
    m.map_values(|d: ThreadRecordItem| d@)
}

pub open spec fn unavailable_models(m: Map<Parts, UnavailablePost>) -> Map<Parts, UnavailableModel> {
    m.map_values(|d: UnavailablePost| d@)
}

impl View for SyncState {
    type V = StateModel;

    open spec fn view(&self) -> StateModel {
        StateModel {
            groups: group_models(self.groups@),
            ledger: row_models(self.ledger@),
            tombstones: tomb_models(self.tombstones@),
            records: item_models(self.thread_records@),
            unavailable: unavailable_models(self.local_unavailable@),
        }
    }
}

/// Every entry of a ledger is well formed.
pub open spec fn rows_wf(s: Seq<(String, LedgerEntry)>) -> bool {
    forall|i: int| 0 <= i < s.len() ==> (#[trigger] s[i]).1.wf()
}

pub open spec fn groups_wf(s: Seq<(String, Group)>) -> bool {
    forall|i: int| 0 <= i < s.len() ==> (#[trigger] s[i]).1.shared_threads.wf()
}

/// Every deletion stands under its own key.
pub open spec fn tombs_keyed(m: Map<Parts, TombModel>) -> bool {
    forall|k: Parts| #[trigger] m.contains_key(k) ==> k == tkey(tomb_key(m[k])) && is_tomb(m[k])
}

impl SyncState {
    pub open spec fn wf(&self) -> bool {
        &&& self.groups.wf()
        &&& self.ledger.wf()
        &&& self.tombstones.wf()
        &&& self.thread_records.wf()
        &&& self.local_unavailable.wf()
        &&& rows_wf(self.ledger.entries@)
        &&& groups_wf(self.groups.entries@)
        &&& tombs_keyed(self@.tombstones)
    }

    pub fn new() -> (r: SyncState)
        ensures
            r.wf(),
            r@ == no_state(),
    {
        let r = SyncState {
            groups: OrderedMap::new(),
            ledger: OrderedMap::new(),
            tombstones: OrderedMap::new(),
            thread_records: OrderedMap::new(),
            local_unavailable: OrderedMap::new(),
        };
        assert(r@ =~= no_state());
        r
    }
}

pub open spec fn no_state() -> StateModel {
    StateModel {
        groups: Map::empty(),
        ledger: Map::empty(),
        tombstones: Map::empty(),
        records: Map::empty(),
        unavailable: Map::empty(),
    }
}

// -------------------------------------------------------------------- queries

/// A version is deleted, alone or with its post or thread.
pub open spec fn suppressed(s: StateModel, thread: Text, post: Text, version: Text) -> bool {
    exists|k: Parts| #[trigger] s.tombstones.contains_key(k) && covers(s.tombstones[k], thread, post, version)
}

/// A post is deleted with all its versions.
pub open spec fn logical_deleted(s: StateModel, thread: Text, post: Text) -> bool {
    exists|k: Parts| #[trigger] s.tombstones.contains_key(k) && covers_post(s.tombstones[k], thread, post)
}

/// A thread is deleted.
pub open spec fn thread_deleted(s: StateModel, thread: Text) -> bool {
    s.tombstones.contains_key(tkey(thread_key(thread)))
}

/// A thread is shared in a group.
pub open spec fn shared_in(s: StateModel, group: Text, thread: Text) -> bool {
    s.groups.contains_key(tkey(group)) && s.groups[tkey(group)].contains(tkey(thread))
}

/// Entry `i` of an ordered map, seen through its model.
pub proof fn lemma_at<V>(m: OrderedMap<String, V>, i: int)
    requires
        m.wf(),
        0 <= i < m.entries@.len(),
    ensures
        m@.contains_key(tkey(m.entries@[i].0@)),
        m@[tkey(m.entries@[i].0@)] == m.entries@[i].1,
        m.entries@[i].0.key() == tkey(m.entries@[i].0@),
{
    crate::order::lemma_entry(m.entries@, i);
}

/// Every key of an ordered map stands at some entry.
pub proof fn lemma_found<V>(m: OrderedMap<String, V>, k: Parts) -> (i: int)
    requires
        m.wf(),
        m@.contains_key(k),
    ensures
        0 <= i < m.entries@.len(),
        m.entries@[i].0.key() == k,
        m.entries@[i].1 == m@[k],
{
    let i = choose|i: int| crate::order::keyed(m.entries@, i, k);
    crate::order::lemma_entry(m.entries@, i);
    i
}

impl SyncState {
    pub fn suppressed(&self, thread: &str, post: &str, version: &str) -> (r: bool)
        requires
            self.wf(),
        ensures
            r == suppressed(self@, thread@, post@, version@),
    {
        let v = &self.tombstones.entries;
        let mut i: usize = 0;
        while i < v.len()
            invariant
                self.wf(),
                v == self.tombstones.entries,
                i <= v@.len(),
                forall|j: int| 0 <= j < i ==> !covers((#[trigger] v@[j]).1@, thread@, post@, version@),
            decreases v@.len() - i,
        {
            if v[i].1.covers(thread, post, version) {
                proof {
                    lemma_at(self.tombstones, i as int);
                    assert(self@.tombstones.contains_key(tkey(v@[i as int].0@)));
                }
                return true;
            }
            i += 1;
        }
        proof {
            if suppressed(self@, thread@, post@, version@) {
                let k = choose|k: Parts|
                    #[trigger] self@.tombstones.contains_key(k) && covers(self@.tombstones[k], thread@, post@, version@);
                let j = lemma_found(self.tombstones, k);
                assert(!covers(v@[j].1@, thread@, post@, version@));
            }
        }
        false
    }

    pub fn logical_deleted(&self, thread: &str, post: &str) -> (r: bool)
        requires
            self.wf(),
        ensures
            r == logical_deleted(self@, thread@, post@),
    {
        let v = &self.tombstones.entries;
        let mut i: usize = 0;
        while i < v.len()
            invariant
                self.wf(),
                v == self.tombstones.entries,
                i <= v@.len(),
                forall|j: int| 0 <= j < i ==> !covers_post((#[trigger] v@[j]).1@, thread@, post@),
            decreases v@.len() - i,
        {
            if v[i].1.covers_post(thread, post) {
                proof {
                    lemma_at(self.tombstones, i as int);
                    assert(self@.tombstones.contains_key(tkey(v@[i as int].0@)));
                }
                return true;
            }
            i += 1;
        }
        proof {
            if logical_deleted(self@, thread@, post@) {
                let k = choose|k: Parts|
                    #[trigger] self@.tombstones.contains_key(k) && covers_post(self@.tombstones[k], thread@, post@);
                let j = lemma_found(self.tombstones, k);
                assert(!covers_post(v@[j].1@, thread@, post@));
            }
        }
        false
    }

    pub fn thread_deleted(&self, thread: &str) -> (r: bool)
        requires
            self.wf(),
        ensures
            r == thread_deleted(self@, thread@),
    {
        self.tombstones.has(&plus("thread:", thread))
    }

    pub fn shared_in(&self, group: &str, thread: &str) -> (r: bool)
        requires
            self.wf(),
        ensures
            r == shared_in(self@, group@, thread@),
    {
        let k = own(group);
        let found = self.groups.seek(&k);
        if !found.1 {
            return false;
        }
        self.groups.entries[found.0].1.shared_threads.has(&own(thread))
    }

    /// What the ledger says of a version.
    pub fn row(&self, post: &str, version: &str) -> (r: Option<&LedgerEntry>)
        requires
            self.wf(),
        ensures
            r is Some == self@.ledger.contains_key(tkey(version_key(post@, version@))),
            r matches Some(e) ==> e@ == self@.ledger[tkey(version_key(post@, version@))] && e.wf(),
    {
        let k = plus3(post, "/", version);
        assert(k@ == version_key(post@, version@));
        let found = self.ledger.seek(&k);
        if !found.1 {
            return None;
        }
        Some(&self.ledger.entries[found.0].1)
    }

    /// Share a thread in a group.
    pub fn share(&mut self, group: &str, thread: &str)
        requires
            old(self).wf(),
        ensures
            final(self).wf(),
            final(self)@ == sharing(old(self)@, group@, tkey(thread@)),
    {
        let ghost was = *self;
        let k = own(group);
        let mut set = match self.groups.remove(&k) {
            Some(g) => g.shared_threads,
            None => OrderedSet::new(),
        };
        proof {
            if was.groups@.contains_key(tkey(group@)) {
                let i = lemma_found(was.groups, tkey(group@));
                assert(was.groups.entries@[i].1.shared_threads.wf());
            }
        }
        set.insert(own(thread));
        let ghost g = Group { shared_threads: set };
        let ghost mid = self.groups;
        proof {
            assert forall|i: int| 0 <= i < self.groups.entries@.len() implies (
            #[trigger] self.groups.entries@[i]).1.shared_threads.wf() by {
                lemma_at(self.groups, i);
                let j = lemma_found(was.groups, tkey(self.groups.entries@[i].0@));
            }
        }
        self.groups.insert(k, Group { shared_threads: set });
        proof {
            assert forall|i: int| 0 <= i < self.groups.entries@.len() implies (
            #[trigger] self.groups.entries@[i]).1.shared_threads.wf() by {
                lemma_at(self.groups, i);
                let key = tkey(self.groups.entries@[i].0@);
                if key != tkey(group@) {
                    let j = lemma_found(was.groups, key);
                }
            }
            assert(self@.groups =~= sharing(was@, group@, tkey(thread@)).groups);
        }
    }

    /// Remember a version.
    pub fn put_row(&mut self, key: String, row: LedgerEntry)
        requires
            old(self).wf(),
            row.wf(),
        ensures
            final(self).wf(),
            final(self)@ == (StateModel { ledger: old(self)@.ledger.insert(tkey(key@), row@), ..old(self)@ }),
    {
        let ghost was = *self;
        self.ledger.insert(key, row);
        proof {
            assert forall|i: int| 0 <= i < self.ledger.entries@.len() implies (
            #[trigger] self.ledger.entries@[i]).1.wf() by {
                lemma_at(self.ledger, i);
                let k = tkey(self.ledger.entries@[i].0@);
                if k != tkey(key@) {
                    let j = lemma_found(was.ledger, k);
                }
            }
            assert(self@.ledger =~= was@.ledger.insert(tkey(key@), row@));
        }
    }

    /// Remember a deletion, unless it is known.
    pub fn bury(&mut self, d: Tombstone)
        requires
            old(self).wf(),
            is_tomb(d@),
        ensures
            final(self).wf(),
            final(self)@ == buried(old(self)@, d@),
    {
        let ghost was = *self;
        let k = d.key();
        if !self.tombstones.has(&k) {
            self.tombstones.insert(k, d);
            assert(self@.tombstones =~= was@.tombstones.insert(tkey(tomb_key(d@)), d@));
        }
    }
}

pub open spec fn sharing(s: StateModel, group: Text, thread: Parts) -> StateModel {
    let had = if s.groups.contains_key(tkey(group)) {
        s.groups[tkey(group)]
    } else {
        Set::empty()
    };
    StateModel { groups: s.groups.insert(tkey(group), had.insert(thread)), ..s }
}

pub open spec fn buried(s: StateModel, d: TombModel) -> StateModel {
    if s.tombstones.contains_key(tkey(tomb_key(d))) {
        s
    } else {
        StateModel { tombstones: s.tombstones.insert(tkey(tomb_key(d)), d), ..s }
    }
}

// ---------------------------------------------------------------------- laws

/// A deletion is never withdrawn: what is deleted stays so whatever else is
/// deleted.
pub proof fn deletions_stay(s: StateModel, d: TombModel, thread: Text, post: Text, version: Text)
    requires
        suppressed(s, thread, post, version),
    ensures
        suppressed(buried(s, d), thread, post, version),
{
    let k = choose|k: Parts| #[trigger] s.tombstones.contains_key(k) && covers(s.tombstones[k], thread, post, version);
    assert(buried(s, d).tombstones.contains_key(k));
}

pub(crate) proof fn lemma_thread_key(d: TombModel, thread: Text)
    requires
        tomb_key(d) == thread_key(thread),
        is_tomb(d),
    ensures
        d.post_id is None,
        d.version_id is None,
        d.thread_id == thread,
{
    reveal_strlit("thread:");
    reveal_strlit("post:");
    reveal_strlit("version:");
    let k = tomb_key(d);
    assert(thread_key(thread)[0] == 't');
    if d.post_id is Some {
        if d.version_id is Some {
            assert(k[0] == 'v');
        } else {
            assert(k[0] == 'p');
        }
    }
    assert(k.skip(7) =~= d.thread_id);
    assert(thread_key(thread).skip(7) =~= thread);
}

/// In a deleted thread every version of every post is deleted.
pub proof fn a_deleted_thread_has_no_posts(s: StateModel, thread: Text, post: Text, version: Text)
    requires
        tombs_keyed(s.tombstones),
        thread_deleted(s, thread),
    ensures
        suppressed(s, thread, post, version),
        logical_deleted(s, thread, post),
{
    let k = tkey(thread_key(thread));
    let d = s.tombstones[k];
    assert(s.tombstones.contains_key(k));
    assert(k[0] == tkey(tomb_key(d))[0]);
    lemma_thread_key(d, thread);
    assert(covers_post(s.tombstones[k], thread, post));
}

/// What was deleted is suppressed from then on.
pub proof fn a_deletion_takes_effect(s: StateModel, d: TombModel, thread: Text, post: Text, version: Text)
    requires
        tombs_keyed(s.tombstones),
        is_tomb(d),
        d.post_id is None,
        d.thread_id == thread,
    ensures
        thread_deleted(buried(s, d), thread),
        suppressed(buried(s, d), thread, post, version),
{
    let t = buried(s, d);
    assert(t.tombstones.contains_key(tkey(tomb_key(d))));
    assert(tombs_keyed(t.tombstones));
    a_deleted_thread_has_no_posts(t, thread, post, version);
}

/// With a post, all its versions are deleted.
pub proof fn a_deleted_post_has_no_versions(s: StateModel, thread: Text, post: Text, version: Text)
    requires
        logical_deleted(s, thread, post),
    ensures
        suppressed(s, thread, post, version),
{
    let k = choose|k: Parts| #[trigger] s.tombstones.contains_key(k) && covers_post(s.tombstones[k], thread, post);
    assert(covers(s.tombstones[k], thread, post, version));
}

/// A deletion of a thread concerns all that is in it, one of a post all its
/// versions and nothing else of the thread, one of a version that one alone.
pub proof fn a_deletion_reaches_what_it_names(d: TombModel, thread: Text, post: Text, version: Text)
    requires
        is_tomb(d),
    ensures
        covers(d, thread, post, version) ==> d.thread_id == thread,
        covers_post(d, thread, post) ==> d.thread_id == thread && d.version_id is None,
        d.thread_id == thread && d.post_id is None ==> covers(d, thread, post, version) && covers_post(d, thread, post),
        d.thread_id == thread && d.post_id is Some && d.version_id is None ==> {
            &&& covers(d, thread, post, version) <==> d.post_id == Some(post)
            &&& covers_post(d, thread, post) <==> d.post_id == Some(post)
        },
        d.thread_id == thread && d.version_id is Some ==> {
            &&& covers(d, thread, post, version) <==> d.post_id == Some(post) && d.version_id == Some(version)
            &&& !covers_post(d, thread, post)
        },
{
}

/// Sharing a thread in a group shares that thread in that group, and changes
/// nothing else.
pub proof fn sharing_shares_one_thread(s: StateModel, group: Text, thread: Text, other: Text, x: Text)
    ensures
        ({
            let t = sharing(s, group, tkey(thread));
            &&& shared_in(t, group, thread)
            &&& other != group || x != thread ==> shared_in(t, other, x) == shared_in(s, other, x)
            &&& t.ledger == s.ledger && t.tombstones == s.tombstones && t.records == s.records && t.unavailable
                == s.unavailable
        }),
{
    assert(tkey(group)[0] == group);
    assert(tkey(thread)[0] == thread);
    assert(tkey(other)[0] == other);
    assert(tkey(x)[0] == x);
}

/// A deletion of a version or a post is in force once it is remembered, as far
/// as it reaches, and deletes nothing else.
pub proof fn a_deletion_is_in_force_where_it_reaches(
    s: StateModel,
    d: TombModel,
    thread: Text,
    post: Text,
    version: Text,
)
    ensures
        !s.tombstones.contains_key(tkey(tomb_key(d))) ==> {
            &&& suppressed(buried(s, d), thread, post, version) <==> suppressed(s, thread, post, version) || covers(
                d,
                thread,
                post,
                version,
            )
            &&& logical_deleted(buried(s, d), thread, post) <==> logical_deleted(s, thread, post) || covers_post(
                d,
                thread,
                post,
            )
        },
        buried(s, d).tombstones.contains_key(tkey(tomb_key(d))),
        s.tombstones.contains_key(tkey(tomb_key(d))) ==> buried(s, d) == s,
        buried(s, d).groups == s.groups && buried(s, d).ledger == s.ledger && buried(s, d).records == s.records,
{
    let t = buried(s, d);
    let k = tkey(tomb_key(d));
    if !s.tombstones.contains_key(k) {
        assert(t.tombstones.contains_key(k) && t.tombstones[k] == d);
        assert forall|l: Parts| #[trigger] s.tombstones.contains_key(l) implies t.tombstones.contains_key(l)
            && t.tombstones[l] == s.tombstones[l] by {}
        if suppressed(t, thread, post, version) {
            let l = choose|l: Parts|
                #[trigger] t.tombstones.contains_key(l) && covers(t.tombstones[l], thread, post, version);
            if l != k {
                assert(s.tombstones.contains_key(l));
            }
        }
        if suppressed(s, thread, post, version) {
            let l = choose|l: Parts|
                #[trigger] s.tombstones.contains_key(l) && covers(s.tombstones[l], thread, post, version);
            assert(t.tombstones.contains_key(l));
        }
        if logical_deleted(t, thread, post) {
            let l = choose|l: Parts|
                #[trigger] t.tombstones.contains_key(l) && covers_post(t.tombstones[l], thread, post);
            if l != k {
                assert(s.tombstones.contains_key(l));
            }
        }
        if logical_deleted(s, thread, post) {
            let l = choose|l: Parts|
                #[trigger] s.tombstones.contains_key(l) && covers_post(s.tombstones[l], thread, post);
            assert(t.tombstones.contains_key(l));
        }
    }
}

/// Deletions of a thread, of a post and of a version have keys that tell which
/// of the three they are, and end in what they name.
pub proof fn a_deletion_is_named_after_what_it_deletes(d: TombModel)
    requires
        is_tomb(d),
    ensures
        d.post_id is None ==> tomb_key(d) == "thread:"@ + d.thread_id,
        d.post_id is Some && d.version_id is None ==> tomb_key(d) == "post:"@ + d.thread_id + "/"@ + d.post_id->0,
        d.version_id is Some ==> tomb_key(d) == "version:"@ + d.thread_id + "/"@ + d.post_id->0 + "/"@ + d.version_id->0,
{
}

/// Two versions that travel have the same place in the ledger only if they are
/// the same version of the same post.
pub proof fn versions_have_different_keys(post: Text, version: Text, other_post: Text, other_version: Text)
    requires
        is_hash(version),
        is_hash(other_version),
        version_key(post, version) == version_key(other_post, other_version),
    ensures
        post == other_post,
        version == other_version,
{
    reveal_strlit("/");
    let a = version_key(post, version);
    let b = version_key(other_post, other_version);
    assert(a.skip(a.len() - 64) =~= version);
    assert(b.skip(b.len() - 64) =~= other_version);
    assert(a.take(a.len() - 65) =~= post);
    assert(b.take(b.len() - 65) =~= other_post);
}

/// A picture is none, a built-in one by its name, or an image of up to 600000
/// bytes by its hash and kind.
pub proof fn a_picture_is_one_of_three(a: AvatarModel)
    ensures
        is_avatar(a) ==> a.kind == "none"@ || a.kind == "builtin"@ || a.kind == "image"@,
        is_avatar(a) && a.kind == "image"@ ==> (a.sha256 matches Some(h) && is_hash(h)) && (a.size matches Some(n) && 0 < n
            <= 600000) && (a.ext matches Some(e) && (e == "png"@ || e == "jpg"@ || e == "webp"@)),
        is_avatar(a) && a.kind == "builtin"@ ==> a.id is Some && a.sha256 is None,
        is_avatar(no_avatar()),
{
    reveal_strlit("none");
    reveal_strlit("builtin");
    reveal_strlit("image");
    assert("none"@.len() == 4 && "builtin"@.len() == 7 && "image"@.len() == 5);
}

} // verus!
