//! Bringing what is remembered of a thread up to date with its files.
use vstd::prelude::*;
use crate::bbs::sync::avatars::{OriginModel, OriginSnapshot};
use crate::bbs::sync::model::{is_avatar, is_kind, known_kind, lemma_at, logical_deleted, ref_models, same_stamp};
use crate::bbs::sync::model::{stored_models, suppressed, tkey, unavailable_key, version_key, AttachmentRef};
use crate::bbs::sync::model::{AttachmentState, FileStamp, ItemModel, LedgerEntry, PostVersion, RecordModel, MAX_BODY_BYTES, MAX_THREAD_BYTES};
use crate::bbs::sync::model::{RefModel, RowModel, StateModel, StoredModel, SyncState, ThreadRecord, ThreadRecordItem};
use crate::bbs::sync::model::{UnavailableModel, UnavailablePost, VersionModel};
use crate::bbs::sync::resources::picture_of;
use crate::bbs::sync::unavailable::{issue, issue_models, Issue, IssueModel};
use crate::bbs::types::{BbsThreadMeta, MAX_ATTACHMENT_BYTES, ThreadModel};
use crate::ids::{is_extension, is_hash, is_safe_id, safe_id, valid_extension, valid_hash};
use crate::order::{Change, Key, OrderedMap, Parts, Rule};
use crate::text::{copy_texts, own, plus3, same, Text};

verus! {

// ------------------------------------------------------------------ versions

/// An attachment that can travel.
pub open spec fn is_ref(a: RefModel) -> bool {
    is_safe_id(a.id) && is_hash(a.sha256) && is_extension(a.ext) && a.size <= MAX_ATTACHMENT_BYTES
}

/// A version that can travel.
pub open spec fn is_version(p: VersionModel) -> bool {
    &&& is_safe_id(p.thread_id) && is_safe_id(p.post_id) && is_hash(p.version_id)
    &&& is_kind(p.kind) && p.size <= MAX_BODY_BYTES
    &&& p.avatar matches Some(a) && is_avatar(a)
    &&& forall|i: int| 0 <= i < p.attachments.len() ==> is_ref(#[trigger] p.attachments[i])
}

impl PostVersion {
    pub fn valid(&self) -> (r: bool)
        ensures
            r == is_version(self@),
    {
        if !safe_id(&self.thread_id) || !safe_id(&self.post_id) || !valid_hash(&self.version_id) || !known_kind(
            &self.kind,
        ) || self.size_bytes > MAX_BODY_BYTES {
            return false;
        }
        match &self.avatar {
            Some(a) => {
                if !a.valid() {
                    return false;
                }
            },
            None => {
                return false;
            },
        }
        let v = &self.attachments;
        let mut i: usize = 0;
        while i < v.len()
            invariant
                v == self.attachments,
                i <= v@.len(),
                forall|j: int| 0 <= j < i ==> is_ref(#[trigger] self@.attachments[j]),
            decreases v@.len() - i,
        {
            let a = &v[i];
            assert(self@.attachments[i as int] == a@);
            if !safe_id(&a.id) || !valid_hash(&a.sha256) || !valid_extension(&a.ext) || a.size_bytes
                > MAX_ATTACHMENT_BYTES {
                return false;
            }
            i += 1;
        }
        true
    }
}

/// What was found of the attachments' files.
pub open spec fn seen_refs(s: Seq<RefModel>, files: Seq<Option<FileStamp>>) -> Seq<RefModel> {
    Seq::new(s.len(), |i: int| RefModel { available: files[i] is Some, ..s[i] })
}

pub open spec fn seen_files(s: Seq<RefModel>, files: Seq<Option<FileStamp>>) -> Map<Parts, StoredModel>
    decreases s.len(),
{
    if s.len() == 0 {
        Map::empty()
    } else {
        let a = s.last();
        let f = files[s.len() - 1];
        seen_files(s.drop_last(), files).insert(
            tkey(a.id),
            StoredModel { sha256: a.sha256, size: a.size, verified: f is Some, stamp: f },
        )
    }
}

/// The version with its origin's picture and with what was found of its
/// attachments.
pub open spec fn seen_version(p: VersionModel, origin: OriginModel, files: Seq<Option<FileStamp>>) -> VersionModel {
    VersionModel { avatar: Some(origin.avatar), attachments: seen_refs(p.attachments, files), ..p }
}

/// The row of a version that was read: `body` is the stamp of its post,
/// `files` are those of its attachments that were checked, and `picture` is
/// that of its author's picture.
pub open spec fn completed(
    thread: Text,
    p: VersionModel,
    origin: OriginModel,
    body: FileStamp,
    files: Seq<Option<FileStamp>>,
    picture: Option<FileStamp>,
    now: Text,
) -> Result<RowModel, Text> {
    let q = seen_version(p, origin, files);
    if !is_version(q) {
        Err("invalid_post"@)
    } else {
        Ok(
            RowModel {
                thread_id: thread,
                post_id: q.post_id,
                version_id: q.version_id,
                updated_at: now,
                attachments: seen_files(p.attachments, files),
                body_stamp: Some(body),
                descriptor: Some(q),
                avatar_stamp: if picture_of(q) is Some {
                    picture
                } else {
                    None
                },
            },
        )
    }
}

pub open spec fn row_result(r: Result<LedgerEntry, String>) -> Result<RowModel, Text> {
    match r {
        Ok(x) => Ok(x@),
        Err(e) => Err(e@),
    }
}

/// Put a version together with its origin's picture and with what was found
/// of its attachments.
pub fn assemble(p: PostVersion, origin: &OriginSnapshot, files: &Vec<Option<FileStamp>>) -> (r: (
    PostVersion,
    OrderedMap<String, AttachmentState>,
))
    requires
        files@.len() == p.attachments@.len(),
    ensures
        r.0@ == seen_version(p@, origin@, files@),
        stored_models(r.1@) == seen_files(p@.attachments, files@),
        r.1.wf(),
{
    let ghost refs = p@.attachments;
    let mut list: Vec<AttachmentRef> = Vec::new();
    let mut stored: OrderedMap<String, AttachmentState> = OrderedMap::new();
    let mut i: usize = 0;
    assert(stored_models(stored@) =~= seen_files(refs.take(0), files@));
    assert(ref_models(list@) =~= seen_refs(refs, files@).take(0));
    while i < p.attachments.len()
        invariant
            refs == ref_models(p.attachments@),
            files@.len() == p.attachments@.len(),
            i <= p.attachments@.len(),
            stored.wf(),
            stored_models(stored@) == seen_files(refs.take(i as int), files@),
            ref_models(list@) == seen_refs(refs, files@).take(i as int),
        decreases p.attachments@.len() - i,
    {
        let ghost was = list@;
        let a = &p.attachments[i];
        let f = files[i];
        assert(refs[i as int] == a@);
        assert(refs.take(i + 1).drop_last() =~= refs.take(i as int));
        assert(refs.take(i + 1).last() == a@);
        let mut b = a.copy();
        b.available = f.is_some();
        list.push(b);
        stored.insert(
            a.id.clone(),
            AttachmentState { sha256: a.sha256.clone(), size_bytes: a.size_bytes, verified: f.is_some(), stamp: f },
        );
        assert(ref_models(list@) =~= ref_models(was).push(list@.last()@));
        assert(ref_models(list@) =~= seen_refs(refs, files@).take(i + 1));
        assert(stored_models(stored@) =~= seen_files(refs.take(i + 1), files@));
        i += 1;
    }
    assert(refs.take(i as int) =~= refs);
    assert(seen_refs(refs, files@).take(i as int) =~= seen_refs(refs, files@));
    let q = PostVersion {
        thread_id: p.thread_id,
        post_id: p.post_id,
        version_id: p.version_id,
        size_bytes: p.size_bytes,
        kind: p.kind,
        attachments: list,
        avatar: Some(origin.avatar.copy()),
    };
    (q, stored)
}

pub fn complete_row(
    thread: &str,
    p: PostVersion,
    origin: &OriginSnapshot,
    body: FileStamp,
    files: &Vec<Option<FileStamp>>,
    picture: Option<FileStamp>,
    now: &str,
) -> (r: Result<LedgerEntry, String>)
    requires
        files@.len() == p.attachments@.len(),
    ensures
        row_result(r) == completed(thread@, p@, origin@, body, files@, picture, now@),
        r matches Ok(x) ==> x.wf(),
{
    let (q, stored) = assemble(p, origin, files);
    if !q.valid() {
        return Err(own("invalid_post"));
    }
    let has_picture = q.picture().is_some();
    Ok(
        LedgerEntry {
            thread_id: own(thread),
            post_id: q.post_id.clone(),
            version_id: q.version_id.clone(),
            updated_at: own(now),
            attachments: stored,
            body_stamp: Some(body),
            descriptor: Some(q),
            avatar_stamp: if has_picture {
                picture
            } else {
                None
            },
        },
    )
}

// ---------------------------------------------------------------- forgetting

pub open spec fn unchecked(s: StoredModel) -> StoredModel {
    StoredModel { verified: false, stamp: None, ..s }
}

/// A row whose files have to be seen again.
pub open spec fn forgotten(r: RowModel) -> RowModel {
    RowModel {
        body_stamp: None,
        avatar_stamp: None,
        attachments: r.attachments.map_values(|s: StoredModel| unchecked(s)),
        ..r
    }
}

pub open spec fn forgotten_in(r: RowModel, thread: Text) -> RowModel {
    if r.thread_id == thread {
        forgotten(r)
    } else {
        r
    }
}

pub struct Uncheck {}

impl Change<AttachmentState> for Uncheck {
    open spec fn takes(&self, v: AttachmentState) -> bool {
        true
    }

    open spec fn makes(&self, v: AttachmentState, w: AttachmentState) -> bool {
        w@ == unchecked(v@)
    }

    fn apply(&self, v: AttachmentState) -> (w: AttachmentState) {
        AttachmentState { sha256: v.sha256, size_bytes: v.size_bytes, verified: false, stamp: None }
    }
}

pub struct Forget {
    pub thread: String,
}

impl Change<LedgerEntry> for Forget {
    open spec fn takes(&self, v: LedgerEntry) -> bool {
        v.wf()
    }

    open spec fn makes(&self, v: LedgerEntry, w: LedgerEntry) -> bool {
        w.wf() && w@ == forgotten_in(v@, self.thread@)
    }

    fn apply(&self, v: LedgerEntry) -> (w: LedgerEntry) {
        if !same(&v.thread_id, &self.thread) {
            return v;
        }
        let ghost had = v.attachments@;
        let mut attachments = v.attachments;
        attachments.change(&Uncheck {  });
        assert(stored_models(attachments@) =~= stored_models(had).map_values(|s: StoredModel| unchecked(s)));
        let w = LedgerEntry {
            thread_id: v.thread_id,
            post_id: v.post_id,
            version_id: v.version_id,
            updated_at: v.updated_at,
            attachments,
            body_stamp: None,
            descriptor: v.descriptor,
            avatar_stamp: None,
        };
        assert(w@ =~= forgotten(v@));
        w
    }
}

/// Entries of other threads.
pub struct Elsewhere {
    pub thread: String,
}

impl Rule<String, UnavailablePost> for Elsewhere {
    open spec fn admits(&self, k: Parts, v: UnavailablePost) -> bool {
        v@.thread_id != self.thread@
    }

    open spec fn ready(&self) -> bool {
        true
    }

    fn test(&self, k: &String, v: &UnavailablePost) -> (r: bool) {
        !same(&v.thread_id, &self.thread)
    }
}

pub open spec fn elsewhere(m: Map<Parts, UnavailableModel>, thread: Text) -> Map<Parts, UnavailableModel> {
    Map::new(|k: Parts| m.contains_key(k) && m[k].thread_id != thread, |k: Parts| m[k])
}

/// Everything that depends on the files of a thread is forgotten.
pub open spec fn cleared(s: StateModel, thread: Text) -> StateModel {
    StateModel {
        ledger: s.ledger.map_values(|r: RowModel| forgotten_in(r, thread)),
        unavailable: elsewhere(s.unavailable, thread),
        ..s
    }
}

impl SyncState {
    fn clear_thread(&mut self, thread: &str)
        requires
            old(self).wf(),
        ensures
            final(self).wf(),
            final(self)@ == cleared(old(self)@, thread@),
    {
        let ghost was = *self;
        self.ledger.change(&Forget { thread: own(thread) });
        let ghost mid = *self;
        self.local_unavailable.retain(&Elsewhere { thread: own(thread) });
        proof {
            assert forall|i: int| 0 <= i < self.ledger.entries@.len() implies (#[trigger] self.ledger.entries@[i]).1.wf() by {
                lemma_at(self.ledger, i);
            }
            assert(self@.ledger =~= cleared(was@, thread@).ledger);
            assert(self@.unavailable =~= cleared(was@, thread@).unavailable);
        }
    }
}

// ------------------------------------------------------------------- merging

/// The record of a thread as it was read.
pub enum RecordSight {
    Missing,
    Found { item: ThreadRecordItem, unchanged: bool },
}

pub open spec fn recorded(s: StateModel, thread: Text, r: RecordSight) -> StateModel {
    match r {
        RecordSight::Missing => StateModel { records: s.records.remove(tkey(thread)), ..s },
        RecordSight::Found { item, unchanged } => if unchanged {
            StateModel { records: s.records.insert(tkey(thread), item@), ..s }
        } else {
            s
        },
    }
}

/// A post that is too large, and whether its file is still the same.
pub struct Oversized {
    pub item: UnavailablePost,
    pub unchanged: bool,
}

pub open spec fn noted(s: StateModel, thread: Text, items: Seq<Oversized>) -> StateModel
    decreases items.len(),
{
    if items.len() == 0 {
        s
    } else {
        let t = noted(s, thread, items.drop_last());
        let o = items.last();
        if !logical_deleted(t, thread, o.item@.post_id) && o.unchanged {
            StateModel {
                unavailable: t.unavailable.insert(tkey(unavailable_key(o.item@.thread_id, o.item@.post_id)), o.item@),
                ..t
            }
        } else {
            t
        }
    }
}

/// A version that was read, and its files as they are when it is entered.
pub struct Inspected {
    pub row: LedgerEntry,
    pub origin: OriginSnapshot,
    pub body_now: Option<FileStamp>,
    pub files_now: Vec<Option<FileStamp>>,
}

pub struct InspectedModel {
    pub row: RowModel,
    pub origin: OriginModel,
    pub body_now: Option<FileStamp>,
    pub files_now: Seq<Option<FileStamp>>,
}

impl View for Inspected {
    type V = InspectedModel;

    open spec fn view(&self) -> InspectedModel {
        InspectedModel {
            row: self.row@,
            origin: self.origin@,
            body_now: self.body_now,
            files_now: self.files_now@,
        }
    }
}

pub open spec fn inspected_models(s: Seq<Inspected>) -> Seq<InspectedModel> {
    s.map_values(|x: Inspected| x@)
}

/// A row with a version whose attachments it knows.
pub open spec fn is_complete(r: RowModel, files: nat) -> bool {
    &&& r.descriptor is Some
    &&& r.descriptor->0.attachments.len() == files
    &&& forall|i: int| 0 <= i < files ==> r.attachments.contains_key(tkey((#[trigger] r.descriptor->0.attachments[i]).id))
}

impl Inspected {
    pub open spec fn wf(&self) -> bool {
        self.row.wf() && is_complete(self.row@, self.files_now@.len())
    }
}

/// A row with one attachment less, where its file has changed.
pub open spec fn dropped(r: RowModel, i: int) -> RowModel {
    let p = r.descriptor->0;
    let a = p.attachments[i];
    RowModel {
        attachments: r.attachments.insert(tkey(a.id), unchecked(r.attachments[tkey(a.id)])),
        descriptor: Some(
            VersionModel { attachments: p.attachments.update(i, RefModel { available: false, ..a }), ..p },
        ),
        ..r
    }
}

/// The row without the attachments whose files have changed.
pub open spec fn rechecked(r: RowModel, now: Seq<Option<FileStamp>>, n: nat) -> RowModel
    decreases n,
{
    if n == 0 {
        r
    } else {
        let t = rechecked(r, now, (n - 1) as nat);
        let a = t.descriptor->0.attachments[n - 1];
        if now[n - 1] != t.attachments[tkey(a.id)].stamp {
            dropped(t, n - 1)
        } else {
            t
        }
    }
}

/// A version that was entered.
pub struct Kept {
    pub post_id: String,
    pub version_id: String,
    pub origin: OriginSnapshot,
}

pub struct KeptModel {
    pub post: Text,
    pub version: Text,
    pub origin: OriginModel,
}

impl View for Kept {
    type V = KeptModel;

    open spec fn view(&self) -> KeptModel {
        KeptModel { post: self.post_id@, version: self.version_id@, origin: self.origin@ }
    }
}

pub open spec fn kept_models(s: Seq<Kept>) -> Seq<KeptModel> {
    s.map_values(|k: Kept| k@)
}

/// The version may be entered: it is not deleted and its file is unchanged.
pub open spec fn enters(s: StateModel, thread: Text, x: InspectedModel) -> bool {
    !suppressed(s, thread, x.row.post_id, x.row.version_id) && x.body_now == x.row.body_stamp
}

pub open spec fn entered(s: StateModel, thread: Text, items: Seq<InspectedModel>) -> (StateModel, Seq<KeptModel>)
    decreases items.len(),
{
    if items.len() == 0 {
        (s, Seq::empty())
    } else {
        let (t, kept) = entered(s, thread, items.drop_last());
        let x = items.last();
        if enters(t, thread, x) {
            (
                StateModel {
                    ledger: t.ledger.insert(
                        tkey(version_key(x.row.post_id, x.row.version_id)),
                        rechecked(x.row, x.files_now, x.files_now.len()),
                    ),
                    ..t
                },
                kept.push(KeptModel { post: x.row.post_id, version: x.row.version_id, origin: x.origin }),
            )
        } else {
            (t, kept)
        }
    }
}

fn drop_attachment(row: LedgerEntry, i: usize) -> (r: LedgerEntry)
    requires
        row.wf(),
        is_complete(row@, row@.descriptor->0.attachments.len()),
        i < row@.descriptor->0.attachments.len(),
    ensures
        r.wf(),
        r@ == dropped(row@, i as int),
        is_complete(r@, row@.descriptor->0.attachments.len()),
{
    let ghost old_row = row@;
    let mut attachments = row.attachments;
    let mut descriptor = row.descriptor;
    match descriptor {
        Some(p) => {
            let mut p = p;
            let ghost refs = ref_models(p.attachments@);
            let a = p.attachments.remove(i);
            let ghost id = a@.id;
            assert(refs[i as int] == a@);
            let ghost had = attachments@;
            match attachments.remove(&a.id) {
                Some(s) => {
                    let t = AttachmentState { sha256: s.sha256, size_bytes: s.size_bytes, verified: false, stamp: None };
                    attachments.insert(a.id.clone(), t);
                    assert(stored_models(attachments@) =~= stored_models(had).insert(
                        tkey(id),
                        unchecked(stored_models(had)[tkey(id)]),
                    ));
                },
                None => {
                    assert(false);
                },
            }
            let b = AttachmentRef {
                id: a.id,
                sha256: a.sha256,
                size_bytes: a.size_bytes,
                ext: a.ext,
                available: false,
            };
            p.attachments.insert(i, b);
            assert(ref_models(p.attachments@) =~= refs.update(i as int, RefModel { available: false, ..refs[i as int] }));
            let r = LedgerEntry {
                thread_id: row.thread_id,
                post_id: row.post_id,
                version_id: row.version_id,
                updated_at: row.updated_at,
                attachments,
                body_stamp: row.body_stamp,
                descriptor: Some(p),
                avatar_stamp: row.avatar_stamp,
            };
            proof {
                assert(r@ =~= dropped(old_row, i as int));
                assert forall|j: int| 0 <= j < refs.len() implies r@.attachments.contains_key(
                    tkey((#[trigger] r@.descriptor->0.attachments[j]).id),
                ) by {
                    assert(old_row.descriptor->0.attachments[j].id == r@.descriptor->0.attachments[j].id);
                }
            }
            r
        },
        None => {
            assert(false);
            LedgerEntry {
                thread_id: row.thread_id,
                post_id: row.post_id,
                version_id: row.version_id,
                updated_at: row.updated_at,
                attachments,
                body_stamp: row.body_stamp,
                descriptor: None,
                avatar_stamp: row.avatar_stamp,
            }
        },
    }
}

/// Look at the attachments' files once more.
fn recheck(row: LedgerEntry, now: &Vec<Option<FileStamp>>) -> (r: LedgerEntry)
    requires
        row.wf(),
        is_complete(row@, now@.len()),
    ensures
        r.wf(),
        r@ == rechecked(row@, now@, now@.len()),
{
    let ghost start = row@;
    let mut row = row;
    let mut i: usize = 0;
    while i < now.len()
        invariant
            i <= now@.len(),
            row.wf(),
            is_complete(row@, now@.len()),
            row@ == rechecked(start, now@, i as nat),
        decreases now@.len() - i,
    {
        let changed = match &row.descriptor {
            Some(p) => {
                let a = &p.attachments[i];
                assert(row@.descriptor->0.attachments[i as int] == a@);
                match row.attachments.get(&a.id) {
                    Some(s) => !same_stamp(&now[i], &s.stamp),
                    None => {
                        assert(false);
                        false
                    },
                }
            },
            None => {
                assert(false);
                false
            },
        };
        if changed {
            row = drop_attachment(row, i);
        }
        i += 1;
    }
    row
}

/// What a thread that was looked through leaves behind.
pub open spec fn refreshed(
    s: StateModel,
    thread: Text,
    record: RecordSight,
    oversized: Seq<Oversized>,
    items: Seq<InspectedModel>,
) -> (StateModel, Seq<KeptModel>) {
    entered(noted(recorded(cleared(s, thread), thread, record), thread, oversized), thread, items)
}

fn note_oversized(state: &mut SyncState, thread: &str, oversized: Vec<Oversized>)
    requires
        old(state).wf(),
    ensures
        final(state).wf(),
        final(state)@ == noted(old(state)@, thread@, oversized@),
{
    let ghost all = oversized@;
    let ghost start = state@;
    let ghost mut n: int = 0;
    let mut rest = oversized;
    assert(all.take(0) =~= Seq::empty());
    assert(rest@ =~= all.skip(0));
    while rest.len() > 0
        invariant
            state.wf(),
            0 <= n <= all.len(),
            rest@ == all.skip(n),
            state@ == noted(start, thread@, all.take(n)),
        decreases rest@.len(),
    {
        let ghost was = *state;
        let o = rest.remove(0);
        proof {
            assert(o == all[n]);
            assert(all.take(n + 1).drop_last() =~= all.take(n));
            assert(all.take(n + 1).last() == o);
            assert(rest@ =~= all.skip(n + 1));
        }
        if !state.logical_deleted(thread, &o.item.post_id) && o.unchanged {
            let key = o.item.key();
            let ghost item = o.item@;
            state.local_unavailable.insert(key, o.item);
            assert(state@.unavailable =~= was@.unavailable.insert(tkey(unavailable_key(item.thread_id, item.post_id)), item));
            assert(state@ =~= noted(start, thread@, all.take(n + 1)));
        }
        proof {
            n = n + 1;
        }
    }
    assert(all.take(n) =~= all);
}

fn enter_versions(state: &mut SyncState, thread: &str, items: Vec<Inspected>) -> (r: Vec<Kept>)
    requires
        old(state).wf(),
        forall|i: int| 0 <= i < items@.len() ==> (#[trigger] items@[i]).wf(),
    ensures
        final(state).wf(),
        (final(state)@, kept_models(r@)) == entered(old(state)@, thread@, inspected_models(items@)),
{
    let ghost all = inspected_models(items@);
    let ghost orig = items@;
    let ghost start = state@;
    let ghost mut n: int = 0;
    let mut kept: Vec<Kept> = Vec::new();
    let mut rest = items;
    assert(all.take(0) =~= Seq::empty());
    assert(rest@ =~= orig.skip(0));
    assert(kept_models(kept@) =~= Seq::empty());
    while rest.len() > 0
        invariant
            state.wf(),
            0 <= n <= orig.len(),
            all == inspected_models(orig),
            forall|i: int| 0 <= i < orig.len() ==> (#[trigger] orig[i]).wf(),
            rest@ == orig.skip(n),
            (state@, kept_models(kept@)) == entered(start, thread@, all.take(n)),
        decreases rest@.len(),
    {
        let ghost was = *state;
        let ghost had = kept@;
        let x = rest.remove(0);
        proof {
            assert(x == orig[n]);
            assert(all.take(n + 1).drop_last() =~= all.take(n));
            assert(all.take(n + 1).last() == x@);
            assert(rest@ =~= orig.skip(n + 1));
        }
        if !state.suppressed(thread, &x.row.post_id, &x.row.version_id) && same_stamp(&x.body_now, &x.row.body_stamp) {
            assert(enters(was@, thread@, x@));
            let key = plus3(&x.row.post_id, "/", &x.row.version_id);
            kept.push(
                Kept { post_id: x.row.post_id.clone(), version_id: x.row.version_id.clone(), origin: x.origin.copy() },
            );
            let row = recheck(x.row, &x.files_now);
            state.put_row(key, row);
            assert(kept_models(kept@) =~= kept_models(had).push(kept@.last()@));
            assert(entered(start, thread@, all.take(n + 1)) == (state@, kept_models(kept@)));
        } else {
            assert(!enters(was@, thread@, x@));
        }
        proof {
            n = n + 1;
        }
    }
    assert(all.take(n) =~= all);
    kept
}

/// Enter what was found in a thread. For each version that is kept, its
/// origin is to be written and its marker to be taken away.
pub fn merge_scan(
    state: &mut SyncState,
    thread: &str,
    record: RecordSight,
    oversized: Vec<Oversized>,
    items: Vec<Inspected>,
) -> (r: Vec<Kept>)
    requires
        old(state).wf(),
        forall|i: int| 0 <= i < items@.len() ==> (#[trigger] items@[i]).wf(),
    ensures
        final(state).wf(),
        (final(state)@, kept_models(r@)) == refreshed(
            old(state)@,
            thread@,
            record,
            oversized@,
            inspected_models(items@),
        ),
{
    let ghost start = state@;
    state.clear_thread(thread);
    let ghost was = *state;
    match record {
        RecordSight::Missing => {
            state.thread_records.remove(&own(thread));
            assert(state@.records =~= was@.records.remove(tkey(thread@)));
        },
        RecordSight::Found { item, unchanged } => {
            if unchanged {
                state.thread_records.insert(own(thread), item);
                assert(state@.records =~= was@.records.insert(tkey(thread@), item@));
            }
        },
    }
    assert(state@ =~= recorded(cleared(start, thread@), thread@, record));
    note_oversized(state, thread, oversized);
    enter_versions(state, thread, items)
}

// ------------------------------------------------------------------- records

/// What a thread's record holds of its metadata.
pub open spec fn record_of(m: ThreadModel) -> RecordModel {
    RecordModel {
        schema: m.schema,
        thread_id: m.thread_id,
        status: m.status,
        visibility: m.visibility,
        project_tags: m.project_tags,
        created_by_project: m.created_by_project,
        created_by_agent: m.created_by_agent,
        created_at: m.created_at,
    }
}

/// The metadata that a thread starts with: nothing was written in it yet.
pub open spec fn meta_of_record(r: RecordModel) -> ThreadModel {
    ThreadModel {
        schema: r.schema,
        thread_id: r.thread_id,
        status: r.status,
        visibility: r.visibility,
        project_tags: r.project_tags,
        created_by_project: r.created_by_project,
        created_by_agent: r.created_by_agent,
        created_at: r.created_at,
        updated_at: r.created_at,
        latest_post_id: Seq::empty(),
    }
}

pub fn record_from_meta(meta: &BbsThreadMeta) -> (r: ThreadRecord)
    ensures
        r@ == record_of(meta@),
{
    ThreadRecord {
        schema: meta.schema.clone(),
        thread_id: meta.thread_id.clone(),
        status: meta.status.clone(),
        visibility: meta.visibility.clone(),
        project_tags: copy_texts(&meta.project_tags),
        created_by_project: meta.created_by_project.clone(),
        created_by_agent: meta.created_by_agent.clone(),
        created_at: meta.created_at.clone(),
    }
}

pub fn meta_from_record(record: &ThreadRecord) -> (r: BbsThreadMeta)
    ensures
        r@ == meta_of_record(record@),
{
    let r = BbsThreadMeta {
        schema: record.schema.clone(),
        thread_id: record.thread_id.clone(),
        status: record.status.clone(),
        visibility: record.visibility.clone(),
        project_tags: copy_texts(&record.project_tags),
        created_by_project: record.created_by_project.clone(),
        created_by_agent: record.created_by_agent.clone(),
        created_at: record.created_at.clone(),
        updated_at: record.created_at.clone(),
        latest_post_id: String::new(),
    };
    assert(r@.latest_post_id =~= Seq::empty());
    r
}

pub open spec fn opt_item(r: Option<ThreadRecordItem>) -> Option<ItemModel> {
    match r {
        Some(x) => Some(x@),
        None => None,
    }
}

/// What is found of a thread's metadata file.
pub struct MetaSight {
    pub len: u64,
    /// What the parser reads from it.
    pub meta: Result<BbsThreadMeta, String>,
    /// The hash of the record, or why it cannot be shared.
    pub sealed: Result<String, String>,
}

impl MetaSight {
    /// The file is small enough, can be read, belongs to the thread and holds
    /// a record that can be shared.
    pub open spec fn sound(&self, thread: Text) -> bool {
        &&& self.len <= MAX_THREAD_BYTES
        &&& self.meta is Ok
        &&& self.meta->Ok_0@.thread_id == thread
        &&& self.sealed is Ok
    }
}

/// What to make of a thread's metadata file: `found` is nothing if there is
/// no such file. One that is not sound is an issue and counts as missing.
pub fn read_record(thread: &str, found: Option<MetaSight>) -> (r: (Option<ThreadRecordItem>, Option<Issue>))
    ensures
        ({
            let good = found is Some && found->0.sound(thread@);
            &&& opt_item(r.0) == (if good {
                Some(ItemModel { record: record_of(found->0.meta->Ok_0@), sha256: found->0.sealed->Ok_0@ })
            } else {
                None
            })
            &&& (r.1 is Some) == (found is Some && !good)
            &&& r.1 matches Some(i) ==> i@ == (IssueModel {
                code: "invalid_local_thread_record"@,
                thread: Some(thread@),
                post: None,
            })
        }),
{
    match found {
        None => (None, None),
        Some(f) => {
            if f.len <= MAX_THREAD_BYTES as u64 {
                if let Ok(m) = &f.meta {
                    if same(&m.thread_id, thread) {
                        if let Ok(h) = &f.sealed {
                            let item = ThreadRecordItem { record: record_from_meta(m), sha256: h.clone() };
                            return (Some(item), None);
                        }
                    }
                }
            }
            (None, Some(issue("invalid_local_thread_record", thread, None)))
        },
    }
}

/// What looking through a thread brought up, or that it could not be done.
pub open spec fn thread_issues(root: Text, found: Option<Seq<IssueModel>>) -> Seq<IssueModel> {
    match found {
        Some(s) => s,
        None => seq![IssueModel { code: "local_thread_unavailable"@, thread: Some(root), post: None }],
    }
}

/// A thread that was looked through, and its issues unless that failed.
pub struct RootReport {
    pub root: String,
    pub issues: Option<Vec<Issue>>,
}

pub open spec fn all_issues(s: Seq<RootReport>) -> Seq<IssueModel>
    decreases s.len(),
{
    if s.len() == 0 {
        Seq::empty()
    } else {
        let x = s.last();
        all_issues(s.drop_last()) + thread_issues(
            x.root@,
            match x.issues {
                Some(v) => Some(issue_models(v@)),
                None => None,
            },
        )
    }
}

/// All that looking through a group's threads brought up. A thread that could
/// not be looked through does not keep the others from it.
pub fn gather_issues(reports: Vec<RootReport>) -> (r: Vec<Issue>)
    ensures
        issue_models(r@) == all_issues(reports@),
{
    let ghost all = reports@;
    let ghost mut n: int = 0;
    let mut rest = reports;
    let mut out: Vec<Issue> = Vec::new();
    assert(all.take(0) =~= Seq::empty());
    assert(rest@ =~= all.skip(0));
    assert(issue_models(out@) =~= Seq::empty());
    while rest.len() > 0
        invariant
            0 <= n <= all.len(),
            rest@ == all.skip(n),
            issue_models(out@) == all_issues(all.take(n)),
        decreases rest@.len(),
    {
        let ghost was = out@;
        let x = rest.remove(0);
        proof {
            assert(x == all[n]);
            assert(all.take(n + 1).drop_last() =~= all.take(n));
            assert(all.take(n + 1).last() == x);
            assert(rest@ =~= all.skip(n + 1));
        }
        match x.issues {
            Some(mut v) => {
                let ghost w = v@;
                out.append(&mut v);
                assert(issue_models(out@) =~= issue_models(was) + issue_models(w));
            },
            None => {
                out.push(issue("local_thread_unavailable", &x.root, None));
                assert(issue_models(out@) =~= issue_models(was) + thread_issues(x.root@, None));
            },
        }
        proof {
            n = n + 1;
        }
    }
    assert(all.take(n) =~= all);
    out
}

// ---------------------------------------------------------------------- laws

proof fn lemma_noted(s: StateModel, thread: Text, items: Seq<Oversized>)
    ensures
        noted(s, thread, items).tombstones == s.tombstones,
        noted(s, thread, items).groups == s.groups,
        noted(s, thread, items).ledger == s.ledger,
    decreases items.len(),
{
    if items.len() > 0 {
        lemma_noted(s, thread, items.drop_last());
    }
}

proof fn lemma_entered(s: StateModel, thread: Text, items: Seq<InspectedModel>)
    ensures
        entered(s, thread, items).0.tombstones == s.tombstones,
        entered(s, thread, items).0.groups == s.groups,
    decreases items.len(),
{
    if items.len() > 0 {
        lemma_entered(s, thread, items.drop_last());
    }
}

/// Looking through a thread neither deletes nor shares anything.
pub proof fn refreshing_keeps_deletions_and_groups(
    s: StateModel,
    thread: Text,
    record: RecordSight,
    oversized: Seq<Oversized>,
    items: Seq<InspectedModel>,
)
    ensures
        refreshed(s, thread, record, oversized, items).0.tombstones == s.tombstones,
        refreshed(s, thread, record, oversized, items).0.groups == s.groups,
{
    lemma_noted(recorded(cleared(s, thread), thread, record), thread, oversized);
    lemma_entered(noted(recorded(cleared(s, thread), thread, record), thread, oversized), thread, items);
}

/// A version was entered from this one.
pub open spec fn came_from(k: Parts, x: InspectedModel) -> bool {
    k == tkey(version_key(x.row.post_id, x.row.version_id))
}

proof fn lemma_row_kept(r: RowModel, now: Seq<Option<FileStamp>>, n: nat)
    ensures
        rechecked(r, now, n).body_stamp == r.body_stamp,
        rechecked(r, now, n).thread_id == r.thread_id,
        rechecked(r, now, n).post_id == r.post_id,
        rechecked(r, now, n).version_id == r.version_id,
    decreases n,
{
    if n > 0 {
        lemma_row_kept(r, now, (n - 1) as nat);
    }
}

proof fn lemma_entered_rows(s: StateModel, thread: Text, items: Seq<InspectedModel>, k: Parts) -> (i: int)
    requires
        entered(s, thread, items).0.ledger.contains_key(k),
    ensures
        ({
            let t = entered(s, thread, items).0;
            ||| s.ledger.contains_key(k) && t.ledger[k] == s.ledger[k]
            ||| {
                &&& 0 <= i < items.len()
                &&& came_from(k, items[i])
                &&& enters(s, thread, items[i])
                &&& t.ledger[k].body_stamp == items[i].row.body_stamp
                &&& t.ledger[k].post_id == items[i].row.post_id
                &&& t.ledger[k].version_id == items[i].row.version_id
            }
        }),
    decreases items.len(),
{
    if items.len() == 0 {
        0
    } else {
        let last = items.len() - 1;
        let x = items.last();
        let t = entered(s, thread, items.drop_last()).0;
        lemma_entered(s, thread, items.drop_last());
        if enters(t, thread, x) && came_from(k, x) {
            lemma_row_kept(x.row, x.files_now, x.files_now.len());
            last
        } else {
            let i = lemma_entered_rows(s, thread, items.drop_last(), k);
            i
        }
    }
}

/// A deleted version never comes back by looking at the files: what the
/// ledger has gained is not deleted.
pub proof fn a_deleted_version_does_not_come_back(
    s: StateModel,
    thread: Text,
    record: RecordSight,
    oversized: Seq<Oversized>,
    items: Seq<InspectedModel>,
    k: Parts,
)
    requires
        refreshed(s, thread, record, oversized, items).0.ledger.contains_key(k),
        !s.ledger.contains_key(k),
    ensures
        ({
            let r = refreshed(s, thread, record, oversized, items).0.ledger[k];
            !suppressed(s, thread, r.post_id, r.version_id)
        }),
{
    let c = recorded(cleared(s, thread), thread, record);
    lemma_noted(c, thread, oversized);
    let i = lemma_entered_rows(noted(c, thread, oversized), thread, items, k);
}

/// Afterwards a version of the thread counts as present only if its file was
/// seen, twice and unchanged.
pub proof fn only_seen_versions_are_present(
    s: StateModel,
    thread: Text,
    record: RecordSight,
    oversized: Seq<Oversized>,
    items: Seq<InspectedModel>,
    k: Parts,
) -> (i: int)
    requires
        refreshed(s, thread, record, oversized, items).0.ledger.contains_key(k),
        refreshed(s, thread, record, oversized, items).0.ledger[k].thread_id == thread,
        refreshed(s, thread, record, oversized, items).0.ledger[k].body_stamp is Some,
    ensures
        0 <= i < items.len(),
        came_from(k, items[i]),
        items[i].body_now == items[i].row.body_stamp,
        refreshed(s, thread, record, oversized, items).0.ledger[k].body_stamp == items[i].row.body_stamp,
{
    let c = recorded(cleared(s, thread), thread, record);
    lemma_noted(c, thread, oversized);
    lemma_entered_rows(noted(c, thread, oversized), thread, items, k)
}

/// A thread's record is read back from the metadata that is made of it.
pub proof fn a_record_is_read_back(r: RecordModel)
    ensures
        record_of(meta_of_record(r)) == r,
{
}

/// A version that can travel is named soundly, is a topic or a reply of at most
/// 8 MiB, has a sound picture, and sound attachments of at most 1 GiB each.
pub proof fn only_a_sound_version_travels(p: VersionModel, i: int)
    ensures
        is_version(p) ==> is_safe_id(p.thread_id) && is_safe_id(p.post_id) && is_hash(p.version_id) && (p.kind == "topic"@
            || p.kind == "reply"@) && p.size <= 8388608 && (p.avatar matches Some(a) && is_avatar(a)),
        is_version(p) && 0 <= i < p.attachments.len() ==> is_safe_id(p.attachments[i].id) && is_hash(
            p.attachments[i].sha256,
        ) && is_extension(p.attachments[i].ext) && p.attachments[i].size <= 1073741824,
{
}

proof fn lemma_seen_files(s: Seq<RefModel>, files: Seq<Option<FileStamp>>, i: int)
    requires
        0 <= i < s.len(),
        forall|j: int| i < j < s.len() ==> (#[trigger] s[j]).id != s[i].id,
    ensures
        seen_files(s, files).contains_key(tkey(s[i].id)),
        seen_files(s, files)[tkey(s[i].id)] == (StoredModel {
            sha256: s[i].sha256,
            size: s[i].size,
            verified: files[i] is Some,
            stamp: files[i],
        }),
    decreases s.len(),
{
    if i < s.len() - 1 {
        let head = s.drop_last();
        assert(head[i] == s[i]);
        assert(forall|j: int| i < j < head.len() ==> (#[trigger] head[j]) == s[j]);
        lemma_seen_files(head, files, i);
        assert(s[s.len() - 1] == s.last());
        assert(tkey(s[i].id)[0] == s[i].id);
        assert(tkey(s.last().id)[0] == s.last().id);
    }
}

/// The row of a version that was read tells what it is and where it lies, and of
/// each attachment whether its file was found and checked.
pub proof fn a_row_tells_what_was_found(
    thread: Text,
    p: VersionModel,
    origin: OriginModel,
    body: FileStamp,
    files: Seq<Option<FileStamp>>,
    picture: Option<FileStamp>,
    now: Text,
    i: int,
)
    requires
        completed(thread, p, origin, body, files, picture, now) is Ok,
    ensures
        ({
            let r = completed(thread, p, origin, body, files, picture, now)->Ok_0;
            &&& r.thread_id == thread && r.post_id == p.post_id && r.version_id == p.version_id
            &&& r.body_stamp == Some(body) && r.updated_at == now
            &&& r.descriptor matches Some(q) && q.avatar == Some(origin.avatar) && q.kind == p.kind && q.size == p.size
                && q.attachments.len() == p.attachments.len() && (0 <= i < p.attachments.len() ==> q.attachments[i].id
                == p.attachments[i].id && q.attachments[i].available == (files[i] is Some))
            &&& 0 <= i < p.attachments.len() && (forall|j: int|
                i < j < p.attachments.len() ==> (#[trigger] p.attachments[j]).id != p.attachments[i].id) ==> {
                let k = tkey(p.attachments[i].id);
                r.attachments.contains_key(k) && r.attachments[k].sha256 == p.attachments[i].sha256
                    && r.attachments[k].size == p.attachments[i].size && r.attachments[k].verified == (files[i] is Some)
                    && r.attachments[k].stamp == files[i]
            }
            &&& r.avatar_stamp is Some ==> r.avatar_stamp == picture
        }),
{
    if 0 <= i < p.attachments.len() && (forall|j: int|
        i < j < p.attachments.len() ==> (#[trigger] p.attachments[j]).id != p.attachments[i].id) {
        lemma_seen_files(p.attachments, files, i);
    }
}

/// Before a thread is looked through, its rows lose their files and its notices
/// go; other threads keep everything.
pub proof fn only_the_thread_itself_is_forgotten(s: StateModel, thread: Text, k: Parts, a: Parts)
    ensures
        ({
            let t = cleared(s, thread);
            &&& t.ledger.contains_key(k) == s.ledger.contains_key(k)
            &&& s.ledger.contains_key(k) && s.ledger[k].thread_id != thread ==> t.ledger[k] == s.ledger[k]
            &&& s.ledger.contains_key(k) && s.ledger[k].thread_id == thread ==> {
                &&& t.ledger[k].body_stamp is None && t.ledger[k].avatar_stamp is None
                &&& t.ledger[k].post_id == s.ledger[k].post_id && t.ledger[k].version_id == s.ledger[k].version_id
                    && t.ledger[k].descriptor == s.ledger[k].descriptor
                &&& s.ledger[k].attachments.contains_key(a) ==> t.ledger[k].attachments.contains_key(a)
                    && !t.ledger[k].attachments[a].verified && t.ledger[k].attachments[a].stamp is None
                    && t.ledger[k].attachments[a].sha256 == s.ledger[k].attachments[a].sha256
            }
            &&& t.unavailable.contains_key(k) <==> s.unavailable.contains_key(k) && s.unavailable[k].thread_id != thread
            &&& t.records == s.records
        }),
{
}

/// The record of a thread is the one that was read, unless its file changed
/// meanwhile; a missing one is forgotten. Other threads keep theirs.
pub proof fn a_record_is_the_one_that_was_read(s: StateModel, thread: Text, r: RecordSight, other: Text)
    ensures
        ({
            let t = recorded(s, thread, r);
            &&& r is Missing ==> !t.records.contains_key(tkey(thread))
            &&& r matches RecordSight::Found { item, unchanged } ==> {
                &&& unchanged ==> t.records.contains_key(tkey(thread)) && t.records[tkey(thread)] == item@
                &&& !unchanged ==> t == s
            }
            &&& other != thread ==> t.records.contains_key(tkey(other)) == s.records.contains_key(tkey(other)) && (
            s.records.contains_key(tkey(other)) ==> t.records[tkey(other)] == s.records[tkey(other)])
        }),
{
    assert(tkey(thread)[0] == thread);
    assert(tkey(other)[0] == other);
}

/// A version is entered exactly if it is not deleted and its file is still the
/// one that was read.
pub proof fn an_unchanged_version_is_entered(s: StateModel, thread: Text, x: InspectedModel)
    ensures
        ({
            let (t, kept) = entered(s, thread, seq![x]);
            let k = tkey(version_key(x.row.post_id, x.row.version_id));
            let fine = !suppressed(s, thread, x.row.post_id, x.row.version_id) && x.body_now == x.row.body_stamp;
            &&& fine ==> t.ledger.contains_key(k) && t.ledger[k].body_stamp == x.row.body_stamp && t.ledger[k].post_id
                == x.row.post_id && t.ledger[k].version_id == x.row.version_id && kept.len() == 1 && kept[0].post
                == x.row.post_id && kept[0].version == x.row.version_id && kept[0].origin == x.origin
            &&& !fine ==> t == s && kept.len() == 0
        }),
{
    let one = seq![x];
    assert(one.drop_last() =~= Seq::<InspectedModel>::empty());
    assert(one.last() == x);
    reveal_with_fuel(entered, 2);
    lemma_row_kept(x.row, x.files_now, x.files_now.len());
}

/// The record of a thread keeps what never changes of its metadata; metadata
/// made of a record start with nothing written.
pub proof fn a_record_keeps_what_never_changes(m: ThreadModel, r: RecordModel)
    ensures
        record_of(m).thread_id == m.thread_id && record_of(m).visibility == m.visibility && record_of(m).project_tags
            == m.project_tags && record_of(m).created_by_project == m.created_by_project && record_of(m).created_by_agent
            == m.created_by_agent && record_of(m).created_at == m.created_at && record_of(m).status == m.status
            && record_of(m).schema == m.schema,
        meta_of_record(r).updated_at == r.created_at,
        meta_of_record(r).latest_post_id.len() == 0,
{
}

/// An attachment whose file changed since it was read counts as missing.
pub proof fn a_changed_attachment_counts_as_missing(r: RowModel, i: int)
    requires
        r.descriptor is Some,
        0 <= i < r.descriptor->0.attachments.len(),
    ensures
        ({
            let a = r.descriptor->0.attachments[i];
            let d = dropped(r, i);
            &&& !d.attachments[tkey(a.id)].verified && d.attachments[tkey(a.id)].stamp is None
            &&& d.descriptor matches Some(p) && !p.attachments[i].available && p.attachments[i].id == a.id
            &&& d.body_stamp == r.body_stamp
        }),
{
}

/// Issues of every thread are told, and a thread that could not be looked
/// through is an issue itself.
pub proof fn every_issue_is_told(s: Seq<RootReport>, i: int, x: IssueModel)
    requires
        0 <= i < s.len(),
    ensures
        s[i].issues is None ==> all_issues(s).contains(
            IssueModel { code: "local_thread_unavailable"@, thread: Some(s[i].root@), post: None },
        ),
        s[i].issues matches Some(v) ==> issue_models(v@).contains(x) ==> all_issues(s).contains(x),
    decreases s.len(),
{
    let head = s.drop_last();
    let a = all_issues(head);
    let last = s.last();
    let b = thread_issues(
        last.root@,
        match last.issues {
            Some(v) => Some(issue_models(v@)),
            None => None,
        },
    );
    let out = all_issues(s);
    assert(out == a + b);
    let lost = IssueModel { code: "local_thread_unavailable"@, thread: Some(s[i].root@), post: None };
    if i < head.len() {
        assert(head[i] == s[i]);
        every_issue_is_told(head, i, x);
        if a.contains(lost) {
            let j = choose|j: int| 0 <= j < a.len() && a[j] == lost;
            assert(out[j] == lost);
        }
        if a.contains(x) {
            let j = choose|j: int| 0 <= j < a.len() && a[j] == x;
            assert(out[j] == x);
        }
    } else {
        if s[i].issues is None {
            assert(b[0] == lost);
            assert(out[a.len() as int] == lost);
        } else if b.contains(x) {
            let j = choose|j: int| 0 <= j < b.len() && b[j] == x;
            assert(out[a.len() + j] == x);
        }
    }
}

} // verus!
