//! The notices that wait, those being delivered and those that are settled.
use vstd::prelude::*;
use crate::bbs::notify::record::{destination_fault, destination_key, is_missing, is_verified, record_fault, waiting_models, BODY_BUDGET};
use crate::bbs::notify::record::{DestinationModel, NoticeModel, ORPHAN_WAIT_MS, Record};
use crate::bbs::sync::model::{same_stamp, suppressed, tkey, version_key, FileStamp, LedgerEntry, StateModel};
use crate::bbs::sync::model::SyncState;
use crate::ids::{is_hash, is_safe_id, valid_hash};
use crate::order::{Key, OrderedMap, OrderedSet, Parts};
use crate::outside::{sha256, sha256_hex, text_of_utf8};
use crate::text::{opt_text, own, plus, plus3, same, texts, trim, trimmed, Text};
use crate::text::occurs;
use crate::text::begins;
use crate::text::ends;
use crate::text::stands_at;

verus! {

// -------------------------------------------------------------------- queue

pub struct Queue {
    /// Where the queue is kept.
    pub dir: String,
    pub pending: OrderedMap<String, Record>,
    pub processing: OrderedMap<String, Record>,
    pub processed: OrderedMap<String, Record>,
    /// The notices whose delivery was taken up again once.
    pub recovered: OrderedSet<String>,
}

#[verifier::ext_equal]
pub struct QueueModel {
    pub pending: Map<Parts, NoticeModel>,
    pub processing: Map<Parts, NoticeModel>,
    pub processed: Map<Parts, NoticeModel>,
    pub recovered: Set<Parts>,
}

pub open spec fn notices(m: Map<Parts, Record>) -> Map<Parts, NoticeModel> {
    m.map_values(|r: Record| r@)
}

impl View for Queue {
    type V = QueueModel;

    open spec fn view(&self) -> QueueModel {
        QueueModel {
            pending: notices(self.pending@),
            processing: notices(self.processing@),
            processed: notices(self.processed@),
            recovered: self.recovered@,
        }
    }
}

pub open spec fn no_notices() -> QueueModel {
    QueueModel { pending: Map::empty(), processing: Map::empty(), processed: Map::empty(), recovered: Set::empty() }
}

/// A notice is in one phase at a time.
pub open spec fn one_phase(q: QueueModel) -> bool {
    &&& forall|k: Parts| !(#[trigger] q.pending.contains_key(k) && q.processing.contains_key(k))
    &&& forall|k: Parts| !(#[trigger] q.pending.contains_key(k) && q.processed.contains_key(k))
    &&& forall|k: Parts| !(#[trigger] q.processing.contains_key(k) && q.processed.contains_key(k))
}

/// Two queues hold the same of one notice.
pub open spec fn same_notice(a: QueueModel, b: QueueModel, key: Text) -> bool {
    let k = tkey(key);
    &&& a.pending.contains_key(k) == b.pending.contains_key(k)
    &&& a.pending.contains_key(k) ==> a.pending[k] == b.pending[k]
    &&& a.processing.contains_key(k) == b.processing.contains_key(k)
    &&& a.processing.contains_key(k) ==> a.processing[k] == b.processing[k]
    &&& a.processed.contains_key(k) == b.processed.contains_key(k)
    &&& a.processed.contains_key(k) ==> a.processed[k] == b.processed[k]
    &&& a.recovered.contains(k) == b.recovered.contains(k)
}

/// What is found where a directory should be.
#[derive(Clone, Copy, PartialEq, Eq, Structural)]
pub enum DirState {
    Missing,
    Directory,
    Other,
}

pub open spec fn is_phase(s: Text) -> bool {
    s == "pending"@ || s == "processing"@ || s == "processed"@
}

/// The directories of a queue, outermost first.
pub open spec fn queue_dirs(dir: Text) -> Seq<Text> {
    seq![dir, dir + "/notify"@, dir + "/notify/pending"@, dir + "/notify/processing"@, dir + "/notify/processed"@]
}

impl Queue {
    pub open spec fn wf(&self) -> bool {
        self.pending.wf() && self.processing.wf() && self.processed.wf() && self.recovered.wf()
    }

    /// An empty queue below the directory of an account's sharing state.
    pub fn new(dir: &str) -> (r: Queue)
        ensures
            r.wf(),
            r.dir@ == dir@,
            r@ == no_notices(),
    {
        let r = Queue {
            dir: own(dir),
            pending: OrderedMap::new(),
            processing: OrderedMap::new(),
            processed: OrderedMap::new(),
            recovered: OrderedSet::new(),
        };
        assert(r@ =~= no_notices());
        r
    }

    pub fn root(&self) -> (r: String)
        ensures
            r@ == self.dir@ + "/notify"@,
    {
        plus(&self.dir, "/notify")
    }

    /// The directories to create, given what is found in their places. What
    /// is no directory is never used.
    pub fn initialize(&self, seen: &Vec<DirState>) -> (r: Result<Vec<String>, String>)
        requires
            seen@.len() == 5,
        ensures
            r is Err == seen@.contains(DirState::Other),
            r matches Err(e) ==> e@ == "unsafe_notification_directory"@,
            r matches Ok(v) ==> texts(v@) == missing_dirs(queue_dirs(self.dir@), seen@),
    {
        let mut dirs: Vec<String> = Vec::new();
        dirs.push(self.dir.clone());
        dirs.push(plus(&self.dir, "/notify"));
        dirs.push(plus(&self.dir, "/notify/pending"));
        dirs.push(plus(&self.dir, "/notify/processing"));
        dirs.push(plus(&self.dir, "/notify/processed"));
        let ghost all = queue_dirs(self.dir@);
        assert(texts(dirs@) =~= all);
        let mut out: Vec<String> = Vec::new();
        let mut i: usize = 0;
        assert(texts(out@) =~= missing_dirs(all.take(0), seen@));
        while i < 5
            invariant
                texts(dirs@) == all,
                dirs@.len() == 5,
                seen@.len() == 5,
                i <= 5,
                forall|j: int| 0 <= j < i ==> #[trigger] seen@[j] != DirState::Other,
                texts(out@) == missing_dirs(all.take(i as int), seen@),
            decreases 5 - i,
        {
            let ghost was = out@;
            assert(all.take(i + 1).drop_last() =~= all.take(i as int));
            assert(all.take(i + 1).last() == dirs@[i as int]@);
            match seen[i] {
                DirState::Other => {
                    assert(seen@[i as int] == DirState::Other);
                    return Err(own("unsafe_notification_directory"));
                },
                DirState::Missing => {
                    out.push(dirs[i].clone());
                    assert(texts(out@) =~= texts(was).push(dirs@[i as int]@));
                },
                DirState::Directory => {},
            }
            i += 1;
        }
        assert(all.take(5) =~= all);
        Ok(out)
    }

    /// Where the notices of a phase are kept, given what is found in the
    /// places that lead there.
    pub fn directory(&self, phase: &str, account: DirState, root: DirState, own_place: DirState) -> (r: Result<
        String,
        String,
    >)
        ensures
            match r {
                Ok(p) => {
                    &&& is_phase(phase@)
                    &&& account != DirState::Other && root != DirState::Other && own_place != DirState::Other
                    &&& p@ == self.dir@ + "/notify"@ + "/"@ + phase@
                },
                Err(e) => if !is_phase(phase@) {
                    e@ == "invalid_notification_phase"@
                } else {
                    &&& account == DirState::Other || root == DirState::Other || own_place == DirState::Other
                    &&& e@ == "unsafe_notification_directory"@
                },
            },
    {
        if !same(phase, "pending") && !same(phase, "processing") && !same(phase, "processed") {
            return Err(own("invalid_notification_phase"));
        }
        if account == DirState::Other || root == DirState::Other || own_place == DirState::Other {
            return Err(own("unsafe_notification_directory"));
        }
        Ok(plus3(&self.root(), "/", phase))
    }
}

/// The directories that are missing.
pub open spec fn missing_dirs(dirs: Seq<Text>, seen: Seq<DirState>) -> Seq<Text>
    decreases dirs.len(),
{
    if dirs.len() == 0 {
        Seq::empty()
    } else {
        let rest = missing_dirs(dirs.drop_last(), seen);
        if seen[dirs.len() - 1] == DirState::Missing {
            rest.push(dirs.last())
        } else {
            rest
        }
    }
}

impl Queue {
    /// The file of a notice in a phase. The directories on the way are looked
    /// at once the key has been found sound.
    pub fn path(&self, phase: &str, key: &str, account: DirState, root: DirState, own_place: DirState) -> (r: Result<
        String,
        String,
    >)
        ensures
            match r {
                Ok(p) => {
                    &&& is_hash(key@) && is_phase(phase@)
                    &&& account != DirState::Other && root != DirState::Other && own_place != DirState::Other
                    &&& p@ == self.dir@ + "/notify"@ + "/"@ + phase@ + "/"@ + key@ + ".json"@
                },
                Err(e) => if !is_hash(key@) {
                    e@ == "invalid_hash"@
                } else if !is_phase(phase@) {
                    e@ == "invalid_notification_phase"@
                } else {
                    &&& account == DirState::Other || root == DirState::Other || own_place == DirState::Other
                    &&& e@ == "unsafe_notification_directory"@
                },
            },
    {
        if !valid_hash(key) {
            return Err(own("invalid_hash"));
        }
        match self.directory(phase, account, root, own_place) {
            Ok(d) => {
                let mut out = plus3(&d, "/", key);
                out.append(".json");
                Ok(out)
            },
            Err(e) => Err(e),
        }
    }
}

// ---------------------------------------------------------------------- body

/// The two places of a post's body.
#[derive(Clone, Copy, Debug, PartialEq, Eq, Structural)]
pub enum BodyPlace {
    Resident,
    Version,
}

pub open spec fn body_path(d: DestinationModel, version: Text, place: BodyPlace) -> Text {
    match place {
        BodyPlace::Resident => "threads/"@ + d.thread + "/posts/"@ + d.post + ".md"@,
        BodyPlace::Version => "threads/"@ + d.thread + "/versions/"@ + d.post + "/"@ + version + "/post.md"@,
    }
}

/// The two places where the body of a notice's post may stand, below the
/// board. They hold even where the identifiers are too long to be shared.
pub fn bodies(record: &Record) -> (r: Result<(String, String), String>)
    ensures
        match destination_fault(record@.destination) {
            Some(e) => r is Err && r->Err_0@ == e,
            None => {
                &&& r is Ok
                &&& r->Ok_0.0@ == body_path(record@.destination, record@.version, BodyPlace::Resident)
                &&& r->Ok_0.1@ == body_path(record@.destination, record@.version, BodyPlace::Version)
            },
        },
{
    let d = &record.destination;
    match d.validate() {
        Err(e) => Err(e),
        Ok(_) => {
            let thread = plus("threads/", &d.thread_id);
            let mut resident = plus3(&thread, "/posts/", &d.post_id);
            resident.append(".md");
            let mut version = plus3(&thread, "/versions/", &d.post_id);
            version.append("/");
            version.append(&record.version_id);
            version.append("/post.md");
            Ok((resident, version))
        },
    }
}

/// What is seen of a notice's post, with the board locked.
pub struct Sight {
    /// Another process holds the notice.
    pub busy: bool,
    /// The identity of this device.
    pub device_id: Option<String>,
    pub resident: Option<FileStamp>,
    pub version: Option<FileStamp>,
    /// The thread's metadata can be read and name the thread.
    pub thread_present: bool,
}

pub struct SightModel {
    pub busy: bool,
    pub device: Option<Text>,
    pub resident: Option<FileStamp>,
    pub version: Option<FileStamp>,
    pub thread_present: bool,
}

impl View for Sight {
    type V = SightModel;

    open spec fn view(&self) -> SightModel {
        SightModel {
            busy: self.busy,
            device: opt_text(self.device_id),
            resident: self.resident,
            version: self.version,
            thread_present: self.thread_present,
        }
    }
}

/// What the ledger says of the body's file.
pub open spec fn ledger_stamp(s: StateModel, post: Text, version: Text) -> Option<FileStamp> {
    let k = tkey(version_key(post, version));
    if is_safe_id(post) && is_hash(version) && s.ledger.contains_key(k) {
        s.ledger[k].body_stamp
    } else {
        None
    }
}

/// A file is the body: it is the one that was published, or the one that the
/// ledger knows.
pub open spec fn is_body(s: StateModel, n: NoticeModel, stamp: Option<FileStamp>) -> bool {
    stamp is Some && (n.proof == stamp || ledger_stamp(s, n.destination.post, n.version) == stamp)
}

/// Where the body is, if it is unchanged.
pub open spec fn body_at(s: StateModel, n: NoticeModel, f: SightModel) -> Option<BodyPlace> {
    if is_body(s, n, f.resident) {
        Some(BodyPlace::Resident)
    } else if is_body(s, n, f.version) {
        Some(BodyPlace::Version)
    } else {
        None
    }
}

/// The notice is for an agent of this device. The word `local` means this
/// device only in a post that was written here.
pub open spec fn addressed_here(n: NoticeModel, device: Option<Text>) -> bool {
    if n.destination.target.device == "local"@ {
        n.author.local
    } else {
        device == Some(n.destination.target.device)
    }
}

pub open spec fn is_deleted(s: StateModel, n: NoticeModel) -> bool {
    suppressed(s, n.destination.thread, n.destination.post, n.version)
}

fn body_in(record: &Record, state: &SyncState, sight: &Sight) -> (r: Option<BodyPlace>)
    requires
        state.wf(),
    ensures
        r == body_at(state@, record@, sight@),
{
    let ledger: Option<FileStamp> = if LedgerEntry::version_key(
        &record.destination.post_id,
        &record.version_id,
    ).is_none() {
        None
    } else {
        match state.row(&record.destination.post_id, &record.version_id) {
            Some(row) => row.body_stamp,
            None => None,
        }
    };
    if sight.resident.is_some() && (same_stamp(&record.proof, &sight.resident) || same_stamp(&ledger, &sight.resident)) {
        return Some(BodyPlace::Resident);
    }
    if sight.version.is_some() && (same_stamp(&record.proof, &sight.version) || same_stamp(&ledger, &sight.version)) {
        return Some(BodyPlace::Version);
    }
    None
}

fn is_addressed_here(record: &Record, device_id: &Option<String>) -> (r: bool)
    ensures
        r == addressed_here(record@, opt_text(*device_id)),
{
    let target = &record.destination.target.device_id;
    if same(target, "local") {
        return record.author.local;
    }
    match device_id {
        Some(d) => same(d, target),
        None => false,
    }
}

// --------------------------------------------------------------------- check

/// A notice to deliver now.
pub struct Claim {
    pub record: Record,
    pub body: BodyPlace,
    pub attachment_warning: bool,
}

/// What to do with a notice.
pub enum Check {
    Done,
    Wait { at: i64, record: Record },
    Recover,
    Deliver(Claim),
}

pub enum CheckModel {
    Done,
    Wait { at: i64, record: NoticeModel },
    Recover,
    Deliver { record: NoticeModel, body: BodyPlace, warning: bool },
}

impl View for Check {
    type V = CheckModel;

    open spec fn view(&self) -> CheckModel {
        match self {
            Check::Done => CheckModel::Done,
            Check::Wait { at, record } => CheckModel::Wait { at: *at, record: record@ },
            Check::Recover => CheckModel::Recover,
            Check::Deliver(c) => CheckModel::Deliver {
                record: c.record@,
                body: c.body,
                warning: c.attachment_warning,
            },
        }
    }
}

/// A notice is settled: it only keeps its outcome.
pub open spec fn settled(n: NoticeModel, result: Text) -> NoticeModel {
    NoticeModel { result: Some(result), waiting: Seq::empty(), ..n }
}

/// A notice leaves its phase for good.
pub open spec fn retired(q: QueueModel, key: Text, n: NoticeModel, result: Text) -> QueueModel {
    let k = tkey(key);
    QueueModel {
        pending: q.pending.remove(k),
        processing: q.processing.remove(k),
        processed: q.processed.insert(k, settled(n, result)),
        recovered: q.recovered.remove(k),
    }
}

/// When a notice without a post is given up.
pub open spec fn orphan_expiry(created: i64) -> int {
    if created + ORPHAN_WAIT_MS > i64::MAX {
        i64::MAX as int
    } else {
        created + ORPHAN_WAIT_MS
    }
}

/// The notice and whether it is being delivered already.
pub open spec fn current(q: QueueModel, key: Text) -> Option<(NoticeModel, bool)> {
    let k = tkey(key);
    if q.pending.contains_key(k) {
        Some((q.pending[k], false))
    } else if q.processing.contains_key(k) {
        Some((q.processing[k], true))
    } else {
        None
    }
}

/// A stored notice that cannot be trusted.
pub open spec fn stored_fault(q: QueueModel, key: Text) -> Option<Text> {
    let k = tkey(key);
    if q.processed.contains_key(k) {
        record_fault(q.processed[k], key)
    } else {
        match current(q, key) {
            Some((n, _)) => record_fault(n, key),
            None => None,
        }
    }
}

/// A notice without a post: wait for it, recover it, or give it up.
pub open spec fn awaiting(q: QueueModel, key: Text, n: NoticeModel, now: i64, f: SightModel) -> (QueueModel, CheckModel) {
    if f.resident is Some || f.version is Some {
        (q, CheckModel::Recover)
    } else if now < orphan_expiry(n.created) {
        (q, CheckModel::Wait { at: orphan_expiry(n.created) as i64, record: n })
    } else {
        (retired(q, key, n, "unpublished"@), CheckModel::Done)
    }
}

/// A notice that may be delivered: once from the queue, and once more after a
/// run that did not settle it.
pub open spec fn taken(
    q: QueueModel,
    key: Text,
    n: NoticeModel,
    again: bool,
    run: Text,
    body: BodyPlace,
    missing: bool,
) -> (QueueModel, CheckModel) {
    let k = tkey(key);
    if again {
        if q.recovered.contains(k) {
            (retired(q, key, n, "recovery_exhausted"@), CheckModel::Done)
        } else {
            (
                QueueModel { recovered: q.recovered.insert(k), ..q },
                CheckModel::Deliver { record: n, body, warning: missing },
            )
        }
    } else {
        let owned = NoticeModel { owner: Some(run), ..n };
        (
            QueueModel { pending: q.pending.remove(k), processing: q.processing.insert(k, owned), ..q },
            CheckModel::Deliver { record: owned, body, warning: missing },
        )
    }
}

/// What becomes of a notice now.
pub open spec fn checked(
    q: QueueModel,
    s: StateModel,
    key: Text,
    run: Text,
    now: i64,
    f: SightModel,
) -> (QueueModel, CheckModel) {
    if q.processed.contains_key(tkey(key)) || current(q, key) is None {
        (q, CheckModel::Done)
    } else {
        let (n, again) = current(q, key)->0;
        if f.busy || (again && n.owner == Some(run)) {
            (q, CheckModel::Done)
        } else if !addressed_here(n, f.device) {
            (retired(q, key, n, "device_unavailable"@), CheckModel::Done)
        } else if is_deleted(s, n) {
            (retired(q, key, n, "deleted"@), CheckModel::Done)
        } else if !n.ready {
            awaiting(q, key, n, now, f)
        } else if body_at(s, n, f) is None || !f.thread_present {
            (retired(q, key, n, "body_unavailable"@), CheckModel::Done)
        } else if is_missing(s, n) && now < n.deadline {
            (q, CheckModel::Wait { at: n.deadline, record: n })
        } else {
            taken(q, key, n, again, run, body_at(s, n, f)->0, is_missing(s, n))
        }
    }
}

fn settle_record(record: Record, result: &str) -> (r: Record)
    ensures
        r@ == settled(record@, result@),
{
    let mut record = record;
    record.result = Some(own(result));
    record.waiting = Vec::new();
    assert(waiting_models(record.waiting@) =~= Seq::empty());
    record
}

impl Queue {
    /// Settle a notice with an outcome.
    fn retire(&mut self, key: &String, record: Record, result: &str)
        requires
            old(self).wf(),
        ensures
            final(self).wf(),
            final(self).dir == old(self).dir,
            final(self)@ == retired(old(self)@, key@, record@, result@),
    {
        let ghost was = self@;
        let done = settle_record(record, result);
        let ghost d = done@;
        self.pending.remove(key);
        self.processing.remove(key);
        self.processed.insert(key.clone(), done);
        self.recovered.remove(key);
        assert(self@ =~= retired(was, key@, record@, result@));
    }

    /// Decide what becomes of a notice: whether it is for this device, its
    /// post still there, and what it waits for.
    pub fn check(&mut self, state: &SyncState, key: &str, run: &str, now: i64, sight: &Sight) -> (r: Result<
        Check,
        String,
    >)
        requires
            old(self).wf(),
            state.wf(),
        ensures
            final(self).wf(),
            final(self).dir == old(self).dir,
            match stored_fault(old(self)@, key@) {
                Some(e) => r is Err && r->Err_0@ == e && final(self)@ == old(self)@,
                None => {
                    let c = checked(old(self)@, state@, key@, run@, now, sight@);
                    r is Ok && final(self)@ == c.0 && r->Ok_0@ == c.1
                },
            },
    {
        let ghost q = self@;
        let ghost s = state@;
        let k = own(key);
        if let Some(done) = self.processed.get(&k) {
            return match done.validate(key) {
                Ok(_) => Ok(Check::Done),
                Err(e) => Err(e),
            };
        }
        let mut again = false;
        let record: Record = match self.pending.get(&k) {
            Some(n) => n.copy(),
            None => {
                again = true;
                match self.processing.get(&k) {
                    Some(n) => n.copy(),
                    None => {
                        return Ok(Check::Done);
                    },
                }
            },
        };
        let ghost n = record@;
        assert(current(q, key@) == Some((n, again)));
        match record.validate(key) {
            Ok(_) => {},
            Err(e) => {
                return Err(e);
            },
        }
        if sight.busy {
            return Ok(Check::Done);
        }
        if again {
            if let Some(owner) = &record.owner_run {
                if same(owner, run) {
                    return Ok(Check::Done);
                }
            }
        }
        if !is_addressed_here(&record, &sight.device_id) {
            self.retire(&k, record, "device_unavailable");
            return Ok(Check::Done);
        }
        if state.suppressed(&record.destination.thread_id, &record.destination.post_id, &record.version_id) {
            self.retire(&k, record, "deleted");
            return Ok(Check::Done);
        }
        if !record.ready {
            if sight.resident.is_some() || sight.version.is_some() {
                return Ok(Check::Recover);
            }
            let expiry: i64 = if record.created_at_ms > i64::MAX - ORPHAN_WAIT_MS {
                i64::MAX
            } else {
                record.created_at_ms + ORPHAN_WAIT_MS
            };
            if now < expiry {
                return Ok(Check::Wait { at: expiry, record });
            }
            self.retire(&k, record, "unpublished");
            return Ok(Check::Done);
        }
        let body = match body_in(&record, state, sight) {
            Some(b) => b,
            None => {
                self.retire(&k, record, "body_unavailable");
                return Ok(Check::Done);
            },
        };
        if !sight.thread_present {
            self.retire(&k, record, "body_unavailable");
            return Ok(Check::Done);
        }
        let missing = record.missing(state);
        if missing && now < record.deadline_ms {
            return Ok(Check::Wait { at: record.deadline_ms, record });
        }
        Ok(self.take(&k, record, again, run, body, missing))
    }

    /// Take a notice for delivery.
    fn take(&mut self, k: &String, record: Record, again: bool, run: &str, body: BodyPlace, missing: bool) -> (r: Check)
        requires
            old(self).wf(),
            again ==> old(self)@.processing.contains_key(tkey(k@)) && old(self)@.processing[tkey(k@)] == record@,
        ensures
            final(self).wf(),
            final(self).dir == old(self).dir,
            final(self)@ == taken(old(self)@, k@, record@, again, run@, body, missing).0,
            r@ == taken(old(self)@, k@, record@, again, run@, body, missing).1,
    {
        let ghost was = self@;
        if again {
            if self.recovered.has(k) {
                self.retire(k, record, "recovery_exhausted");
                return Check::Done;
            }
            self.recovered.insert(k.clone());
            assert(self@ =~= taken(was, k@, record@, again, run@, body, missing).0);
            return Check::Deliver(Claim { record, body, attachment_warning: missing });
        }
        let mut record = record;
        record.owner_run = Some(own(run));
        let kept = record.copy();
        self.pending.remove(k);
        self.processing.insert(k.clone(), kept);
        assert(self@ =~= taken(was, k@, record@, again, run@, body, missing).0);
        Check::Deliver(Claim { record, body, attachment_warning: missing })
    }

    /// A delivery is over.
    pub fn finish(&mut self, claim: Claim, result: &str)
        requires
            old(self).wf(),
        ensures
            final(self).wf(),
            final(self).dir == old(self).dir,
            final(self)@ == retired(
                old(self)@,
                destination_key(claim.record@.destination),
                claim.record@,
                result@,
            ),
    {
        let key = claim.record.destination.key();
        self.retire(&key, claim.record, result);
    }

    /// The post of a claimed notice is still there, unchanged, and for this
    /// device.
    pub fn still_publishable(&self, state: &SyncState, claim: &Claim, sight: &Sight) -> (r: bool)
        requires
            state.wf(),
        ensures
            r == (!is_deleted(state@, claim.record@) && addressed_here(claim.record@, sight@.device)
                && sight.thread_present && body_at(state@, claim.record@, sight@) == Some(claim.body)),
    {
        let d = &claim.record.destination;
        if state.suppressed(&d.thread_id, &d.post_id, &claim.record.version_id) {
            return false;
        }
        if !is_addressed_here(&claim.record, &sight.device_id) || !sight.thread_present {
            return false;
        }
        match body_in(&claim.record, state, sight) {
            Some(b) => b == claim.body,
            None => false,
        }
    }
}

// ------------------------------------------------------------------ recovery

/// What reading a possible body gave.
pub struct BodySight {
    pub stamp: FileStamp,
    pub sha256: String,
    /// The file did not change while it was read.
    pub steady: bool,
}

pub struct BodyModel {
    pub stamp: FileStamp,
    pub sha256: Text,
    pub steady: bool,
}

pub open spec fn body_model(b: Option<BodySight>) -> Option<BodyModel> {
    match b {
        Some(x) => Some(BodyModel { stamp: x.stamp, sha256: x.sha256@, steady: x.steady }),
        None => None,
    }
}

impl BodySight {
    /// A file with these bytes.
    pub fn of(stamp: FileStamp, content: &Vec<u8>, steady: bool) -> (r: BodySight)
        ensures
            r.stamp == stamp,
            r.sha256@ == sha256(content@),
            r.steady == steady,
    {
        BodySight { stamp, sha256: sha256_hex(content), steady }
    }
}

/// The file holds the bytes that were meant to be published.
pub open spec fn is_published(n: NoticeModel, b: Option<BodyModel>) -> bool {
    b matches Some(x) && x.stamp.len == n.file_size && x.sha256 == n.version && x.steady
}

/// The file of the post, found by its hash.
pub open spec fn recovered_proof(n: NoticeModel, resident: Option<BodyModel>, version: Option<BodyModel>) -> Option<
    FileStamp,
> {
    if is_published(n, resident) {
        Some(resident->0.stamp)
    } else if is_published(n, version) {
        Some(version->0.stamp)
    } else {
        None
    }
}

/// A notice whose post turned out to be there.
pub open spec fn made_ready(n: NoticeModel, stamp: FileStamp) -> NoticeModel {
    NoticeModel { ready: true, proof: Some(stamp), ..n }
}

/// Is this the body that was meant to be published?
pub fn published_body(record: &Record, b: &Option<BodySight>) -> (r: bool)
    ensures
        r == is_published(record@, body_model(*b)),
{
    match b {
        Some(x) => x.stamp.len == record.file_size && same(&x.sha256, &record.version_id) && x.steady,
        None => false,
    }
}

impl Queue {
    /// Find the post of a notice after a crash between publication and its
    /// record. The deadline stays as it was. `still` is the file's stamp once
    /// the board is locked.
    pub fn recover(
        &mut self,
        state: &SyncState,
        key: &str,
        resident: &Option<BodySight>,
        version: &Option<BodySight>,
        still: &Option<FileStamp>,
    ) -> (r: Result<(), String>)
        requires
            old(self).wf(),
            state.wf(),
        ensures
            final(self).wf(),
            final(self).dir == old(self).dir,
            ({
                let q = old(self)@;
                let k = tkey(key@);
                if !q.pending.contains_key(k) {
                    r is Ok && final(self)@ == q
                } else if record_fault(q.pending[k], key@) is Some {
                    r is Err && r->Err_0@ == record_fault(q.pending[k], key@)->0 && final(self)@ == q
                } else if q.pending[k].ready {
                    r is Ok && final(self)@ == q
                } else {
                    let n = q.pending[k];
                    let found = recovered_proof(n, body_model(*resident), body_model(*version));
                    if found is None {
                        r is Err && r->Err_0@ == "notification_recovery_body_changed"@ && final(self)@ == q
                    } else if is_deleted(state@, n) || *still != found {
                        r is Ok && final(self)@ == q
                    } else {
                        r is Ok && final(self)@ == (QueueModel {
                            pending: q.pending.insert(k, made_ready(n, found->0)),
                            ..q
                        })
                    }
                }
            }),
    {
        let ghost q = self@;
        let k = own(key);
        let record: Record = match self.pending.get(&k) {
            Some(n) => n.copy(),
            None => {
                return Ok(());
            },
        };
        match record.validate(key) {
            Ok(_) => {},
            Err(e) => {
                return Err(e);
            },
        }
        if record.ready {
            return Ok(());
        }
        let stamp: FileStamp = if published_body(&record, resident) {
            match resident {
                Some(b) => b.stamp,
                None => {
                    return Ok(());
                },
            }
        } else if published_body(&record, version) {
            match version {
                Some(b) => b.stamp,
                None => {
                    return Ok(());
                },
            }
        } else {
            return Err(own("notification_recovery_body_changed"));
        };
        let d = &record.destination;
        if state.suppressed(&d.thread_id, &d.post_id, &record.version_id) || !same_stamp(still, &Some(stamp)) {
            return Ok(());
        }
        let mut record = record;
        record.ready = true;
        record.proof = Some(stamp);
        let ghost made = record@;
        self.pending.insert(k, record);
        assert(self@.pending =~= q.pending.insert(tkey(key@), made));
        Ok(())
    }
}

// ---------------------------------------------------------------------- text

/// What stands in a notice for a body that is too long.
pub open spec fn pointer_text(thread: Text) -> Text {
    "Post body omitted from this notice because it exceeds 16 KiB. Run kota-bbs show "@ + thread + " to read it."@
}

/// The text of a notice: the body, or a pointer to it. `raw` is what the file
/// holds behind the frontmatter, `steady` that it did not change meanwhile.
pub open spec fn notice_body(n: NoticeModel, regular: bool, len: nat, raw: Seq<u8>, steady: bool) -> Result<Text, Text> {
    if !regular || len != n.file_size {
        Err("notification_body_changed"@)
    } else if n.file_size - n.body_offset > BODY_BUDGET {
        Ok(pointer_text(n.destination.thread))
    } else if raw.len() > BODY_BUDGET || !steady {
        Err("notification_body_changed"@)
    } else if !vstd::utf8::valid_utf8(raw) {
        Err("invalid_notification_body"@)
    } else {
        Ok(trimmed(vstd::utf8::decode_utf8(raw)))
    }
}

pub open spec fn body_result(r: Result<String, String>) -> Result<Text, Text> {
    match r {
        Ok(s) => Ok(s@),
        Err(e) => Err(e@),
    }
}

impl Queue {
    pub fn body_text(&self, claim: &Claim, regular: bool, len: u64, raw: Vec<u8>, steady: bool) -> (r: Result<
        String,
        String,
    >)
        requires
            claim.record.body_offset <= claim.record.file_size,
        ensures
            body_result(r) == notice_body(claim.record@, regular, len as nat, raw@, steady),
    {
        let record = &claim.record;
        if !regular || len != record.file_size {
            return Err(own("notification_body_changed"));
        }
        if record.file_size - record.body_offset > BODY_BUDGET {
            return Ok(
                plus3(
                    "Post body omitted from this notice because it exceeds 16 KiB. Run kota-bbs show ",
                    &record.destination.thread_id,
                    " to read it.",
                ),
            );
        }
        if raw.len() > BODY_BUDGET as usize || !steady {
            return Err(own("notification_body_changed"));
        }
        match text_of_utf8(raw) {
            Some(t) => Ok(trim(&t)),
            None => Err(own("invalid_notification_body")),
        }
    }
}

// ---------------------------------------------------------------------- laws

/// Every operation keeps a notice in one phase.
pub proof fn notices_stay_in_one_phase(
    q: QueueModel,
    s: StateModel,
    key: Text,
    run: Text,
    now: i64,
    f: SightModel,
    n: NoticeModel,
    result: Text,
)
    requires
        one_phase(q),
    ensures
        one_phase(checked(q, s, key, run, now, f).0),
        one_phase(retired(q, key, n, result)),
{
}

/// A check looks at its own notice alone and changes no other.
pub proof fn a_check_concerns_its_own_notice(
    q: QueueModel,
    w: QueueModel,
    s: StateModel,
    key: Text,
    run: Text,
    now: i64,
    f: SightModel,
    other: Text,
)
    requires
        same_notice(q, w, key),
        other != key,
    ensures
        stored_fault(q, key) == stored_fault(w, key),
        checked(q, s, key, run, now, f).1 == checked(w, s, key, run, now, f).1,
        same_notice(checked(q, s, key, run, now, f).0, checked(w, s, key, run, now, f).0, key),
        same_notice(checked(q, s, key, run, now, f).0, q, other),
{
    assert(tkey(other)[0] == other);
    assert(tkey(key)[0] == key);
}

/// What is settled is never delivered again.
pub proof fn a_settled_notice_stays_settled(
    q: QueueModel,
    s: StateModel,
    key: Text,
    run: Text,
    now: i64,
    f: SightModel,
    n: NoticeModel,
    result: Text,
)
    ensures
        checked(retired(q, key, n, result), s, key, run, now, f) == (retired(q, key, n, result), CheckModel::Done),
{
}

/// While one process holds a notice, or after the same run has taken it, it is
/// left alone, whatever has become of the board.
pub proof fn a_claim_is_exclusive(
    q: QueueModel,
    s: StateModel,
    key: Text,
    run: Text,
    now: i64,
    f: SightModel,
    since: StateModel,
    later: i64,
    seen: SightModel,
)
    requires
        one_phase(q),
        q.pending.contains_key(tkey(key)),
        checked(q, s, key, run, now, f).1 is Deliver,
    ensures
        ({
            let after = checked(q, s, key, run, now, f).0;
            &&& checked(after, since, key, run, later, seen) == (after, CheckModel::Done)
            &&& forall|other: Text|
                seen.busy ==> #[trigger] checked(after, since, key, other, later, seen) == (after, CheckModel::Done)
        }),
{
}

/// A claim that is recovered from an earlier run keeps that run as its owner.
/// While it is held, and for that owner, a check leaves it alone. Every other
/// check, also one by the run that recovered it, settles it without a delivery,
/// or waits for attachments that are missing before the deadline. On the same
/// board there is nothing to wait for.
pub proof fn a_recovered_claim_is_not_delivered_again(
    q: QueueModel,
    s: StateModel,
    key: Text,
    run: Text,
    now: i64,
    f: SightModel,
    since: StateModel,
    other: Text,
    later: i64,
    seen: SightModel,
)
    requires
        one_phase(q),
        q.processing.contains_key(tkey(key)),
        checked(q, s, key, run, now, f).1 is Deliver,
    ensures
        ({
            let k = tkey(key);
            let n = q.processing[k];
            let after = checked(q, s, key, run, now, f).0;
            let next = checked(after, since, key, other, later, seen);
            let left = seen.busy || n.owner == Some(other);
            let early = is_missing(since, n) && later < n.deadline;
            &&& n.owner != Some(run)
            &&& after == QueueModel { recovered: q.recovered.insert(k), ..q }
            &&& left ==> next == (after, CheckModel::Done)
            &&& next.1 is Wait ==> early && next == (after, CheckModel::Wait { at: n.deadline, record: n })
            &&& !(next.1 is Wait) ==> next.1 is Done
            &&& next.1 is Done && !left ==> next.0.processed.contains_key(k)
            &&& !early ==> next.1 is Done
            &&& since == s && now <= later ==> next.1 is Done
        }),
{
}

/// What is settled or unknown is done with, and a notice is only put off to a
/// time to come. Neither changes the queue.
pub proof fn a_notice_waits_for_a_time_to_come(
    q: QueueModel,
    s: StateModel,
    key: Text,
    run: Text,
    now: i64,
    f: SightModel,
)
    ensures
        ({
            let (after, check) = checked(q, s, key, run, now, f);
            &&& q.processed.contains_key(tkey(key)) || current(q, key) is None ==> (after, check) == (q, CheckModel::Done)
            &&& check matches CheckModel::Wait { at, record } ==> {
                &&& now < at
                &&& after == q
                &&& current(q, key) matches Some((n, _)) && n == record
            }
        }),
{
}

/// A notice is delivered at most twice: after its first delivery and one
/// recovery it is given up.
pub proof fn a_delivery_is_recovered_at_most_once(
    q: QueueModel,
    s: StateModel,
    key: Text,
    run: Text,
    now: i64,
    f: SightModel,
)
    requires
        one_phase(q),
        q.processing.contains_key(tkey(key)),
        q.recovered.contains(tkey(key)),
    ensures
        !(checked(q, s, key, run, now, f).1 is Deliver),
{
}

/// Nothing is delivered while attachments are missing and the deadline has
/// not passed; what is delivered without them says so.
pub proof fn missing_attachments_delay_or_warn(
    q: QueueModel,
    s: StateModel,
    key: Text,
    run: Text,
    now: i64,
    f: SightModel,
)
    ensures
        checked(q, s, key, run, now, f).1 matches CheckModel::Deliver { record, warning, .. } ==> {
            &&& warning == is_missing(s, record)
            &&& warning ==> record.deadline <= now
            &&& record.ready
            &&& !is_deleted(s, record)
            &&& addressed_here(record, f.device)
        },
{
    if current(q, key) is Some {
        let (n, again) = current(q, key)->0;
        let owned = NoticeModel { owner: Some(run), ..n };
        assert(owned.waiting == n.waiting);
        assert(is_missing(s, owned) == is_missing(s, n)) by {
            if is_missing(s, n) {
                let i = choose|i: int| 0 <= i < n.waiting.len() && !is_verified(s, #[trigger] n.waiting[i]);
                assert(!is_verified(s, owned.waiting[i]));
            }
            if is_missing(s, owned) {
                let i = choose|i: int| 0 <= i < owned.waiting.len() && !is_verified(s, #[trigger] owned.waiting[i]);
                assert(!is_verified(s, n.waiting[i]));
            }
        }
    }
}

/// What a notice that waits in the queue comes to, told by its post and its
/// addressee. It is delivered exactly if it is for an agent of this device, its
/// post is there, not deleted and unchanged, and nothing is missing or the
/// deadline has passed. It is given up for another device, for a deletion, for
/// a body that is gone, and without a post ten minutes after it was made.
pub proof fn the_fate_of_a_pending_notice(
    q: QueueModel,
    s: StateModel,
    key: Text,
    run: Text,
    now: i64,
    f: SightModel,
)
    requires
        one_phase(q),
        q.pending.contains_key(tkey(key)),
        !f.busy,
    ensures
        ({
            let k = tkey(key);
            let n = q.pending[k];
            let d = n.destination;
            let (after, check) = checked(q, s, key, run, now, f);
            let here = (d.target.device == "local"@ && n.author.local) || (d.target.device != "local"@ && f.device == Some(
                d.target.device,
            ));
            let gone = suppressed(s, d.thread, d.post, n.version);
            let row = tkey(version_key(d.post, n.version));
            let in_ledger = |t: FileStamp|
                is_safe_id(d.post) && is_hash(n.version) && s.ledger.contains_key(row) && s.ledger[row].body_stamp == Some(
                    t,
                );
            let in_place = f.resident matches Some(t) && (n.proof == Some(t) || in_ledger(t));
            let in_store = f.version matches Some(t) && (n.proof == Some(t) || in_ledger(t));
            let complete = forall|i: int| 0 <= i < n.waiting.len() ==> is_verified(s, #[trigger] n.waiting[i]);
            let there = n.ready && (in_place || in_store) && f.thread_present;
            &&& check is Deliver <==> here && !gone && there && (complete || n.deadline <= now)
            &&& check matches CheckModel::Deliver { record, body, warning } ==> {
                &&& record == NoticeModel { owner: Some(run), ..n }
                &&& body == if in_place {
                    BodyPlace::Resident
                } else {
                    BodyPlace::Version
                }
                &&& warning == !complete
                &&& after.processing.contains_key(k) && after.processing[k] == record
                &&& !after.pending.contains_key(k) && !after.processed.contains_key(k)
            }
            &&& here && !gone && there && !complete && now < n.deadline ==> check == CheckModel::Wait {
                at: n.deadline,
                record: n,
            }
            &&& here && !gone && !n.ready && (f.resident is Some || f.version is Some) ==> check is Recover
            &&& here && !gone && !n.ready && f.resident is None && f.version is None && now < n.created + 600000
                && n.created + 600000 <= i64::MAX ==> check == CheckModel::Wait {
                at: (n.created + 600000) as i64,
                record: n,
            }
            &&& check is Done ==> {
                &&& after.processed.contains_key(k) && !after.pending.contains_key(k) && !after.processing.contains_key(k)
                &&& after.processed[k].destination == d && after.processed[k].version == n.version
                &&& after.processed[k].waiting.len() == 0
                &&& after.processed[k].result == Some(
                    if !here {
                        "device_unavailable"@
                    } else if gone {
                        "deleted"@
                    } else if !n.ready {
                        "unpublished"@
                    } else {
                        "body_unavailable"@
                    },
                )
                &&& here && !gone && !n.ready ==> n.created + 600000 <= now || now == i64::MAX
            }
            &&& !(check is Done) ==> after.processed == q.processed
        }),
{
    let n = q.pending[tkey(key)];
    let row = tkey(version_key(n.destination.post, n.version));
    assert(is_missing(s, n) <==> !(forall|i: int| 0 <= i < n.waiting.len() ==> is_verified(s, #[trigger] n.waiting[i])));
}

/// A delivery that an earlier run left unsettled is made once more, under the
/// same conditions, and the notice is given up after that.
pub proof fn an_unsettled_delivery_is_made_once_more(
    q: QueueModel,
    s: StateModel,
    key: Text,
    run: Text,
    now: i64,
    f: SightModel,
)
    requires
        one_phase(q),
        q.processing.contains_key(tkey(key)),
        !f.busy,
        q.processing[tkey(key)].owner != Some(run),
        q.processing[tkey(key)].ready,
        q.processing[tkey(key)].waiting.len() == 0,
        f.thread_present,
        f.resident is Some,
        q.processing[tkey(key)].proof == f.resident,
        f.device == Some(q.processing[tkey(key)].destination.target.device),
        q.processing[tkey(key)].destination.target.device != "local"@,
        !suppressed(
            s,
            q.processing[tkey(key)].destination.thread,
            q.processing[tkey(key)].destination.post,
            q.processing[tkey(key)].version,
        ),
    ensures
        ({
            let k = tkey(key);
            let (after, check) = checked(q, s, key, run, now, f);
            &&& !q.recovered.contains(k) ==> check is Deliver && after.recovered.contains(k) && after.processing
                == q.processing
            &&& q.recovered.contains(k) ==> check is Done && after.processed.contains_key(k)
                && after.processed[k].result == Some("recovery_exhausted"@)
        }),
{
}

/// A notice that is settled says how, waits for nothing, is otherwise as it
/// was, and is in no other phase.
pub proof fn a_settled_notice_keeps_its_outcome(q: QueueModel, key: Text, n: NoticeModel, result: Text, other: Text)
    ensures
        ({
            let k = tkey(key);
            let after = retired(q, key, n, result);
            &&& after.processed.contains_key(k)
            &&& after.processed[k].result == Some(result)
            &&& after.processed[k].waiting.len() == 0
            &&& after.processed[k].destination == n.destination
            &&& after.processed[k].version == n.version
            &&& after.processed[k].author == n.author
            &&& after.processed[k].created == n.created
            &&& after.processed[k].deadline == n.deadline
            &&& after.processed[k].owner == n.owner
            &&& after.processed[k].proof == n.proof
            &&& !after.pending.contains_key(k)
            &&& !after.processing.contains_key(k)
            &&& !after.recovered.contains(k)
            &&& other != key ==> same_notice(after, q, other)
        }),
{
    assert(tkey(key)[0] == key);
    assert(tkey(other)[0] == other);
}

/// A post is found after a crash by its size and its hash alone, in a file
/// that did not change while it was read. The notice then is ready with that
/// file as its proof; its deadline stays.
pub proof fn a_post_is_recovered_by_its_hash(
    n: NoticeModel,
    resident: Option<BodyModel>,
    version: Option<BodyModel>,
    stamp: FileStamp,
)
    ensures
        recovered_proof(n, resident, version) matches Some(t) ==> {
            ||| resident matches Some(b) && b.stamp == t && b.sha256 == n.version && b.stamp.len == n.file_size && b.steady
            ||| version matches Some(b) && b.stamp == t && b.sha256 == n.version && b.stamp.len == n.file_size && b.steady
        },
        resident matches Some(b) ==> b.sha256 == n.version && b.stamp.len == n.file_size && b.steady ==> recovered_proof(
            n,
            resident,
            version,
        ) == Some(b.stamp),
        version matches Some(b) ==> b.sha256 == n.version && b.stamp.len == n.file_size && b.steady ==> recovered_proof(
            n,
            resident,
            version,
        ) is Some,
        made_ready(n, stamp).ready,
        made_ready(n, stamp).proof == Some(stamp),
        made_ready(n, stamp).deadline == n.deadline,
        made_ready(n, stamp).created == n.created,
        made_ready(n, stamp).waiting == n.waiting,
        made_ready(n, stamp).destination == n.destination,
        made_ready(n, stamp).version == n.version,
        made_ready(n, stamp).owner == n.owner,
{
}

/// A body of up to 16 KiB is carried whole but for the white space around it;
/// a longer one is pointed to in its thread. Whatever changed since it was
/// published is carried not at all.
pub proof fn a_short_body_is_carried_whole(n: NoticeModel, regular: bool, len: nat, text: Text, steady: bool)
    requires
        n.body_offset <= n.file_size,
    ensures
        ({
            let raw = vstd::utf8::encode_utf8(text);
            let r = notice_body(n, regular, len, raw, steady);
            let same = regular && len == n.file_size;
            &&& same && n.file_size - n.body_offset <= 16384 && raw.len() <= 16384 && steady ==> r == Ok::<Text, Text>(
                trimmed(text),
            )
            &&& same && n.file_size - n.body_offset > 16384 ==> r is Ok && occurs(r->Ok_0, n.destination.thread)
            &&& !same ==> r == Err::<Text, Text>("notification_body_changed"@)
            &&& same && !steady && n.file_size - n.body_offset <= 16384 ==> r == Err::<Text, Text>(
                "notification_body_changed"@,
            )
        }),
{
    let raw = vstd::utf8::encode_utf8(text);
    vstd::utf8::encode_utf8_decode_utf8(text);
    vstd::utf8::encode_utf8_valid_utf8(text);
    let t = n.destination.thread;
    let a = "Post body omitted from this notice because it exceeds 16 KiB. Run kota-bbs show "@;
    let p = pointer_text(t);
    assert(p.subrange(a.len() as int, (a.len() + t.len()) as int) =~= t);
    assert(stands_at(p, t, a.len() as int));
}

/// The body of a post stands below the directory of its thread, under the
/// post's name or under the post's name and the version.
pub proof fn a_body_stands_below_its_thread(d: DestinationModel, version: Text)
    ensures
        begins(body_path(d, version, BodyPlace::Resident), "threads/"@ + d.thread + "/"@),
        ends(body_path(d, version, BodyPlace::Resident), "/"@ + d.post + ".md"@),
        begins(body_path(d, version, BodyPlace::Version), "threads/"@ + d.thread + "/"@),
        ends(body_path(d, version, BodyPlace::Version), "/"@ + d.post + "/"@ + version + "/post.md"@),
{
    reveal_strlit("threads/");
    reveal_strlit("/");
    reveal_strlit("/posts/");
    reveal_strlit("/versions/");
    reveal_strlit("/post.md");
    reveal_strlit(".md");
    let a = body_path(d, version, BodyPlace::Resident);
    let b = body_path(d, version, BodyPlace::Version);
    let h = "threads/"@ + d.thread + "/"@;
    assert(a.take(h.len() as int) =~= h);
    assert(b.take(h.len() as int) =~= h);
    let x = "/"@ + d.post + ".md"@;
    let y = "/"@ + d.post + "/"@ + version + "/post.md"@;
    assert(a.skip(a.len() - x.len()) =~= x);
    assert(b.skip(b.len() - y.len()) =~= y);
}

proof fn lemma_missing_dirs(dirs: Seq<Text>, seen: Seq<DirState>, d: Text)
    ensures
        missing_dirs(dirs, seen).contains(d) <==> exists|i: int|
            0 <= i < dirs.len() && (#[trigger] dirs[i]) == d && seen[i] == DirState::Missing,
    decreases dirs.len(),
{
    let out = missing_dirs(dirs, seen);
    if dirs.len() > 0 {
        let head = dirs.drop_last();
        lemma_missing_dirs(head, seen, d);
        let rest = missing_dirs(head, seen);
        assert(dirs[dirs.len() - 1] == dirs.last());
        if rest.contains(d) {
            let i = choose|i: int| 0 <= i < head.len() && (#[trigger] head[i]) == d && seen[i] == DirState::Missing;
            assert(dirs[i] == d);
            let j = choose|j: int| 0 <= j < rest.len() && rest[j] == d;
            assert(out[j] == d);
        }
        if out.contains(d) && !rest.contains(d) {
            let j = choose|j: int| 0 <= j < out.len() && out[j] == d;
            if j < rest.len() {
                assert(rest[j] == d);
            }
        }
        if exists|i: int| 0 <= i < dirs.len() && (#[trigger] dirs[i]) == d && seen[i] == DirState::Missing {
            let i = choose|i: int| 0 <= i < dirs.len() && (#[trigger] dirs[i]) == d && seen[i] == DirState::Missing;
            if i < head.len() {
                assert(head[i] == d);
            } else {
                assert(out[rest.len() as int] == d);
            }
        }
    }
}

/// A queue has a directory for each phase in one directory of its own, and
/// exactly the missing ones are created.
pub proof fn the_missing_directories_are_created(dir: Text, seen: Seq<DirState>, d: Text)
    requires
        seen.len() == 5,
    ensures
        ({
            let dirs = queue_dirs(dir);
            &&& dirs.len() == 5 && dirs[0] == dir
            &&& dirs.contains(dir + "/notify/pending"@) && dirs.contains(dir + "/notify/processing"@) && dirs.contains(
                dir + "/notify/processed"@,
            )
            &&& missing_dirs(dirs, seen).contains(d) <==> exists|i: int|
                0 <= i < 5 && (#[trigger] dirs[i]) == d && seen[i] == DirState::Missing
        }),
{
    let dirs = queue_dirs(dir);
    assert(dirs[2] == dir + "/notify/pending"@);
    assert(dirs[3] == dir + "/notify/processing"@);
    assert(dirs[4] == dir + "/notify/processed"@);
    lemma_missing_dirs(dirs, seen, d);
}

} // verus!
