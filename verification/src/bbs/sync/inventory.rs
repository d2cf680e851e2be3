//! What lies below a thread's directory, and what is known of it.
use vstd::prelude::*;
use crate::bbs::sync::avatars::{find_received, first_received, opt_origin, origin_models, OriginModel};
use crate::bbs::sync::avatars::OriginSnapshot;
use crate::bbs::sync::model::{logical_deleted, no_avatar, opt_avatar, opt_version, same_stamp, suppressed, tkey};
use crate::bbs::sync::model::{AvatarModel, AvatarSidecar, FileStamp, LedgerEntry, PostVersion, RowModel, SyncState};
use crate::bbs::sync::model::{UnavailableModel, UnavailablePost, VersionModel};
use crate::bbs::sync::resources::{checked_post, path_result, post_relative};
use crate::bbs::sync::unavailable::{issue, opt_meta, Issue, IssueModel};
use crate::bbs::types::BbsPostMeta;
use crate::ids::{is_hash, is_safe_id, safe_id, valid_hash};
use crate::order::{parts_lt, OrderedMap, Parts};
use crate::outside::{sha256, sha256_hex};
use crate::sort::{lemma_sorted_map, rank_fn, sorted_by, stable_sort, Ranked};
use crate::text::{before, copy_opt, ends, opt_text, own, same, strip_back, Text};
use crate::text::text_lt;
use crate::text::lemma_text_lt_irreflexive;
use crate::sort::sorting_orders_and_keeps;
use crate::order::the_first_part_that_differs_decides;

verus! {

// ----------------------------------------------------------------- locations

/// Where a version of a post lies: among the posts, or in the directory of an
/// extra version.
pub struct PostLocation {
    pub post: String,
    pub extra: Option<String>,
}

pub struct LocationModel {
    pub post: Text,
    pub extra: Option<Text>,
}

impl View for PostLocation {
    type V = LocationModel;

    open spec fn view(&self) -> LocationModel {
        LocationModel { post: self.post@, extra: opt_text(self.extra) }
    }
}

impl PostLocation {
    pub fn copy(&self) -> (r: PostLocation)
        ensures
            r == *self,
    {
        PostLocation { post: self.post.clone(), extra: copy_opt(&self.extra) }
    }

    /// The file below the board.
    pub fn relative(&self, thread: &str) -> (r: Result<String, String>)
        ensures
            path_result(r) == checked_post(thread@, self@.post, self@.extra),
    {
        post_relative(thread, &self.post, &self.extra)
    }
}

pub open spec fn location_models(s: Seq<PostLocation>) -> Seq<LocationModel> {
    s.map_values(|l: PostLocation| l@)
}

/// Resident versions come first, then the extra ones by their hash.
pub open spec fn location_rank_fn() -> spec_fn(LocationModel) -> Parts {
    |l: LocationModel| location_rank(l)
}

pub open spec fn location_rank(l: LocationModel) -> Parts {
    match l.extra {
        None => seq![Seq::empty(), Seq::empty(), l.post],
        Some(v) => seq![seq!['1'], v, l.post],
    }
}

impl Ranked for PostLocation {
    open spec fn rank(&self) -> Parts {
        location_rank(self@)
    }

    fn rank_before(&self, other: &Self) -> (r: bool) {
        proof {
            let a = self.rank();
            let b = other.rank();
            reveal_with_fuel(parts_lt, 4);
            reveal_with_fuel(crate::text::text_lt, 2);
            assert(a.drop_first().len() == 2 && b.drop_first().len() == 2);
            assert(a.drop_first()[0] == a[1] && b.drop_first()[0] == b[1]);
            assert(a.drop_first().drop_first()[0] == a[2] && b.drop_first().drop_first()[0] == b[2]);
            assert(a.drop_first().drop_first().drop_first() =~= Seq::<Text>::empty());
            assert(b.drop_first().drop_first().drop_first() =~= Seq::<Text>::empty());
            crate::text::lemma_text_lt_irreflexive(seq!['1']);
        }
        match (&self.extra, &other.extra) {
            (None, Some(_)) => true,
            (Some(_), None) => false,
            (None, None) => !same(&self.post, &other.post) && before(&self.post, &other.post),
            (Some(a), Some(b)) => {
                if !same(a, b) {
                    return before(a, b);
                }
                !same(&self.post, &other.post) && before(&self.post, &other.post)
            },
        }
    }
}

/// An entry among a thread's posts.
pub struct ResidentEntry {
    pub name: String,
    pub is_file: bool,
}

/// An entry among a thread's extra versions: the directory of a post and one
/// of its entries.
pub struct VersionEntry {
    pub post: String,
    pub hash: String,
    /// Both are directories.
    pub is_dir: bool,
    /// The version's post is there.
    pub present: bool,
}

pub open spec fn resident_of(e: ResidentEntry) -> Option<LocationModel> {
    let stem = e.name@.take(e.name@.len() - ".md"@.len());
    if e.is_file && ends(e.name@, ".md"@) && is_safe_id(stem) {
        Some(LocationModel { post: stem, extra: None })
    } else {
        None
    }
}

pub open spec fn extra_of_entry(e: VersionEntry) -> Option<LocationModel> {
    if e.is_dir && is_safe_id(e.post@) && is_hash(e.hash@) && e.present {
        Some(LocationModel { post: e.post@, extra: Some(e.hash@) })
    } else {
        None
    }
}

pub open spec fn residents(s: Seq<ResidentEntry>) -> Seq<LocationModel>
    decreases s.len(),
{
    if s.len() == 0 {
        Seq::empty()
    } else {
        match resident_of(s.last()) {
            Some(l) => residents(s.drop_last()).push(l),
            None => residents(s.drop_last()),
        }
    }
}

/// The extra versions behind what was found before.
pub open spec fn extras_onto(found: Seq<LocationModel>, s: Seq<VersionEntry>) -> Seq<LocationModel>
    decreases s.len(),
{
    if s.len() == 0 {
        found
    } else {
        match extra_of_entry(s.last()) {
            Some(l) => extras_onto(found, s.drop_last()).push(l),
            None => extras_onto(found, s.drop_last()),
        }
    }
}

/// The versions that lie below a thread, in order.
pub fn locations(resident: &Vec<ResidentEntry>, versions: &Vec<VersionEntry>) -> (r: Vec<PostLocation>)
    ensures
        location_models(r@) == sorted_by(extras_onto(residents(resident@), versions@), location_rank_fn()),
{
    let mut out: Vec<PostLocation> = Vec::new();
    let mut i: usize = 0;
    assert(location_models(out@) =~= residents(resident@.take(0)));
    while i < resident.len()
        invariant
            i <= resident@.len(),
            location_models(out@) == residents(resident@.take(i as int)),
        decreases resident@.len() - i,
    {
        let ghost was = out@;
        let e = &resident[i];
        assert(resident@.take(i + 1).drop_last() =~= resident@.take(i as int));
        assert(resident@.take(i + 1).last() == *e);
        if e.is_file {
            if let Some(post) = strip_back(&e.name, ".md") {
                if safe_id(&post) {
                    out.push(PostLocation { post, extra: None });
                    assert(location_models(out@) =~= location_models(was).push(out@.last()@));
                }
            }
        }
        i += 1;
    }
    assert(resident@.take(i as int) =~= resident@);
    i = 0;
    let ghost first = residents(resident@);
    assert(versions@.take(0) =~= Seq::empty());
    while i < versions.len()
        invariant
            i <= versions@.len(),
            location_models(out@) == extras_onto(first, versions@.take(i as int)),
        decreases versions@.len() - i,
    {
        let ghost was = out@;
        let e = &versions[i];
        assert(versions@.take(i + 1).drop_last() =~= versions@.take(i as int));
        assert(versions@.take(i + 1).last() == *e);
        if e.is_dir && safe_id(&e.post) && valid_hash(&e.hash) && e.present {
            out.push(PostLocation { post: e.post.clone(), extra: Some(e.hash.clone()) });
            assert(location_models(out@) =~= location_models(was).push(out@.last()@));
        }
        i += 1;
    }
    assert(versions@.take(i as int) =~= versions@);
    let ghost list = out@;
    let sorted = stable_sort(out);
    proof {
        let f = |l: PostLocation| l@;
        assert forall|l: PostLocation| #[trigger] rank_fn::<PostLocation>()(l) == location_rank_fn()(f(l)) by {}
        lemma_sorted_map(list, f, rank_fn::<PostLocation>(), location_rank_fn());
        assert(location_models(sorted@) =~= sorted@.map_values(f));
        assert(location_models(list) =~= list.map_values(f));
    }
    sorted
}

/// Where a known version lies now, if it is unchanged: `resident` and
/// `versioned` are the stamps of the two files that may hold it.
pub open spec fn located(row: RowModel, resident: Option<FileStamp>, versioned: Option<FileStamp>) -> Option<LocationModel> {
    match row.body_stamp {
        None => None,
        Some(e) => if resident == Some(e) {
            Some(LocationModel { post: row.post_id, extra: None })
        } else if versioned == Some(e) {
            Some(LocationModel { post: row.post_id, extra: Some(row.version_id) })
        } else {
            None
        },
    }
}

pub open spec fn opt_location(l: Option<PostLocation>) -> Option<LocationModel> {
    match l {
        Some(x) => Some(x@),
        None => None,
    }
}

pub fn locate_row(row: &LedgerEntry, resident: Option<FileStamp>, versioned: Option<FileStamp>) -> (r: Option<PostLocation>)
    ensures
        opt_location(r) == located(row@, resident, versioned),
{
    if row.body_stamp.is_none() {
        return None;
    }
    if same_stamp(&resident, &row.body_stamp) {
        return Some(PostLocation { post: row.post_id.clone(), extra: None });
    }
    if same_stamp(&versioned, &row.body_stamp) {
        return Some(PostLocation { post: row.post_id.clone(), extra: Some(row.version_id.clone()) });
    }
    None
}

// ------------------------------------------------------------- file contents

/// What is known of a file before it is read.
pub enum Glance {
    /// It is not there, or has another length.
    Absent,
    /// It is the file that was checked before.
    Known(FileStamp),
    /// Its bytes have to be checked.
    Read(FileStamp),
}

pub open spec fn glanced(observed: Option<FileStamp>, size: u64, cached: Option<FileStamp>) -> Glance {
    match observed {
        None => Glance::Absent,
        Some(s) => if s.len != size {
            Glance::Absent
        } else if cached == Some(s) {
            Glance::Known(s)
        } else {
            Glance::Read(s)
        },
    }
}

pub fn glance(observed: Option<FileStamp>, size: u64, cached: Option<FileStamp>) -> (r: Glance)
    ensures
        r == glanced(observed, size, cached),
{
    match observed {
        None => Glance::Absent,
        Some(s) => if s.len != size {
            Glance::Absent
        } else if same_stamp(&cached, &observed) {
            Glance::Known(s)
        } else {
            Glance::Read(s)
        },
    }
}

/// The file is what it should be: of this size and with this hash, and
/// untouched while it was read.
pub open spec fn checked_file(
    observed: Option<FileStamp>,
    hash: Text,
    size: u64,
    cached: Option<FileStamp>,
    total: nat,
    read: Text,
    unchanged: bool,
) -> Result<Option<FileStamp>, Text> {
    match glanced(observed, size, cached) {
        Glance::Absent => Ok(None),
        Glance::Known(s) => Ok(Some(s)),
        Glance::Read(s) => if total > size || !unchanged {
            Err("source_changed"@)
        } else if total == size && read == hash {
            Ok(Some(s))
        } else {
            Ok(None)
        },
    }
}

pub open spec fn stamp_result(r: Result<Option<FileStamp>, String>) -> Result<Option<FileStamp>, Text> {
    match r {
        Ok(s) => Ok(s),
        Err(e) => Err(e@),
    }
}

/// Judge what was read of a file: how many bytes, and their hash.
pub fn judge_reading(
    observed: Option<FileStamp>,
    hash: &str,
    size: u64,
    cached: Option<FileStamp>,
    total: u64,
    read: &str,
    unchanged: bool,
) -> (r: Result<Option<FileStamp>, String>)
    ensures
        stamp_result(r) == checked_file(observed, hash@, size, cached, total as nat, read@, unchanged),
{
    match glance(observed, size, cached) {
        Glance::Absent => Ok(None),
        Glance::Known(s) => Ok(Some(s)),
        Glance::Read(s) => if total > size || !unchanged {
            Err(own("source_changed"))
        } else if total == size && same(read, hash) {
            Ok(Some(s))
        } else {
            Ok(None)
        },
    }
}

/// Check the bytes of a file.
pub fn verify_content(
    observed: Option<FileStamp>,
    hash: &str,
    size: u64,
    cached: Option<FileStamp>,
    content: &Vec<u8>,
    unchanged: bool,
) -> (r: Result<Option<FileStamp>, String>)
    ensures
        stamp_result(r) == checked_file(observed, hash@, size, cached, content@.len(), sha256(content@), unchanged),
{
    let read = sha256_hex(content);
    judge_reading(observed, hash, size, cached, content.len() as u64, &read, unchanged)
}

// ----------------------------------------------------------------- relations

/// The frontmatter of a file that has the name of a post.
pub struct FoundHeader {
    pub thread: String,
    /// What stands in it, if it can be read.
    pub meta: Option<BbsPostMeta>,
    pub unchanged: bool,
}

/// The file says the same of the post as the version does.
pub open spec fn agrees(v: VersionModel, h: FoundHeader) -> bool {
    opt_meta(h.meta) matches Some(m) && m.thread_id == h.thread@ && m.post_id == v.post_id && m.thread_id == v.thread_id
        && m.kind == v.kind && h.unchanged
}

/// Whatever has the name of an incoming post belongs to the same thread and is
/// of the same kind.
pub fn validate_existing_post_relationship(incoming: &PostVersion, found: &Vec<FoundHeader>) -> (r: Result<(), String>)
    ensures
        r is Ok == (forall|i: int| 0 <= i < found@.len() ==> agrees(incoming@, #[trigger] found@[i])),
        r matches Err(e) ==> e@ == "invalid_post_relationship"@,
{
    let mut i: usize = 0;
    while i < found.len()
        invariant
            i <= found@.len(),
            forall|j: int| 0 <= j < i ==> agrees(incoming@, #[trigger] found@[j]),
        decreases found@.len() - i,
    {
        let h = &found[i];
        let good = match &h.meta {
            Some(m) => same(&m.thread_id, &h.thread) && same(&m.post_id, &incoming.post_id) && same(
                &m.thread_id,
                &incoming.thread_id,
            ) && same(&m.kind, &incoming.kind) && h.unchanged,
            None => false,
        };
        assert(good == agrees(incoming@, found@[i as int]));
        if !good {
            return Err(own("invalid_post_relationship"));
        }
        i += 1;
    }
    Ok(())
}

/// The thread and the kind of a post, which never change.
pub struct Relation {
    pub thread_id: String,
    pub kind: String,
}

impl View for Relation {
    type V = (Text, Text);

    open spec fn view(&self) -> (Text, Text) {
        (self.thread_id@, self.kind@)
    }
}

pub open spec fn relation_models(m: Map<Parts, Relation>) -> Map<Parts, (Text, Text)> {
    m.map_values(|r: Relation| r@)
}

/// What is known while a thread is looked through.
pub struct Scan {
    pub thread: String,
    pub known: OrderedMap<String, Relation>,
    pub topic: Option<String>,
}

#[verifier::ext_equal]
pub struct ScanModel {
    pub thread: Text,
    pub known: Map<Parts, (Text, Text)>,
    pub topic: Option<Text>,
}

impl View for Scan {
    type V = ScanModel;

    open spec fn view(&self) -> ScanModel {
        ScanModel { thread: self.thread@, known: relation_models(self.known@), topic: opt_text(self.topic) }
    }
}

/// The rows of a ledger in their order.
pub open spec fn ledger_rows(s: Seq<(String, LedgerEntry)>) -> Seq<RowModel> {
    s.map_values(|e: (String, LedgerEntry)| e.1@)
}

/// With a relation learned.
pub open spec fn learned(m: ScanModel, post: Text, thread: Text, kind: Text) -> ScanModel {
    ScanModel {
        known: m.known.insert(tkey(post), (thread, kind)),
        topic: if kind == "topic"@ {
            Some(post)
        } else {
            m.topic
        },
        ..m
    }
}

/// What the ledger knows of a thread: every post's relation, and the thread's
/// topic.
pub open spec fn scan_of(rows: Seq<RowModel>, thread: Text) -> ScanModel
    decreases rows.len(),
{
    if rows.len() == 0 {
        ScanModel { thread, known: Map::empty(), topic: None }
    } else {
        let m = scan_of(rows.drop_last(), thread);
        match rows.last().descriptor {
            None => m,
            Some(p) => ScanModel {
                known: m.known.insert(tkey(p.post_id), (p.thread_id, p.kind)),
                topic: if p.thread_id == thread && p.kind == "topic"@ {
                    Some(p.post_id)
                } else {
                    m.topic
                },
                ..m
            },
        }
    }
}

/// The row of an unchanged file.
pub open spec fn is_cached(r: RowModel, thread: Text, post: Text, observed: FileStamp) -> bool {
    r.thread_id == thread && r.post_id == post && r.body_stamp == Some(observed) && r.descriptor is Some
}

pub open spec fn first_cached(rows: Seq<RowModel>, thread: Text, post: Text, observed: FileStamp) -> Option<VersionModel>
    decreases rows.len(),
{
    if rows.len() == 0 {
        None
    } else {
        match first_cached(rows.drop_last(), thread, post, observed) {
            Some(v) => Some(v),
            None => if is_cached(rows.last(), thread, post, observed) {
                rows.last().descriptor
            } else {
                None
            },
        }
    }
}

/// What contradicts the relations of a post that cannot travel.
pub open spec fn oversized_clash(m: ScanModel, p: UnavailableModel) -> bool {
    ||| m.known.contains_key(tkey(p.post_id)) && ({
        let k = m.known[tkey(p.post_id)];
        k.0 != m.thread || (p.kind is Some && p.kind != Some(k.1))
    })
    ||| p.kind == Some("topic"@) && m.topic is Some && m.topic != Some(p.post_id)
}

/// What contradicts the relations of a version.
pub open spec fn version_clash(m: ScanModel, p: VersionModel) -> bool {
    ||| m.known.contains_key(tkey(p.post_id)) && m.known[tkey(p.post_id)] != (p.thread_id, p.kind)
    ||| p.kind == "topic"@ && m.topic is Some && m.topic != Some(p.post_id)
}

impl Scan {
    pub open spec fn wf(&self) -> bool {
        self.known.wf()
    }

    /// Start looking through a thread.
    pub fn begin(state: &SyncState, thread: &str) -> (r: Scan)
        requires
            state.wf(),
        ensures
            r.wf(),
            r@ == scan_of(ledger_rows(state.ledger.entries@), thread@),
    {
        let mut scan = Scan { thread: own(thread), known: OrderedMap::new(), topic: None };
        let v = &state.ledger.entries;
        let ghost rows = ledger_rows(v@);
        let mut i: usize = 0;
        assert(relation_models(scan.known@) =~= Map::empty());
        assert(scan@ =~= scan_of(rows.take(0), thread@));
        while i < v.len()
            invariant
                i <= v@.len(),
                rows == ledger_rows(v@),
                scan.wf(),
                scan@ == scan_of(rows.take(i as int), thread@),
            decreases v@.len() - i,
        {
            let ghost was = scan@;
            assert(rows.take(i + 1).drop_last() =~= rows.take(i as int));
            assert(rows.take(i + 1).last() == v@[i as int].1@);
            if let Some(p) = &v[i].1.descriptor {
                scan.note(&p.post_id, &p.thread_id, &p.kind);
                if same(&p.thread_id, thread) && same(&p.kind, "topic") {
                    scan.topic = Some(p.post_id.clone());
                }
                assert(scan@ =~= scan_of(rows.take(i + 1), thread@));
            }
            i += 1;
        }
        assert(rows.take(i as int) =~= rows);
        scan
    }

    fn note(&mut self, post: &str, thread: &str, kind: &str)
        requires
            old(self).wf(),
        ensures
            final(self).wf(),
            final(self)@ == (ScanModel { known: old(self)@.known.insert(tkey(post@), (thread@, kind@)), ..old(self)@ }),
    {
        let ghost was = self@;
        self.known.insert(own(post), Relation { thread_id: own(thread), kind: own(kind) });
        assert(self@.known =~= was.known.insert(tkey(post@), (thread@, kind@)));
    }

    /// The version of a file that is unchanged since it was last looked at.
    pub fn cached(&self, state: &SyncState, post: &str, observed: FileStamp) -> (r: Option<PostVersion>)
        requires
            state.wf(),
        ensures
            opt_version(r) == first_cached(ledger_rows(state.ledger.entries@), self@.thread, post@, observed),
    {
        let v = &state.ledger.entries;
        let ghost rows = ledger_rows(v@);
        let mut i: usize = 0;
        while i < v.len()
            invariant
                i <= v@.len(),
                rows == ledger_rows(v@),
                v == state.ledger.entries,
                first_cached(rows.take(i as int), self@.thread, post@, observed) is None,
            decreases v@.len() - i,
        {
            assert(rows.take(i + 1).drop_last() =~= rows.take(i as int));
            assert(rows.take(i + 1).last() == v@[i as int].1@);
            let row = &v[i].1;
            if same(&row.thread_id, &self.thread) && same(&row.post_id, post) && same_stamp(
                &row.body_stamp,
                &Some(observed),
            ) {
                if let Some(p) = &row.descriptor {
                    proof {
                        lemma_first_cached(rows, i + 1, self@.thread, post@, observed);
                    }
                    return Some(p.copy());
                }
            }
            i += 1;
        }
        assert(rows.take(i as int) =~= rows);
        None
    }

    /// The kind of a post of this thread, if it is known.
    pub fn known_kind(&self, post: &str) -> (r: Option<String>)
        requires
            self.wf(),
        ensures
            opt_text(r) == (if self@.known.contains_key(tkey(post@)) && self@.known[tkey(post@)].0 == self@.thread {
                Some(self@.known[tkey(post@)].1)
            } else {
                None
            }),
    {
        match self.known.get(&own(post)) {
            Some(k) => if same(&k.thread_id, &self.thread) {
                Some(k.kind.clone())
            } else {
                None
            },
            None => None,
        }
    }

    /// A file turned out to be too large to travel. It is remembered unless
    /// its post is deleted or contradicts what is known.
    pub fn meet_oversized(&mut self, state: &SyncState, p: &UnavailablePost) -> (r: Result<bool, String>)
        requires
            old(self).wf(),
            state.wf(),
        ensures
            final(self).wf(),
            if oversized_clash(old(self)@, p@) {
                r is Err && r->Err_0@ == "invalid_post_relationship"@ && final(self)@ == old(self)@
            } else if logical_deleted(state@, old(self)@.thread, p@.post_id) {
                r == Ok::<bool, String>(false) && final(self)@ == old(self)@
            } else {
                &&& r == Ok::<bool, String>(true)
                &&& final(self)@ == (match p@.kind {
                    Some(k) => learned(old(self)@, p@.post_id, old(self)@.thread, k),
                    None => old(self)@,
                })
            },
    {
        let ghost was = self@;
        let clash = match self.known.get(&p.post_id) {
            Some(k) => !same(&k.thread_id, &self.thread) || (match &p.kind {
                Some(v) => !same(v, &k.kind),
                None => false,
            }),
            None => false,
        };
        let is_topic = match &p.kind {
            Some(k) => same(k, "topic"),
            None => false,
        };
        let other = match &self.topic {
            Some(t) => !same(t, &p.post_id),
            None => false,
        };
        if clash || (is_topic && other) {
            return Err(own("invalid_post_relationship"));
        }
        if state.logical_deleted(&self.thread, &p.post_id) {
            return Ok(false);
        }
        if let Some(k) = &p.kind {
            let thread = self.thread.clone();
            self.note(&p.post_id, &thread, k);
            if is_topic {
                self.topic = Some(p.post_id.clone());
            }
            assert(self@ =~= learned(was, p@.post_id, was.thread, k@));
        }
        Ok(true)
    }

    /// A version was read. Its relations are learned unless they contradict
    /// what is known; the answer says whether it is to be kept.
    pub fn meet_version(&mut self, state: &SyncState, p: &PostVersion) -> (r: Result<bool, String>)
        requires
            old(self).wf(),
            state.wf(),
        ensures
            final(self).wf(),
            if version_clash(old(self)@, p@) {
                r is Err && r->Err_0@ == "invalid_post_relationship"@ && final(self)@ == old(self)@
            } else {
                &&& r == Ok::<bool, String>(!suppressed(state@, old(self)@.thread, p@.post_id, p@.version_id))
                &&& final(self)@ == learned(old(self)@, p@.post_id, p@.thread_id, p@.kind)
            },
    {
        let ghost was = self@;
        let clash = match self.known.get(&p.post_id) {
            Some(k) => !same(&k.thread_id, &p.thread_id) || !same(&k.kind, &p.kind),
            None => false,
        };
        let is_topic = same(&p.kind, "topic");
        let other = match &self.topic {
            Some(t) => !same(t, &p.post_id),
            None => false,
        };
        if clash || (is_topic && other) {
            return Err(own("invalid_post_relationship"));
        }
        self.note(&p.post_id, &p.thread_id, &p.kind);
        if is_topic {
            self.topic = Some(p.post_id.clone());
        }
        assert(self@ =~= learned(was, p@.post_id, p@.thread_id, p@.kind));
        Ok(!state.suppressed(&self.thread, &p.post_id, &p.version_id))
    }
}

/// A version could not be read, or contradicts what is known.
pub fn failed_version(thread: &str, post: &str) -> (r: Issue)
    ensures
        r@ == (IssueModel { code: "invalid_or_changed_local_version"@, thread: Some(thread@), post: Some(post@) }),
{
    issue("invalid_or_changed_local_version", thread, Some(post))
}

proof fn lemma_first_cached(rows: Seq<RowModel>, n: int, thread: Text, post: Text, observed: FileStamp)
    requires
        0 <= n <= rows.len(),
        first_cached(rows.take(n), thread, post, observed) is Some,
    ensures
        first_cached(rows, thread, post, observed) == first_cached(rows.take(n), thread, post, observed),
    decreases rows.len() - n,
{
    if n == rows.len() {
        assert(rows.take(n) =~= rows);
    } else {
        assert(rows.take(n + 1).drop_last() =~= rows.take(n));
        lemma_first_cached(rows, n + 1, thread, post, observed);
    }
}

/// An extra version that was edited belongs into the directory of its new
/// hash. `unchanged` says that the file is still the one that was read,
/// `taken` that the directory is there already.
pub fn rehome(
    state: &SyncState,
    thread: &str,
    p: &PostVersion,
    location: &PostLocation,
    unchanged: bool,
    taken: bool,
) -> (r: Result<bool, String>)
    requires
        state.wf(),
    ensures
        ({
            let moves = location@.extra is Some && location@.extra != Some(p@.version_id);
            if !moves {
                r == Ok::<bool, String>(false)
            } else if suppressed(state@, thread@, p@.post_id, p@.version_id) || !unchanged {
                r is Err && r->Err_0@ == "source_changed"@
            } else if taken {
                r is Err && r->Err_0@ == "version_container_already_exists"@
            } else {
                r == Ok::<bool, String>(true)
            }
        }),
{
    let moves = match &location.extra {
        Some(v) => !same(v, &p.version_id),
        None => false,
    };
    if !moves {
        return Ok(false);
    }
    if state.suppressed(thread, &p.post_id, &p.version_id) || !unchanged {
        return Err(own("source_changed"));
    }
    if taken {
        return Err(own("version_container_already_exists"));
    }
    Ok(true)
}

// ------------------------------------------------------------------- origins

/// Where a version came from. One that is known stays. An edit of a received
/// post is still a received one: it has the origin of what was edited. Only
/// then is it a post of this device, with the picture `captured`.
pub open spec fn origin_of(
    own_origin: Option<OriginModel>,
    previous: Option<OriginModel>,
    others: Seq<Option<OriginModel>>,
    captured: Option<AvatarModel>,
) -> OriginModel {
    match (own_origin, previous, first_received(others)) {
        (Some(o), _, _) => o,
        (None, Some(o), _) => o,
        (None, None, Some(o)) => o,
        (None, None, None) => OriginModel {
            schema: 1,
            origin: "local"@,
            avatar: match captured {
                Some(a) => a,
                None => no_avatar(),
            },
        },
    }
}

pub fn inherit_origin(
    own_origin: &Option<OriginSnapshot>,
    previous: &Option<OriginSnapshot>,
    others: &Vec<Option<OriginSnapshot>>,
    captured: &Option<AvatarSidecar>,
) -> (r: OriginSnapshot)
    ensures
        r@ == origin_of(opt_origin(*own_origin), opt_origin(*previous), origin_models(others@), opt_avatar(*captured)),
{
    if let Some(o) = own_origin {
        return o.copy();
    }
    if let Some(o) = previous {
        return o.copy();
    }
    if let Some(o) = find_received(others) {
        return o;
    }
    OriginSnapshot {
        schema_version: 1,
        origin: own("local"),
        avatar: match captured {
            Some(a) => a.copy(),
            None => AvatarSidecar::none(),
        },
    }
}

// ---------------------------------------------------------------------- laws

/// While a thread is looked through, no post changes its thread or its kind.
pub proof fn relations_never_change(m: ScanModel, p: VersionModel, post: Text)
    requires
        !version_clash(m, p),
        m.known.contains_key(tkey(post)),
    ensures
        learned(m, p.post_id, p.thread_id, p.kind).known.contains_key(tkey(post)),
        learned(m, p.post_id, p.thread_id, p.kind).known[tkey(post)] == m.known[tkey(post)],
{
}

/// A thread has one topic: once it has one, no other post becomes its topic.
pub proof fn a_thread_keeps_its_topic(m: ScanModel, p: VersionModel)
    requires
        !version_clash(m, p),
        m.topic is Some,
    ensures
        learned(m, p.post_id, p.thread_id, p.kind).topic == m.topic,
{
}

/// The edit of a received post never becomes a post of this device.
pub proof fn an_edit_stays_received(
    previous: Option<OriginModel>,
    others: Seq<Option<OriginModel>>,
    captured: Option<AvatarModel>,
    i: int,
)
    requires
        previous matches Some(o) ==> o.origin == "received"@,
        0 <= i < others.len(),
        others[i] matches Some(o) && o.origin == "received"@,
    ensures
        origin_of(None, previous, others, captured).origin == "received"@,
    decreases others.len(),
{
    if others[0] matches Some(o) && o.origin == "received"@ {
    } else {
        assert(others.drop_first()[i - 1] == others[i]);
        an_edit_stays_received(previous, others.drop_first(), captured, i - 1);
    }
}

/// A file that was checked before is not checked again, and one that is
/// changed always is.
pub proof fn only_unchanged_files_are_trusted(
    observed: Option<FileStamp>,
    hash: Text,
    size: u64,
    cached: Option<FileStamp>,
    total: nat,
    read: Text,
    unchanged: bool,
)
    ensures
        checked_file(observed, hash, size, cached, total, read, unchanged) matches Ok(Some(s)) ==> observed == Some(s)
            && s.len == size && (cached == Some(s) || (read == hash && total == size && unchanged)),
{
}

/// A file among the posts is a version exactly if it is a file with the name of
/// a post that can travel.
pub proof fn a_post_file_is_named_after_its_post(e: ResidentEntry, post: Text)
    ensures
        resident_of(e) matches Some(l) ==> l.extra is None && is_safe_id(l.post) && e.is_file && e.name@ == l.post + ".md"@,
        e.is_file && is_safe_id(post) && e.name@ == post + ".md"@ ==> resident_of(e) == Some(
            LocationModel { post, extra: None },
        ),
{
    let m = ".md"@;
    if resident_of(e) is Some {
        assert(e.name@ =~= e.name@.take(e.name@.len() - m.len()) + e.name@.skip(e.name@.len() - m.len()));
    }
    if e.name@ == post + m {
        assert(e.name@.take(e.name@.len() - m.len()) =~= post);
        assert(e.name@.skip(e.name@.len() - m.len()) =~= m);
    }
}

/// A directory among the versions is one exactly if it is named after a post and
/// a hash and its post is there.
pub proof fn a_version_directory_is_named_after_its_hash(e: VersionEntry)
    ensures
        extra_of_entry(e) is Some <==> e.is_dir && e.present && is_safe_id(e.post@) && is_hash(e.hash@),
        extra_of_entry(e) matches Some(l) ==> l.post == e.post@ && l.extra == Some(e.hash@),
{
}

/// A known version lies where its own file is unchanged: its post's place comes
/// before its own directory. A version whose file is gone lies nowhere.
pub proof fn a_version_lies_where_its_file_is(row: RowModel, resident: Option<FileStamp>, versioned: Option<FileStamp>)
    ensures
        located(row, resident, versioned) matches Some(l) ==> l.post == row.post_id && row.body_stamp is Some && (l.extra
            is None ==> resident == row.body_stamp) && (l.extra matches Some(v) ==> v == row.version_id && versioned
            == row.body_stamp && resident != row.body_stamp),
        row.body_stamp is Some && resident == row.body_stamp ==> located(row, resident, versioned) == Some(
            LocationModel { post: row.post_id, extra: None },
        ),
        row.body_stamp is Some && resident != row.body_stamp && versioned == row.body_stamp ==> located(
            row,
            resident,
            versioned,
        ) == Some(LocationModel { post: row.post_id, extra: Some(row.version_id) }),
        row.body_stamp is None ==> located(row, resident, versioned) is None,
{
}

/// A file of the wrong size is never the one that is wanted; one that was
/// checked before is known; any other has to be read.
pub proof fn a_glance_tells_what_to_read(observed: Option<FileStamp>, size: u64, cached: Option<FileStamp>)
    ensures
        observed is None ==> glanced(observed, size, cached) is Absent,
        observed matches Some(s) ==> {
            &&& s.len != size ==> glanced(observed, size, cached) is Absent
            &&& s.len == size && cached == Some(s) ==> glanced(observed, size, cached) == Glance::Known(s)
            &&& s.len == size && cached != Some(s) ==> glanced(observed, size, cached) == Glance::Read(s)
        },
{
}

/// A file that has to be read passes exactly if all its bytes came, have the
/// hash, and did not change; one that changed is an error.
pub proof fn a_file_passes_by_its_bytes(
    s: FileStamp,
    hash: Text,
    cached: Option<FileStamp>,
    total: nat,
    read: Text,
    unchanged: bool,
)
    requires
        cached != Some(s),
    ensures
        checked_file(Some(s), hash, s.len, cached, total, read, unchanged) == Ok::<Option<FileStamp>, Text>(Some(s)) <==> total
            == s.len && read == hash && unchanged,
        !unchanged ==> checked_file(Some(s), hash, s.len, cached, total, read, unchanged) == Err::<
            Option<FileStamp>,
            Text,
        >("source_changed"@),
{
}

/// A file agrees with an incoming version exactly if it names the same thread,
/// post and kind, in its own thread, and did not change.
pub proof fn a_file_agrees_with_its_version(v: VersionModel, h: FoundHeader)
    ensures
        agrees(v, h) <==> h.unchanged && (h.meta matches Some(m) && m@.thread_id == v.thread_id && m@.thread_id == h.thread@
            && m@.post_id == v.post_id && m@.kind == v.kind),
{
}

/// What is learned of a post is its thread and its kind; a topic becomes the
/// topic of the thread, a reply does not. Other posts stay as they are known.
pub proof fn a_topic_is_learned(m: ScanModel, post: Text, thread: Text, kind: Text, other: Text)
    ensures
        ({
            let n = learned(m, post, thread, kind);
            &&& n.known.contains_key(tkey(post)) && n.known[tkey(post)] == (thread, kind)
            &&& kind == "topic"@ ==> n.topic == Some(post)
            &&& kind != "topic"@ ==> n.topic == m.topic
            &&& n.thread == m.thread
            &&& other != post ==> n.known.contains_key(tkey(other)) == m.known.contains_key(tkey(other)) && (
            m.known.contains_key(tkey(other)) ==> n.known[tkey(other)] == m.known[tkey(other)])
        }),
{
    assert(tkey(post)[0] == post);
    assert(tkey(other)[0] == other);
}

/// A version contradicts what is known exactly if its post is known in another
/// thread or as another kind, or if it is a second topic.
pub proof fn a_contradiction_is_told(m: ScanModel, p: VersionModel, u: UnavailableModel)
    ensures
        m.known.contains_key(tkey(p.post_id)) && m.known[tkey(p.post_id)].0 != p.thread_id ==> version_clash(m, p),
        m.known.contains_key(tkey(p.post_id)) && m.known[tkey(p.post_id)].1 != p.kind ==> version_clash(m, p),
        p.kind == "topic"@ && (m.topic matches Some(t) && t != p.post_id) ==> version_clash(m, p),
        !m.known.contains_key(tkey(p.post_id)) && (p.kind != "topic"@ || m.topic is None) ==> !version_clash(m, p),
        m.known.contains_key(tkey(u.post_id)) && m.known[tkey(u.post_id)].0 != m.thread ==> oversized_clash(m, u),
        m.known.contains_key(tkey(u.post_id)) && (u.kind matches Some(k) && m.known[tkey(u.post_id)].1 != k)
            ==> oversized_clash(m, u),
        u.kind == Some("topic"@) && (m.topic matches Some(t) && t != u.post_id) ==> oversized_clash(m, u),
        !m.known.contains_key(tkey(u.post_id)) && (u.kind != Some("topic"@) || m.topic is None) ==> !oversized_clash(m, u),
{
}

/// A file is the one that the ledger knows only in its own thread and post, by
/// its unchanged stamp.
pub proof fn an_unchanged_file_is_its_version(
    rows: Seq<RowModel>,
    thread: Text,
    post: Text,
    observed: FileStamp,
)
    ensures
        first_cached(rows, thread, post, observed) matches Some(v) ==> exists|i: int|
            0 <= i < rows.len() && (#[trigger] rows[i]).thread_id == thread && rows[i].post_id == post && rows[i].body_stamp
                == Some(observed) && rows[i].descriptor == Some(v),
        first_cached(rows, thread, post, observed) is None ==> forall|i: int|
            0 <= i < rows.len() && (#[trigger] rows[i]).thread_id == thread && rows[i].post_id == post
                && rows[i].body_stamp == Some(observed) ==> rows[i].descriptor is None,
    decreases rows.len(),
{
    if rows.len() > 0 {
        let head = rows.drop_last();
        an_unchanged_file_is_its_version(head, thread, post, observed);
        assert(rows[rows.len() - 1] == rows.last());
        assert(forall|i: int| 0 <= i < head.len() ==> head[i] == #[trigger] rows[i]);
        if let Some(v) = first_cached(head, thread, post, observed) {
            let i = choose|i: int|
                0 <= i < head.len() && (#[trigger] head[i]).thread_id == thread && head[i].post_id == post
                    && head[i].body_stamp == Some(observed) && head[i].descriptor == Some(v);
            assert(rows[i] == head[i]);
        }
    }
}

/// The origin of a version is its own if it has one, then that of the version it
/// was made of; only a post with nothing received about it is one of this
/// device, with the picture that was taken.
pub proof fn an_origin_is_inherited(
    own_origin: Option<OriginModel>,
    previous: Option<OriginModel>,
    others: Seq<Option<OriginModel>>,
    captured: Option<AvatarModel>,
)
    ensures
        own_origin matches Some(o) ==> origin_of(own_origin, previous, others, captured) == o,
        own_origin is None ==> (previous matches Some(o) ==> origin_of(own_origin, previous, others, captured) == o),
        own_origin is None && previous is None && first_received(others) is None ==> {
            let r = origin_of(own_origin, previous, others, captured);
            r.origin == "local"@ && r.schema == 1 && (captured matches Some(a) ==> r.avatar == a) && (captured is None
                ==> r.avatar.kind == "none"@)
        },
{
}

/// What the ledger describes is known: every described post, and the topic of
/// the thread, if it has one.
pub proof fn what_is_described_is_known(rows: Seq<RowModel>, thread: Text, i: int, post: Text)
    ensures
        0 <= i < rows.len() ==> (rows[i].descriptor matches Some(p) ==> scan_of(rows, thread).known.contains_key(
            tkey(p.post_id),
        )),
        scan_of(rows, thread).known.contains_key(tkey(post)) ==> exists|k: int|
            0 <= k < rows.len() && ((#[trigger] rows[k]).descriptor matches Some(p) && p.post_id == post && scan_of(
                rows,
                thread,
            ).known[tkey(post)] == (p.thread_id, p.kind)),
        0 <= i < rows.len() ==> (rows[i].descriptor matches Some(p) ==> (p.thread_id == thread && p.kind == "topic"@
            ==> scan_of(rows, thread).topic is Some)),
        scan_of(rows, thread).topic matches Some(t) ==> exists|k: int|
            0 <= k < rows.len() && ((#[trigger] rows[k]).descriptor matches Some(p) && p.thread_id == thread && p.kind
                == "topic"@ && p.post_id == t),
        scan_of(rows, thread).thread == thread,
    decreases rows.len(),
{
    if rows.len() > 0 {
        let head = rows.drop_last();
        let m = scan_of(head, thread);
        what_is_described_is_known(head, thread, i, post);
        assert(rows[rows.len() - 1] == rows.last());
        assert(forall|k: int| 0 <= k < head.len() ==> head[k] == #[trigger] rows[k]);
        if let Some(p) = rows.last().descriptor {
            assert(tkey(p.post_id)[0] == p.post_id && tkey(post)[0] == post);
        }
        if m.known.contains_key(tkey(post)) {
            let k = choose|k: int|
                0 <= k < head.len() && ((#[trigger] head[k]).descriptor matches Some(p) && p.post_id == post
                    && m.known[tkey(post)] == (p.thread_id, p.kind));
            assert(rows[k] == head[k]);
        }
        if let Some(t) = m.topic {
            let k = choose|k: int|
                0 <= k < head.len() && ((#[trigger] head[k]).descriptor matches Some(p) && p.thread_id == thread && p.kind
                    == "topic"@ && p.post_id == t);
            assert(rows[k] == head[k]);
        }
    }
}

/// The posts themselves stand before their versions, and these in the order of
/// their hashes.
pub proof fn posts_stand_before_their_versions(a: LocationModel, b: LocationModel)
    ensures
        a.extra is None && b.extra is Some ==> parts_lt(location_rank(a), location_rank(b)),
        a.extra is None && b.extra is None && text_lt(a.post, b.post) ==> parts_lt(location_rank(a), location_rank(b)),
        (a.extra matches Some(x) && b.extra matches Some(y) && text_lt(x, y)) ==> parts_lt(
            location_rank(a),
            location_rank(b),
        ),
        a.extra is Some && a.extra == b.extra && text_lt(a.post, b.post) ==> parts_lt(location_rank(a), location_rank(b)),
{
    let x = location_rank(a);
    let y = location_rank(b);
    lemma_text_lt_irreflexive(a.post);
    if a.extra is Some {
        lemma_text_lt_irreflexive(a.extra->0);
    }
    if a.extra is None && b.extra is Some {
        assert(x[0].len() == 0 && y[0].len() == 1);
        the_first_part_that_differs_decides(x, y, 0);
    } else if a.extra is None && text_lt(a.post, b.post) {
        assert(x.take(2) =~= y.take(2));
        the_first_part_that_differs_decides(x, y, 2);
    } else if a.extra is Some && a.extra == b.extra && text_lt(a.post, b.post) {
        assert(x.take(2) =~= y.take(2));
        the_first_part_that_differs_decides(x, y, 2);
    } else if a.extra is Some && b.extra is Some && text_lt(a.extra->0, b.extra->0) {
        assert(x.take(1) =~= y.take(1));
        the_first_part_that_differs_decides(x, y, 1);
    }
}

proof fn lemma_residents_have(s: Seq<ResidentEntry>, i: int)
    requires
        0 <= i < s.len(),
    ensures
        resident_of(s[i]) matches Some(l) ==> residents(s).contains(l),
    decreases s.len(),
{
    let head = s.drop_last();
    if i < head.len() {
        lemma_residents_have(head, i);
        assert(head[i] == s[i]);
        if let Some(l) = resident_of(s[i]) {
            let j = choose|j: int| 0 <= j < residents(head).len() && residents(head)[j] == l;
            assert(residents(s)[j] == l);
        }
    } else if let Some(l) = resident_of(s[i]) {
        assert(residents(s)[residents(head).len() as int] == l);
    }
}

proof fn lemma_extras_have(found: Seq<LocationModel>, s: Seq<VersionEntry>, i: int, x: LocationModel)
    ensures
        found.contains(x) ==> extras_onto(found, s).contains(x),
        0 <= i < s.len() ==> (extra_of_entry(s[i]) matches Some(l) ==> extras_onto(found, s).contains(l)),
    decreases s.len(),
{
    if s.len() > 0 {
        let head = s.drop_last();
        let rest = extras_onto(found, head);
        let out = extras_onto(found, s);
        lemma_extras_have(found, head, i, x);
        if found.contains(x) {
            let j = choose|j: int| 0 <= j < rest.len() && rest[j] == x;
            assert(out[j] == x);
        }
        if 0 <= i < s.len() {
            if let Some(l) = extra_of_entry(s[i]) {
                if i < head.len() {
                    assert(head[i] == s[i]);
                    let j = choose|j: int| 0 <= j < rest.len() && rest[j] == l;
                    assert(out[j] == l);
                } else {
                    assert(out[rest.len() as int] == l);
                }
            }
        }
    }
}

/// Every file of a post and every version beside it is found.
pub proof fn every_file_of_a_post_is_found(resident: Seq<ResidentEntry>, versions: Seq<VersionEntry>, i: int)
    ensures
        ({
            let r = sorted_by(extras_onto(residents(resident), versions), location_rank_fn());
            &&& 0 <= i < resident.len() ==> (resident_of(resident[i]) matches Some(l) ==> r.contains(l))
            &&& 0 <= i < versions.len() ==> (extra_of_entry(versions[i]) matches Some(l) ==> r.contains(l))
        }),
{
    let s = extras_onto(residents(resident), versions);
    let r = sorted_by(s, location_rank_fn());
    sorting_orders_and_keeps(s, location_rank_fn());
    if 0 <= i < resident.len() {
        lemma_residents_have(resident, i);
        if let Some(l) = resident_of(resident[i]) {
            lemma_extras_have(residents(resident), versions, i, l);
            vstd::seq_lib::to_multiset_contains(s, l);
            vstd::seq_lib::to_multiset_contains(r, l);
        }
    }
    if 0 <= i < versions.len() {
        if let Some(l) = extra_of_entry(versions[i]) {
            lemma_extras_have(residents(resident), versions, i, l);
            vstd::seq_lib::to_multiset_contains(s, l);
            vstd::seq_lib::to_multiset_contains(r, l);
        }
    }
}

} // verus!
