//! Taking in a page of what another device of the group has.
use vstd::prelude::*;
use crate::bbs::sync::model::{buried, is_tomb, is_unavailable, lemma_at, lemma_found, shared_in, thread_deleted};
use crate::bbs::sync::model::{tkey, tomb_key, Group, ItemModel, PostVersion, StateModel, SyncState, ThreadRecordItem};
use crate::bbs::sync::model::{Tombstone, UnavailableModel, UnavailablePost, MAX_THREAD_BYTES};
use crate::bbs::sync::refresh::{meta_from_record, meta_of_record, record_from_meta, record_of, MetaSight};
use crate::bbs::sync::unavailable::{issue, issue_models, known_marker, mark_unavailable, marker_reading, marking};
use crate::bbs::sync::unavailable::{marking_fault, Issue, IssueModel, Marking, MarkingModel, PlaceModel, UnavailableView};
use crate::bbs::types::{BbsThreadMeta, ThreadModel, THREAD_SCHEMA};
use crate::order::{text_set, OrderedSet, Parts};
use crate::text::{own, same, texts, Text};

verus! {

// ------------------------------------------------------------------ the page

/// What a page is about.
#[derive(Clone, Copy, Debug, PartialEq, Eq, Structural)]
pub enum ManifestPhase {
    Tombstones,
    Threads,
    Versions,
    Unavailable,
}

/// Deleted files are cleared away, except for a page of mere notices: that
/// names no bodies.
pub fn clears_deletions(phase: ManifestPhase) -> (r: bool)
    ensures
        r == (phase != ManifestPhase::Unavailable),
{
    phase != ManifestPhase::Unavailable
}

/// The threads of the page are looked through.
pub fn looks_through(phase: ManifestPhase) -> (r: bool)
    ensures
        r == (phase == ManifestPhase::Threads || phase == ManifestPhase::Versions),
{
    phase == ManifestPhase::Threads || phase == ManifestPhase::Versions
}

/// A page that was read.
pub struct Parsed {
    pub deletions: Vec<Tombstone>,
    pub threads: Vec<ThreadRecordItem>,
    pub posts: Vec<PostVersion>,
    pub unavailable_posts: Vec<UnavailablePost>,
}

pub open spec fn deleted_threads(s: Seq<Tombstone>) -> Seq<Text> {
    s.map_values(|d: Tombstone| d@.thread_id)
}

pub open spec fn recorded_threads(s: Seq<ThreadRecordItem>) -> Seq<Text> {
    s.map_values(|t: ThreadRecordItem| t@.record.thread_id)
}

pub open spec fn posted_threads(s: Seq<PostVersion>) -> Seq<Text> {
    s.map_values(|p: PostVersion| p@.thread_id)
}

pub open spec fn noticed_threads(s: Seq<UnavailablePost>) -> Seq<Text> {
    s.map_values(|p: UnavailablePost| p@.thread_id)
}

/// The threads that a page proves to be shared: a version alone does not, for
/// it might name a private thread.
pub open spec fn proven_threads(p: Parsed) -> Seq<Text> {
    deleted_threads(p.deletions@) + recorded_threads(p.threads@)
}

/// All threads that a page names.
pub open spec fn named_threads(p: Parsed) -> Seq<Text> {
    proven_threads(p) + posted_threads(p.posts@) + noticed_threads(p.unavailable_posts@)
}

fn proven(p: &Parsed) -> (r: Vec<String>)
    ensures
        texts(r@) == proven_threads(*p),
{
    let mut out: Vec<String> = Vec::new();
    let mut i: usize = 0;
    while i < p.deletions.len()
        invariant
            i <= p.deletions@.len(),
            texts(out@) == deleted_threads(p.deletions@).take(i as int),
        decreases p.deletions@.len() - i,
    {
        let ghost was = out@;
        out.push(p.deletions[i].thread_id.clone());
        assert(texts(out@) =~= texts(was).push(p.deletions@[i as int]@.thread_id));
        assert(texts(out@) =~= deleted_threads(p.deletions@).take(i + 1));
        i += 1;
    }
    let ghost a = deleted_threads(p.deletions@);
    let ghost b = recorded_threads(p.threads@);
    assert(a.take(i as int) =~= a);
    i = 0;
    assert(a + b.take(0) =~= a);
    while i < p.threads.len()
        invariant
            a == deleted_threads(p.deletions@),
            b == recorded_threads(p.threads@),
            i <= p.threads@.len(),
            texts(out@) == a + b.take(i as int),
        decreases p.threads@.len() - i,
    {
        let ghost was = out@;
        out.push(p.threads[i].record.thread_id.clone());
        assert(texts(out@) =~= texts(was).push(b[i as int]));
        assert(texts(out@) =~= a + b.take(i + 1));
        i += 1;
    }
    assert(b.take(i as int) =~= b);
    out
}

/// The threads that a page concerns.
pub fn page_roots(p: &Parsed) -> (r: OrderedSet<String>)
    ensures
        r.wf(),
        r@ == text_set(named_threads(*p)),
{
    let mut out = proven(p);
    let ghost a = proven_threads(*p);
    let ghost b = posted_threads(p.posts@);
    let ghost c = noticed_threads(p.unavailable_posts@);
    let mut i: usize = 0;
    assert(a + b.take(0) =~= a);
    while i < p.posts.len()
        invariant
            b == posted_threads(p.posts@),
            i <= p.posts@.len(),
            texts(out@) == a + b.take(i as int),
        decreases p.posts@.len() - i,
    {
        let ghost was = out@;
        out.push(p.posts[i].thread_id.clone());
        assert(texts(out@) =~= texts(was).push(b[i as int]));
        assert(texts(out@) =~= a + b.take(i + 1));
        i += 1;
    }
    assert(b.take(i as int) =~= b);
    i = 0;
    assert(a + b + c.take(0) =~= a + b);
    while i < p.unavailable_posts.len()
        invariant
            c == noticed_threads(p.unavailable_posts@),
            i <= p.unavailable_posts@.len(),
            texts(out@) == a + b + c.take(i as int),
        decreases p.unavailable_posts@.len() - i,
    {
        let ghost was = out@;
        out.push(p.unavailable_posts[i].thread_id.clone());
        assert(texts(out@) =~= texts(was).push(c[i as int]));
        assert(texts(out@) =~= a + b + c.take(i + 1));
        i += 1;
    }
    assert(c.take(i as int) =~= c);
    let mut set: OrderedSet<String> = OrderedSet::new();
    set.add_texts(&out);
    assert(set@ =~= text_set(named_threads(*p)));
    set
}

// -------------------------------------------------------------- registration

/// A group with more shared threads.
pub open spec fn sharing_all(s: StateModel, group: Text, ids: Seq<Text>) -> StateModel {
    let had = if s.groups.contains_key(tkey(group)) {
        s.groups[tkey(group)]
    } else {
        Set::empty()
    };
    StateModel { groups: s.groups.insert(tkey(group), had.union(text_set(ids))), ..s }
}

pub open spec fn all_buried(s: StateModel, ds: Seq<Tombstone>) -> StateModel
    decreases ds.len(),
{
    if ds.len() == 0 {
        s
    } else {
        buried(all_buried(s, ds.drop_last()), ds.last()@)
    }
}

/// What a page says before anything else is looked at: its threads are shared
/// in the group, and its deletions are remembered.
pub open spec fn registered(s: StateModel, group: Text, p: Parsed) -> StateModel {
    all_buried(sharing_all(s, group, proven_threads(p)), p.deletions@)
}

impl SyncState {
    pub fn share_all(&mut self, group: &str, ids: &Vec<String>)
        requires
            old(self).wf(),
        ensures
            final(self).wf(),
            final(self)@ == sharing_all(old(self)@, group@, texts(ids@)),
    {
        let ghost was = *self;
        let k = own(group);
        let mut set = match self.groups.remove(&k) {
            Some(g) => g.shared_threads,
            None => OrderedSet::new(),
        };
        proof {
            if was.groups@.contains_key(tkey(group@)) {
                let i = lemma_found(was.groups, tkey(group@));
                assert(was.groups.entries@[i].1.shared_threads.wf());
            }
        }
        set.add_texts(ids);
        self.groups.insert(k, Group { shared_threads: set });
        proof {
            assert forall|i: int| 0 <= i < self.groups.entries@.len() implies (
            #[trigger] self.groups.entries@[i]).1.shared_threads.wf() by {
                lemma_at(self.groups, i);
                let key = tkey(self.groups.entries@[i].0@);
                if key != tkey(group@) {
                    let j = lemma_found(was.groups, key);
                }
            }
            assert(self@.groups =~= sharing_all(was@, group@, texts(ids@)).groups);
        }
    }
}

pub open spec fn all_tombs(ds: Seq<Tombstone>) -> bool {
    forall|i: int| 0 <= i < ds.len() ==> is_tomb((#[trigger] ds[i])@)
}

/// Register a page. A deletion that names a version without its post spoils
/// the page.
pub fn register_page(state: &mut SyncState, group: &str, p: &Parsed) -> (r: Result<(), String>)
    requires
        old(state).wf(),
    ensures
        final(state).wf(),
        r is Ok == all_tombs(p.deletions@),
        r matches Err(e) ==> e@ == "version_requires_post_id"@ && final(state)@ == old(state)@,
        r is Ok ==> final(state)@ == registered(old(state)@, group@, *p),
{
    let v = &p.deletions;
    let mut i: usize = 0;
    while i < v.len()
        invariant
            i <= v@.len(),
            v == p.deletions,
            forall|j: int| 0 <= j < i ==> is_tomb((#[trigger] v@[j])@),
            state.wf(),
            state@ == old(state)@,
        decreases v@.len() - i,
    {
        if v[i].version_id.is_some() && v[i].post_id.is_none() {
            assert(!is_tomb(v@[i as int]@));
            return Err(own("version_requires_post_id"));
        }
        assert(is_tomb(v@[i as int]@));
        i += 1;
    }
    let ids = proven(p);
    state.share_all(group, &ids);
    let ghost start = state@;
    i = 0;
    assert(v@.take(0) =~= Seq::empty());
    while i < v.len()
        invariant
            i <= v@.len(),
            v == p.deletions,
            all_tombs(v@),
            state.wf(),
            state@ == all_buried(start, v@.take(i as int)),
        decreases v@.len() - i,
    {
        assert(v@.take(i + 1).drop_last() =~= v@.take(i as int));
        assert(v@.take(i + 1).last() == v@[i as int]);
        state.bury(v[i].copy());
        i += 1;
    }
    assert(v@.take(i as int) =~= v@);
    Ok(())
}

// ------------------------------------------------------------------ the plan

/// A thread's record differs from that of another device.
pub struct ThreadMismatch {
    pub thread_id: String,
    pub local_sha256: String,
    pub remote_sha256: String,
}

pub struct MismatchModel {
    pub thread: Text,
    pub here: Text,
    pub there: Text,
}

impl View for ThreadMismatch {
    type V = MismatchModel;

    open spec fn view(&self) -> MismatchModel {
        MismatchModel { thread: self.thread_id@, here: self.local_sha256@, there: self.remote_sha256@ }
    }
}

pub open spec fn mismatch_models(s: Seq<ThreadMismatch>) -> Seq<MismatchModel> {
    s.map_values(|m: ThreadMismatch| m@)
}

/// What is to be taken over from a page.
pub struct Plan {
    pub shared_roots: Vec<String>,
    pub threads: Vec<ThreadRecordItem>,
    pub unavailable_posts: Vec<UnavailablePost>,
    pub issues: Vec<Issue>,
    pub warnings: Vec<ThreadMismatch>,
}

/// The record of a thread on this device.
pub enum LocalRecord {
    Absent,
    Unreadable,
    Found(ThreadRecordItem),
}

/// A thread's metadata file holds a record that can be compared: it is small
/// enough, of the schema of threads, and can be shared.
pub open spec fn is_comparable(f: MetaSight) -> bool {
    &&& f.len <= MAX_THREAD_BYTES
    &&& f.meta is Ok
    &&& f.meta->Ok_0@.schema == THREAD_SCHEMA@
    &&& f.sealed is Ok
}

/// What to make of the metadata file of a thread that a page brings. A local
/// publisher may have written it just now; whatever thread it names is kept.
pub fn local_record(found: Option<MetaSight>) -> (r: LocalRecord)
    ensures
        match found {
            None => r is Absent,
            Some(f) => if is_comparable(f) {
                r matches LocalRecord::Found(item) && item@ == (ItemModel {
                    record: record_of(f.meta->Ok_0@),
                    sha256: f.sealed->Ok_0@,
                })
            } else {
                r is Unreadable
            },
        },
{
    let f = match found {
        None => {
            return LocalRecord::Absent;
        },
        Some(f) => f,
    };
    if f.len > MAX_THREAD_BYTES as u64 {
        return LocalRecord::Unreadable;
    }
    match (&f.meta, f.sealed) {
        (Ok(meta), Ok(sha256)) => {
            if !same(&meta.schema, THREAD_SCHEMA) {
                return LocalRecord::Unreadable;
            }
            LocalRecord::Found(ThreadRecordItem { record: record_from_meta(meta), sha256 })
        },
        _ => LocalRecord::Unreadable,
    }
}

/// What is known of a post that another device cannot send: the versions that
/// are here, and what reading its marker gave.
pub struct MarkSight {
    pub found: Vec<String>,
    pub marker: Result<Option<UnavailableView>, String>,
}

/// What is to be done to the files.
pub enum PageAction {
    WriteThread(BbsThreadMeta),
    ClearMarker { thread_id: String, post_id: String },
    WriteMarker { thread_id: String, view: UnavailableView },
}

pub enum ActionModel {
    WriteThread(ThreadModel),
    ClearMarker { thread: Text, post: Text },
    WriteMarker { thread: Text, view: PlaceModel },
}

impl View for PageAction {
    type V = ActionModel;

    open spec fn view(&self) -> ActionModel {
        match self {
            PageAction::WriteThread(m) => ActionModel::WriteThread(m@),
            PageAction::ClearMarker { thread_id, post_id } => ActionModel::ClearMarker {
                thread: thread_id@,
                post: post_id@,
            },
            PageAction::WriteMarker { thread_id, view } => ActionModel::WriteMarker { thread: thread_id@, view: view@ },
        }
    }
}

pub open spec fn action_models(s: Seq<PageAction>) -> Seq<ActionModel> {
    s.map_values(|a: PageAction| a@)
}

/// What became of a page.
pub struct Applied {
    pub state: SyncState,
    pub issues: Vec<Issue>,
    pub warnings: Vec<ThreadMismatch>,
    pub actions: Vec<PageAction>,
}

#[verifier::ext_equal]
pub struct AppliedModel {
    pub state: StateModel,
    pub issues: Seq<IssueModel>,
    pub warnings: Seq<MismatchModel>,
    pub actions: Seq<ActionModel>,
}

impl View for Applied {
    type V = AppliedModel;

    open spec fn view(&self) -> AppliedModel {
        AppliedModel {
            state: self.state@,
            issues: issue_models(self.issues@),
            warnings: mismatch_models(self.warnings@),
            actions: action_models(self.actions@),
        }
    }
}

pub open spec fn with_record(m: AppliedModel, item: ItemModel) -> AppliedModel {
    AppliedModel {
        state: StateModel { records: m.state.records.insert(tkey(item.record.thread_id), item), ..m.state },
        ..m
    }
}

/// Take over a thread: a deleted one is left alone; one that is here stays as
/// it is.
pub open spec fn thread_step(m: AppliedModel, item: ItemModel, local: LocalRecord) -> AppliedModel {
    let thread = item.record.thread_id;
    if thread_deleted(m.state, thread) {
        m
    } else {
        match local {
            LocalRecord::Absent => {
                let n = with_record(m, item);
                AppliedModel { actions: n.actions.push(ActionModel::WriteThread(meta_of_record(item.record))), ..n }
            },
            LocalRecord::Unreadable => AppliedModel {
                issues: m.issues.push(
                    IssueModel { code: "invalid_local_thread_record"@, thread: Some(thread), post: None },
                ),
                ..m
            },
            LocalRecord::Found(l) => {
                let n = with_record(m, l@);
                if l@.sha256 != item.sha256 {
                    AppliedModel {
                        warnings: n.warnings.push(MismatchModel { thread, here: l@.sha256, there: item.sha256 }),
                        ..n
                    }
                } else {
                    n
                }
            },
        }
    }
}

pub open spec fn threads_taken(m: AppliedModel, items: Seq<ThreadRecordItem>, locals: Seq<LocalRecord>) -> AppliedModel
    decreases items.len(),
{
    if items.len() == 0 {
        m
    } else {
        thread_step(threads_taken(m, items.drop_last(), locals), items.last()@, locals[items.len() - 1])
    }
}

/// Take over a notice that a post cannot travel, if its thread is shared.
pub open spec fn notice_step(m: AppliedModel, group: Text, p: UnavailableModel, sight: MarkSight) -> AppliedModel {
    if !shared_in(m.state, group, p.thread_id) {
        AppliedModel {
            issues: m.issues.push(
                IssueModel { code: "unshared_unavailable_post"@, thread: Some(p.thread_id), post: Some(p.post_id) },
            ),
            ..m
        }
    } else {
        match marking(m.state, p, texts(sight.found@), known_marker(marker_reading(sight.marker))) {
            MarkingModel::Nothing => m,
            MarkingModel::Clear => AppliedModel {
                actions: m.actions.push(ActionModel::ClearMarker { thread: p.thread_id, post: p.post_id }),
                ..m
            },
            MarkingModel::Conflict(i) => AppliedModel { issues: m.issues.push(i), ..m },
            MarkingModel::Write(v) => AppliedModel {
                actions: m.actions.push(ActionModel::WriteMarker { thread: p.thread_id, view: v }),
                ..m
            },
        }
    }
}

pub open spec fn notices_taken(m: AppliedModel, group: Text, items: Seq<UnavailablePost>, sights: Seq<MarkSight>) -> AppliedModel
    decreases items.len(),
{
    if items.len() == 0 {
        m
    } else {
        notice_step(notices_taken(m, group, items.drop_last(), sights), group, items.last()@, sights[items.len() - 1])
    }
}

/// Why a notice spoils its page: it is not one, or the marker that it needs
/// cannot be read. One of a thread that is not shared spoils nothing.
pub open spec fn notice_fault(s: StateModel, group: Text, p: UnavailableModel, sight: MarkSight) -> Option<Text> {
    if shared_in(s, group, p.thread_id) {
        marking_fault(s, p, texts(sight.found@), marker_reading(sight.marker))
    } else {
        None
    }
}

/// The first of them decides.
pub open spec fn notices_fault(s: StateModel, group: Text, items: Seq<UnavailablePost>, sights: Seq<MarkSight>) -> Option<Text>
    decreases items.len(),
{
    if items.len() == 0 {
        None
    } else {
        match notices_fault(s, group, items.drop_last(), sights) {
            Some(e) => Some(e),
            None => notice_fault(s, group, items.last()@, sights[items.len() - 1]),
        }
    }
}

proof fn lemma_fault_stays(s: StateModel, group: Text, items: Seq<UnavailablePost>, sights: Seq<MarkSight>, n: int)
    requires
        0 <= n <= items.len(),
        notices_fault(s, group, items.take(n), sights) is Some,
    ensures
        notices_fault(s, group, items, sights) == notices_fault(s, group, items.take(n), sights),
    decreases items.len(),
{
    if n == items.len() {
        assert(items.take(n) =~= items);
    } else {
        assert(items.drop_last().take(n) =~= items.take(n));
        lemma_fault_stays(s, group, items.drop_last(), sights, n);
    }
}

pub open spec fn plan_begun(s: StateModel, group: Text, plan: Plan, more: Seq<Issue>) -> AppliedModel {
    AppliedModel {
        state: sharing_all(s, group, texts(plan.shared_roots@)),
        issues: issue_models(plan.issues@) + issue_models(more),
        warnings: mismatch_models(plan.warnings@),
        actions: Seq::empty(),
    }
}

pub open spec fn plan_applied(
    s: StateModel,
    group: Text,
    plan: Plan,
    more: Seq<Issue>,
    locals: Seq<LocalRecord>,
    sights: Seq<MarkSight>,
) -> AppliedModel {
    notices_taken(
        threads_taken(plan_begun(s, group, plan, more), plan.threads@, locals),
        group,
        plan.unavailable_posts@,
        sights,
    )
}

fn take_threads(m: Applied, items: &Vec<ThreadRecordItem>, locals: Vec<LocalRecord>) -> (r: Applied)
    requires
        m.state.wf(),
        items@.len() == locals@.len(),
    ensures
        r.state.wf(),
        r@ == threads_taken(m@, items@, locals@),
{
    let ghost start = m@;
    let ghost all = locals@;
    let mut m = m;
    let mut rest = locals;
    let mut i: usize = 0;
    assert(rest@ =~= all.skip(0));
    assert(items@.take(0) =~= Seq::empty());
    while i < items.len()
        invariant
            m.state.wf(),
            items@.len() == all.len(),
            i <= items@.len(),
            rest@ == all.skip(i as int),
            m@ == threads_taken(start, items@.take(i as int), all),
        decreases items@.len() - i,
    {
        let ghost was = m@;
        let ghost was_state = m.state;
        let item = &items[i];
        assert(rest@.len() > 0);
        let local = rest.remove(0);
        proof {
            assert(local == all[i as int]);
            assert(rest@ =~= all.skip(i + 1));
            assert(items@.take(i + 1).drop_last() =~= items@.take(i as int));
            assert(items@.take(i + 1).last() == *item);
        }
        if !m.state.thread_deleted(&item.record.thread_id) {
            match local {
                LocalRecord::Absent => {
                    let ghost acts = m.actions@;
                    m.actions.push(PageAction::WriteThread(meta_from_record(&item.record)));
                    let copy = item.copy();
                    m.state.thread_records.insert(item.record.thread_id.clone(), copy);
                    assert(action_models(m.actions@) =~= action_models(acts).push(m.actions@.last()@));
                    assert(m.state@.records =~= was.state.records.insert(tkey(item@.record.thread_id), item@));
                    assert(m@ =~= thread_step(was, item@, local));
                },
                LocalRecord::Unreadable => {
                    let ghost list = m.issues@;
                    m.issues.push(issue("invalid_local_thread_record", &item.record.thread_id, None));
                    assert(issue_models(m.issues@) =~= issue_models(list).push(m.issues@.last()@));
                    assert(m@ =~= thread_step(was, item@, local));
                },
                LocalRecord::Found(l) => {
                    if !same(&l.sha256, &item.sha256) {
                        let ghost list = m.warnings@;
                        m.warnings.push(
                            ThreadMismatch {
                                thread_id: item.record.thread_id.clone(),
                                local_sha256: l.sha256.clone(),
                                remote_sha256: item.sha256.clone(),
                            },
                        );
                        assert(mismatch_models(m.warnings@) =~= mismatch_models(list).push(m.warnings@.last()@));
                    }
                    let ghost lv = l@;
                    let key = l.record.thread_id.clone();
                    m.state.thread_records.insert(key, l);
                    assert(m.state@.records =~= was.state.records.insert(tkey(lv.record.thread_id), lv));
                    assert(m@ =~= thread_step(was, item@, local));
                },
            }
        }
        i += 1;
    }
    assert(items@.take(i as int) =~= items@);
    m
}

fn take_notices(m: Applied, group: &str, items: &Vec<UnavailablePost>, sights: &Vec<MarkSight>) -> (r: Result<
    Applied,
    String,
>)
    requires
        m.state.wf(),
        items@.len() == sights@.len(),
    ensures
        match notices_fault(m.state@, group@, items@, sights@) {
            Some(e) => r is Err && r->Err_0@ == e,
            None => r is Ok && r->Ok_0.state.wf() && r->Ok_0@ == notices_taken(m@, group@, items@, sights@),
        },
{
    let ghost start = m@;
    let ghost kept = m.state;
    let mut n = m;
    let mut i: usize = 0;
    assert(items@.take(0) =~= Seq::empty());
    while i < items.len()
        invariant
            n.state.wf(),
            n.state == kept,
            kept == m.state,
            start == m@,
            items@.len() == sights@.len(),
            i <= items@.len(),
            notices_fault(kept@, group@, items@.take(i as int), sights@) is None,
            n@ == notices_taken(start, group@, items@.take(i as int), sights@),
        decreases items@.len() - i,
    {
        let ghost was = n@;
        let p = &items[i];
        let sight = &sights[i];
        proof {
            assert(items@.take(i + 1).drop_last() =~= items@.take(i as int));
            assert(items@.take(i + 1).last() == *p);
            assert(*p == items@[i as int]);
        }
        if !n.state.shared_in(group, &p.thread_id) {
            let ghost list = n.issues@;
            n.issues.push(issue("unshared_unavailable_post", &p.thread_id, Some(p.post_id.as_str())));
            assert(issue_models(n.issues@) =~= issue_models(list).push(n.issues@.last()@));
            assert(n@ =~= notice_step(was, group@, p@, *sight));
        } else {
            match mark_unavailable(&n.state, p, &sight.found, &sight.marker) {
                Ok(Marking::Nothing) => {},
                Ok(Marking::Clear) => {
                    let ghost acts = n.actions@;
                    n.actions.push(
                        PageAction::ClearMarker { thread_id: p.thread_id.clone(), post_id: p.post_id.clone() },
                    );
                    assert(action_models(n.actions@) =~= action_models(acts).push(n.actions@.last()@));
                    assert(n@ =~= notice_step(was, group@, p@, *sight));
                },
                Ok(Marking::Conflict(x)) => {
                    let ghost list = n.issues@;
                    n.issues.push(x);
                    assert(issue_models(n.issues@) =~= issue_models(list).push(n.issues@.last()@));
                    assert(n@ =~= notice_step(was, group@, p@, *sight));
                },
                Ok(Marking::Write(view)) => {
                    let ghost acts = n.actions@;
                    n.actions.push(PageAction::WriteMarker { thread_id: p.thread_id.clone(), view });
                    assert(action_models(n.actions@) =~= action_models(acts).push(n.actions@.last()@));
                    assert(n@ =~= notice_step(was, group@, p@, *sight));
                },
                Err(e) => {
                    proof {
                        lemma_fault_stays(kept@, group@, items@, sights@, i + 1);
                    }
                    return Err(e);
                },
            }
        }
        i += 1;
    }
    assert(items@.take(i as int) =~= items@);
    Ok(n)
}

/// Take over what a page brings. A notice that is not one spoils it, and so
/// does a marker that is needed and cannot be read.
pub fn apply_plan(
    state: SyncState,
    group: &str,
    plan: Plan,
    more: Vec<Issue>,
    locals: Vec<LocalRecord>,
    sights: &Vec<MarkSight>,
) -> (r: Result<Applied, String>)
    requires
        state.wf(),
        plan.threads@.len() == locals@.len(),
        plan.unavailable_posts@.len() == sights@.len(),
    ensures
        ({
            let begun = threads_taken(plan_begun(state@, group@, plan, more@), plan.threads@, locals@);
            match notices_fault(begun.state, group@, plan.unavailable_posts@, sights@) {
                Some(e) => r is Err && r->Err_0@ == e,
                None => r is Ok && r->Ok_0.state.wf() && r->Ok_0@ == plan_applied(
                    state@,
                    group@,
                    plan,
                    more@,
                    locals@,
                    sights@,
                ),
            }
        }),
{
    let ghost start = state@;
    let ghost pl = plan;
    let mut fresh = state;
    fresh.share_all(group, &plan.shared_roots);
    let mut issues = plan.issues;
    let mut more = more;
    let ghost extra = more@;
    issues.append(&mut more);
    assert(issue_models(issues@) =~= issue_models(pl.issues@) + issue_models(extra));
    let m = Applied { state: fresh, issues, warnings: plan.warnings, actions: Vec::new() };
    assert(action_models(m.actions@) =~= Seq::empty());
    assert(m@ =~= plan_begun(start, group@, pl, extra));
    let m = take_threads(m, &plan.threads, locals);
    take_notices(m, group, &plan.unavailable_posts, sights)
}

proof fn lemma_threads_keep(m: AppliedModel, items: Seq<ThreadRecordItem>, locals: Seq<LocalRecord>)
    ensures
        threads_taken(m, items, locals).state.groups == m.state.groups,
        threads_taken(m, items, locals).state.tombstones == m.state.tombstones,
        threads_taken(m, items, locals).state.ledger == m.state.ledger,
    decreases items.len(),
{
    if items.len() > 0 {
        lemma_threads_keep(m, items.drop_last(), locals);
    }
}

// ---------------------------------------------------------------------- laws

/// A page of another device withdraws no deletion and unshares no thread.
pub proof fn a_page_withdraws_nothing(s: StateModel, group: Text, p: Parsed, k: Parts, other: Text, thread: Text)
    ensures
        s.tombstones.contains_key(k) ==> registered(s, group, p).tombstones.contains_key(k) && registered(
            s,
            group,
            p,
        ).tombstones[k] == s.tombstones[k],
        shared_in(s, other, thread) ==> shared_in(registered(s, group, p), other, thread),
{
    lemma_buried(sharing_all(s, group, proven_threads(p)), p.deletions@, k);
}

proof fn lemma_buried(s: StateModel, ds: Seq<Tombstone>, k: Parts)
    ensures
        all_buried(s, ds).groups == s.groups,
        s.tombstones.contains_key(k) ==> all_buried(s, ds).tombstones.contains_key(k) && all_buried(s, ds).tombstones[k]
            == s.tombstones[k],
    decreases ds.len(),
{
    if ds.len() > 0 {
        lemma_buried(s, ds.drop_last(), k);
    }
}

/// Every deletion of a page is in force afterwards.
pub proof fn a_page_deletes_what_it_says(s: StateModel, group: Text, p: Parsed, i: int)
    requires
        0 <= i < p.deletions@.len(),
    ensures
        registered(s, group, p).tombstones.contains_key(tkey(tomb_key(p.deletions@[i]@))),
{
    lemma_is_buried(sharing_all(s, group, proven_threads(p)), p.deletions@, i);
}

proof fn lemma_is_buried(s: StateModel, ds: Seq<Tombstone>, i: int)
    requires
        0 <= i < ds.len(),
    ensures
        all_buried(s, ds).tombstones.contains_key(tkey(tomb_key(ds[i]@))),
    decreases ds.len(),
{
    if i < ds.len() - 1 {
        lemma_is_buried(s, ds.drop_last(), i);
        assert(ds.drop_last()[i] == ds[i]);
    }
}

/// The record of a deleted thread does not come back with a page.
pub proof fn a_deleted_thread_gets_no_record(m: AppliedModel, item: ItemModel, local: LocalRecord)
    requires
        thread_deleted(m.state, item.record.thread_id),
    ensures
        thread_step(m, item, local) == m,
{
}

/// A page shares in its group the threads whose records or deletions it brings,
/// and no other. A version or a notice alone shares nothing.
pub proof fn a_page_shares_what_it_proves(s: StateModel, group: Text, p: Parsed, other: Text, thread: Text)
    ensures
        ({
            let t = registered(s, group, p);
            &&& shared_in(t, group, thread) <==> shared_in(s, group, thread) || (exists|i: int|
                0 <= i < p.deletions@.len() && (#[trigger] p.deletions@[i])@.thread_id == thread) || (exists|i: int|
                0 <= i < p.threads@.len() && (#[trigger] p.threads@[i])@.record.thread_id == thread)
            &&& other != group ==> shared_in(t, other, thread) == shared_in(s, other, thread)
        }),
{
    let ids = proven_threads(p);
    let a = deleted_threads(p.deletions@);
    let b = recorded_threads(p.threads@);
    lemma_buried(sharing_all(s, group, ids), p.deletions@, tkey(thread));
    assert(tkey(group)[0] == group);
    assert(tkey(other)[0] == other);
    assert(tkey(thread)[0] == thread);
    assert(text_set(ids).contains(tkey(thread)) <==> ids.contains(thread)) by {
        if ids.contains(thread) {
            let i = choose|i: int| 0 <= i < ids.len() && ids[i] == thread;
            assert(tkey(ids[i]) == tkey(thread));
        }
        if text_set(ids).contains(tkey(thread)) {
            let i = choose|i: int| 0 <= i < ids.len() && #[trigger] tkey(ids[i]) == tkey(thread);
            assert(tkey(ids[i])[0] == ids[i]);
        }
    }
    if ids.contains(thread) {
        let i = choose|i: int| 0 <= i < ids.len() && ids[i] == thread;
        if i < a.len() {
            assert(p.deletions@[i]@.thread_id == thread);
        } else {
            assert(p.threads@[i - a.len()]@.record.thread_id == thread);
        }
    }
    if exists|i: int| 0 <= i < p.deletions@.len() && (#[trigger] p.deletions@[i])@.thread_id == thread {
        let i = choose|i: int| 0 <= i < p.deletions@.len() && (#[trigger] p.deletions@[i])@.thread_id == thread;
        assert(ids[i] == thread);
    }
    if exists|i: int| 0 <= i < p.threads@.len() && (#[trigger] p.threads@[i])@.record.thread_id == thread {
        let i = choose|i: int| 0 <= i < p.threads@.len() && (#[trigger] p.threads@[i])@.record.thread_id == thread;
        assert(ids[a.len() + i] == thread);
    }
}

/// A page concerns every thread that it names in any of its four parts.
pub proof fn a_page_concerns_every_thread_it_names(p: Parsed, i: int)
    ensures
        0 <= i < p.deletions@.len() ==> named_threads(p).contains(p.deletions@[i]@.thread_id),
        0 <= i < p.threads@.len() ==> named_threads(p).contains(p.threads@[i]@.record.thread_id),
        0 <= i < p.posts@.len() ==> named_threads(p).contains(p.posts@[i]@.thread_id),
        0 <= i < p.unavailable_posts@.len() ==> named_threads(p).contains(p.unavailable_posts@[i]@.thread_id),
{
    let n = named_threads(p);
    let a = p.deletions@.len();
    let b = p.threads@.len();
    let c = p.posts@.len();
    if 0 <= i < a {
        assert(n[i] == p.deletions@[i]@.thread_id);
    }
    if 0 <= i < b {
        assert(n[a + i] == p.threads@[i]@.record.thread_id);
    }
    if 0 <= i < c {
        assert(n[a + b + i] == p.posts@[i]@.thread_id);
    }
    if 0 <= i < p.unavailable_posts@.len() {
        assert(n[a + b + c + i] == p.unavailable_posts@[i]@.thread_id);
    }
}

/// A thread that is not here is written as its record says, with nothing in it
/// yet. One that is here stays as it is; if the records differ, that is told
/// with both hashes. One that cannot be read is an issue.
pub proof fn a_thread_that_is_here_stays(m: AppliedModel, item: ItemModel, local: LocalRecord)
    requires
        !thread_deleted(m.state, item.record.thread_id),
    ensures
        ({
            let n = thread_step(m, item, local);
            let k = tkey(item.record.thread_id);
            &&& local is Absent ==> {
                &&& n.state.records.contains_key(k) && n.state.records[k] == item
                &&& n.actions.len() == m.actions.len() + 1
                &&& n.actions.last() matches ActionModel::WriteThread(t) && t.thread_id == item.record.thread_id
                    && t.visibility == item.record.visibility && t.project_tags == item.record.project_tags
                    && t.created_by_project == item.record.created_by_project && t.created_at == item.record.created_at
                    && t.updated_at == item.record.created_at && t.latest_post_id.len() == 0
                &&& n.issues == m.issues && n.warnings == m.warnings
            }
            &&& local matches LocalRecord::Found(l) ==> {
                &&& n.actions == m.actions && n.issues == m.issues
                &&& n.state.records.contains_key(tkey(l@.record.thread_id)) && n.state.records[tkey(l@.record.thread_id)]
                    == l@
                &&& l@.sha256 == item.sha256 ==> n.warnings == m.warnings
                &&& l@.sha256 != item.sha256 ==> n.warnings.len() == m.warnings.len() + 1 && n.warnings.last().thread
                    == item.record.thread_id && n.warnings.last().here == l@.sha256 && n.warnings.last().there
                    == item.sha256
            }
            &&& local is Unreadable ==> {
                &&& n.state == m.state && n.actions == m.actions && n.warnings == m.warnings
                &&& n.issues.len() == m.issues.len() + 1 && n.issues.last().code == "invalid_local_thread_record"@
                    && n.issues.last().thread == Some(item.record.thread_id)
            }
        }),
{
}

/// A notice that a post cannot travel leads to a marker in a thread that is
/// shared and known, and to an issue in one that is not shared. It changes no
/// state.
pub proof fn a_notice_marks_its_post(m: AppliedModel, group: Text, p: UnavailableModel, sight: MarkSight)
    ensures
        ({
            let n = notice_step(m, group, p, sight);
            &&& n.state == m.state && n.warnings == m.warnings
            &&& !shared_in(m.state, group, p.thread_id) ==> n.actions == m.actions && n.issues.len() == m.issues.len() + 1
                && n.issues.last().code == "unshared_unavailable_post"@ && n.issues.last().thread == Some(p.thread_id)
                && n.issues.last().post == Some(p.post_id)
            &&& n.actions.len() > m.actions.len() ==> {
                &&& shared_in(m.state, group, p.thread_id)
                &&& match n.actions.last() {
                    ActionModel::WriteMarker { thread, view } => thread == p.thread_id && view.post == p.post_id,
                    ActionModel::ClearMarker { thread, post } => thread == p.thread_id && post == p.post_id,
                    ActionModel::WriteThread(_) => false,
                }
            }
        }),
{
}

/// A plan begins with what was found out before: its issues, those that came
/// since, its warnings and the threads that are shared from now on.
pub proof fn a_plan_begins_with_what_was_found_out(s: StateModel, group: Text, plan: Plan, more: Seq<Issue>, thread: Text, other: Text)
    ensures
        ({
            let m = plan_begun(s, group, plan, more);
            &&& m.issues == issue_models(plan.issues@) + issue_models(more)
            &&& m.warnings.len() == plan.warnings@.len()
            &&& m.warnings == mismatch_models(plan.warnings@)
            &&& m.actions.len() == 0
            &&& shared_in(m.state, group, thread) <==> shared_in(s, group, thread) || texts(plan.shared_roots@).contains(
                thread,
            )
            &&& other != group ==> shared_in(m.state, other, thread) == shared_in(s, other, thread)
            &&& m.state.ledger == s.ledger && m.state.tombstones == s.tombstones && m.state.records == s.records
        }),
{
    let m = plan_begun(s, group, plan, more);
    assert(tkey(group)[0] == group && tkey(other)[0] == other && tkey(thread)[0] == thread);
    let ids = texts(plan.shared_roots@);
    if text_set(ids).contains(tkey(thread)) {
        let i = choose|i: int| 0 <= i < ids.len() && tkey(thread) == seq![#[trigger] ids[i]];
        assert(seq![ids[i]][0] == ids[i]);
    }
    if ids.contains(thread) {
        let i = choose|i: int| 0 <= i < ids.len() && ids[i] == thread;
        assert(tkey(thread) == seq![ids[i]]);
    }
}

/// Threads and notices are taken one after the other, each with what was found
/// for it.
pub proof fn items_are_taken_one_by_one(
    m: AppliedModel,
    group: Text,
    threads: Seq<ThreadRecordItem>,
    t: ThreadRecordItem,
    locals: Seq<LocalRecord>,
    posts: Seq<UnavailablePost>,
    p: UnavailablePost,
    sights: Seq<MarkSight>,
)
    ensures
        threads_taken(m, Seq::empty(), locals) == m,
        threads_taken(m, threads.push(t), locals) == thread_step(
            threads_taken(m, threads, locals),
            t@,
            locals[threads.len() as int],
        ),
        notices_taken(m, group, Seq::empty(), sights) == m,
        notices_taken(m, group, posts.push(p), sights) == notice_step(
            notices_taken(m, group, posts, sights),
            group,
            p@,
            sights[posts.len() as int],
        ),
{
    assert(threads.push(t).drop_last() =~= threads);
    assert(threads.push(t).last() == t);
    assert(posts.push(p).drop_last() =~= posts);
    assert(posts.push(p).last() == p);
}

/// Notices are in order exactly if each one of a shared thread is.
pub proof fn a_faulty_notice_is_told(s: StateModel, group: Text, items: Seq<UnavailablePost>, sights: Seq<MarkSight>, i: int)
    requires
        0 <= i < items.len(),
        notices_fault(s, group, items, sights) is None,
    ensures
        shared_in(s, group, items[i]@.thread_id) ==> marking_fault(
            s,
            items[i]@,
            texts(sights[i].found@),
            marker_reading(sights[i].marker),
        ) is None,
    decreases items.len(),
{
    let head = items.drop_last();
    if i < head.len() {
        a_faulty_notice_is_told(s, group, head, sights, i);
        assert(head[i] == items[i]);
    }
}

/// A notice of a thread that is not shared is no fault.
pub proof fn an_unshared_notice_is_no_fault(s: StateModel, group: Text, p: UnavailableModel, sight: MarkSight)
    ensures
        !shared_in(s, group, p.thread_id) ==> notice_fault(s, group, p, sight) is None,
        shared_in(s, group, p.thread_id) && !is_unavailable(p) ==> notice_fault(s, group, p, sight) is Some,
{
}

} // verus!
