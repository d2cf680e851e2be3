//! Posts that exist on another device but cannot travel. They are neither
//! posts nor versions: only their place is known.
use vstd::prelude::*;
use crate::bbs::notify::prepare::{first_mark, mark_at};
use crate::bbs::posts::{shared_fault, validate_post_meta};
use crate::bbs::sync::model::{is_unavailable, lemma_at, lemma_found, logical_deleted, suppressed, thread_deleted};
use crate::bbs::sync::model::{tkey, MAX_BODY_BYTES, MAX_FRONTMATTER_BYTES, RowModel, StateModel, SyncState};
use crate::bbs::sync::model::{UnavailableModel, UnavailablePost, UnavailableReason};
use crate::bbs::types::{BbsPostMeta, PostModel};
use crate::ids::{is_safe_id, safe_id};
use crate::order::{parts_lt, OrderedSet, Parts};
use crate::sort::{lemma_sorted_map, rank_fn, sorted_by, stable_sort, Ranked};
use crate::text::{before, copy_opt, ends, holds, opt_text, own, same, same_opt, strip_back, texts, Text};
use crate::sort::sorting_orders_and_keeps;

verus! {

pub const PLACEHOLDER_TEXT: &'static str = "File size too large to sync.";

/// Something that could not be synchronised.
pub struct Issue {
    pub code: String,
    pub thread_id: Option<String>,
    pub post_id: Option<String>,
}

pub struct IssueModel {
    pub code: Text,
    pub thread: Option<Text>,
    pub post: Option<Text>,
}

impl View for Issue {
    type V = IssueModel;

    open spec fn view(&self) -> IssueModel {
        IssueModel { code: self.code@, thread: opt_text(self.thread_id), post: opt_text(self.post_id) }
    }
}

pub open spec fn issue_models(s: Seq<Issue>) -> Seq<IssueModel> {
    s.map_values(|i: Issue| i@)
}

pub fn issue(code: &str, thread: &str, post: Option<&str>) -> (r: Issue)
    ensures
        r@ == (IssueModel { code: code@, thread: Some(thread@), post: crate::bbs::names::opt_str(post) }),
{
    Issue {
        code: own(code),
        thread_id: Some(own(thread)),
        post_id: match post {
            Some(p) => Some(own(p)),
            None => None,
        },
    }
}

/// A post that is shown only by its place.
#[derive(Debug)]
pub struct UnavailableView {
    pub post_id: String,
    pub reason: UnavailableReason,
    pub kind: Option<String>,
}

pub struct PlaceModel {
    pub post: Text,
    pub reason: UnavailableReason,
    pub kind: Option<Text>,
}

impl View for UnavailableView {
    type V = PlaceModel;

    open spec fn view(&self) -> PlaceModel {
        PlaceModel { post: self.post_id@, reason: self.reason, kind: opt_text(self.kind) }
    }
}

impl UnavailableView {
    pub fn copy(&self) -> (r: UnavailableView)
        ensures
            r == *self,
    {
        UnavailableView { post_id: self.post_id.clone(), reason: self.reason, kind: copy_opt(&self.kind) }
    }
}

pub open spec fn place_models(s: Seq<UnavailableView>) -> Seq<PlaceModel> {
    s.map_values(|v: UnavailableView| v@)
}

pub open spec fn opt_place(v: Option<UnavailableView>) -> Option<PlaceModel> {
    match v {
        Some(x) => Some(x@),
        None => None,
    }
}

// ------------------------------------------------------------------- markers

/// A stored marker is one of this thread and post.
pub open spec fn marker_fault(thread: Text, post: Text, schema: u32, m: PlaceModel) -> Option<Text> {
    if schema != 1 || m.post != post {
        Some("invalid_unavailable_marker"@)
    } else if !is_unavailable(
        UnavailableModel { thread_id: thread, post_id: post, reason: m.reason, kind: m.kind },
    ) {
        Some("invalid_unavailable_post"@)
    } else {
        None
    }
}

pub fn check_marker(thread: &str, post: &str, schema_version: u32, view: UnavailableView) -> (r: Result<
    UnavailableView,
    String,
>)
    ensures
        match marker_fault(thread@, post@, schema_version, view@) {
            Some(e) => r is Err && r->Err_0@ == e,
            None => r == Ok::<UnavailableView, String>(view),
        },
{
    if schema_version != 1 || !same(&view.post_id, post) {
        return Err(own("invalid_unavailable_marker"));
    }
    let item = UnavailablePost {
        thread_id: own(thread),
        post_id: own(post),
        reason: view.reason,
        kind: copy_opt(&view.kind),
    };
    if !item.valid() {
        return Err(own("invalid_unavailable_post"));
    }
    Ok(view)
}

/// What to do about a post that another device cannot send.
pub enum Marking {
    Nothing,
    /// The post is here after all: take its marker away.
    Clear,
    Conflict(Issue),
    Write(UnavailableView),
}

pub enum MarkingModel {
    Nothing,
    Clear,
    Conflict(IssueModel),
    Write(PlaceModel),
}

impl View for Marking {
    type V = MarkingModel;

    open spec fn view(&self) -> MarkingModel {
        match self {
            Marking::Nothing => MarkingModel::Nothing,
            Marking::Clear => MarkingModel::Clear,
            Marking::Conflict(i) => MarkingModel::Conflict(i@),
            Marking::Write(v) => MarkingModel::Write(v@),
        }
    }
}

/// Some version of the post is here and not deleted.
pub open spec fn is_here(s: StateModel, thread: Text, post: Text, found: Seq<Text>) -> bool {
    exists|k: Parts|
        #[trigger] s.ledger.contains_key(k) && row_is_here(s, s.ledger[k], thread, post, found)
}

pub open spec fn row_is_here(s: StateModel, row: RowModel, thread: Text, post: Text, found: Seq<Text>) -> bool {
    &&& row.thread_id == thread
    &&& row.post_id == post
    &&& !suppressed(s, row.thread_id, row.post_id, row.version_id)
    &&& found.contains(row.version_id)
}

/// A post that cannot travel is marked only in a known thread, only while it
/// is neither deleted nor here. What is known of its kind is refined, never
/// lost or replaced.
pub open spec fn marking(
    s: StateModel,
    p: UnavailableModel,
    found: Seq<Text>,
    old: Option<PlaceModel>,
) -> MarkingModel {
    if !s.records.contains_key(tkey(p.thread_id)) || logical_deleted(s, p.thread_id, p.post_id) {
        MarkingModel::Nothing
    } else if is_here(s, p.thread_id, p.post_id, found) {
        MarkingModel::Clear
    } else {
        let fresh = PlaceModel { post: p.post_id, reason: p.reason, kind: p.kind };
        match old {
            None => MarkingModel::Write(fresh),
            Some(o) => if o.kind is Some && p.kind is Some && o.kind != p.kind {
                MarkingModel::Conflict(
                    IssueModel {
                        code: "unavailable_kind_mismatch"@,
                        thread: Some(p.thread_id),
                        post: Some(p.post_id),
                    },
                )
            } else if o.kind is Some || p.kind is None {
                MarkingModel::Nothing
            } else {
                MarkingModel::Write(fresh)
            },
        }
    }
}

fn here(state: &SyncState, thread: &str, post: &str, found: &Vec<String>) -> (r: bool)
    requires
        state.wf(),
    ensures
        r == is_here(state@, thread@, post@, texts(found@)),
{
    let v = &state.ledger.entries;
    let ghost f = texts(found@);
    let mut i: usize = 0;
    while i < v.len()
        invariant
            state.wf(),
            v == state.ledger.entries,
            f == texts(found@),
            i <= v@.len(),
            forall|j: int| 0 <= j < i ==> !row_is_here(state@, (#[trigger] v@[j]).1@, thread@, post@, f),
        decreases v@.len() - i,
    {
        let row = &v[i].1;
        if same(&row.thread_id, thread) && same(&row.post_id, post) && !state.suppressed(
            &row.thread_id,
            &row.post_id,
            &row.version_id,
        ) && holds(found, &row.version_id) {
            proof {
                lemma_at(state.ledger, i as int);
                assert(state@.ledger.contains_key(tkey(v@[i as int].0@)));
            }
            return true;
        }
        i += 1;
    }
    proof {
        if is_here(state@, thread@, post@, f) {
            let k = choose|k: Parts|
                #[trigger] state@.ledger.contains_key(k) && row_is_here(
                    state@,
                    state@.ledger[k],
                    thread@,
                    post@,
                    f,
                );
            let j = lemma_found(state.ledger, k);
            assert(!row_is_here(state@, v@[j].1@, thread@, post@, f));
        }
    }
    false
}

/// What reading a marker gave: nothing where there is none, or what went wrong.
pub open spec fn marker_reading(r: Result<Option<UnavailableView>, String>) -> Result<Option<PlaceModel>, Text> {
    match r {
        Ok(v) => Ok(opt_place(v)),
        Err(e) => Err(e@),
    }
}

/// The marker that is known; one that cannot be read is none.
pub open spec fn known_marker(r: Result<Option<PlaceModel>, Text>) -> Option<PlaceModel> {
    match r {
        Ok(v) => v,
        Err(_) => None,
    }
}

/// Why a post cannot be marked. Its marker matters only in a known thread, and
/// only while the post is neither deleted nor here.
pub open spec fn marking_fault(
    s: StateModel,
    p: UnavailableModel,
    found: Seq<Text>,
    old: Result<Option<PlaceModel>, Text>,
) -> Option<Text> {
    if !is_unavailable(p) {
        Some("invalid_unavailable_post"@)
    } else if !s.records.contains_key(tkey(p.thread_id)) || logical_deleted(s, p.thread_id, p.post_id) || is_here(
        s,
        p.thread_id,
        p.post_id,
        found,
    ) {
        None
    } else {
        match old {
            Ok(_) => None,
            Err(e) => Some(e),
        }
    }
}

/// Decide what to do about a post that another device cannot send. `found`
/// are the versions whose files are here unchanged, `old_marker` is what
/// reading its marker gave.
pub fn mark_unavailable(
    state: &SyncState,
    post: &UnavailablePost,
    found: &Vec<String>,
    old_marker: &Result<Option<UnavailableView>, String>,
) -> (r: Result<Marking, String>)
    requires
        state.wf(),
    ensures
        ({
            let old_reading = marker_reading(*old_marker);
            match marking_fault(state@, post@, texts(found@), old_reading) {
                Some(e) => r is Err && r->Err_0@ == e,
                None => r is Ok && r->Ok_0@ == marking(state@, post@, texts(found@), known_marker(old_reading)),
            }
        }),
{
    if !post.valid() {
        return Err(own("invalid_unavailable_post"));
    }
    if !state.thread_records.has(&post.thread_id) || state.logical_deleted(&post.thread_id, &post.post_id) {
        return Ok(Marking::Nothing);
    }
    if here(state, &post.thread_id, &post.post_id, found) {
        return Ok(Marking::Clear);
    }
    let known = match old_marker {
        Ok(v) => v,
        Err(e) => {
            return Err(e.clone());
        },
    };
    if let Some(o) = known {
        if o.kind.is_some() && post.kind.is_some() && !same_opt(&o.kind, &post.kind) {
            return Ok(
                Marking::Conflict(issue("unavailable_kind_mismatch", &post.thread_id, Some(post.post_id.as_str()))),
            );
        }
        if o.kind.is_some() || post.kind.is_none() {
            return Ok(Marking::Nothing);
        }
    }
    Ok(
        Marking::Write(
            UnavailableView { post_id: post.post_id.clone(), reason: post.reason, kind: copy_opt(&post.kind) },
        ),
    )
}

// --------------------------------------------------------------------- views

/// A file among the markers, and the marker in it.
pub struct MarkerEntry {
    pub name: String,
    pub marker: Option<UnavailableView>,
}

pub struct EntryModel {
    pub name: Text,
    pub marker: Option<PlaceModel>,
}

pub open spec fn marker_models(s: Seq<MarkerEntry>) -> Seq<EntryModel> {
    s.map_values(|e: MarkerEntry| EntryModel { name: e.name@, marker: opt_place(e.marker) })
}

/// The post that a marker's file names.
pub open spec fn marked_post(name: Text) -> Option<Text> {
    if ends(name, ".json"@) {
        Some(name.take(name.len() - ".json"@.len()))
    } else {
        None
    }
}

/// A marker is shown unless its post is here or deleted.
pub open spec fn is_shown(s: StateModel, thread: Text, present: Set<Parts>, e: EntryModel) -> bool {
    &&& e.marker is Some
    &&& marked_post(e.name) matches Some(id) && is_safe_id(id) && !present.contains(tkey(id)) && !logical_deleted(
        s,
        thread,
        id,
    )
}

pub open spec fn shown_markers(s: StateModel, thread: Text, present: Set<Parts>, entries: Seq<EntryModel>) -> Seq<PlaceModel>
    decreases entries.len(),
{
    if entries.len() == 0 {
        Seq::empty()
    } else {
        let rest = shown_markers(s, thread, present, entries.drop_last());
        if is_shown(s, thread, present, entries.last()) {
            rest.push(entries.last().marker->0)
        } else {
            rest
        }
    }
}

pub open spec fn place_rank_fn() -> spec_fn(PlaceModel) -> Parts {
    |p: PlaceModel| tkey(p.post)
}

impl Ranked for UnavailableView {
    open spec fn rank(&self) -> Parts {
        tkey(self@.post)
    }

    fn rank_before(&self, other: &Self) -> (r: bool) {
        proof {
            reveal_with_fuel(parts_lt, 2);
            assert(tkey(self@.post).drop_first() =~= Seq::<Text>::empty());
            assert(tkey(other@.post).drop_first() =~= Seq::<Text>::empty());
        }
        if same(&self.post_id, &other.post_id) {
            return false;
        }
        before(&self.post_id, &other.post_id)
    }
}

/// The posts of a thread that are shown only by their place, in order.
pub open spec fn places(s: StateModel, thread: Text, present: Set<Parts>, entries: Seq<EntryModel>) -> Seq<PlaceModel> {
    if thread_deleted(s, thread) {
        Seq::empty()
    } else {
        sorted_by(shown_markers(s, thread, present, entries), place_rank_fn())
    }
}

pub fn unavailable_views(
    state: &SyncState,
    thread: &str,
    real_posts: &OrderedSet<String>,
    entries: &Vec<MarkerEntry>,
) -> (r: Vec<UnavailableView>)
    requires
        state.wf(),
        real_posts.wf(),
    ensures
        place_models(r@) == places(state@, thread@, real_posts@, marker_models(entries@)),
{
    let mut out: Vec<UnavailableView> = Vec::new();
    assert(place_models(out@) =~= Seq::empty());
    if state.thread_deleted(thread) {
        return out;
    }
    let ghost all = marker_models(entries@);
    let mut i: usize = 0;
    while i < entries.len()
        invariant
            state.wf(),
            real_posts.wf(),
            all == marker_models(entries@),
            i <= entries@.len(),
            place_models(out@) == shown_markers(state@, thread@, real_posts@, all.take(i as int)),
        decreases entries@.len() - i,
    {
        let ghost was = out@;
        let e = &entries[i];
        assert(all.take(i + 1).drop_last() =~= all.take(i as int));
        assert(all.take(i + 1).last() == all[i as int]);
        assert(all[i as int] == (EntryModel { name: e.name@, marker: opt_place(e.marker) }));
        if let Some(id) = strip_back(&e.name, ".json") {
            assert(marked_post(e.name@) == Some(id@));
            if safe_id(&id) && !real_posts.has(&id) && !state.logical_deleted(thread, &id) {
                if let Some(v) = &e.marker {
                    out.push(v.copy());
                    assert(place_models(out@) =~= place_models(was).push(v@));
                }
            }
        }
        i += 1;
    }
    assert(all.take(i as int) =~= all);
    let ghost list = out@;
    let sorted = stable_sort(out);
    proof {
        let f = |v: UnavailableView| v@;
        assert forall|v: UnavailableView| #[trigger] rank_fn::<UnavailableView>()(v) == place_rank_fn()(f(v)) by {}
        lemma_sorted_map(list, f, rank_fn::<UnavailableView>(), place_rank_fn());
        assert(place_models(sorted@) =~= sorted@.map_values(f));
        assert(place_models(list) =~= list.map_values(f));
    }
    sorted
}

// --------------------------------------------------------------- eligibility

/// How much of a file is read to see whether it may travel.
pub const HEADER_LIMIT: usize = 65545;

/// What the beginning of a file shows.
pub enum Header {
    /// More has to be read.
    More,
    /// The frontmatter ends here, counted from its beginning.
    Ends(usize),
    TooLarge,
}

pub open spec fn opens(raw: Seq<u8>) -> bool {
    raw.len() >= 4 && raw[0] == 45 && raw[1] == 45 && raw[2] == 45 && raw[3] == 10
}

/// Where the first line of dashes stands behind the first one.
fn mark_after(prefix: &Vec<u8>) -> (r: Option<usize>)
    requires
        prefix@.len() >= 4,
    ensures
        r matches Some(n) ==> first_mark(prefix@.skip(4), n as int),
        r is None ==> forall|j: int| !#[trigger] mark_at(prefix@.skip(4), j),
{
    let n = prefix.len();
    let ghost rest = prefix@.skip(4);
    if n >= 9 {
        let mut i: usize = 4;
        while i <= n - 5
            invariant
                n == prefix@.len(),
                n >= 9,
                rest == prefix@.skip(4),
                4 <= i <= n - 4,
                forall|j: int| 0 <= j < i - 4 ==> !#[trigger] mark_at(rest, j),
            decreases n - i,
        {
            assert(rest[i - 4] == prefix@[i as int]);
            assert(rest[i - 3] == prefix@[i + 1]);
            assert(rest[i - 2] == prefix@[i + 2]);
            assert(rest[i - 1] == prefix@[i + 3]);
            assert(rest[i as int] == prefix@[i + 4]);
            if prefix[i] == 10 && prefix[i + 1] == 45 && prefix[i + 2] == 45 && prefix[i + 3] == 45 && prefix[i + 4] == 10 {
                assert(mark_at(rest, i - 4));
                return Some(i - 4);
            }
            assert(!mark_at(rest, i - 4));
            i += 1;
        }
    }
    assert(forall|j: int| !#[trigger] mark_at(rest, j));
    None
}

fn opening(prefix: &Vec<u8>) -> (r: bool)
    ensures
        r == opens(prefix@),
{
    prefix.len() >= 4 && prefix[0] == 45 && prefix[1] == 45 && prefix[2] == 45 && prefix[3] == 10
}

/// What the beginning of a file shows: a post begins with a line of dashes,
/// and its frontmatter ends with another one.
pub fn inspect_header(prefix: &Vec<u8>, at_end: bool) -> (r: Result<Header, String>)
    ensures
        ({
            let raw = prefix@;
            if raw.len() >= 4 && !opens(raw) {
                r is Err
            } else if raw.len() >= 4 && exists|i: int| #[trigger] mark_at(raw.skip(4), i) {
                r matches Ok(Header::Ends(n)) && first_mark(raw.skip(4), n as int)
            } else if raw.len() == HEADER_LIMIT {
                r matches Ok(Header::TooLarge)
            } else if at_end {
                r is Err
            } else {
                r matches Ok(Header::More)
            }
        }),
        r matches Err(e) ==> e@ == "invalid_sync_frontmatter"@,
{
    let n = prefix.len();
    if n >= 4 {
        if !opening(prefix) {
            return Err(own("invalid_sync_frontmatter"));
        }
        if let Some(i) = mark_after(prefix) {
            return Ok(Header::Ends(i));
        }
    }
    if n == HEADER_LIMIT {
        return Ok(Header::TooLarge);
    }
    if at_end {
        return Err(own("invalid_sync_frontmatter"));
    }
    Ok(Header::More)
}

/// What the beginning of a known post shows, when only its frontmatter is
/// wanted: where that ends, or nothing until more was read.
pub fn inspect_relation(prefix: &Vec<u8>, at_end: bool) -> (r: Result<Option<usize>, String>)
    ensures
        ({
            let raw = prefix@;
            if !opens(raw) {
                r is Err
            } else if exists|i: int| #[trigger] mark_at(raw.skip(4), i) {
                exists|i: int| #[trigger] first_mark(raw.skip(4), i) && (if i > MAX_FRONTMATTER_BYTES {
                    r is Err
                } else {
                    r matches Ok(Some(n)) && n == i
                })
            } else if at_end || raw.len() > MAX_FRONTMATTER_BYTES + 9 {
                r is Err
            } else {
                r matches Ok(None)
            }
        }),
        r matches Err(e) ==> e@ == "invalid_post_relationship"@,
{
    if !opening(prefix) {
        return Err(own("invalid_post_relationship"));
    }
    match mark_after(prefix) {
        Some(i) => {
            assert(first_mark(prefix@.skip(4), i as int));
            if i > MAX_FRONTMATTER_BYTES {
                return Err(own("invalid_post_relationship"));
            }
            Ok(Some(i))
        },
        None => {
            if at_end || prefix.len() > MAX_FRONTMATTER_BYTES + 9 {
                return Err(own("invalid_post_relationship"));
            }
            Ok(None)
        },
    }
}

pub open spec fn opt_meta(m: Option<BbsPostMeta>) -> Option<PostModel> {
    match m {
        Some(x) => Some(x@),
        None => None,
    }
}

/// Whether a file can travel. `meta` is its frontmatter, unless that is too
/// large: then its kind is left to what is known otherwise.
pub open spec fn eligibility(
    thread: Text,
    post: Text,
    len: u64,
    meta: Option<PostModel>,
    known_kind: Option<Text>,
) -> Result<Option<UnavailableModel>, Text> {
    match meta {
        Some(m) if shared_fault(m, thread, post) is Some => Err(shared_fault(m, thread, post)->0),
        _ => {
            let kind = match meta {
                Some(m) => Some(m.kind),
                None => known_kind,
            };
            let p = UnavailableModel { thread_id: thread, post_id: post, reason: UnavailableReason::TooLargeToSync, kind };
            if len <= MAX_BODY_BYTES && meta is Some {
                Ok(None)
            } else if is_unavailable(p) {
                Ok(Some(p))
            } else {
                Err("invalid_unavailable_post"@)
            }
        },
    }
}

pub open spec fn eligibility_result(r: Result<Option<UnavailablePost>, String>) -> Result<Option<UnavailableModel>, Text> {
    match r {
        Ok(Some(x)) => Ok(Some(x@)),
        Ok(None) => Ok(None),
        Err(e) => Err(e@),
    }
}

/// A file that cannot travel because of its size, or of that of its
/// frontmatter.
pub fn ineligible_file(
    thread: &str,
    post: &str,
    len: u64,
    meta: &Option<BbsPostMeta>,
    known_kind: &Option<String>,
) -> (r: Result<Option<UnavailablePost>, String>)
    ensures
        eligibility_result(r) == eligibility(thread@, post@, len, opt_meta(*meta), opt_text(*known_kind)),
{
    let kind = match meta {
        Some(m) => {
            match validate_post_meta(m, thread, post) {
                Ok(_) => {},
                Err(e) => {
                    return Err(e);
                },
            }
            Some(m.kind.clone())
        },
        None => copy_opt(known_kind),
    };
    if len <= MAX_BODY_BYTES && meta.is_some() {
        return Ok(None);
    }
    let item = UnavailablePost {
        thread_id: own(thread),
        post_id: own(post),
        reason: UnavailableReason::TooLargeToSync,
        kind,
    };
    if !item.valid() {
        return Err(own("invalid_unavailable_post"));
    }
    Ok(Some(item))
}

// ---------------------------------------------------------------------- laws

/// What is known of a post's kind is never lost: a marker is only written
/// over one without a kind, and then with one.
pub proof fn kinds_are_only_refined(s: StateModel, p: UnavailableModel, found: Seq<Text>, old: Option<PlaceModel>)
    ensures
        old matches Some(o) ==> (marking(s, p, found, old) matches MarkingModel::Write(w) ==> o.kind is None && w.kind
            is Some),
{
}

/// Neither a deleted post nor one that is here is ever marked.
pub proof fn only_absent_posts_are_marked(s: StateModel, p: UnavailableModel, found: Seq<Text>, old: Option<PlaceModel>)
    ensures
        marking(s, p, found, old) is Write ==> !logical_deleted(s, p.thread_id, p.post_id) && !is_here(
            s,
            p.thread_id,
            p.post_id,
            found,
        ),
{
}

/// What becomes of a post that another device cannot send. In a known thread, if
/// it is neither deleted nor here, it is marked with what is known of it; a
/// contradiction between kinds is told; nothing is written twice.
pub proof fn an_absent_post_is_marked(s: StateModel, p: UnavailableModel, found: Seq<Text>, old: Option<PlaceModel>)
    ensures
        ({
            let m = marking(s, p, found, old);
            let known = s.records.contains_key(tkey(p.thread_id)) && !logical_deleted(s, p.thread_id, p.post_id);
            let here = is_here(s, p.thread_id, p.post_id, found);
            &&& !known ==> m is Nothing
            &&& known && here ==> m is Clear
            &&& known && !here && old is None ==> (m matches MarkingModel::Write(v) && v.post == p.post_id && v.kind == p.kind
                && v.reason == p.reason)
            &&& known && !here && (old matches Some(o) && o.kind is Some && p.kind is Some && o.kind != p.kind) ==> (m
                matches MarkingModel::Conflict(i) && i.code == "unavailable_kind_mismatch"@ && i.thread == Some(p.thread_id)
                && i.post == Some(p.post_id))
            &&& known && !here && (old matches Some(o) && (o.kind == p.kind || p.kind is None)) ==> m is Nothing
            &&& known && !here && (old matches Some(o) && o.kind is None) && p.kind is Some ==> (m
                matches MarkingModel::Write(v) && v.post == p.post_id && v.kind == p.kind)
        }),
{
}

/// A post is here exactly if the ledger has an undeleted version of it whose
/// file was found.
pub proof fn a_post_is_here_by_an_undeleted_version(s: StateModel, thread: Text, post: Text, found: Seq<Text>, k: Parts)
    ensures
        s.ledger.contains_key(k) && s.ledger[k].thread_id == thread && s.ledger[k].post_id == post && !suppressed(
            s,
            thread,
            post,
            s.ledger[k].version_id,
        ) && found.contains(s.ledger[k].version_id) ==> is_here(s, thread, post, found),
        is_here(s, thread, post, found) ==> exists|l: Parts|
            #[trigger] s.ledger.contains_key(l) && s.ledger[l].thread_id == thread && s.ledger[l].post_id == post
                && !suppressed(s, thread, post, s.ledger[l].version_id) && found.contains(s.ledger[l].version_id),
{
    if s.ledger.contains_key(k) && s.ledger[k].thread_id == thread && s.ledger[k].post_id == post && !suppressed(
        s,
        thread,
        post,
        s.ledger[k].version_id,
    ) && found.contains(s.ledger[k].version_id) {
        assert(row_is_here(s, s.ledger[k], thread, post, found));
    }
    if is_here(s, thread, post, found) {
        let l = choose|l: Parts|
            #[trigger] s.ledger.contains_key(l) && row_is_here(s, s.ledger[l], thread, post, found);
        assert(s.ledger.contains_key(l));
    }
}

proof fn lemma_shown_markers(s: StateModel, thread: Text, present: Set<Parts>, entries: Seq<EntryModel>, v: PlaceModel)
    ensures
        shown_markers(s, thread, present, entries).contains(v) <==> exists|i: int|
            0 <= i < entries.len() && is_shown(s, thread, present, #[trigger] entries[i]) && entries[i].marker == Some(v),
    decreases entries.len(),
{
    let out = shown_markers(s, thread, present, entries);
    if entries.len() > 0 {
        let head = entries.drop_last();
        lemma_shown_markers(s, thread, present, head, v);
        let rest = shown_markers(s, thread, present, head);
        assert(entries[entries.len() - 1] == entries.last());
        if rest.contains(v) {
            let j = choose|j: int| 0 <= j < rest.len() && rest[j] == v;
            assert(out[j] == v);
            let i = choose|i: int|
                0 <= i < head.len() && is_shown(s, thread, present, #[trigger] head[i]) && head[i].marker == Some(v);
            assert(entries[i] == head[i]);
        }
        if out.contains(v) && !rest.contains(v) {
            let j = choose|j: int| 0 <= j < out.len() && out[j] == v;
            if j < rest.len() {
                assert(rest[j] == v);
            }
        }
        if exists|i: int|
            0 <= i < entries.len() && is_shown(s, thread, present, #[trigger] entries[i]) && entries[i].marker == Some(v) {
            let i = choose|i: int|
                0 <= i < entries.len() && is_shown(s, thread, present, #[trigger] entries[i]) && entries[i].marker == Some(
                    v,
                );
            if i < head.len() {
                assert(head[i] == entries[i]);
            } else {
                assert(out[rest.len() as int] == v);
            }
        }
    }
}

/// A thread shows a place for every marked post that is neither here nor
/// deleted, and no other; a deleted thread shows none.
pub proof fn every_absent_post_has_a_place(
    s: StateModel,
    thread: Text,
    present: Set<Parts>,
    entries: Seq<EntryModel>,
    v: PlaceModel,
)
    ensures
        thread_deleted(s, thread) ==> places(s, thread, present, entries).len() == 0,
        !thread_deleted(s, thread) ==> (places(s, thread, present, entries).contains(v) <==> exists|i: int|
            0 <= i < entries.len() && (#[trigger] entries[i]).marker == Some(v) && (marked_post(entries[i].name) matches Some(
                id,
            ) && is_safe_id(id) && !present.contains(tkey(id)) && !logical_deleted(s, thread, id))),
{
    if !thread_deleted(s, thread) {
        let shown = shown_markers(s, thread, present, entries);
        sorting_orders_and_keeps(shown, place_rank_fn());
        let out = sorted_by(shown, place_rank_fn());
        vstd::seq_lib::to_multiset_contains(shown, v);
        vstd::seq_lib::to_multiset_contains(out, v);
        lemma_shown_markers(s, thread, present, entries, v);
        if exists|i: int|
            0 <= i < entries.len() && (#[trigger] entries[i]).marker == Some(v) && (marked_post(entries[i].name) matches Some(
                id,
            ) && is_safe_id(id) && !present.contains(tkey(id)) && !logical_deleted(s, thread, id)) {
            let i = choose|i: int|
                0 <= i < entries.len() && (#[trigger] entries[i]).marker == Some(v) && (marked_post(
                    entries[i].name,
                ) matches Some(id) && is_safe_id(id) && !present.contains(tkey(id)) && !logical_deleted(s, thread, id));
            assert(is_shown(s, thread, present, entries[i]));
        }
    }
}

/// The file of a marker is named after its post.
pub proof fn a_marker_is_named_after_its_post(name: Text, id: Text)
    ensures
        marked_post(name) == Some(id) <==> name == id + ".json"@,
{
    let e = ".json"@;
    if name == id + e {
        assert(name.take(name.len() - e.len()) =~= id);
        assert(name.skip(name.len() - e.len()) =~= e);
    }
    if marked_post(name) == Some(id) {
        assert(name =~= name.take(name.len() - e.len()) + name.skip(name.len() - e.len()));
    }
}

/// A file travels exactly if its frontmatter can be read and it has at most
/// 8 MiB; a larger one is told with its kind.
pub proof fn a_file_travels_up_to_its_limit(
    thread: Text,
    post: Text,
    len: u64,
    m: PostModel,
    known_kind: Option<Text>,
)
    requires
        shared_fault(m, thread, post) is None,
    ensures
        eligibility(thread, post, len, Some(m), known_kind) == Ok::<Option<UnavailableModel>, Text>(None) <==> len <= 8388608,
        len > 8388608 ==> (eligibility(thread, post, len, Some(m), known_kind) matches Ok(Some(u)) ==> u.thread_id == thread
            && u.post_id == post && u.kind == Some(m.kind)),
        eligibility(thread, post, len, None, known_kind) matches Ok(r) ==> (r matches Some(u) && u.thread_id == thread
            && u.post_id == post && u.kind == known_kind),
{
}

/// A stored marker is read only as one of its own post, of the first schema.
pub proof fn only_an_own_marker_is_read(thread: Text, post: Text, schema: u32, m: PlaceModel)
    ensures
        marker_fault(thread, post, schema, m) is None <==> schema == 1 && m.post == post && is_safe_id(thread) && is_safe_id(
            post,
        ) && (m.kind matches Some(k) ==> k == "topic"@ || k == "reply"@),
{
}

} // verus!
