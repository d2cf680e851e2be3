//! Threads and the board: which posts a thread shows and in what order, which
//! threads there are, and what a project has dealt with.
use vstd::prelude::*;
use crate::bbs::names::{file_id, sanitize_id};
use crate::bbs::sync::model::{is_kind, known_kind, tkey};
use crate::bbs::types::{post_models, BbsBoardIndex, BbsProjectState, BbsSeenPost, BbsThreadMeta, BOARD_SCHEMA};
use crate::bbs::types::{LoadedModel, LoadedPost, THREAD_SCHEMA, ThreadModel};
use crate::ids::{is_component, safe_component};
use crate::order::{parts_lt, Key, OrderedMap, Parts};
use crate::outside::now_iso;
use crate::shim::{below, path_below};
use crate::sort::{in_order, lemma_sorted_map, rank_fn, sorted_by, sorting_orders_and_keeps, stable_sort, Ranked};
use crate::text::{before, blank, dedup, dedup_onto, holds, opt_text, own, plus, same, texts, trimmed, Text};
use crate::order::the_first_part_that_differs_decides;
use crate::text::{lemma_text_lt_irreflexive, lemma_text_lt_total, text_lt};
use crate::text::dedup_keeps_each_text_once;

verus! {

// ------------------------------------------------------------------- reading

/// The metadata of a thread as it was read.
pub open spec fn thread_meta_fault(path: Text, meta: Result<ThreadModel, Text>) -> Option<Text> {
    match meta {
        Err(e) => Some(e),
        Ok(m) => if m.schema != THREAD_SCHEMA@ {
            Some("unsupported BBS thread schema in "@ + path)
        } else {
            None
        },
    }
}

pub open spec fn thread_model(m: Result<BbsThreadMeta, String>) -> Result<ThreadModel, Text> {
    match m {
        Ok(x) => Ok(x@),
        Err(e) => Err(e@),
    }
}

/// Read the metadata of a thread. `meta` is what the parser reads from the
/// file.
pub fn read_thread_meta(path: &str, meta: Result<BbsThreadMeta, String>) -> (r: Result<BbsThreadMeta, String>)
    ensures
        r is Err == thread_meta_fault(path@, thread_model(meta)) is Some,
        r matches Err(e) ==> thread_meta_fault(path@, thread_model(meta)) == Some(e@),
        r matches Ok(m) ==> meta == Ok::<BbsThreadMeta, String>(m),
{
    match meta {
        Err(e) => Err(e),
        Ok(m) => {
            if !same(&m.schema, THREAD_SCHEMA) {
                return Err(plus("unsupported BBS thread schema in ", path));
            }
            Ok(m)
        },
    }
}

/// A file that may hold a post, and the post that it holds.
pub struct FoundPost {
    /// The post that the file's place names.
    pub post: String,
    pub loaded: Option<LoadedPost>,
}

pub struct FoundModel {
    pub post: Text,
    pub loaded: Option<LoadedModel>,
}

impl View for FoundPost {
    type V = FoundModel;

    open spec fn view(&self) -> FoundModel {
        FoundModel {
            post: self.post@,
            loaded: match self.loaded {
                Some(p) => Some(p@),
                None => None,
            },
        }
    }
}

pub open spec fn found_models(s: Seq<FoundPost>) -> Seq<FoundModel> {
    s.map_values(|f: FoundPost| f@)
}

/// The file holds a post of this thread, and the one that its place names.
pub open spec fn in_place(thread: Text, f: FoundModel) -> bool {
    f.loaded matches Some(p) && p.meta.thread_id == thread && p.meta.post_id == f.post && is_kind(p.meta.kind)
}

/// The posts that lie in their place.
pub open spec fn readable(thread: Text, s: Seq<FoundModel>) -> Seq<LoadedModel>
    decreases s.len(),
{
    if s.len() == 0 {
        Seq::empty()
    } else {
        let rest = readable(thread, s.drop_last());
        if in_place(thread, s.last()) {
            rest.push(s.last().loaded->0)
        } else {
            rest
        }
    }
}

/// Posts are ordered by time, then by name, then by version.
pub open spec fn post_rank(p: LoadedModel) -> Parts {
    seq![p.meta.created_at, p.meta.post_id, p.version]
}

pub open spec fn post_rank_fn() -> spec_fn(LoadedModel) -> Parts {
    |p: LoadedModel| post_rank(p)
}

impl Ranked for LoadedPost {
    open spec fn rank(&self) -> Parts {
        post_rank(self@)
    }

    fn rank_before(&self, other: &Self) -> (r: bool) {
        let ghost a = post_rank(self@);
        let ghost b = post_rank(other@);
        proof {
            reveal_with_fuel(parts_lt, 4);
            assert(a.drop_first() =~= seq![a[1], a[2]]);
            assert(b.drop_first() =~= seq![b[1], b[2]]);
            assert(a.drop_first().drop_first() =~= seq![a[2]]);
            assert(b.drop_first().drop_first() =~= seq![b[2]]);
            assert(a.drop_first().drop_first().drop_first() =~= Seq::<Text>::empty());
            assert(b.drop_first().drop_first().drop_first() =~= Seq::<Text>::empty());
        }
        if !same(&self.meta.created_at, &other.meta.created_at) {
            return before(&self.meta.created_at, &other.meta.created_at);
        }
        if !same(&self.meta.post_id, &other.meta.post_id) {
            return before(&self.meta.post_id, &other.meta.post_id);
        }
        !same(&self.version_id, &other.version_id) && before(&self.version_id, &other.version_id)
    }
}

/// The topic of a thread: the first post that is one.
pub open spec fn topic_of(s: Seq<LoadedModel>) -> Option<Text>
    decreases s.len(),
{
    if s.len() == 0 {
        None
    } else if s[0].meta.kind == "topic"@ {
        Some(s[0].meta.post_id)
    } else {
        topic_of(s.drop_first())
    }
}

pub open spec fn has_version(s: Seq<LoadedModel>, post: Text, version: Text) -> bool {
    exists|i: int| 0 <= i < s.len() && (#[trigger] s[i]).meta.post_id == post && s[i].version == version
}

/// Without other topics and without repetitions.
pub open spec fn single_topic(s: Seq<LoadedModel>, topic: Option<Text>) -> Seq<LoadedModel>
    decreases s.len(),
{
    if s.len() == 0 {
        Seq::empty()
    } else {
        let rest = single_topic(s.drop_last(), topic);
        let p = s.last();
        if (p.meta.kind != "topic"@ || topic == Some(p.meta.post_id)) && !has_version(rest, p.meta.post_id, p.version) {
            rest.push(p)
        } else {
            rest
        }
    }
}

/// The posts of a thread, in order.
pub open spec fn thread_posts(thread: Text, s: Seq<FoundModel>) -> Seq<LoadedModel> {
    let all = sorted_by(readable(thread, s), post_rank_fn());
    single_topic(all, topic_of(all))
}

/// The first post with an identifier among those written at a time.
pub open spec fn written_at(s: Seq<LoadedModel>, post: Text, at: Text) -> bool {
    exists|i: int| 0 <= i < s.len() && (#[trigger] s[i]).meta.post_id == post && s[i].meta.created_at == at
}

/// The metadata of a thread with its newest post. Times are whole seconds, so
/// among posts of the newest second the one that is recorded stays.
pub open spec fn repaired(m: ThreadModel, posts: Seq<LoadedModel>) -> ThreadModel {
    if posts.len() == 0 {
        m
    } else {
        let newest = posts.last();
        ThreadModel {
            latest_post_id: if written_at(posts, m.latest_post_id, newest.meta.created_at) {
                m.latest_post_id
            } else {
                newest.meta.post_id
            },
            updated_at: newest.meta.created_at,
            ..m
        }
    }
}

pub open spec fn thread_fault(thread: Text, meta: Result<ThreadModel, Text>) -> Option<Text> {
    if !is_component(thread) {
        Some("invalid BBS thread id"@)
    } else {
        match meta {
            Err(e) => Some(e),
            Ok(m) => if m.thread_id != thread {
                Some("BBS thread metadata ID mismatch"@)
            } else {
                None
            },
        }
    }
}

/// A thread as it is shown.
pub open spec fn loaded_thread(thread: Text, meta: Result<ThreadModel, Text>, found: Seq<FoundModel>) -> Result<
    (ThreadModel, Seq<LoadedModel>),
    Text,
> {
    match thread_fault(thread, meta) {
        Some(e) => Err(e),
        None => {
            let posts = thread_posts(thread, found);
            Ok((repaired(meta->Ok_0, posts), posts))
        },
    }
}

pub open spec fn thread_result(r: Result<(BbsThreadMeta, Vec<LoadedPost>), String>) -> Result<
    (ThreadModel, Seq<LoadedModel>),
    Text,
> {
    match r {
        Ok(t) => Ok((t.0@, post_models(t.1@))),
        Err(e) => Err(e@),
    }
}

fn pick_readable(thread: &str, found: Vec<FoundPost>) -> (r: Vec<LoadedPost>)
    ensures
        post_models(r@) == readable(thread@, found_models(found@)),
{
    let ghost all = found_models(found@);
    let ghost whole = found@;
    let ghost mut n: int = 0;
    let mut rest = found;
    let mut out: Vec<LoadedPost> = Vec::new();
    assert(whole.skip(0) =~= whole);
    assert(post_models(out@) =~= Seq::empty());
    while rest.len() > 0
        invariant
            all == found_models(whole),
            0 <= n <= whole.len(),
            rest@ == whole.skip(n),
            post_models(out@) == readable(thread@, all.take(n)),
        decreases rest@.len(),
    {
        let f = rest.remove(0);
        let ghost was = out@;
        proof {
            assert(f == whole[n]);
            assert(rest@ =~= whole.skip(n + 1));
            assert(all.take(n + 1).drop_last() =~= all.take(n));
            assert(all.take(n + 1).last() == f@);
            n = n + 1;
        }
        if let Some(p) = f.loaded {
            if same(&p.meta.thread_id, thread) && same(&p.meta.post_id, &f.post) && known_kind(&p.meta.kind) {
                out.push(p);
                assert(post_models(out@) =~= post_models(was).push(p@));
            }
        }
    }
    assert(all.take(n) =~= all);
    out
}

fn find_topic(posts: &Vec<LoadedPost>) -> (r: Option<String>)
    ensures
        crate::text::opt_text(r) == topic_of(post_models(posts@)),
{
    let ghost all = post_models(posts@);
    let mut i: usize = 0;
    assert(all.skip(0) =~= all);
    while i < posts.len()
        invariant
            all == post_models(posts@),
            i <= posts@.len(),
            topic_of(all) == topic_of(all.skip(i as int)),
        decreases posts@.len() - i,
    {
        let ghost rest = all.skip(i as int);
        assert(rest[0] == posts@[i as int]@);
        assert(rest.drop_first() =~= all.skip(i + 1));
        if same(&posts[i].meta.kind, "topic") {
            return Some(posts[i].meta.post_id.clone());
        }
        i += 1;
    }
    None
}

fn version_listed(posts: &Vec<LoadedPost>, post: &str, version: &str) -> (r: bool)
    ensures
        r == has_version(post_models(posts@), post@, version@),
{
    let mut i: usize = 0;
    while i < posts.len()
        invariant
            i <= posts@.len(),
            forall|j: int|
                0 <= j < i ==> !((#[trigger] posts@[j])@.meta.post_id == post@ && posts@[j]@.version == version@),
        decreases posts@.len() - i,
    {
        if same(&posts[i].meta.post_id, post) && same(&posts[i].version_id, version) {
            assert(post_models(posts@)[i as int].meta.post_id == post@);
            return true;
        }
        i += 1;
    }
    assert forall|j: int| 0 <= j < posts@.len() implies !((#[trigger] post_models(posts@)[j]).meta.post_id == post@
        && post_models(posts@)[j].version == version@) by {
        assert(posts@[j]@ == post_models(posts@)[j]);
    }
    false
}

fn keep_single_topic(posts: Vec<LoadedPost>, topic: &Option<String>) -> (r: Vec<LoadedPost>)
    ensures
        post_models(r@) == single_topic(post_models(posts@), crate::text::opt_text(*topic)),
{
    let ghost all = post_models(posts@);
    let ghost whole = posts@;
    let ghost t = crate::text::opt_text(*topic);
    let ghost mut n: int = 0;
    let mut rest = posts;
    let mut out: Vec<LoadedPost> = Vec::new();
    assert(whole.skip(0) =~= whole);
    assert(post_models(out@) =~= Seq::empty());
    while rest.len() > 0
        invariant
            all == post_models(whole),
            t == crate::text::opt_text(*topic),
            0 <= n <= whole.len(),
            rest@ == whole.skip(n),
            post_models(out@) == single_topic(all.take(n), t),
        decreases rest@.len(),
    {
        let p = rest.remove(0);
        let ghost was = out@;
        proof {
            assert(p == whole[n]);
            assert(rest@ =~= whole.skip(n + 1));
            assert(all.take(n + 1).drop_last() =~= all.take(n));
            assert(all.take(n + 1).last() == p@);
            n = n + 1;
        }
        let allowed = !same(&p.meta.kind, "topic") || (match topic {
            Some(t) => same(t, &p.meta.post_id),
            None => false,
        });
        if allowed && !version_listed(&out, &p.meta.post_id, &p.version_id) {
            out.push(p);
            assert(post_models(out@) =~= post_models(was).push(p@));
        }
    }
    assert(all.take(n) =~= all);
    out
}

fn repair(meta: BbsThreadMeta, posts: &Vec<LoadedPost>) -> (r: BbsThreadMeta)
    ensures
        r@ == repaired(meta@, post_models(posts@)),
{
    let n = posts.len();
    if n == 0 {
        return meta;
    }
    let ghost all = post_models(posts@);
    let newest = &posts[n - 1];
    assert(all.last() == newest@);
    let mut meta = meta;
    let mut known = false;
    let mut i: usize = 0;
    while i < posts.len()
        invariant
            all == post_models(posts@),
            i <= posts@.len(),
            known == exists|j: int|
                0 <= j < i && (#[trigger] all[j]).meta.post_id == meta.latest_post_id@ && all[j].meta.created_at
                    == newest.meta.created_at@,
        decreases posts@.len() - i,
    {
        assert(all[i as int] == posts@[i as int]@);
        if same(&posts[i].meta.post_id, &meta.latest_post_id) && same(
            &posts[i].meta.created_at,
            &newest.meta.created_at,
        ) {
            known = true;
        }
        i += 1;
    }
    if !known {
        meta.latest_post_id = newest.meta.post_id.clone();
    }
    meta.updated_at = newest.meta.created_at.clone();
    meta
}

/// Read a thread: the posts in their place, ordered, with one topic and each
/// version once.
pub fn load_thread(thread_id: &str, meta: Result<BbsThreadMeta, String>, found: Vec<FoundPost>) -> (r: Result<
    (BbsThreadMeta, Vec<LoadedPost>),
    String,
>)
    ensures
        thread_result(r) == loaded_thread(thread_id@, thread_model(meta), found_models(found@)),
{
    if !safe_component(thread_id) {
        return Err(own("invalid BBS thread id"));
    }
    let meta = match meta {
        Ok(m) => m,
        Err(e) => {
            return Err(e);
        },
    };
    if !same(&meta.thread_id, thread_id) {
        return Err(own("BBS thread metadata ID mismatch"));
    }
    let posts = pick_readable(thread_id, found);
    let ghost picked = posts@;
    let posts = stable_sort(posts);
    proof {
        let f = |p: LoadedPost| p@;
        assert forall|p: LoadedPost| #[trigger] rank_fn::<LoadedPost>()(p) == post_rank_fn()(f(p)) by {}
        lemma_sorted_map(picked, f, rank_fn::<LoadedPost>(), post_rank_fn());
        assert(post_models(posts@) =~= posts@.map_values(f));
        assert(post_models(picked) =~= picked.map_values(f));
    }
    let topic = find_topic(&posts);
    let posts = keep_single_topic(posts, &topic);
    let meta = repair(meta, &posts);
    Ok((meta, posts))
}

// --------------------------------------------------------------------- board

pub open spec fn component_fn() -> spec_fn(Text) -> bool {
    |s: Text| is_component(s)
}

/// The threads of a board: those it lists, then those that are there, each
/// once.
pub open spec fn thread_ids(listed: Seq<Text>, there: Seq<Text>) -> Seq<Text> {
    dedup((listed + there).filter(component_fn()))
}

fn add_components(out: Vec<String>, v: &Vec<String>) -> (r: Vec<String>)
    ensures
        texts(r@) == dedup_onto(texts(out@), texts(v@).filter(component_fn())),
{
    let ghost all = texts(v@);
    let ghost start = texts(out@);
    let mut out = out;
    let mut i: usize = 0;
    reveal(Seq::filter);
    assert(all.take(0).filter(component_fn()) =~= Seq::<Text>::empty());
    while i < v.len()
        invariant
            all == texts(v@),
            i <= v@.len(),
            texts(out@) == dedup_onto(start, all.take(i as int).filter(component_fn())),
        decreases v@.len() - i,
    {
        let ghost was = out@;
        let ghost head = all.take(i as int).filter(component_fn());
        proof {
            assert(all.take(i + 1).drop_last() =~= all.take(i as int));
            assert(all.take(i + 1).last() == v@[i as int]@);
            reveal(Seq::filter);
        }
        if safe_component(&v[i]) {
            assert(all.take(i + 1).filter(component_fn()) =~= head.push(v@[i as int]@));
            proof {
                lemma_dedup_push(start, head, v@[i as int]@);
            }
            if !holds(&out, &v[i]) {
                out.push(v[i].clone());
                assert(texts(out@) =~= texts(was).push(v@[i as int]@));
            }
        } else {
            assert(all.take(i + 1).filter(component_fn()) =~= head);
        }
        i += 1;
    }
    assert(all.take(i as int) =~= all);
    out
}

proof fn lemma_dedup_push(seen: Seq<Text>, s: Seq<Text>, t: Text)
    ensures
        dedup_onto(seen, s.push(t)) == (if dedup_onto(seen, s).contains(t) {
            dedup_onto(seen, s)
        } else {
            dedup_onto(seen, s).push(t)
        }),
    decreases s.len(),
{
    if s.len() == 0 {
        assert(s.push(t).drop_first() =~= Seq::empty());
        assert(s.push(t)[0] == t);
        assert(dedup_onto(seen, s) == seen);
        reveal_with_fuel(dedup_onto, 2);
    } else {
        assert(s.push(t).drop_first() =~= s.drop_first().push(t));
        assert(s.push(t)[0] == s[0]);
        if seen.contains(s[0]) {
            lemma_dedup_push(seen, s.drop_first(), t);
        } else {
            lemma_dedup_push(seen.push(s[0]), s.drop_first(), t);
        }
    }
}

proof fn lemma_dedup_split(seen: Seq<Text>, a: Seq<Text>, b: Seq<Text>)
    ensures
        dedup_onto(seen, a + b) == dedup_onto(dedup_onto(seen, a), b),
    decreases a.len(),
{
    if a.len() == 0 {
        assert(a + b =~= b);
    } else {
        assert((a + b).drop_first() =~= a.drop_first() + b);
        assert((a + b)[0] == a[0]);
        if seen.contains(a[0]) {
            lemma_dedup_split(seen, a.drop_first(), b);
        } else {
            lemma_dedup_split(seen.push(a[0]), a.drop_first(), b);
        }
    }
}

proof fn lemma_filter_split(a: Seq<Text>, b: Seq<Text>)
    ensures
        (a + b).filter(component_fn()) == a.filter(component_fn()) + b.filter(component_fn()),
    decreases b.len(),
{
    reveal(Seq::filter);
    if b.len() == 0 {
        assert(a + b =~= a);
        assert(a.filter(component_fn()) + b.filter(component_fn()) =~= a.filter(component_fn()));
    } else {
        assert((a + b).drop_last() =~= a + b.drop_last());
        lemma_filter_split(a, b.drop_last());
        assert((a + b).last() == b.last());
        assert((a + b).filter(component_fn()) =~= a.filter(component_fn()) + b.filter(component_fn()));
    }
}

/// The threads of a board, given what its index lists and which directories
/// there are.
pub fn read_thread_ids(listed: &Vec<String>, there: &Vec<String>) -> (r: Vec<String>)
    ensures
        texts(r@) == thread_ids(texts(listed@), texts(there@)),
{
    let none: Vec<String> = Vec::new();
    assert(texts(none@) =~= Seq::empty());
    let first = add_components(none, listed);
    let out = add_components(first, there);
    proof {
        lemma_filter_split(texts(listed@), texts(there@));
        lemma_dedup_split(
            Seq::empty(),
            texts(listed@).filter(component_fn()),
            texts(there@).filter(component_fn()),
        );
    }
    out
}

pub open spec fn other_fn(id: Text) -> spec_fn(Text) -> bool {
    |s: Text| s != id
}

/// The index with a thread in front.
pub open spec fn moved_to_front(s: Seq<Text>, id: Text) -> Seq<Text> {
    seq![id] + s.filter(other_fn(id))
}

fn without(v: &Vec<String>, id: &str) -> (r: Vec<String>)
    ensures
        texts(r@) == texts(v@).filter(other_fn(id@)),
{
    let ghost all = texts(v@);
    let mut out: Vec<String> = Vec::new();
    let mut i: usize = 0;
    reveal(Seq::filter);
    assert(texts(out@) =~= all.take(0).filter(other_fn(id@)));
    while i < v.len()
        invariant
            all == texts(v@),
            i <= v@.len(),
            texts(out@) == all.take(i as int).filter(other_fn(id@)),
        decreases v@.len() - i,
    {
        let ghost was = out@;
        proof {
            reveal(Seq::filter);
            assert(all.take(i + 1).drop_last() =~= all.take(i as int));
            assert(all.take(i + 1).last() == v@[i as int]@);
        }
        if !same(&v[i], id) {
            out.push(v[i].clone());
            assert(texts(out@) =~= texts(was).push(v@[i as int]@));
        }
        i += 1;
    }
    assert(all.take(i as int) =~= all);
    out
}

pub fn new_board_index(now: String) -> (r: BbsBoardIndex)
    ensures
        r.schema@ == BOARD_SCHEMA@,
        r.updated_at == now,
        r.threads@.len() == 0,
{
    BbsBoardIndex { schema: own(BOARD_SCHEMA), updated_at: now, threads: Vec::new() }
}

impl BbsBoardIndex {
    /// Put a thread in front.
    pub fn add_thread(&mut self, thread_id: &str, now: String)
        ensures
            final(self).schema == old(self).schema,
            final(self).updated_at == now,
            texts(final(self).threads@) == moved_to_front(texts(old(self).threads@), thread_id@),
    {
        let mut rest = without(&self.threads, thread_id);
        let ghost others = rest@;
        let mut threads: Vec<String> = Vec::new();
        threads.push(own(thread_id));
        let ghost first = threads@;
        threads.append(&mut rest);
        assert(texts(threads@) =~= seq![thread_id@] + texts(others));
        self.threads = threads;
        self.updated_at = now;
    }

    /// Take a thread off the list.
    pub fn remove_thread(&mut self, thread_id: &str, now: String)
        ensures
            final(self).schema == old(self).schema,
            final(self).updated_at == now,
            texts(final(self).threads@) == texts(old(self).threads@).filter(other_fn(thread_id@)),
    {
        self.threads = without(&self.threads, thread_id);
        self.updated_at = now;
    }
}

/// A thread concerns a project: it is for everybody or names the project, or
/// the project started it or wrote in it.
pub open spec fn concerns(m: ThreadModel, posts: Seq<LoadedModel>, project: Text) -> bool {
    ||| m.visibility == "broadcast"@
    ||| m.project_tags.contains(project)
    ||| m.created_by_project == project
    ||| exists|i: int| 0 <= i < posts.len() && (#[trigger] posts[i]).meta.project_id == project
}

pub fn thread_relevant(meta: &BbsThreadMeta, posts: &Vec<LoadedPost>, project_id: &str) -> (r: bool)
    ensures
        r == concerns(meta@, post_models(posts@), project_id@),
{
    if same(&meta.visibility, "broadcast") || holds(&meta.project_tags, project_id) || same(
        &meta.created_by_project,
        project_id,
    ) {
        return true;
    }
    let ghost all = post_models(posts@);
    let mut i: usize = 0;
    while i < posts.len()
        invariant
            all == post_models(posts@),
            i <= posts@.len(),
            forall|j: int| 0 <= j < i ==> (#[trigger] all[j]).meta.project_id != project_id@,
        decreases posts@.len() - i,
    {
        assert(all[i as int] == posts@[i as int]@);
        if same(&posts[i].meta.project_id, project_id) {
            return true;
        }
        i += 1;
    }
    false
}

// ------------------------------------------------------------- project states

pub open spec fn seen_pair(p: BbsSeenPost) -> (Text, Text) {
    (p.thread_id@, p.at@)
}

pub open spec fn seen_models(m: Map<Parts, BbsSeenPost>) -> Map<Parts, (Text, Text)> {
    m.map_values(|p: BbsSeenPost| seen_pair(p))
}

#[verifier::ext_equal]
pub struct SeenModel {
    pub project: Text,
    /// Thread and time of every processed post.
    pub processed: Map<Parts, (Text, Text)>,
    pub ignored: Map<Parts, (Text, Text)>,
}

impl View for BbsProjectState {
    type V = SeenModel;

    open spec fn view(&self) -> SeenModel {
        SeenModel {
            project: self.project_id@,
            processed: seen_models(self.processed_posts@),
            ignored: seen_models(self.ignored_posts@),
        }
    }
}

pub open spec fn nothing_seen(project: Text) -> SeenModel {
    SeenModel { project, processed: Map::empty(), ignored: Map::empty() }
}

/// A post is either processed or ignored, from now on.
pub open spec fn marked(m: SeenModel, post: Text, thread: Text, at: Text, processed: bool) -> SeenModel {
    if processed {
        SeenModel {
            processed: m.processed.insert(tkey(post), (thread, at)),
            ignored: m.ignored.remove(tkey(post)),
            ..m
        }
    } else {
        SeenModel {
            processed: m.processed.remove(tkey(post)),
            ignored: m.ignored.insert(tkey(post), (thread, at)),
            ..m
        }
    }
}

/// No post is both processed and ignored.
pub open spec fn settled(m: SeenModel) -> bool {
    forall|k: Parts| !(#[trigger] m.processed.contains_key(k) && m.ignored.contains_key(k))
}

impl BbsProjectState {
    pub open spec fn wf(&self) -> bool {
        self.processed_posts.wf() && self.ignored_posts.wf()
    }

    /// The state of a project that has dealt with nothing.
    pub fn new(project_id: &str) -> (r: BbsProjectState)
        ensures
            r.wf(),
            r@ == nothing_seen(project_id@),
    {
        let r = BbsProjectState {
            project_id: own(project_id),
            processed_posts: OrderedMap::new(),
            ignored_posts: OrderedMap::new(),
        };
        assert(r@ =~= nothing_seen(project_id@));
        r
    }

    /// The state of a project as it was stored. One without a name is given
    /// the name under which it was found.
    pub fn load(project_id: &str, stored: Option<BbsProjectState>) -> (r: BbsProjectState)
        requires
            stored matches Some(s) ==> s.wf(),
        ensures
            r.wf(),
            r@ == (match stored {
                None => nothing_seen(project_id@),
                Some(s) => if trimmed(s@.project).len() == 0 {
                    SeenModel { project: project_id@, ..s@ }
                } else {
                    s@
                },
            }),
    {
        match stored {
            None => BbsProjectState::new(project_id),
            Some(s) => {
                let mut s = s;
                if blank(&s.project_id) {
                    s.project_id = own(project_id);
                }
                s
            },
        }
    }

    pub fn mark(&mut self, post_id: &str, thread_id: &str, at: String, processed: bool)
        requires
            old(self).wf(),
        ensures
            final(self).wf(),
            final(self)@ == marked(old(self)@, post_id@, thread_id@, at@, processed),
    {
        let ghost was = self@;
        let k = own(post_id);
        let item = BbsSeenPost { thread_id: own(thread_id), at };
        if processed {
            self.ignored_posts.remove(&k);
            self.processed_posts.insert(own(post_id), item);
        } else {
            self.processed_posts.remove(&k);
            self.ignored_posts.insert(own(post_id), item);
        }
        assert(self@ =~= marked(was, post_id@, thread_id@, at@, processed));
    }

    pub fn is_processed(&self, post_id: &str) -> (r: bool)
        requires
            self.wf(),
        ensures
            r == self@.processed.contains_key(tkey(post_id@)),
    {
        self.processed_posts.has(&own(post_id))
    }

    pub fn is_ignored(&self, post_id: &str) -> (r: bool)
        requires
            self.wf(),
        ensures
            r == self@.ignored.contains_key(tkey(post_id@)),
    {
        self.ignored_posts.has(&own(post_id))
    }
}

/// The thread of a post: the first thread that shows it.
pub open spec fn home_of(threads: Seq<(Text, Seq<LoadedModel>)>, post: Text) -> Option<Text>
    decreases threads.len(),
{
    if threads.len() == 0 {
        None
    } else if first_with(threads[0].1, post) is Some {
        first_with(threads[0].1, post)
    } else {
        home_of(threads.drop_first(), post)
    }
}

/// The thread that the first post with an identifier names.
pub open spec fn first_with(s: Seq<LoadedModel>, post: Text) -> Option<Text>
    decreases s.len(),
{
    if s.len() == 0 {
        None
    } else if s[0].meta.post_id == post {
        Some(s[0].meta.thread_id)
    } else {
        first_with(s.drop_first(), post)
    }
}

/// A thread that was read, with its posts.
pub struct ShownThread {
    pub meta: BbsThreadMeta,
    pub posts: Vec<LoadedPost>,
}

pub open spec fn shown_models(s: Seq<ShownThread>) -> Seq<(Text, Seq<LoadedModel>)> {
    s.map_values(|t: ShownThread| (t.meta@.thread_id, post_models(t.posts@)))
}

fn find_in(posts: &Vec<LoadedPost>, post: &str) -> (r: Option<String>)
    ensures
        crate::text::opt_text(r) == first_with(post_models(posts@), post@),
{
    let ghost all = post_models(posts@);
    let mut i: usize = 0;
    assert(all.skip(0) =~= all);
    while i < posts.len()
        invariant
            all == post_models(posts@),
            i <= posts@.len(),
            first_with(all, post@) == first_with(all.skip(i as int), post@),
        decreases posts@.len() - i,
    {
        let ghost rest = all.skip(i as int);
        assert(rest[0] == posts@[i as int]@);
        assert(rest.drop_first() =~= all.skip(i + 1));
        if same(&posts[i].meta.post_id, post) {
            return Some(posts[i].meta.thread_id.clone());
        }
        i += 1;
    }
    None
}

/// Find the thread of a post among the threads that can be read.
pub fn find_post(threads: &Vec<ShownThread>, post_id: &str) -> (r: Result<String, String>)
    ensures
        match home_of(shown_models(threads@), post_id@) {
            Some(t) => r is Ok && r->Ok_0@ == t,
            None => r is Err && r->Err_0@ == "BBS post not found: "@ + post_id@,
        },
{
    let ghost all = shown_models(threads@);
    let mut i: usize = 0;
    assert(all.skip(0) =~= all);
    while i < threads.len()
        invariant
            all == shown_models(threads@),
            i <= threads@.len(),
            home_of(all, post_id@) == home_of(all.skip(i as int), post_id@),
        decreases threads@.len() - i,
    {
        let ghost rest = all.skip(i as int);
        assert(rest[0] == all[i as int]);
        assert(rest.drop_first() =~= all.skip(i + 1));
        if let Some(t) = find_in(&threads[i].posts, post_id) {
            return Ok(t);
        }
        i += 1;
    }
    Err(plus("BBS post not found: ", post_id))
}

/// The time of a mark is the only thing left open.
pub open spec fn marks(
    threads: Seq<(Text, Seq<LoadedModel>)>,
    post: Text,
    processed: bool,
    was: SeenModel,
    now: SeenModel,
    r: Result<(), String>,
) -> bool {
    match home_of(threads, post) {
        Some(t) => r is Ok && exists|at: Text| now == #[trigger] marked(was, post, t, at, processed),
        None => now == was && r is Err && r->Err_0@ == "BBS post not found: "@ + post,
    }
}

fn mark_post_state(threads: &Vec<ShownThread>, state: &mut BbsProjectState, post_id: &str, processed: bool) -> (r: Result<
    (),
    String,
>)
    requires
        old(state).wf(),
    ensures
        final(state).wf(),
        marks(shown_models(threads@), post_id@, processed, old(state)@, final(state)@, r),
{
    let ghost was = state@;
    match find_post(threads, post_id) {
        Ok(thread) => {
            let at = now_iso();
            let ghost time = at@;
            state.mark(post_id, &thread, at, processed);
            assert(state@ == marked(was, post_id@, thread@, time, processed));
            Ok(())
        },
        Err(e) => Err(e),
    }
}

/// A project has processed a post.
pub fn mark_processed(threads: &Vec<ShownThread>, state: &mut BbsProjectState, post_id: &str) -> (r: Result<(), String>)
    requires
        old(state).wf(),
    ensures
        final(state).wf(),
        marks(shown_models(threads@), post_id@, true, old(state)@, final(state)@, r),
{
    mark_post_state(threads, state, post_id, true)
}

/// A project ignores a post.
pub fn ignore_post(threads: &Vec<ShownThread>, state: &mut BbsProjectState, post_id: &str) -> (r: Result<(), String>)
    requires
        old(state).wf(),
    ensures
        final(state).wf(),
        marks(shown_models(threads@), post_id@, false, old(state)@, final(state)@, r),
{
    mark_post_state(threads, state, post_id, false)
}

/// Where a project's state is kept, below the board.
pub fn project_state_path(project_id: &str) -> (r: String)
    ensures
        r@ == "state/projects/"@ + file_id(project_id@) + ".json"@,
{
    crate::text::plus3("state/projects/", &sanitize_id(project_id), ".json")
}

/// Where a thread is kept, below the board.
pub fn thread_dir(thread_id: &str) -> (r: String)
    ensures
        r@ == "threads/"@ + file_id(thread_id@),
{
    plus("threads/", &sanitize_id(thread_id))
}

/// The directory of the board: the chosen one, else the one in the account's
/// home, else the one in the current directory.
pub open spec fn board_root(chosen: Option<Text>, home: Option<Text>) -> Text {
    if chosen is Some && trimmed(chosen->0).len() > 0 {
        chosen->0
    } else {
        let h = if home is Some {
            home->0
        } else {
            "."@
        };
        below(below(below(h, "Kota"@), "Workspaces"@), "bbs"@)
    }
}

pub fn account_root(chosen: &Option<String>, home: &Option<String>) -> (r: String)
    ensures
        r@ == board_root(opt_text(*chosen), opt_text(*home)),
{
    if let Some(c) = chosen {
        if !blank(c) {
            return c.clone();
        }
    }
    let h = match home {
        Some(h) => h.clone(),
        None => own("."),
    };
    path_below(&path_below(&path_below(&h, "Kota"), "Workspaces"), "bbs")
}

/// The directories of a board, and whether its index has to be written.
pub fn ensure_account_layout(index_exists: bool) -> (r: (Vec<String>, Option<BbsBoardIndex>))
    ensures
        texts(r.0@) == seq!["threads"@, "indexes/projects"@, "state/projects"@],
        r.1 is None == index_exists,
        r.1 matches Some(i) ==> i.schema@ == BOARD_SCHEMA@ && i.threads@.len() == 0,
{
    let mut dirs: Vec<String> = Vec::new();
    dirs.push(own("threads"));
    dirs.push(own("indexes/projects"));
    dirs.push(own("state/projects"));
    assert(texts(dirs@) =~= seq!["threads"@, "indexes/projects"@, "state/projects"@]);
    if index_exists {
        return (dirs, None);
    }
    (dirs, Some(new_board_index(now_iso())))
}

// ---------------------------------------------------------------------- laws

/// A thread shows at most one topic, every version once, and its posts in
/// order of time.
pub proof fn a_thread_shows_one_topic_in_order(thread: Text, found: Seq<FoundModel>)
    ensures
        in_order(thread_posts(thread, found), post_rank_fn()),
        forall|i: int, j: int|
            #![trigger thread_posts(thread, found)[i], thread_posts(thread, found)[j]]
            0 <= i < j < thread_posts(thread, found).len() ==> {
                let a = thread_posts(thread, found)[i];
                let b = thread_posts(thread, found)[j];
                &&& !(a.meta.post_id == b.meta.post_id && a.version == b.version)
                &&& a.meta.kind == "topic"@ && b.meta.kind == "topic"@ ==> a.meta.post_id == b.meta.post_id
            },
{
    let all = sorted_by(readable(thread, found), post_rank_fn());
    sorting_orders_and_keeps(readable(thread, found), post_rank_fn());
    lemma_single_topic(all, topic_of(all));
}

/// The posts that stay are a subsequence, so their order stays.
proof fn lemma_single_topic(s: Seq<LoadedModel>, topic: Option<Text>)
    requires
        in_order(s, post_rank_fn()),
    ensures
        in_order(single_topic(s, topic), post_rank_fn()),
        forall|i: int| 0 <= i < single_topic(s, topic).len() ==> s.contains(#[trigger] single_topic(s, topic)[i]),
        forall|i: int|
            0 <= i < single_topic(s, topic).len() && (#[trigger] single_topic(s, topic)[i]).meta.kind == "topic"@
                ==> topic == Some(single_topic(s, topic)[i].meta.post_id),
        forall|i: int, j: int|
            #![trigger single_topic(s, topic)[i], single_topic(s, topic)[j]]
            0 <= i < j < single_topic(s, topic).len() ==> !(single_topic(s, topic)[i].meta.post_id == single_topic(
                s,
                topic,
            )[j].meta.post_id && single_topic(s, topic)[i].version == single_topic(s, topic)[j].version),
    decreases s.len(),
{
    if s.len() > 0 {
        lemma_single_topic(s.drop_last(), topic);
        let rest = single_topic(s.drop_last(), topic);
        let out = single_topic(s, topic);
        assert forall|i: int| 0 <= i < out.len() implies s.contains(#[trigger] out[i]) by {
            if i < rest.len() {
                assert(s.drop_last().contains(rest[i]));
                let j = choose|j: int| 0 <= j < s.drop_last().len() && s.drop_last()[j] == rest[i];
                assert(s[j] == out[i]);
            } else {
                assert(s[s.len() - 1] == out[i]);
            }
        }
        assert forall|i: int, j: int| 0 <= i < j < out.len() implies !parts_lt(
            post_rank_fn()(#[trigger] out[j]),
            post_rank_fn()(#[trigger] out[i]),
        ) by {
            if j < rest.len() {
                assert(out[j] == rest[j] && out[i] == rest[i]);
            } else {
                assert(out[j] == s.last());
                assert(s.drop_last().contains(rest[i]));
                let k = choose|k: int| 0 <= k < s.drop_last().len() && s.drop_last()[k] == rest[i];
                assert(s[k] == out[i]);
                assert(s[s.len() - 1] == out[j]);
            }
        }
    }
}

/// A listed thread stands in front, and nowhere else.
pub proof fn the_index_lists_a_thread_once(s: Seq<Text>, id: Text)
    requires
        s.no_duplicates(),
    ensures
        moved_to_front(s, id).no_duplicates(),
        moved_to_front(s, id)[0] == id,
        forall|t: Text| #[trigger] moved_to_front(s, id).contains(t) <==> t == id || s.contains(t),
{
    let rest = s.filter(other_fn(id));
    lemma_others(s, id);
    let out = moved_to_front(s, id);
    assert forall|i: int, j: int| 0 <= i < j < out.len() implies out[i] != out[j] by {
        assert(rest[j - 1] == out[j]);
        assert(rest.contains(rest[j - 1]));
        if i > 0 {
            assert(rest[i - 1] == out[i]);
        }
    }
    assert forall|t: Text| #[trigger] out.contains(t) <==> t == id || s.contains(t) by {
        if out.contains(t) {
            let i = choose|i: int| 0 <= i < out.len() && out[i] == t;
            if i > 0 {
                assert(rest[i - 1] == t);
                assert(rest.contains(t));
            }
        }
        if t == id {
            assert(out[0] == t);
        } else if s.contains(t) {
            assert(rest.contains(t));
            let i = choose|i: int| 0 <= i < rest.len() && rest[i] == t;
            assert(out[i + 1] == t);
        }
    }
}

proof fn lemma_others(s: Seq<Text>, id: Text)
    requires
        s.no_duplicates(),
    ensures
        s.filter(other_fn(id)).no_duplicates(),
        forall|t: Text| #[trigger] s.filter(other_fn(id)).contains(t) <==> t != id && s.contains(t),
    decreases s.len(),
{
    reveal(Seq::filter);
    if s.len() > 0 {
        let head = s.drop_last();
        lemma_others(head, id);
        let rest = head.filter(other_fn(id));
        let out = s.filter(other_fn(id));
        assert forall|t: Text| #[trigger] out.contains(t) <==> t != id && s.contains(t) by {
            assert(rest.contains(t) <==> t != id && head.contains(t));
            if s.contains(t) {
                let i = choose|i: int| 0 <= i < s.len() && s[i] == t;
                if i < head.len() {
                    assert(head[i] == t);
                }
            }
            if head.contains(t) {
                let i = choose|i: int| 0 <= i < head.len() && head[i] == t;
                assert(s[i] == t);
            }
            assert(s.contains(s.last())) by {
                assert(s[s.len() - 1] == s.last());
            }
            if s.last() != id {
                assert(out == rest.push(s.last()));
                if out.contains(t) {
                    let i = choose|i: int| 0 <= i < out.len() && out[i] == t;
                    if i < rest.len() {
                        assert(rest[i] == t);
                    }
                }
                if rest.contains(t) {
                    let i = choose|i: int| 0 <= i < rest.len() && rest[i] == t;
                    assert(out[i] == t);
                }
                if t == s.last() {
                    assert(out[rest.len() as int] == t);
                }
            } else {
                assert(out == rest);
            }
        }
        assert(head.no_duplicates());
        if s.last() != id {
            assert(out == rest.push(s.last()));
            assert(!rest.contains(s.last())) by {
                if rest.contains(s.last()) {
                    assert(head.contains(s.last()));
                    let i = choose|i: int| 0 <= i < head.len() && head[i] == s.last();
                    assert(s[i] == s[s.len() - 1]);
                }
            }
        }
    }
}

/// Marking a post settles it: it is processed or ignored and not both.
pub proof fn a_mark_settles_a_post(m: SeenModel, post: Text, thread: Text, at: Text, processed: bool)
    requires
        settled(m),
    ensures
        settled(marked(m, post, thread, at, processed)),
        marked(m, post, thread, at, processed).processed.contains_key(tkey(post)) == processed,
        marked(m, post, thread, at, processed).ignored.contains_key(tkey(post)) == !processed,
{
}

/// A thread that is read always points to one of its posts that was written
/// last, and a pointer that does so is kept.
pub proof fn the_latest_post_is_one_of_the_newest(m: ThreadModel, posts: Seq<LoadedModel>)
    requires
        posts.len() > 0,
    ensures
        written_at(posts, repaired(m, posts).latest_post_id, posts.last().meta.created_at),
        repaired(m, posts).updated_at == posts.last().meta.created_at,
        written_at(posts, m.latest_post_id, posts.last().meta.created_at) ==> repaired(m, posts).latest_post_id
            == m.latest_post_id,
{
    assert(posts[posts.len() - 1] == posts.last());
}

proof fn lemma_post_order(a: LoadedModel, b: LoadedModel)
    requires
        !parts_lt(post_rank(b), post_rank(a)),
    ensures
        !text_lt(b.meta.created_at, a.meta.created_at),
        a.meta.created_at == b.meta.created_at ==> !text_lt(b.meta.post_id, a.meta.post_id),
        a.meta.created_at == b.meta.created_at && a.meta.post_id == b.meta.post_id ==> !text_lt(b.version, a.version),
{
    let x = post_rank(a);
    let y = post_rank(b);
    if a.meta.created_at != b.meta.created_at {
        the_first_part_that_differs_decides(x, y, 0);
    } else if a.meta.post_id != b.meta.post_id {
        the_first_part_that_differs_decides(x, y, 1);
    } else if a.version != b.version {
        the_first_part_that_differs_decides(x, y, 2);
    }
    lemma_text_lt_irreflexive(a.meta.created_at);
    lemma_text_lt_irreflexive(a.meta.post_id);
    lemma_text_lt_irreflexive(a.version);
}

/// The posts of a thread stand in order of the time at which they were
/// written; posts of the same time by their identifiers, and versions of one
/// post by their hashes.
pub proof fn posts_stand_in_order_of_time(thread: Text, found: Seq<FoundModel>, i: int, j: int)
    requires
        0 <= i < j < thread_posts(thread, found).len(),
    ensures
        ({
            let a = thread_posts(thread, found)[i];
            let b = thread_posts(thread, found)[j];
            &&& !text_lt(b.meta.created_at, a.meta.created_at)
            &&& a.meta.created_at == b.meta.created_at ==> !text_lt(b.meta.post_id, a.meta.post_id)
            &&& a.meta.created_at == b.meta.created_at && a.meta.post_id == b.meta.post_id ==> text_lt(
                a.version,
                b.version,
            )
        }),
{
    let posts = thread_posts(thread, found);
    a_thread_shows_one_topic_in_order(thread, found);
    let (a, b) = (posts[i], posts[j]);
    assert(!parts_lt(post_rank_fn()(posts[j]), post_rank_fn()(posts[i])));
    lemma_post_order(a, b);
    lemma_text_lt_total(a.version, b.version);
}

/// A thread that is read was last changed when its newest post was written:
/// no post is younger than its time of change, some post has it, and the
/// latest post is one of these. The rest of the metadata is as it was found,
/// and without posts all of it.
pub proof fn a_thread_is_as_new_as_its_newest_post(thread: Text, meta: Result<ThreadModel, Text>, found: Seq<FoundModel>)
    requires
        loaded_thread(thread, meta, found) is Ok,
    ensures
        ({
            let (m, posts) = loaded_thread(thread, meta, found)->Ok_0;
            &&& meta is Ok
            &&& posts.len() == 0 ==> m == meta->Ok_0
            &&& posts.len() > 0 ==> {
                &&& forall|i: int| 0 <= i < posts.len() ==> !text_lt(m.updated_at, (#[trigger] posts[i]).meta.created_at)
                &&& exists|i: int|
                    0 <= i < posts.len() && (#[trigger] posts[i]).meta.created_at == m.updated_at && posts[i].meta.post_id
                        == m.latest_post_id
            }
            &&& m == (ThreadModel {
                updated_at: m.updated_at,
                latest_post_id: m.latest_post_id,
                ..meta->Ok_0
            })
        }),
{
    let (m, posts) = loaded_thread(thread, meta, found)->Ok_0;
    if posts.len() > 0 {
        let n = posts.len() - 1;
        assert forall|i: int| 0 <= i < posts.len() implies !text_lt(
            m.updated_at,
            (#[trigger] posts[i]).meta.created_at,
        ) by {
            if i < n {
                posts_stand_in_order_of_time(thread, found, i, n);
            }
            lemma_text_lt_irreflexive(m.updated_at);
        }
        the_latest_post_is_one_of_the_newest(meta->Ok_0, posts);
    }
}

/// A thread is read exactly if its name is sound and its metadata can be read
/// and name it.
pub proof fn a_thread_is_read_under_its_own_name(thread: Text, meta: Result<ThreadModel, Text>, found: Seq<FoundModel>)
    ensures
        loaded_thread(thread, meta, found) is Ok <==> is_component(thread) && (meta matches Ok(m) && m.thread_id == thread),
        meta matches Err(e) ==> is_component(thread) ==> loaded_thread(thread, meta, found) == Err::<
            (ThreadModel, Seq<LoadedModel>),
            Text,
        >(e),
{
}

proof fn lemma_readable(thread: Text, s: Seq<FoundModel>, p: LoadedModel)
    ensures
        readable(thread, s).contains(p) <==> exists|i: int|
            0 <= i < s.len() && (#[trigger] s[i]).loaded == Some(p) && p.meta.thread_id == thread && p.meta.post_id
                == s[i].post && (p.meta.kind == "topic"@ || p.meta.kind == "reply"@),
    decreases s.len(),
{
    let out = readable(thread, s);
    if s.len() > 0 {
        let head = s.drop_last();
        lemma_readable(thread, head, p);
        let rest = readable(thread, head);
        if rest.contains(p) {
            let i = choose|i: int|
                0 <= i < head.len() && (#[trigger] head[i]).loaded == Some(p) && p.meta.thread_id == thread
                    && p.meta.post_id == head[i].post && (p.meta.kind == "topic"@ || p.meta.kind == "reply"@);
            assert(s[i] == head[i]);
            let k = choose|k: int| 0 <= k < rest.len() && rest[k] == p;
            assert(out[k] == p);
        }
        if out.contains(p) {
            let k = choose|k: int| 0 <= k < out.len() && out[k] == p;
            if k < rest.len() {
                assert(rest[k] == p);
            } else {
                assert(s[s.len() - 1] == s.last());
            }
        }
        if exists|i: int|
            0 <= i < s.len() && (#[trigger] s[i]).loaded == Some(p) && p.meta.thread_id == thread && p.meta.post_id
                == s[i].post && (p.meta.kind == "topic"@ || p.meta.kind == "reply"@) {
            let i = choose|i: int|
                0 <= i < s.len() && (#[trigger] s[i]).loaded == Some(p) && p.meta.thread_id == thread && p.meta.post_id
                    == s[i].post && (p.meta.kind == "topic"@ || p.meta.kind == "reply"@);
            if i < head.len() {
                assert(head[i] == s[i]);
            } else {
                assert(out.last() == p);
                assert(out[out.len() - 1] == p);
            }
        }
    }
}

proof fn lemma_kept(s: Seq<LoadedModel>, topic: Option<Text>, p: LoadedModel)
    requires
        s.contains(p),
        p.meta.kind != "topic"@ || topic == Some(p.meta.post_id),
    ensures
        has_version(single_topic(s, topic), p.meta.post_id, p.version),
    decreases s.len(),
{
    let i = choose|i: int| 0 <= i < s.len() && s[i] == p;
    let head = s.drop_last();
    let rest = single_topic(head, topic);
    let out = single_topic(s, topic);
    if i < head.len() {
        assert(head[i] == p);
        lemma_kept(head, topic, p);
        let k = choose|k: int|
            0 <= k < rest.len() && (#[trigger] rest[k]).meta.post_id == p.meta.post_id && rest[k].version == p.version;
        assert(out[k] == rest[k]);
    } else if out.len() > rest.len() {
        assert(out[rest.len() as int] == p);
    } else {
        assert(out == rest);
    }
}

proof fn lemma_topic(s: Seq<LoadedModel>)
    ensures
        match topic_of(s) {
            Some(t) => exists|i: int|
                0 <= i < s.len() && (#[trigger] s[i]).meta.kind == "topic"@ && s[i].meta.post_id == t && forall|j: int|
                    0 <= j < i ==> (#[trigger] s[j]).meta.kind != "topic"@,
            None => forall|i: int| 0 <= i < s.len() ==> (#[trigger] s[i]).meta.kind != "topic"@,
        },
    decreases s.len(),
{
    if s.len() > 0 && s[0].meta.kind != "topic"@ {
        let t = s.drop_first();
        lemma_topic(t);
        match topic_of(t) {
            Some(x) => {
                let i = choose|i: int|
                    0 <= i < t.len() && (#[trigger] t[i]).meta.kind == "topic"@ && t[i].meta.post_id == x && forall|
                        j: int,
                    |
                        0 <= j < i ==> (#[trigger] t[j]).meta.kind != "topic"@;
                assert(s[i + 1] == t[i]);
                assert forall|j: int| 0 <= j < i + 1 implies (#[trigger] s[j]).meta.kind != "topic"@ by {
                    if j > 0 {
                        assert(s[j] == t[j - 1]);
                    }
                }
            },
            None => {
                assert forall|i: int| 0 <= i < s.len() implies (#[trigger] s[i]).meta.kind != "topic"@ by {
                    if i > 0 {
                        assert(s[i] == t[i - 1]);
                    }
                }
            },
        }
    }
}

/// A thread shows the posts that lie in their places. Nothing is shown that
/// was not found in the place that its post and thread name; every reply that
/// was found there is shown, and so is the topic that was written first.
pub proof fn a_thread_shows_what_lies_in_its_place(thread: Text, found: Seq<FoundModel>)
    ensures
        forall|i: int|
            0 <= i < thread_posts(thread, found).len() ==> {
                let p = #[trigger] thread_posts(thread, found)[i];
                &&& p.meta.thread_id == thread
                &&& p.meta.kind == "topic"@ || p.meta.kind == "reply"@
                &&& exists|k: int| 0 <= k < found.len() && (#[trigger] found[k]).loaded == Some(p) && found[k].post
                    == p.meta.post_id
            },
        forall|k: int|
            0 <= k < found.len() && ((#[trigger] found[k]).loaded matches Some(p) && p.meta.thread_id == thread
                && p.meta.post_id == found[k].post && p.meta.kind == "reply"@) ==> has_version(
                thread_posts(thread, found),
                found[k].post,
                found[k].loaded->0.version,
            ),
        forall|k: int|
            0 <= k < found.len() && ((#[trigger] found[k]).loaded matches Some(p) && p.meta.thread_id == thread
                && p.meta.post_id == found[k].post && p.meta.kind == "topic"@) ==> exists|i: int|
                0 <= i < found.len() && ((#[trigger] found[i]).loaded matches Some(first) && first.meta.kind == "topic"@
                    && !text_lt(found[k].loaded->0.meta.created_at, first.meta.created_at) && has_version(
                    thread_posts(thread, found),
                    first.meta.post_id,
                    first.version,
                )),
{
    reveal_strlit("topic");
    reveal_strlit("reply");
    assert("topic"@[0] != "reply"@[0]);
    let picked = readable(thread, found);
    let all = sorted_by(picked, post_rank_fn());
    let topic = topic_of(all);
    let posts = thread_posts(thread, found);
    sorting_orders_and_keeps(picked, post_rank_fn());
    lemma_single_topic(all, topic);
    lemma_topic(all);
    assert forall|p: LoadedModel| picked.contains(p) <==> #[trigger] all.contains(p) by {
        vstd::seq_lib::to_multiset_contains(picked, p);
        vstd::seq_lib::to_multiset_contains(all, p);
    }
    assert forall|i: int| 0 <= i < posts.len() implies {
        let p = #[trigger] posts[i];
        &&& p.meta.thread_id == thread
        &&& p.meta.kind == "topic"@ || p.meta.kind == "reply"@
        &&& exists|k: int| 0 <= k < found.len() && (#[trigger] found[k]).loaded == Some(p) && found[k].post
            == p.meta.post_id
    } by {
        assert(all.contains(posts[i]));
        lemma_readable(thread, found, posts[i]);
    }
    assert forall|k: int|
        0 <= k < found.len() && ((#[trigger] found[k]).loaded matches Some(p) && p.meta.thread_id == thread
            && p.meta.post_id == found[k].post && p.meta.kind == "reply"@) implies has_version(
        posts,
        found[k].post,
        found[k].loaded->0.version,
    ) by {
        let p = found[k].loaded->0;
        lemma_readable(thread, found, p);
        lemma_kept(all, topic, p);
    }
    assert forall|k: int|
        0 <= k < found.len() && ((#[trigger] found[k]).loaded matches Some(p) && p.meta.thread_id == thread
            && p.meta.post_id == found[k].post && p.meta.kind == "topic"@) implies exists|i: int|
        0 <= i < found.len() && ((#[trigger] found[i]).loaded matches Some(first) && first.meta.kind == "topic"@
            && !text_lt(found[k].loaded->0.meta.created_at, first.meta.created_at) && has_version(
            posts,
            first.meta.post_id,
            first.version,
        )) by {
        let p = found[k].loaded->0;
        lemma_readable(thread, found, p);
        assert(all.contains(p));
        let at = choose|at: int| 0 <= at < all.len() && all[at] == p;
        assert(all[at].meta.kind == "topic"@);
        let n = choose|i: int|
            0 <= i < all.len() && (#[trigger] all[i]).meta.kind == "topic"@ && all[i].meta.post_id == topic->0 && forall|
                j: int,
            |
                0 <= j < i ==> (#[trigger] all[j]).meta.kind != "topic"@;
        let first = all[n];
        assert(all.contains(first));
        lemma_kept(all, topic, first);
        lemma_readable(thread, found, first);
        if n < at {
            assert(!parts_lt(post_rank_fn()(all[at]), post_rank_fn()(all[n])));
            lemma_post_order(first, p);
        }
        lemma_text_lt_irreflexive(p.meta.created_at);
    }
}

/// A thread concerns everybody if it is broadcast, every project that its tags
/// name, the project that started it, and every project that wrote in it. It
/// concerns no other.
pub proof fn a_thread_concerns_whom_it_names(m: ThreadModel, posts: Seq<LoadedModel>, project: Text, i: int)
    ensures
        m.visibility == "broadcast"@ ==> concerns(m, posts, project),
        m.project_tags.contains(project) ==> concerns(m, posts, project),
        m.created_by_project == project ==> concerns(m, posts, project),
        0 <= i < posts.len() && posts[i].meta.project_id == project ==> concerns(m, posts, project),
        concerns(m, posts, project) && m.visibility != "broadcast"@ && !m.project_tags.contains(project)
            && m.created_by_project != project ==> exists|k: int|
            0 <= k < posts.len() && (#[trigger] posts[k]).meta.project_id == project,
{
}

/// A mark says in which thread the post stands and when it was dealt with, and
/// changes nothing of other posts or of the project.
pub proof fn a_mark_is_about_one_post(m: SeenModel, post: Text, thread: Text, at: Text, processed: bool, other: Text)
    ensures
        ({
            let n = marked(m, post, thread, at, processed);
            &&& n.project == m.project
            &&& processed ==> n.processed.contains_key(tkey(post)) && n.processed[tkey(post)] == (thread, at)
                && !n.ignored.contains_key(tkey(post))
            &&& !processed ==> n.ignored.contains_key(tkey(post)) && n.ignored[tkey(post)] == (thread, at)
                && !n.processed.contains_key(tkey(post))
            &&& other != post ==> {
                &&& n.processed.contains_key(tkey(other)) == m.processed.contains_key(tkey(other))
                &&& m.processed.contains_key(tkey(other)) ==> n.processed[tkey(other)] == m.processed[tkey(other)]
                &&& n.ignored.contains_key(tkey(other)) == m.ignored.contains_key(tkey(other))
                &&& m.ignored.contains_key(tkey(other)) ==> n.ignored[tkey(other)] == m.ignored[tkey(other)]
            }
        }),
{
    assert(tkey(post)[0] == post);
    assert(tkey(other)[0] == other);
}

proof fn lemma_first_with(s: Seq<LoadedModel>, post: Text)
    ensures
        first_with(s, post) matches Some(t) ==> exists|i: int|
            0 <= i < s.len() && (#[trigger] s[i]).meta.post_id == post && s[i].meta.thread_id == t,
        first_with(s, post) is None ==> forall|i: int| 0 <= i < s.len() ==> (#[trigger] s[i]).meta.post_id != post,
    decreases s.len(),
{
    if s.len() > 0 && s[0].meta.post_id != post {
        let t = s.drop_first();
        lemma_first_with(t, post);
        if let Some(x) = first_with(t, post) {
            let i = choose|i: int| 0 <= i < t.len() && (#[trigger] t[i]).meta.post_id == post && t[i].meta.thread_id == x;
            assert(s[i + 1] == t[i]);
        } else {
            assert forall|i: int| 0 <= i < s.len() implies (#[trigger] s[i]).meta.post_id != post by {
                if i > 0 {
                    assert(s[i] == t[i - 1]);
                }
            }
        }
    }
}

/// A post is found exactly if some thread shows it, and then in the thread that
/// such a post names.
pub proof fn a_post_is_found_where_it_is_shown(threads: Seq<(Text, Seq<LoadedModel>)>, post: Text)
    ensures
        home_of(threads, post) matches Some(t) ==> exists|i: int, j: int|
            0 <= i < threads.len() && 0 <= j < threads[i].1.len() && (#[trigger] threads[i].1[j]).meta.post_id == post
                && threads[i].1[j].meta.thread_id == t,
        home_of(threads, post) is None ==> forall|i: int, j: int|
            0 <= i < threads.len() && 0 <= j < threads[i].1.len() ==> (#[trigger] threads[i].1[j]).meta.post_id != post,
    decreases threads.len(),
{
    if threads.len() > 0 {
        lemma_first_with(threads[0].1, post);
        let rest = threads.drop_first();
        if first_with(threads[0].1, post) is Some {
            let t = first_with(threads[0].1, post)->0;
            let j = choose|j: int|
                0 <= j < threads[0].1.len() && (#[trigger] threads[0].1[j]).meta.post_id == post
                    && threads[0].1[j].meta.thread_id == t;
            assert(threads[0].1[j].meta.post_id == post);
        } else {
            a_post_is_found_where_it_is_shown(rest, post);
            if let Some(t) = home_of(rest, post) {
                let (i, j) = choose|i: int, j: int|
                    0 <= i < rest.len() && 0 <= j < rest[i].1.len() && (#[trigger] rest[i].1[j]).meta.post_id == post
                        && rest[i].1[j].meta.thread_id == t;
                assert(threads[i + 1] == rest[i]);
                assert(threads[i + 1].1[j].meta.post_id == post);
            } else {
                assert forall|i: int, j: int| 0 <= i < threads.len() && 0 <= j < threads[i].1.len() implies (
                #[trigger] threads[i].1[j]).meta.post_id != post by {
                    if i > 0 {
                        assert(threads[i] == rest[i - 1]);
                        assert(rest[i - 1].1[j].meta.post_id != post);
                    }
                }
            }
        }
    }
}

/// The threads of a board are those that its index lists or that are there, as
/// far as their names are sound, each once.
pub proof fn a_board_has_the_listed_threads_and_those_that_are_there(listed: Seq<Text>, there: Seq<Text>, t: Text)
    ensures
        thread_ids(listed, there).no_duplicates(),
        thread_ids(listed, there).contains(t) <==> is_component(t) && (listed.contains(t) || there.contains(t)),
{
    let all = listed + there;
    dedup_keeps_each_text_once(all.filter(component_fn()));
    lemma_filtered(all, t);
    if all.contains(t) {
        let i = choose|i: int| 0 <= i < all.len() && all[i] == t;
        if i < listed.len() {
            assert(listed[i] == t);
        } else {
            assert(there[i - listed.len()] == t);
        }
    }
    if listed.contains(t) {
        let i = choose|i: int| 0 <= i < listed.len() && listed[i] == t;
        assert(all[i] == t);
    }
    if there.contains(t) {
        let i = choose|i: int| 0 <= i < there.len() && there[i] == t;
        assert(all[i + listed.len()] == t);
    }
}

proof fn lemma_filtered(s: Seq<Text>, t: Text)
    ensures
        s.filter(component_fn()).contains(t) <==> is_component(t) && s.contains(t),
    decreases s.len(),
{
    reveal(Seq::filter);
    let out = s.filter(component_fn());
    if s.len() > 0 {
        let head = s.drop_last();
        lemma_filtered(head, t);
        let rest = head.filter(component_fn());
        assert(s[s.len() - 1] == s.last());
        if s.contains(t) {
            let i = choose|i: int| 0 <= i < s.len() && s[i] == t;
            if i < head.len() {
                assert(head[i] == t);
            }
        }
        if head.contains(t) {
            let i = choose|i: int| 0 <= i < head.len() && head[i] == t;
            assert(s[i] == t);
        }
        if is_component(s.last()) {
            assert(out == rest.push(s.last()));
            assert(out[rest.len() as int] == s.last());
            if rest.contains(t) {
                let i = choose|i: int| 0 <= i < rest.len() && rest[i] == t;
                assert(out[i] == t);
            }
            if out.contains(t) {
                let i = choose|i: int| 0 <= i < out.len() && out[i] == t;
                if i < rest.len() {
                    assert(rest[i] == t);
                }
            }
        } else {
            assert(out == rest);
        }
    }
}

/// A board stands where the user put it; else under the account's home.
pub proof fn a_chosen_place_of_the_board_is_used(chosen: Option<Text>, home: Option<Text>)
    ensures
        chosen matches Some(c) ==> trimmed(c).len() > 0 ==> board_root(chosen, home) == c,
        (chosen matches Some(c) ==> trimmed(c).len() == 0) ==> board_root(chosen, home) == board_root(None, home),
        home matches Some(h) ==> h.len() > 0 && h.last() != '/' ==> board_root(None, home) == h + "/Kota/Workspaces/bbs"@,
        board_root(None, None) == "./Kota/Workspaces/bbs"@,
{
    reveal_strlit("/Kota/Workspaces/bbs");
    reveal_strlit("./Kota/Workspaces/bbs");
    reveal_strlit("Kota");
    reveal_strlit("Workspaces");
    reveal_strlit("bbs");
    reveal_strlit("/");
    reveal_strlit(".");
    if let Some(h) = home {
        if h.len() > 0 && h.last() != '/' {
            let a = below(h, "Kota"@);
            let b = below(a, "Workspaces"@);
            assert(a.last() == 'a');
            assert(b.last() == 's');
            assert(below(b, "bbs"@) =~= h + "/Kota/Workspaces/bbs"@);
        }
    }
    let a = below("."@, "Kota"@);
    let b = below(a, "Workspaces"@);
    assert(a.last() == 'a');
    assert(b.last() == 's');
    assert(below(b, "bbs"@) =~= "./Kota/Workspaces/bbs"@);
}

} // verus!
