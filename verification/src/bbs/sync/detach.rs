//! Carrying out the deletions of a thread: what is taken away, and which
//! surviving versions take the place of posts that are gone.
use vstd::prelude::*;
use crate::bbs::sync::deletions::{commit_promotion, forget_thread, leftovers, logical, logical_posts, observed_models};
use crate::bbs::sync::deletions::{post_leftovers, promote, promoted, promotion, prune, pruned};
use crate::bbs::sync::deletions::{retire_version, version_leftovers, without_thread, Folder, ObservedModel};
use crate::bbs::sync::deletions::{ObservedPost, PromotionSight};
use crate::bbs::sync::model::{lemma_at, lemma_found, suppressed, thread_deleted, tkey, FileStamp, StateModel, SyncState};
use crate::bbs::sync::resources::{attachments_dir, post_path, thread_path};
use crate::ids::{is_safe_id, safe_id};
use crate::order::{parts_lt, Key, OrderedSet, Parts};
use crate::text::{own, plus, texts, Text};
use crate::bbs::sync::resources::marker_path;

verus! {

// --------------------------------------------------------------------- steps

/// What is to be done to the files of a thread, one after the other.
pub enum DetachStep {
    /// Take a file or a directory away, if it is there.
    Retire(String),
    /// The board lists the thread no more.
    Unlist,
    /// The attachments of a version become those of the resident post.
    MoveAttachments { from: String, to: String },
    /// A version becomes the resident one.
    MovePost { from: String, to: String, post: String, version: String },
}

pub enum StepModel {
    Retire(Text),
    Unlist,
    MoveAttachments { from: Text, to: Text },
    MovePost { from: Text, to: Text, post: Text, version: Text },
}

impl View for DetachStep {
    type V = StepModel;

    open spec fn view(&self) -> StepModel {
        match self {
            DetachStep::Retire(p) => StepModel::Retire(p@),
            DetachStep::Unlist => StepModel::Unlist,
            DetachStep::MoveAttachments { from, to } => StepModel::MoveAttachments { from: from@, to: to@ },
            DetachStep::MovePost { from, to, post, version } => StepModel::MovePost {
                from: from@,
                to: to@,
                post: post@,
                version: version@,
            },
        }
    }
}

pub open spec fn step_models(v: Seq<DetachStep>) -> Seq<StepModel> {
    v.map_values(|x: DetachStep| x@)
}

pub open spec fn retires(paths: Seq<Text>) -> Seq<StepModel> {
    paths.map_values(|p: Text| StepModel::Retire(p))
}

/// The steps, and why there are no more of them.
pub struct Detachment {
    pub steps: Vec<DetachStep>,
    pub fault: Option<String>,
}

impl Detachment {
    pub open spec fn models(&self) -> (Seq<StepModel>, Option<Text>) {
        (step_models(self.steps@), match self.fault {
            Some(e) => Some(e@),
            None => None,
        })
    }
}

// ------------------------------------------------------------- deleted posts

/// The posts of a set, in the order of their names.
pub open spec fn lists(order: Seq<Text>, set: Set<Parts>) -> bool {
    &&& forall|i: int| 0 <= i < order.len() ==> set.contains(tkey(#[trigger] order[i]))
    &&& forall|k: Parts| #[trigger] set.contains(k) ==> exists|i: int| 0 <= i < order.len() && k == tkey(#[trigger] order[i])
    &&& forall|i: int, j: int| 0 <= i < j < order.len() ==> parts_lt(tkey(#[trigger] order[i]), tkey(#[trigger] order[j]))
}

/// A deleted post goes with all that lies about of it.
pub open spec fn wholly(thread: Text, order: Seq<Text>) -> (Seq<StepModel>, Option<Text>)
    decreases order.len(),
{
    if order.len() == 0 {
        (Seq::empty(), None)
    } else {
        let rest = wholly(thread, order.drop_last());
        if rest.1 is Some {
            rest
        } else if !is_safe_id(order.last()) {
            (rest.0, Some("invalid_id"@))
        } else {
            (rest.0 + retires(leftovers(thread, order.last())), None)
        }
    }
}

proof fn lemma_wholly_stops(thread: Text, order: Seq<Text>, n: int)
    requires
        0 <= n <= order.len(),
        wholly(thread, order.take(n)).1 is Some,
    ensures
        wholly(thread, order) == wholly(thread, order.take(n)),
    decreases order.len() - n,
{
    if n == order.len() {
        assert(order.take(n) =~= order);
    } else {
        assert(order.take(n + 1).drop_last() =~= order.take(n));
        lemma_wholly_stops(thread, order, n + 1);
    }
}

fn retire_all(steps: &mut Vec<DetachStep>, paths: Vec<String>)
    ensures
        step_models(final(steps)@) == step_models(old(steps)@) + retires(texts(paths@)),
{
    let ghost was = steps@;
    let ghost all = texts(paths@);
    let mut i: usize = 0;
    assert(step_models(steps@) =~= step_models(was) + retires(all.take(0)));
    while i < paths.len()
        invariant
            all == texts(paths@),
            i <= paths@.len(),
            step_models(steps@) == step_models(was) + retires(all.take(i as int)),
        decreases paths@.len() - i,
    {
        let ghost mid = steps@;
        steps.push(DetachStep::Retire(paths[i].clone()));
        proof {
            assert(step_models(steps@) =~= step_models(mid).push(StepModel::Retire(all[i as int])));
            assert(retires(all.take(i + 1)) =~= retires(all.take(i as int)).push(StepModel::Retire(all[i as int])));
        }
        i += 1;
    }
    assert(all.take(all.len() as int) =~= all);
}

fn retire_posts(steps: &mut Vec<DetachStep>, thread: &str, whole: &OrderedSet<String>) -> (r: Result<(), String>)
    requires
        whole.wf(),
        is_safe_id(thread@),
    ensures
        ({
            let w = wholly(thread@, names_in(whole));
            &&& step_models(final(steps)@) == step_models(old(steps)@) + w.0
            &&& r is Ok == w.1 is None
            &&& r matches Err(e) ==> w.1 == Some(e@)
        }),
{
    let ghost was = step_models(steps@);
    let ghost order = names_in(whole);
    let v = &whole.map.entries;
    let mut i: usize = 0;
    proof {
        assert(order.take(0) =~= Seq::empty());
        assert(was =~= was + Seq::<StepModel>::empty());
    }
    while i < v.len()
        invariant
            v == whole.map.entries,
            order == names_in(whole),
            was == step_models(old(steps)@),
            i <= v@.len(),
            is_safe_id(thread@),
            wholly(thread@, order.take(i as int)).1 is None,
            step_models(steps@) == was + wholly(thread@, order.take(i as int)).0,
        decreases v@.len() - i,
    {
        proof {
            assert(order.take(i + 1).drop_last() =~= order.take(i as int));
            assert(order[i as int] == v@[i as int].0@);
        }
        match post_leftovers(thread, &v[i].0) {
            Ok(paths) => {
                retire_all(steps, paths);
                assert(step_models(steps@) =~= was + wholly(thread@, order.take(i + 1)).0);
            },
            Err(e) => {
                proof {
                    lemma_wholly_stops(thread@, order, i + 1);
                }
                return Err(e);
            },
        }
        i += 1;
    }
    assert(order.take(order.len() as int) =~= order);
    Ok(())
}

pub open spec fn names_in(set: &OrderedSet<String>) -> Seq<Text> {
    set.map.entries@.map_values(|e: (String, ())| e.0@)
}

proof fn lemma_names_are_listed(set: OrderedSet<String>)
    requires
        set.wf(),
    ensures
        lists(names_in(&set), set@),
{
    let order = names_in(&set);
    let es = set.map.entries@;
    assert forall|i: int| 0 <= i < order.len() implies set@.contains(tkey(#[trigger] order[i])) by {
        lemma_at(set.map, i);
    }
    assert forall|k: Parts| #[trigger] set@.contains(k) implies exists|i: int|
        0 <= i < order.len() && k == tkey(#[trigger] order[i]) by {
        let i = lemma_found(set.map, k);
        lemma_at(set.map, i);
        assert(order[i] == es[i].0@);
    }
    assert forall|i: int, j: int| 0 <= i < j < order.len() implies parts_lt(
        tkey(#[trigger] order[i]),
        tkey(#[trigger] order[j]),
    ) by {
        lemma_at(set.map, i);
        lemma_at(set.map, j);
        assert(parts_lt(es[i].0.key(), es[j].0.key()));
    }
}

// ---------------------------------------------------------- deleted versions

pub open spec fn versions_out(
    s: StateModel,
    thread: Text,
    whole: Set<Parts>,
    posts: Seq<ObservedModel>,
    sights: Seq<PromotionSight>,
) -> (Seq<StepModel>, Option<Text>)
    decreases posts.len(),
{
    if posts.len() == 0 {
        (Seq::empty(), None)
    } else {
        let rest = versions_out(s, thread, whole, posts.drop_last(), sights);
        if rest.1 is Some {
            rest
        } else {
            match version_leftovers(s, thread, whole, posts.last(), sights[posts.len() - 1].body) {
                Err(e) => (rest.0, Some(e)),
                Ok(v) => (rest.0 + retires(v), None),
            }
        }
    }
}

/// The resident version of this post is taken away.
pub open spec fn vacates(s: StateModel, thread: Text, whole: Set<Parts>, p: ObservedModel, now: Option<FileStamp>, k: Parts) -> bool {
    &&& k == tkey(p.meta.post_id)
    &&& p.location.extra is None
    &&& !whole.contains(k)
    &&& suppressed(s, thread, p.meta.post_id, p.version)
    &&& now == Some(p.stamp)
}

/// The posts whose resident version is taken away.
pub open spec fn vacated(
    s: StateModel,
    thread: Text,
    whole: Set<Parts>,
    posts: Seq<ObservedModel>,
    sights: Seq<PromotionSight>,
) -> Set<Parts> {
    Set::new(
        |k: Parts|
            exists|i: int| 0 <= i < posts.len() && vacates(s, thread, whole, #[trigger] posts[i], sights[i].body, k),
    )
}

proof fn lemma_versions_stop(
    s: StateModel,
    thread: Text,
    whole: Set<Parts>,
    posts: Seq<ObservedModel>,
    sights: Seq<PromotionSight>,
    n: int,
)
    requires
        0 <= n <= posts.len(),
        versions_out(s, thread, whole, posts.take(n), sights).1 is Some,
    ensures
        versions_out(s, thread, whole, posts, sights) == versions_out(s, thread, whole, posts.take(n), sights),
    decreases posts.len() - n,
{
    if n == posts.len() {
        assert(posts.take(n) =~= posts);
    } else {
        assert(posts.take(n + 1).drop_last() =~= posts.take(n));
        lemma_versions_stop(s, thread, whole, posts, sights, n + 1);
    }
}

fn retire_versions(
    steps: &mut Vec<DetachStep>,
    state: &SyncState,
    thread: &str,
    whole: &OrderedSet<String>,
    posts: &Vec<ObservedPost>,
    sights: &Vec<PromotionSight>,
) -> (r: Result<OrderedSet<String>, String>)
    requires
        state.wf(),
        whole.wf(),
        posts@.len() == sights@.len(),
    ensures
        ({
            let w = versions_out(state@, thread@, whole@, observed_models(posts@), sights@);
            &&& step_models(final(steps)@) == step_models(old(steps)@) + w.0
            &&& r is Ok == w.1 is None
            &&& r matches Err(e) ==> w.1 == Some(e@)
            &&& r matches Ok(gone) ==> gone.wf() && gone@ == vacated(
                state@,
                thread@,
                whole@,
                observed_models(posts@),
                sights@,
            )
        }),
{
    let ghost was = step_models(steps@);
    let ghost all = observed_models(posts@);
    let mut gone: OrderedSet<String> = OrderedSet::new();
    let mut i: usize = 0;
    proof {
        assert(all.take(0) =~= Seq::empty());
        assert(was =~= was + Seq::<StepModel>::empty());
        assert(gone@ =~= vacated(state@, thread@, whole@, all.take(0), sights@));
    }
    while i < posts.len()
        invariant
            state.wf(),
            whole.wf(),
            gone.wf(),
            all == observed_models(posts@),
            was == step_models(old(steps)@),
            posts@.len() == sights@.len(),
            i <= posts@.len(),
            versions_out(state@, thread@, whole@, all.take(i as int), sights@).1 is None,
            step_models(steps@) == was + versions_out(state@, thread@, whole@, all.take(i as int), sights@).0,
            gone@ == vacated(state@, thread@, whole@, all.take(i as int), sights@),
        decreases posts@.len() - i,
    {
        let p = &posts[i];
        let ghost n = i as int;
        let ghost before = gone@;
        proof {
            assert(all.take(n + 1).drop_last() =~= all.take(n));
            assert(all.take(n + 1).last() == p@);
        }
        match retire_version(state, thread, whole, p, sights[i].body) {
            Ok(paths) => {
                if !paths.is_empty() && p.location.extra.is_none() {
                    gone.insert(p.meta.post_id.clone());
                }
                proof {
                    let v = version_leftovers(state@, thread@, whole@, p@, sights@[n].body)->Ok_0;
                    assert(texts(paths@) == v);
                    assert(paths@.len() == v.len());
                    let next = vacated(state@, thread@, whole@, all.take(n + 1), sights@);
                    assert forall|k: Parts| gone@.contains(k) == next.contains(k) by {
                        if before.contains(k) {
                            let j = choose|j: int|
                                0 <= j < n && vacates(
                                    state@,
                                    thread@,
                                    whole@,
                                    #[trigger] all.take(n)[j],
                                    sights@[j].body,
                                    k,
                                );
                            assert(all.take(n + 1)[j] == all.take(n)[j]);
                        }
                        if next.contains(k) && !before.contains(k) {
                            let j = choose|j: int|
                                0 <= j < n + 1 && vacates(
                                    state@,
                                    thread@,
                                    whole@,
                                    #[trigger] all.take(n + 1)[j],
                                    sights@[j].body,
                                    k,
                                );
                            if j < n {
                                assert(all.take(n)[j] == all.take(n + 1)[j]);
                            }
                            assert(j == n);
                        }
                        if gone@.contains(k) && !before.contains(k) {
                            assert(vacates(state@, thread@, whole@, all.take(n + 1)[n], sights@[n].body, k));
                        }
                    }
                    assert(gone@ =~= next);
                }
                retire_all(steps, paths);
                assert(step_models(steps@) =~= was + versions_out(state@, thread@, whole@, all.take(n + 1), sights@).0);
            },
            Err(e) => {
                proof {
                    lemma_versions_stop(state@, thread@, whole@, all, sights@, n + 1);
                }
                return Err(e);
            },
        }
        i += 1;
    }
    assert(all.take(all.len() as int) =~= all);
    Ok(gone)
}

// ---------------------------------------------------------------- promotions

/// What is found around a version once the resident one was taken away.
pub open spec fn sight_now(gone: bool, s: PromotionSight) -> PromotionSight {
    if gone {
        PromotionSight { resident: None, target_there: false, ..s }
    } else {
        s
    }
}

/// A version takes the resident's place, with its attachments.
pub open spec fn moves(thread: Text, p: ObservedModel, folder: Folder) -> Seq<StepModel> {
    let post = p.meta.post_id;
    let to = attachments_dir(thread, post, None);
    (match folder {
        Folder::Keep => Seq::<StepModel>::empty(),
        Folder::Retire => seq![StepModel::Retire(to)],
        Folder::Replace => seq![
            StepModel::Retire(to),
            StepModel::MoveAttachments { from: attachments_dir(thread, p.location.post, p.location.extra), to },
        ],
    }).push(
        StepModel::MovePost {
            from: post_path(thread, p.location.post, p.location.extra),
            to: post_path(thread, post, None),
            post,
            version: p.version,
        },
    )
}

/// The moves, why there are no more of them, and the posts that were moved.
pub open spec fn promotions(
    s: StateModel,
    thread: Text,
    gone: Set<Parts>,
    posts: Seq<ObservedModel>,
    sights: Seq<PromotionSight>,
) -> (Seq<StepModel>, Option<Text>, Set<Parts>)
    decreases posts.len(),
{
    if posts.len() == 0 {
        (Seq::empty(), None, Set::empty())
    } else {
        let rest = promotions(s, thread, gone, posts.drop_last(), sights);
        let p = posts.last();
        let k = tkey(p.meta.post_id);
        if rest.1 is Some || p.location.extra is None || rest.2.contains(k) || suppressed(
            s,
            thread,
            p.meta.post_id,
            p.version,
        ) {
            rest
        } else if !is_safe_id(p.meta.post_id) {
            (rest.0, Some("invalid_id"@), rest.2)
        } else {
            match promotion(s, rest.2, thread, p, sight_now(gone.contains(k), sights[posts.len() - 1])) {
                Err(e) => (rest.0, Some(e), rest.2),
                Ok(None) => rest,
                Ok(Some(folder)) => (rest.0 + moves(thread, p, folder), None, rest.2.insert(k)),
            }
        }
    }
}

proof fn lemma_promotions_stop(
    s: StateModel,
    thread: Text,
    gone: Set<Parts>,
    posts: Seq<ObservedModel>,
    sights: Seq<PromotionSight>,
    n: int,
)
    requires
        0 <= n <= posts.len(),
        promotions(s, thread, gone, posts.take(n), sights).1 is Some,
    ensures
        promotions(s, thread, gone, posts, sights) == promotions(s, thread, gone, posts.take(n), sights),
    decreases posts.len() - n,
{
    if n == posts.len() {
        assert(posts.take(n) =~= posts);
    } else {
        assert(posts.take(n + 1).drop_last() =~= posts.take(n));
        lemma_promotions_stop(s, thread, gone, posts, sights, n + 1);
    }
}

fn attachments_of(thread: &str, post: &str, extra: &Option<String>) -> (r: String)
    ensures
        r@ == attachments_dir(thread@, post@, match *extra {
            Some(v) => Some(v@),
            None => None,
        }),
{
    let mut p = plus("threads/", thread);
    match extra {
        Some(v) => {
            p.append("/versions/");
            p.append(post);
            p.append("/");
            p.append(v);
            p.append("/attachments");
        },
        None => {
            p.append("/attachments/");
            p.append(post);
        },
    }
    p
}

fn file_of(thread: &str, post: &str, extra: &Option<String>) -> (r: String)
    ensures
        r@ == post_path(thread@, post@, match *extra {
            Some(v) => Some(v@),
            None => None,
        }),
{
    let mut p = plus("threads/", thread);
    match extra {
        Some(v) => {
            p.append("/versions/");
            p.append(post);
            p.append("/");
            p.append(v);
            p.append("/post.md");
        },
        None => {
            p.append("/posts/");
            p.append(post);
            p.append(".md");
        },
    }
    p
}

fn move_version(steps: &mut Vec<DetachStep>, thread: &str, p: &ObservedPost, folder: Folder)
    ensures
        step_models(final(steps)@) == step_models(old(steps)@) + moves(thread@, p@, folder),
{
    let ghost was = step_models(steps@);
    let post = &p.meta.post_id;
    match folder {
        Folder::Keep => {},
        Folder::Retire => {
            steps.push(DetachStep::Retire(attachments_of(thread, post, &None)));
        },
        Folder::Replace => {
            steps.push(DetachStep::Retire(attachments_of(thread, post, &None)));
            steps.push(
                DetachStep::MoveAttachments {
                    from: attachments_of(thread, &p.location.post, &p.location.extra),
                    to: attachments_of(thread, post, &None),
                },
            );
        },
    }
    steps.push(
        DetachStep::MovePost {
            from: file_of(thread, &p.location.post, &p.location.extra),
            to: file_of(thread, post, &None),
            post: post.clone(),
            version: p.version.clone(),
        },
    );
    assert(step_models(steps@) =~= was + moves(thread@, p@, folder));
}

fn promote_versions(
    steps: &mut Vec<DetachStep>,
    state: &SyncState,
    thread: &str,
    gone: &OrderedSet<String>,
    posts: &Vec<ObservedPost>,
    sights: &Vec<PromotionSight>,
) -> (r: Result<(), String>)
    requires
        state.wf(),
        gone.wf(),
        posts@.len() == sights@.len(),
    ensures
        ({
            let w = promotions(state@, thread@, gone@, observed_models(posts@), sights@);
            &&& step_models(final(steps)@) == step_models(old(steps)@) + w.0
            &&& r is Ok == w.1 is None
            &&& r matches Err(e) ==> w.1 == Some(e@)
        }),
{
    let ghost was = step_models(steps@);
    let ghost all = observed_models(posts@);
    let mut done: OrderedSet<String> = OrderedSet::new();
    let mut i: usize = 0;
    proof {
        assert(all.take(0) =~= Seq::empty());
        assert(was =~= was + Seq::<StepModel>::empty());
    }
    while i < posts.len()
        invariant
            state.wf(),
            gone.wf(),
            done.wf(),
            all == observed_models(posts@),
            was == step_models(old(steps)@),
            posts@.len() == sights@.len(),
            i <= posts@.len(),
            promotions(state@, thread@, gone@, all.take(i as int), sights@).1 is None,
            step_models(steps@) == was + promotions(state@, thread@, gone@, all.take(i as int), sights@).0,
            done@ == promotions(state@, thread@, gone@, all.take(i as int), sights@).2,
        decreases posts@.len() - i,
    {
        let p = &posts[i];
        let post = &p.meta.post_id;
        let ghost n = i as int;
        proof {
            assert(all.take(n + 1).drop_last() =~= all.take(n));
            assert(all.take(n + 1).last() == p@);
        }
        i += 1;
        if p.location.extra.is_none() || done.has(post) || state.suppressed(thread, post, &p.version) {
            continue;
        }
        if !safe_id(post) {
            proof {
                lemma_promotions_stop(state@, thread@, gone@, all, sights@, n + 1);
            }
            return Err(own("invalid_id"));
        }
        let seen = &sights[i - 1];
        let empty = gone.has(post);
        let sight = PromotionSight {
            resident: if empty {
                None
            } else {
                seen.resident
            },
            body: seen.body,
            source: seen.source,
            target_there: !empty && seen.target_there,
            moved_intact: seen.moved_intact,
        };
        assert(sight == sight_now(gone@.contains(tkey(post@)), sights@[n]));
        match promote(state, &mut done, thread, p, &sight) {
            Err(e) => {
                proof {
                    lemma_promotions_stop(state@, thread@, gone@, all, sights@, n + 1);
                }
                return Err(e);
            },
            Ok(None) => {},
            Ok(Some(folder)) => {
                move_version(steps, thread, p, folder);
                assert(step_models(steps@) =~= was + promotions(state@, thread@, gone@, all.take(n + 1), sights@).0);
            },
        }
    }
    assert(all.take(all.len() as int) =~= all);
    Ok(())
}

// ----------------------------------------------------------------- the whole

/// What carrying out the deletions of a thread comes to. A deleted thread goes
/// as a whole. Else the deleted posts go first, then the deleted versions of
/// other posts, and then surviving versions take the free places.
pub open spec fn detachment(
    s: StateModel,
    thread: Text,
    order: Seq<Text>,
    posts: Seq<ObservedModel>,
    sights: Seq<PromotionSight>,
) -> (Seq<StepModel>, Option<Text>) {
    let whole = logical(s, thread);
    let first = wholly(thread, order);
    let second = versions_out(s, thread, whole, posts, sights);
    let third = promotions(s, thread, vacated(s, thread, whole, posts, sights), posts, sights);
    if !is_safe_id(thread) {
        (Seq::empty(), Some("invalid_id"@))
    } else if thread_deleted(s, thread) {
        (seq![StepModel::Retire(thread_path(thread)), StepModel::Unlist], None)
    } else if first.1 is Some {
        first
    } else if second.1 is Some {
        (first.0 + second.0, second.1)
    } else {
        (first.0 + second.0 + third.0, third.1)
    }
}

/// The steps that carry out the deletions of a thread. `sights` say what is
/// found of each post before any step is taken.
pub fn plan_detach(state: &SyncState, thread: &str, posts: &Vec<ObservedPost>, sights: &Vec<PromotionSight>) -> (r:
    Detachment)
    requires
        state.wf(),
        posts@.len() == sights@.len(),
    ensures
        exists|order: Seq<Text>| #[trigger]
            lists(order, logical(state@, thread@)) && r.models() == detachment(
                state@,
                thread@,
                order,
                observed_models(posts@),
                sights@,
            ),
{
    let whole = logical_posts(state, thread);
    let ghost order = names_in(&whole);
    let ghost all = observed_models(posts@);
    let mut steps: Vec<DetachStep> = Vec::new();
    proof {
        lemma_names_are_listed(whole);
        assert(step_models(steps@) =~= Seq::empty());
    }
    if !safe_id(thread) {
        let r = Detachment { steps, fault: Some(own("invalid_id")) };
        assert(r.models() == detachment(state@, thread@, order, all, sights@));
        return r;
    }
    if state.thread_deleted(thread) {
        steps.push(DetachStep::Retire(plus("threads/", thread)));
        steps.push(DetachStep::Unlist);
        let r = Detachment { steps, fault: None };
        assert(r.models().0 =~= detachment(state@, thread@, order, all, sights@).0);
        return r;
    }
    if let Err(e) = retire_posts(&mut steps, thread, &whole) {
        let r = Detachment { steps, fault: Some(e) };
        assert(r.models().0 =~= detachment(state@, thread@, order, all, sights@).0);
        return r;
    }
    let ghost one = step_models(steps@);
    assert(one =~= wholly(thread@, order).0);
    let gone = match retire_versions(&mut steps, state, thread, &whole, posts, sights) {
        Ok(gone) => gone,
        Err(e) => {
            let r = Detachment { steps, fault: Some(e) };
            assert(r.models().0 =~= detachment(state@, thread@, order, all, sights@).0);
            return r;
        },
    };
    let fault = match promote_versions(&mut steps, state, thread, &gone, posts, sights) {
        Ok(_) => None,
        Err(e) => Some(e),
    };
    let r = Detachment { steps, fault };
    assert(r.models().0 =~= detachment(state@, thread@, order, all, sights@).0);
    r
}

// ------------------------------------------------------------------- the end

/// A version that was moved, and its file afterwards.
pub struct Moved {
    pub post: String,
    pub version: String,
    pub stamp: Option<FileStamp>,
}

pub open spec fn all_promoted(s: StateModel, moved: Seq<Moved>) -> StateModel
    decreases moved.len(),
{
    if moved.len() == 0 {
        s
    } else {
        let m = moved.last();
        promoted(all_promoted(s, moved.drop_last()), m.post@, m.version@, m.stamp)
    }
}

/// The state once the steps were taken.
pub open spec fn detached(s: StateModel, thread: Text, moved: Seq<Moved>) -> StateModel {
    if thread_deleted(s, thread) {
        without_thread(s, thread)
    } else {
        pruned(all_promoted(s, moved), thread, logical(s, thread))
    }
}

pub fn finish_detach(state: &mut SyncState, thread: &str, moved: &Vec<Moved>)
    requires
        old(state).wf(),
    ensures
        final(state).wf(),
        final(state)@ == detached(old(state)@, thread@, moved@),
{
    if state.thread_deleted(thread) {
        forget_thread(state, thread);
        return;
    }
    let ghost was = state@;
    let whole = logical_posts(state, thread);
    let mut i: usize = 0;
    assert(moved@.take(0) =~= Seq::empty());
    while i < moved.len()
        invariant
            state.wf(),
            i <= moved@.len(),
            state@ == all_promoted(was, moved@.take(i as int)),
        decreases moved@.len() - i,
    {
        assert(moved@.take(i + 1).drop_last() =~= moved@.take(i as int));
        commit_promotion(state, &moved[i].post, &moved[i].version, moved[i].stamp);
        i += 1;
    }
    assert(moved@.take(moved@.len() as int) =~= moved@);
    prune(state, thread, &whole);
}

// ---------------------------------------------------------------------- laws

proof fn lemma_moved(
    s: StateModel,
    thread: Text,
    gone: Set<Parts>,
    posts: Seq<ObservedModel>,
    sights: Seq<PromotionSight>,
)
    ensures
        ({
            let w = promotions(s, thread, gone, posts, sights);
            &&& forall|i: int|
                0 <= i < w.0.len() ==> ((#[trigger] w.0[i]) matches StepModel::MovePost { post, version, .. } ==> {
                    &&& w.2.contains(tkey(post))
                    &&& !suppressed(s, thread, post, version)
                })
            &&& forall|i: int, j: int|
                0 <= i < j < w.0.len() && (#[trigger] w.0[i]) is MovePost && (#[trigger] w.0[j]) is MovePost
                    ==> w.0[i]->post != w.0[j]->post
        }),
    decreases posts.len(),
{
    if posts.len() > 0 {
        lemma_moved(s, thread, gone, posts.drop_last(), sights);
        let rest = promotions(s, thread, gone, posts.drop_last(), sights);
        let w = promotions(s, thread, gone, posts, sights);
        let p = posts.last();
        if w.0 != rest.0 {
            let n = rest.0.len() as int;
            assert forall|i: int| 0 <= i < n implies w.0[i] == rest.0[i] by {}
            assert forall|i: int| n <= i < w.0.len() && (#[trigger] w.0[i]) is MovePost implies i == w.0.len() - 1
                && w.0[i]->post == p.meta.post_id && w.0[i]->MovePost_version == p.version by {}
            assert forall|i: int, j: int|
                0 <= i < j < w.0.len() && (#[trigger] w.0[i]) is MovePost && (#[trigger] w.0[j])
                    is MovePost implies w.0[i]->post != w.0[j]->post by {
                if j >= n && i < n {
                    assert(rest.2.contains(tkey(rest.0[i]->post)));
                }
            }
        }
    }
}

/// At most one version takes the place of a post, and it is not deleted.
pub proof fn one_survivor_takes_the_place(
    s: StateModel,
    thread: Text,
    gone: Set<Parts>,
    posts: Seq<ObservedModel>,
    sights: Seq<PromotionSight>,
    i: int,
    j: int,
)
    requires
        0 <= i < promotions(s, thread, gone, posts, sights).0.len(),
        0 <= j < promotions(s, thread, gone, posts, sights).0.len(),
        promotions(s, thread, gone, posts, sights).0[i] is MovePost,
        promotions(s, thread, gone, posts, sights).0[j] is MovePost,
        promotions(s, thread, gone, posts, sights).0[i]->post == promotions(s, thread, gone, posts, sights).0[j]->post,
    ensures
        i == j,
        ({
            let step = promotions(s, thread, gone, posts, sights).0[i];
            !suppressed(s, thread, step->post, step->version)
        }),
{
    lemma_moved(s, thread, gone, posts, sights);
    let w = promotions(s, thread, gone, posts, sights).0;
    if i < j {
        assert(w[i]->post != w[j]->post);
    }
    if j < i {
        assert(w[j]->post != w[i]->post);
    }
}

/// Once the deletions of a thread were carried out, the ledger holds nothing
/// of it that is deleted.
pub proof fn nothing_deleted_remains(s: StateModel, thread: Text, moved: Seq<Moved>, k: Parts)
    requires
        detached(s, thread, moved).ledger.contains_key(k),
        detached(s, thread, moved).ledger[k].thread_id == thread,
    ensures
        ({
            let t = detached(s, thread, moved);
            !suppressed(t, thread, t.ledger[k].post_id, t.ledger[k].version_id)
        }),
{
    if !thread_deleted(s, thread) {
        crate::bbs::sync::deletions::nothing_deleted_is_left(all_promoted(s, moved), thread, logical(s, thread), k);
    }
}

/// A deleted thread goes with its directory and leaves the board's list; nothing
/// else is done to it.
pub proof fn a_deleted_thread_goes_whole(
    s: StateModel,
    thread: Text,
    order: Seq<Text>,
    posts: Seq<ObservedModel>,
    sights: Seq<PromotionSight>,
    moved: Seq<Moved>,
    k: Parts,
)
    requires
        is_safe_id(thread),
        thread_deleted(s, thread),
    ensures
        detachment(s, thread, order, posts, sights).1 is None,
        detachment(s, thread, order, posts, sights).0.len() == 2,
        detachment(s, thread, order, posts, sights).0[0] == StepModel::Retire("threads/"@ + thread),
        detachment(s, thread, order, posts, sights).0[1] is Unlist,
        detached(s, thread, moved).ledger.contains_key(k) ==> detached(s, thread, moved).ledger[k].thread_id != thread,
        !detached(s, thread, moved).records.contains_key(tkey(thread)),
{
}

proof fn lemma_wholly_has(thread: Text, order: Seq<Text>, i: int)
    requires
        wholly(thread, order).1 is None,
        0 <= i < order.len(),
    ensures
        wholly(thread, order).0.contains(StepModel::Retire(post_path(thread, order[i], None))),
        wholly(thread, order).0.contains(StepModel::Retire(marker_path(thread, order[i]))),
    decreases order.len(),
{
    let head = order.drop_last();
    let rest = wholly(thread, head).0;
    let own = retires(leftovers(thread, order.last()));
    let out = wholly(thread, order).0;
    if i < head.len() {
        assert(head[i] == order[i]);
        lemma_wholly_has(thread, head, i);
        let a = choose|a: int| 0 <= a < rest.len() && rest[a] == StepModel::Retire(post_path(thread, order[i], None));
        assert(out[a] == rest[a]);
        let b = choose|b: int| 0 <= b < rest.len() && rest[b] == StepModel::Retire(marker_path(thread, order[i]));
        assert(out[b] == rest[b]);
    } else {
        assert(own[0] == StepModel::Retire(post_path(thread, order[i], None)));
        assert(own[4] == StepModel::Retire(marker_path(thread, order[i])));
        assert(out[rest.len() as int] == own[0]);
        assert(out[rest.len() as int + 4] == own[4]);
    }
}

/// The files of every post that is deleted with all its versions are taken
/// away.
pub proof fn every_deleted_post_goes(
    s: StateModel,
    thread: Text,
    order: Seq<Text>,
    posts: Seq<ObservedModel>,
    sights: Seq<PromotionSight>,
    post: Text,
)
    requires
        lists(order, logical(s, thread)),
        logical(s, thread).contains(tkey(post)),
        !thread_deleted(s, thread),
        detachment(s, thread, order, posts, sights).1 is None,
    ensures
        detachment(s, thread, order, posts, sights).0.contains(StepModel::Retire(post_path(thread, post, None))),
        detachment(s, thread, order, posts, sights).0.contains(StepModel::Retire(marker_path(thread, post))),
{
    let i = choose|i: int| 0 <= i < order.len() && tkey(post) == tkey(#[trigger] order[i]);
    assert(tkey(post)[0] == post && tkey(order[i])[0] == order[i]);
    lemma_wholly_has(thread, order, i);
    let first = wholly(thread, order).0;
    let all = detachment(s, thread, order, posts, sights).0;
    let a = choose|a: int| 0 <= a < first.len() && first[a] == StepModel::Retire(post_path(thread, post, None));
    assert(all[a] == first[a]);
    let b = choose|b: int| 0 <= b < first.len() && first[b] == StepModel::Retire(marker_path(thread, post));
    assert(all[b] == first[b]);
}

/// A version that takes the place of its post is moved from its own directory to
/// the post's file, under its own name; its attachments, if it has some, go
/// along once those that lie there are taken away.
pub proof fn a_version_moves_to_the_place_of_its_post(thread: Text, p: ObservedModel, folder: Folder)
    ensures
        ({
            let s = moves(thread, p, folder);
            let to = attachments_dir(thread, p.meta.post_id, None);
            &&& s.last() == StepModel::MovePost {
                from: post_path(thread, p.location.post, p.location.extra),
                to: post_path(thread, p.meta.post_id, None),
                post: p.meta.post_id,
                version: p.version,
            }
            &&& folder == Folder::Keep ==> s.len() == 1
            &&& folder == Folder::Retire ==> s.len() == 2 && s[0] == StepModel::Retire(to)
            &&& folder == Folder::Replace ==> s.len() == 3 && s[0] == StepModel::Retire(to) && s[1]
                == StepModel::MoveAttachments {
                from: attachments_dir(thread, p.location.post, p.location.extra),
                to,
            }
        }),
{
}

/// The place of a post is free exactly for what is found there after the
/// resident version went.
pub proof fn a_vacated_place_is_free(gone: bool, s: PromotionSight)
    ensures
        gone ==> sight_now(gone, s).resident is None && !sight_now(gone, s).target_there,
        !gone ==> sight_now(gone, s) == s,
        sight_now(gone, s).body == s.body && sight_now(gone, s).source == s.source && sight_now(gone, s).moved_intact
            == s.moved_intact,
{
}

/// The place of a post becomes free exactly if its resident version is deleted
/// and still there as it was seen, and the post does not go as a whole.
pub proof fn a_deleted_resident_vacates_its_place(
    s: StateModel,
    thread: Text,
    whole: Set<Parts>,
    posts: Seq<ObservedModel>,
    sights: Seq<PromotionSight>,
    i: int,
    post: Text,
)
    ensures
        0 <= i < posts.len() && posts[i].location.extra is None && !whole.contains(tkey(posts[i].meta.post_id)) && suppressed(
            s,
            thread,
            posts[i].meta.post_id,
            posts[i].version,
        ) && sights[i].body == Some(posts[i].stamp) ==> vacated(s, thread, whole, posts, sights).contains(
            tkey(posts[i].meta.post_id),
        ),
        vacated(s, thread, whole, posts, sights).contains(tkey(post)) ==> !whole.contains(tkey(post)) && exists|k: int|
            0 <= k < posts.len() && (#[trigger] posts[k]).meta.post_id == post && posts[k].location.extra is None
                && suppressed(s, thread, post, posts[k].version) && sights[k].body == Some(posts[k].stamp),
{
    if 0 <= i < posts.len() && posts[i].location.extra is None && !whole.contains(tkey(posts[i].meta.post_id))
        && suppressed(s, thread, posts[i].meta.post_id, posts[i].version) && sights[i].body == Some(posts[i].stamp) {
        assert(vacates(s, thread, whole, posts[i], sights[i].body, tkey(posts[i].meta.post_id)));
    }
    if vacated(s, thread, whole, posts, sights).contains(tkey(post)) {
        let k = choose|k: int|
            0 <= k < posts.len() && vacates(s, thread, whole, #[trigger] posts[k], sights[k].body, tkey(post));
        assert(tkey(post)[0] == post && tkey(posts[k].meta.post_id)[0] == posts[k].meta.post_id);
        assert(posts[k].meta.post_id == post);
    }
}

/// Moves are entered one after the other.
pub proof fn moves_are_entered_one_by_one(s: StateModel, moved: Seq<Moved>, m: Moved)
    ensures
        all_promoted(s, Seq::empty()) == s,
        all_promoted(s, moved.push(m)) == promoted(all_promoted(s, moved), m.post@, m.version@, m.stamp),
{
    assert(moved.push(m).drop_last() =~= moved);
    assert(moved.push(m).last() == m);
}

} // verus!
