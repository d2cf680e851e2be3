//! Deleting posts, versions and threads. What is deleted is remembered before
//! any file is touched.
use vstd::prelude::*;
use crate::bbs::posts::{attachment_refs, post_refs};
use crate::bbs::sync::inspect::Reading;
use crate::bbs::sync::inventory::{checked_file, judge_reading, LocationModel, PostLocation};
use crate::bbs::sync::model::{buried, covers, is_kind, known_kind, lemma_at, lemma_found, ref_models, same_stamp};
use crate::bbs::sync::model::{suppressed, thread_deleted, tkey, tomb_key, tombs_keyed, version_key, AttachmentRef};
use crate::bbs::sync::model::{FileStamp, LedgerEntry, RefModel, RowModel, StateModel, SyncState, TombModel};
use crate::bbs::sync::model::{Tombstone, UnavailablePost};
use crate::bbs::sync::refresh::{elsewhere, Elsewhere};
use crate::bbs::sync::resources::{attachments_dir, marker_path, post_path, ref_file, sidecar_path, sidecar_relative};
use crate::bbs::sync::resources::{thread_path, version_dir};
use crate::bbs::types::{BbsPostMeta, PostModel};
use crate::ids::{is_hash, is_safe_id, safe_id, valid_hash};
use crate::order::{Key, OrderedSet, Parts, Rule};
use crate::outside::{canonical_uuid, now_iso, parse_uuid};
use crate::text::{begins, copy_opt, ends, opt_text, own, plus, plus3, same, strip_back, strip_front, texts, Text};
use crate::bbs::sync::model::thread_key;
use crate::bbs::sync::model::a_deleted_thread_has_no_posts;

verus! {

// --------------------------------------------------------------- observation

/// A file that has the name of a post, as it was read.
pub struct Observation {
    pub location: PostLocation,
    pub before: Option<FileStamp>,
    /// What was read in it, and its hash; nothing if it could not be read.
    pub read: Option<(BbsPostMeta, String)>,
    pub after: Option<FileStamp>,
}

/// A post that was read.
pub struct ObservedPost {
    pub location: PostLocation,
    pub meta: BbsPostMeta,
    pub version: String,
    pub stamp: FileStamp,
}

pub struct ObservedModel {
    pub location: LocationModel,
    pub meta: PostModel,
    pub version: Text,
    pub stamp: FileStamp,
}

impl View for ObservedPost {
    type V = ObservedModel;

    open spec fn view(&self) -> ObservedModel {
        ObservedModel { location: self.location@, meta: self.meta@, version: self.version@, stamp: self.stamp }
    }
}

pub open spec fn observed_models(s: Seq<ObservedPost>) -> Seq<ObservedModel> {
    s.map_values(|p: ObservedPost| p@)
}

/// The file is a post of this thread, and lies where it belongs.
pub open spec fn belongs(thread: Text, o: Observation) -> bool {
    o.before is Some && (o.read matches Some(x) && x.0@.thread_id == thread && x.0@.post_id == o.location@.post && is_kind(
        x.0@.kind,
    ))
}

pub open spec fn observed_as(o: Observation) -> ObservedModel {
    ObservedModel { location: o.location@, meta: (o.read->0).0@, version: (o.read->0).1@, stamp: o.before->0 }
}

/// The posts among the files. A post that changed while it was read is an
/// error.
pub open spec fn observed(thread: Text, s: Seq<Observation>) -> Result<Seq<ObservedModel>, Text>
    decreases s.len(),
{
    if s.len() == 0 {
        Ok(Seq::empty())
    } else {
        match observed(thread, s.drop_last()) {
            Err(e) => Err(e),
            Ok(v) => if !belongs(thread, s.last()) {
                Ok(v)
            } else if s.last().after != s.last().before {
                Err("source_changed"@)
            } else {
                Ok(v.push(observed_as(s.last())))
            },
        }
    }
}

pub open spec fn observed_result(r: Result<Vec<ObservedPost>, String>) -> Result<Seq<ObservedModel>, Text> {
    match r {
        Ok(v) => Ok(observed_models(v@)),
        Err(e) => Err(e@),
    }
}

proof fn lemma_observed_error(thread: Text, s: Seq<Observation>, n: int)
    requires
        0 <= n <= s.len(),
        observed(thread, s.take(n)) is Err,
    ensures
        observed(thread, s) == observed(thread, s.take(n)),
    decreases s.len() - n,
{
    if n == s.len() {
        assert(s.take(n) =~= s);
    } else {
        assert(s.take(n + 1).drop_last() =~= s.take(n));
        lemma_observed_error(thread, s, n + 1);
    }
}

pub fn observed_posts(thread: &str, found: Vec<Observation>) -> (r: Result<Vec<ObservedPost>, String>)
    ensures
        observed_result(r) == observed(thread@, found@),
{
    let ghost all = found@;
    let ghost mut n: int = 0;
    let mut rest = found;
    let mut out: Vec<ObservedPost> = Vec::new();
    assert(all.take(0) =~= Seq::empty());
    assert(rest@ =~= all.skip(0));
    assert(observed_models(out@) =~= Seq::empty());
    while rest.len() > 0
        invariant
            0 <= n <= all.len(),
            all == found@,
            rest@ == all.skip(n),
            observed(thread@, all.take(n)) == Ok::<Seq<ObservedModel>, Text>(observed_models(out@)),
        decreases rest@.len(),
    {
        let ghost was = out@;
        let o = rest.remove(0);
        proof {
            assert(o == all[n]);
            assert(all.take(n + 1).drop_last() =~= all.take(n));
            assert(all.take(n + 1).last() == o);
            assert(rest@ =~= all.skip(n + 1));
        }
        if let Some(before) = o.before {
            if let Some((meta, version)) = o.read {
                if same(&meta.thread_id, thread) && same(&meta.post_id, &o.location.post) && known_kind(&meta.kind) {
                    assert(belongs(thread@, all[n]));
                    if !same_stamp(&o.after, &Some(before)) {
                        proof {
                            lemma_observed_error(thread@, all, n + 1);
                        }
                        return Err(own("source_changed"));
                    }
                    out.push(ObservedPost { location: o.location, meta, version, stamp: before });
                    assert(observed_models(out@) =~= observed_models(was).push(out@.last()@));
                }
            }
        }
        proof {
            n = n + 1;
        }
    }
    assert(all.take(n) =~= all);
    Ok(out)
}

// ------------------------------------------------------------------ deletion

/// The post that a deletion names.
pub open spec fn is_target(p: ObservedModel, post: Text, version: Option<Text>) -> bool {
    p.meta.post_id == post && (version matches Some(v) ==> p.version == v)
}

pub open spec fn first_target(s: Seq<ObservedModel>, post: Text, version: Option<Text>, i: int) -> bool {
    0 <= i < s.len() && is_target(s[i], post, version) && forall|j: int| 0 <= j < i ==> !is_target(
        #[trigger] s[j],
        post,
        version,
    )
}

pub open spec fn has_target(s: Seq<ObservedModel>, post: Text, version: Option<Text>) -> bool {
    exists|i: int| 0 <= i < s.len() && is_target(#[trigger] s[i], post, version)
}

pub open spec fn target_of(s: Seq<ObservedModel>, post: Text, version: Option<Text>) -> int {
    choose|i: int| first_target(s, post, version, i)
}

fn find_target(s: &Vec<ObservedPost>, post: &str, version: &Option<String>) -> (r: Option<usize>)
    ensures
        r is Some == has_target(observed_models(s@), post@, opt_text(*version)),
        r matches Some(i) ==> i < s@.len() && i == target_of(observed_models(s@), post@, opt_text(*version)),
{
    let ghost all = observed_models(s@);
    let ghost v = opt_text(*version);
    let mut i: usize = 0;
    while i < s.len()
        invariant
            all == observed_models(s@),
            v == opt_text(*version),
            i <= s@.len(),
            forall|j: int| 0 <= j < i ==> !is_target(#[trigger] all[j], post@, v),
        decreases s@.len() - i,
    {
        assert(all[i as int] == s@[i as int]@);
        let hit = same(&s[i].meta.post_id, post) && (match version {
            Some(x) => same(&s[i].version, x),
            None => true,
        });
        if hit {
            proof {
                assert(first_target(all, post@, v, i as int));
                let c = target_of(all, post@, v);
                assert(first_target(all, post@, v, c));
                if c < i {
                    assert(!is_target(all[c], post@, v));
                } else if i < c {
                    assert(!is_target(all[i as int], post@, v));
                }
            }
            return Some(i);
        }
        i += 1;
    }
    None
}

/// The versions of a post that are still there.
pub open spec fn survives(s: StateModel, thread: Text, post: Text, p: ObservedModel, now: Option<FileStamp>) -> bool {
    p.meta.post_id == post && !suppressed(s, thread, post, p.version) && now == Some(p.stamp)
}

pub open spec fn survivors(
    s: StateModel,
    thread: Text,
    post: Text,
    posts: Seq<ObservedModel>,
    now: Seq<Option<FileStamp>>,
) -> Set<Parts> {
    Set::new(
        |k: Parts|
            exists|i: int|
                0 <= i < posts.len() && survives(s, thread, post, #[trigger] posts[i], now[i]) && k == tkey(
                    posts[i].version,
                ),
    )
}

fn surviving(state: &SyncState, thread: &str, post: &str, posts: &Vec<ObservedPost>, now: &Vec<Option<FileStamp>>) -> (r: usize)
    requires
        state.wf(),
        posts@.len() == now@.len(),
    ensures
        survivors(state@, thread@, post@, observed_models(posts@), now@).finite(),
        r == survivors(state@, thread@, post@, observed_models(posts@), now@).len(),
{
    let ghost all = observed_models(posts@);
    let mut set: OrderedSet<String> = OrderedSet::new();
    let mut i: usize = 0;
    while i < posts.len()
        invariant
            state.wf(),
            posts@.len() == now@.len(),
            all == observed_models(posts@),
            i <= posts@.len(),
            set.wf(),
            forall|k: Parts|
                #[trigger] set@.contains(k) <==> exists|j: int|
                    0 <= j < i && survives(state@, thread@, post@, #[trigger] all[j], now@[j]) && k == tkey(
                        all[j].version,
                    ),
        decreases posts@.len() - i,
    {
        let ghost was = set@;
        let p = &posts[i];
        assert(all[i as int] == p@);
        let alive = same(&p.meta.post_id, post) && !state.suppressed(thread, post, &p.version) && same_stamp(
            &now[i],
            &Some(p.stamp),
        );
        assert(alive == survives(state@, thread@, post@, all[i as int], now@[i as int]));
        if alive {
            set.insert(p.version.clone());
        }
        proof {
            assert forall|k: Parts|
                #[trigger] set@.contains(k) <==> exists|j: int|
                    0 <= j < i + 1 && survives(state@, thread@, post@, #[trigger] all[j], now@[j]) && k == tkey(
                        all[j].version,
                    ) by {
                if set@.contains(k) {
                    if !was.contains(k) {
                        assert(survives(state@, thread@, post@, all[i as int], now@[i as int]));
                    }
                }
            }
        }
        i += 1;
    }
    assert(set@ =~= survivors(state@, thread@, post@, all, now@));
    set.len()
}

/// What a deletion means: a version; a post with all its versions; or, for a
/// thread or its topic, everything.
pub open spec fn deletion(
    thread: Text,
    post: Option<Text>,
    version: Option<Text>,
    posts: Seq<ObservedModel>,
    now: Text,
) -> Result<TombModel, Text> {
    if !is_safe_id(thread) || (post matches Some(p) && !is_safe_id(p)) {
        Err("invalid_id"@)
    } else if version matches Some(v) && !is_hash(v) {
        Err("invalid_hash"@)
    } else if version is Some && post is None {
        Err("version_requires_post_id"@)
    } else if post matches Some(p) && !has_target(posts, p, version) {
        Err("BBS version or post not found"@)
    } else {
        Ok(
            TombModel {
                thread_id: thread,
                post_id: if version is Some || (post is Some && posts[target_of(posts, post->0, version)].meta.kind
                    != "topic"@) {
                    post
                } else {
                    None
                },
                version_id: version,
                deleted_at: now,
            },
        )
    }
}

/// Why a deletion is refused, `now` being the stamps of the posts' files.
pub open spec fn deletion_fault(
    s: StateModel,
    thread: Text,
    post: Option<Text>,
    version: Option<Text>,
    posts: Seq<ObservedModel>,
    now: Seq<Option<FileStamp>>,
    thread_there: bool,
) -> Option<Text> {
    if post is Some && now[target_of(posts, post->0, version)] != Some(
        posts[target_of(posts, post->0, version)].stamp,
    ) {
        Some("BBS target changed; retry deletion"@)
    } else if post is None && !thread_there {
        Some("BBS thread not found"@)
    } else if post is Some && version is Some && survivors(s, thread, post->0, posts, now).len() <= 1 {
        Some("last_version_use_logical_delete"@)
    } else {
        None
    }
}

/// What a local deletion leaves.
pub open spec fn deleted_locally(
    s: StateModel,
    thread: Text,
    post: Option<Text>,
    version: Option<Text>,
    posts: Seq<ObservedModel>,
    stamps: Seq<Option<FileStamp>>,
    thread_there: bool,
    now: Text,
) -> (StateModel, Option<Text>) {
    match deletion(thread, post, version, posts, now) {
        Err(e) => (s, Some(e)),
        Ok(d) => match deletion_fault(s, thread, post, version, posts, stamps, thread_there) {
            Some(e) => (s, Some(e)),
            None => (buried(s, d), None),
        },
    }
}

pub open spec fn opt_fault(r: Result<(), String>) -> Option<Text> {
    match r {
        Ok(_) => None,
        Err(e) => Some(e@),
    }
}

/// Delete on this device: `posts` are those of the thread, `stamps` their
/// files as they are now.
pub fn delete_local(
    state: &mut SyncState,
    thread: &str,
    post: &Option<String>,
    version: &Option<String>,
    posts: &Vec<ObservedPost>,
    stamps: &Vec<Option<FileStamp>>,
    thread_there: bool,
    now: &str,
) -> (r: Result<(), String>)
    requires
        old(state).wf(),
        posts@.len() == stamps@.len(),
    ensures
        final(state).wf(),
        (final(state)@, opt_fault(r)) == deleted_locally(
            old(state)@,
            thread@,
            opt_text(*post),
            opt_text(*version),
            observed_models(posts@),
            stamps@,
            thread_there,
            now@,
        ),
{
    if !safe_id(thread) {
        return Err(own("invalid_id"));
    }
    if let Some(p) = post {
        if !safe_id(p) {
            return Err(own("invalid_id"));
        }
    }
    if let Some(v) = version {
        if !valid_hash(v) {
            return Err(own("invalid_hash"));
        }
        if post.is_none() {
            return Err(own("version_requires_post_id"));
        }
    }
    let mut named: Option<String> = None;
    match post {
        Some(p) => {
            let i = match find_target(posts, p, version) {
                Some(i) => i,
                None => {
                    return Err(own("BBS version or post not found"));
                },
            };
            assert(observed_models(posts@)[i as int] == posts@[i as int]@);
            if !same_stamp(&stamps[i], &Some(posts[i].stamp)) {
                return Err(own("BBS target changed; retry deletion"));
            }
            if version.is_some() || !same(&posts[i].meta.kind, "topic") {
                named = Some(p.clone());
            }
            if version.is_some() && surviving(state, thread, p, posts, stamps) <= 1 {
                return Err(own("last_version_use_logical_delete"));
            }
        },
        None => {
            if !thread_there {
                return Err(own("BBS thread not found"));
            }
        },
    }
    let d = Tombstone { thread_id: own(thread), post_id: named, version_id: copy_opt(version), deleted_at: own(now) };
    assert(Ok::<TombModel, Text>(d@) == deletion(
        thread@,
        opt_text(*post),
        opt_text(*version),
        observed_models(posts@),
        now@,
    ));
    state.bury(d);
    Ok(())
}

/// Delete a thread, a post or a version of this device, now.
pub fn delete_item(
    state: &mut SyncState,
    thread_id: &str,
    post_id: &Option<String>,
    version_id: &Option<String>,
    posts: &Vec<ObservedPost>,
    stamps: &Vec<Option<FileStamp>>,
    thread_there: bool,
) -> (r: Result<(), String>)
    requires
        old(state).wf(),
        posts@.len() == stamps@.len(),
    ensures
        final(state).wf(),
        exists|now: Text|
            (final(state)@, opt_fault(r)) == #[trigger] deleted_locally(
                old(state)@,
                thread_id@,
                opt_text(*post_id),
                opt_text(*version_id),
                observed_models(posts@),
                stamps@,
                thread_there,
                now,
            ),
{
    let now = now_iso();
    delete_local(state, thread_id, post_id, version_id, posts, stamps, thread_there, &now)
}

// ------------------------------------------------------------------ recovery

/// What deletions are left to be carried out in a thread.
#[derive(Clone, Copy, Debug, PartialEq, Eq, Structural)]
pub enum Recovery {
    Nothing,
    /// The thread is deleted: its posts need not even be readable.
    Whole,
    Parts,
}

pub open spec fn has_deletions(s: StateModel, thread: Text) -> bool {
    exists|k: Parts| #[trigger] s.tombstones.contains_key(k) && s.tombstones[k].thread_id == thread
}

pub open spec fn recovery_of(s: StateModel, thread: Text) -> Recovery {
    if !has_deletions(s, thread) {
        Recovery::Nothing
    } else if thread_deleted(s, thread) {
        Recovery::Whole
    } else {
        Recovery::Parts
    }
}

pub fn recovery(state: &SyncState, thread: &str) -> (r: Recovery)
    requires
        state.wf(),
    ensures
        r == recovery_of(state@, thread@),
{
    let v = &state.tombstones.entries;
    let mut i: usize = 0;
    while i < v.len()
        invariant
            state.wf(),
            v == state.tombstones.entries,
            i <= v@.len(),
            forall|j: int| 0 <= j < i ==> (#[trigger] v@[j]).1@.thread_id != thread@,
        decreases v@.len() - i,
    {
        if same(&v[i].1.thread_id, thread) {
            proof {
                lemma_at(state.tombstones, i as int);
                assert(state@.tombstones.contains_key(tkey(v@[i as int].0@)));
            }
            if state.thread_deleted(thread) {
                return Recovery::Whole;
            }
            return Recovery::Parts;
        }
        i += 1;
    }
    proof {
        if has_deletions(state@, thread@) {
            let k = choose|k: Parts|
                #[trigger] state@.tombstones.contains_key(k) && state@.tombstones[k].thread_id == thread@;
            let j = lemma_found(state.tombstones, k);
            assert(v@[j].1@.thread_id != thread@);
        }
    }
    Recovery::Nothing
}

/// Nothing is left of a thread.
pub open spec fn without_thread(s: StateModel, thread: Text) -> StateModel {
    StateModel {
        ledger: Map::new(|k: Parts| s.ledger.contains_key(k) && s.ledger[k].thread_id != thread, |k: Parts| s.ledger[k]),
        records: s.records.remove(tkey(thread)),
        unavailable: elsewhere(s.unavailable, thread),
        ..s
    }
}

/// Rows of other threads.
pub struct RowElsewhere {
    pub thread: String,
}

impl Rule<String, LedgerEntry> for RowElsewhere {
    open spec fn admits(&self, k: Parts, v: LedgerEntry) -> bool {
        v@.thread_id != self.thread@
    }

    open spec fn ready(&self) -> bool {
        true
    }

    fn test(&self, k: &String, v: &LedgerEntry) -> (r: bool) {
        !same(&v.thread_id, &self.thread)
    }
}

/// Forget a deleted thread. Its directory is to be taken away, and the board
/// lists it no more.
pub fn forget_thread(state: &mut SyncState, thread: &str)
    requires
        old(state).wf(),
    ensures
        final(state).wf(),
        final(state)@ == without_thread(old(state)@, thread@),
{
    let ghost was = *state;
    state.ledger.retain(&RowElsewhere { thread: own(thread) });
    state.thread_records.remove(&own(thread));
    state.local_unavailable.retain(&Elsewhere { thread: own(thread) });
    proof {
        assert forall|i: int| 0 <= i < state.ledger.entries@.len() implies (
        #[trigger] state.ledger.entries@[i]).1.wf() by {
            lemma_at(state.ledger, i);
            let j = lemma_found(was.ledger, tkey(state.ledger.entries@[i].0@));
            assert(was.ledger.entries@[j].1.wf());
        }
        let w = without_thread(was@, thread@);
        assert(state@.ledger =~= w.ledger);
        assert(state@.records =~= w.records);
        assert(state@.unavailable =~= w.unavailable);
    }
}

/// The deletion is that of a post with all its versions.
pub open spec fn is_logical(d: TombModel, thread: Text, k: Parts) -> bool {
    d.thread_id == thread && d.version_id is None && d.post_id is Some && k == tkey(d.post_id->0)
}

pub open spec fn logical(s: StateModel, thread: Text) -> Set<Parts> {
    Set::new(|k: Parts| exists|t: Parts| #[trigger] s.tombstones.contains_key(t) && is_logical(s.tombstones[t], thread, k))
}

/// The posts of a thread that are deleted with all their versions.
pub fn logical_posts(state: &SyncState, thread: &str) -> (r: OrderedSet<String>)
    requires
        state.wf(),
    ensures
        r.wf(),
        r@ == logical(state@, thread@),
{
    let mut set: OrderedSet<String> = OrderedSet::new();
    let v = &state.tombstones.entries;
    let mut i: usize = 0;
    while i < v.len()
        invariant
            state.wf(),
            set.wf(),
            v == state.tombstones.entries,
            i <= v@.len(),
            forall|k: Parts|
                #[trigger] set@.contains(k) <==> exists|j: int|
                    0 <= j < i && is_logical((#[trigger] v@[j]).1@, thread@, k),
        decreases v@.len() - i,
    {
        let ghost was = set@;
        let d = &v[i].1;
        if same(&d.thread_id, thread) && d.version_id.is_none() {
            if let Some(p) = &d.post_id {
                set.insert(p.clone());
            }
        }
        proof {
            assert forall|k: Parts|
                #[trigger] set@.contains(k) <==> exists|j: int|
                    0 <= j < i + 1 && is_logical((#[trigger] v@[j]).1@, thread@, k) by {
                if set@.contains(k) && !was.contains(k) {
                    assert(is_logical(v@[i as int].1@, thread@, k));
                }
                if is_logical(v@[i as int].1@, thread@, k) {
                    assert(set@.contains(k));
                }
            }
        }
        i += 1;
    }
    proof {
        let l = logical(state@, thread@);
        assert forall|k: Parts| set@.contains(k) == l.contains(k) by {
            if set@.contains(k) {
                let j = choose|j: int| 0 <= j < v@.len() && is_logical((#[trigger] v@[j]).1@, thread@, k);
                lemma_at(state.tombstones, j);
                assert(state@.tombstones.contains_key(tkey(v@[j].0@)));
            }
            if l.contains(k) {
                let t = choose|t: Parts|
                    #[trigger] state@.tombstones.contains_key(t) && is_logical(state@.tombstones[t], thread@, k);
                let j = lemma_found(state.tombstones, t);
                assert(is_logical(v@[j].1@, thread@, k));
            }
        }
        assert(set@ =~= l);
    }
    set
}

/// Everything that may lie about of a post.
pub open spec fn leftovers(thread: Text, post: Text) -> Seq<Text> {
    seq![
        post_path(thread, post, None),
        attachments_dir(thread, post, None),
        thread_path(thread) + "/versions/"@ + post,
        thread_path(thread) + "/sidecars/"@ + post,
        marker_path(thread, post),
    ]
}

pub open spec fn paths_result(r: Result<Vec<String>, String>) -> Result<Seq<Text>, Text> {
    match r {
        Ok(v) => Ok(texts(v@)),
        Err(e) => Err(e@),
    }
}

fn below(thread: &str, dir: &str, name: &str, tail: &str) -> (r: String)
    ensures
        r@ == thread_path(thread@) + dir@ + name@ + tail@,
{
    let mut p = plus("threads/", thread);
    p.append(dir);
    p.append(name);
    p.append(tail);
    p
}

/// The files of a deleted post.
pub fn post_leftovers(thread: &str, post: &str) -> (r: Result<Vec<String>, String>)
    ensures
        paths_result(r) == (if is_safe_id(thread@) && is_safe_id(post@) {
            Ok(leftovers(thread@, post@))
        } else {
            Err("invalid_id"@)
        }),
{
    if !safe_id(post) || !safe_id(thread) {
        return Err(own("invalid_id"));
    }
    let mut v: Vec<String> = Vec::new();
    v.push(below(thread, "/posts/", post, ".md"));
    v.push(below(thread, "/attachments/", post, ""));
    v.push(below(thread, "/versions/", post, ""));
    v.push(below(thread, "/sidecars/", post, ""));
    v.push(below(thread, "/placeholders/", post, ".json"));
    proof {
        reveal_strlit("");
        let t = thread_path(thread@);
        assert(t + "/attachments/"@ + post@ + ""@ =~= t + "/attachments/"@ + post@);
        assert(t + "/versions/"@ + post@ + ""@ =~= t + "/versions/"@ + post@);
        assert(t + "/sidecars/"@ + post@ + ""@ =~= t + "/sidecars/"@ + post@);
        assert(texts(v@) =~= leftovers(thread@, post@));
    }
    Ok(v)
}

/// The files of a deleted version, if it is still the one that was read. Those
/// of a wholly deleted post go with the post.
pub open spec fn version_leftovers(
    s: StateModel,
    thread: Text,
    whole: Set<Parts>,
    p: ObservedModel,
    now: Option<FileStamp>,
) -> Result<Seq<Text>, Text> {
    let post = p.meta.post_id;
    if whole.contains(tkey(post)) || !suppressed(s, thread, post, p.version) || now != Some(p.stamp) {
        Ok(Seq::empty())
    } else if !is_safe_id(post) || !is_safe_id(thread) {
        Err("invalid_id"@)
    } else if !is_hash(p.version) {
        Err("invalid_hash"@)
    } else {
        Ok(
            (match p.location.extra {
                Some(v) => seq![version_dir(thread, p.location.post, v)],
                None => seq![post_path(thread, p.location.post, None), attachments_dir(thread, post, None)],
            }).push(sidecar_path(thread, post, p.version)),
        )
    }
}

pub fn retire_version(
    state: &SyncState,
    thread: &str,
    whole: &OrderedSet<String>,
    p: &ObservedPost,
    now: Option<FileStamp>,
) -> (r: Result<Vec<String>, String>)
    requires
        state.wf(),
        whole.wf(),
    ensures
        paths_result(r) == version_leftovers(state@, thread@, whole@, p@, now),
{
    let post = &p.meta.post_id;
    let mut v: Vec<String> = Vec::new();
    assert(texts(v@) =~= Seq::empty());
    if whole.has(post) || !state.suppressed(thread, post, &p.version) || !same_stamp(&now, &Some(p.stamp)) {
        return Ok(v);
    }
    if !safe_id(post) || !safe_id(thread) {
        return Err(own("invalid_id"));
    }
    if !valid_hash(&p.version) {
        return Err(own("invalid_hash"));
    }
    match &p.location.extra {
        Some(x) => {
            let dir = plus3(&p.location.post, "/", x);
            let path = below(thread, "/versions/", &dir, "");
            proof {
                reveal_strlit("");
                assert(path@ =~= version_dir(thread@, p.location.post@, x@));
            }
            v.push(path);
        },
        None => {
            v.push(below(thread, "/posts/", &p.location.post, ".md"));
            let dir = below(thread, "/attachments/", post, "");
            proof {
                reveal_strlit("");
                assert(dir@ =~= attachments_dir(thread@, post@, None));
            }
            v.push(dir);
        },
    }
    let ghost first = v@;
    match sidecar_relative(thread, post, &p.version) {
        Ok(path) => {
            v.push(path);
            assert(texts(v@) =~= texts(first).push(path@));
            assert(texts(v@) =~= version_leftovers(state@, thread@, whole@, p@, now)->Ok_0);
            Ok(v)
        },
        Err(e) => Err(e),
    }
}

// ----------------------------------------------------------------- promotion

/// What is found of a directory that is to be moved.
#[derive(Clone, Copy, Debug, PartialEq, Eq, Structural)]
pub enum FolderSight {
    Missing,
    Directory,
    Unsafe,
}

/// What is found around an extra version that may take the resident's place.
pub struct PromotionSight {
    pub resident: Option<FileStamp>,
    pub body: Option<FileStamp>,
    /// The attachments of the version, and those of the resident post.
    pub source: FolderSight,
    pub target_there: bool,
    /// What lies at the target are this version's attachments, moved there
    /// before and unchanged since.
    pub moved_intact: bool,
}

/// What is to be done with the resident's attachments before the version takes
/// its place.
#[derive(Clone, Copy, Debug, PartialEq, Eq, Structural)]
pub enum Folder {
    Keep,
    Retire,
    /// Take the version's attachments in their stead.
    Replace,
}

/// Where the resident version of a post is gone, a surviving one takes its
/// place.
pub open spec fn promotion(
    s: StateModel,
    done: Set<Parts>,
    thread: Text,
    p: ObservedModel,
    sight: PromotionSight,
) -> Result<Option<Folder>, Text> {
    if p.location.extra is None || done.contains(tkey(p.meta.post_id)) || suppressed(s, thread, p.meta.post_id, p.version) {
        Ok(None)
    } else if sight.resident is Some || sight.body != Some(p.stamp) {
        Ok(None)
    } else {
        match sight.source {
            FolderSight::Unsafe => Err("unsafe_sync_path"@),
            FolderSight::Directory => Ok(Some(Folder::Replace)),
            FolderSight::Missing => if sight.target_there && !sight.moved_intact {
                Ok(Some(Folder::Retire))
            } else {
                Ok(Some(Folder::Keep))
            },
        }
    }
}

pub open spec fn folder_result(r: Result<Option<Folder>, String>) -> Result<Option<Folder>, Text> {
    match r {
        Ok(x) => Ok(x),
        Err(e) => Err(e@),
    }
}

pub fn promote(state: &SyncState, done: &mut OrderedSet<String>, thread: &str, p: &ObservedPost, sight: &PromotionSight) -> (r:
    Result<Option<Folder>, String>)
    requires
        state.wf(),
        old(done).wf(),
    ensures
        final(done).wf(),
        folder_result(r) == promotion(state@, old(done)@, thread@, p@, *sight),
        final(done)@ == (if r matches Ok(Some(_)) {
            old(done)@.insert(tkey(p@.meta.post_id))
        } else {
            old(done)@
        }),
{
    let post = &p.meta.post_id;
    if p.location.extra.is_none() || done.has(post) || state.suppressed(thread, post, &p.version) {
        return Ok(None);
    }
    if sight.resident.is_some() || !same_stamp(&sight.body, &Some(p.stamp)) {
        return Ok(None);
    }
    let folder = match sight.source {
        FolderSight::Unsafe => {
            return Err(own("unsafe_sync_path"));
        },
        FolderSight::Directory => Folder::Replace,
        FolderSight::Missing => if sight.target_there && !sight.moved_intact {
            Folder::Retire
        } else {
            Folder::Keep
        },
    };
    done.insert(post.clone());
    Ok(Some(folder))
}

pub open spec fn promoted(s: StateModel, post: Text, version: Text, stamp: Option<FileStamp>) -> StateModel {
    let k = tkey(version_key(post, version));
    if s.ledger.contains_key(k) {
        StateModel { ledger: s.ledger.insert(k, RowModel { body_stamp: stamp, ..s.ledger[k] }), ..s }
    } else {
        s
    }
}

/// A version lies in the resident's place now.
pub fn commit_promotion(state: &mut SyncState, post: &str, version: &str, stamp: Option<FileStamp>)
    requires
        old(state).wf(),
    ensures
        final(state).wf(),
        final(state)@ == promoted(old(state)@, post@, version@, stamp),
{
    let ghost was = *state;
    let key = plus3(post, "/", version);
    let ghost k = tkey(version_key(post@, version@));
    assert(key@ == version_key(post@, version@));
    if !state.ledger.has(&key) {
        return;
    }
    match state.ledger.remove(&key) {
        Some(row) => {
            proof {
                let j = lemma_found(was.ledger, k);
                assert(was.ledger.entries@[j].1.wf());
                assert forall|i: int| 0 <= i < state.ledger.entries@.len() implies (
                #[trigger] state.ledger.entries@[i]).1.wf() by {
                    lemma_at(state.ledger, i);
                    let j = lemma_found(was.ledger, tkey(state.ledger.entries@[i].0@));
                }
            }
            let mut row = row;
            row.body_stamp = stamp;
            state.put_row(key, row);
            assert(state@.ledger =~= promoted(was@, post@, version@, stamp).ledger);
        },
        None => {},
    }
}

// ------------------------------------------------------------------- pruning

/// Nothing that is deleted is left in the ledger.
pub open spec fn pruned(s: StateModel, thread: Text, whole: Set<Parts>) -> StateModel {
    StateModel {
        ledger: Map::new(
            |k: Parts|
                s.ledger.contains_key(k) && !suppressed(
                    s,
                    s.ledger[k].thread_id,
                    s.ledger[k].post_id,
                    s.ledger[k].version_id,
                ),
            |k: Parts| s.ledger[k],
        ),
        unavailable: Map::new(
            |k: Parts|
                s.unavailable.contains_key(k) && !(s.unavailable[k].thread_id == thread && whole.contains(
                    tkey(s.unavailable[k].post_id),
                )),
            |k: Parts| s.unavailable[k],
        ),
        ..s
    }
}

/// Notices of other posts than the deleted ones.
pub struct Undeleted<'a> {
    pub thread: &'a str,
    pub whole: &'a OrderedSet<String>,
}

impl<'a> Rule<String, UnavailablePost> for Undeleted<'a> {
    open spec fn admits(&self, k: Parts, v: UnavailablePost) -> bool {
        !(v@.thread_id == self.thread@ && self.whole@.contains(tkey(v@.post_id)))
    }

    open spec fn ready(&self) -> bool {
        self.whole.wf()
    }

    fn test(&self, k: &String, v: &UnavailablePost) -> (r: bool) {
        !(same(&v.thread_id, self.thread) && self.whole.has(&v.post_id))
    }
}

pub fn prune(state: &mut SyncState, thread: &str, whole: &OrderedSet<String>)
    requires
        old(state).wf(),
        whole.wf(),
    ensures
        final(state).wf(),
        final(state)@ == pruned(old(state)@, thread@, whole@),
{
    let ghost was = *state;
    let mut i: usize = 0;
    while i < state.ledger.entries.len()
        invariant
            state.wf(),
            state.tombstones == was.tombstones,
            state.groups == was.groups,
            state.thread_records == was.thread_records,
            state.local_unavailable == was.local_unavailable,
            i <= state.ledger.entries@.len(),
            forall|x: int|
                0 <= x < i ==> !suppressed(
                    was@,
                    (#[trigger] state.ledger.entries@[x]).1@.thread_id,
                    state.ledger.entries@[x].1@.post_id,
                    state.ledger.entries@[x].1@.version_id,
                ),
            forall|k: Parts|
                #[trigger] state@.ledger.contains_key(k) ==> was@.ledger.contains_key(k) && state@.ledger[k]
                    == was@.ledger[k],
            forall|k: Parts|
                #[trigger] was@.ledger.contains_key(k) ==> state@.ledger.contains_key(k) || suppressed(
                    was@,
                    was@.ledger[k].thread_id,
                    was@.ledger[k].post_id,
                    was@.ledger[k].version_id,
                ),
        decreases state.ledger.entries@.len() - i,
    {
        let ghost es = state.ledger.entries@;
        let ghost mid = *state;
        proof {
            lemma_at(state.ledger, i as int);
            assert(state@.ledger.contains_key(tkey(es[i as int].0@)));
        }
        let gone = {
            let row = &state.ledger.entries[i].1;
            state.suppressed(&row.thread_id, &row.post_id, &row.version_id)
        };
        if gone {
            state.ledger.remove_at(i);
            proof {
                assert forall|x: int| 0 <= x < state.ledger.entries@.len() implies (
                #[trigger] state.ledger.entries@[x]).1.wf() by {
                    let y = if x < i {
                        x
                    } else {
                        x + 1
                    };
                    assert(state.ledger.entries@[x] == es[y]);
                }
                assert forall|x: int| 0 <= x < i implies !suppressed(
                    was@,
                    (#[trigger] state.ledger.entries@[x]).1@.thread_id,
                    state.ledger.entries@[x].1@.post_id,
                    state.ledger.entries@[x].1@.version_id,
                ) by {
                    assert(state.ledger.entries@[x] == es[x]);
                }
                assert(state@.ledger =~= mid@.ledger.remove(tkey(es[i as int].0@)));
            }
        } else {
            i += 1;
        }
    }
    let ghost swept = *state;
    state.local_unavailable.retain(&Undeleted { thread, whole });
    proof {
        let w = pruned(was@, thread@, whole@);
        assert(state@.ledger == swept@.ledger);
        assert forall|k: Parts| #[trigger] state@.ledger.contains_key(k) implies w.ledger.contains_key(k) by {
            assert(swept@.ledger.contains_key(k));
            let j = lemma_found(state.ledger, k);
            assert(!suppressed(
                was@,
                state.ledger.entries@[j].1@.thread_id,
                state.ledger.entries@[j].1@.post_id,
                state.ledger.entries@[j].1@.version_id,
            ));
        }
        assert(state@.ledger =~= w.ledger);
        assert(state@.unavailable =~= w.unavailable);
    }
}

// ------------------------------------------------------- moved attachments

/// An interrupted promotion may have moved the attachments but not the post.
/// Then what lies at the target has to be checked, file by file.
pub fn needs_proof(state: &SyncState, thread: &str, p: &ObservedPost, source_there: bool, target_there: bool) -> (r: bool)
    requires
        state.wf(),
    ensures
        r == (p@.location.extra is Some && !suppressed(state@, thread@, p@.meta.post_id, p@.version) && !source_there
            && target_there),
{
    p.location.extra.is_some() && !state.suppressed(thread, &p.meta.post_id, &p.version) && !source_there && target_there
}

/// A file that was found at the target, and what reading it gave.
pub struct MovedFile {
    pub name: String,
    pub read: Result<Reading, String>,
}

pub open spec fn is_declared(refs: Seq<RefModel>, name: Text) -> bool {
    exists|i: int| 0 <= i < refs.len() && ref_file(#[trigger] refs[i]) == name
}

/// The first attachment that has this file name.
pub open spec fn declared_as(refs: Seq<RefModel>, name: Text) -> Option<RefModel>
    decreases refs.len(),
{
    if refs.len() == 0 {
        None
    } else {
        match declared_as(refs.drop_last(), name) {
            Some(a) => Some(a),
            None => if ref_file(refs.last()) == name {
                Some(refs.last())
            } else {
                None
            },
        }
    }
}

/// The stamp of a file at the target, if it is an attachment of the post and
/// has its bytes.
pub open spec fn moved_stamp(refs: Seq<RefModel>, file: MovedFile) -> Result<Option<FileStamp>, Text> {
    match declared_as(refs, file.name@) {
        None => Ok(None),
        Some(a) => match file.read {
            Err(e) => Err(e@),
            Ok(x) => checked_file(x.observed, a.sha256, a.size as u64, None, x.total as nat, x.hash@, x.unchanged),
        },
    }
}

/// The stamps of the files at the target, if each is an attachment of the post
/// with its bytes. The first that is not, or that cannot be read, decides.
pub open spec fn moved_stamps(refs: Seq<RefModel>, files: Seq<MovedFile>) -> Result<Option<Seq<FileStamp>>, Text>
    decreases files.len(),
{
    if files.len() == 0 {
        Ok(Some(Seq::empty()))
    } else {
        match moved_stamps(refs, files.drop_last()) {
            Ok(Some(before)) => match moved_stamp(refs, files.last()) {
                Err(e) => Err(e),
                Ok(None) => Ok(None),
                Ok(Some(s)) => Ok(Some(before.push(s))),
            },
            ended => ended,
        }
    }
}

proof fn lemma_moved_ends(refs: Seq<RefModel>, files: Seq<MovedFile>, n: int)
    requires
        0 <= n <= files.len(),
        !(moved_stamps(refs, files.take(n)) matches Ok(Some(_))),
    ensures
        moved_stamps(refs, files) == moved_stamps(refs, files.take(n)),
    decreases files.len() - n,
{
    if n == files.len() {
        assert(files.take(n) =~= files);
    } else {
        assert(files.take(n + 1).drop_last() =~= files.take(n));
        lemma_moved_ends(refs, files, n + 1);
    }
}

proof fn lemma_declared(refs: Seq<RefModel>, name: Text, i: int)
    requires
        0 <= i < refs.len(),
        ref_file(refs[i]) == name,
        forall|j: int| 0 <= j < i ==> ref_file(#[trigger] refs[j]) != name,
    ensures
        declared_as(refs, name) == Some(refs[i]),
    decreases refs.len(),
{
    if i == refs.len() - 1 {
        lemma_undeclared(refs.drop_last(), name);
    } else {
        lemma_declared(refs.drop_last(), name, i);
    }
}

proof fn lemma_undeclared(refs: Seq<RefModel>, name: Text)
    requires
        forall|j: int| 0 <= j < refs.len() ==> ref_file(#[trigger] refs[j]) != name,
    ensures
        declared_as(refs, name) is None,
    decreases refs.len(),
{
    if refs.len() > 0 {
        lemma_undeclared(refs.drop_last(), name);
    }
}

/// The attachment that has this file name.
pub fn find_declared(refs: &Vec<AttachmentRef>, name: &str) -> (r: Option<usize>)
    ensures
        r is Some == is_declared(ref_models(refs@), name@),
        r matches Some(i) ==> i < refs@.len() && ref_file(refs@[i as int]@) == name@ && forall|j: int|
            0 <= j < i ==> ref_file((#[trigger] refs@[j])@) != name@,
{
    let ghost all = ref_models(refs@);
    let mut i: usize = 0;
    while i < refs.len()
        invariant
            all == ref_models(refs@),
            i <= refs@.len(),
            forall|j: int| 0 <= j < i ==> ref_file((#[trigger] refs@[j])@) != name@,
        decreases refs@.len() - i,
    {
        let a = &refs[i];
        let file = if a.ext.as_str().is_empty() {
            a.id.clone()
        } else {
            plus3(&a.id, ".", &a.ext)
        };
        assert(file@ == ref_file(a@));
        assert(all[i as int] == a@);
        if same(&file, name) {
            return Some(i);
        }
        i += 1;
    }
    proof {
        if is_declared(all, name@) {
            let j = choose|j: int| 0 <= j < all.len() && ref_file(#[trigger] all[j]) == name@;
            assert(ref_file(refs@[j]@) != name@);
        }
    }
    None
}

pub open spec fn stamps_result(r: Result<Option<Vec<FileStamp>>, String>) -> Result<Option<Seq<FileStamp>>, Text> {
    match r {
        Ok(Some(v)) => Ok(Some(v@)),
        Ok(None) => Ok(None),
        Err(e) => Err(e@),
    }
}

/// Were these files moved here with the bytes that the post declares? Then
/// their stamps, in turn.
pub fn check_moved(meta: &BbsPostMeta, files: &Vec<MovedFile>) -> (r: Result<Option<Vec<FileStamp>>, String>)
    ensures
        match post_refs(meta@) {
            Err(e) => r is Err && r->Err_0@ == e,
            Ok(refs) => stamps_result(r) == moved_stamps(refs, files@),
        },
{
    let refs = match attachment_refs(meta) {
        Ok(v) => v,
        Err(e) => {
            return Err(e);
        },
    };
    let ghost all = ref_models(refs@);
    let mut out: Vec<FileStamp> = Vec::new();
    let mut i: usize = 0;
    assert(files@.take(0) =~= Seq::empty());
    while i < files.len()
        invariant
            all == ref_models(refs@),
            post_refs(meta@) == Ok::<Seq<RefModel>, Text>(all),
            i <= files@.len(),
            moved_stamps(all, files@.take(i as int)) == Ok::<Option<Seq<FileStamp>>, Text>(Some(out@)),
        decreases files@.len() - i,
    {
        let file = &files[i];
        assert(files@.take(i + 1).drop_last() =~= files@.take(i as int));
        assert(files@.take(i + 1).last() == *file);
        let at = match find_declared(&refs, &file.name) {
            Some(at) => at,
            None => {
                proof {
                    lemma_undeclared(all, file.name@);
                    lemma_moved_ends(all, files@, i + 1);
                }
                return Ok(None);
            },
        };
        let a = &refs[at];
        proof {
            assert(all[at as int] == a@);
            lemma_declared(all, file.name@, at as int);
        }
        let read = match &file.read {
            Ok(x) => x,
            Err(e) => {
                proof {
                    lemma_moved_ends(all, files@, i + 1);
                }
                return Err(e.clone());
            },
        };
        match judge_reading(read.observed, &a.sha256, a.size_bytes, None, read.total, &read.hash, read.unchanged) {
            Ok(Some(stamp)) => {
                out.push(stamp);
            },
            Ok(None) => {
                proof {
                    lemma_moved_ends(all, files@, i + 1);
                }
                return Ok(None);
            },
            Err(e) => {
                proof {
                    lemma_moved_ends(all, files@, i + 1);
                }
                return Err(e);
            },
        }
        i += 1;
    }
    assert(files@.take(i as int) =~= files@);
    Ok(Some(out))
}

// ------------------------------------------------------------------- staging

/// The part of a staging file's name that tells it from others.
pub open spec fn staging_token(name: Text) -> Option<Text> {
    let rest = name.skip(".receive-"@.len() as int);
    if begins(name, ".receive-"@) && ends(rest, ".partial"@) {
        Some(rest.take(rest.len() - ".partial"@.len()))
    } else if begins(name, ".removed-"@) {
        Some(name.skip(".removed-"@.len() as int))
    } else {
        None
    }
}

/// A file of an interrupted exchange or removal, which is safe to take away:
/// its name is one that this library gives.
pub fn is_staging(name: &str) -> (r: bool)
    ensures
        r == (staging_token(name@) matches Some(t) && canonical_uuid(t)),
{
    let mut token: Option<String> = None;
    if let Some(rest) = strip_front(name, ".receive-") {
        token = strip_back(&rest, ".partial");
    }
    if token.is_none() {
        token = strip_front(name, ".removed-");
    }
    assert(opt_text(token) == staging_token(name@));
    match token {
        Some(t) => match parse_uuid(&t) {
            Some(u) => same(&u, &t),
            None => false,
        },
        None => false,
    }
}

// ---------------------------------------------------------------------- laws

/// The last version of a post cannot be deleted by itself: after a version was
/// deleted, another one of the post is there.
pub proof fn the_last_version_stays(
    s: StateModel,
    thread: Text,
    post: Text,
    version: Text,
    posts: Seq<ObservedModel>,
    stamps: Seq<Option<FileStamp>>,
    there: bool,
    now: Text,
) -> (i: int)
    requires
        posts.len() == stamps.len(),
        survivors(s, thread, post, posts, stamps).finite(),
        deleted_locally(s, thread, Some(post), Some(version), posts, stamps, there, now).1 is None,
    ensures
        0 <= i < posts.len(),
        posts[i].version != version,
        survives(
            deleted_locally(s, thread, Some(post), Some(version), posts, stamps, there, now).0,
            thread,
            post,
            posts[i],
            stamps[i],
        ),
{
    let set = survivors(s, thread, post, posts, stamps);
    let other = set.remove(tkey(version));
    assert(set.len() > 1);
    assert(other.len() >= set.len() - 1);
    if other.len() == 0 {
        assert(false);
    }
    let k = other.choose();
    assert(other.contains(k)) by {
        if forall|x: Parts| !other.contains(x) {
            assert(other =~= Set::empty());
        }
    }
    let i = choose|i: int|
        0 <= i < posts.len() && survives(s, thread, post, #[trigger] posts[i], stamps[i]) && k == tkey(posts[i].version);
    assert(posts[i].version != version);
    let t = deleted_locally(s, thread, Some(post), Some(version), posts, stamps, there, now).0;
    if suppressed(t, thread, post, posts[i].version) {
        let x = choose|x: Parts|
            #[trigger] t.tombstones.contains_key(x) && covers(t.tombstones[x], thread, post, posts[i].version);
        if s.tombstones.contains_key(x) && t.tombstones[x] == s.tombstones[x] {
            assert(suppressed(s, thread, post, posts[i].version));
        }
    }
    i
}

/// What was deleted is deleted from then on.
pub proof fn a_local_deletion_takes_effect(
    s: StateModel,
    thread: Text,
    post: Option<Text>,
    version: Option<Text>,
    posts: Seq<ObservedModel>,
    stamps: Seq<Option<FileStamp>>,
    there: bool,
    now: Text,
)
    requires
        tombs_keyed(s.tombstones),
        deleted_locally(s, thread, post, version, posts, stamps, there, now).1 is None,
    ensures
        ({
            let d = deletion(thread, post, version, posts, now)->Ok_0;
            deleted_locally(s, thread, post, version, posts, stamps, there, now).0.tombstones.contains_key(
                tkey(tomb_key(d)),
            )
        }),
        post is None ==> thread_deleted(
            deleted_locally(s, thread, post, version, posts, stamps, there, now).0,
            thread,
        ),
{
}

/// With its topic, a whole thread is deleted.
pub proof fn a_topic_takes_its_thread_along(
    s: StateModel,
    thread: Text,
    post: Text,
    posts: Seq<ObservedModel>,
    stamps: Seq<Option<FileStamp>>,
    there: bool,
    now: Text,
)
    requires
        deleted_locally(s, thread, Some(post), None, posts, stamps, there, now).1 is None,
        posts[target_of(posts, post, None)].meta.kind == "topic"@,
    ensures
        thread_deleted(deleted_locally(s, thread, Some(post), None, posts, stamps, there, now).0, thread),
{
}

/// After deletions were carried out, the ledger holds nothing that is deleted.
pub proof fn nothing_deleted_is_left(s: StateModel, thread: Text, whole: Set<Parts>, k: Parts)
    requires
        pruned(s, thread, whole).ledger.contains_key(k),
    ensures
        ({
            let t = pruned(s, thread, whole);
            !suppressed(t, t.ledger[k].thread_id, t.ledger[k].post_id, t.ledger[k].version_id)
        }),
{
    let t = pruned(s, thread, whole);
    let r = t.ledger[k];
    if suppressed(t, r.thread_id, r.post_id, r.version_id) {
        let x = choose|x: Parts|
            #[trigger] t.tombstones.contains_key(x) && covers(t.tombstones[x], r.thread_id, r.post_id, r.version_id);
        assert(s.tombstones.contains_key(x));
    }
}

/// Only a surviving version takes the place of a resident one, and at most one
/// for each post.
pub proof fn only_survivors_are_promoted(s: StateModel, done: Set<Parts>, thread: Text, p: ObservedModel, sight: PromotionSight)
    requires
        promotion(s, done, thread, p, sight) matches Ok(Some(_)),
    ensures
        !suppressed(s, thread, p.meta.post_id, p.version),
        !done.contains(tkey(p.meta.post_id)),
        sight.resident is None,
        sight.body == Some(p.stamp),
{
}

/// A deletion says what it deletes: a version with its post; a reply with all
/// its versions; and for a topic or a thread the thread alone.
pub proof fn a_deletion_says_what_it_deletes(
    thread: Text,
    post: Option<Text>,
    version: Option<Text>,
    posts: Seq<ObservedModel>,
    now: Text,
)
    requires
        deletion(thread, post, version, posts, now) is Ok,
    ensures
        ({
            let d = deletion(thread, post, version, posts, now)->Ok_0;
            let kind = posts[target_of(posts, post->0, version)].meta.kind;
            &&& d.thread_id == thread
            &&& d.version_id == version
            &&& d.deleted_at == now
            &&& version is Some ==> d.post_id == post && post is Some
            &&& post is None ==> d.post_id is None
            &&& post is Some && version is None && kind == "topic"@ ==> d.post_id is None
            &&& post is Some && version is None && kind != "topic"@ ==> d.post_id == post
            &&& is_safe_id(thread)
        }),
{
}

/// What is asked to be deleted has to be there, and named soundly.
pub proof fn only_what_is_there_is_deleted(
    thread: Text,
    post: Option<Text>,
    version: Option<Text>,
    posts: Seq<ObservedModel>,
    now: Text,
)
    ensures
        deletion(thread, post, version, posts, now) is Ok <==> {
            &&& is_safe_id(thread)
            &&& post matches Some(p) ==> is_safe_id(p)
            &&& version matches Some(v) ==> is_hash(v) && post is Some
            &&& post matches Some(p) ==> exists|i: int|
                0 <= i < posts.len() && (#[trigger] posts[i]).meta.post_id == p && (version matches Some(v) ==> posts[i].version
                    == v)
        },
{
    if let Some(p) = post {
        if has_target(posts, p, version) {
            let i = choose|i: int| 0 <= i < posts.len() && is_target(#[trigger] posts[i], p, version);
            assert(posts[i].meta.post_id == p);
        }
        if exists|i: int|
            0 <= i < posts.len() && (#[trigger] posts[i]).meta.post_id == p && (version matches Some(v) ==> posts[i].version
                == v) {
            let i = choose|i: int|
                0 <= i < posts.len() && (#[trigger] posts[i]).meta.post_id == p && (version matches Some(v)
                    ==> posts[i].version == v);
            assert(is_target(posts[i], p, version));
        }
    }
}

/// A refused deletion changes nothing, and one that is carried out buries what
/// it says.
pub proof fn a_refused_deletion_changes_nothing(
    s: StateModel,
    thread: Text,
    post: Option<Text>,
    version: Option<Text>,
    posts: Seq<ObservedModel>,
    stamps: Seq<Option<FileStamp>>,
    there: bool,
    now: Text,
)
    ensures
        ({
            let (t, e) = deleted_locally(s, thread, post, version, posts, stamps, there, now);
            let d = deletion(thread, post, version, posts, now);
            &&& e is Some ==> t == s
            &&& e is None ==> d is Ok && t == buried(s, d->Ok_0)
            &&& post is None && !there && d is Ok ==> e == Some("BBS thread not found"@)
            &&& post is None && there && d is Ok ==> e is None
            &&& post is Some && d is Ok && stamps[target_of(posts, post->0, version)] != Some(
                posts[target_of(posts, post->0, version)].stamp,
            ) ==> e == Some("BBS target changed; retry deletion"@)
            &&& post is Some && version is None && d is Ok && stamps[target_of(posts, post->0, version)] == Some(
                posts[target_of(posts, post->0, version)].stamp,
            ) ==> e is None
        }),
{
}

/// A file counts as a post of the thread exactly if it says so itself and lies
/// under its own name.
pub proof fn a_file_belongs_where_it_says(thread: Text, o: Observation)
    ensures
        belongs(thread, o) <==> {
            &&& o.before is Some
            &&& o.read matches Some(x) && x.0@.thread_id == thread && x.0@.post_id == o.location@.post && (x.0@.kind
                == "topic"@ || x.0@.kind == "reply"@)
        },
        o.before is Some && o.read is Some ==> observed_as(o).version == (o.read->0).1@ && observed_as(o).meta
            == (o.read->0).0@ && observed_as(o).location == o.location@ && Some(observed_as(o).stamp) == o.before,
{
}

proof fn lemma_observed_has(thread: Text, s: Seq<Observation>, i: int)
    requires
        observed(thread, s) is Ok,
        0 <= i < s.len(),
        belongs(thread, s[i]),
    ensures
        observed(thread, s)->Ok_0.contains(observed_as(s[i])),
        s[i].after == s[i].before,
    decreases s.len(),
{
    let head = s.drop_last();
    let v = observed(thread, head)->Ok_0;
    let out = observed(thread, s)->Ok_0;
    if i < head.len() {
        assert(head[i] == s[i]);
        lemma_observed_has(thread, head, i);
        let k = choose|k: int| 0 <= k < v.len() && v[k] == observed_as(s[i]);
        assert(out[k] == v[k]);
    } else {
        assert(out[v.len() as int] == observed_as(s[i]));
    }
}

/// Every post of the thread is observed, and none that changed while it was
/// read passes for one that did not.
pub proof fn every_post_is_observed(thread: Text, s: Seq<Observation>, i: int)
    requires
        0 <= i < s.len(),
        belongs(thread, s[i]),
    ensures
        observed(thread, s) matches Ok(v) ==> v.contains(observed_as(s[i])),
        s[i].after != s[i].before ==> observed(thread, s) is Err,
{
    if observed(thread, s) is Ok {
        lemma_observed_has(thread, s, i);
    }
}

/// A version survives exactly if it is a version of the post that is not
/// deleted and whose file is unchanged.
pub proof fn a_version_survives_undeleted_and_unchanged(
    s: StateModel,
    thread: Text,
    post: Text,
    p: ObservedModel,
    now: Option<FileStamp>,
)
    ensures
        survives(s, thread, post, p, now) <==> p.meta.post_id == post && !suppressed(s, thread, post, p.version) && now
            == Some(p.stamp),
{
}

/// A deleted thread is taken away whole; with deletions of parts only those
/// parts are; without any nothing is.
pub proof fn deletions_are_carried_out_as_far_as_they_reach(s: StateModel, thread: Text, k: Parts)
    requires
        tombs_keyed(s.tombstones),
    ensures
        recovery_of(s, thread) == Recovery::Whole ==> thread_deleted(s, thread),
        thread_deleted(s, thread) ==> recovery_of(s, thread) == Recovery::Whole,
        recovery_of(s, thread) == Recovery::Nothing ==> (s.tombstones.contains_key(k) ==> s.tombstones[k].thread_id
            != thread),
        s.tombstones.contains_key(k) && s.tombstones[k].thread_id == thread && !thread_deleted(s, thread) ==> recovery_of(
            s,
            thread,
        ) == Recovery::Parts,
{
    if thread_deleted(s, thread) {
        let t = tkey(thread_key(thread));
        assert(s.tombstones.contains_key(t));
        let d = s.tombstones[t];
        assert(t[0] == thread_key(thread));
        assert(tkey(tomb_key(d))[0] == tomb_key(d));
        a_deleted_thread_has_no_posts(s, thread, thread, thread);
        crate::bbs::sync::model::lemma_thread_key(d, thread);
    }
}

/// A forgotten thread leaves nothing of its own in the ledger, among the
/// records or among the notices, and takes nothing of others along.
pub proof fn a_forgotten_thread_leaves_nothing(s: StateModel, thread: Text, k: Parts, other: Text)
    ensures
        ({
            let t = without_thread(s, thread);
            &&& t.ledger.contains_key(k) <==> s.ledger.contains_key(k) && s.ledger[k].thread_id != thread
            &&& t.ledger.contains_key(k) ==> t.ledger[k] == s.ledger[k]
            &&& !t.records.contains_key(tkey(thread))
            &&& other != thread ==> t.records.contains_key(tkey(other)) == s.records.contains_key(tkey(other))
            &&& t.unavailable.contains_key(k) <==> s.unavailable.contains_key(k) && s.unavailable[k].thread_id != thread
            &&& t.tombstones == s.tombstones && t.groups == s.groups
        }),
{
    assert(tkey(thread)[0] == thread);
    assert(tkey(other)[0] == other);
}

/// The posts that are deleted with all their versions are those that a deletion
/// of the thread names without a version.
pub proof fn a_whole_post_is_deleted_by_name(s: StateModel, thread: Text, post: Text)
    ensures
        logical(s, thread).contains(tkey(post)) <==> exists|t: Parts|
            #[trigger] s.tombstones.contains_key(t) && s.tombstones[t].thread_id == thread && s.tombstones[t].post_id == Some(
                post,
            ) && s.tombstones[t].version_id is None,
{
    assert(tkey(post)[0] == post);
    if logical(s, thread).contains(tkey(post)) {
        let t = choose|t: Parts|
            #[trigger] s.tombstones.contains_key(t) && is_logical(s.tombstones[t], thread, tkey(post));
        assert(tkey(s.tombstones[t].post_id->0)[0] == s.tombstones[t].post_id->0);
    }
    if exists|t: Parts|
        #[trigger] s.tombstones.contains_key(t) && s.tombstones[t].thread_id == thread && s.tombstones[t].post_id == Some(
            post,
        ) && s.tombstones[t].version_id is None {
        let t = choose|t: Parts|
            #[trigger] s.tombstones.contains_key(t) && s.tombstones[t].thread_id == thread && s.tombstones[t].post_id
                == Some(post) && s.tombstones[t].version_id is None;
        assert(is_logical(s.tombstones[t], thread, tkey(post)));
    }
}

/// With a post go its file, its attachments, its extra versions, what is kept
/// beside them and its marker.
pub proof fn a_deleted_post_leaves_no_files(thread: Text, post: Text)
    ensures
        leftovers(thread, post).contains(post_path(thread, post, None)),
        leftovers(thread, post).contains(attachments_dir(thread, post, None)),
        leftovers(thread, post).contains("threads/"@ + thread + "/versions/"@ + post),
        leftovers(thread, post).contains("threads/"@ + thread + "/sidecars/"@ + post),
        leftovers(thread, post).contains(marker_path(thread, post)),
{
    let s = leftovers(thread, post);
    assert(s[0] == post_path(thread, post, None));
    assert(s[1] == attachments_dir(thread, post, None));
    assert(s[2] == "threads/"@ + thread + "/versions/"@ + post);
    assert(s[3] == "threads/"@ + thread + "/sidecars/"@ + post);
    assert(s[4] == marker_path(thread, post));
}

/// A version's files are taken away exactly if it is deleted, its post does not
/// go as a whole, and its file is the one that was read: an extra version's
/// directory, or the post and its attachments, and what is kept beside it.
pub proof fn a_deleted_version_leaves_no_files(
    s: StateModel,
    thread: Text,
    whole: Set<Parts>,
    p: ObservedModel,
    now: Option<FileStamp>,
)
    requires
        is_safe_id(thread),
        is_safe_id(p.meta.post_id),
        is_hash(p.version),
    ensures
        ({
            let r = version_leftovers(s, thread, whole, p, now);
            let goes = suppressed(s, thread, p.meta.post_id, p.version) && !whole.contains(tkey(p.meta.post_id)) && now
                == Some(p.stamp);
            &&& r is Ok
            &&& !goes ==> r->Ok_0.len() == 0
            &&& goes ==> r->Ok_0.contains(sidecar_path(thread, p.meta.post_id, p.version))
            &&& goes && p.location.extra is None ==> r->Ok_0.contains(post_path(thread, p.location.post, None))
                && r->Ok_0.contains(attachments_dir(thread, p.meta.post_id, None))
            &&& goes && p.location.extra is Some ==> r->Ok_0.contains(
                version_dir(thread, p.location.post, p.location.extra->0),
            ) && r->Ok_0.len() == 2
        }),
{
    let r = version_leftovers(s, thread, whole, p, now)->Ok_0;
    if r.len() == 3 {
        assert(r[0] == post_path(thread, p.location.post, None));
        assert(r[1] == attachments_dir(thread, p.meta.post_id, None));
        assert(r[2] == sidecar_path(thread, p.meta.post_id, p.version));
    }
    if r.len() == 2 {
        assert(r[0] == version_dir(thread, p.location.post, p.location.extra->0));
        assert(r[1] == sidecar_path(thread, p.meta.post_id, p.version));
    }
}

/// A surviving extra version takes the free place of its post: with its own
/// attachments if it has some, and else without those that are not its own.
pub proof fn a_survivor_takes_a_free_place(
    s: StateModel,
    done: Set<Parts>,
    thread: Text,
    p: ObservedModel,
    sight: PromotionSight,
)
    requires
        p.location.extra is Some,
        !done.contains(tkey(p.meta.post_id)),
        !suppressed(s, thread, p.meta.post_id, p.version),
        sight.body == Some(p.stamp),
    ensures
        ({
            let r = promotion(s, done, thread, p, sight);
            &&& sight.resident is Some ==> r == Ok::<Option<Folder>, Text>(None)
            &&& sight.resident is None && sight.source == FolderSight::Directory ==> r == Ok::<Option<Folder>, Text>(
                Some(Folder::Replace),
            )
            &&& sight.resident is None && sight.source == FolderSight::Unsafe ==> r is Err
            &&& sight.resident is None && sight.source == FolderSight::Missing && sight.target_there
                && !sight.moved_intact ==> r == Ok::<Option<Folder>, Text>(Some(Folder::Retire))
            &&& sight.resident is None && sight.source == FolderSight::Missing && (!sight.target_there
                || sight.moved_intact) ==> r == Ok::<Option<Folder>, Text>(Some(Folder::Keep))
        }),
{
}

/// The row of the version that was moved has its new file; no other row is
/// touched.
pub proof fn a_moved_version_has_its_new_file(
    s: StateModel,
    post: Text,
    version: Text,
    stamp: Option<FileStamp>,
    other: Parts,
)
    ensures
        ({
            let k = tkey(version_key(post, version));
            let t = promoted(s, post, version, stamp);
            &&& t.ledger.contains_key(other) == s.ledger.contains_key(other)
            &&& s.ledger.contains_key(k) ==> t.ledger[k].body_stamp == stamp && t.ledger[k].attachments
                == s.ledger[k].attachments && t.ledger[k].descriptor == s.ledger[k].descriptor
            &&& other != k && s.ledger.contains_key(other) ==> t.ledger[other] == s.ledger[other]
        }),
{
}

/// Clearing away keeps every version that is not deleted, and every notice of a
/// post that is not deleted as a whole.
pub proof fn only_the_deleted_is_cleared_away(s: StateModel, thread: Text, whole: Set<Parts>, k: Parts)
    ensures
        ({
            let t = pruned(s, thread, whole);
            &&& s.ledger.contains_key(k) && !suppressed(
                s,
                s.ledger[k].thread_id,
                s.ledger[k].post_id,
                s.ledger[k].version_id,
            ) ==> t.ledger.contains_key(k) && t.ledger[k] == s.ledger[k]
            &&& s.unavailable.contains_key(k) && s.unavailable[k].thread_id != thread ==> t.unavailable.contains_key(k)
                && t.unavailable[k] == s.unavailable[k]
            &&& s.unavailable.contains_key(k) && !whole.contains(tkey(s.unavailable[k].post_id))
                ==> t.unavailable.contains_key(k)
            &&& s.unavailable.contains_key(k) && s.unavailable[k].thread_id == thread && whole.contains(
                tkey(s.unavailable[k].post_id),
            ) ==> !t.unavailable.contains_key(k)
            &&& t.tombstones == s.tombstones && t.groups == s.groups && t.records == s.records
        }),
{
}

/// The random part of a file that is being received or removed stands between
/// the fixed parts of its name.
pub proof fn a_staging_file_is_named_after_its_token(t: Text, name: Text)
    ensures
        staging_token(".receive-"@ + t + ".partial"@) == Some(t),
        staging_token(".removed-"@ + t) == Some(t),
        staging_token(name) is Some ==> begins(name, ".receive-"@) || begins(name, ".removed-"@),
{
    reveal_strlit(".receive-");
    reveal_strlit(".removed-");
    reveal_strlit(".partial");
    let a = ".receive-"@ + t + ".partial"@;
    let h = ".receive-"@;
    let e = ".partial"@;
    assert(a.take(h.len() as int) =~= h);
    assert(a.skip(h.len() as int) =~= t + e);
    assert((t + e).skip((t + e).len() - e.len()) =~= e);
    assert((t + e).take((t + e).len() - e.len()) =~= t);
    let b = ".removed-"@ + t;
    let g = ".removed-"@;
    assert(b.take(g.len() as int) =~= g);
    assert(b.skip(g.len() as int) =~= t);
    if begins(b, h) {
        assert(b.take(h.len() as int)[3] == h[3]);
        assert(b[3] == 'm' && h[3] == 'c');
    }
}

/// A file belongs to the first reference that names it.
pub proof fn a_file_belongs_to_the_reference_that_names_it(refs: Seq<RefModel>, name: Text)
    ensures
        declared_as(refs, name) matches Some(a) ==> ref_file(a) == name && refs.contains(a),
        declared_as(refs, name) is None ==> forall|i: int| 0 <= i < refs.len() ==> ref_file(#[trigger] refs[i]) != name,
    decreases refs.len(),
{
    if refs.len() > 0 {
        let head = refs.drop_last();
        a_file_belongs_to_the_reference_that_names_it(head, name);
        assert(refs[refs.len() - 1] == refs.last());
        if let Some(a) = declared_as(head, name) {
            let k = choose|k: int| 0 <= k < head.len() && head[k] == a;
            assert(refs[k] == a);
        } else if declared_as(refs, name) is None {
            assert forall|i: int| 0 <= i < refs.len() implies ref_file(#[trigger] refs[i]) != name by {
                if i < head.len() {
                    assert(head[i] == refs[i]);
                }
            }
        }
    }
}

/// A version moves only if every one of its files is declared and sound.
pub proof fn every_moved_file_is_checked(refs: Seq<RefModel>, files: Seq<MovedFile>, i: int)
    requires
        moved_stamps(refs, files) matches Ok(Some(_)),
        0 <= i < files.len(),
    ensures
        moved_stamps(refs, files)->Ok_0->0.len() == files.len(),
        moved_stamp(refs, files[i]) == Ok::<Option<FileStamp>, Text>(Some(moved_stamps(refs, files)->Ok_0->0[i])),
        declared_as(refs, files[i].name@) is Some,
        files[i].read is Ok,
    decreases files.len(),
{
    let head = files.drop_last();
    assert(files[files.len() - 1] == files.last());
    if i < head.len() {
        every_moved_file_is_checked(refs, head, i);
        assert(head[i] == files[i]);
    } else if head.len() > 0 {
        every_moved_file_is_checked(refs, head, 0);
    }
}

} // verus!
