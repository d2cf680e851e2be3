//! The board as a project sees it, and a thread as text.
use vstd::prelude::*;
use crate::bbs::mentions::{member_pair, Membership};
use crate::bbs::names::{display_project_name_with_fallback, opt_str, preview, preview_markdown, project_name};
use crate::bbs::posts::{avatar_settled, post_agent_avatar};
use crate::bbs::sync::avatars::{opt_avatar_view, AvatarView, AvatarViewModel};
use crate::bbs::sync::model::{shared_in, suppressed, tkey, StateModel, SyncState};
use crate::bbs::sync::unavailable::{marker_models, place_models, places, unavailable_views, EntryModel, MarkerEntry};
use crate::bbs::sync::unavailable::{PLACEHOLDER_TEXT, PlaceModel, UnavailableView};
use crate::bbs::threads::{concerns, thread_relevant, SeenModel};
use crate::bbs::types::{attachment_view_models, post_models, AttachmentModel, AttachmentViewModel, BbsAttachmentView};
use crate::bbs::types::{BbsProjectState, BbsThreadMeta, LoadedModel, LoadedPost, ThreadModel};
use crate::order::{parts_lt, text_set, OrderedSet, Parts};
use crate::sort::{lemma_sorted_map, rank_fn, reversed, sorted_by, sorting_orders_and_keeps, stable_sort, Ranked};
use crate::text::{before, blank, decimal, join, joined, opt_text, own, same, texts, to_decimal, trim, trimmed, Text};
use crate::text::stands_at;
use crate::text::begins;
use crate::text::occurs;

verus! {

// --------------------------------------------------------------------- views

/// A post as it is shown.
#[derive(Debug)]
pub struct BbsPostView {
    pub post_id: String,
    pub version_id: String,
    pub sync_avatar: Option<AvatarView>,
    pub thread_id: String,
    pub project_id: String,
    pub project_display_name: String,
    pub agent_id: String,
    pub agent_display_name: String,
    pub agent_avatar: Option<String>,
    pub created_at: String,
    pub kind: String,
    pub body: String,
    pub attachments: Vec<BbsAttachmentView>,
    pub preview: String,
    pub state: String,
    pub external: bool,
}

pub struct PostViewModel {
    pub post_id: Text,
    pub version: Text,
    pub sync_avatar: Option<AvatarViewModel>,
    pub thread_id: Text,
    pub project_id: Text,
    pub project_display_name: Text,
    pub agent_id: Text,
    pub agent_display_name: Text,
    pub agent_avatar: Option<Text>,
    pub created_at: Text,
    pub kind: Text,
    pub body: Text,
    pub attachments: Seq<AttachmentViewModel>,
    pub preview: Text,
    pub state: Text,
    pub external: bool,
}

impl View for BbsPostView {
    type V = PostViewModel;

    open spec fn view(&self) -> PostViewModel {
        PostViewModel {
            post_id: self.post_id@,
            version: self.version_id@,
            sync_avatar: opt_avatar_view(self.sync_avatar),
            thread_id: self.thread_id@,
            project_id: self.project_id@,
            project_display_name: self.project_display_name@,
            agent_id: self.agent_id@,
            agent_display_name: self.agent_display_name@,
            agent_avatar: opt_text(self.agent_avatar),
            created_at: self.created_at@,
            kind: self.kind@,
            body: self.body@,
            attachments: attachment_view_models(self.attachments@),
            preview: self.preview@,
            state: self.state@,
            external: self.external,
        }
    }
}

pub open spec fn post_view_models(s: Seq<BbsPostView>) -> Seq<PostViewModel> {
    s.map_values(|p: BbsPostView| p@)
}

/// A thread as it is shown.
#[derive(Debug)]
pub struct BbsThreadView {
    pub thread_id: String,
    pub visibility: String,
    pub project_tags: Vec<String>,
    pub project_tag_labels: Vec<String>,
    pub created_by_project: String,
    pub created_by_project_label: String,
    pub updated_at: String,
    pub latest_post_id: String,
    pub is_new: bool,
    pub relevant: bool,
    pub sharing_group_id: Option<String>,
    pub posts: Vec<BbsPostView>,
    pub unavailable_posts: Vec<UnavailableView>,
}

pub struct ThreadViewModel {
    pub thread_id: Text,
    pub visibility: Text,
    pub project_tags: Seq<Text>,
    pub project_tag_labels: Seq<Text>,
    pub created_by_project: Text,
    pub created_by_project_label: Text,
    pub updated_at: Text,
    pub latest_post_id: Text,
    pub is_new: bool,
    pub relevant: bool,
    pub sharing_group_id: Option<Text>,
    pub posts: Seq<PostViewModel>,
    pub unavailable_posts: Seq<PlaceModel>,
}

impl View for BbsThreadView {
    type V = ThreadViewModel;

    open spec fn view(&self) -> ThreadViewModel {
        ThreadViewModel {
            thread_id: self.thread_id@,
            visibility: self.visibility@,
            project_tags: texts(self.project_tags@),
            project_tag_labels: texts(self.project_tag_labels@),
            created_by_project: self.created_by_project@,
            created_by_project_label: self.created_by_project_label@,
            updated_at: self.updated_at@,
            latest_post_id: self.latest_post_id@,
            is_new: self.is_new,
            relevant: self.relevant,
            sharing_group_id: opt_text(self.sharing_group_id),
            posts: post_view_models(self.posts@),
            unavailable_posts: place_models(self.unavailable_posts@),
        }
    }
}

pub open spec fn thread_view_models(s: Seq<BbsThreadView>) -> Seq<ThreadViewModel> {
    s.map_values(|t: BbsThreadView| t@)
}

/// The board as a project sees it.
#[derive(Debug)]
pub struct BbsSnapshot {
    pub project_id: String,
    pub project_display_name: String,
    pub root: String,
    pub new_count: usize,
    pub threads: Vec<BbsThreadView>,
}

pub struct SnapshotModel {
    pub project_id: Text,
    pub project_display_name: Text,
    pub root: Text,
    pub new_count: nat,
    pub threads: Seq<ThreadViewModel>,
}

impl View for BbsSnapshot {
    type V = SnapshotModel;

    open spec fn view(&self) -> SnapshotModel {
        SnapshotModel {
            project_id: self.project_id@,
            project_display_name: self.project_display_name@,
            root: self.root@,
            new_count: self.new_count as nat,
            threads: thread_view_models(self.threads@),
        }
    }
}

// ------------------------------------------------------------------- sources

/// A post of a thread, and what was found around it: the picture of a received
/// one, the avatar in its author's metadata, and its attachments.
pub struct FoundPostView {
    pub post: LoadedPost,
    pub sync_avatar: Option<AvatarView>,
    pub found_avatar: Option<String>,
    pub attachments: Vec<BbsAttachmentView>,
}

pub struct FoundView {
    pub post: LoadedModel,
    pub sync_avatar: Option<AvatarViewModel>,
    pub found_avatar: Option<Text>,
    pub attachments: Seq<AttachmentViewModel>,
}

impl View for FoundPostView {
    type V = FoundView;

    open spec fn view(&self) -> FoundView {
        FoundView {
            post: self.post@,
            sync_avatar: opt_avatar_view(self.sync_avatar),
            found_avatar: opt_text(self.found_avatar),
            attachments: attachment_view_models(self.attachments@),
        }
    }
}

pub open spec fn found_views(s: Seq<FoundPostView>) -> Seq<FoundView> {
    s.map_values(|p: FoundPostView| p@)
}

pub open spec fn loaded_posts(s: Seq<FoundView>) -> Seq<LoadedModel> {
    s.map_values(|p: FoundView| p.post)
}

/// A thread that could be read.
pub struct FoundThread {
    pub meta: BbsThreadMeta,
    pub posts: Vec<FoundPostView>,
    /// The markers of posts that are not here; nothing if they cannot be read.
    pub markers: Vec<MarkerEntry>,
}

pub struct FoundThreadModel {
    pub meta: ThreadModel,
    pub posts: Seq<FoundView>,
    pub markers: Seq<EntryModel>,
}

impl View for FoundThread {
    type V = FoundThreadModel;

    open spec fn view(&self) -> FoundThreadModel {
        FoundThreadModel {
            meta: self.meta@,
            posts: found_views(self.posts@),
            markers: marker_models(self.markers@),
        }
    }
}

pub open spec fn found_threads(s: Seq<FoundThread>) -> Seq<FoundThreadModel> {
    s.map_values(|t: FoundThread| t@)
}

// ------------------------------------------------------------------ one post

/// The posts that are not deleted.
pub open spec fn visible(s: StateModel, thread: Text, posts: Seq<FoundView>) -> Seq<FoundView>
    decreases posts.len(),
{
    if posts.len() == 0 {
        Seq::empty()
    } else {
        let rest = visible(s, thread, posts.drop_last());
        let p = posts.last();
        if suppressed(s, thread, p.post.meta.post_id, p.post.version) {
            rest
        } else {
            rest.push(p)
        }
    }
}

/// How a project has dealt with a post: a post is new to the other projects
/// that its thread concerns, until they have dealt with it.
pub open spec fn post_state(seen: SeenModel, relevant: bool, project: Text, p: LoadedModel) -> Text {
    let k = tkey(p.meta.post_id);
    if seen.processed.contains_key(k) {
        "processed"@
    } else if seen.ignored.contains_key(k) {
        "ignored"@
    } else if relevant && p.meta.project_id != project {
        "new"@
    } else {
        "none"@
    }
}

pub open spec fn is_new_post(seen: SeenModel, relevant: bool, project: Text, p: LoadedModel) -> bool {
    let k = tkey(p.meta.post_id);
    !seen.processed.contains_key(k) && !seen.ignored.contains_key(k) && relevant && p.meta.project_id != project
}

pub open spec fn attachment_names(s: Seq<AttachmentModel>) -> Seq<Text> {
    s.map_values(|a: AttachmentModel| a.name)
}

/// A post without text shows the names of its attachments.
pub open spec fn post_preview(p: LoadedModel) -> Text {
    if trimmed(p.body).len() == 0 {
        preview(joined(attachment_names(p.meta.attachments), ", "@))
    } else {
        preview(p.body)
    }
}

pub open spec fn post_view(seen: SeenModel, relevant: bool, project: Text, x: FoundView) -> PostViewModel {
    let m = x.post.meta;
    PostViewModel {
        post_id: m.post_id,
        version: x.post.version,
        sync_avatar: x.sync_avatar,
        thread_id: m.thread_id,
        project_id: m.project_id,
        project_display_name: project_name(m.project_id, Some(m.project_display_name)),
        agent_id: m.agent_id,
        agent_display_name: m.agent_display_name,
        agent_avatar: if x.sync_avatar is Some {
            None
        } else if avatar_settled(m) {
            m.agent_avatar
        } else {
            x.found_avatar
        },
        created_at: m.created_at,
        kind: m.kind,
        body: x.post.body,
        attachments: x.attachments,
        preview: post_preview(x.post),
        state: post_state(seen, relevant, project, x.post),
        external: m.project_id != project,
    }
}

fn preview_of(p: &LoadedPost) -> (r: String)
    ensures
        r@ == post_preview(p@),
{
    if !blank(&p.body) {
        return preview_markdown(&p.body);
    }
    let mut names: Vec<String> = Vec::new();
    let v = &p.meta.attachments;
    let ghost all = attachment_names(p@.meta.attachments);
    let mut i: usize = 0;
    while i < v.len()
        invariant
            v == p.meta.attachments,
            all == attachment_names(p@.meta.attachments),
            i <= v@.len(),
            texts(names@) == all.take(i as int),
        decreases v@.len() - i,
    {
        let ghost was = names@;
        names.push(v[i].name.clone());
        assert(all[i as int] == v@[i as int].name@);
        assert(texts(names@) =~= texts(was).push(all[i as int]));
        assert(texts(names@) =~= all.take(i + 1));
        i += 1;
    }
    assert(all.take(i as int) =~= all);
    preview_markdown(&join(&names, ", "))
}

fn view_post(seen: &BbsProjectState, relevant: bool, project: &str, x: FoundPostView) -> (r: (BbsPostView, bool))
    requires
        seen.wf(),
    ensures
        r.0@ == post_view(seen@, relevant, project@, x@),
        r.1 == is_new_post(seen@, relevant, project@, x@.post),
{
    let m = &x.post.meta;
    let external = !same(&m.project_id, project);
    let mut fresh = false;
    let state = if seen.is_processed(&m.post_id) {
        "processed"
    } else if seen.is_ignored(&m.post_id) {
        "ignored"
    } else if relevant && external {
        fresh = true;
        "new"
    } else {
        "none"
    };
    let agent_avatar = if x.sync_avatar.is_none() {
        post_agent_avatar(m, &x.found_avatar)
    } else {
        None
    };
    let preview = preview_of(&x.post);
    let project_display_name = display_project_name_with_fallback(
        &m.project_id,
        Some(m.project_display_name.as_str()),
    );
    let view = BbsPostView {
        post_id: m.post_id.clone(),
        version_id: x.post.version_id.clone(),
        sync_avatar: x.sync_avatar,
        thread_id: m.thread_id.clone(),
        project_id: m.project_id.clone(),
        project_display_name,
        agent_id: m.agent_id.clone(),
        agent_display_name: m.agent_display_name.clone(),
        agent_avatar,
        created_at: m.created_at.clone(),
        kind: m.kind.clone(),
        body: x.post.body.clone(),
        attachments: x.attachments,
        preview,
        state: own(state),
        external,
    };
    (view, fresh)
}

// ---------------------------------------------------------------- one thread

pub open spec fn is_topic(p: LoadedModel) -> bool {
    p.meta.kind == "topic"@
}

pub open spec fn has_topic(s: Seq<LoadedModel>) -> bool {
    exists|i: int| 0 <= i < s.len() && is_topic(#[trigger] s[i])
}

pub open spec fn post_ids(s: Seq<FoundView>) -> Seq<Text> {
    s.map_values(|p: FoundView| p.post.meta.post_id)
}

pub open spec fn views_of(seen: SeenModel, relevant: bool, project: Text, s: Seq<FoundView>) -> Seq<PostViewModel> {
    s.map_values(|x: FoundView| post_view(seen, relevant, project, x))
}

pub open spec fn some_new(seen: SeenModel, relevant: bool, project: Text, s: Seq<FoundView>) -> bool {
    exists|i: int| 0 <= i < s.len() && is_new_post(seen, relevant, project, (#[trigger] s[i]).post)
}

pub open spec fn labels(tags: Seq<Text>) -> Seq<Text> {
    tags.map_values(|t: Text| project_name(t, None))
}

/// A thread is shown if it has a topic, or at least places of posts that
/// cannot travel.
pub open spec fn is_shown_thread(s: StateModel, t: FoundThreadModel) -> bool {
    let posts = visible(s, t.meta.thread_id, t.posts);
    has_topic(loaded_posts(posts)) || places(s, t.meta.thread_id, text_set(post_ids(posts)), t.markers).len() > 0
}

pub open spec fn thread_view(
    s: StateModel,
    member: Option<(Text, Text)>,
    seen: SeenModel,
    project: Text,
    t: FoundThreadModel,
) -> ThreadViewModel {
    let m = t.meta;
    let posts = visible(s, m.thread_id, t.posts);
    let relevant = concerns(m, loaded_posts(posts), project);
    ThreadViewModel {
        thread_id: m.thread_id,
        visibility: m.visibility,
        project_tags: m.project_tags,
        project_tag_labels: labels(m.project_tags),
        created_by_project: m.created_by_project,
        created_by_project_label: project_name(m.created_by_project, None),
        updated_at: m.updated_at,
        latest_post_id: m.latest_post_id,
        is_new: some_new(seen, relevant, project, posts),
        relevant,
        sharing_group_id: match member {
            Some(g) => if shared_in(s, g.0, m.thread_id) {
                Some(g.0)
            } else {
                None
            },
            None => None,
        },
        posts: views_of(seen, relevant, project, posts),
        unavailable_posts: places(s, m.thread_id, text_set(post_ids(posts)), t.markers),
    }
}

fn keep_visible(state: &SyncState, thread: &str, posts: Vec<FoundPostView>) -> (r: Vec<FoundPostView>)
    requires
        state.wf(),
    ensures
        found_views(r@) == visible(state@, thread@, found_views(posts@)),
{
    let ghost all = found_views(posts@);
    let ghost orig = posts@;
    let ghost mut n: int = 0;
    let mut rest = posts;
    let mut out: Vec<FoundPostView> = Vec::new();
    assert(rest@ =~= orig.skip(0));
    assert(found_views(out@) =~= visible(state@, thread@, all.take(0)));
    while rest.len() > 0
        invariant
            state.wf(),
            all == found_views(orig),
            0 <= n <= orig.len(),
            rest@ == orig.skip(n),
            found_views(out@) == visible(state@, thread@, all.take(n)),
        decreases rest@.len(),
    {
        let ghost was = out@;
        let x = rest.remove(0);
        proof {
            assert(x == orig[n]);
            assert(all.take(n + 1).drop_last() =~= all.take(n));
            assert(all.take(n + 1).last() == x@);
            assert(rest@ =~= orig.skip(n + 1));
        }
        if !state.suppressed(thread, &x.post.meta.post_id, &x.post.version_id) {
            out.push(x);
            assert(found_views(out@) =~= found_views(was).push(x@));
        }
        proof {
            n = n + 1;
        }
    }
    assert(all.take(n) =~= all);
    out
}

fn label_tags(tags: &Vec<String>) -> (r: Vec<String>)
    ensures
        texts(r@) == labels(texts(tags@)),
{
    let mut out: Vec<String> = Vec::new();
    let mut i: usize = 0;
    while i < tags.len()
        invariant
            i <= tags@.len(),
            texts(out@) == labels(texts(tags@)).take(i as int),
        decreases tags@.len() - i,
    {
        let ghost was = out@;
        out.push(display_project_name_with_fallback(&tags[i], None));
        assert(texts(out@) =~= texts(was).push(out@.last()@));
        assert(texts(out@) =~= labels(texts(tags@)).take(i + 1));
        i += 1;
    }
    assert(labels(texts(tags@)).take(i as int) =~= labels(texts(tags@)));
    out
}

/// The posts, their names and whether one of them is a topic.
fn survey(posts: &Vec<FoundPostView>) -> (r: (Vec<LoadedPost>, OrderedSet<String>, bool))
    ensures
        post_models(r.0@) == loaded_posts(found_views(posts@)),
        r.1.wf(),
        r.1@ == text_set(post_ids(found_views(posts@))),
        r.2 == has_topic(loaded_posts(found_views(posts@))),
{
    let ghost all = found_views(posts@);
    let mut loaded: Vec<LoadedPost> = Vec::new();
    let mut ids: Vec<String> = Vec::new();
    let mut topic = false;
    let mut i: usize = 0;
    while i < posts.len()
        invariant
            all == found_views(posts@),
            i <= posts@.len(),
            post_models(loaded@) == loaded_posts(all).take(i as int),
            texts(ids@) == post_ids(all).take(i as int),
            topic == (exists|j: int| 0 <= j < i && is_topic(#[trigger] loaded_posts(all)[j])),
        decreases posts@.len() - i,
    {
        let ghost had = loaded@;
        let ghost named = ids@;
        let p = &posts[i].post;
        assert(all[i as int] == posts@[i as int]@);
        assert(loaded_posts(all)[i as int] == p@);
        assert(post_ids(all)[i as int] == p@.meta.post_id);
        loaded.push(p.copy());
        ids.push(p.meta.post_id.clone());
        if same(&p.meta.kind, "topic") {
            topic = true;
            assert(is_topic(loaded_posts(all)[i as int]));
        }
        assert(post_models(loaded@) =~= post_models(had).push(p@));
        assert(post_models(loaded@) =~= loaded_posts(all).take(i + 1));
        assert(texts(ids@) =~= texts(named).push(p@.meta.post_id));
        assert(texts(ids@) =~= post_ids(all).take(i + 1));
        i += 1;
    }
    assert(loaded_posts(all).take(i as int) =~= loaded_posts(all));
    assert(post_ids(all).take(i as int) =~= post_ids(all));
    let mut set: OrderedSet<String> = OrderedSet::new();
    set.add_texts(&ids);
    assert(set@ =~= text_set(post_ids(all)));
    (loaded, set, topic)
}

fn view_posts(seen: &BbsProjectState, relevant: bool, project: &str, posts: Vec<FoundPostView>) -> (r: (Vec<BbsPostView>, bool))
    requires
        seen.wf(),
    ensures
        post_view_models(r.0@) == views_of(seen@, relevant, project@, found_views(posts@)),
        r.1 == some_new(seen@, relevant, project@, found_views(posts@)),
{
    let ghost all = found_views(posts@);
    let ghost orig = posts@;
    let ghost views = views_of(seen@, relevant, project@, all);
    let ghost mut n: int = 0;
    let mut rest = posts;
    let mut out: Vec<BbsPostView> = Vec::new();
    let mut fresh = false;
    assert(rest@ =~= orig.skip(0));
    while rest.len() > 0
        invariant
            seen.wf(),
            all == found_views(orig),
            views == views_of(seen@, relevant, project@, all),
            0 <= n <= orig.len(),
            rest@ == orig.skip(n),
            post_view_models(out@) == views.take(n),
            fresh == (exists|j: int| 0 <= j < n && is_new_post(seen@, relevant, project@, (#[trigger] all[j]).post)),
        decreases rest@.len(),
    {
        let ghost was = out@;
        let x = rest.remove(0);
        proof {
            assert(x == orig[n]);
            assert(all[n] == x@);
            assert(rest@ =~= orig.skip(n + 1));
        }
        let (view, is_new) = view_post(seen, relevant, project, x);
        if is_new {
            fresh = true;
            assert(is_new_post(seen@, relevant, project@, all[n].post));
        }
        out.push(view);
        proof {
            assert(post_view_models(out@) =~= post_view_models(was).push(views[n]));
            assert(post_view_models(out@) =~= views.take(n + 1));
            n = n + 1;
        }
    }
    assert(views.take(n) =~= views);
    (out, fresh)
}

pub open spec fn opt_thread_view(t: Option<BbsThreadView>) -> Option<ThreadViewModel> {
    match t {
        Some(x) => Some(x@),
        None => None,
    }
}

fn view_thread(state: &SyncState, membership: &Option<Membership>, seen: &BbsProjectState, project: &str, t: FoundThread) -> (r:
    Option<BbsThreadView>)
    requires
        state.wf(),
        seen.wf(),
    ensures
        opt_thread_view(r) == (if is_shown_thread(state@, t@) {
            Some(thread_view(state@, member_pair(*membership), seen@, project@, t@))
        } else {
            None
        }),
{
    let meta = t.meta;
    let posts = keep_visible(state, &meta.thread_id, t.posts);
    let (loaded, ids, topic) = survey(&posts);
    let unavailable_posts = unavailable_views(state, &meta.thread_id, &ids, &t.markers);
    assert(place_models(unavailable_posts@).len() == unavailable_posts@.len());
    if !topic && unavailable_posts.len() == 0 {
        return None;
    }
    let relevant = thread_relevant(&meta, &loaded, project);
    let (views, is_new) = view_posts(seen, relevant, project, posts);
    let project_tag_labels = label_tags(&meta.project_tags);
    let created_by_project_label = display_project_name_with_fallback(&meta.created_by_project, None);
    let sharing_group_id = match membership {
        Some(m) => if state.shared_in(&m.group_id, &meta.thread_id) {
            Some(m.group_id.clone())
        } else {
            None
        },
        None => None,
    };
    Some(
        BbsThreadView {
            thread_id: meta.thread_id,
            visibility: meta.visibility,
            project_tags: meta.project_tags,
            project_tag_labels,
            created_by_project: meta.created_by_project,
            created_by_project_label,
            updated_at: meta.updated_at,
            latest_post_id: meta.latest_post_id,
            is_new,
            relevant,
            sharing_group_id,
            posts: views,
            unavailable_posts,
        },
    )
}

// ------------------------------------------------------------------ the board

pub open spec fn shown_threads(
    s: StateModel,
    member: Option<(Text, Text)>,
    seen: SeenModel,
    project: Text,
    ts: Seq<FoundThreadModel>,
) -> Seq<ThreadViewModel>
    decreases ts.len(),
{
    if ts.len() == 0 {
        Seq::empty()
    } else {
        let rest = shown_threads(s, member, seen, project, ts.drop_last());
        if is_shown_thread(s, ts.last()) {
            rest.push(thread_view(s, member, seen, project, ts.last()))
        } else {
            rest
        }
    }
}

pub open spec fn count_new(ts: Seq<ThreadViewModel>) -> nat
    decreases ts.len(),
{
    if ts.len() == 0 {
        0
    } else if ts.last().is_new {
        count_new(ts.drop_last()) + 1
    } else {
        count_new(ts.drop_last())
    }
}

pub open spec fn view_rank_fn() -> spec_fn(ThreadViewModel) -> Parts {
    |t: ThreadViewModel| tkey(t.updated_at)
}

/// The thread that was last written in comes first.
pub open spec fn latest_first(ts: Seq<ThreadViewModel>) -> Seq<ThreadViewModel> {
    sorted_by(ts.reverse(), view_rank_fn()).reverse()
}

impl Ranked for BbsThreadView {
    open spec fn rank(&self) -> Parts {
        tkey(self@.updated_at)
    }

    fn rank_before(&self, other: &Self) -> (r: bool) {
        proof {
            reveal_with_fuel(parts_lt, 2);
            assert(tkey(self@.updated_at).drop_first() =~= Seq::<Text>::empty());
            assert(tkey(other@.updated_at).drop_first() =~= Seq::<Text>::empty());
        }
        if same(&self.updated_at, &other.updated_at) {
            return false;
        }
        before(&self.updated_at, &other.updated_at)
    }
}

pub open spec fn board(
    s: StateModel,
    member: Option<(Text, Text)>,
    seen: SeenModel,
    project: Text,
    name: Option<Text>,
    root: Text,
    ts: Seq<FoundThreadModel>,
) -> SnapshotModel {
    let shown = shown_threads(s, member, seen, project, ts);
    SnapshotModel {
        project_id: project,
        project_display_name: project_name(project, name),
        root,
        new_count: count_new(shown),
        threads: latest_first(shown),
    }
}

fn sort_threads(v: Vec<BbsThreadView>) -> (r: Vec<BbsThreadView>)
    ensures
        thread_view_models(r@) == latest_first(thread_view_models(v@)),
{
    let ghost list = v@;
    let backwards = reversed(v);
    let ghost back = backwards@;
    let sorted = stable_sort(backwards);
    let ghost mid = sorted@;
    let r = reversed(sorted);
    proof {
        let f = |t: BbsThreadView| t@;
        assert forall|t: BbsThreadView| #[trigger] rank_fn::<BbsThreadView>()(t) == view_rank_fn()(f(t)) by {}
        lemma_sorted_map(back, f, rank_fn::<BbsThreadView>(), view_rank_fn());
        assert(thread_view_models(list).reverse() =~= back.map_values(f));
        assert(thread_view_models(r@) =~= mid.map_values(f).reverse());
    }
    r
}

/// The board as a project sees it: `threads` are those that can be read.
pub fn snapshot(
    state: &SyncState,
    membership: &Option<Membership>,
    seen: &BbsProjectState,
    project_id: &str,
    project_display_name: Option<&str>,
    root: &str,
    threads: Vec<FoundThread>,
) -> (r: BbsSnapshot)
    requires
        state.wf(),
        seen.wf(),
    ensures
        r@ == board(
            state@,
            member_pair(*membership),
            seen@,
            project_id@,
            opt_str(project_display_name),
            root@,
            found_threads(threads@),
        ),
{
    let ghost all = found_threads(threads@);
    let ghost orig = threads@;
    let ghost member = member_pair(*membership);
    let ghost mut n: int = 0;
    let mut rest = threads;
    let mut out: Vec<BbsThreadView> = Vec::new();
    let mut new_count: usize = 0;
    assert(rest@ =~= orig.skip(0));
    assert(thread_view_models(out@) =~= shown_threads(state@, member, seen@, project_id@, all.take(0)));
    while rest.len() > 0
        invariant
            state.wf(),
            seen.wf(),
            all == found_threads(orig),
            member == member_pair(*membership),
            0 <= n <= orig.len(),
            rest@ == orig.skip(n),
            new_count <= out@.len(),
            thread_view_models(out@) == shown_threads(state@, member, seen@, project_id@, all.take(n)),
            new_count == count_new(thread_view_models(out@)),
        decreases rest@.len(),
    {
        let ghost was = out@;
        let t = rest.remove(0);
        proof {
            assert(t == orig[n]);
            assert(all.take(n + 1).drop_last() =~= all.take(n));
            assert(all.take(n + 1).last() == t@);
            assert(rest@ =~= orig.skip(n + 1));
        }
        let found = view_thread(state, membership, seen, project_id, t);
        if let Some(view) = found {
            let is_new = view.is_new;
            let ghost v = view@;
            out.push(view);
            assert(out.len() <= usize::MAX);
            if is_new {
                new_count += 1;
            }
            proof {
                assert(thread_view_models(out@) =~= thread_view_models(was).push(v));
                assert(thread_view_models(out@).drop_last() =~= thread_view_models(was));
            }
        }
        proof {
            n = n + 1;
        }
    }
    assert(all.take(n) =~= all);
    BbsSnapshot {
        project_id: own(project_id),
        project_display_name: display_project_name_with_fallback(project_id, project_display_name),
        root: own(root),
        new_count,
        threads: sort_threads(out),
    }
}

// ---------------------------------------------------------------- as a text

pub open spec fn head_text(m: ThreadModel) -> Text {
    "Thread: "@ + m.thread_id + "\nVisibility: "@ + m.visibility + "\nTo: "@ + (if m.visibility == "broadcast"@ {
        "Broadcast"@
    } else {
        joined(m.project_tags, ", "@)
    }) + "\n\n"@
}

pub open spec fn attachment_text(a: AttachmentViewModel) -> Text {
    "Attachment: "@ + a.attachment.name + "\n  id: "@ + a.attachment.id + "\n  size: "@ + decimal(a.attachment.size)
        + " bytes\n  sha256: "@ + a.attachment.sha256 + "\n  path: "@ + a.local_path + (if a.available {
        "\n\n"@
    } else {
        " [missing]\n\n"@
    })
}

pub open spec fn attachments_text(s: Seq<AttachmentViewModel>) -> Text
    decreases s.len(),
{
    if s.len() == 0 {
        Seq::empty()
    } else {
        attachments_text(s.drop_last()) + attachment_text(s.last())
    }
}

pub open spec fn post_section(x: FoundView) -> Text {
    let m = x.post.meta;
    "## "@ + m.project_display_name + " / "@ + m.agent_display_name + " / "@ + m.created_at + "\npost: "@ + m.post_id
        + "\nversion: "@ + x.post.version + "\n\n"@ + trimmed(x.post.body) + "\n\n"@ + attachments_text(x.attachments)
}

pub open spec fn posts_text(s: Seq<FoundView>) -> Text
    decreases s.len(),
{
    if s.len() == 0 {
        Seq::empty()
    } else {
        posts_text(s.drop_last()) + post_section(s.last())
    }
}

pub open spec fn place_text(p: PlaceModel) -> Text {
    "## Unavailable post\npost: "@ + p.post + "\n\n"@ + PLACEHOLDER_TEXT@ + "\n\n"@
}

pub open spec fn places_text(s: Seq<PlaceModel>) -> Text
    decreases s.len(),
{
    if s.len() == 0 {
        Seq::empty()
    } else {
        places_text(s.drop_last()) + place_text(s.last())
    }
}

/// A thread as text: its head, its posts and the places of those that cannot
/// travel.
pub open spec fn rendered(s: StateModel, t: FoundThreadModel) -> Text {
    let posts = visible(s, t.meta.thread_id, t.posts);
    head_text(t.meta) + posts_text(posts) + places_text(
        places(s, t.meta.thread_id, text_set(post_ids(posts)), t.markers),
    )
}

fn write_head(m: &BbsThreadMeta) -> (r: String)
    ensures
        r@ == head_text(m@),
{
    let mut out = own("Thread: ");
    out.append(&m.thread_id);
    out.append("\nVisibility: ");
    out.append(&m.visibility);
    out.append("\nTo: ");
    if same(&m.visibility, "broadcast") {
        out.append("Broadcast");
    } else {
        out.append(&join(&m.project_tags, ", "));
    }
    out.append("\n\n");
    out
}

fn write_attachment(a: &BbsAttachmentView) -> (r: String)
    ensures
        r@ == attachment_text(a@),
{
    let mut out = own("Attachment: ");
    out.append(&a.attachment.name);
    out.append("\n  id: ");
    out.append(&a.attachment.id);
    out.append("\n  size: ");
    out.append(&to_decimal(a.attachment.size_bytes));
    out.append(" bytes\n  sha256: ");
    out.append(&a.attachment.sha256);
    out.append("\n  path: ");
    out.append(&a.local_path);
    if a.available {
        out.append("\n\n");
    } else {
        out.append(" [missing]\n\n");
    }
    out
}

fn write_post(x: &FoundPostView) -> (r: String)
    ensures
        r@ == post_section(x@),
{
    let m = &x.post.meta;
    let mut out = own("## ");
    out.append(&m.project_display_name);
    out.append(" / ");
    out.append(&m.agent_display_name);
    out.append(" / ");
    out.append(&m.created_at);
    out.append("\npost: ");
    out.append(&m.post_id);
    out.append("\nversion: ");
    out.append(&x.post.version_id);
    out.append("\n\n");
    out.append(&trim(&x.post.body));
    out.append("\n\n");
    let ghost head = out@;
    let ghost all = attachment_view_models(x.attachments@);
    let mut i: usize = 0;
    assert(head + attachments_text(all.take(0)) =~= head);
    while i < x.attachments.len()
        invariant
            all == attachment_view_models(x.attachments@),
            i <= x.attachments@.len(),
            out@ == head + attachments_text(all.take(i as int)),
        decreases x.attachments@.len() - i,
    {
        let ghost was = out@;
        assert(all.take(i + 1).drop_last() =~= all.take(i as int));
        assert(all.take(i + 1).last() == x.attachments@[i as int]@);
        out.append(&write_attachment(&x.attachments[i]));
        assert(out@ =~= head + attachments_text(all.take(i + 1)));
        i += 1;
    }
    assert(all.take(i as int) =~= all);
    assert(out@ =~= post_section(x@));
    out
}

/// A thread as text.
pub fn render_thread(state: &SyncState, t: FoundThread) -> (r: String)
    requires
        state.wf(),
    ensures
        r@ == rendered(state@, t@),
{
    let posts = keep_visible(state, &t.meta.thread_id, t.posts);
    let (_, ids, _) = survey(&posts);
    let views = unavailable_views(state, &t.meta.thread_id, &ids, &t.markers);
    let mut out = write_head(&t.meta);
    let ghost head = out@;
    let ghost all = found_views(posts@);
    let mut i: usize = 0;
    assert(head + posts_text(all.take(0)) =~= head);
    while i < posts.len()
        invariant
            all == found_views(posts@),
            i <= posts@.len(),
            out@ == head + posts_text(all.take(i as int)),
        decreases posts@.len() - i,
    {
        assert(all.take(i + 1).drop_last() =~= all.take(i as int));
        assert(all.take(i + 1).last() == posts@[i as int]@);
        out.append(&write_post(&posts[i]));
        assert(out@ =~= head + posts_text(all.take(i + 1)));
        i += 1;
    }
    assert(all.take(i as int) =~= all);
    let ghost body = out@;
    let ghost shown = place_models(views@);
    i = 0;
    assert(body + places_text(shown.take(0)) =~= body);
    while i < views.len()
        invariant
            shown == place_models(views@),
            i <= views@.len(),
            out@ == body + places_text(shown.take(i as int)),
        decreases views@.len() - i,
    {
        assert(shown.take(i + 1).drop_last() =~= shown.take(i as int));
        assert(shown.take(i + 1).last() == views@[i as int]@);
        let ghost was = out@;
        out.append("## Unavailable post\npost: ");
        out.append(&views[i].post_id);
        out.append("\n\n");
        out.append(PLACEHOLDER_TEXT);
        out.append("\n\n");
        assert(out@ =~= was + place_text(views@[i as int]@));
        assert(out@ =~= body + places_text(shown.take(i + 1)));
        i += 1;
    }
    assert(shown.take(i as int) =~= shown);
    out
}

// ---------------------------------------------------------------------- laws

proof fn lemma_visible(s: StateModel, thread: Text, posts: Seq<FoundView>, i: int)
    requires
        0 <= i < visible(s, thread, posts).len(),
    ensures
        ({
            let p = visible(s, thread, posts)[i];
            !suppressed(s, thread, p.post.meta.post_id, p.post.version) && posts.contains(p)
        }),
    decreases posts.len(),
{
    let rest = visible(s, thread, posts.drop_last());
    if i < rest.len() {
        lemma_visible(s, thread, posts.drop_last(), i);
        let p = visible(s, thread, posts)[i];
        let j = choose|j: int| 0 <= j < posts.drop_last().len() && posts.drop_last()[j] == p;
        assert(posts[j] == p);
    }
}

/// A deleted version is never shown, nor an invented one.
pub proof fn deleted_posts_are_not_shown(
    s: StateModel,
    member: Option<(Text, Text)>,
    seen: SeenModel,
    project: Text,
    t: FoundThreadModel,
    i: int,
)
    requires
        0 <= i < thread_view(s, member, seen, project, t).posts.len(),
    ensures
        ({
            let v = thread_view(s, member, seen, project, t).posts[i];
            !suppressed(s, t.meta.thread_id, v.post_id, v.version)
        }),
{
    lemma_visible(s, t.meta.thread_id, t.posts, i);
}

/// A project's own posts are never new to it, nor those it has dealt with.
pub proof fn own_and_settled_posts_are_not_new(seen: SeenModel, relevant: bool, project: Text, p: LoadedModel)
    ensures
        p.meta.project_id == project ==> !is_new_post(seen, relevant, project, p),
        seen.processed.contains_key(tkey(p.meta.post_id)) ==> !is_new_post(seen, relevant, project, p),
        seen.ignored.contains_key(tkey(p.meta.post_id)) ==> !is_new_post(seen, relevant, project, p),
        is_new_post(seen, relevant, project, p) ==> post_state(seen, relevant, project, p) == "new"@,
{
}

/// The threads of the board are ordered by the time of their last change, the
/// latest first.
pub proof fn the_latest_thread_comes_first(ts: Seq<ThreadViewModel>, i: int, j: int)
    requires
        0 <= i < j < latest_first(ts).len(),
    ensures
        latest_first(ts).len() == ts.len(),
        !parts_lt(tkey(latest_first(ts)[i].updated_at), tkey(latest_first(ts)[j].updated_at)),
{
    let sorted = sorted_by(ts.reverse(), view_rank_fn());
    sorting_orders_and_keeps(ts.reverse(), view_rank_fn());
    let n = sorted.len();
    assert(latest_first(ts)[i] == sorted[n - 1 - i]);
    assert(latest_first(ts)[j] == sorted[n - 1 - j]);
    assert(!parts_lt(view_rank_fn()(sorted[n - 1 - i]), view_rank_fn()(sorted[n - 1 - j])));
}

proof fn lemma_visible_kept(s: StateModel, thread: Text, posts: Seq<FoundView>, p: FoundView)
    ensures
        visible(s, thread, posts).contains(p) <==> posts.contains(p) && !suppressed(
            s,
            thread,
            p.post.meta.post_id,
            p.post.version,
        ),
    decreases posts.len(),
{
    let out = visible(s, thread, posts);
    if posts.len() > 0 {
        let head = posts.drop_last();
        lemma_visible_kept(s, thread, head, p);
        let rest = visible(s, thread, head);
        assert(posts[posts.len() - 1] == posts.last());
        if posts.contains(p) {
            let i = choose|i: int| 0 <= i < posts.len() && posts[i] == p;
            if i < head.len() {
                assert(head[i] == p);
            }
        }
        if head.contains(p) {
            let i = choose|i: int| 0 <= i < head.len() && head[i] == p;
            assert(posts[i] == p);
        }
        if rest.contains(p) {
            let i = choose|i: int| 0 <= i < rest.len() && rest[i] == p;
            assert(out[i] == p);
        }
        if out.contains(p) {
            let i = choose|i: int| 0 <= i < out.len() && out[i] == p;
            if i < rest.len() {
                assert(rest[i] == p);
            }
        }
        if out.len() > rest.len() {
            assert(out[rest.len() as int] == posts.last());
        }
    }
}

/// What a shown post tells is what was found of it; it is external exactly if
/// another project wrote it.
pub open spec fn tells_of(v: PostViewModel, x: FoundView, project: Text) -> bool {
    let m = x.post.meta;
    &&& v.post_id == m.post_id
    &&& v.version == x.post.version
    &&& v.thread_id == m.thread_id
    &&& v.project_id == m.project_id
    &&& v.agent_id == m.agent_id
    &&& v.agent_display_name == m.agent_display_name
    &&& v.created_at == m.created_at
    &&& v.kind == m.kind
    &&& v.body == x.post.body
    &&& v.attachments == x.attachments
    &&& v.sync_avatar == x.sync_avatar
    &&& v.external == (m.project_id != project)
    &&& v.sync_avatar is Some ==> v.agent_avatar is None
    &&& v.sync_avatar is None && m.agent_avatar is Some ==> v.agent_avatar == m.agent_avatar
    &&& v.sync_avatar is None && m.agent_avatar is None && m.agent_id != "human"@ ==> v.agent_avatar == x.found_avatar
    &&& v.sync_avatar is None && m.agent_avatar is None && m.agent_id == "human"@ ==> v.agent_avatar is None
}

/// A thread shows every post of it that was not deleted and no other, and
/// tells of each what was found.
pub proof fn a_thread_shows_its_posts_as_they_are(
    s: StateModel,
    member: Option<(Text, Text)>,
    seen: SeenModel,
    project: Text,
    t: FoundThreadModel,
    k: int,
)
    requires
        0 <= k < t.posts.len(),
    ensures
        ({
            let v = thread_view(s, member, seen, project, t);
            let p = t.posts[k].post;
            &&& !suppressed(s, t.meta.thread_id, p.meta.post_id, p.version) ==> exists|i: int|
                0 <= i < v.posts.len() && tells_of(#[trigger] v.posts[i], t.posts[k], project)
            &&& forall|i: int|
                0 <= i < v.posts.len() ==> exists|j: int|
                    0 <= j < t.posts.len() && tells_of(#[trigger] v.posts[i], #[trigger] t.posts[j], project)
        }),
{
    let v = thread_view(s, member, seen, project, t);
    let shown = visible(s, t.meta.thread_id, t.posts);
    lemma_visible_kept(s, t.meta.thread_id, t.posts, t.posts[k]);
    assert(t.posts.contains(t.posts[k]));
    if shown.contains(t.posts[k]) {
        let i = choose|i: int| 0 <= i < shown.len() && shown[i] == t.posts[k];
        assert(tells_of(v.posts[i], t.posts[k], project));
    }
    assert forall|i: int| 0 <= i < v.posts.len() implies exists|j: int|
        0 <= j < t.posts.len() && tells_of(#[trigger] v.posts[i], #[trigger] t.posts[j], project) by {
        lemma_visible(s, t.meta.thread_id, t.posts, i);
        let j = choose|j: int| 0 <= j < t.posts.len() && t.posts[j] == shown[i];
        assert(tells_of(v.posts[i], t.posts[j], project));
    }
}

/// A post of another project that was not dealt with is new to every project
/// that its thread names, started from or was written in by, or if it is
/// broadcast: the thread is relevant and new, and the post is shown as new.
pub proof fn what_concerns_a_project_is_new_to_it(
    s: StateModel,
    member: Option<(Text, Text)>,
    seen: SeenModel,
    project: Text,
    t: FoundThreadModel,
    k: int,
)
    requires
        0 <= k < t.posts.len(),
        t.posts[k].post.meta.project_id != project,
        !suppressed(s, t.meta.thread_id, t.posts[k].post.meta.post_id, t.posts[k].post.version),
        t.meta.visibility == "broadcast"@ || t.meta.project_tags.contains(project) || t.meta.created_by_project == project,
    ensures
        ({
            let v = thread_view(s, member, seen, project, t);
            let id = tkey(t.posts[k].post.meta.post_id);
            &&& v.relevant
            &&& seen.processed.contains_key(id) ==> exists|i: int|
                0 <= i < v.posts.len() && tells_of(#[trigger] v.posts[i], t.posts[k], project) && v.posts[i].state
                    == "processed"@
            &&& seen.ignored.contains_key(id) && !seen.processed.contains_key(id) ==> exists|i: int|
                0 <= i < v.posts.len() && tells_of(#[trigger] v.posts[i], t.posts[k], project) && v.posts[i].state
                    == "ignored"@
            &&& !seen.processed.contains_key(id) && !seen.ignored.contains_key(id) ==> v.is_new && exists|i: int|
                0 <= i < v.posts.len() && tells_of(#[trigger] v.posts[i], t.posts[k], project) && v.posts[i].state
                    == "new"@
        }),
{
    let v = thread_view(s, member, seen, project, t);
    let shown = visible(s, t.meta.thread_id, t.posts);
    lemma_visible_kept(s, t.meta.thread_id, t.posts, t.posts[k]);
    assert(t.posts.contains(t.posts[k]));
    let i = choose|i: int| 0 <= i < shown.len() && shown[i] == t.posts[k];
    assert(tells_of(v.posts[i], t.posts[k], project));
    assert(shown[i].post == t.posts[k].post);
}

/// A thread is new to a project only if some shown post is, and then that post
/// is another project's, was not dealt with, and its thread concerns the
/// project. A post of a thread that does not concern it is nothing to it.
pub proof fn only_what_concerns_a_project_is_new_to_it(
    s: StateModel,
    member: Option<(Text, Text)>,
    seen: SeenModel,
    project: Text,
    t: FoundThreadModel,
)
    ensures
        ({
            let v = thread_view(s, member, seen, project, t);
            &&& v.is_new <==> exists|i: int| 0 <= i < v.posts.len() && (#[trigger] v.posts[i]).state == "new"@
            &&& forall|i: int|
                0 <= i < v.posts.len() && (#[trigger] v.posts[i]).state == "new"@ ==> v.relevant
                    && v.posts[i].project_id != project && !seen.processed.contains_key(tkey(v.posts[i].post_id))
                    && !seen.ignored.contains_key(tkey(v.posts[i].post_id))
        }),
{
    reveal_strlit("processed");
    reveal_strlit("ignored");
    reveal_strlit("new");
    reveal_strlit("none");
    assert("processed"@.len() == 9 && "ignored"@.len() == 7 && "new"@.len() == 3 && "none"@.len() == 4);
    let v = thread_view(s, member, seen, project, t);
    let shown = visible(s, t.meta.thread_id, t.posts);
    assert forall|i: int| 0 <= i < v.posts.len() implies ((#[trigger] v.posts[i]).state == "new"@ <==> is_new_post(
        seen,
        v.relevant,
        project,
        shown[i].post,
    )) by {}
    if v.is_new {
        let i = choose|i: int| 0 <= i < shown.len() && is_new_post(seen, v.relevant, project, (#[trigger] shown[i]).post);
        assert(v.posts[i].state == "new"@);
    }
}

/// A thread of the board tells its metadata, and its group exactly if it is
/// shared in the group of this device.
pub proof fn a_shown_thread_tells_its_metadata(
    s: StateModel,
    member: Option<(Text, Text)>,
    seen: SeenModel,
    project: Text,
    t: FoundThreadModel,
    g: Text,
)
    ensures
        ({
            let v = thread_view(s, member, seen, project, t);
            &&& v.thread_id == t.meta.thread_id
            &&& v.visibility == t.meta.visibility
            &&& v.project_tags == t.meta.project_tags
            &&& v.project_tag_labels.len() == t.meta.project_tags.len()
            &&& v.created_by_project == t.meta.created_by_project
            &&& v.updated_at == t.meta.updated_at
            &&& v.latest_post_id == t.meta.latest_post_id
            &&& v.sharing_group_id == Some(g) <==> (member matches Some(m) && m.0 == g && shared_in(
                s,
                g,
                t.meta.thread_id,
            ))
        }),
{
}

proof fn lemma_shown_threads(
    s: StateModel,
    member: Option<(Text, Text)>,
    seen: SeenModel,
    project: Text,
    ts: Seq<FoundThreadModel>,
    v: ThreadViewModel,
)
    ensures
        shown_threads(s, member, seen, project, ts).contains(v) <==> exists|i: int|
            0 <= i < ts.len() && is_shown_thread(s, #[trigger] ts[i]) && v == thread_view(s, member, seen, project, ts[i]),
    decreases ts.len(),
{
    let out = shown_threads(s, member, seen, project, ts);
    if ts.len() > 0 {
        let head = ts.drop_last();
        lemma_shown_threads(s, member, seen, project, head, v);
        let rest = shown_threads(s, member, seen, project, head);
        assert(ts[ts.len() - 1] == ts.last());
        if rest.contains(v) {
            let i = choose|i: int|
                0 <= i < head.len() && is_shown_thread(s, #[trigger] head[i]) && v == thread_view(
                    s,
                    member,
                    seen,
                    project,
                    head[i],
                );
            assert(ts[i] == head[i]);
            let k = choose|k: int| 0 <= k < rest.len() && rest[k] == v;
            assert(out[k] == v);
        }
        if out.contains(v) {
            let k = choose|k: int| 0 <= k < out.len() && out[k] == v;
            if k < rest.len() {
                assert(rest[k] == v);
            }
        }
        if exists|i: int|
            0 <= i < ts.len() && is_shown_thread(s, #[trigger] ts[i]) && v == thread_view(s, member, seen, project, ts[i]) {
            let i = choose|i: int|
                0 <= i < ts.len() && is_shown_thread(s, #[trigger] ts[i]) && v == thread_view(
                    s,
                    member,
                    seen,
                    project,
                    ts[i],
                );
            if i < head.len() {
                assert(head[i] == ts[i]);
            } else {
                assert(out[rest.len() as int] == v);
            }
        }
    }
}

/// The board shows every thread that has a topic left, and counts those that
/// are new; the number of new threads is that of the shown ones.
pub proof fn a_board_shows_every_thread_with_a_topic(
    s: StateModel,
    member: Option<(Text, Text)>,
    seen: SeenModel,
    project: Text,
    name: Option<Text>,
    root: Text,
    ts: Seq<FoundThreadModel>,
)
    ensures
        ({
            let b = board(s, member, seen, project, name, root, ts);
            &&& b.project_id == project
            &&& b.root == root
            &&& forall|i: int, k: int|
                0 <= i < ts.len() && 0 <= k < ts[i].posts.len() && (#[trigger] ts[i].posts[k]).post.meta.kind == "topic"@
                    && !suppressed(
                    s,
                    ts[i].meta.thread_id,
                    ts[i].posts[k].post.meta.post_id,
                    ts[i].posts[k].post.version,
                ) ==> b.threads.contains(thread_view(s, member, seen, project, ts[i]))
            &&& forall|v: ThreadViewModel|
                #[trigger] b.threads.contains(v) ==> exists|i: int|
                    0 <= i < ts.len() && v == thread_view(s, member, seen, project, #[trigger] ts[i])
            &&& b.new_count == b.threads.to_multiset().filter(|v: ThreadViewModel| v.is_new).len()
        }),
{
    let shown = shown_threads(s, member, seen, project, ts);
    let b = board(s, member, seen, project, name, root, ts);
    lemma_latest(shown);
    assert forall|v: ThreadViewModel| #[trigger] b.threads.contains(v) <==> shown.contains(v) by {
        vstd::seq_lib::to_multiset_contains(shown, v);
        vstd::seq_lib::to_multiset_contains(b.threads, v);
    }
    assert forall|i: int, k: int|
        0 <= i < ts.len() && 0 <= k < ts[i].posts.len() && (#[trigger] ts[i].posts[k]).post.meta.kind == "topic"@
            && !suppressed(
            s,
            ts[i].meta.thread_id,
            ts[i].posts[k].post.meta.post_id,
            ts[i].posts[k].post.version,
        ) implies b.threads.contains(thread_view(s, member, seen, project, ts[i])) by {
        let p = ts[i].posts[k];
        let posts = visible(s, ts[i].meta.thread_id, ts[i].posts);
        assert(ts[i].posts.contains(p));
        lemma_visible_kept(s, ts[i].meta.thread_id, ts[i].posts, p);
        let j = choose|j: int| 0 <= j < posts.len() && posts[j] == p;
        assert(is_topic(loaded_posts(posts)[j]));
        lemma_shown_threads(s, member, seen, project, ts, thread_view(s, member, seen, project, ts[i]));
    }
    assert forall|v: ThreadViewModel| #[trigger] b.threads.contains(v) implies exists|i: int|
        0 <= i < ts.len() && v == thread_view(s, member, seen, project, #[trigger] ts[i]) by {
        lemma_shown_threads(s, member, seen, project, ts, v);
    }
    lemma_count_new(shown);
}

proof fn lemma_latest(ts: Seq<ThreadViewModel>)
    ensures
        latest_first(ts).to_multiset() == ts.to_multiset(),
{
    let sorted = sorted_by(ts.reverse(), view_rank_fn());
    sorting_orders_and_keeps(ts.reverse(), view_rank_fn());
    lemma_reverse_multiset(ts);
    lemma_reverse_multiset(sorted);
}

proof fn lemma_reverse_multiset<T>(s: Seq<T>)
    ensures
        s.reverse().to_multiset() == s.to_multiset(),
    decreases s.len(),
{
    broadcast use vstd::seq_lib::group_to_multiset_ensures;

    if s.len() > 0 {
        let t = s.drop_last();
        lemma_reverse_multiset(t);
        assert(s =~= t.push(s.last()));
        assert(s.reverse() =~= seq![s.last()] + t.reverse());
        vstd::seq_lib::lemma_multiset_commutative(seq![s.last()], t.reverse());
        assert(seq![s.last()] =~= Seq::<T>::empty().push(s.last()));
        assert(s.reverse().to_multiset() =~= s.to_multiset());
    } else {
        assert(s.reverse() =~= s);
    }
}

proof fn lemma_count_new(ts: Seq<ThreadViewModel>)
    ensures
        count_new(ts) == ts.to_multiset().filter(|v: ThreadViewModel| v.is_new).len(),
    decreases ts.len(),
{
    broadcast use vstd::seq_lib::group_to_multiset_ensures;
    broadcast use vstd::multiset::group_multiset_axioms;

    let f = |v: ThreadViewModel| v.is_new;
    if ts.len() > 0 {
        let head = ts.drop_last();
        lemma_count_new(head);
        assert(ts =~= head.push(ts.last()));
        let m = head.to_multiset();
        if ts.last().is_new {
            assert(m.insert(ts.last()).filter(f) =~= m.filter(f).insert(ts.last()));
        } else {
            assert(m.insert(ts.last()).filter(f) =~= m.filter(f));
        }
    } else {
        assert(ts.to_multiset().filter(f) =~= vstd::multiset::Multiset::<ThreadViewModel>::empty());
    }
}

proof fn lemma_occurs_beside(a: Text, x: Text, b: Text)
    ensures
        occurs(a + x + b, x),
{
    let s = a + x + b;
    let n = a.len() as int;
    assert(s.subrange(n, n + x.len()) =~= x);
    assert(stands_at(s, x, n));
}

proof fn lemma_occurs_inside(a: Text, s: Text, b: Text, x: Text)
    requires
        occurs(s, x),
    ensures
        occurs(a + s + b, x),
{
    let i = choose|i: int| #[trigger] stands_at(s, x, i);
    let t = a + s + b;
    let n = a.len() as int + i;
    assert(t.subrange(n, n + x.len()) =~= s.subrange(i, i + x.len()));
    assert(stands_at(t, x, n));
}

proof fn lemma_section_occurs(s: Seq<FoundView>, i: int)
    requires
        0 <= i < s.len(),
    ensures
        occurs(posts_text(s), post_section(s[i])),
    decreases s.len(),
{
    let head = s.drop_last();
    if i < head.len() {
        lemma_section_occurs(head, i);
        assert(head[i] == s[i]);
        lemma_occurs_inside(Seq::empty(), posts_text(head), post_section(s.last()), post_section(s[i]));
        assert(Seq::<char>::empty() + posts_text(head) + post_section(s.last()) =~= posts_text(s));
    } else {
        lemma_occurs_beside(posts_text(head), post_section(s.last()), Seq::empty());
        assert(posts_text(head) + post_section(s.last()) + Seq::<char>::empty() =~= posts_text(s));
    }
}

/// A thread is written out with its name first, then every post that is to be
/// seen, under its author and its time, with its identifier and its text.
pub proof fn a_thread_is_written_out(s: StateModel, t: FoundThreadModel, i: int)
    ensures
        begins(
            rendered(s, t),
            "Thread: "@ + t.meta.thread_id + "\nVisibility: "@ + t.meta.visibility + "\nTo: "@ + (if t.meta.visibility
                == "broadcast"@ {
                "Broadcast"@
            } else {
                joined(t.meta.project_tags, ", "@)
            }) + "\n\n"@,
        ),
        ({
            let posts = visible(s, t.meta.thread_id, t.posts);
            0 <= i < posts.len() ==> {
                let m = posts[i].post.meta;
                occurs(
                    rendered(s, t),
                    "## "@ + m.project_display_name + " / "@ + m.agent_display_name + " / "@ + m.created_at + "\npost: "@
                        + m.post_id + "\nversion: "@ + posts[i].post.version + "\n\n"@ + trimmed(posts[i].post.body),
                )
            }
        }),
{
    let posts = visible(s, t.meta.thread_id, t.posts);
    let r = rendered(s, t);
    let h = head_text(t.meta);
    let tail = places_text(places(s, t.meta.thread_id, text_set(post_ids(posts)), t.markers));
    assert(r.take(h.len() as int) =~= h);
    if 0 <= i < posts.len() {
        let m = posts[i].post.meta;
        let x = "## "@ + m.project_display_name + " / "@ + m.agent_display_name + " / "@ + m.created_at + "\npost: "@
            + m.post_id + "\nversion: "@ + posts[i].post.version + "\n\n"@ + trimmed(posts[i].post.body);
        let rest = "\n\n"@ + attachments_text(posts[i].attachments);
        lemma_occurs_beside(Seq::empty(), x, rest);
        assert(Seq::<char>::empty() + x + rest =~= post_section(posts[i]));
        lemma_section_occurs(posts, i);
        let all = posts_text(posts);
        let k = choose|k: int| #[trigger] stands_at(all, post_section(posts[i]), k);
        let sec = post_section(posts[i]);
        assert(stands_at(all, sec, k));
        assert(all =~= all.take(k) + sec + all.skip(k + sec.len())) by {
            assert(all.subrange(k, k + sec.len()) == sec);
            assert forall|j: int| 0 <= j < sec.len() implies all[k + j] == sec[j] by {
                assert(all.subrange(k, k + sec.len())[j] == sec[j]);
            }
        }
        lemma_occurs_inside(all.take(k), sec, all.skip(k + sec.len()), x);
        lemma_occurs_inside(h, all, tail, x);
        assert(h + all + tail =~= r);
    }
}

/// A written attachment tells its name, its identifier, its size, its hash and
/// where it lies, and whether it is missing there.
pub proof fn a_written_attachment_tells_where_it_lies(s: Seq<AttachmentViewModel>, a: AttachmentViewModel)
    ensures
        attachments_text(s.push(a)) == attachments_text(s) + "Attachment: "@ + a.attachment.name + "\n  id: "@
            + a.attachment.id + "\n  size: "@ + decimal(a.attachment.size) + " bytes\n  sha256: "@ + a.attachment.sha256
            + "\n  path: "@ + a.local_path + (if a.available {
            "\n\n"@
        } else {
            " [missing]\n\n"@
        }),
{
    assert(s.push(a).drop_last() =~= s);
    assert(s.push(a).last() == a);
    assert(attachments_text(s.push(a)) =~= attachments_text(s) + attachment_text(a));
    assert(attachments_text(s.push(a)) =~= attachments_text(s) + "Attachment: "@ + a.attachment.name + "\n  id: "@
        + a.attachment.id + "\n  size: "@ + decimal(a.attachment.size) + " bytes\n  sha256: "@ + a.attachment.sha256
        + "\n  path: "@ + a.local_path + (if a.available {
        "\n\n"@
    } else {
        " [missing]\n\n"@
    }));
}

/// As many threads are new as are shown so.
pub proof fn new_threads_are_counted(ts: Seq<ThreadViewModel>, t: ThreadViewModel)
    ensures
        count_new(Seq::empty()) == 0,
        t.is_new ==> count_new(ts.push(t)) == count_new(ts) + 1,
        !t.is_new ==> count_new(ts.push(t)) == count_new(ts),
        count_new(ts) <= ts.len(),
    decreases ts.len(),
{
    assert(ts.push(t).drop_last() =~= ts);
    assert(ts.push(t).last() == t);
    if ts.len() > 0 {
        new_threads_are_counted(ts.drop_last(), t);
    }
}

/// A missing post is told by its place.
pub proof fn a_missing_post_is_told(s: Seq<PlaceModel>, p: PlaceModel)
    ensures
        places_text(s.push(p)) == places_text(s) + ("## Unavailable post\npost: "@ + p.post + "\n\n"@ + PLACEHOLDER_TEXT@
            + "\n\n"@),
{
    assert(s.push(p).drop_last() =~= s);
    assert(s.push(p).last() == p);
}

} // verus!
