//! Publishing: new threads and replies, from what was typed to what is kept.
use vstd::prelude::*;
use vstd::utf8::encode_utf8;
use crate::bbs::attachments::{describes, entry_model, look_models, open_all, opened_all, opt_first_fault};
use crate::bbs::attachments::{source_models, stored_entries, valid_models, CopyOutcome, Look, ValidModel};
use crate::bbs::mentions::{coded, finalized, mention_models, prepared, Context, ContextModel, Directories};
use crate::bbs::mentions::{DirectoriesModel, Mention, MentionModel, Prepared, PublishError, PublishErrorModel};
use crate::bbs::names::{is_stamp, mint_post_id, mint_thread_id, normalize_project_tags, post_id, tagged_projects};
use crate::bbs::notify::record::ATTACHMENT_WAIT_MS;
use crate::bbs::notify::prepare::prepares;
use crate::bbs::notify::store::Queue;
use crate::bbs::posts::{attachment_refs, identity_from_env, is_session_author, post_refs, post_text, post_version};
use crate::bbs::posts::{serialized_post, session_field, version_of, Session};
use crate::bbs::sync::model::{ref_models, shared_in, sharing, suppressed, tkey, version_key, AttachmentRef};
use crate::bbs::sync::model::{LedgerEntry, MAX_BODY_BYTES, PostVersion, RefModel, RowModel, StateModel, StoredModel, SyncState};
use crate::bbs::sync::model::VersionModel;
use crate::bbs::threads::{has_version, in_place, loaded_thread, post_rank_fn, readable, repaired, single_topic};
use crate::bbs::threads::{thread_posts, topic_of, FoundModel};
use crate::bbs::types::{attachment_models, AttachmentModel, BbsAttachment, BbsAttachmentSource, BbsHumanPostRequest};
use crate::bbs::types::{BbsHumanReplyRequest, BbsPostMeta, BbsThreadMeta, Identity, LoadedModel, POST_SCHEMA};
use crate::bbs::types::{PostModel, THREAD_SCHEMA, ThreadModel};
use crate::ids::{is_component, is_safe_id, safe_component, safe_id};
use crate::order::{Key, OrderedMap, Parts};
use crate::outside::{all_hex, now_iso, rfc3339};
use crate::sort::sorted_by;
use crate::text::{blank, copy_opt, dedup, opt_text, own, plus, plus3, same, texts, trimmed, Text};
use crate::text::dedup_keeps_each_text_once;

verus! {

// ------------------------------------------------------------------- attaching

/// The files of a post: where they are, what looking at them and copying them
/// gave, and a random part for each copy.
pub struct Attaching {
    pub sources: Vec<BbsAttachmentSource>,
    pub looks: Vec<Look>,
    pub tokens: Vec<String>,
    pub outcomes: Vec<CopyOutcome>,
}

impl Attaching {
    pub open spec fn wf(&self) -> bool {
        &&& self.looks@.len() == self.sources@.len()
        &&& self.tokens@.len() == self.sources@.len()
        &&& self.outcomes@.len() == self.sources@.len()
    }

    /// A post without files.
    pub fn none() -> (r: Attaching)
        ensures
            r.wf(),
            r.sources@.len() == 0,
    {
        Attaching { sources: Vec::new(), looks: Vec::new(), tokens: Vec::new(), outcomes: Vec::new() }
    }
}

pub open spec fn copy_hash(o: CopyOutcome) -> Text {
    match o {
        CopyOutcome::Done { sha256, .. } => sha256@,
        CopyOutcome::Failed(_) => Seq::empty(),
    }
}

pub open spec fn entries_of(post: Text, a: Attaching, v: Seq<ValidModel>) -> Seq<AttachmentModel> {
    Seq::new(v.len(), |i: int| entry_model(post, a.tokens@[i]@, v[i], copy_hash(a.outcomes@[i])))
}

/// The attachments of a post, or why they cannot be attached.
pub open spec fn attached(post: Text, a: Attaching) -> Result<Seq<AttachmentModel>, Text> {
    match opened_all(source_models(a.sources@), look_models(a.looks@)) {
        Err(e) => Err(e),
        Ok(v) => match opt_first_fault(v, a.outcomes@) {
            Some(e) => Err(e),
            None => Ok(entries_of(post, a, v)),
        },
    }
}

pub open spec fn attached_result(r: Result<Vec<BbsAttachment>, String>) -> Result<Seq<AttachmentModel>, Text> {
    match r {
        Ok(v) => Ok(attachment_models(v@)),
        Err(e) => Err(e@),
    }
}

pub fn attach(post_id: &str, a: &Attaching) -> (r: Result<Vec<BbsAttachment>, String>)
    requires
        a.wf(),
    ensures
        attached_result(r) == attached(post_id@, *a),
{
    let files = match open_all(&a.sources, &a.looks) {
        Ok(v) => v,
        Err(e) => {
            return Err(e);
        },
    };
    proof {
        crate::bbs::attachments::attachments_are_bounded(source_models(a.sources@), look_models(a.looks@));
        assert(valid_models(files@).len() == files@.len());
    }
    match stored_entries(post_id, &a.tokens, &files, &a.outcomes) {
        Err(e) => Err(e),
        Ok(v) => {
            let ghost all = valid_models(files@);
            assert forall|i: int| 0 <= i < v@.len() implies #[trigger] attachment_models(v@)[i] == entries_of(
                post_id@,
                *a,
                all,
            )[i] by {
                assert(describes(post_id@, v@[i]@, a.tokens@[i]@, all[i], a.outcomes@[i]));
            }
            assert(attachment_models(v@) =~= entries_of(post_id@, *a, all));
            Ok(v)
        },
    }
}

// -------------------------------------------------------------------- drafts

/// What publication sees around it: before the board is locked, and while it
/// is.
pub struct Surroundings {
    pub context: Context,
    pub directories: Directories,
    pub current: Context,
}

pub struct SurroundingsModel {
    pub context: ContextModel,
    pub directories: DirectoriesModel,
    pub current: ContextModel,
}

impl View for Surroundings {
    type V = SurroundingsModel;

    open spec fn view(&self) -> SurroundingsModel {
        SurroundingsModel { context: self.context@, directories: self.directories@, current: self.current@ }
    }
}

/// A post to be published, with the metadata of its thread.
pub struct Draft {
    pub thread: BbsThreadMeta,
    pub post: BbsPostMeta,
    pub body: String,
}

pub struct DraftModel {
    pub thread: ThreadModel,
    pub post: PostModel,
    pub body: Text,
}

impl View for Draft {
    type V = DraftModel;

    open spec fn view(&self) -> DraftModel {
        DraftModel { thread: self.thread@, post: self.post@, body: self.body@ }
    }
}

pub open spec fn draft_result(r: Result<Draft, String>) -> Result<DraftModel, Text> {
    match r {
        Ok(d) => Ok(d@),
        Err(e) => Err(e@),
    }
}

/// Who writes.
pub struct AuthorModel {
    pub project_id: Text,
    pub project_display_name: Text,
    pub agent_id: Text,
    pub agent_display_name: Text,
    pub agent_avatar: Option<Text>,
}

pub open spec fn author_model(i: Identity) -> AuthorModel {
    AuthorModel {
        project_id: i.project_id@,
        project_display_name: i.project_display_name@,
        agent_id: i.agent_id@,
        agent_display_name: i.agent_display_name@,
        agent_avatar: opt_text(i.agent_avatar),
    }
}

pub open spec fn post_by(
    author: AuthorModel,
    thread: Text,
    post: Text,
    now: Text,
    kind: Text,
    attachments: Seq<AttachmentModel>,
    mentions: Seq<MentionModel>,
) -> PostModel {
    PostModel {
        schema: POST_SCHEMA@,
        post_id: post,
        thread_id: thread,
        project_id: author.project_id,
        agent_id: author.agent_id,
        agent_display_name: author.agent_display_name,
        agent_avatar: author.agent_avatar,
        project_display_name: author.project_display_name,
        created_at: now,
        kind,
        attachments,
        mentions,
    }
}

/// What a new thread is made of.
pub open spec fn new_thread_meta(
    author: AuthorModel,
    tags: Seq<Text>,
    broadcast: bool,
    thread: Text,
    post: Text,
    now: Text,
) -> ThreadModel {
    ThreadModel {
        schema: THREAD_SCHEMA@,
        thread_id: thread,
        status: "open"@,
        visibility: if broadcast {
            "broadcast"@
        } else {
            "targeted"@
        },
        project_tags: if broadcast {
            Seq::empty()
        } else {
            dedup(tagged_projects(tags))
        },
        created_by_project: author.project_id,
        created_by_agent: author.agent_id,
        created_at: now,
        updated_at: now,
        latest_post_id: post,
    }
}

/// The parts that are drawn or measured when a post is published.
pub struct Minted {
    pub thread_id: String,
    pub post_id: String,
    pub now: String,
}

pub struct MintedModel {
    pub thread: Text,
    pub post: Text,
    pub now: Text,
}

impl View for Minted {
    type V = MintedModel;

    open spec fn view(&self) -> MintedModel {
        MintedModel { thread: self.thread_id@, post: self.post_id@, now: self.now@ }
    }
}

/// A new thread: first the text, then the addressees, then the files, then
/// the addressees once more with the board locked.
pub open spec fn new_thread(
    author: AuthorModel,
    tags: Seq<Text>,
    broadcast: bool,
    body: Text,
    a: Attaching,
    targets: Seq<MentionModel>,
    around: SurroundingsModel,
    m: MintedModel,
) -> Result<DraftModel, Text> {
    if trimmed(body).len() == 0 && a.sources@.len() == 0 {
        Err("BBS post needs text or an attachment"@)
    } else {
        match prepared(around.context, around.directories, true, targets) {
            Err(e) => Err(e),
            Ok(p) => match attached(m.post, a) {
                Err(e) => Err(e),
                Ok(files) => match finalized(p, around.current, true, false, body) {
                    Err(e) => Err(e),
                    Ok((mentions, text)) => Ok(
                        DraftModel {
                            thread: new_thread_meta(author, tags, broadcast, m.thread, m.post, m.now),
                            post: post_by(author, m.thread, m.post, m.now, "topic"@, files, mentions),
                            body: text,
                        },
                    ),
                },
            },
        }
    }
}

fn post_meta(
    identity: &Identity,
    thread_id: &str,
    post_id: &str,
    now: &str,
    kind: &str,
    attachments: Vec<BbsAttachment>,
    mentions: Vec<Mention>,
) -> (r: BbsPostMeta)
    ensures
        r@ == post_by(
            author_model(*identity),
            thread_id@,
            post_id@,
            now@,
            kind@,
            attachment_models(attachments@),
            mention_models(mentions@),
        ),
{
    BbsPostMeta {
        schema: own(POST_SCHEMA),
        post_id: own(post_id),
        thread_id: own(thread_id),
        project_id: identity.project_id.clone(),
        agent_id: identity.agent_id.clone(),
        agent_display_name: identity.agent_display_name.clone(),
        agent_avatar: copy_opt(&identity.agent_avatar),
        project_display_name: identity.project_display_name.clone(),
        created_at: own(now),
        kind: own(kind),
        attachments,
        mentions,
    }
}

/// Compose a new thread, given its names and the time.
pub fn compose_thread(
    identity: &Identity,
    project_tags: &Vec<String>,
    broadcast: bool,
    body: String,
    files: &Attaching,
    targets: &Vec<Mention>,
    around: &Surroundings,
    minted: &Minted,
) -> (r: Result<Draft, String>)
    requires
        files.wf(),
    ensures
        draft_result(r) == new_thread(
            author_model(*identity),
            texts(project_tags@),
            broadcast,
            body@,
            *files,
            mention_models(targets@),
            around@,
            minted@,
        ),
{
    if blank(&body) && files.sources.len() == 0 {
        return Err(own("BBS post needs text or an attachment"));
    }
    let found = match Prepared::load(&around.context, &around.directories, targets, true) {
        Ok(p) => p,
        Err(e) => {
            return Err(e);
        },
    };
    let attachments = match attach(&minted.post_id, files) {
        Ok(v) => v,
        Err(e) => {
            return Err(e);
        },
    };
    let (mentions, body) = match found.finalize(&around.current, true, false, body) {
        Ok(t) => t,
        Err(e) => {
            return Err(e);
        },
    };
    let tags: Vec<String> = if broadcast {
        Vec::new()
    } else {
        normalize_project_tags(project_tags)
    };
    assert(broadcast ==> texts(tags@) =~= Seq::empty());
    let thread = BbsThreadMeta {
        schema: own(THREAD_SCHEMA),
        thread_id: minted.thread_id.clone(),
        status: own("open"),
        visibility: if broadcast {
            own("broadcast")
        } else {
            own("targeted")
        },
        project_tags: tags,
        created_by_project: identity.project_id.clone(),
        created_by_agent: identity.agent_id.clone(),
        created_at: minted.now.clone(),
        updated_at: minted.now.clone(),
        latest_post_id: minted.post_id.clone(),
    };
    let post = post_meta(
        identity,
        &minted.thread_id,
        &minted.post_id,
        &minted.now,
        "topic",
        attachments,
        mentions,
    );
    Ok(Draft { thread, post, body })
}

/// A reply. The thread is read again with the board locked, after the slow
/// copies.
pub open spec fn new_reply(
    author: AuthorModel,
    thread: Text,
    body: Text,
    a: Attaching,
    targets: Seq<MentionModel>,
    around: SurroundingsModel,
    there: bool,
    shared: bool,
    meta: Result<ThreadModel, Text>,
    m: MintedModel,
) -> Result<DraftModel, Text> {
    if !is_component(thread) {
        Err("invalid BBS thread id"@)
    } else if trimmed(body).len() == 0 && a.sources@.len() == 0 {
        Err("BBS reply needs text or an attachment"@)
    } else if !there {
        Err("BBS thread not found: "@ + thread)
    } else {
        match prepared(around.context, around.directories, false, targets) {
            Err(e) => Err(e),
            Ok(p) => match attached(m.post, a) {
                Err(e) => Err(e),
                Ok(files) => match finalized(p, around.current, false, shared, body) {
                    Err(e) => Err(e),
                    Ok((mentions, text)) => match meta {
                        Err(e) => Err("BBS thread is unavailable or was deleted: "@ + thread + ": "@ + e),
                        Ok(t) => if t.thread_id != thread {
                            Err("BBS thread metadata ID mismatch"@)
                        } else {
                            Ok(
                                DraftModel {
                                    thread: ThreadModel { latest_post_id: m.post, updated_at: m.now, ..t },
                                    post: post_by(author, thread, m.post, m.now, "reply"@, files, mentions),
                                    body: text,
                                },
                            )
                        },
                    },
                },
            },
        }
    }
}

pub open spec fn meta_result(m: Result<BbsThreadMeta, String>) -> Result<ThreadModel, Text> {
    match m {
        Ok(t) => Ok(t@),
        Err(e) => Err(e@),
    }
}

/// Compose a reply, given its names and the time. `there` says whether the
/// thread's directory was there, `meta` is its metadata with the board locked.
pub fn compose_reply(
    identity: &Identity,
    thread_id: &str,
    body: String,
    files: &Attaching,
    targets: &Vec<Mention>,
    around: &Surroundings,
    there: bool,
    shared: bool,
    meta: Result<BbsThreadMeta, String>,
    minted: &Minted,
) -> (r: Result<Draft, String>)
    requires
        files.wf(),
    ensures
        draft_result(r) == new_reply(
            author_model(*identity),
            thread_id@,
            body@,
            *files,
            mention_models(targets@),
            around@,
            there,
            shared,
            meta_result(meta),
            minted@,
        ),
{
    if !safe_component(thread_id) {
        return Err(own("invalid BBS thread id"));
    }
    if blank(&body) && files.sources.len() == 0 {
        return Err(own("BBS reply needs text or an attachment"));
    }
    if !there {
        return Err(plus("BBS thread not found: ", thread_id));
    }
    let found = match Prepared::load(&around.context, &around.directories, targets, false) {
        Ok(p) => p,
        Err(e) => {
            return Err(e);
        },
    };
    let attachments = match attach(&minted.post_id, files) {
        Ok(v) => v,
        Err(e) => {
            return Err(e);
        },
    };
    let (mentions, body) = match found.finalize(&around.current, false, shared, body) {
        Ok(t) => t,
        Err(e) => {
            return Err(e);
        },
    };
    let mut thread = match meta {
        Ok(t) => t,
        Err(e) => {
            let mut m = plus3("BBS thread is unavailable or was deleted: ", thread_id, ": ");
            m.append(&e);
            return Err(m);
        },
    };
    if !same(&thread.thread_id, thread_id) {
        return Err(own("BBS thread metadata ID mismatch"));
    }
    let post = post_meta(identity, thread_id, &minted.post_id, &minted.now, "reply", attachments, mentions);
    thread.latest_post_id = minted.post_id.clone();
    thread.updated_at = minted.now.clone();
    Ok(Draft { thread, post, body })
}

/// The thread is shared in the group of this device.
pub fn shared_here(state: &SyncState, current: &Context, thread_id: &str) -> (r: bool)
    requires
        state.wf(),
    ensures
        r == (current@.membership matches Some(m) && shared_in(state@, m.0, thread_id@)),
{
    match &current.membership {
        Some(m) => state.shared_in(&m.group_id, thread_id),
        None => false,
    }
}

// ------------------------------------------------------------------ the calls

/// The names of a new post are drawn anew.
pub open spec fn freshly_minted(m: MintedModel, agent: Text) -> bool {
    &&& exists|t: Text| t.len() == 12 && all_hex(t) && m.thread == "thread-"@ + t
    &&& exists|time: Text, token: Text|
        is_stamp(time) && token.len() == 8 && all_hex(token) && m.post == #[trigger] post_id(time, agent, token)
    &&& m.now.len() == 20 ==> rfc3339(m.now)
}

fn mint(agent_id: &str) -> (r: Minted)
    ensures
        freshly_minted(r@, agent_id@),
{
    let thread_id = mint_thread_id();
    let post = mint_post_id(agent_id);
    let r = Minted { thread_id, post_id: post, now: now_iso() };
    proof {
        let t = choose|t: Text| t.len() == 12 && all_hex(t) && #[trigger] ("thread-"@ + t) == thread_id@;
        assert(t.len() == 12 && all_hex(t) && r@.thread == "thread-"@ + t);
        let (time, token) = choose|time: Text, token: Text|
            is_stamp(time) && token.len() == 8 && all_hex(token) && post@ == #[trigger] post_id(time, agent_id@, token);
        assert(is_stamp(time) && r@.post == post_id(time, agent_id@, token));
    }
    r
}

/// A new thread with files and addressees.
pub fn create_thread_with_mentions_as(
    identity: &Identity,
    project_tags: &Vec<String>,
    broadcast: bool,
    body: String,
    files: &Attaching,
    targets: &Vec<Mention>,
    around: &Surroundings,
) -> (r: Result<Draft, String>)
    requires
        files.wf(),
    ensures
        exists|m: MintedModel|
            freshly_minted(m, identity.agent_id@) && draft_result(r) == #[trigger] new_thread(
                author_model(*identity),
                texts(project_tags@),
                broadcast,
                body@,
                *files,
                mention_models(targets@),
                around@,
                m,
            ),
{
    let minted = mint(&identity.agent_id);
    compose_thread(identity, project_tags, broadcast, body, files, targets, around, &minted)
}

/// A new thread with files.
pub fn create_thread_with_attachments_as(
    identity: &Identity,
    project_tags: &Vec<String>,
    broadcast: bool,
    body: String,
    files: &Attaching,
    around: &Surroundings,
) -> (r: Result<Draft, String>)
    requires
        files.wf(),
    ensures
        exists|m: MintedModel|
            freshly_minted(m, identity.agent_id@) && draft_result(r) == #[trigger] new_thread(
                author_model(*identity),
                texts(project_tags@),
                broadcast,
                body@,
                *files,
                Seq::empty(),
                around@,
                m,
            ),
{
    let none: Vec<Mention> = Vec::new();
    assert(mention_models(none@) =~= Seq::empty());
    create_thread_with_mentions_as(identity, project_tags, broadcast, body, files, &none, around)
}

/// A new thread of text alone.
pub fn create_thread_as(
    identity: &Identity,
    project_tags: &Vec<String>,
    broadcast: bool,
    body: String,
    around: &Surroundings,
) -> (r: Result<Draft, String>)
    ensures
        exists|m: MintedModel, none: Attaching|
            none.sources@.len() == 0 && freshly_minted(m, identity.agent_id@) && draft_result(r)
                == #[trigger] new_thread(
                author_model(*identity),
                texts(project_tags@),
                broadcast,
                body@,
                none,
                Seq::empty(),
                around@,
                m,
            ),
{
    let none = Attaching::none();
    create_thread_with_attachments_as(identity, project_tags, broadcast, body, &none, around)
}

/// A new thread by the agent of a session.
pub fn create_thread(
    session: &Session,
    project_tags: &Vec<String>,
    broadcast: bool,
    body: String,
    around: &Surroundings,
) -> (r: Result<Draft, String>)
    ensures
        exists|author: Identity, m: MintedModel, none: Attaching|
            {
                &&& is_session_author(
                    author,
                    *session,
                    session_field(*session, "display-name"@, "displayName"@),
                    session_field(*session, "avatar-id"@, "avatarId"@),
                )
                &&& none.sources@.len() == 0
                &&& freshly_minted(m, author.agent_id@)
                &&& draft_result(r) == #[trigger] new_thread(
                    author_model(author),
                    texts(project_tags@),
                    broadcast,
                    body@,
                    none,
                    Seq::empty(),
                    around@,
                    m,
                )
            },
{
    let author = identity_from_env(session);
    create_thread_as(&author, project_tags, broadcast, body, around)
}

/// A reply with files and addressees.
pub fn reply_with_mentions_as(
    identity: &Identity,
    thread_id: &str,
    body: String,
    files: &Attaching,
    targets: &Vec<Mention>,
    around: &Surroundings,
    there: bool,
    shared: bool,
    meta: Result<BbsThreadMeta, String>,
) -> (r: Result<Draft, String>)
    requires
        files.wf(),
    ensures
        exists|m: MintedModel|
            freshly_minted(m, identity.agent_id@) && draft_result(r) == #[trigger] new_reply(
                author_model(*identity),
                thread_id@,
                body@,
                *files,
                mention_models(targets@),
                around@,
                there,
                shared,
                meta_result(meta),
                m,
            ),
{
    let minted = mint(&identity.agent_id);
    compose_reply(identity, thread_id, body, files, targets, around, there, shared, meta, &minted)
}

/// A reply with files.
pub fn reply_with_attachments_as(
    identity: &Identity,
    thread_id: &str,
    body: String,
    files: &Attaching,
    around: &Surroundings,
    there: bool,
    meta: Result<BbsThreadMeta, String>,
) -> (r: Result<Draft, String>)
    requires
        files.wf(),
    ensures
        exists|m: MintedModel|
            freshly_minted(m, identity.agent_id@) && draft_result(r) == #[trigger] new_reply(
                author_model(*identity),
                thread_id@,
                body@,
                *files,
                Seq::empty(),
                around@,
                there,
                false,
                meta_result(meta),
                m,
            ),
{
    let none: Vec<Mention> = Vec::new();
    assert(mention_models(none@) =~= Seq::empty());
    reply_with_mentions_as(identity, thread_id, body, files, &none, around, there, false, meta)
}

/// A reply of text alone.
pub fn reply_as(
    identity: &Identity,
    thread_id: &str,
    body: String,
    around: &Surroundings,
    there: bool,
    meta: Result<BbsThreadMeta, String>,
) -> (r: Result<Draft, String>)
    ensures
        exists|m: MintedModel, none: Attaching|
            none.sources@.len() == 0 && freshly_minted(m, identity.agent_id@) && draft_result(r)
                == #[trigger] new_reply(
                author_model(*identity),
                thread_id@,
                body@,
                none,
                Seq::empty(),
                around@,
                there,
                false,
                meta_result(meta),
                m,
            ),
{
    let none = Attaching::none();
    reply_with_attachments_as(identity, thread_id, body, &none, around, there, meta)
}

/// A reply by the agent of a session.
pub fn reply(
    session: &Session,
    thread_id: &str,
    body: String,
    around: &Surroundings,
    there: bool,
    meta: Result<BbsThreadMeta, String>,
) -> (r: Result<Draft, String>)
    ensures
        exists|author: Identity, m: MintedModel, none: Attaching|
            {
                &&& is_session_author(
                    author,
                    *session,
                    session_field(*session, "display-name"@, "displayName"@),
                    session_field(*session, "avatar-id"@, "avatarId"@),
                )
                &&& none.sources@.len() == 0
                &&& freshly_minted(m, author.agent_id@)
                &&& draft_result(r) == #[trigger] new_reply(
                    author_model(author),
                    thread_id@,
                    body@,
                    none,
                    Seq::empty(),
                    around@,
                    there,
                    false,
                    meta_result(meta),
                    m,
                )
            },
{
    let author = identity_from_env(session);
    reply_as(&author, thread_id, body, around, there, meta)
}

pub open spec fn human_result(r: Result<Draft, PublishError>) -> Result<DraftModel, PublishErrorModel> {
    match r {
        Ok(d) => Ok(d@),
        Err(e) => Err(e@),
    }
}

pub open spec fn coded_result(r: Result<DraftModel, Text>) -> Result<DraftModel, PublishErrorModel> {
    match r {
        Ok(d) => Ok(d),
        Err(e) => Err(coded(e)),
    }
}

/// A thread that the user starts: never for everybody, and with fixed codes
/// for the errors that the panel explains.
pub fn publish_human_post(
    identity: &Identity,
    request: BbsHumanPostRequest,
    files: &Attaching,
    around: &Surroundings,
) -> (r: Result<Draft, PublishError>)
    requires
        files.wf(),
    ensures
        exists|m: MintedModel|
            freshly_minted(m, identity.agent_id@) && human_result(r) == coded_result(
                #[trigger] new_thread(
                    author_model(*identity),
                    texts(request.project_tags@),
                    false,
                    request.body@,
                    *files,
                    mention_models(request.mentions@),
                    around@,
                    m,
                ),
            ),
{
    match create_thread_with_mentions_as(
        identity,
        &request.project_tags,
        false,
        request.body,
        files,
        &request.mentions,
        around,
    ) {
        Ok(d) => Ok(d),
        Err(e) => Err(PublishError::of(&e)),
    }
}

/// A reply of the user.
pub fn publish_human_reply(
    identity: &Identity,
    request: BbsHumanReplyRequest,
    files: &Attaching,
    around: &Surroundings,
    there: bool,
    shared: bool,
    meta: Result<BbsThreadMeta, String>,
) -> (r: Result<Draft, PublishError>)
    requires
        files.wf(),
    ensures
        exists|m: MintedModel|
            freshly_minted(m, identity.agent_id@) && human_result(r) == coded_result(
                #[trigger] new_reply(
                    author_model(*identity),
                    request.thread_id@,
                    request.body@,
                    *files,
                    mention_models(request.mentions@),
                    around@,
                    there,
                    shared,
                    meta_result(meta),
                    m,
                ),
            ),
{
    match reply_with_mentions_as(
        identity,
        &request.thread_id,
        request.body,
        files,
        &request.mentions,
        around,
        there,
        shared,
        meta,
    ) {
        Ok(d) => Ok(d),
        Err(e) => Err(PublishError::of(&e)),
    }
}

// ---------------------------------------------------------------- reservation

/// What the ledger says of a post that is about to be published: its
/// description, without any proof of its files.
pub open spec fn reserved_row(m: PostModel, version: Text, size: nat, refs: Seq<RefModel>, now: Text) -> RowModel {
    RowModel {
        thread_id: m.thread_id,
        post_id: m.post_id,
        version_id: version,
        updated_at: now,
        attachments: Map::empty(),
        body_stamp: None,
        descriptor: Some(
            VersionModel {
                thread_id: m.thread_id,
                post_id: m.post_id,
                version_id: version,
                size,
                kind: m.kind,
                attachments: refs,
                avatar: None,
            },
        ),
        avatar_stamp: None,
    }
}

/// The sharing state with a new post: a new thread is shared in the device's
/// group, and a post that may travel is known before it is there. What cannot
/// travel is published all the same.
pub open spec fn reserved(
    s: StateModel,
    group: Option<Text>,
    m: PostModel,
    text: Text,
    new_root: bool,
    now: Text,
) -> Result<StateModel, Text> {
    let version = version_of(text);
    let size = encode_utf8(text).len();
    if suppressed(s, m.thread_id, m.post_id, version) {
        Err("BBS target was deleted"@)
    } else {
        let shared = match group {
            Some(g) => if new_root {
                sharing(s, g, tkey(m.thread_id))
            } else {
                s
            },
            None => s,
        };
        if size > MAX_BODY_BYTES || !is_safe_id(m.post_id) {
            Ok(shared)
        } else {
            match post_refs(m) {
                Err(e) => Err(e),
                Ok(refs) => Ok(
                    StateModel {
                        ledger: shared.ledger.insert(
                            tkey(version_key(m.post_id, version)),
                            reserved_row(m, version, size, refs, now),
                        ),
                        ..shared
                    },
                ),
            }
        }
    }
}

/// Reserve a post in the sharing state before it is published: its version.
pub fn before_local_publish(
    state: &mut SyncState,
    group: &Option<String>,
    meta: &BbsPostMeta,
    text: &str,
    new_root: bool,
    now: String,
) -> (r: Result<String, String>)
    requires
        old(state).wf(),
    ensures
        final(state).wf(),
        match reserved(old(state)@, opt_text(*group), meta@, text@, new_root, now@) {
            Ok(s) => r is Ok && r->Ok_0@ == version_of(text@) && final(state)@ == s,
            Err(e) => r is Err && r->Err_0@ == e && *final(state) == *old(state),
        },
{
    let version = post_version(text);
    if state.suppressed(&meta.thread_id, &meta.post_id, &version) {
        return Err(own("BBS target was deleted"));
    }
    let size = text.as_bytes().len();
    let travels = size <= MAX_BODY_BYTES as usize && safe_id(&meta.post_id);
    let refs: Vec<AttachmentRef> = if travels {
        match attachment_refs(meta) {
            Ok(v) => v,
            Err(e) => {
                return Err(e);
            },
        }
    } else {
        Vec::new()
    };
    if new_root {
        if let Some(g) = group {
            state.share(g, &meta.thread_id);
        }
    }
    if !travels {
        return Ok(version);
    }
    let descriptor = PostVersion {
        thread_id: meta.thread_id.clone(),
        post_id: meta.post_id.clone(),
        version_id: version.clone(),
        size_bytes: size as u64,
        kind: meta.kind.clone(),
        attachments: refs,
        avatar: None,
    };
    let row = LedgerEntry {
        thread_id: meta.thread_id.clone(),
        post_id: meta.post_id.clone(),
        version_id: version.clone(),
        updated_at: now,
        attachments: OrderedMap::new(),
        body_stamp: None,
        descriptor: Some(descriptor),
        avatar_stamp: None,
    };
    assert(row@ =~= reserved_row(meta@, version@, size as nat, ref_models(refs@), now@));
    let key = plus3(&meta.post_id, "/", &version);
    state.put_row(key, row);
    Ok(version)
}

/// A draft that is kept: the text of its post, its version, and the notices
/// that wait for its file.
pub struct Reserved {
    pub text: String,
    pub version: String,
    pub notices: Vec<String>,
}

pub open spec fn notice_keys(r: Result<Reserved, String>) -> Result<Seq<Text>, Text> {
    match r {
        Ok(t) => Ok(texts(t.notices@)),
        Err(e) => Err(e@),
    }
}

/// Reserve a draft: in the sharing state, then in the queue of notices.
/// `yaml` is the draft's frontmatter. Nothing is published yet; a failure
/// leaves no visible post.
pub fn reserve(
    state: &mut SyncState,
    queue: &mut Queue,
    group: &Option<String>,
    device: &Option<String>,
    draft: &Draft,
    yaml: &str,
    new_root: bool,
    now: String,
    now_ms: i64,
) -> (r: Result<Reserved, String>)
    requires
        old(state).wf(),
        old(queue).wf(),
        0 <= now_ms <= i64::MAX - ATTACHMENT_WAIT_MS,
        encode_utf8(post_text(yaml@, draft.body@)).len() < u64::MAX - 5,
    ensures
        final(state).wf(),
        final(queue).wf(),
        match reserved(
            old(state)@,
            opt_text(*group),
            draft.post@,
            post_text(yaml@, draft.body@),
            new_root,
            now@,
        ) {
            Err(e) => r is Err && r->Err_0@ == e && *final(state) == *old(state) && final(queue)@ == old(queue)@,
            Ok(s) => {
                &&& final(state)@ == s
                &&& r matches Ok(t) ==> t.text@ == post_text(yaml@, draft.body@) && t.version@ == version_of(t.text@)
                &&& prepares(
                    old(queue)@,
                    final(queue)@,
                    s,
                    draft.post,
                    encode_utf8(post_text(yaml@, draft.body@)),
                    version_of(post_text(yaml@, draft.body@)),
                    true,
                    *device,
                    None,
                    now_ms,
                    notice_keys(r),
                )
            },
        },
{
    let text = serialized_post(yaml, &draft.body);
    let version = match before_local_publish(state, group, &draft.post, &text, new_root, now) {
        Ok(v) => v,
        Err(e) => {
            return Err(e);
        },
    };
    let raw = text.as_str().as_bytes();
    match queue.prepare(state, &draft.post, raw, &version, true, device, &None, now_ms) {
        Ok(notices) => {
            Ok(Reserved { text, version, notices })
        },
        Err(e) => Err(e),
    }
}

// ---------------------------------------------------------------------- laws

/// Nothing is published into what was deleted.
pub proof fn nothing_is_published_into_a_deleted_thread(
    s: StateModel,
    group: Option<Text>,
    m: PostModel,
    text: Text,
    new_root: bool,
    now: Text,
)
    requires
        crate::bbs::sync::model::tombs_keyed(s.tombstones),
        crate::bbs::sync::model::thread_deleted(s, m.thread_id),
    ensures
        reserved(s, group, m, text, new_root, now) is Err,
{
    crate::bbs::sync::model::a_deleted_thread_has_no_posts(s, m.thread_id, m.post_id, version_of(text));
}

/// A reply never shares its thread: only a new thread is shared, and only in
/// the group of its device.
pub proof fn only_a_new_thread_becomes_shared(
    s: StateModel,
    group: Option<Text>,
    m: PostModel,
    text: Text,
    new_root: bool,
    now: Text,
)
    ensures
        reserved(s, group, m, text, new_root, now) matches Ok(t) ==> (group is None || !new_root) ==> t.groups == s.groups,
{
}

/// A thread is read back as it was started: one post, which is its latest, by
/// its author and with the text that was typed.
pub proof fn a_new_thread_is_read_back(
    author: AuthorModel,
    tags: Seq<Text>,
    broadcast: bool,
    body: Text,
    a: Attaching,
    targets: Seq<MentionModel>,
    around: SurroundingsModel,
    m: MintedModel,
    path: Text,
    version: Text,
)
    requires
        new_thread(author, tags, broadcast, body, a, targets, around, m) is Ok,
        is_component(m.thread),
    ensures
        ({
            let d = new_thread(author, tags, broadcast, body, a, targets, around, m)->Ok_0;
            let p = LoadedModel { meta: d.post, body: trimmed(d.body), path, version };
            loaded_thread(m.thread, Ok(d.thread), seq![FoundModel { post: m.post, loaded: Some(p) }]) == Ok::<
                (ThreadModel, Seq<LoadedModel>),
                Text,
            >((d.thread, seq![p]))
        }),
{
    let d = new_thread(author, tags, broadcast, body, a, targets, around, m)->Ok_0;
    let p = LoadedModel { meta: d.post, body: trimmed(d.body), path, version };
    let f = FoundModel { post: m.post, loaded: Some(p) };
    let s = seq![f];
    assert(in_place(m.thread, f));
    reveal_with_fuel(readable, 2);
    reveal_with_fuel(sorted_by, 2);
    reveal_with_fuel(crate::sort::placed, 2);
    reveal_with_fuel(single_topic, 2);
    reveal_with_fuel(topic_of, 2);
    assert(s.drop_last() =~= Seq::empty());
    assert(readable(m.thread, s) =~= seq![p]);
    let one = seq![p];
    assert(one.drop_last() =~= Seq::empty());
    assert(sorted_by(one, post_rank_fn()) =~= one);
    assert(topic_of(one) == Some(m.post));
    assert(!has_version(Seq::<LoadedModel>::empty(), m.post, version));
    assert(single_topic(one, Some(m.post)) =~= one);
    assert(thread_posts(m.thread, s) == one);
    assert(one.last() == p);
    assert(repaired(d.thread, one) == d.thread);
}

/// A post that is written here is dated so that other devices accept the date,
/// as long as years have four digits.
pub proof fn a_new_post_has_a_valid_date(
    author: AuthorModel,
    tags: Seq<Text>,
    broadcast: bool,
    body: Text,
    a: Attaching,
    targets: Seq<MentionModel>,
    around: SurroundingsModel,
    m: MintedModel,
)
    requires
        freshly_minted(m, author.agent_id),
        m.now.len() == 20,
    ensures
        new_thread(author, tags, broadcast, body, a, targets, around, m) matches Ok(d) ==> rfc3339(
            d.post.created_at,
        ),
{
}

/// So is a reply.
pub proof fn a_new_reply_has_a_valid_date(
    author: AuthorModel,
    thread: Text,
    body: Text,
    a: Attaching,
    targets: Seq<MentionModel>,
    around: SurroundingsModel,
    there: bool,
    shared: bool,
    meta: Result<ThreadModel, Text>,
    m: MintedModel,
)
    requires
        freshly_minted(m, author.agent_id),
        m.now.len() == 20,
    ensures
        new_reply(author, thread, body, a, targets, around, there, shared, meta, m) matches Ok(d) ==> rfc3339(
            d.post.created_at,
        ),
{
}

/// A new thread becomes shared in the group of its device, and nothing else
/// becomes shared or unshared. Outside a group, and for a reply, nothing does.
pub proof fn a_new_thread_is_shared_with_its_group(
    s: StateModel,
    group: Option<Text>,
    m: PostModel,
    text: Text,
    new_root: bool,
    now: Text,
    g: Text,
    thread: Text,
)
    ensures
        reserved(s, group, m, text, new_root, now) matches Ok(t) ==> {
            shared_in(t, g, thread) <==> shared_in(s, g, thread) || (new_root && group == Some(g) && thread
                == m.thread_id)
        },
{
    lemma_tkeys(g, thread);
    if let Some(h) = group {
        lemma_tkeys(h, m.thread_id);
    }
    lemma_tkeys(m.thread_id, m.post_id);
}

proof fn lemma_tkeys(a: Text, b: Text)
    ensures
        tkey(a)[0] == a,
        tkey(b)[0] == b,
{
}

/// Reserving a post fails only for one that was deleted or whose attachments
/// cannot be described. It enters at most one row into the ledger, that of the
/// post's own text, and leaves deletions, records and notices of other devices
/// as they are.
pub proof fn reserving_enters_the_post_alone(
    s: StateModel,
    group: Option<Text>,
    m: PostModel,
    text: Text,
    new_root: bool,
    now: Text,
    k: Parts,
)
    ensures
        ({
            let travels = encode_utf8(text).len() <= MAX_BODY_BYTES && is_safe_id(m.post_id);
            let own = tkey(m.post_id + "/"@ + version_of(text));
            match reserved(s, group, m, text, new_root, now) {
                Err(_) => suppressed(s, m.thread_id, m.post_id, version_of(text)) || (travels && post_refs(m) is Err),
                Ok(t) => {
                    &&& !suppressed(s, m.thread_id, m.post_id, version_of(text))
                    &&& t.tombstones == s.tombstones
                    &&& t.records == s.records
                    &&& t.unavailable == s.unavailable
                    &&& k != own || !travels ==> t.ledger.contains_key(k) == s.ledger.contains_key(k) && (
                    s.ledger.contains_key(k) ==> t.ledger[k] == s.ledger[k])
                    &&& travels ==> {
                        &&& t.ledger.contains_key(own)
                        &&& t.ledger[own].thread_id == m.thread_id
                        &&& t.ledger[own].post_id == m.post_id
                        &&& t.ledger[own].version_id == version_of(text)
                        &&& t.ledger[own].updated_at == now
                        &&& t.ledger[own].body_stamp is None
                        &&& t.ledger[own].avatar_stamp is None
                        &&& t.ledger[own].attachments == Map::<Parts, StoredModel>::empty()
                        &&& t.ledger[own].descriptor matches Some(d) && {
                            &&& d.thread_id == m.thread_id
                            &&& d.post_id == m.post_id
                            &&& d.version_id == version_of(text)
                            &&& d.size == encode_utf8(text).len()
                            &&& d.kind == m.kind
                            &&& Ok::<Seq<RefModel>, Text>(d.attachments) == post_refs(m)
                            &&& d.avatar is None
                        }
                    }
                },
            }
        }),
{
}

/// A new thread is open, started by its author now, with one post that is its
/// topic; only one that is not for everybody names projects.
pub proof fn a_new_thread_holds_what_was_asked(
    author: AuthorModel,
    tags: Seq<Text>,
    broadcast: bool,
    body: Text,
    a: Attaching,
    targets: Seq<MentionModel>,
    around: SurroundingsModel,
    m: MintedModel,
    tag: Text,
)
    requires
        new_thread(author, tags, broadcast, body, a, targets, around, m) is Ok,
    ensures
        ({
            let d = new_thread(author, tags, broadcast, body, a, targets, around, m)->Ok_0;
            &&& d.thread.thread_id == m.thread && d.post.thread_id == m.thread
            &&& d.post.post_id == m.post && d.thread.latest_post_id == m.post
            &&& d.thread.created_at == m.now && d.thread.updated_at == m.now && d.post.created_at == m.now
            &&& d.thread.status == "open"@ && d.post.kind == "topic"@
            &&& d.thread.visibility == (if broadcast { "broadcast"@ } else { "targeted"@ })
            &&& broadcast ==> d.thread.project_tags.len() == 0
            &&& !broadcast ==> (d.thread.project_tags.contains(tag) <==> tagged_projects(tags).contains(tag))
            &&& !broadcast ==> d.thread.project_tags.no_duplicates()
            &&& d.thread.created_by_project == author.project_id && d.post.project_id == author.project_id
            &&& d.thread.created_by_agent == author.agent_id && d.post.agent_id == author.agent_id
            &&& d.post.agent_display_name == author.agent_display_name
            &&& d.post.project_display_name == author.project_display_name
            &&& d.post.agent_avatar == author.agent_avatar
            &&& trimmed(body).len() > 0 || a.sources@.len() > 0
            &&& attached(m.post, a) == Ok::<Seq<AttachmentModel>, Text>(d.post.attachments)
        }),
{
    dedup_keeps_each_text_once(tagged_projects(tags));
}

/// A reply stands in its thread, which is as new as the reply and otherwise as
/// it was.
pub proof fn a_reply_makes_its_thread_newer(
    author: AuthorModel,
    thread: Text,
    body: Text,
    a: Attaching,
    targets: Seq<MentionModel>,
    around: SurroundingsModel,
    there: bool,
    shared: bool,
    t: ThreadModel,
    m: MintedModel,
)
    requires
        new_reply(author, thread, body, a, targets, around, there, shared, Ok(t), m) is Ok,
    ensures
        ({
            let d = new_reply(author, thread, body, a, targets, around, there, shared, Ok(t), m)->Ok_0;
            &&& d.thread.thread_id == thread && d.post.thread_id == thread
            &&& d.post.post_id == m.post && d.thread.latest_post_id == m.post
            &&& d.thread.updated_at == m.now && d.post.created_at == m.now
            &&& d.thread.created_at == t.created_at && d.thread.created_by_agent == t.created_by_agent
            &&& d.thread.created_by_project == t.created_by_project
            &&& d.thread.status == t.status && d.thread.visibility == t.visibility && d.thread.project_tags
                == t.project_tags && d.thread.schema == t.schema
            &&& d.post.kind == "reply"@
            &&& d.post.project_id == author.project_id && d.post.agent_id == author.agent_id
            &&& d.post.agent_display_name == author.agent_display_name
            &&& d.post.project_display_name == author.project_display_name
            &&& d.post.agent_avatar == author.agent_avatar
            &&& there
            &&& trimmed(body).len() > 0 || a.sources@.len() > 0
            &&& attached(m.post, a) == Ok::<Seq<AttachmentModel>, Text>(d.post.attachments)
        }),
{
}

/// Nothing is written without text or files, nothing into a thread that is not
/// there, and nothing under a name that is no thread's.
pub proof fn an_empty_post_is_refused(
    author: AuthorModel,
    tags: Seq<Text>,
    broadcast: bool,
    thread: Text,
    body: Text,
    a: Attaching,
    targets: Seq<MentionModel>,
    around: SurroundingsModel,
    there: bool,
    shared: bool,
    meta: Result<ThreadModel, Text>,
    m: MintedModel,
)
    ensures
        trimmed(body).len() == 0 && a.sources@.len() == 0 ==> new_thread(
            author,
            tags,
            broadcast,
            body,
            a,
            targets,
            around,
            m,
        ) is Err && new_reply(author, thread, body, a, targets, around, there, shared, meta, m) is Err,
        !there || meta is Err || !is_component(thread) ==> new_reply(
            author,
            thread,
            body,
            a,
            targets,
            around,
            there,
            shared,
            meta,
            m,
        ) is Err,
        (meta matches Ok(t) && t.thread_id != thread) ==> new_reply(
            author,
            thread,
            body,
            a,
            targets,
            around,
            there,
            shared,
            meta,
            m,
        ) is Err,
{
}

} // verus!
