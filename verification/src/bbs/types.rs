//! What the board is made of: posts, threads, attachments, and the requests
//! and views of its user.
use vstd::prelude::*;
use crate::bbs::mentions::{mention_models, Mention, MentionModel};
use crate::order::OrderedMap;
use crate::text::{copy_opt, copy_texts, opt_text, texts, Text};

verus! {

pub const THREAD_SCHEMA: &'static str = "kota.bbs.thread.v1";

pub const POST_SCHEMA: &'static str = "kota.bbs.post.v1";

pub const BOARD_SCHEMA: &'static str = "kota.bbs.board.v1";

/// The longest attachment, 1 GiB.
pub const MAX_ATTACHMENT_BYTES: u64 = 1073741824;

/// All attachments of a post together.
pub const MAX_POST_ATTACHMENT_BYTES: u64 = 1073741824;

pub const MAX_ATTACHMENTS: usize = 9;

/// A file to attach, and the name to give it.
pub struct BbsAttachmentSource {
    pub path: String,
    pub name: Option<String>,
}

/// An attachment as its post describes it.
#[derive(Debug)]
pub struct BbsAttachment {
    pub id: String,
    pub name: String,
    /// Where the copy lies below the thread.
    pub path: String,
    pub size_bytes: u64,
    pub sha256: String,
}

pub struct AttachmentModel {
    pub id: Text,
    pub name: Text,
    pub path: Text,
    pub size: nat,
    pub sha256: Text,
}

impl View for BbsAttachment {
    type V = AttachmentModel;

    open spec fn view(&self) -> AttachmentModel {
        AttachmentModel {
            id: self.id@,
            name: self.name@,
            path: self.path@,
            size: self.size_bytes as nat,
            sha256: self.sha256@,
        }
    }
}

impl BbsAttachment {
    pub fn copy(&self) -> (r: BbsAttachment)
        ensures
            r == *self,
    {
        BbsAttachment {
            id: self.id.clone(),
            name: self.name.clone(),
            path: self.path.clone(),
            size_bytes: self.size_bytes,
            sha256: self.sha256.clone(),
        }
    }
}

pub open spec fn attachment_models(s: Seq<BbsAttachment>) -> Seq<AttachmentModel> {
    s.map_values(|a: BbsAttachment| a@)
}

/// An attachment as it is shown.
#[derive(Debug)]
pub struct BbsAttachmentView {
    pub attachment: BbsAttachment,
    pub local_path: String,
    pub available: bool,
}

pub struct AttachmentViewModel {
    pub attachment: AttachmentModel,
    pub local_path: Text,
    pub available: bool,
}

impl View for BbsAttachmentView {
    type V = AttachmentViewModel;

    open spec fn view(&self) -> AttachmentViewModel {
        AttachmentViewModel {
            attachment: self.attachment@,
            local_path: self.local_path@,
            available: self.available,
        }
    }
}

pub open spec fn attachment_view_models(s: Seq<BbsAttachmentView>) -> Seq<AttachmentViewModel> {
    s.map_values(|a: BbsAttachmentView| a@)
}

/// A file that may be attached.
#[derive(Debug)]
pub struct BbsAttachmentValidation {
    pub path: String,
    pub name: String,
    pub size_bytes: u64,
}

// ------------------------------------------------------------------ requests

pub struct BbsProjectRequest {
    pub project_id: String,
    pub project_display_name: Option<String>,
}

pub struct BbsHumanPostRequest {
    pub project_id: String,
    pub project_display_name: Option<String>,
    pub project_tags: Vec<String>,
    pub body: String,
    pub attachments: Vec<BbsAttachmentSource>,
    pub mentions: Vec<Mention>,
}

pub struct BbsHumanReplyRequest {
    pub project_id: String,
    pub project_display_name: Option<String>,
    pub thread_id: String,
    pub body: String,
    pub attachments: Vec<BbsAttachmentSource>,
    pub mentions: Vec<Mention>,
}

pub struct BbsPostStateRequest {
    pub project_id: String,
    pub post_id: String,
}

pub struct BbsDeleteRequest {
    pub thread_id: String,
    pub post_id: Option<String>,
    pub version_id: Option<String>,
}

// ------------------------------------------------------------------- content

/// What is known of a thread beside its posts.
#[derive(Debug)]
pub struct BbsThreadMeta {
    pub schema: String,
    pub thread_id: String,
    pub status: String,
    pub visibility: String,
    pub project_tags: Vec<String>,
    pub created_by_project: String,
    pub created_by_agent: String,
    pub created_at: String,
    pub updated_at: String,
    pub latest_post_id: String,
}

pub struct ThreadModel {
    pub schema: Text,
    pub thread_id: Text,
    pub status: Text,
    pub visibility: Text,
    pub project_tags: Seq<Text>,
    pub created_by_project: Text,
    pub created_by_agent: Text,
    pub created_at: Text,
    pub updated_at: Text,
    pub latest_post_id: Text,
}

impl View for BbsThreadMeta {
    type V = ThreadModel;

    open spec fn view(&self) -> ThreadModel {
        ThreadModel {
            schema: self.schema@,
            thread_id: self.thread_id@,
            status: self.status@,
            visibility: self.visibility@,
            project_tags: texts(self.project_tags@),
            created_by_project: self.created_by_project@,
            created_by_agent: self.created_by_agent@,
            created_at: self.created_at@,
            updated_at: self.updated_at@,
            latest_post_id: self.latest_post_id@,
        }
    }
}

impl BbsThreadMeta {
    pub fn copy(&self) -> (r: BbsThreadMeta)
        ensures
            r@ == self@,
    {
        BbsThreadMeta {
            schema: self.schema.clone(),
            thread_id: self.thread_id.clone(),
            status: self.status.clone(),
            visibility: self.visibility.clone(),
            project_tags: copy_texts(&self.project_tags),
            created_by_project: self.created_by_project.clone(),
            created_by_agent: self.created_by_agent.clone(),
            created_at: self.created_at.clone(),
            updated_at: self.updated_at.clone(),
            latest_post_id: self.latest_post_id.clone(),
        }
    }
}

/// What stands in a post's frontmatter.
#[derive(Debug)]
pub struct BbsPostMeta {
    pub schema: String,
    pub post_id: String,
    pub thread_id: String,
    pub project_id: String,
    pub agent_id: String,
    pub agent_display_name: String,
    pub agent_avatar: Option<String>,
    pub project_display_name: String,
    pub created_at: String,
    pub kind: String,
    pub attachments: Vec<BbsAttachment>,
    pub mentions: Vec<Mention>,
}

pub struct PostModel {
    pub schema: Text,
    pub post_id: Text,
    pub thread_id: Text,
    pub project_id: Text,
    pub agent_id: Text,
    pub agent_display_name: Text,
    pub agent_avatar: Option<Text>,
    pub project_display_name: Text,
    pub created_at: Text,
    pub kind: Text,
    pub attachments: Seq<AttachmentModel>,
    pub mentions: Seq<MentionModel>,
}

impl View for BbsPostMeta {
    type V = PostModel;

    open spec fn view(&self) -> PostModel {
        PostModel {
            schema: self.schema@,
            post_id: self.post_id@,
            thread_id: self.thread_id@,
            project_id: self.project_id@,
            agent_id: self.agent_id@,
            agent_display_name: self.agent_display_name@,
            agent_avatar: opt_text(self.agent_avatar),
            project_display_name: self.project_display_name@,
            created_at: self.created_at@,
            kind: self.kind@,
            attachments: attachment_models(self.attachments@),
            mentions: mention_models(self.mentions@),
        }
    }
}

impl BbsPostMeta {
    pub fn copy(&self) -> (r: BbsPostMeta)
        ensures
            r@ == self@,
    {
        let mut attachments: Vec<BbsAttachment> = Vec::new();
        let mut i: usize = 0;
        while i < self.attachments.len()
            invariant
                i <= self.attachments@.len(),
                attachments@ == self.attachments@.take(i as int),
            decreases self.attachments@.len() - i,
        {
            attachments.push(self.attachments[i].copy());
            i += 1;
            assert(attachments@ =~= self.attachments@.take(i as int));
        }
        assert(self.attachments@.take(i as int) =~= self.attachments@);
        let mut mentions: Vec<Mention> = Vec::new();
        i = 0;
        while i < self.mentions.len()
            invariant
                i <= self.mentions@.len(),
                mentions@ == self.mentions@.take(i as int),
            decreases self.mentions@.len() - i,
        {
            mentions.push(self.mentions[i].copy());
            i += 1;
            assert(mentions@ =~= self.mentions@.take(i as int));
        }
        assert(self.mentions@.take(i as int) =~= self.mentions@);
        BbsPostMeta {
            schema: self.schema.clone(),
            post_id: self.post_id.clone(),
            thread_id: self.thread_id.clone(),
            project_id: self.project_id.clone(),
            agent_id: self.agent_id.clone(),
            agent_display_name: self.agent_display_name.clone(),
            agent_avatar: copy_opt(&self.agent_avatar),
            project_display_name: self.project_display_name.clone(),
            created_at: self.created_at.clone(),
            kind: self.kind.clone(),
            attachments,
            mentions,
        }
    }
}

/// The order in which threads are listed.
pub struct BbsBoardIndex {
    pub schema: String,
    pub updated_at: String,
    pub threads: Vec<String>,
}

/// A post that was dealt with, and when.
pub struct BbsSeenPost {
    pub thread_id: String,
    pub at: String,
}

/// What a project has dealt with.
pub struct BbsProjectState {
    pub project_id: String,
    pub processed_posts: OrderedMap<String, BbsSeenPost>,
    pub ignored_posts: OrderedMap<String, BbsSeenPost>,
}

/// A post that was read.
#[derive(Debug)]
pub struct LoadedPost {
    pub meta: BbsPostMeta,
    pub body: String,
    pub path: String,
    pub version_id: String,
}

pub struct LoadedModel {
    pub meta: PostModel,
    pub body: Text,
    pub path: Text,
    pub version: Text,
}

impl View for LoadedPost {
    type V = LoadedModel;

    open spec fn view(&self) -> LoadedModel {
        LoadedModel { meta: self.meta@, body: self.body@, path: self.path@, version: self.version_id@ }
    }
}

impl LoadedPost {
    pub fn copy(&self) -> (r: LoadedPost)
        ensures
            r@ == self@,
    {
        LoadedPost {
            meta: self.meta.copy(),
            body: self.body.clone(),
            path: self.path.clone(),
            version_id: self.version_id.clone(),
        }
    }
}

pub open spec fn post_models(s: Seq<LoadedPost>) -> Seq<LoadedModel> {
    s.map_values(|p: LoadedPost| p@)
}

/// Who writes a post.
#[derive(Debug)]
pub struct Identity {
    pub project_id: String,
    pub project_display_name: String,
    pub agent_id: String,
    pub agent_display_name: String,
    pub agent_avatar: Option<String>,
}

} // verus!
