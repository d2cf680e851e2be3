//! What travels between devices, and where it lies below the board.
use vstd::prelude::*;
use crate::bbs::mentions::fault_of;
use crate::bbs::sync::model::{image_ext, is_image_ext, AttachmentRef, AvatarModel, AvatarSidecar, MAX_AVATAR_BYTES};
use crate::bbs::sync::model::{MAX_BODY_BYTES, PostVersion, RefModel, VersionModel};
use crate::bbs::types::MAX_ATTACHMENT_BYTES;
use crate::ids::{is_extension, is_hash, is_safe_id, safe_id, valid_extension, valid_hash};
use crate::path::PathName;
use crate::text::{opt_text, own, plus, plus3, same, Text};
use crate::text::begins;
use crate::text::ends;

verus! {

// ----------------------------------------------------------------- resources

/// What a resource is.
pub enum ResourceKind {
    Post { thread_id: String, post_id: String, version_id: String },
    Attachment { thread_id: String, post_id: String, version_id: String, attachment_id: String },
    Avatar { sha256: String, ext: String },
}

pub enum KindModel {
    Post { thread_id: Text, post_id: Text, version_id: Text },
    Attachment { thread_id: Text, post_id: Text, version_id: Text, attachment_id: Text },
    Avatar { sha256: Text, ext: Text },
}

impl View for ResourceKind {
    type V = KindModel;

    open spec fn view(&self) -> KindModel {
        match self {
            ResourceKind::Post { thread_id, post_id, version_id } => KindModel::Post {
                thread_id: thread_id@,
                post_id: post_id@,
                version_id: version_id@,
            },
            ResourceKind::Attachment { thread_id, post_id, version_id, attachment_id } => KindModel::Attachment {
                thread_id: thread_id@,
                post_id: post_id@,
                version_id: version_id@,
                attachment_id: attachment_id@,
            },
            ResourceKind::Avatar { sha256, ext } => KindModel::Avatar { sha256: sha256@, ext: ext@ },
        }
    }
}

/// Some bytes: what they are, their hash and their number.
pub struct Resource {
    pub identity: ResourceKind,
    pub sha256: String,
    pub size_bytes: u64,
}

pub struct ResourceModel {
    pub identity: KindModel,
    pub sha256: Text,
    pub size: nat,
}

impl View for Resource {
    type V = ResourceModel;

    open spec fn view(&self) -> ResourceModel {
        ResourceModel { identity: self.identity@, sha256: self.sha256@, size: self.size_bytes as nat }
    }
}

/// What a resource must be: named by what can travel, and of a bounded size.
/// A post and a picture are named by their hash.
pub open spec fn is_resource(r: ResourceModel) -> bool {
    match r.identity {
        KindModel::Post { thread_id, post_id, version_id } => {
            &&& is_safe_id(thread_id) && is_safe_id(post_id) && is_hash(version_id)
            &&& r.sha256 == version_id
            &&& r.size <= MAX_BODY_BYTES
        },
        KindModel::Attachment { thread_id, post_id, version_id, attachment_id } => {
            &&& is_safe_id(thread_id) && is_safe_id(post_id) && is_hash(version_id) && is_safe_id(attachment_id)
            &&& is_hash(r.sha256)
            &&& r.size <= MAX_ATTACHMENT_BYTES
        },
        KindModel::Avatar { sha256, ext } => {
            &&& is_hash(sha256) && is_image_ext(ext)
            &&& r.sha256 == sha256
            &&& 0 < r.size <= MAX_AVATAR_BYTES
        },
    }
}

impl Resource {
    pub fn valid(&self) -> (r: bool)
        ensures
            r == is_resource(self@),
    {
        match &self.identity {
            ResourceKind::Post { thread_id, post_id, version_id } => {
                safe_id(thread_id) && safe_id(post_id) && valid_hash(version_id) && same(&self.sha256, version_id)
                    && self.size_bytes <= MAX_BODY_BYTES
            },
            ResourceKind::Attachment { thread_id, post_id, version_id, attachment_id } => {
                safe_id(thread_id) && safe_id(post_id) && valid_hash(version_id) && safe_id(attachment_id)
                    && valid_hash(&self.sha256) && self.size_bytes <= MAX_ATTACHMENT_BYTES
            },
            ResourceKind::Avatar { sha256, ext } => {
                valid_hash(sha256) && image_ext(ext) && same(&self.sha256, sha256) && 0 < self.size_bytes
                    && self.size_bytes <= MAX_AVATAR_BYTES
            },
        }
    }

    pub fn is_same(&self, other: &Resource) -> (r: bool)
        ensures
            r == (self@ == other@),
    {
        self.identity.is_same(&other.identity) && same(&self.sha256, &other.sha256) && self.size_bytes
            == other.size_bytes
    }
}

impl ResourceKind {
    pub fn is_same(&self, other: &ResourceKind) -> (r: bool)
        ensures
            r == (self@ == other@),
    {
        match (self, other) {
            (
                ResourceKind::Post { thread_id, post_id, version_id },
                ResourceKind::Post { thread_id: t, post_id: p, version_id: v },
            ) => same(thread_id, t) && same(post_id, p) && same(version_id, v),
            (
                ResourceKind::Attachment { thread_id, post_id, version_id, attachment_id },
                ResourceKind::Attachment { thread_id: t, post_id: p, version_id: v, attachment_id: a },
            ) => same(thread_id, t) && same(post_id, p) && same(version_id, v) && same(attachment_id, a),
            (ResourceKind::Avatar { sha256, ext }, ResourceKind::Avatar { sha256: s, ext: e }) => same(sha256, s) && same(
                ext,
                e,
            ),
            _ => false,
        }
    }
}

/// The bytes of a version.
pub open spec fn post_resource(p: VersionModel) -> ResourceModel {
    ResourceModel {
        identity: KindModel::Post { thread_id: p.thread_id, post_id: p.post_id, version_id: p.version_id },
        sha256: p.version_id,
        size: p.size,
    }
}

/// The bytes of an attachment of a version.
pub open spec fn attachment_resource(p: VersionModel, a: RefModel) -> ResourceModel {
    ResourceModel {
        identity: KindModel::Attachment {
            thread_id: p.thread_id,
            post_id: p.post_id,
            version_id: p.version_id,
            attachment_id: a.id,
        },
        sha256: a.sha256,
        size: a.size,
    }
}

/// The bytes of a picture, if it has any.
pub open spec fn avatar_resource(a: AvatarModel) -> Option<ResourceModel> {
    match (a.sha256, a.ext, a.size) {
        (Some(h), Some(e), Some(n)) => if a.kind == "image"@ {
            Some(ResourceModel { identity: KindModel::Avatar { sha256: h, ext: e }, sha256: h, size: n as nat })
        } else {
            None
        },
        _ => None,
    }
}

/// The picture of a version, as bytes.
pub open spec fn picture_of(p: VersionModel) -> Option<ResourceModel> {
    match p.avatar {
        Some(a) => avatar_resource(a),
        None => None,
    }
}

pub open spec fn opt_resource(r: Option<Resource>) -> Option<ResourceModel> {
    match r {
        Some(x) => Some(x@),
        None => None,
    }
}

impl PostVersion {
    pub fn resource(&self) -> (r: Resource)
        ensures
            r@ == post_resource(self@),
    {
        Resource {
            identity: ResourceKind::Post {
                thread_id: self.thread_id.clone(),
                post_id: self.post_id.clone(),
                version_id: self.version_id.clone(),
            },
            sha256: self.version_id.clone(),
            size_bytes: self.size_bytes,
        }
    }

    pub fn attachment(&self, a: &AttachmentRef) -> (r: Resource)
        ensures
            r@ == attachment_resource(self@, a@),
    {
        Resource {
            identity: ResourceKind::Attachment {
                thread_id: self.thread_id.clone(),
                post_id: self.post_id.clone(),
                version_id: self.version_id.clone(),
                attachment_id: a.id.clone(),
            },
            sha256: a.sha256.clone(),
            size_bytes: a.size_bytes,
        }
    }

    pub fn picture(&self) -> (r: Option<Resource>)
        ensures
            opt_resource(r) == picture_of(self@),
    {
        match &self.avatar {
            Some(a) => a.resource(),
            None => None,
        }
    }
}

impl AvatarSidecar {
    pub fn resource(&self) -> (r: Option<Resource>)
        ensures
            opt_resource(r) == avatar_resource(self@),
    {
        match (&self.sha256, &self.ext, self.size_bytes) {
            (Some(h), Some(e), Some(n)) => if same(&self.kind, "image") {
                Some(
                    Resource {
                        identity: ResourceKind::Avatar { sha256: h.clone(), ext: e.clone() },
                        sha256: h.clone(),
                        size_bytes: n,
                    },
                )
            } else {
                None
            },
            _ => None,
        }
    }
}

// --------------------------------------------------------------------- paths

pub open spec fn thread_path(thread: Text) -> Text {
    "threads/"@ + thread
}

/// The directory of an extra version.
pub open spec fn version_dir(thread: Text, post: Text, version: Text) -> Text {
    thread_path(thread) + "/versions/"@ + post + "/"@ + version
}

/// Where a version of a post lies: the resident one among the posts, another
/// one in a directory of its own.
pub open spec fn post_path(thread: Text, post: Text, extra: Option<Text>) -> Text {
    match extra {
        Some(v) => version_dir(thread, post, v) + "/post.md"@,
        None => thread_path(thread) + "/posts/"@ + post + ".md"@,
    }
}

/// The file of an attachment.
pub open spec fn ref_file(a: RefModel) -> Text {
    if a.ext.len() == 0 {
        a.id
    } else {
        a.id + "."@ + a.ext
    }
}

/// The directory of a version's attachments.
pub open spec fn attachments_dir(thread: Text, post: Text, extra: Option<Text>) -> Text {
    match extra {
        Some(v) => version_dir(thread, post, v) + "/attachments"@,
        None => thread_path(thread) + "/attachments/"@ + post,
    }
}

pub open spec fn sidecar_path(thread: Text, post: Text, version: Text) -> Text {
    thread_path(thread) + "/sidecars/"@ + post + "/"@ + version + ".json"@
}

pub open spec fn marker_path(thread: Text, post: Text) -> Text {
    thread_path(thread) + "/placeholders/"@ + post + ".json"@
}

pub open spec fn avatar_path(sha256: Text, ext: Text) -> Text {
    "avatars/"@ + sha256 + "."@ + ext
}

pub open spec fn path_result(r: Result<String, String>) -> Result<Text, Text> {
    match r {
        Ok(s) => Ok(s@),
        Err(e) => Err(e@),
    }
}

pub open spec fn checked_thread(thread: Text) -> Result<Text, Text> {
    if is_safe_id(thread) {
        Ok(thread_path(thread))
    } else {
        Err("invalid_id"@)
    }
}

pub fn thread_relative(thread: &str) -> (r: Result<String, String>)
    ensures
        path_result(r) == checked_thread(thread@),
{
    if !safe_id(thread) {
        return Err(own("invalid_id"));
    }
    Ok(plus("threads/", thread))
}

pub open spec fn checked_post(thread: Text, post: Text, extra: Option<Text>) -> Result<Text, Text> {
    if !is_safe_id(post) || !is_safe_id(thread) {
        Err("invalid_id"@)
    } else if extra matches Some(v) && !is_hash(v) {
        Err("invalid_hash"@)
    } else {
        Ok(post_path(thread, post, extra))
    }
}

fn version_place(thread: &str, post: &str, version: &str) -> (r: String)
    ensures
        r@ == version_dir(thread@, post@, version@),
{
    let mut p = plus("threads/", thread);
    p.append("/versions/");
    p.append(post);
    p.append("/");
    p.append(version);
    p
}

pub fn post_relative(thread: &str, post: &str, extra: &Option<String>) -> (r: Result<String, String>)
    ensures
        path_result(r) == checked_post(thread@, post@, opt_text(*extra)),
{
    if !safe_id(post) || !safe_id(thread) {
        return Err(own("invalid_id"));
    }
    match extra {
        Some(v) => {
            if !valid_hash(v) {
                return Err(own("invalid_hash"));
            }
            Ok(plus(&version_place(thread, post, v), "/post.md"))
        },
        None => {
            let mut p = plus("threads/", thread);
            p.append("/posts/");
            p.append(post);
            p.append(".md");
            Ok(p)
        },
    }
}

pub fn sidecar_relative(thread: &str, post: &str, version: &str) -> (r: Result<String, String>)
    ensures
        path_result(r) == (if !is_safe_id(post@) {
            Err("invalid_id"@)
        } else if !is_hash(version@) {
            Err("invalid_hash"@)
        } else if !is_safe_id(thread@) {
            Err("invalid_id"@)
        } else {
            Ok(sidecar_path(thread@, post@, version@))
        }),
{
    if !safe_id(post) {
        return Err(own("invalid_id"));
    }
    if !valid_hash(version) {
        return Err(own("invalid_hash"));
    }
    if !safe_id(thread) {
        return Err(own("invalid_id"));
    }
    let mut p = plus("threads/", thread);
    p.append("/sidecars/");
    p.append(post);
    p.append("/");
    p.append(version);
    p.append(".json");
    Ok(p)
}

pub fn marker_relative(thread: &str, post: &str) -> (r: Result<String, String>)
    ensures
        path_result(r) == (if is_safe_id(post@) && is_safe_id(thread@) {
            Ok(marker_path(thread@, post@))
        } else {
            Err("invalid_id"@)
        }),
{
    if !safe_id(post) || !safe_id(thread) {
        return Err(own("invalid_id"));
    }
    let mut p = plus("threads/", thread);
    p.append("/placeholders/");
    p.append(post);
    p.append(".json");
    Ok(p)
}

pub open spec fn checked_attachment(thread: Text, post: Text, extra: Option<Text>, a: RefModel) -> Result<Text, Text> {
    if !is_safe_id(a.id) {
        Err("invalid_id"@)
    } else if !is_extension(a.ext) {
        Err("invalid_attachment_extension"@)
    } else if extra is Some && checked_post(thread, post, extra) is Err {
        Err(checked_post(thread, post, extra)->Err_0)
    } else if !is_safe_id(thread) {
        Err("invalid_id"@)
    } else {
        Ok(attachments_dir(thread, post, extra) + "/"@ + ref_file(a))
    }
}

pub fn attachment_relative(thread: &str, post: &str, extra: &Option<String>, a: &AttachmentRef) -> (r: Result<
    String,
    String,
>)
    ensures
        path_result(r) == checked_attachment(thread@, post@, opt_text(*extra), a@),
{
    if !safe_id(&a.id) {
        return Err(own("invalid_id"));
    }
    if !valid_extension(&a.ext) {
        return Err(own("invalid_attachment_extension"));
    }
    let mut dir = match extra {
        Some(v) => {
            match post_relative(thread, post, extra) {
                Ok(_) => {},
                Err(e) => {
                    return Err(e);
                },
            }
            plus(&version_place(thread, post, v), "/attachments")
        },
        None => {
            if !safe_id(thread) {
                return Err(own("invalid_id"));
            }
            let mut p = plus("threads/", thread);
            p.append("/attachments/");
            p.append(post);
            p
        },
    };
    dir.append("/");
    if a.ext.as_str().is_empty() {
        dir.append(&a.id);
    } else {
        dir.append(&plus3(&a.id, ".", &a.ext));
    }
    Ok(dir)
}

/// A place of its own, within the board, for a picture of another device.
pub fn roster_avatar_path(sha256: &str, ext: &str) -> (r: Result<String, String>)
    ensures
        path_result(r) == (if !is_hash(sha256@) {
            Err("invalid_hash"@)
        } else if !is_image_ext(ext@) {
            Err("invalid_roster_avatar"@)
        } else {
            Ok(avatar_path(sha256@, ext@))
        }),
{
    if !valid_hash(sha256) {
        return Err(own("invalid_hash"));
    }
    if !image_ext(ext) {
        return Err(own("invalid_roster_avatar"));
    }
    let mut p = plus3("avatars/", sha256, ".");
    p.append(ext);
    Ok(p)
}

/// What is found at a step of a path below the board.
#[derive(Clone, Copy, Debug, PartialEq, Eq, Structural)]
pub enum Step {
    Missing,
    Link,
    Directory,
    File,
}

/// Why a path below the board may not be used, from its `i`th name on: it must
/// be made of ordinary names, with no link on the way, and with a directory at
/// every step but the last.
pub open spec fn way_fault(parts: Seq<Text>, steps: Seq<Step>, i: int) -> Option<Text>
    decreases parts.len() - i,
{
    if i < 0 || i >= parts.len() {
        None
    } else if parts[i].len() == 0 || parts[i] == "."@ || parts[i] == ".."@ {
        Some("invalid_sync_path"@)
    } else if steps[i] == Step::Link || (i + 1 < parts.len() && steps[i] == Step::File) {
        Some("unsafe_sync_path"@)
    } else {
        way_fault(parts, steps, i + 1)
    }
}

/// A path below the board may be used: existing links are never followed.
pub fn managed(relative: &PathName, steps: &Vec<Step>) -> (r: Result<(), String>)
    requires
        steps@.len() == relative@.len(),
    ensures
        fault_of(r) == way_fault(relative@, steps@, 0),
{
    let n = relative.parts.len();
    assert(relative@.len() == n);
    let mut i: usize = 0;
    while i < n
        invariant
            n == relative.parts@.len(),
            n == steps@.len(),
            n == relative@.len(),
            i <= n,
            way_fault(relative@, steps@, 0) == way_fault(relative@, steps@, i as int),
        decreases n - i,
    {
        let name = &relative.parts[i];
        assert(relative@[i as int] == name@);
        if name.as_str().is_empty() || same(name, ".") || same(name, "..") {
            return Err(own("invalid_sync_path"));
        }
        let step = steps[i];
        assert(step == steps@[i as int]);
        if step == Step::Link || (n - i > 1 && step == Step::File) {
            return Err(own("unsafe_sync_path"));
        }
        i += 1;
    }
    Ok(())
}

// ---------------------------------------------------------------------- laws

/// The two places of a version differ, so that one version never takes the
/// place of another.
pub proof fn versions_have_their_own_place(thread: Text, post: Text, v: Text, w: Text)
    requires
        post_path(thread, post, Some(v)) == post_path(thread, post, Some(w)),
    ensures
        v == w,
{
    let head = thread_path(thread) + "/versions/"@ + post + "/"@;
    let tail = "/post.md"@;
    let a = post_path(thread, post, Some(v));
    let b = post_path(thread, post, Some(w));
    assert(a =~= head + v + tail);
    assert(b =~= head + w + tail);
    assert(a.len() == head.len() + v.len() + tail.len());
    assert(v.len() == w.len());
    assert forall|i: int| 0 <= i < v.len() implies v[i] == w[i] by {
        assert(a[head.len() + i] == v[i]);
        assert(b[head.len() + i] == w[i]);
    }
    assert(v =~= w);
}

/// The bytes of a version are named by what they are: the post's by its version,
/// an attachment's by its own hash, and a picture's by the picture's.
pub proof fn bytes_are_named_by_their_hash(p: VersionModel, a: RefModel, v: AvatarModel)
    ensures
        post_resource(p).sha256 == p.version_id && post_resource(p).size == p.size,
        post_resource(p).identity == (KindModel::Post {
            thread_id: p.thread_id,
            post_id: p.post_id,
            version_id: p.version_id,
        }),
        attachment_resource(p, a).sha256 == a.sha256 && attachment_resource(p, a).size == a.size,
        attachment_resource(p, a).identity == (KindModel::Attachment {
            thread_id: p.thread_id,
            post_id: p.post_id,
            version_id: p.version_id,
            attachment_id: a.id,
        }),
        avatar_resource(v) matches Some(r) ==> v.kind == "image"@ && v.sha256 == Some(r.sha256) && (r.identity
            matches KindModel::Avatar { sha256, ext } && sha256 == r.sha256 && v.ext == Some(ext)) && (v.size matches Some(n)
            && r.size == n),
        v.kind == "image"@ && v.sha256 is Some && v.ext is Some && v.size is Some ==> avatar_resource(v) is Some,
{
}

/// What may travel is bounded: a post to 8 MiB, an attachment to 1 GiB, a picture
/// to 600000 bytes; a post is named by its hash.
pub proof fn what_travels_is_bounded(r: ResourceModel)
    requires
        is_resource(r),
    ensures
        r.identity is Post ==> r.size <= 8388608 && (r.identity matches KindModel::Post {
            thread_id,
            post_id,
            version_id,
        } && r.sha256 == version_id && is_safe_id(thread_id) && is_safe_id(post_id)),
        r.identity is Attachment ==> r.size <= 1073741824 && (r.identity matches KindModel::Attachment {
            thread_id,
            post_id,
            attachment_id,
            ..
        } && is_safe_id(thread_id) && is_safe_id(post_id) && is_safe_id(attachment_id)),
        r.identity is Avatar ==> 0 < r.size <= 600000,
        is_hash(r.sha256),
{
}

/// Every file of a thread lies below the thread: a post under its own name, an
/// extra version and its attachments in the version's directory.
pub proof fn files_lie_below_their_thread(thread: Text, post: Text, version: Text, a: RefModel)
    ensures
        post_path(thread, post, None) == "threads/"@ + thread + "/posts/"@ + post + ".md"@,
        begins(post_path(thread, post, Some(version)), version_dir(thread, post, version)),
        begins(attachments_dir(thread, post, Some(version)), version_dir(thread, post, version)),
        begins(version_dir(thread, post, version), "threads/"@ + thread + "/"@),
        ends(version_dir(thread, post, version), "/"@ + post + "/"@ + version),
        begins(attachments_dir(thread, post, None), "threads/"@ + thread + "/"@),
        ends(attachments_dir(thread, post, None), "/"@ + post),
        begins(sidecar_path(thread, post, version), "threads/"@ + thread + "/"@),
        ends(sidecar_path(thread, post, version), "/"@ + post + "/"@ + version + ".json"@),
        begins(marker_path(thread, post), "threads/"@ + thread + "/"@),
        ends(marker_path(thread, post), "/"@ + post + ".json"@),
        a.ext.len() == 0 ==> ref_file(a) == a.id,
        a.ext.len() > 0 ==> ref_file(a) == a.id + "."@ + a.ext,
{
    reveal_strlit("/");
    reveal_strlit("/versions/");
    reveal_strlit("/attachments/");
    reveal_strlit("/sidecars/");
    reveal_strlit("/placeholders/");
    let h = "threads/"@ + thread + "/"@;
    let d = version_dir(thread, post, version);
    let x = post_path(thread, post, Some(version));
    assert(x.take(d.len() as int) =~= d);
    let y = attachments_dir(thread, post, Some(version));
    assert(y.take(d.len() as int) =~= d);
    assert(d.take(h.len() as int) =~= h);
    let pv = "/"@ + post + "/"@ + version;
    assert(d.skip(d.len() - pv.len()) =~= pv);
    let e = attachments_dir(thread, post, None);
    assert(e.take(h.len() as int) =~= h);
    let p = "/"@ + post;
    assert(e.skip(e.len() - p.len()) =~= p);
    let s = sidecar_path(thread, post, version);
    assert(s.take(h.len() as int) =~= h);
    let pj = "/"@ + post + "/"@ + version + ".json"@;
    assert(s.skip(s.len() - pj.len()) =~= pj);
    let m = marker_path(thread, post);
    assert(m.take(h.len() as int) =~= h);
    let q = "/"@ + post + ".json"@;
    assert(m.skip(m.len() - q.len()) =~= q);
}

/// A path may be used exactly if it is made of ordinary names, no link lies on
/// it, and a file only at its end.
pub proof fn a_way_has_no_links(parts: Seq<Text>, steps: Seq<Step>, i: int)
    requires
        0 <= i,
    ensures
        way_fault(parts, steps, i) is None <==> forall|k: int|
            i <= k < parts.len() ==> {
                &&& (#[trigger] parts[k]).len() > 0 && parts[k] != "."@ && parts[k] != ".."@
                &&& steps[k] != Step::Link
                &&& k + 1 < parts.len() ==> steps[k] != Step::File
            },
    decreases parts.len() - i,
{
    if i < parts.len() {
        a_way_has_no_links(parts, steps, i + 1);
        if way_fault(parts, steps, i) is None {
            assert forall|k: int| i <= k < parts.len() implies {
                &&& (#[trigger] parts[k]).len() > 0 && parts[k] != "."@ && parts[k] != ".."@
                &&& steps[k] != Step::Link
                &&& k + 1 < parts.len() ==> steps[k] != Step::File
            } by {
                if k > i {
                    assert(i + 1 <= k);
                }
            }
        } else if way_fault(parts, steps, i + 1) is None {
            assert(parts[i].len() == 0 || parts[i] == "."@ || parts[i] == ".."@ || steps[i] == Step::Link || (i + 1
                < parts.len() && steps[i] == Step::File));
        }
    }
}

/// A file outside the names that travel has no place on the board.
pub proof fn only_safe_names_have_a_place(thread: Text, post: Text, extra: Option<Text>, a: RefModel)
    ensures
        checked_post(thread, post, extra) is Ok <==> is_safe_id(thread) && is_safe_id(post) && (extra matches Some(v)
            ==> is_hash(v)),
        checked_attachment(thread, post, extra, a) is Ok ==> is_safe_id(thread) && is_safe_id(a.id) && is_extension(a.ext),
        checked_attachment(thread, post, extra, a) matches Ok(path) ==> path == attachments_dir(thread, post, extra) + "/"@
            + ref_file(a),
{
}

} // verus!
