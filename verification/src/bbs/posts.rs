//! Posts: how they are written and read, and what may stand in them.
use vstd::prelude::*;
use vstd::utf8::{decode_utf8, encode_utf8, valid_utf8};
use crate::bbs::mentions::{fault_of, first_fault, validate};
use crate::bbs::names::{agent_avatar_from_yaml, agent_display_name_from_yaml, agent_field};
use crate::bbs::names::{display_project_name_with_fallback, file_id, opt_str, project_name, sanitize_id};
use crate::bbs::sync::model::{is_kind, known_kind, ref_models, AttachmentRef, MAX_BODY_BYTES, MAX_FRONTMATTER_BYTES};
use crate::bbs::sync::model::RefModel;
use crate::bbs::types::{attachment_models, AttachmentModel, BbsAttachment, BbsPostMeta, Identity, LoadedPost};
use crate::bbs::types::{MAX_ATTACHMENT_BYTES, MAX_ATTACHMENTS, MAX_POST_ATTACHMENT_BYTES, POST_SCHEMA, PostModel};
use crate::ids::{is_extension, is_hash, is_safe_id, safe_id, valid_extension, valid_hash};
use crate::outside::{is_timestamp, rfc3339, sha256, sha256_hex, text_of_utf8, yaml_document};
use crate::text::{begins, blank, copy_opt, cut, drop_back, drop_front, first_from, is_space, opt_text, own, plus};
use crate::text::{plus3, same, space_fn, split_once, stands_at, strip_front, texts, trim, trimmed, Text};

verus! {

// ---------------------------------------------------------- writing and reading

/// The text of a post: its frontmatter between two lines of dashes, an empty
/// line, the trimmed body.
pub open spec fn post_text(yaml: Text, body: Text) -> Text {
    "---\n"@ + yaml + "---\n\n"@ + trimmed(body) + "\n"@
}

pub fn serialized_post(yaml: &str, body: &str) -> (r: String)
    ensures
        r@ == post_text(yaml@, body@),
{
    let mut raw = own("---\n");
    raw.append(yaml);
    raw.append("---\n\n");
    raw.append(&trim(body));
    raw.append("\n");
    raw
}

/// The frontmatter of a post and what follows it.
pub open spec fn front_and_body(text: Text) -> Option<(Text, Text)> {
    if begins(text, "---\n"@) {
        cut(text.skip("---\n"@.len() as int), "\n---\n"@)
    } else {
        None
    }
}

pub open spec fn front_part(text: Text) -> Text {
    match front_and_body(text) {
        Some((front, _)) => front,
        None => Seq::empty(),
    }
}

pub open spec fn body_part(text: Text) -> Text {
    match front_and_body(text) {
        Some((_, body)) => body,
        None => Seq::empty(),
    }
}

pub open spec fn opt_pair(p: Option<(String, String)>) -> Option<(Text, Text)> {
    match p {
        Some((a, b)) => Some((a@, b@)),
        None => None,
    }
}

pub fn split_post(text: &str) -> (r: Option<(String, String)>)
    ensures
        opt_pair(r) == front_and_body(text@),
{
    match strip_front(text, "---\n") {
        Some(rest) => split_once(&rest, "\n---\n"),
        None => None,
    }
}

/// The version of a post is the hash of its bytes.
pub open spec fn version_of(text: Text) -> Text {
    sha256(encode_utf8(text))
}

pub fn post_version(text: &str) -> (r: String)
    ensures
        r@ == version_of(text@),
        is_hash(r@),
{
    sha256_hex(text.as_bytes())
}

/// Why a file is no post of the board.
pub open spec fn post_fault(path: Text, text: Text, meta: Result<PostModel, Text>) -> Option<Text> {
    if !begins(text, "---\n"@) {
        Some("missing frontmatter start in "@ + path)
    } else if front_and_body(text) is None {
        Some("missing frontmatter end in "@ + path)
    } else {
        match meta {
            Err(e) => Some(e),
            Ok(m) => if first_fault(m.mentions) is Some {
                first_fault(m.mentions)
            } else if m.schema != POST_SCHEMA@ {
                Some("unsupported BBS post schema in "@ + path)
            } else {
                None
            },
        }
    }
}

pub open spec fn meta_model(m: Result<BbsPostMeta, String>) -> Result<PostModel, Text> {
    match m {
        Ok(x) => Ok(x@),
        Err(e) => Err(e@),
    }
}

pub open spec fn meta_of(m: Result<BbsPostMeta, String>) -> Option<BbsPostMeta> {
    match m {
        Ok(x) => Some(x),
        Err(_) => None,
    }
}

/// Read a post. `meta` is what the parser reads from its frontmatter.
pub fn read_post(path: &str, text: &str, meta: Result<BbsPostMeta, String>) -> (r: Result<LoadedPost, String>)
    ensures
        r is Err == post_fault(path@, text@, meta_model(meta)) is Some,
        r matches Err(e) ==> post_fault(path@, text@, meta_model(meta)) == Some(e@),
        r matches Ok(p) ==> {
            &&& meta_of(meta) == Some(p.meta)
            &&& p.body@ == trimmed(body_part(text@))
            &&& p.path@ == path@
            &&& p.version_id@ == version_of(text@)
        },
{
    let rest = match strip_front(text, "---\n") {
        Some(rest) => rest,
        None => {
            return Err(plus("missing frontmatter start in ", path));
        },
    };
    let pair = match split_once(&rest, "\n---\n") {
        Some(pair) => pair,
        None => {
            return Err(plus("missing frontmatter end in ", path));
        },
    };
    let meta = match meta {
        Ok(m) => m,
        Err(e) => {
            return Err(e);
        },
    };
    match validate(&meta.mentions) {
        Ok(_) => {},
        Err(e) => {
            return Err(e);
        },
    }
    if !same(&meta.schema, POST_SCHEMA) {
        return Err(plus("unsupported BBS post schema in ", path));
    }
    Ok(LoadedPost { version_id: post_version(text), meta, body: trim(&pair.1), path: own(path) })
}

proof fn lemma_trimmed_ends(s: Text)
    ensures
        trimmed(s).len() > 0 ==> !is_space(trimmed(s)[0]) && !is_space(trimmed(s).last()),
{
    let f = drop_front(s, space_fn());
    lemma_front(s);
    lemma_back(f);
}

proof fn lemma_front(s: Text)
    ensures
        drop_front(s, space_fn()).len() > 0 ==> !is_space(drop_front(s, space_fn())[0]),
    decreases s.len(),
{
    if s.len() > 0 && is_space(s[0]) {
        lemma_front(s.drop_first());
    }
}

proof fn lemma_back(s: Text)
    ensures
        drop_back(s, space_fn()).len() <= s.len(),
        drop_back(s, space_fn()) == s.take(drop_back(s, space_fn()).len() as int),
        drop_back(s, space_fn()).len() > 0 ==> !is_space(drop_back(s, space_fn()).last()),
    decreases s.len(),
{
    if s.len() > 0 && is_space(s.last()) {
        lemma_back(s.drop_last());
        assert(drop_back(s, space_fn()) =~= s.take(drop_back(s, space_fn()).len() as int));
    } else {
        assert(s.take(s.len() as int) =~= s);
    }
}

proof fn lemma_padded(t: Text)
    requires
        t.len() > 0 ==> !is_space(t[0]) && !is_space(t.last()),
    ensures
        trimmed("\n"@ + t + "\n"@) == t,
{
    reveal_strlit("\n");
    let s = "\n"@ + t + "\n"@;
    reveal_with_fuel(drop_front, 3);
    reveal_with_fuel(drop_back, 3);
    assert(s[0] == '\n' && is_space('\n'));
    assert(s.drop_first() =~= t + "\n"@);
    if t.len() == 0 {
        assert(s.drop_first() =~= "\n"@);
        assert(s.drop_first().drop_first() =~= Seq::<char>::empty());
        assert(trimmed(s) =~= t);
    } else {
        assert((t + "\n"@)[0] == t[0]);
        assert(drop_front(s, space_fn()) == t + "\n"@);
        assert((t + "\n"@).last() == '\n');
        assert((t + "\n"@).drop_last() =~= t);
    }
}

proof fn lemma_first_is(s: Text, p: Text, from: int, at: int)
    requires
        0 <= from <= at,
        stands_at(s, p, at),
        forall|j: int| from <= j < at ==> !#[trigger] stands_at(s, p, j),
    ensures
        first_from(s, p, from) == Some(at),
    decreases at - from,
{
    if from < at {
        assert(!stands_at(s, p, from));
        lemma_first_is(s, p, from + 1, at);
    }
}

/// A post is read back as it was written: frontmatter that ends its last line
/// and holds no line of dashes comes back, and the body comes back trimmed.
pub proof fn a_post_is_read_back(yaml: Text, body: Text)
    requires
        yaml.len() > 0,
        yaml.last() == '\n',
        !crate::text::occurs(yaml, "\n---\n"@),
    ensures
        front_and_body(post_text(yaml, body)) is Some,
        front_part(post_text(yaml, body)) == yaml.drop_last(),
        trimmed(body_part(post_text(yaml, body))) == trimmed(body),
{
    reveal_strlit("---\n");
    reveal_strlit("\n---\n");
    reveal_strlit("---\n\n");
    reveal_strlit("\n");
    let text = post_text(yaml, body);
    let mark = "\n---\n"@;
    let rest = text.skip(4);
    let tail = "\n"@ + trimmed(body) + "\n"@;
    assert(begins(text, "---\n"@)) by {
        assert(text.take(4) =~= "---\n"@);
    }
    assert(rest =~= yaml + "---\n"@ + tail);
    let at = yaml.len() - 1;
    assert(stands_at(rest, mark, at)) by {
        assert(rest.subrange(at, at + 5) =~= mark);
    }
    assert forall|j: int| 0 <= j < at implies !#[trigger] stands_at(rest, mark, j) by {
        if stands_at(rest, mark, j) {
            assert(rest.subrange(j, j + 5) == mark);
            if j + 5 <= yaml.len() {
                assert(yaml.subrange(j, j + 5) =~= rest.subrange(j, j + 5));
                assert(stands_at(yaml, mark, j));
            } else {
                let k = at - j;
                assert(0 < k < 4);
                assert(rest.subrange(j, j + 5)[k] == rest[at]);
                assert(rest[at] == '\n');
                assert(mark[k] == '-');
            }
        }
    }
    lemma_first_is(rest, mark, 0, at);
    assert(rest.take(at) =~= yaml.drop_last());
    assert(rest.skip(at + 5) =~= tail);
    lemma_trimmed_ends(body);
    lemma_padded(trimmed(body));
}

// ------------------------------------------------------------ shared posts

/// The frontmatter of a post that may travel, or why it may not.
pub open spec fn shared_front(raw: Seq<u8>) -> Result<Text, Text> {
    let text = decode_utf8(raw);
    if raw.len() > MAX_BODY_BYTES {
        Err("sync_post_too_large_or_empty"@)
    } else if !valid_utf8(raw) {
        Err("invalid_sync_post_utf8"@)
    } else {
        match front_and_body(text) {
            None => Err("invalid_sync_frontmatter"@),
            Some((yaml, _)) => if encode_utf8(yaml).len() > MAX_FRONTMATTER_BYTES {
                Err("sync_frontmatter_too_large"@)
            } else {
                Ok(yaml)
            },
        }
    }
}

pub open spec fn str_result(r: Result<String, String>) -> Result<Text, Text> {
    match r {
        Ok(s) => Ok(s@),
        Err(e) => Err(e@),
    }
}

pub fn shared_frontmatter(raw: Vec<u8>) -> (r: Result<String, String>)
    ensures
        str_result(r) == shared_front(raw@),
{
    if raw.len() > MAX_BODY_BYTES as usize {
        return Err(own("sync_post_too_large_or_empty"));
    }
    let text = match text_of_utf8(raw) {
        Some(t) => t,
        None => {
            return Err(own("invalid_sync_post_utf8"));
        },
    };
    match split_post(&text) {
        None => Err(own("invalid_sync_frontmatter")),
        Some(pair) => {
            if pair.0.as_str().as_bytes().len() > MAX_FRONTMATTER_BYTES {
                return Err(own("sync_frontmatter_too_large"));
            }
            Ok(pair.0)
        },
    }
}

/// Where an attachment's copy lies, without its extension.
pub open spec fn copy_stem(post: Text, id: Text) -> Text {
    "attachments/"@ + post + "/"@ + id
}

/// The extension that an attachment's path shows, if it lies where it must.
pub open spec fn shown_ext(post: Text, a: AttachmentModel) -> Option<Text> {
    let stem = copy_stem(post, a.id);
    if a.path == stem {
        Some(Seq::empty())
    } else if begins(a.path, stem + "."@) {
        Some(a.path.skip((stem + "."@).len() as int))
    } else {
        None
    }
}

pub open spec fn has_ref(s: Seq<RefModel>, id: Text) -> bool {
    exists|i: int| 0 <= i < s.len() && (#[trigger] s[i]).id == id
}

pub open spec fn total_size(s: Seq<RefModel>) -> nat
    decreases s.len(),
{
    if s.len() == 0 {
        0
    } else {
        total_size(s.drop_last()) + s.last().size
    }
}

/// The attachments that a post refers to, or the first fault.
pub open spec fn refs_of(post: Text, s: Seq<AttachmentModel>) -> Result<Seq<RefModel>, Text>
    decreases s.len(),
{
    if s.len() == 0 {
        Ok(Seq::empty())
    } else {
        match refs_of(post, s.drop_last()) {
            Err(e) => Err(e),
            Ok(done) => {
                let a = s.last();
                if !is_safe_id(a.id) {
                    Err("invalid_id"@)
                } else if !is_hash(a.sha256) {
                    Err("invalid_hash"@)
                } else {
                    match shown_ext(post, a) {
                        None => Err("invalid_sync_attachment_path"@),
                        Some(ext) => if has_ref(done, a.id) || !is_extension(ext) || a.size > MAX_ATTACHMENT_BYTES {
                            Err("invalid_sync_attachment"@)
                        } else if total_size(done) + a.size > MAX_POST_ATTACHMENT_BYTES {
                            Err("sync_attachments_too_large"@)
                        } else {
                            Ok(done.push(RefModel { id: a.id, sha256: a.sha256, size: a.size, ext, available: false }))
                        },
                    }
                }
            },
        }
    }
}

/// All attachments of a post.
pub open spec fn post_refs(m: PostModel) -> Result<Seq<RefModel>, Text> {
    if m.attachments.len() > MAX_ATTACHMENTS {
        Err("too_many_sync_attachments"@)
    } else {
        refs_of(m.post_id, m.attachments)
    }
}

pub open spec fn refs_result(r: Result<Vec<AttachmentRef>, String>) -> Result<Seq<RefModel>, Text> {
    match r {
        Ok(v) => Ok(ref_models(v@)),
        Err(e) => Err(e@),
    }
}

fn ext_shown(post: &str, a: &BbsAttachment) -> (r: Option<String>)
    ensures
        opt_text(r) == shown_ext(post@, a@),
{
    let mut stem = own("attachments/");
    stem.append(post);
    stem.append("/");
    stem.append(&a.id);
    if same(&a.path, &stem) {
        let none = String::new();
        assert(none@ =~= Seq::<char>::empty());
        return Some(none);
    }
    strip_front(&a.path, &plus(&stem, "."))
}

fn ref_known(v: &Vec<AttachmentRef>, id: &str) -> (r: bool)
    ensures
        r == has_ref(ref_models(v@), id@),
{
    let mut i: usize = 0;
    while i < v.len()
        invariant
            i <= v@.len(),
            forall|j: int| 0 <= j < i ==> (#[trigger] v@[j]).id@ != id@,
        decreases v@.len() - i,
    {
        if same(&v[i].id, id) {
            assert(ref_models(v@)[i as int].id == id@);
            return true;
        }
        i += 1;
    }
    assert forall|j: int| 0 <= j < v@.len() implies (#[trigger] ref_models(v@)[j]).id != id@ by {
        assert(v@[j].id@ != id@);
    }
    false
}

proof fn lemma_refs_error(post: Text, s: Seq<AttachmentModel>, n: int)
    requires
        0 <= n <= s.len(),
        refs_of(post, s.take(n)) is Err,
    ensures
        refs_of(post, s) == refs_of(post, s.take(n)),
    decreases s.len() - n,
{
    if n == s.len() {
        assert(s.take(n) =~= s);
    } else {
        assert(s.take(n + 1).drop_last() =~= s.take(n));
        lemma_refs_error(post, s, n + 1);
    }
}

pub fn attachment_refs(meta: &BbsPostMeta) -> (r: Result<Vec<AttachmentRef>, String>)
    ensures
        refs_result(r) == post_refs(meta@),
{
    let ghost all = meta@.attachments;
    let ghost post = meta@.post_id;
    if meta.attachments.len() > MAX_ATTACHMENTS {
        return Err(own("too_many_sync_attachments"));
    }
    let mut out: Vec<AttachmentRef> = Vec::new();
    let mut total: u64 = 0;
    let mut i: usize = 0;
    assert(ref_models(out@) =~= Seq::empty());
    while i < meta.attachments.len()
        invariant
            all == attachment_models(meta.attachments@),
            post == meta.post_id@,
            meta@.attachments == all && meta@.post_id == post,
            all.len() <= MAX_ATTACHMENTS,
            i <= meta.attachments@.len(),
            refs_of(post, all.take(i as int)) == Ok::<Seq<RefModel>, Text>(ref_models(out@)),
            total == total_size(ref_models(out@)),
            total <= MAX_POST_ATTACHMENT_BYTES,
        decreases meta.attachments@.len() - i,
    {
        let a = &meta.attachments[i];
        let ghost was = out@;
        assert(all.take(i + 1).drop_last() =~= all.take(i as int));
        assert(all.take(i + 1).last() == a@);
        let ghost step = refs_of(post, all.take(i + 1));
        proof {
            if step is Err {
                lemma_refs_error(post, all, i + 1);
            }
        }
        if !safe_id(&a.id) {
            return Err(own("invalid_id"));
        }
        if !valid_hash(&a.sha256) {
            return Err(own("invalid_hash"));
        }
        let ext = match ext_shown(&meta.post_id, a) {
            Some(e) => e,
            None => {
                return Err(own("invalid_sync_attachment_path"));
            },
        };
        if ref_known(&out, &a.id) || !valid_extension(&ext) || a.size_bytes > MAX_ATTACHMENT_BYTES {
            return Err(own("invalid_sync_attachment"));
        }
        if total + a.size_bytes > MAX_POST_ATTACHMENT_BYTES {
            return Err(own("sync_attachments_too_large"));
        }
        total = total + a.size_bytes;
        let item = AttachmentRef {
            id: a.id.clone(),
            sha256: a.sha256.clone(),
            size_bytes: a.size_bytes,
            ext,
            available: false,
        };
        out.push(item);
        assert(ref_models(out@) =~= ref_models(was).push(item@));
        assert(ref_models(out@).drop_last() =~= ref_models(was));
        i += 1;
    }
    assert(all.take(i as int) =~= all);
    Ok(out)
}

/// The attachments of a post that may travel are at most nine and at most
/// 1 GiB together, and no identifier occurs twice.
pub proof fn shared_attachments_are_bounded(m: PostModel)
    ensures
        post_refs(m) matches Ok(s) ==> s.len() == m.attachments.len() && s.len() <= MAX_ATTACHMENTS && total_size(s)
            <= MAX_POST_ATTACHMENT_BYTES && forall|i: int, j: int|
            #![trigger s[i], s[j]]
            0 <= i < j < s.len() ==> s[i].id != s[j].id,
{
    if m.attachments.len() <= MAX_ATTACHMENTS {
        lemma_refs_bounded(m.post_id, m.attachments);
    }
}

proof fn lemma_refs_bounded(post: Text, all: Seq<AttachmentModel>)
    ensures
        refs_of(post, all) matches Ok(s) ==> s.len() == all.len() && total_size(s) <= MAX_POST_ATTACHMENT_BYTES
            && forall|i: int, j: int| #![trigger s[i], s[j]] 0 <= i < j < s.len() ==> s[i].id != s[j].id,
    decreases all.len(),
{
    if all.len() > 0 {
        lemma_refs_bounded(post, all.drop_last());
        if refs_of(post, all) is Ok {
            let done = refs_of(post, all.drop_last())->Ok_0;
            let s = refs_of(post, all)->Ok_0;
            assert(s.drop_last() =~= done);
        }
    }
}

/// Why the frontmatter of a shared post is refused. Everything it names must
/// be able to travel.
pub open spec fn shared_fault(m: PostModel, thread: Text, post: Text) -> Option<Text> {
    if first_fault(m.mentions) is Some {
        first_fault(m.mentions)
    } else if m.schema != POST_SCHEMA@ || m.thread_id != thread || m.post_id != post || !is_kind(m.kind) {
        Some("invalid_post_relationship"@)
    } else if !is_safe_id(m.thread_id) || !is_safe_id(m.post_id) || !is_safe_id(m.project_id) || !is_safe_id(m.agent_id) {
        Some("invalid_id"@)
    } else if !rfc3339(m.created_at) {
        Some("invalid_timestamp"@)
    } else {
        match post_refs(m) {
            Err(e) => Some(e),
            Ok(_) => None,
        }
    }
}

pub fn validate_post_meta(meta: &BbsPostMeta, thread: &str, post: &str) -> (r: Result<(), String>)
    ensures
        fault_of(r) == shared_fault(meta@, thread@, post@),
{
    match validate(&meta.mentions) {
        Ok(_) => {},
        Err(e) => {
            return Err(e);
        },
    }
    if !same(&meta.schema, POST_SCHEMA) || !same(&meta.thread_id, thread) || !same(&meta.post_id, post) || !known_kind(
        &meta.kind,
    ) {
        return Err(own("invalid_post_relationship"));
    }
    if !safe_id(&meta.thread_id) || !safe_id(&meta.post_id) || !safe_id(&meta.project_id) || !safe_id(&meta.agent_id) {
        return Err(own("invalid_id"));
    }
    if !is_timestamp(&meta.created_at) {
        return Err(own("invalid_timestamp"));
    }
    match attachment_refs(meta) {
        Ok(_) => Ok(()),
        Err(e) => Err(e),
    }
}

// ------------------------------------------------------------------ identity

/// The user, who writes from the board's panel and not as an agent.
pub open spec fn is_user(r: Identity, project: Text, label: Option<Text>, name: Text, avatar: Option<Text>) -> bool {
    &&& r.project_id@ == project
    &&& r.project_display_name@ == project_name(project, label)
    &&& r.agent_id@ == "human"@
    &&& r.agent_display_name@ == (if trimmed(name).len() == 0 {
        "User"@
    } else {
        trimmed(name)
    })
    &&& opt_text(r.agent_avatar) == not_blank(avatar)
}

pub open spec fn not_blank(t: Option<Text>) -> Option<Text> {
    match t {
        Some(x) => if trimmed(x).len() > 0 {
            Some(x)
        } else {
            None
        },
        None => None,
    }
}

fn unless_blank(v: &Option<String>) -> (r: Option<String>)
    ensures
        opt_text(r) == not_blank(opt_text(*v)),
{
    match v {
        Some(x) => if blank(x) {
            None
        } else {
            Some(x.clone())
        },
        None => None,
    }
}

pub fn human_identity(project_id: &str, name: String, avatar: Option<String>) -> (r: Identity)
    ensures
        is_user(r, project_id@, None, name@, opt_text(avatar)),
{
    human_identity_with_project_display_name(project_id, None, name, avatar)
}

pub fn human_identity_with_project_display_name(
    project_id: &str,
    project_display_name: Option<&str>,
    name: String,
    avatar: Option<String>,
) -> (r: Identity)
    ensures
        is_user(r, project_id@, opt_str(project_display_name), name@, opt_text(avatar)),
{
    Identity {
        project_id: own(project_id),
        project_display_name: display_project_name_with_fallback(project_id, project_display_name),
        agent_id: own("human"),
        agent_display_name: if blank(&name) {
            own("User")
        } else {
            trim(&name)
        },
        agent_avatar: unless_blank(&avatar),
    }
}

/// What an agent's session says of it.
pub struct Session {
    pub project_id: Option<String>,
    pub agent_id: Option<String>,
    pub agent_display_name: Option<String>,
    pub project_display_name: Option<String>,
    pub agent_avatar: Option<String>,
    /// The agent's metadata file, where it can be read.
    pub metadata: Option<String>,
}

pub open spec fn or_else(a: Option<Text>, b: Option<Text>) -> Option<Text> {
    match a {
        Some(x) => Some(x),
        None => b,
    }
}

pub open spec fn unwrap_or(a: Option<Text>, b: Text) -> Text {
    match a {
        Some(x) => x,
        None => b,
    }
}

/// The author that a session stands for, given what its metadata says.
pub open spec fn is_session_author(r: Identity, s: Session, name: Option<Text>, avatar: Option<Text>) -> bool {
    let project = unwrap_or(not_blank(opt_text(s.project_id)), "unknown-project"@);
    let agent = unwrap_or(not_blank(opt_text(s.agent_id)), "unknown-agent"@);
    &&& r.project_id@ == project
    &&& r.agent_id@ == agent
    &&& r.agent_display_name@ == unwrap_or(or_else(not_blank(opt_text(s.agent_display_name)), name), agent)
    &&& r.project_display_name@ == unwrap_or(
        not_blank(opt_text(s.project_display_name)),
        project_name(project, None),
    )
    &&& opt_text(r.agent_avatar) == or_else(not_blank(opt_text(s.agent_avatar)), avatar)
}

/// The author of a session, given the name and the avatar in its metadata.
pub fn session_identity(s: &Session, name: Option<String>, avatar: Option<String>) -> (r: Identity)
    ensures
        is_session_author(r, *s, opt_text(name), opt_text(avatar)),
{
    let project_id = match unless_blank(&s.project_id) {
        Some(p) => p,
        None => own("unknown-project"),
    };
    let agent_id = match unless_blank(&s.agent_id) {
        Some(a) => a,
        None => own("unknown-agent"),
    };
    let agent_display_name = match unless_blank(&s.agent_display_name) {
        Some(n) => n,
        None => match name {
            Some(n) => n,
            None => agent_id.clone(),
        },
    };
    let project_display_name = match unless_blank(&s.project_display_name) {
        Some(n) => n,
        None => display_project_name_with_fallback(&project_id, None),
    };
    let agent_avatar = match unless_blank(&s.agent_avatar) {
        Some(a) => Some(a),
        None => avatar,
    };
    Identity { project_id, project_display_name, agent_id, agent_display_name, agent_avatar }
}

pub open spec fn session_field(s: Session, a: Text, b: Text) -> Option<Text> {
    match s.metadata {
        Some(t) => agent_field(yaml_document(t@), a, b),
        None => None,
    }
}

/// The author that the environment of a session names.
pub fn identity_from_env(s: &Session) -> (r: Identity)
    ensures
        is_session_author(
            r,
            *s,
            session_field(*s, "display-name"@, "displayName"@),
            session_field(*s, "avatar-id"@, "avatarId"@),
        ),
{
    let (name, avatar) = match &s.metadata {
        Some(t) => (agent_display_name_from_yaml(t), agent_avatar_from_yaml(t)),
        None => (None, None),
    };
    session_identity(s, name, avatar)
}

// ------------------------------------------------------------------- avatars

/// Where an agent of a project keeps its metadata.
pub open spec fn metadata_path(workspaces: Text, project: Text, agent: Text) -> Text {
    workspaces + "/"@ + project + "/.agent-workspaces/"@ + agent + "/agent.yaml"@
}

/// Where to look for an author's avatar: under the names as they are, and
/// under the names as files are called.
pub open spec fn avatar_paths(workspaces: Text, project: Text, agent: Text) -> Seq<Text> {
    let p = trimmed(project);
    let a = trimmed(agent);
    if p.len() == 0 || a.len() == 0 {
        Seq::empty()
    } else if file_id(p) != p || file_id(a) != a {
        seq![metadata_path(workspaces, p, a), metadata_path(workspaces, file_id(p), file_id(a))]
    } else {
        seq![metadata_path(workspaces, p, a)]
    }
}

fn metadata_at(workspaces: &str, project: &str, agent: &str) -> (r: String)
    ensures
        r@ == metadata_path(workspaces@, project@, agent@),
{
    let mut p = plus3(workspaces, "/", project);
    p.append("/.agent-workspaces/");
    p.append(agent);
    p.append("/agent.yaml");
    p
}

pub fn avatar_candidates(workspaces: &str, project_id: &str, agent_id: &str) -> (r: Vec<String>)
    ensures
        texts(r@) == avatar_paths(workspaces@, project_id@, agent_id@),
{
    let project = trim(project_id);
    let agent = trim(agent_id);
    let mut out: Vec<String> = Vec::new();
    if project.as_str().is_empty() || agent.as_str().is_empty() {
        assert(texts(out@) =~= Seq::empty());
        return out;
    }
    out.push(metadata_at(workspaces, &project, &agent));
    let p = sanitize_id(&project);
    let a = sanitize_id(&agent);
    if !same(&p, &project) || !same(&a, &agent) {
        out.push(metadata_at(workspaces, &p, &a));
    }
    assert(texts(out@) =~= avatar_paths(workspaces@, project_id@, agent_id@));
    out
}

/// The first avatar that metadata name, in order of the candidates.
pub open spec fn first_avatar(s: Seq<Option<Text>>) -> Option<Text>
    decreases s.len(),
{
    if s.len() == 0 {
        None
    } else {
        match s[0] {
            Some(t) => match agent_field(yaml_document(t), "avatar-id"@, "avatarId"@) {
                Some(a) => Some(a),
                None => first_avatar(s.drop_first()),
            },
            None => first_avatar(s.drop_first()),
        }
    }
}

pub open spec fn opt_texts(v: Seq<Option<String>>) -> Seq<Option<Text>> {
    v.map_values(|s: Option<String>| opt_text(s))
}

/// The avatar of an author, given what the candidate files hold.
pub fn project_agent_avatar_from_yaml(files: &Vec<Option<String>>) -> (r: Option<String>)
    ensures
        opt_text(r) == first_avatar(opt_texts(files@)),
{
    let ghost all = opt_texts(files@);
    let mut i: usize = 0;
    assert(all.skip(0) =~= all);
    while i < files.len()
        invariant
            all == opt_texts(files@),
            i <= files@.len(),
            first_avatar(all) == first_avatar(all.skip(i as int)),
        decreases files@.len() - i,
    {
        let ghost rest = all.skip(i as int);
        assert(rest[0] == opt_text(files@[i as int]));
        assert(rest.drop_first() =~= all.skip(i + 1));
        if let Some(t) = &files[i] {
            if let Some(a) = agent_avatar_from_yaml(t) {
                return Some(a);
            }
        }
        i += 1;
    }
    None
}

/// A post carries its author's avatar, or its author is the user: nothing is
/// looked up.
pub open spec fn avatar_settled(m: PostModel) -> bool {
    m.agent_avatar is Some || m.agent_id == "human"@
}

/// The avatar to show with a post, given what the author's metadata name.
pub fn post_agent_avatar(meta: &BbsPostMeta, found: &Option<String>) -> (r: Option<String>)
    ensures
        opt_text(r) == (if avatar_settled(meta@) {
            meta@.agent_avatar
        } else {
            opt_text(*found)
        }),
{
    if meta.agent_avatar.is_some() || same(&meta.agent_id, "human") {
        return copy_opt(&meta.agent_avatar);
    }
    copy_opt(found)
}

/// A file is a post exactly if it has a frontmatter between lines of dashes
/// that can be read, is of the first schema and mentions soundly.
pub proof fn only_a_sound_file_is_a_post(path: Text, text: Text, meta: Result<PostModel, Text>)
    ensures
        post_fault(path, text, meta) is None <==> {
            &&& begins(text, "---\n"@)
            &&& crate::text::occurs(text.skip(4), "\n---\n"@)
            &&& meta matches Ok(m) && m.schema == "kota.bbs.post.v1"@ && first_fault(m.mentions) is None
        },
{
    reveal_strlit("---\n");
    assert("---\n"@.len() == 4);
    if begins(text, "---\n"@) {
        crate::text::a_text_is_cut_at_the_first_mark(text.skip(4), "\n---\n"@);
    }
}

/// The frontmatter of a file that may travel: at most 8 MiB of text, of which
/// the frontmatter is at most 64 KiB.
pub proof fn a_shared_file_is_bounded(text: Text)
    ensures
        ({
            let raw = encode_utf8(text);
            let r = shared_front(raw);
            &&& r is Ok <==> raw.len() <= 8388608 && (front_and_body(text) matches Some((f, _)) && encode_utf8(f).len()
                <= 65536)
            &&& r matches Ok(f) ==> f == front_part(text)
        }),
{
    vstd::utf8::encode_utf8_decode_utf8(text);
    vstd::utf8::encode_utf8_valid_utf8(text);
}

/// The copy of an attachment lies where its post and its identifier say, with
/// the extension that is shown.
pub proof fn a_path_shows_its_extension(post: Text, a: AttachmentModel)
    ensures
        shown_ext(post, a) matches Some(ext) ==> ext.len() > 0 ==> a.path == "attachments/"@ + post + "/"@ + a.id + "."@ + ext,
        a.path == "attachments/"@ + post + "/"@ + a.id ==> shown_ext(post, a) == Some(Seq::<char>::empty()),
        shown_ext(post, a) is Some ==> begins(a.path, "attachments/"@ + post + "/"@ + a.id),
{
    reveal_strlit(".");
    let stem = copy_stem(post, a.id);
    let dotted = stem + "."@;
    if let Some(ext) = shown_ext(post, a) {
        if a.path == stem {
            assert(a.path.take(stem.len() as int) =~= stem);
        } else {
            assert(a.path =~= a.path.take(dotted.len() as int) + a.path.skip(dotted.len() as int));
            assert(a.path.take(stem.len() as int) =~= dotted.take(stem.len() as int));
            assert(dotted.take(stem.len() as int) =~= stem);
        }
    }
}

/// What a shared post says of its attachments: for each its identifier, hash,
/// size and extension, in order, and that its bytes still have to come.
pub proof fn every_attachment_is_referred_to(post: Text, all: Seq<AttachmentModel>, i: int)
    requires
        refs_of(post, all) is Ok,
        0 <= i < all.len(),
    ensures
        ({
            let r = refs_of(post, all)->Ok_0[i];
            &&& refs_of(post, all)->Ok_0.len() == all.len()
            &&& r.id == all[i].id && r.sha256 == all[i].sha256 && r.size == all[i].size && !r.available
            &&& shown_ext(post, all[i]) == Some(r.ext)
            &&& is_safe_id(r.id) && is_hash(r.sha256) && is_extension(r.ext) && r.size <= 1073741824
        }),
    decreases all.len(),
{
    let head = all.drop_last();
    lemma_refs_bounded(post, all);
    lemma_refs_bounded(post, head);
    if i < head.len() {
        every_attachment_is_referred_to(post, head, i);
        assert(refs_of(post, all)->Ok_0[i] == refs_of(post, head)->Ok_0[i]);
        assert(head[i] == all[i]);
    }
}

/// The sizes of attachments together.
pub open spec fn sizes_of(all: Seq<AttachmentModel>) -> nat
    decreases all.len(),
{
    if all.len() == 0 {
        0
    } else {
        sizes_of(all.drop_last()) + all.last().size
    }
}

proof fn lemma_refs_total(post: Text, all: Seq<AttachmentModel>)
    ensures
        refs_of(post, all) matches Ok(s) ==> total_size(s) == sizes_of(all),
    decreases all.len(),
{
    if all.len() > 0 {
        lemma_refs_total(post, all.drop_last());
        if let Ok(s) = refs_of(post, all) {
            let done = refs_of(post, all.drop_last())->Ok_0;
            assert(s.drop_last() =~= done);
        }
    }
}

/// Attachments that are named soundly, lie with their post, have different
/// identifiers and are at most 1 GiB together are never refused.
pub proof fn sound_attachments_pass(post: Text, all: Seq<AttachmentModel>)
    requires
        forall|i: int|
            0 <= i < all.len() ==> is_safe_id((#[trigger] all[i]).id) && is_hash(all[i].sha256) && (shown_ext(
                post,
                all[i],
            ) matches Some(e) && is_extension(e)),
        forall|i: int, j: int| 0 <= i < j < all.len() ==> (#[trigger] all[i]).id != (#[trigger] all[j]).id,
        sizes_of(all) <= 1073741824,
    ensures
        refs_of(post, all) is Ok,
    decreases all.len(),
{
    if all.len() > 0 {
        let head = all.drop_last();
        assert(forall|i: int| 0 <= i < head.len() ==> head[i] == #[trigger] all[i]);
        sound_attachments_pass(post, head);
        lemma_refs_total(post, head);
        lemma_refs_bounded(post, head);
        let done = refs_of(post, head)->Ok_0;
        assert(all[all.len() - 1] == all.last());
        if has_ref(done, all.last().id) {
            let k = choose|k: int| 0 <= k < done.len() && (#[trigger] done[k]).id == all.last().id;
            every_attachment_is_referred_to(post, head, k);
            assert(head[k].id == all[k].id);
            assert(false);
        }
    }
}

/// A shared post is accepted exactly if it is the post of the thread that it
/// was asked for, of the first schema and a known kind, with identifiers that
/// travel, a valid time, sound mentions and sound attachments, at most nine.
pub proof fn only_the_post_that_was_asked_for_is_accepted(m: PostModel, thread: Text, post: Text)
    ensures
        shared_fault(m, thread, post) is None <==> {
            &&& m.thread_id == thread && m.post_id == post
            &&& m.schema == "kota.bbs.post.v1"@
            &&& is_kind(m.kind)
            &&& is_safe_id(m.thread_id) && is_safe_id(m.post_id) && is_safe_id(m.project_id) && is_safe_id(m.agent_id)
            &&& rfc3339(m.created_at)
            &&& first_fault(m.mentions) is None
            &&& m.attachments.len() <= 9
            &&& refs_of(m.post_id, m.attachments) is Ok
        },
{
}

/// The user writes as the human of the project, under the name given, or as
/// `User` without one.
pub proof fn the_user_writes_as_a_human(r: Identity, project: Text, label: Option<Text>, name: Text, avatar: Option<Text>)
    requires
        is_user(r, project, label, name, avatar),
    ensures
        r.project_id@ == project,
        r.agent_id@ == "human"@,
        trimmed(name).len() > 0 ==> r.agent_display_name@ == trimmed(name),
        trimmed(name).len() == 0 ==> r.agent_display_name@ == "User"@,
        label matches Some(l) ==> trimmed(l).len() > 0 ==> r.project_display_name@ == crate::bbs::names::project_label(
            trimmed(l),
        ),
        avatar matches Some(a) ==> trimmed(a).len() > 0 ==> opt_text(r.agent_avatar) == Some(a),
        (avatar matches Some(a) ==> trimmed(a).len() == 0) ==> r.agent_avatar is None,
{
}

/// An agent writes under what its session says of it; its metadata stand in
/// for a missing name or picture, and its identifier for a missing name.
pub proof fn an_agent_writes_as_its_session_says(r: Identity, s: Session, name: Option<Text>, avatar: Option<Text>, t: Text)
    requires
        is_session_author(r, s, name, avatar),
        trimmed(t).len() > 0,
    ensures
        opt_text(s.project_id) == Some(t) ==> r.project_id@ == t,
        opt_text(s.agent_id) == Some(t) ==> r.agent_id@ == t,
        s.project_id is None ==> r.project_id@ == "unknown-project"@,
        s.agent_id is None ==> r.agent_id@ == "unknown-agent"@,
        opt_text(s.agent_display_name) == Some(t) ==> r.agent_display_name@ == t,
        s.agent_display_name is None && name is Some ==> r.agent_display_name@ == name->0,
        s.agent_display_name is None && name is None ==> r.agent_display_name@ == r.agent_id@,
        opt_text(s.project_display_name) == Some(t) ==> r.project_display_name@ == t,
        opt_text(s.agent_avatar) == Some(t) ==> opt_text(r.agent_avatar) == Some(t),
        s.agent_avatar is None ==> opt_text(r.agent_avatar) == avatar,
{
}

/// The avatar shown is that of the first candidate that names one.
pub proof fn the_first_avatar_counts(s: Seq<Option<Text>>, i: int)
    requires
        0 <= i < s.len(),
        forall|j: int|
            0 <= j < i ==> ((#[trigger] s[j]) matches Some(t) ==> agent_field(
                yaml_document(t),
                "avatar-id"@,
                "avatarId"@,
            ) is None),
        s[i] matches Some(t) && agent_field(yaml_document(t), "avatar-id"@, "avatarId"@) is Some,
    ensures
        s[i] matches Some(t) && first_avatar(s) == agent_field(yaml_document(t), "avatar-id"@, "avatarId"@),
    decreases i,
{
    if i > 0 {
        let r = s.drop_first();
        assert(forall|j: int| 0 <= j < r.len() ==> #[trigger] r[j] == s[j + 1]);
        assert(s[0] matches Some(t) ==> agent_field(yaml_document(t), "avatar-id"@, "avatarId"@) is None);
        the_first_avatar_counts(r, i - 1);
    }
}

/// An author's metadata are looked for below the author's project, first under
/// the names as they are.
pub proof fn metadata_lie_below_the_project(workspaces: Text, project: Text, agent: Text)
    requires
        trimmed(project).len() > 0,
        trimmed(agent).len() > 0,
    ensures
        avatar_paths(workspaces, project, agent).len() > 0,
        avatar_paths(workspaces, project, agent)[0] == workspaces + "/"@ + trimmed(project) + "/.agent-workspaces/"@
            + trimmed(agent) + "/agent.yaml"@,
        avatar_paths(workspaces, project, agent).contains(
            metadata_path(workspaces, file_id(trimmed(project)), file_id(trimmed(agent))),
        ),
{
    let s = avatar_paths(workspaces, project, agent);
    if s.len() == 2 {
        assert(s[1] == metadata_path(workspaces, file_id(trimmed(project)), file_id(trimmed(agent))));
    } else {
        assert(s[0] == metadata_path(workspaces, file_id(trimmed(project)), file_id(trimmed(agent))));
    }
}

} // verus!
