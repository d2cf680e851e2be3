//! Where a version came from, and the pictures of its authors.
use vstd::prelude::*;
use crate::bbs::mentions::fault_of;
use crate::bbs::posts::{attachment_refs, post_refs};
use crate::bbs::sync::model::{image_ext, is_avatar, is_image_ext, lemma_at, lemma_found, no_avatar, ref_models};
use crate::bbs::sync::model::{same_stamp, tkey, AttachmentRef, AvatarModel, AvatarSidecar, FileStamp, LedgerEntry};
use crate::bbs::sync::model::{MAX_AVATAR_BYTES, RefModel, RowModel, StateModel, SyncState};
use crate::bbs::sync::resources::{KindModel, Resource, ResourceKind, ResourceModel};
use crate::bbs::types::{attachment_models, attachment_view_models, AttachmentModel, AttachmentViewModel};
use crate::bbs::types::{BbsAttachmentView, LoadedPost};
use crate::ids::{is_component, is_hash, safe_component, valid_hash};
use crate::order::{Key, Parts};
use crate::outside::{base64_text, sha256, sha256_hex, to_base64};
use crate::path::{components, PathName};
use crate::text::{begins, begins_with, copy_opt, holds, opt_text, own, plus3, same, texts, Text};

verus! {

// -------------------------------------------------------------------- origin

/// Where a version came from, and its author's picture at that time. Received
/// posts never show a picture of this device.
pub struct OriginSnapshot {
    pub schema_version: u32,
    pub origin: String,
    pub avatar: AvatarSidecar,
}

pub struct OriginModel {
    pub schema: u32,
    pub origin: Text,
    pub avatar: AvatarModel,
}

impl View for OriginSnapshot {
    type V = OriginModel;

    open spec fn view(&self) -> OriginModel {
        OriginModel { schema: self.schema_version, origin: self.origin@, avatar: self.avatar@ }
    }
}

pub open spec fn is_origin(o: OriginModel) -> bool {
    o.schema == 1 && (o.origin == "local"@ || o.origin == "received"@) && is_avatar(o.avatar)
}

pub open spec fn origin_fault(o: OriginModel) -> Option<Text> {
    if o.schema != 1 || !(o.origin == "local"@ || o.origin == "received"@) {
        Some("invalid_origin_snapshot"@)
    } else if !is_avatar(o.avatar) {
        Some("invalid_avatar"@)
    } else {
        None
    }
}

pub open spec fn opt_origin(o: Option<OriginSnapshot>) -> Option<OriginModel> {
    match o {
        Some(x) => Some(x@),
        None => None,
    }
}

impl OriginSnapshot {
    pub fn validate(&self) -> (r: Result<(), String>)
        ensures
            fault_of(r) == origin_fault(self@),
            r is Ok == is_origin(self@),
    {
        if self.schema_version != 1 || !(same(&self.origin, "local") || same(&self.origin, "received")) {
            return Err(own("invalid_origin_snapshot"));
        }
        if !self.avatar.valid() {
            return Err(own("invalid_avatar"));
        }
        Ok(())
    }

    pub fn copy(&self) -> (r: OriginSnapshot)
        ensures
            r == *self,
    {
        OriginSnapshot {
            schema_version: self.schema_version,
            origin: self.origin.clone(),
            avatar: self.avatar.copy(),
        }
    }
}

/// The origin of a version is written once: a known one stays.
pub fn settle_origin(existing: &Option<OriginSnapshot>, offered: &OriginSnapshot) -> (r: Result<OriginSnapshot, String>)
    ensures
        match origin_fault(offered@) {
            Some(e) => r is Err && r->Err_0@ == e,
            None => r is Ok && r->Ok_0@ == (match opt_origin(*existing) {
                Some(o) => o,
                None => offered@,
            }),
        },
{
    match offered.validate() {
        Ok(_) => {},
        Err(e) => {
            return Err(e);
        },
    }
    match existing {
        Some(o) => Ok(o.copy()),
        None => Ok(offered.copy()),
    }
}

/// A version counts as received unless its origin can be read and says
/// otherwise.
pub fn is_received(origin: &Result<Option<OriginSnapshot>, String>) -> (r: bool)
    ensures
        r == (match origin {
            Ok(Some(o)) => o@.origin == "received"@,
            Ok(None) => false,
            Err(_) => true,
        }),
{
    match origin {
        Ok(Some(o)) => same(&o.origin, "received"),
        Ok(None) => false,
        Err(_) => true,
    }
}

// --------------------------------------------------------------- attachments

/// The extra version that a path belongs to.
pub open spec fn extra_version(path: Text) -> Option<Text> {
    let p = components(path);
    if p.len() >= 2 && p.last() == "post.md"@ && is_name(p[p.len() - 2]) {
        Some(p[p.len() - 2])
    } else {
        None
    }
}

pub open spec fn is_name(s: Text) -> bool {
    s.len() > 0 && s != "."@ && s != ".."@
}

pub fn extra_of(path: &str) -> (r: Option<String>)
    ensures
        opt_text(r) == extra_version(path@),
{
    let p = PathName::parse(path);
    let n = p.parts.len();
    assert(p@.len() == n);
    if n < 2 {
        return None;
    }
    assert(p@.last() == p.parts@[n - 1]@);
    assert(p@[n - 2] == p.parts@[n - 2]@);
    let dir = &p.parts[n - 2];
    if !same(&p.parts[n - 1], "post.md") || dir.as_str().is_empty() || same(dir, ".") || same(dir, "..") {
        return None;
    }
    Some(dir.clone())
}

/// What is seen of an attachment's file.
pub struct FileSight {
    /// Where it lies, if it may be looked at.
    pub path: Option<String>,
    pub stamp: Option<FileStamp>,
}

/// The bytes are those of the post: for a received post the ledger must have
/// checked this very file.
pub open spec fn is_available(row: Option<RowModel>, received: bool, a: RefModel, observed: Option<FileStamp>) -> bool {
    if received {
        row matches Some(r) && r.attachments.contains_key(tkey(a.id)) && ({
            let s = r.attachments[tkey(a.id)];
            s.verified && s.stamp is Some && s.sha256 == a.sha256 && s.size == a.size && s.stamp == observed
        })
    } else {
        observed matches Some(m) && m.len == a.size
    }
}

/// The attachments of a post as they are shown.
pub open spec fn shown(
    s: Seq<AttachmentModel>,
    refs: Seq<RefModel>,
    sights: Seq<FileSight>,
    row: Option<RowModel>,
    received: bool,
) -> Seq<AttachmentViewModel>
    decreases s.len(),
{
    if s.len() == 0 {
        Seq::empty()
    } else {
        let rest = shown(s.drop_last(), refs, sights, row, received);
        let i = s.len() - 1;
        match sights[i].path {
            None => rest,
            Some(p) => rest.push(
                AttachmentViewModel {
                    attachment: s.last(),
                    local_path: p@,
                    available: is_available(row, received, refs[i], sights[i].stamp),
                },
            ),
        }
    }
}

pub open spec fn opt_row(r: Option<&LedgerEntry>) -> Option<RowModel> {
    match r {
        Some(x) => Some(x@),
        None => None,
    }
}

fn available(row: Option<&LedgerEntry>, received: bool, a: &AttachmentRef, observed: &Option<FileStamp>) -> (r: bool)
    requires
        row matches Some(x) ==> x.wf(),
    ensures
        r == is_available(opt_row(row), received, a@, *observed),
{
    if received {
        match row {
            Some(x) => {
                let k = a.id.clone();
                match x.attachments.get(&k) {
                    Some(s) => s.verified && s.stamp.is_some() && same(&s.sha256, &a.sha256) && s.size_bytes
                        == a.size_bytes && same_stamp(&s.stamp, observed),
                    None => false,
                }
            },
            None => false,
        }
    } else {
        match observed {
            Some(m) => m.len == a.size_bytes,
            None => false,
        }
    }
}

pub fn attachment_views(
    post: &LoadedPost,
    row: Option<&LedgerEntry>,
    received: bool,
    sights: &Vec<FileSight>,
) -> (r: Vec<BbsAttachmentView>)
    requires
        row matches Some(x) ==> x.wf(),
        sights@.len() == post.meta.attachments@.len(),
    ensures
        attachment_view_models(r@) == (match post_refs(post.meta@) {
            Err(_) => Seq::empty(),
            Ok(refs) => shown(post.meta@.attachments, refs, sights@, opt_row(row), received),
        }),
{
    let mut out: Vec<BbsAttachmentView> = Vec::new();
    assert(attachment_view_models(out@) =~= Seq::empty());
    let refs = match attachment_refs(&post.meta) {
        Ok(v) => v,
        Err(_) => {
            return out;
        },
    };
    proof {
        crate::bbs::posts::shared_attachments_are_bounded(post.meta@);
        assert(ref_models(refs@).len() == refs@.len());
    }
    let ghost all = post.meta@.attachments;
    let ghost rm = ref_models(refs@);
    let mut i: usize = 0;
    while i < post.meta.attachments.len()
        invariant
            row matches Some(x) ==> x.wf(),
            all == attachment_models(post.meta.attachments@),
            sights@.len() == post.meta.attachments@.len(),
            refs@.len() == post.meta.attachments@.len(),
            rm == ref_models(refs@),
            i <= post.meta.attachments@.len(),
            attachment_view_models(out@) == shown(all.take(i as int), rm, sights@, opt_row(row), received),
        decreases post.meta.attachments@.len() - i,
    {
        let ghost was = out@;
        assert(all.take(i + 1).drop_last() =~= all.take(i as int));
        assert(all.take(i + 1).last() == post.meta.attachments@[i as int]@);
        assert(rm[i as int] == refs@[i as int]@);
        if let Some(p) = &sights[i].path {
            let view = BbsAttachmentView {
                attachment: post.meta.attachments[i].copy(),
                local_path: p.clone(),
                available: available(row, received, &refs[i], &sights[i].stamp),
            };
            out.push(view);
            assert(attachment_view_models(out@) =~= attachment_view_models(was).push(view@));
        }
        i += 1;
    }
    assert(all.take(i as int) =~= all);
    out
}

// ------------------------------------------------------------------- pictures

/// The picture shown with a received post.
#[derive(Debug)]
pub enum AvatarView {
    Builtin { id: String },
    Image { sha256: String, ext: String, local_path: Option<String>, available: bool },
    Nothing,
}

pub enum AvatarViewModel {
    Builtin(Text),
    Image { sha256: Text, ext: Text, local_path: Option<Text>, available: bool },
    Nothing,
}

impl View for AvatarView {
    type V = AvatarViewModel;

    open spec fn view(&self) -> AvatarViewModel {
        match self {
            AvatarView::Builtin { id } => AvatarViewModel::Builtin(id@),
            AvatarView::Image { sha256, ext, local_path, available } => AvatarViewModel::Image {
                sha256: sha256@,
                ext: ext@,
                local_path: opt_text(*local_path),
                available: *available,
            },
            AvatarView::Nothing => AvatarViewModel::Nothing,
        }
    }
}

pub open spec fn opt_avatar_view(v: Option<AvatarView>) -> Option<AvatarViewModel> {
    match v {
        Some(x) => Some(x@),
        None => None,
    }
}

/// Some version whose picture this is has had this very file checked.
pub open spec fn picture_proved(s: StateModel, sha256: Text, ext: Text, stamp: Option<FileStamp>) -> bool {
    exists|k: Parts| #[trigger] s.ledger.contains_key(k) && row_proves(s.ledger[k], sha256, ext, stamp)
}

pub open spec fn row_proves(row: RowModel, sha256: Text, ext: Text, stamp: Option<FileStamp>) -> bool {
    &&& row.avatar_stamp is Some
    &&& row.avatar_stamp == stamp
    &&& row.descriptor matches Some(p) && p.avatar matches Some(a) && a.sha256 == Some(sha256) && a.ext == Some(ext)
}

fn names_picture(row: &LedgerEntry, sha256: &str, ext: &str) -> (r: bool)
    ensures
        r == (row@.descriptor matches Some(p) && p.avatar matches Some(a) && a.sha256 == Some(sha256@) && a.ext == Some(
            ext@,
        )),
{
    match &row.descriptor {
        Some(p) => match &p.avatar {
            Some(a) => (match &a.sha256 {
                Some(h) => same(h, sha256),
                None => false,
            }) && (match &a.ext {
                Some(e) => same(e, ext),
                None => false,
            }),
            None => false,
        },
        None => false,
    }
}

fn has_picture(state: &SyncState, sha256: &str, ext: &str, stamp: &Option<FileStamp>) -> (r: bool)
    requires
        state.wf(),
    ensures
        r == picture_proved(state@, sha256@, ext@, *stamp),
{
    let v = &state.ledger.entries;
    let mut i: usize = 0;
    while i < v.len()
        invariant
            state.wf(),
            v == state.ledger.entries,
            i <= v@.len(),
            forall|j: int| 0 <= j < i ==> !row_proves((#[trigger] v@[j]).1@, sha256@, ext@, *stamp),
        decreases v@.len() - i,
    {
        let row = &v[i].1;
        if row.avatar_stamp.is_some() && same_stamp(&row.avatar_stamp, stamp) && names_picture(row, sha256, ext) {
            proof {
                lemma_at(state.ledger, i as int);
                assert(state@.ledger.contains_key(tkey(v@[i as int].0@)));
            }
            return true;
        }
        i += 1;
    }
    proof {
        if picture_proved(state@, sha256@, ext@, *stamp) {
            let k = choose|k: Parts|
                #[trigger] state@.ledger.contains_key(k) && row_proves(state@.ledger[k], sha256@, ext@, *stamp);
            let j = lemma_found(state.ledger, k);
            assert(!row_proves(v@[j].1@, sha256@, ext@, *stamp));
        }
    }
    false
}

/// The first received origin among those of a post's other versions.
pub open spec fn first_received(s: Seq<Option<OriginModel>>) -> Option<OriginModel>
    decreases s.len(),
{
    if s.len() == 0 {
        None
    } else {
        match s[0] {
            Some(o) => if o.origin == "received"@ {
                Some(o)
            } else {
                first_received(s.drop_first())
            },
            None => first_received(s.drop_first()),
        }
    }
}

pub open spec fn origin_models(s: Seq<Option<OriginSnapshot>>) -> Seq<Option<OriginModel>> {
    s.map_values(|o: Option<OriginSnapshot>| opt_origin(o))
}

pub fn find_received(others: &Vec<Option<OriginSnapshot>>) -> (r: Option<OriginSnapshot>)
    ensures
        opt_origin(r) == first_received(origin_models(others@)),
        r matches Some(o) ==> others@.contains(Some(o)),
{
    let ghost all = origin_models(others@);
    let mut i: usize = 0;
    assert(all.skip(0) =~= all);
    while i < others.len()
        invariant
            all == origin_models(others@),
            i <= others@.len(),
            first_received(all) == first_received(all.skip(i as int)),
        decreases others@.len() - i,
    {
        let ghost rest = all.skip(i as int);
        assert(rest[0] == opt_origin(others@[i as int]));
        assert(rest.drop_first() =~= all.skip(i + 1));
        if let Some(o) = &others[i] {
            if same(&o.origin, "received") {
                let r = o.copy();
                assert(others@[i as int] == Some(r));
                return Some(r);
            }
        }
        i += 1;
    }
    None
}

/// The picture to show with a version: none of this device for what came from
/// elsewhere, also while an edit has no origin of its own yet.
pub open spec fn shown_avatar(
    own: Result<Option<OriginModel>, Text>,
    others: Seq<Option<OriginModel>>,
    path: Option<Text>,
    stamp: Option<FileStamp>,
    state: Option<StateModel>,
) -> Option<AvatarViewModel> {
    match own {
        Err(_) => Some(AvatarViewModel::Nothing),
        Ok(found) => {
            let origin = match found {
                Some(o) => Some(o),
                None => first_received(others),
            };
            match origin {
                None => None,
                Some(o) => if o.origin == "local"@ {
                    None
                } else {
                    Some(picture_view(o.avatar, path, stamp, state))
                },
            }
        },
    }
}

pub open spec fn picture_view(a: AvatarModel, path: Option<Text>, stamp: Option<FileStamp>, state: Option<StateModel>) -> AvatarViewModel {
    if a.kind == "builtin"@ {
        AvatarViewModel::Builtin(a.id->0)
    } else if a.kind == "image"@ {
        let available = state matches Some(s) && picture_proved(s, a.sha256->0, a.ext->0, stamp);
        AvatarViewModel::Image {
            sha256: a.sha256->0,
            ext: a.ext->0,
            local_path: if available {
                path
            } else {
                None
            },
            available,
        }
    } else {
        AvatarViewModel::Nothing
    }
}

pub open spec fn own_origin(o: Result<Option<OriginSnapshot>, String>) -> Result<Option<OriginModel>, Text> {
    match o {
        Ok(x) => Ok(opt_origin(x)),
        Err(e) => Err(e@),
    }
}

pub open spec fn opt_state(s: Option<&SyncState>) -> Option<StateModel> {
    match s {
        Some(x) => Some(x@),
        None => None,
    }
}

pub fn avatar_view(
    origin: &Result<Option<OriginSnapshot>, String>,
    others: &Vec<Option<OriginSnapshot>>,
    image: &FileSight,
    state: Option<&SyncState>,
) -> (r: Option<AvatarView>)
    requires
        state matches Some(s) ==> s.wf(),
        origin matches Ok(Some(o)) ==> is_origin(o@),
        forall|i: int| 0 <= i < others@.len() ==> ((#[trigger] others@[i]) matches Some(o) ==> is_origin(o@)),
    ensures
        opt_avatar_view(r) == shown_avatar(
            own_origin(*origin),
            origin_models(others@),
            opt_text(image.path),
            image.stamp,
            opt_state(state),
        ),
{
    let found = match origin {
        Err(_) => {
            return Some(AvatarView::Nothing);
        },
        Ok(Some(o)) => o.copy(),
        Ok(None) => match find_received(others) {
            Some(o) => o,
            None => {
                return None;
            },
        },
    };
    assert(is_origin(found@));
    if same(&found.origin, "local") {
        return None;
    }
    proof {
        reveal_strlit("none");
        reveal_strlit("builtin");
        reveal_strlit("image");
        assert("none"@.len() == 4 && "builtin"@.len() == 7 && "image"@.len() == 5);
    }
    let avatar = found.avatar;
    if same(&avatar.kind, "builtin") {
        return match avatar.id {
            Some(id) => Some(AvatarView::Builtin { id }),
            None => None,
        };
    }
    if !same(&avatar.kind, "image") {
        return Some(AvatarView::Nothing);
    }
    match (avatar.sha256, avatar.ext) {
        (Some(sha256), Some(ext)) => {
            let available = match state {
                Some(s) => has_picture(s, &sha256, &ext, &image.stamp),
                None => false,
            };
            let local_path = if available {
                copy_opt(&image.path)
            } else {
                None
            };
            Some(AvatarView::Image { sha256, ext, local_path, available })
        },
        _ => None,
    }
}

/// Where the picture of an author of this device comes from.
pub enum AvatarChoice {
    Nothing,
    Builtin(String),
    /// A registered picture of the user; no other file is ever read.
    Registered(String),
}

pub fn choose_avatar(id: &Option<String>, builtin: &Vec<String>) -> (r: AvatarChoice)
    ensures
        match opt_text(*id) {
            None => r is Nothing,
            Some(t) => if texts(builtin@).contains(t) {
                r matches AvatarChoice::Builtin(s) && s@ == t
            } else if begins(t, "user:"@) {
                r matches AvatarChoice::Registered(s) && s@ == t
            } else {
                r is Nothing
            },
        },
{
    match id {
        None => AvatarChoice::Nothing,
        Some(t) => {
            if holds(builtin, t) {
                AvatarChoice::Builtin(t.clone())
            } else if begins_with(t, "user:") {
                AvatarChoice::Registered(t.clone())
            } else {
                AvatarChoice::Nothing
            }
        },
    }
}

pub fn builtin_avatar(id: String) -> (r: AvatarSidecar)
    ensures
        r@ == (AvatarModel { kind: "builtin"@, id: Some(id@), ..no_avatar() }),
        is_avatar(r@),
{
    AvatarSidecar { kind: own("builtin"), id: Some(id), sha256: None, ext: None, size_bytes: None }
}

/// The extension of a registered picture.
pub open spec fn registered_ext(file: Text, mime: Text) -> Result<Text, Text> {
    if !is_component(file) {
        Err("invalid_origin_avatar_path"@)
    } else if mime == "image/png"@ {
        Ok("png"@)
    } else if mime == "image/jpeg"@ {
        Ok("jpg"@)
    } else if mime == "image/webp"@ {
        Ok("webp"@)
    } else {
        Err("invalid_origin_avatar_type"@)
    }
}

pub open spec fn ext_result(r: Result<String, String>) -> Result<Text, Text> {
    match r {
        Ok(s) => Ok(s@),
        Err(e) => Err(e@),
    }
}

pub fn registered_extension(file_name: &str, mime: &str) -> (r: Result<String, String>)
    ensures
        ext_result(r) == registered_ext(file_name@, mime@),
        r matches Ok(e) ==> is_image_ext(e@),
{
    if !safe_component(file_name) {
        return Err(own("invalid_origin_avatar_path"));
    }
    if same(mime, "image/png") {
        Ok(own("png"))
    } else if same(mime, "image/jpeg") {
        Ok(own("jpg"))
    } else if same(mime, "image/webp") {
        Ok(own("webp"))
    } else {
        Err(own("invalid_origin_avatar_type"))
    }
}

/// A registered picture, as it is now.
pub fn captured_avatar(ext: &str, bytes: &Vec<u8>) -> (r: Result<AvatarSidecar, String>)
    requires
        is_image_ext(ext@),
        bytes@.len() <= MAX_AVATAR_BYTES,
    ensures
        r is Err == (bytes@.len() == 0),
        r matches Err(e) ==> e@ == "empty_origin_avatar"@,
        r matches Ok(a) ==> is_avatar(a@) && a@ == (AvatarModel {
            kind: "image"@,
            id: None,
            sha256: Some(sha256(bytes@)),
            ext: Some(ext@),
            size: Some(bytes@.len() as u64),
        }),
{
    if bytes.len() == 0 {
        return Err(own("empty_origin_avatar"));
    }
    Ok(
        AvatarSidecar {
            kind: own("image"),
            id: None,
            sha256: Some(sha256_hex(bytes.as_slice())),
            ext: Some(own(ext)),
            size_bytes: Some(bytes.len() as u64),
        },
    )
}

// ------------------------------------------------------------------- reading

pub open spec fn mime_of(ext: Text) -> Text {
    if ext == "png"@ {
        "image/png"@
    } else if ext == "jpg"@ {
        "image/jpeg"@
    } else {
        "image/webp"@
    }
}

/// A picture for the panel.
pub open spec fn data_url(ext: Text, bytes: Seq<u8>) -> Text {
    "data:"@ + mime_of(ext) + ";base64,"@ + base64_text(bytes)
}

fn data_url_of(ext: &str, bytes: &Vec<u8>) -> (r: String)
    requires
        bytes@.len() <= MAX_AVATAR_BYTES,
    ensures
        r@ == data_url(ext@, bytes@),
{
    let mime = if same(ext, "png") {
        own("image/png")
    } else if same(ext, "jpg") {
        own("image/jpeg")
    } else {
        own("image/webp")
    };
    let mut s = plus3("data:", &mime, ";base64,");
    s.append(&to_base64(bytes.as_slice()));
    s
}

/// What reading a picture's file gave.
pub struct FileRead {
    pub regular: bool,
    pub before: FileStamp,
    pub bytes: Vec<u8>,
    /// The opened file, and the path, after the bytes were read.
    pub after: FileStamp,
    pub at_path: Option<FileStamp>,
}

/// The file is a picture of a bounded size.
pub open spec fn is_picture_file(f: FileRead) -> bool {
    f.regular && 0 < f.before.len <= MAX_AVATAR_BYTES
}

/// The file did not change, and its bytes are those that its name promises.
pub open spec fn is_intact(f: FileRead, hash: Text) -> bool {
    f.bytes@.len() == f.before.len && f.after == f.before && f.at_path == Some(f.before) && sha256(f.bytes@) == hash
}

fn intact(f: &FileRead, hash: &str) -> (r: bool)
    ensures
        r == is_intact(*f, hash@),
{
    f.bytes.len() as u64 == f.before.len && f.after == f.before && same_stamp(&f.at_path, &Some(f.before)) && same(
        &sha256_hex(f.bytes.as_slice()),
        hash,
    )
}

/// Some version has had this file checked as its picture.
pub open spec fn image_proved(s: StateModel, sha256: Text, ext: Text, stamp: FileStamp) -> bool {
    exists|k: Parts| #[trigger] s.ledger.contains_key(k) && row_proves_image(s.ledger[k], sha256, ext, stamp)
}

pub open spec fn row_proves_image(row: RowModel, sha256: Text, ext: Text, stamp: FileStamp) -> bool {
    &&& row_proves(row, sha256, ext, Some(stamp))
    &&& row.descriptor->0.avatar->0.kind == "image"@
}

fn proves_image(row: &LedgerEntry, sha256: &str, ext: &str, stamp: FileStamp) -> (r: bool)
    ensures
        r == row_proves_image(row@, sha256@, ext@, stamp),
{
    if !same_stamp(&row.avatar_stamp, &Some(stamp)) || !names_picture(row, sha256, ext) {
        return false;
    }
    match &row.descriptor {
        Some(p) => match &p.avatar {
            Some(a) => same(&a.kind, "image"),
            None => false,
        },
        None => false,
    }
}

fn has_image(state: &SyncState, sha256: &str, ext: &str, stamp: FileStamp) -> (r: bool)
    requires
        state.wf(),
    ensures
        r == image_proved(state@, sha256@, ext@, stamp),
{
    let v = &state.ledger.entries;
    let mut i: usize = 0;
    while i < v.len()
        invariant
            state.wf(),
            v == state.ledger.entries,
            i <= v@.len(),
            forall|j: int| 0 <= j < i ==> !row_proves_image((#[trigger] v@[j]).1@, sha256@, ext@, stamp),
        decreases v@.len() - i,
    {
        if proves_image(&v[i].1, sha256, ext, stamp) {
            proof {
                lemma_at(state.ledger, i as int);
                assert(state@.ledger.contains_key(tkey(v@[i as int].0@)));
            }
            return true;
        }
        i += 1;
    }
    proof {
        if image_proved(state@, sha256@, ext@, stamp) {
            let k = choose|k: Parts|
                #[trigger] state@.ledger.contains_key(k) && row_proves_image(state@.ledger[k], sha256@, ext@, stamp);
            let j = lemma_found(state.ledger, k);
            assert(!row_proves_image(v@[j].1@, sha256@, ext@, stamp));
        }
    }
    false
}

/// A picture that the ledger has checked, for the panel.
pub open spec fn verified_avatar(state: Option<StateModel>, hash: Text, ext: Text, f: FileRead) -> Result<Text, Text> {
    if !is_hash(hash) {
        Err("invalid_hash"@)
    } else if !is_image_ext(ext) {
        Err("invalid_sync_avatar"@)
    } else if state is None {
        Err("unverified_sync_avatar"@)
    } else if !is_picture_file(f) {
        Err("invalid_sync_avatar"@)
    } else if !image_proved(state->0, hash, ext, f.before) {
        Err("unverified_sync_avatar"@)
    } else if !is_intact(f, hash) {
        Err("changed_sync_avatar"@)
    } else {
        Ok(data_url(ext, f.bytes@))
    }
}

pub fn read_verified_avatar(state: Option<&SyncState>, sha256: &str, ext: &str, f: &FileRead) -> (r: Result<
    String,
    String,
>)
    requires
        state matches Some(s) ==> s.wf(),
    ensures
        ext_result(r) == verified_avatar(opt_state(state), sha256@, ext@, *f),
{
    if !valid_hash(sha256) {
        return Err(own("invalid_hash"));
    }
    if !image_ext(ext) {
        return Err(own("invalid_sync_avatar"));
    }
    let state = match state {
        Some(s) => s,
        None => {
            return Err(own("unverified_sync_avatar"));
        },
    };
    if !f.regular || f.before.len == 0 || f.before.len > MAX_AVATAR_BYTES {
        return Err(own("invalid_sync_avatar"));
    }
    if !has_image(state, sha256, ext, f.before) {
        return Err(own("unverified_sync_avatar"));
    }
    if !intact(f, sha256) {
        return Err(own("changed_sync_avatar"));
    }
    Ok(data_url_of(ext, &f.bytes))
}

/// A picture of another device's agent, for the panel. That it is referred to
/// is the caller's business.
pub open spec fn roster_avatar(resource: ResourceModel, valid: bool, f: FileRead) -> Result<Text, Text> {
    match resource.identity {
        KindModel::Avatar { sha256, ext } => if !valid || !is_picture_file(f) || f.before.len != resource.size {
            Err("invalid_roster_avatar"@)
        } else if !is_intact(f, sha256) {
            Err("changed_roster_avatar"@)
        } else {
            Ok(data_url(ext, f.bytes@))
        },
        _ => Err("invalid_roster_avatar"@),
    }
}

pub fn read_roster_avatar(resource: &Resource, f: &FileRead) -> (r: Result<String, String>)
    ensures
        ext_result(r) == roster_avatar(resource@, crate::bbs::sync::resources::is_resource(resource@), *f),
{
    match &resource.identity {
        ResourceKind::Avatar { sha256, ext } => {
            if !resource.valid() || !f.regular || f.before.len == 0 || f.before.len > MAX_AVATAR_BYTES || f.before.len
                != resource.size_bytes {
                return Err(own("invalid_roster_avatar"));
            }
            if !intact(f, sha256) {
                return Err(own("changed_roster_avatar"));
            }
            Ok(data_url_of(ext, &f.bytes))
        },
        _ => Err(own("invalid_roster_avatar")),
    }
}

/// The proof of a picture's file, once its bytes were read: none without a
/// file.
pub fn verify_roster_avatar(resource: &Resource, f: &Option<FileRead>) -> (r: Result<Option<FileStamp>, String>)
    ensures
        ({
            let right = resource@.identity is Avatar && crate::bbs::sync::resources::is_resource(resource@);
            match f {
                None => if right {
                    r == Ok::<Option<FileStamp>, String>(None)
                } else {
                    r is Err && r->Err_0@ == "invalid_roster_avatar"@
                },
                Some(x) => if !right || sha256(x.bytes@) != resource@.sha256 || x.bytes@.len() != resource@.size {
                    r is Err && r->Err_0@ == "invalid_roster_avatar"@
                } else if x.at_path != Some(x.before) {
                    r is Err && r->Err_0@ == "changed_roster_avatar"@
                } else {
                    r == Ok::<Option<FileStamp>, String>(Some(x.before))
                },
            }
        }),
{
    match &resource.identity {
        ResourceKind::Avatar { .. } => {},
        _ => {
            return Err(own("invalid_roster_avatar"));
        },
    }
    if !resource.valid() {
        return Err(own("invalid_roster_avatar"));
    }
    match f {
        None => Ok(None),
        Some(x) => {
            if !same(&sha256_hex(x.bytes.as_slice()), &resource.sha256) || x.bytes.len() as u64 != resource.size_bytes {
                return Err(own("invalid_roster_avatar"));
            }
            if !same_stamp(&x.at_path, &Some(x.before)) {
                return Err(own("changed_roster_avatar"));
            }
            Ok(Some(x.before))
        },
    }
}

// ---------------------------------------------------------------------- laws

/// A post that came from elsewhere never shows a picture of this device: its
/// view is the picture it came with, or none.
pub proof fn received_posts_show_their_own_picture(
    o: OriginModel,
    others: Seq<Option<OriginModel>>,
    path: Option<Text>,
    stamp: Option<FileStamp>,
    state: Option<StateModel>,
)
    requires
        o.origin == "received"@,
    ensures
        shown_avatar(Ok(Some(o)), others, path, stamp, state) == Some(picture_view(o.avatar, path, stamp, state)),
{
    reveal_strlit("local");
    reveal_strlit("received");
    assert("local"@.len() == 5 && "received"@.len() == 8);
}

/// A picture is handed out only if its bytes have the promised hash.
pub proof fn a_picture_has_its_hash(state: Option<StateModel>, hash: Text, ext: Text, f: FileRead)
    requires
        verified_avatar(state, hash, ext, f) is Ok,
    ensures
        sha256(f.bytes@) == hash,
        0 < f.bytes@.len() <= MAX_AVATAR_BYTES,
{
}

/// An attachment of a received post is available only if the ledger checked
/// this very file as these bytes; one of an own post if it has the size.
pub proof fn a_received_attachment_needs_a_proof(row: Option<RowModel>, a: RefModel, observed: Option<FileStamp>)
    ensures
        is_available(row, true, a, observed) <==> (row matches Some(r) && r.attachments.contains_key(tkey(a.id))
            && r.attachments[tkey(a.id)].verified && r.attachments[tkey(a.id)].sha256 == a.sha256
            && r.attachments[tkey(a.id)].size == a.size && observed is Some && r.attachments[tkey(a.id)].stamp == observed),
        is_available(row, false, a, observed) <==> (observed matches Some(m) && m.len == a.size),
{
}

/// A post of this device shows no picture of its own here. A received one shows
/// the picture it came with; one whose origin cannot be read shows none.
pub proof fn a_picture_comes_with_its_post(
    o: OriginModel,
    others: Seq<Option<OriginModel>>,
    path: Option<Text>,
    stamp: Option<FileStamp>,
    state: Option<StateModel>,
    e: Text,
)
    ensures
        o.origin == "local"@ ==> shown_avatar(Ok(Some(o)), others, path, stamp, state) is None,
        shown_avatar(Err(e), others, path, stamp, state) == Some(AvatarViewModel::Nothing),
        first_received(others) is None ==> shown_avatar(Ok(None), others, path, stamp, state) is None,
        first_received(others) matches Some(r) ==> r.origin == "received"@ && shown_avatar(
            Ok(None),
            others,
            path,
            stamp,
            state,
        ) == Some(picture_view(r.avatar, path, stamp, state)),
{
    reveal_strlit("local");
    reveal_strlit("received");
    assert("local"@.len() == 5 && "received"@.len() == 8);
    lemma_first_received(others);
}

proof fn lemma_first_received(s: Seq<Option<OriginModel>>)
    ensures
        first_received(s) matches Some(r) ==> r.origin == "received"@ && s.contains(Some(r)),
        first_received(s) is None ==> forall|i: int| 0 <= i < s.len() ==> ((#[trigger] s[i]) matches Some(o) ==> o.origin
            != "received"@),
    decreases s.len(),
{
    if s.len() > 0 {
        let t = s.drop_first();
        lemma_first_received(t);
        if first_received(t) is Some {
            let i = choose|i: int| 0 <= i < t.len() && t[i] == Some(first_received(t)->0);
            assert(s[i + 1] == t[i]);
        }
        assert(forall|i: int| 0 < i < s.len() ==> #[trigger] s[i] == t[i - 1]);
        if first_received(s) is Some && first_received(s) == s[0] {
            assert(s[0] == Some(first_received(s)->0));
        }
    }
}

/// An image is shown as available exactly if some version had this file checked
/// as this picture; only then is its place told. A built-in picture is shown by
/// its name.
pub proof fn an_image_is_available_if_it_was_checked(
    a: AvatarModel,
    path: Option<Text>,
    stamp: Option<FileStamp>,
    s: StateModel,
    k: Parts,
)
    requires
        is_avatar(a),
    ensures
        a.kind == "builtin"@ ==> picture_view(a, path, stamp, Some(s)) == AvatarViewModel::Builtin(a.id->0),
        a.kind == "none"@ ==> picture_view(a, path, stamp, Some(s)) is Nothing,
        a.kind == "image"@ ==> (picture_view(a, path, stamp, Some(s)) matches AvatarViewModel::Image {
            sha256,
            ext,
            local_path,
            available,
        } && {
            &&& a.sha256 == Some(sha256) && a.ext == Some(ext)
            &&& available ==> local_path == path
            &&& !available ==> local_path is None
            &&& s.ledger.contains_key(k) && s.ledger[k].avatar_stamp is Some && s.ledger[k].avatar_stamp == stamp
                && (s.ledger[k].descriptor matches Some(p) && p.avatar == Some(a)) ==> available
            &&& available ==> stamp is Some
        }),
        a.kind == "image"@ ==> (picture_view(a, path, stamp, None) matches AvatarViewModel::Image { available, .. }
            && !available),
{
    reveal_strlit("none");
    reveal_strlit("builtin");
    reveal_strlit("image");
    assert("none"@.len() == 4 && "builtin"@.len() == 7 && "image"@.len() == 5);
    if a.kind == "image"@ && s.ledger.contains_key(k) && s.ledger[k].avatar_stamp is Some && s.ledger[k].avatar_stamp == stamp
        && (s.ledger[k].descriptor matches Some(p) && p.avatar == Some(a)) {
        assert(row_proves(s.ledger[k], a.sha256->0, a.ext->0, stamp));
    }
}

/// The kind of an image and its extension belong together, both ways.
pub proof fn an_extension_has_its_kind(ext: Text, file: Text)
    requires
        is_image_ext(ext),
        is_component(file),
    ensures
        registered_ext(file, mime_of(ext)) == Ok::<Text, Text>(ext),
        mime_of("png"@) == "image/png"@,
        mime_of("jpg"@) == "image/jpeg"@,
        mime_of("webp"@) == "image/webp"@,
{
    reveal_strlit("png");
    reveal_strlit("jpg");
    reveal_strlit("webp");
    reveal_strlit("image/png");
    reveal_strlit("image/jpeg");
    reveal_strlit("image/webp");
    assert("png"@[0] == 'p' && "jpg"@[0] == 'j' && "webp"@.len() == 4);
    assert("image/png"@.len() == 9 && "image/jpeg"@.len() == 10 && "image/webp"@.len() == 10);
    assert("image/jpeg"@[6] == 'j' && "image/webp"@[6] == 'w');
}

/// A picture is handed out exactly if a version had this file checked as this
/// image and the file is unchanged, of up to 600000 bytes, with the hash.
pub proof fn only_a_checked_picture_is_handed_out(s: StateModel, hash: Text, ext: Text, f: FileRead)
    requires
        is_hash(hash),
        is_image_ext(ext),
    ensures
        verified_avatar(Some(s), hash, ext, f) is Ok <==> {
            &&& f.regular && 0 < f.before.len <= 600000
            &&& image_proved(s, hash, ext, f.before)
            &&& f.bytes@.len() == f.before.len && f.after == f.before && f.at_path == Some(f.before)
            &&& sha256(f.bytes@) == hash
        },
        verified_avatar(None, hash, ext, f) is Err,
        verified_avatar(Some(s), hash, ext, f) matches Ok(u) ==> u == "data:"@ + mime_of(ext) + ";base64,"@ + base64_text(
            f.bytes@,
        ),
{
}

/// An origin is sound exactly if it is of the first schema, local or received,
/// and its picture is one.
pub proof fn an_origin_is_local_or_received(o: OriginModel)
    ensures
        origin_fault(o) is None <==> o.schema == 1 && (o.origin == "local"@ || o.origin == "received"@) && is_avatar(
            o.avatar,
        ),
{
}

} // verus!
