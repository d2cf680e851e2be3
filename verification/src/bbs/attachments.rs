//! Attachments: which files may be attached, how their copies are named, and
//! how they are shown.
use vstd::prelude::*;
use crate::bbs::types::{attachment_models, attachment_view_models, AttachmentModel, AttachmentViewModel};
use crate::bbs::types::{BbsAttachment, BbsAttachmentSource, BbsAttachmentValidation, BbsAttachmentView};
use crate::bbs::types::{MAX_ATTACHMENT_BYTES, MAX_ATTACHMENTS, MAX_POST_ATTACHMENT_BYTES};
use crate::ids::{is_component, safe_component};
use crate::outside::{all_hex, fresh_hex, sha256, sha256_hex};
use crate::path::{components, name_extension, PathName};
use crate::text::{alnum, begins, chars_of, control, is_alnum, is_control, lower, opt_text, own, plus, plus3, same};
use crate::text::{strip_front, to_lower, Text};
use crate::text::a_separator_ends_a_piece;

verus! {

// --------------------------------------------------------------------- names

/// The name of the file that a path means, if it means one.
pub open spec fn file_name(path: Text) -> Option<Text> {
    let parts = components(path);
    if parts.len() == 0 || parts.last().len() == 0 || parts.last() == "."@ || parts.last() == ".."@ {
        None
    } else {
        Some(parts.last())
    }
}

pub fn base_name(path: &str) -> (r: Option<String>)
    ensures
        opt_text(r) == file_name(path@),
{
    let p = PathName::parse(path);
    let n = p.parts.len();
    assert(p@.len() == n);
    if n == 0 {
        return None;
    }
    let last = &p.parts[n - 1];
    assert(p@.last() == last@);
    if last.as_str().is_empty() || same(last, ".") || same(last, "..") {
        return None;
    }
    Some(last.clone())
}

/// At most 240 characters, control characters as underscores.
pub open spec fn shown_name(s: Text) -> Text {
    Seq::new(
        if s.len() < 240 {
            s.len()
        } else {
            240
        },
        |i: int|
            if is_control(s[i]) {
                '_'
            } else {
                s[i]
            },
    )
}

/// The name of an attachment: the file name of the name given, else that of
/// its path.
pub open spec fn name_of(path: Text, name: Option<Text>) -> Text {
    let given = match name {
        Some(n) => file_name(n),
        None => None,
    };
    shown_name(
        match given {
            Some(n) => n,
            None => match file_name(path) {
                Some(n) => n,
                None => "attachment"@,
            },
        },
    )
}

fn show_name(s: &str) -> (r: String)
    ensures
        r@ == shown_name(s@),
{
    let v = chars_of(s);
    let mut out = String::new();
    let mut i: usize = 0;
    while i < v.len() && i < 240
        invariant
            i <= v.len(),
            i <= 240,
            v@ == s@,
            out@ == shown_name(s@).take(i as int),
        decreases v.len() - i,
    {
        let c = v[i];
        if control(c) {
            out.push('_');
        } else {
            out.push(c);
        }
        i += 1;
        assert(out@ =~= shown_name(s@).take(i as int));
    }
    assert(shown_name(s@).take(i as int) =~= shown_name(s@));
    out
}

pub fn attachment_name(source: &BbsAttachmentSource) -> (r: String)
    ensures
        r@ == name_of(source.path@, opt_text(source.name)),
{
    if let Some(n) = &source.name {
        if let Some(f) = base_name(n) {
            return show_name(&f);
        }
    }
    match base_name(&source.path) {
        Some(f) => show_name(&f),
        None => show_name("attachment"),
    }
}

pub open spec fn all_alnum(s: Text) -> bool {
    forall|i: int| 0 <= i < s.len() ==> is_alnum(#[trigger] s[i])
}

/// An extension that a copy may carry.
pub open spec fn is_short_ext(s: Text) -> bool {
    0 < s.len() <= 16 && all_alnum(s)
}

fn short_ext(s: &str) -> (r: bool)
    ensures
        r == is_short_ext(s@),
{
    let v = chars_of(s);
    if v.len() == 0 || v.len() > 16 {
        return false;
    }
    let mut i: usize = 0;
    while i < v.len()
        invariant
            v@ == s@,
            i <= v.len(),
            forall|j: int| 0 <= j < i ==> is_alnum(#[trigger] v@[j]),
        decreases v.len() - i,
    {
        if !alnum(v[i]) {
            assert(!is_alnum(s@[i as int]));
            return false;
        }
        i += 1;
    }
    true
}

/// The extension of a copy, in lower case.
pub open spec fn copy_ext(name: Text) -> Option<Text> {
    match file_name(name) {
        Some(f) => match name_extension(f) {
            Some(e) => if is_short_ext(e) {
                Some(lower(e))
            } else {
                None
            },
            None => None,
        },
        None => None,
    }
}

pub fn attachment_extension(name: &str) -> (r: Option<String>)
    ensures
        opt_text(r) == copy_ext(name@),
{
    match base_name(name) {
        Some(f) => match crate::path::extension_of_name(&f) {
            Some(e) => if short_ext(&e) {
                Some(to_lower(&e))
            } else {
                None
            },
            None => None,
        },
        None => None,
    }
}

// -------------------------------------------------------------------- checks

/// What a file is.
#[derive(Clone, Copy)]
pub struct FileFacts {
    pub regular: bool,
    pub size_bytes: u64,
}

/// What looking at a source gave: what its path shows, then what the opened
/// file shows.
pub enum Look {
    Unreadable(String),
    Seen { before: FileFacts, opened: Result<FileFacts, String> },
}

pub enum LookModel {
    Unreadable(Text),
    Seen { before: FileFacts, opened: Result<FileFacts, Text> },
}

impl View for Look {
    type V = LookModel;

    open spec fn view(&self) -> LookModel {
        match self {
            Look::Unreadable(e) => LookModel::Unreadable(e@),
            Look::Seen { before, opened } => LookModel::Seen {
                before: *before,
                opened: match opened {
                    Ok(f) => Ok(*f),
                    Err(e) => Err(e@),
                },
            },
        }
    }
}

/// The size of a source that may be attached: a regular file of at most
/// 1 GiB, before and after it is opened.
pub open spec fn checked(path: Text, look: LookModel) -> Result<nat, Text> {
    match look {
        LookModel::Unreadable(e) => Err(e),
        LookModel::Seen { before, opened } => if !before.regular {
            Err("attachment is not a regular file: "@ + path)
        } else if before.size_bytes > MAX_ATTACHMENT_BYTES {
            Err("attachment exceeds 1 GiB: "@ + path)
        } else {
            match opened {
                Err(e) => Err(e),
                Ok(f) => if !f.regular || f.size_bytes > MAX_ATTACHMENT_BYTES {
                    Err("attachment must be a regular file of at most 1 GiB: "@ + path)
                } else {
                    Ok(f.size_bytes as nat)
                },
            }
        },
    }
}

pub struct SourceModel {
    pub path: Text,
    pub name: Option<Text>,
}

pub open spec fn source_models(s: Seq<BbsAttachmentSource>) -> Seq<SourceModel> {
    s.map_values(|a: BbsAttachmentSource| SourceModel { path: a.path@, name: opt_text(a.name) })
}

pub open spec fn look_models(s: Seq<Look>) -> Seq<LookModel> {
    s.map_values(|l: Look| l@)
}

/// A file that may be attached: its path, its name and its size.
pub struct ValidModel {
    pub path: Text,
    pub name: Text,
    pub size: nat,
}

pub open spec fn valid_models(s: Seq<BbsAttachmentValidation>) -> Seq<ValidModel> {
    s.map_values(
        |v: BbsAttachmentValidation| ValidModel { path: v.path@, name: v.name@, size: v.size_bytes as nat },
    )
}

pub open spec fn sizes(s: Seq<ValidModel>) -> nat
    decreases s.len(),
{
    if s.len() == 0 {
        0
    } else {
        sizes(s.drop_last()) + s.last().size
    }
}

/// The sources in order, or the first that may not be attached. With a budget,
/// the first that exceeds it is refused too.
pub open spec fn validated(s: Seq<SourceModel>, looks: Seq<LookModel>, budget: bool) -> Result<Seq<ValidModel>, Text>
    decreases s.len(),
{
    if s.len() == 0 {
        Ok(Seq::empty())
    } else {
        match validated(s.drop_last(), looks, budget) {
            Err(e) => Err(e),
            Ok(done) => {
                let a = s.last();
                match checked(a.path, looks[s.len() - 1]) {
                    Err(e) => Err(e),
                    Ok(size) => if budget && sizes(done) + size > MAX_POST_ATTACHMENT_BYTES {
                        Err("BBS attachments exceed 1 GiB in total: "@ + a.path)
                    } else {
                        Ok(done.push(ValidModel { path: a.path, name: name_of(a.path, a.name), size }))
                    },
                }
            },
        }
    }
}

pub open spec fn valid_result(r: Result<Vec<BbsAttachmentValidation>, String>) -> Result<Seq<ValidModel>, Text> {
    match r {
        Ok(v) => Ok(valid_models(v@)),
        Err(e) => Err(e@),
    }
}

pub open spec fn size_result(r: Result<u64, String>) -> Result<nat, Text> {
    match r {
        Ok(n) => Ok(n as nat),
        Err(e) => Err(e@),
    }
}

pub fn open_attachment(source: &BbsAttachmentSource, look: &Look) -> (r: Result<u64, String>)
    ensures
        size_result(r) == checked(source.path@, look@),
        r matches Ok(n) ==> n <= MAX_ATTACHMENT_BYTES,
{
    match look {
        Look::Unreadable(e) => Err(e.clone()),
        Look::Seen { before, opened } => {
            if !before.regular {
                return Err(plus("attachment is not a regular file: ", &source.path));
            }
            if before.size_bytes > MAX_ATTACHMENT_BYTES {
                return Err(plus("attachment exceeds 1 GiB: ", &source.path));
            }
            match opened {
                Err(e) => Err(e.clone()),
                Ok(f) => {
                    if !f.regular || f.size_bytes > MAX_ATTACHMENT_BYTES {
                        return Err(plus("attachment must be a regular file of at most 1 GiB: ", &source.path));
                    }
                    Ok(f.size_bytes)
                },
            }
        },
    }
}

proof fn lemma_validated_error(s: Seq<SourceModel>, looks: Seq<LookModel>, budget: bool, n: int)
    requires
        0 <= n <= s.len(),
        validated(s.take(n), looks, budget) is Err,
    ensures
        validated(s, looks, budget) == validated(s.take(n), looks, budget),
    decreases s.len() - n,
{
    if n == s.len() {
        assert(s.take(n) =~= s);
    } else {
        assert(s.take(n + 1).drop_last() =~= s.take(n));
        lemma_validated_error(s, looks, budget, n + 1);
    }
}

/// Look at the sources one after the other.
fn look_at_all(sources: &Vec<BbsAttachmentSource>, looks: &Vec<Look>, budget: bool) -> (r: Result<
    Vec<BbsAttachmentValidation>,
    String,
>)
    requires
        looks@.len() == sources@.len(),
        sources@.len() <= MAX_ATTACHMENTS,
    ensures
        valid_result(r) == validated(source_models(sources@), look_models(looks@), budget),
        r matches Ok(v) ==> sizes(valid_models(v@)) <= MAX_ATTACHMENTS * MAX_ATTACHMENT_BYTES,
{
    let ghost all = source_models(sources@);
    let ghost seen = look_models(looks@);
    let mut out: Vec<BbsAttachmentValidation> = Vec::new();
    let mut total: u64 = 0;
    let mut i: usize = 0;
    assert(valid_models(out@) =~= Seq::empty());
    while i < sources.len()
        invariant
            all == source_models(sources@),
            seen == look_models(looks@),
            looks@.len() == sources@.len(),
            sources@.len() <= MAX_ATTACHMENTS,
            i <= sources@.len(),
            validated(all.take(i as int), seen, budget) == Ok::<Seq<ValidModel>, Text>(valid_models(out@)),
            total == sizes(valid_models(out@)),
            total <= i * MAX_ATTACHMENT_BYTES,
        decreases sources@.len() - i,
    {
        let source = &sources[i];
        let ghost was = out@;
        assert(all.take(i + 1).drop_last() =~= all.take(i as int));
        assert(all.take(i + 1).last() == all[i as int]);
        assert(seen[i as int] == looks@[i as int]@);
        proof {
            if validated(all.take(i + 1), seen, budget) is Err {
                lemma_validated_error(all, seen, budget, i + 1);
            }
            assert(i * MAX_ATTACHMENT_BYTES <= 9 * MAX_ATTACHMENT_BYTES) by (nonlinear_arith)
                requires
                    i <= 9,
            ;
        }
        let size = match open_attachment(source, &looks[i]) {
            Ok(n) => n,
            Err(e) => {
                return Err(e);
            },
        };
        if budget && total + size > MAX_POST_ATTACHMENT_BYTES {
            return Err(plus("BBS attachments exceed 1 GiB in total: ", &source.path));
        }
        total = total + size;
        let item = BbsAttachmentValidation {
            path: source.path.clone(),
            name: attachment_name(source),
            size_bytes: size,
        };
        let ghost model = ValidModel { path: item.path@, name: item.name@, size: size as nat };
        out.push(item);
        assert(valid_models(out@) =~= valid_models(was).push(model));
        assert(valid_models(out@).drop_last() =~= valid_models(was));
        assert((i + 1) * MAX_ATTACHMENT_BYTES == i * MAX_ATTACHMENT_BYTES + MAX_ATTACHMENT_BYTES) by (nonlinear_arith);
        i += 1;
    }
    assert(all.take(i as int) =~= all);
    assert(i * MAX_ATTACHMENT_BYTES <= 9 * MAX_ATTACHMENT_BYTES) by (nonlinear_arith)
        requires
            i <= 9,
    ;
    Ok(out)
}

/// Which files may be attached together.
pub open spec fn validation(s: Seq<SourceModel>, looks: Seq<LookModel>) -> Result<Seq<ValidModel>, Text> {
    if s.len() > MAX_ATTACHMENTS {
        Err("a BBS post supports at most 9 attachments"@)
    } else {
        validated(s, looks, true)
    }
}

/// A check before anything is copied: at most nine files, and at most 1 GiB
/// together.
pub fn validate_attachments(sources: &Vec<BbsAttachmentSource>, looks: &Vec<Look>) -> (r: Result<
    Vec<BbsAttachmentValidation>,
    String,
>)
    requires
        looks@.len() == sources@.len(),
    ensures
        valid_result(r) == validation(source_models(sources@), look_models(looks@)),
{
    if sources.len() > MAX_ATTACHMENTS {
        return Err(own("a BBS post supports at most 9 attachments"));
    }
    look_at_all(sources, looks, true)
}

/// The files of a post: every one is looked at before any is copied.
pub open spec fn opened_all(s: Seq<SourceModel>, looks: Seq<LookModel>) -> Result<Seq<ValidModel>, Text> {
    if s.len() > MAX_ATTACHMENTS {
        Err("a BBS post supports at most 9 attachments"@)
    } else {
        match validated(s, looks, false) {
            Err(e) => Err(e),
            Ok(v) => if sizes(v) > MAX_POST_ATTACHMENT_BYTES {
                Err("BBS attachments exceed 1 GiB in total"@)
            } else {
                Ok(v)
            },
        }
    }
}

pub fn open_all(sources: &Vec<BbsAttachmentSource>, looks: &Vec<Look>) -> (r: Result<
    Vec<BbsAttachmentValidation>,
    String,
>)
    requires
        looks@.len() == sources@.len(),
    ensures
        valid_result(r) == opened_all(source_models(sources@), look_models(looks@)),
{
    if sources.len() > MAX_ATTACHMENTS {
        return Err(own("a BBS post supports at most 9 attachments"));
    }
    let opened = match look_at_all(sources, looks, false) {
        Ok(v) => v,
        Err(e) => {
            return Err(e);
        },
    };
    let ghost all = valid_models(opened@);
    let mut total: u64 = 0;
    let mut i: usize = 0;
    assert(all.take(0) =~= Seq::empty());
    while i < opened.len()
        invariant
            all == valid_models(opened@),
            i <= opened@.len(),
            total == sizes(all.take(i as int)),
            sizes(all) <= MAX_ATTACHMENTS * MAX_ATTACHMENT_BYTES,
        decreases opened@.len() - i,
    {
        assert(all.take(i + 1).drop_last() =~= all.take(i as int));
        assert(all.take(i + 1).last().size == opened@[i as int].size_bytes);
        proof {
            lemma_sizes_grow(all, i + 1);
        }
        total = total + opened[i].size_bytes;
        i += 1;
    }
    assert(all.take(i as int) =~= all);
    if total > MAX_POST_ATTACHMENT_BYTES {
        return Err(own("BBS attachments exceed 1 GiB in total"));
    }
    Ok(opened)
}

proof fn lemma_sizes_grow(s: Seq<ValidModel>, n: int)
    requires
        0 <= n <= s.len(),
    ensures
        sizes(s.take(n)) <= sizes(s),
    decreases s.len() - n,
{
    if n == s.len() {
        assert(s.take(n) =~= s);
    } else {
        assert(s.take(n + 1).drop_last() =~= s.take(n));
        lemma_sizes_grow(s, n + 1);
    }
}

// ------------------------------------------------------------------- copying

/// All chunks one after the other.
pub open spec fn flat(chunks: Seq<Vec<u8>>) -> Seq<u8>
    decreases chunks.len(),
{
    if chunks.len() == 0 {
        Seq::empty()
    } else {
        flat(chunks.drop_last()) + chunks.last()@
    }
}

/// A copy under way.
pub struct CopyStream {
    pub limit: u64,
    pub count: u64,
}

impl CopyStream {
    /// A chunk was read. Nothing beyond the limit may be written.
    pub fn accept(&mut self, read: u64) -> (r: Result<(), String>)
        requires
            old(self).count <= old(self).limit,
        ensures
            final(self).limit == old(self).limit,
            r is Ok == (old(self).count + read <= old(self).limit),
            r is Ok ==> final(self).count == old(self).count + read,
            r is Err ==> *final(self) == *old(self) && r->Err_0@ == "attachment or post exceeds 1 GiB"@,
    {
        if read > self.limit - self.count {
            return Err(own("attachment or post exceeds 1 GiB"));
        }
        self.count = self.count + read;
        Ok(())
    }
}

/// Copy what successive reads gave behind what was written before, up to a
/// limit: the count and the hash of the bytes.
pub fn copy_attachment_stream(chunks: &Vec<Vec<u8>>, output: &mut Vec<u8>, limit: u64) -> (r: Result<
    (u64, String),
    String,
>)
    ensures
        r is Ok == (flat(chunks@).len() <= limit),
        r matches Ok(t) ==> final(output)@ == old(output)@ + flat(chunks@) && t.0 == flat(chunks@).len() && t.1@
            == sha256(flat(chunks@)),
        r matches Err(e) ==> {
            &&& e@ == "attachment or post exceeds 1 GiB"@
            &&& exists|n: int|
                0 <= n < chunks@.len() && final(output)@ == old(output)@ + #[trigger] flat(chunks@.take(n)) && flat(
                    chunks@.take(n + 1),
                ).len() > limit
        },
        final(output)@.len() <= old(output)@.len() + limit,
{
    let mut stream = CopyStream { limit, count: 0 };
    let mut taken: Vec<u8> = Vec::new();
    let ghost before = output@;
    let mut i: usize = 0;
    assert(taken@ =~= flat(chunks@.take(0)));
    assert(output@ =~= before + taken@);
    while i < chunks.len()
        invariant
            i <= chunks@.len(),
            before == old(output)@,
            stream.limit == limit,
            stream.count == taken@.len(),
            stream.count <= limit,
            taken@ == flat(chunks@.take(i as int)),
            output@ == before + taken@,
        decreases chunks@.len() - i,
    {
        let chunk = &chunks[i];
        assert(chunks@.take(i + 1).drop_last() =~= chunks@.take(i as int));
        assert(chunks@.take(i + 1).last() == chunk);
        match stream.accept(chunk.len() as u64) {
            Ok(_) => {},
            Err(e) => {
                proof {
                    lemma_flat_grows(chunks@, i + 1);
                    assert(flat(chunks@.take(i + 1)).len() > limit);
                    assert(output@ == before + flat(chunks@.take(i as int)));
                }
                return Err(e);
            },
        }
        let mut more = copy_bytes(chunk);
        output.append(&mut more);
        let mut again = copy_bytes(chunk);
        taken.append(&mut again);
        assert(output@ =~= before + taken@);
        i += 1;
    }
    assert(chunks@.take(i as int) =~= chunks@);
    let hash = sha256_hex(taken.as_slice());
    Ok((stream.count, hash))
}

fn copy_bytes(v: &Vec<u8>) -> (r: Vec<u8>)
    ensures
        r@ == v@,
{
    let mut out: Vec<u8> = Vec::new();
    let mut i: usize = 0;
    while i < v.len()
        invariant
            i <= v@.len(),
            out@ == v@.take(i as int),
        decreases v@.len() - i,
    {
        out.push(v[i]);
        i += 1;
        assert(out@ =~= v@.take(i as int));
    }
    assert(v@.take(i as int) =~= v@);
    out
}

proof fn lemma_flat_grows(s: Seq<Vec<u8>>, n: int)
    requires
        0 <= n <= s.len(),
    ensures
        flat(s.take(n)).len() <= flat(s).len(),
    decreases s.len() - n,
{
    if n == s.len() {
        assert(s.take(n) =~= s);
    } else {
        assert(s.take(n + 1).drop_last() =~= s.take(n));
        lemma_flat_grows(s, n + 1);
    }
}

/// A file's length and time of change.
#[derive(Clone, Copy, PartialEq, Eq, Structural)]
pub struct Moment {
    pub len: u64,
    pub modified: Option<i64>,
}

/// What copying a file gave.
pub enum CopyOutcome {
    Failed(String),
    Done { count: u64, sha256: String, before: Moment, after: Moment },
}

/// The copy is the file that was looked at.
pub open spec fn steady(size: nat, o: CopyOutcome) -> bool {
    o matches CopyOutcome::Done { count, before, after, .. } && count == size && before == after
}

/// Why a copy is refused.
pub open spec fn copy_fault(path: Text, size: nat, o: CopyOutcome) -> Option<Text> {
    match o {
        CopyOutcome::Failed(e) => Some("could not attach "@ + path + ": "@ + e@),
        CopyOutcome::Done { .. } => if steady(size, o) {
            None
        } else {
            Some("could not attach "@ + path + ": attachment changed while copying; retry"@)
        },
    }
}

/// How much may still be copied.
pub fn copy_limit(total: u64) -> (r: u64)
    requires
        total <= MAX_POST_ATTACHMENT_BYTES,
    ensures
        r == MAX_POST_ATTACHMENT_BYTES - total,
        r <= MAX_ATTACHMENT_BYTES,
{
    MAX_POST_ATTACHMENT_BYTES - total
}

/// The file in which a copy is kept.
pub open spec fn copy_file(id: Text, name: Text) -> Text {
    match copy_ext(name) {
        Some(e) => id + "."@ + e,
        None => id,
    }
}

/// What a post says of a copy.
pub open spec fn entry_model(post: Text, token: Text, v: ValidModel, sha256: Text) -> AttachmentModel {
    let id = "att-"@ + token;
    AttachmentModel {
        id,
        name: v.name,
        path: "attachments/"@ + post + "/"@ + copy_file(id, v.name),
        size: v.size,
        sha256,
    }
}

/// What a post says of a copy, or why it is refused.
pub fn stored_entry(post_id: &str, token: &str, v: &BbsAttachmentValidation, outcome: &CopyOutcome) -> (r: Result<
    BbsAttachment,
    String,
>)
    ensures
        match r {
            Ok(a) => copy_fault(v.path@, v.size_bytes as nat, *outcome) is None && (outcome matches CopyOutcome::Done {
                sha256,
                ..
            } && a@ == entry_model(
                post_id@,
                token@,
                ValidModel { path: v.path@, name: v.name@, size: v.size_bytes as nat },
                sha256@,
            )),
            Err(e) => copy_fault(v.path@, v.size_bytes as nat, *outcome) == Some(e@),
        },
{
    match outcome {
        CopyOutcome::Failed(e) => {
            let mut m = plus3("could not attach ", &v.path, ": ");
            m.append(e);
            Err(m)
        },
        CopyOutcome::Done { count, sha256, before, after } => {
            if *count != v.size_bytes || *before != *after {
                return Err(
                    plus3("could not attach ", &v.path, ": attachment changed while copying; retry"),
                );
            }
            let id = plus("att-", token);
            let file = match attachment_extension(&v.name) {
                Some(e) => plus3(&id, ".", &e),
                None => id.clone(),
            };
            let mut path = plus3("attachments/", post_id, "/");
            path.append(&file);
            Ok(BbsAttachment { id, name: v.name.clone(), path, size_bytes: *count, sha256: sha256.clone() })
        },
    }
}

pub open spec fn opt_first_fault(s: Seq<ValidModel>, o: Seq<CopyOutcome>) -> Option<Text>
    decreases s.len(),
{
    if s.len() == 0 {
        None
    } else {
        match opt_first_fault(s.drop_last(), o) {
            Some(e) => Some(e),
            None => copy_fault(s.last().path, s.last().size, o[s.len() - 1]),
        }
    }
}

/// Entry `i` describes copy `i`.
pub open spec fn describes(post: Text, a: AttachmentModel, token: Text, v: ValidModel, o: CopyOutcome) -> bool {
    o matches CopyOutcome::Done { sha256, .. } && a == entry_model(post, token, v, sha256@)
}

/// The entries of all copies, given a random part for each.
pub fn stored_entries(
    post_id: &str,
    tokens: &Vec<String>,
    files: &Vec<BbsAttachmentValidation>,
    outcomes: &Vec<CopyOutcome>,
) -> (r: Result<Vec<BbsAttachment>, String>)
    requires
        tokens@.len() == files@.len(),
        outcomes@.len() == files@.len(),
    ensures
        r is Err == opt_first_fault(valid_models(files@), outcomes@) is Some,
        r matches Err(e) ==> opt_first_fault(valid_models(files@), outcomes@) == Some(e@),
        r matches Ok(v) ==> v@.len() == files@.len() && forall|i: int|
            0 <= i < v@.len() ==> describes(
                post_id@,
                (#[trigger] v@[i])@,
                tokens@[i]@,
                valid_models(files@)[i],
                outcomes@[i],
            ),
{
    let ghost all = valid_models(files@);
    let mut out: Vec<BbsAttachment> = Vec::new();
    let mut i: usize = 0;
    while i < files.len()
        invariant
            all == valid_models(files@),
            tokens@.len() == files@.len(),
            outcomes@.len() == files@.len(),
            i <= files@.len(),
            out@.len() == i,
            opt_first_fault(all.take(i as int), outcomes@) is None,
            forall|j: int|
                0 <= j < i ==> describes(
                    post_id@,
                    (#[trigger] out@[j])@,
                    tokens@[j]@,
                    valid_models(files@)[j],
                    outcomes@[j],
                ),
        decreases files@.len() - i,
    {
        assert(all.take(i + 1).drop_last() =~= all.take(i as int));
        assert(all.take(i + 1).last() == all[i as int]);
        match stored_entry(post_id, &tokens[i], &files[i], &outcomes[i]) {
            Ok(a) => out.push(a),
            Err(e) => {
                proof {
                    lemma_fault_stays(all, outcomes@, i + 1);
                }
                return Err(e);
            },
        }
        i += 1;
    }
    assert(all.take(i as int) =~= all);
    Ok(out)
}

proof fn lemma_fault_stays(s: Seq<ValidModel>, o: Seq<CopyOutcome>, n: int)
    requires
        0 <= n <= s.len(),
        opt_first_fault(s.take(n), o) is Some,
    ensures
        opt_first_fault(s, o) == opt_first_fault(s.take(n), o),
    decreases s.len() - n,
{
    if n == s.len() {
        assert(s.take(n) =~= s);
    } else {
        assert(s.take(n + 1).drop_last() =~= s.take(n));
        lemma_fault_stays(s, o, n + 1);
    }
}

/// A fresh random part for each file.
pub fn fresh_tokens(n: usize) -> (r: Vec<String>)
    ensures
        r@.len() == n,
        forall|i: int| 0 <= i < n ==> (#[trigger] r@[i])@.len() == 32 && all_hex(r@[i]@),
{
    let mut out: Vec<String> = Vec::new();
    while out.len() < n
        invariant
            out@.len() <= n,
            forall|i: int| 0 <= i < out@.len() ==> (#[trigger] out@[i])@.len() == 32 && all_hex(out@[i]@),
        decreases n - out@.len(),
    {
        out.push(fresh_hex());
    }
    out
}

// --------------------------------------------------------------------- views

/// The file that an entry names, if it is one that the entry may name.
pub open spec fn stored_file(post: Text, a: AttachmentModel) -> Option<Text> {
    let prefix = "attachments/"@ + post + "/"@;
    if !begins(a.path, prefix) {
        None
    } else {
        let file = a.path.skip(prefix.len() as int);
        let dotted = a.id + "."@;
        if is_component(a.id) && is_component(file) && (file == a.id || (begins(file, dotted) && is_short_ext(
            file.skip(dotted.len() as int),
        ))) {
            Some(file)
        } else {
            None
        }
    }
}

pub fn attachment_file(post_id: &str, entry: &BbsAttachment) -> (r: Option<String>)
    ensures
        opt_text(r) == stored_file(post_id@, entry@),
{
    let file = match strip_front(&entry.path, &plus3("attachments/", post_id, "/")) {
        Some(f) => f,
        None => {
            return None;
        },
    };
    if !safe_component(&entry.id) || !safe_component(&file) {
        return None;
    }
    if same(&file, &entry.id) {
        return Some(file);
    }
    match strip_front(&file, &plus(&entry.id, ".")) {
        Some(ext) => if short_ext(&ext) {
            Some(file)
        } else {
            None
        },
        None => None,
    }
}

/// The directory of a post's copies.
pub open spec fn copies_dir(root: Text, thread: Text, post: Text) -> Text {
    root + "/threads/"@ + thread + "/attachments/"@ + post
}

/// How entries are shown. An entry that names no file of the post is left
/// out; one whose file is missing shows where it should be.
pub open spec fn shown_entries(dir: Text, post: Text, s: Seq<AttachmentModel>, found: Seq<Option<Text>>) -> Seq<
    AttachmentViewModel,
>
    decreases s.len(),
{
    if s.len() == 0 {
        Seq::empty()
    } else {
        let rest = shown_entries(dir, post, s.drop_last(), found);
        match stored_file(post, s.last()) {
            None => rest,
            Some(file) => rest.push(
                match found[s.len() - 1] {
                    Some(p) => AttachmentViewModel { attachment: s.last(), local_path: p, available: true },
                    None => AttachmentViewModel {
                        attachment: s.last(),
                        local_path: dir + "/"@ + file,
                        available: false,
                    },
                },
            ),
        }
    }
}

pub open spec fn opt_paths(v: Seq<Option<String>>) -> Seq<Option<Text>> {
    v.map_values(|s: Option<String>| opt_text(s))
}

/// The attachments of a post as they are shown. `found` gives, for each entry,
/// where its file really lies, if it lies among the post's copies.
pub fn attachment_views(
    root: &str,
    thread_id: &str,
    post_id: &str,
    entries: &Vec<BbsAttachment>,
    found: &Vec<Option<String>>,
) -> (r: Vec<BbsAttachmentView>)
    requires
        found@.len() == entries@.len(),
    ensures
        attachment_view_models(r@) == (if is_component(thread_id@) && is_component(post_id@) {
            shown_entries(
                copies_dir(root@, thread_id@, post_id@),
                post_id@,
                attachment_models(entries@),
                opt_paths(found@),
            )
        } else {
            Seq::empty()
        }),
{
    let mut out: Vec<BbsAttachmentView> = Vec::new();
    assert(attachment_view_models(out@) =~= Seq::empty());
    if !safe_component(thread_id) || !safe_component(post_id) {
        return out;
    }
    let mut dir = plus3(root, "/threads/", thread_id);
    dir.append("/attachments/");
    dir.append(post_id);
    let ghost d = copies_dir(root@, thread_id@, post_id@);
    let ghost all = attachment_models(entries@);
    let ghost paths = opt_paths(found@);
    let mut i: usize = 0;
    while i < entries.len()
        invariant
            all == attachment_models(entries@),
            paths == opt_paths(found@),
            found@.len() == entries@.len(),
            dir@ == d,
            i <= entries@.len(),
            attachment_view_models(out@) == shown_entries(d, post_id@, all.take(i as int), paths),
        decreases entries@.len() - i,
    {
        let ghost was = out@;
        assert(all.take(i + 1).drop_last() =~= all.take(i as int));
        assert(all.take(i + 1).last() == entries@[i as int]@);
        assert(paths[i as int] == opt_text(found@[i as int]));
        if let Some(file) = attachment_file(post_id, &entries[i]) {
            let view = match &found[i] {
                Some(p) => BbsAttachmentView {
                    attachment: entries[i].copy(),
                    local_path: p.clone(),
                    available: true,
                },
                None => BbsAttachmentView {
                    attachment: entries[i].copy(),
                    local_path: plus3(&dir, "/", &file),
                    available: false,
                },
            };
            out.push(view);
            assert(attachment_view_models(out@) =~= attachment_view_models(was).push(view@));
        }
        i += 1;
    }
    assert(all.take(i as int) =~= all);
    out
}

// ---------------------------------------------------------------------- laws

/// The files of a post are at most nine and at most 1 GiB together.
pub proof fn attachments_are_bounded(s: Seq<SourceModel>, looks: Seq<LookModel>)
    ensures
        opened_all(s, looks) matches Ok(v) ==> v.len() == s.len() && v.len() <= MAX_ATTACHMENTS && sizes(v)
            <= MAX_POST_ATTACHMENT_BYTES,
        validation(s, looks) matches Ok(v) ==> v.len() == s.len() && v.len() <= MAX_ATTACHMENTS && sizes(v)
            <= MAX_POST_ATTACHMENT_BYTES,
{
    lemma_validated(s, looks, false);
    lemma_validated(s, looks, true);
}

proof fn lemma_validated(s: Seq<SourceModel>, looks: Seq<LookModel>, budget: bool)
    ensures
        validated(s, looks, budget) matches Ok(v) ==> v.len() == s.len() && (budget ==> sizes(v)
            <= MAX_POST_ATTACHMENT_BYTES),
    decreases s.len(),
{
    if s.len() > 0 {
        lemma_validated(s.drop_last(), looks, budget);
        if validated(s, looks, budget) is Ok {
            let v = validated(s, looks, budget)->Ok_0;
            assert(v.drop_last() =~= validated(s.drop_last(), looks, budget)->Ok_0);
        }
    }
}

/// An entry whose path leaves the directory of its post is never shown.
pub proof fn entries_stay_with_their_post(post: Text, a: AttachmentModel)
    ensures
        stored_file(post, a) matches Some(f) ==> is_component(f) && a.path == "attachments/"@ + post + "/"@ + f,
{
    let prefix = "attachments/"@ + post + "/"@;
    if begins(a.path, prefix) {
        assert(a.path.take(prefix.len() as int) == prefix);
        assert(a.path =~= prefix + a.path.skip(prefix.len() as int));
    }
}

proof fn lemma_plain_file_name(n: Text)
    requires
        n.len() > 0,
        !n.contains('/'),
        n != "."@,
        n != ".."@,
    ensures
        file_name(n) == Some(n),
{
    a_separator_ends_a_piece(n, '/', n);
    let p = crate::text::pieces(n, '/');
    assert(p.drop_first() =~= Seq::<Text>::empty());
    let f = |part: Text| crate::path::kept(part);
    reveal(Seq::filter);
    assert(p.drop_first().filter(f) =~= Seq::<Text>::empty());
    assert(components(n) =~= seq![n]);
}

/// A name that was given is the name of the attachment, whatever its path.
/// Control characters become underscores, and 240 characters are shown.
pub proof fn a_given_name_is_kept(path: Text, n: Text, i: int)
    requires
        n.len() > 0,
        !n.contains('/'),
        n != "."@,
        n != ".."@,
    ensures
        ({
            let r = name_of(path, Some(n));
            &&& n.len() <= 240 ==> r.len() == n.len()
            &&& n.len() > 240 ==> r.len() == 240
            &&& 0 <= i < r.len() ==> r[i] == if is_control(n[i]) {
                '_'
            } else {
                n[i]
            }
        }),
        name_of(n, None) == name_of(path, Some(n)),
{
    lemma_plain_file_name(n);
}

/// A file may be attached exactly if it is a regular file of at most 1 GiB,
/// both by its path and once it is open; its size is that of the open file.
pub proof fn only_a_regular_file_is_attached(path: Text, before: FileFacts, opened: FileFacts)
    ensures
        checked(path, LookModel::Seen { before, opened: Ok(opened) }) is Ok <==> before.regular && opened.regular
            && before.size_bytes <= 1073741824 && opened.size_bytes <= 1073741824,
        checked(path, LookModel::Seen { before, opened: Ok(opened) }) matches Ok(n) ==> n == opened.size_bytes,
{
}

/// An unreadable file is refused with what went wrong.
pub proof fn an_unreadable_file_is_refused(path: Text, e: Text, before: FileFacts)
    ensures
        checked(path, LookModel::Unreadable(e)) == Err::<nat, Text>(e),
        before.regular && before.size_bytes <= 1073741824 ==> checked(path, LookModel::Seen { before, opened: Err(e) })
            == Err::<nat, Text>(e),
        checked(path, LookModel::Seen { before, opened: Err(e) }) is Err,
{
}

/// The files of a post are told in order, each with its own path, name and
/// size.
pub proof fn every_source_is_told(s: Seq<SourceModel>, looks: Seq<LookModel>, budget: bool, i: int)
    requires
        validated(s, looks, budget) is Ok,
        0 <= i < s.len(),
    ensures
        ({
            let v = validated(s, looks, budget)->Ok_0;
            &&& v.len() == s.len()
            &&& v[i].path == s[i].path
            &&& v[i].name == name_of(s[i].path, s[i].name)
            &&& checked(s[i].path, looks[i]) == Ok::<nat, Text>(v[i].size)
        }),
    decreases s.len(),
{
    let head = s.drop_last();
    lemma_validated(s, looks, budget);
    lemma_validated(head, looks, budget);
    if i < head.len() {
        every_source_is_told(head, looks, budget, i);
        assert(validated(s, looks, budget)->Ok_0[i] == validated(head, looks, budget)->Ok_0[i]);
        assert(head[i] == s[i]);
    }
}

/// The files of a post pass exactly if there are at most nine, each may be
/// attached, and together they have at most 1 GiB.
pub proof fn sound_files_pass(s: Seq<SourceModel>, looks: Seq<LookModel>)
    ensures
        opened_all(s, looks) is Ok <==> s.len() <= 9 && (forall|i: int|
            0 <= i < s.len() ==> checked((#[trigger] s[i]).path, looks[i]) is Ok) && sizes(
            validated(s, looks, false)->Ok_0,
        ) <= 1073741824,
{
    lemma_each_checked(s, looks);
}

proof fn lemma_each_checked(s: Seq<SourceModel>, looks: Seq<LookModel>)
    ensures
        validated(s, looks, false) is Ok <==> forall|i: int|
            0 <= i < s.len() ==> checked((#[trigger] s[i]).path, looks[i]) is Ok,
    decreases s.len(),
{
    if s.len() > 0 {
        let head = s.drop_last();
        lemma_each_checked(head, looks);
        assert(s[s.len() - 1] == s.last());
        assert(forall|i: int| 0 <= i < head.len() ==> head[i] == #[trigger] s[i]);
        if !(validated(head, looks, false) is Ok) {
            let i = choose|i: int| 0 <= i < head.len() && !(checked((#[trigger] head[i]).path, looks[i]) is Ok);
            assert(s[i] == head[i]);
        }
    }
}

/// A copy counts exactly if it has the size that the file had and the file did
/// not change meanwhile.
pub proof fn a_copy_counts_if_its_file_was_steady(path: Text, size: nat, o: CopyOutcome)
    ensures
        copy_fault(path, size, o) is None <==> (o matches CopyOutcome::Done { count, before, after, .. } && count == size
            && before.len == after.len && before.modified == after.modified),
{
}

/// What a post says of a copy: the name and size of the file and the hash of
/// the bytes, under an identifier of its own, below the directory of the post.
/// The entry names the copy's file.
pub proof fn an_entry_names_its_copy(post: Text, token: Text, v: ValidModel, sha256: Text)
    ensures
        ({
            let a = entry_model(post, token, v, sha256);
            &&& a.id == "att-"@ + token
            &&& a.name == v.name && a.size == v.size && a.sha256 == sha256
            &&& a.path == "attachments/"@ + post + "/"@ + copy_file(a.id, v.name)
            &&& is_component(a.id) && is_component(copy_file(a.id, v.name)) ==> stored_file(post, a) == Some(
                copy_file(a.id, v.name),
            )
        }),
{
    let a = entry_model(post, token, v, sha256);
    let prefix = "attachments/"@ + post + "/"@;
    let f = copy_file(a.id, v.name);
    reveal_strlit(".");
    assert(a.path =~= prefix + f);
    assert(a.path.take(prefix.len() as int) =~= prefix);
    assert(a.path.skip(prefix.len() as int) =~= f);
    if let Some(e) = copy_ext(v.name) {
        let dotted = a.id + "."@;
        assert(f.take(dotted.len() as int) =~= dotted);
        assert(f.skip(dotted.len() as int) =~= e);
        let x = crate::path::name_extension(file_name(v.name)->0)->0;
        assert forall|i: int| 0 <= i < e.len() implies is_alnum(#[trigger] e[i]) by {
            assert(is_alnum(x[i]));
        }
    }
}

/// The extension of a copy is that of its name in small letters, of at most 16
/// letters and digits.
pub proof fn a_copy_has_a_short_extension(name: Text, i: int)
    ensures
        copy_ext(name) matches Some(e) ==> {
            &&& 0 < e.len() <= 16
            &&& 0 <= i < e.len() ==> ('0' <= e[i] <= '9') || ('a' <= e[i] <= 'z')
            &&& file_name(name) matches Some(f) && (crate::path::name_extension(f) matches Some(x) && e == lower(x))
        },
{
    if let Some(e) = copy_ext(name) {
        let x = crate::path::name_extension(file_name(name)->0)->0;
        if 0 <= i < e.len() {
            assert(is_alnum(x[i]));
        }
    }
}

/// Every entry that names a file of its post is shown, with the file where it
/// was found, or else with the place where it should be.
pub proof fn every_sound_entry_is_shown(
    dir: Text,
    post: Text,
    s: Seq<AttachmentModel>,
    found: Seq<Option<Text>>,
    i: int,
)
    requires
        0 <= i < s.len(),
    ensures
        stored_file(post, s[i]) matches Some(file) ==> exists|k: int|
            0 <= k < shown_entries(dir, post, s, found).len() && {
                let v = #[trigger] shown_entries(dir, post, s, found)[k];
                &&& v.attachment == s[i]
                &&& v.available == (found[i] is Some)
                &&& found[i] matches Some(p) ==> v.local_path == p
                &&& found[i] is None ==> v.local_path == dir + "/"@ + file
            },
        shown_entries(dir, post, s, found).len() <= s.len(),
    decreases s.len(),
{
    let head = s.drop_last();
    let rest = shown_entries(dir, post, head, found);
    let out = shown_entries(dir, post, s, found);
    if head.len() > 0 {
        every_sound_entry_is_shown(
            dir,
            post,
            head,
            found,
            if i < head.len() {
                i
            } else {
                0
            },
        );
    }
    if i < head.len() {
        assert(head[i] == s[i]);
        if stored_file(post, s[i]) is Some {
            let file = stored_file(post, s[i])->0;
            let k = choose|k: int|
                0 <= k < rest.len() && {
                    let v = #[trigger] rest[k];
                    &&& v.attachment == s[i]
                    &&& v.available == (found[i] is Some)
                    &&& found[i] matches Some(p) ==> v.local_path == p
                    &&& found[i] is None ==> v.local_path == dir + "/"@ + file
                };
            assert(out[k] == rest[k]);
        }
    } else if stored_file(post, s[i]) is Some {
        assert(out[rest.len() as int].attachment == s[i]);
    }
}

/// The copies of a post lie below its thread.
pub proof fn copies_lie_below_their_thread(root: Text, thread: Text, post: Text)
    ensures
        begins(copies_dir(root, thread, post), root + "/threads/"@ + thread + "/"@),
        crate::text::ends(copies_dir(root, thread, post), "/"@ + post),
{
    reveal_strlit("/attachments/");
    reveal_strlit("/");
    let d = copies_dir(root, thread, post);
    let a = root + "/threads/"@ + thread + "/"@;
    assert(d.take(a.len() as int) =~= a);
    let b = "/"@ + post;
    assert(d.skip(d.len() - b.len()) =~= b);
}

} // verus!
