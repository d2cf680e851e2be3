//! What is kept of a notice until it is delivered.
use vstd::prelude::*;
use crate::bbs::mentions::{fault_of, mention_fault, Mention, MentionModel};
use crate::bbs::sync::model::{tkey, version_key, FileStamp, LedgerEntry, RowModel, StateModel, SyncState};
use crate::ids::{is_component, is_hash, is_safe_id, safe_component, valid_hash};
use crate::order::{list_before, Key, Parts};
use crate::outside::{json_five, sha256, sha256_hex, to_json_five};
use crate::text::{char_count, copy_opt, decimal, opt_text, own, plus, same, texts, to_decimal, Text};

verus! {

pub const SCHEMA: u32 = 1;

/// The longest body that a notice carries, 16 KiB.
pub const BODY_BUDGET: u64 = 16384;

/// How long a notice waits for attachments, in milliseconds.
pub const ATTACHMENT_WAIT_MS: i64 = 10000;

/// How long a notice waits for its post, in milliseconds.
pub const ORPHAN_WAIT_MS: i64 = 600000;

pub const ATTACHMENT_WARNING: &'static str = "Some attachments in this thread have not synced yet. Check first.";

// --------------------------------------------------------------- destination

/// The post of a notice and the agent it is for.
pub struct Destination {
    pub thread_id: String,
    pub post_id: String,
    pub target: Mention,
}

pub struct DestinationModel {
    pub thread: Text,
    pub post: Text,
    pub target: MentionModel,
}

impl View for Destination {
    type V = DestinationModel;

    open spec fn view(&self) -> DestinationModel {
        DestinationModel { thread: self.thread_id@, post: self.post_id@, target: self.target@ }
    }
}

/// One key for one post and one agent, made of all five names.
pub open spec fn destination_key(d: DestinationModel) -> Text {
    sha256(json_five(d.thread, d.post, d.target.device, d.target.project, d.target.agent))
}

pub open spec fn destination_fault(d: DestinationModel) -> Option<Text> {
    if !is_component(d.thread) || !is_component(d.post) {
        Some("invalid_notification_identity"@)
    } else {
        mention_fault(d.target)
    }
}

impl Destination {
    pub fn key(&self) -> (r: String)
        ensures
            r@ == destination_key(self@),
            is_hash(r@),
    {
        let json = to_json_five(
            &self.thread_id,
            &self.post_id,
            &self.target.device_id,
            &self.target.project_id,
            &self.target.agent_id,
        );
        sha256_hex(json.as_slice())
    }

    pub fn validate(&self) -> (r: Result<(), String>)
        ensures
            fault_of(r) == destination_fault(self@),
    {
        if !safe_component(&self.thread_id) || !safe_component(&self.post_id) {
            return Err(own("invalid_notification_identity"));
        }
        self.target.validate()
    }

    pub fn copy(&self) -> (r: Destination)
        ensures
            r == *self,
    {
        Destination {
            thread_id: self.thread_id.clone(),
            post_id: self.post_id.clone(),
            target: self.target.copy(),
        }
    }
}

// -------------------------------------------------------------------- author

/// Who wrote the post, as far as this device can tell. Forwarded bytes do not
/// show on which device they were written.
pub struct Author {
    pub project_id: String,
    pub project_name: String,
    pub agent_id: String,
    pub agent_name: String,
    pub local: bool,
    pub local_device_id: Option<String>,
    pub received_via: Option<String>,
}

impl Author {
    pub fn copy(&self) -> (r: Author)
        ensures
            r == *self,
    {
        Author {
            project_id: self.project_id.clone(),
            project_name: self.project_name.clone(),
            agent_id: self.agent_id.clone(),
            agent_name: self.agent_name.clone(),
            local: self.local,
            local_device_id: copy_opt(&self.local_device_id),
            received_via: copy_opt(&self.received_via),
        }
    }
}

// ------------------------------------------------------------------- waiting

/// An attachment that a notice waits for.
pub struct WaitingAttachment {
    pub post_id: String,
    pub version_id: String,
    pub attachment_id: String,
    pub sha256: String,
    pub size_bytes: u64,
}

pub struct WaitingModel {
    pub post: Text,
    pub version: Text,
    pub attachment: Text,
    pub sha256: Text,
    pub size: nat,
}

impl View for WaitingAttachment {
    type V = WaitingModel;

    open spec fn view(&self) -> WaitingModel {
        WaitingModel {
            post: self.post_id@,
            version: self.version_id@,
            attachment: self.attachment_id@,
            sha256: self.sha256@,
            size: self.size_bytes as nat,
        }
    }
}

/// The attachment's bytes are on this device.
pub open spec fn is_verified(s: StateModel, w: WaitingModel) -> bool {
    let k = tkey(version_key(w.post, w.version));
    &&& is_safe_id(w.post) && is_hash(w.version)
    &&& s.ledger.contains_key(k)
    &&& row_verifies(s.ledger[k], w)
}

pub open spec fn row_verifies(row: RowModel, w: WaitingModel) -> bool {
    let a = tkey(w.attachment);
    &&& row.attachments.contains_key(a)
    &&& row.attachments[a].verified
    &&& row.attachments[a].sha256 == w.sha256
    &&& row.attachments[a].size == w.size
}

impl WaitingAttachment {
    pub fn verified(&self, state: &SyncState) -> (r: bool)
        requires
            state.wf(),
        ensures
            r == is_verified(state@, self@),
    {
        if LedgerEntry::version_key(&self.post_id, &self.version_id).is_none() {
            return false;
        }
        match state.row(&self.post_id, &self.version_id) {
            None => false,
            Some(row) => {
                let k = self.attachment_id.clone();
                match row.attachments.get(&k) {
                    None => false,
                    Some(a) => a.verified && same(&a.sha256, &self.sha256) && a.size_bytes == self.size_bytes,
                }
            },
        }
    }

    pub fn copy(&self) -> (r: WaitingAttachment)
        ensures
            r == *self,
    {
        WaitingAttachment {
            post_id: self.post_id.clone(),
            version_id: self.version_id.clone(),
            attachment_id: self.attachment_id.clone(),
            sha256: self.sha256.clone(),
            size_bytes: self.size_bytes,
        }
    }
}

/// Twenty digits, with zeros in front.
pub open spec fn padded(n: nat) -> Text {
    let d = decimal(n);
    if d.len() >= 20 {
        d
    } else {
        Seq::new((20 - d.len()) as nat, |i: int| '0') + d
    }
}

fn to_padded(n: u64) -> (r: String)
    ensures
        r@ == padded(n as nat),
{
    let d = to_decimal(n);
    let len = char_count(&d);
    if len >= 20 {
        return d;
    }
    let mut out = String::new();
    let mut i: usize = len;
    assert(out@ =~= Seq::new(0, |i: int| '0'));
    while i < 20
        invariant
            len <= i <= 20,
            out@ == Seq::new((i - len) as nat, |i: int| '0'),
        decreases 20 - i,
    {
        out.push('0');
        i += 1;
        assert(out@ =~= Seq::new((i - len) as nat, |i: int| '0'));
    }
    plus(&out, &d)
}

pub open spec fn waiting_key(w: WaitingModel) -> Parts {
    seq![w.post, w.version, w.attachment, w.sha256, padded(w.size)]
}

fn waiting_texts(w: &WaitingAttachment) -> (r: Vec<String>)
    ensures
        texts(r@) == waiting_key(w@),
{
    let mut v: Vec<String> = Vec::new();
    v.push(w.post_id.clone());
    v.push(w.version_id.clone());
    v.push(w.attachment_id.clone());
    v.push(w.sha256.clone());
    v.push(to_padded(w.size_bytes));
    assert(texts(v@) =~= waiting_key(w@));
    v
}

impl Key for WaitingAttachment {
    open spec fn key(&self) -> Parts {
        waiting_key(self@)
    }

    open spec fn order_of(k: Parts) -> Parts {
        k
    }

    proof fn order_tells(a: Self, b: Self) {
    }

    fn is_before(&self, other: &Self) -> (r: bool) {
        list_before(&waiting_texts(self), &waiting_texts(other))
    }

    fn is_same(&self, other: &Self) -> (r: bool) {
        crate::order::list_same(&waiting_texts(self), &waiting_texts(other))
    }

    fn copy_key(&self) -> (r: Self) {
        self.copy()
    }
}

pub open spec fn mention_key(m: MentionModel) -> Parts {
    seq![m.device, m.project, m.agent]
}

fn mention_texts(m: &Mention) -> (r: Vec<String>)
    ensures
        texts(r@) == mention_key(m@),
{
    let mut v: Vec<String> = Vec::new();
    v.push(m.device_id.clone());
    v.push(m.project_id.clone());
    v.push(m.agent_id.clone());
    assert(texts(v@) =~= mention_key(m@));
    v
}

impl Key for Mention {
    open spec fn key(&self) -> Parts {
        mention_key(self@)
    }

    open spec fn order_of(k: Parts) -> Parts {
        k
    }

    proof fn order_tells(a: Self, b: Self) {
    }

    fn is_before(&self, other: &Self) -> (r: bool) {
        list_before(&mention_texts(self), &mention_texts(other))
    }

    fn is_same(&self, other: &Self) -> (r: bool) {
        crate::order::list_same(&mention_texts(self), &mention_texts(other))
    }

    fn copy_key(&self) -> (r: Self) {
        self.copy()
    }
}

pub open spec fn waiting_models(s: Seq<WaitingAttachment>) -> Seq<WaitingModel> {
    s.map_values(|w: WaitingAttachment| w@)
}

// -------------------------------------------------------------------- record

/// A notice on its way.
pub struct Record {
    pub schema_version: u32,
    pub destination: Destination,
    pub version_id: String,
    pub author: Author,
    /// Where the body begins in the post's file.
    pub body_offset: u64,
    pub file_size: u64,
    pub created_at_ms: i64,
    /// When the notice stops waiting for attachments. Neither a repetition nor
    /// a later post puts it off.
    pub deadline_ms: i64,
    pub waiting: Vec<WaitingAttachment>,
    /// The post is there, and `proof` is its file.
    pub ready: bool,
    pub proof: Option<FileStamp>,
    pub owner_run: Option<String>,
    pub result: Option<String>,
}

pub struct NoticeModel {
    pub schema: u32,
    pub destination: DestinationModel,
    pub version: Text,
    pub author: Author,
    pub body_offset: u64,
    pub file_size: u64,
    pub created: i64,
    pub deadline: i64,
    pub waiting: Seq<WaitingModel>,
    pub ready: bool,
    pub proof: Option<FileStamp>,
    pub owner: Option<Text>,
    pub result: Option<Text>,
}

impl View for Record {
    type V = NoticeModel;

    open spec fn view(&self) -> NoticeModel {
        NoticeModel {
            schema: self.schema_version,
            destination: self.destination@,
            version: self.version_id@,
            author: self.author,
            body_offset: self.body_offset,
            file_size: self.file_size,
            created: self.created_at_ms,
            deadline: self.deadline_ms,
            waiting: waiting_models(self.waiting@),
            ready: self.ready,
            proof: self.proof,
            owner: opt_text(self.owner_run),
            result: opt_text(self.result),
        }
    }
}

/// Why a stored notice is refused.
pub open spec fn record_fault(n: NoticeModel, key: Text) -> Option<Text> {
    if destination_fault(n.destination) is Some {
        destination_fault(n.destination)
    } else if !is_hash(n.version) {
        Some("invalid_hash"@)
    } else if n.schema != SCHEMA || destination_key(n.destination) != key || n.body_offset > n.file_size || n.created < 0
        || n.deadline < n.created || (n.ready && n.proof is None) {
        Some("invalid_notification_record"@)
    } else {
        waiting_fault(n.waiting)
    }
}

/// Why what a notice waits for is refused: the first fault.
pub open spec fn waiting_fault(s: Seq<WaitingModel>) -> Option<Text>
    decreases s.len(),
{
    if s.len() == 0 {
        None
    } else {
        match waiting_fault(s.drop_last()) {
            Some(e) => Some(e),
            None => if !is_component(s.last().post) || !is_component(s.last().attachment) {
                Some("invalid_notification_attachment"@)
            } else if !is_hash(s.last().version) || !is_hash(s.last().sha256) {
                Some("invalid_hash"@)
            } else {
                None
            },
        }
    }
}

proof fn lemma_waiting_fault(s: Seq<WaitingModel>, n: int)
    requires
        0 <= n <= s.len(),
        waiting_fault(s.take(n)) is Some,
    ensures
        waiting_fault(s) == waiting_fault(s.take(n)),
    decreases s.len() - n,
{
    if n == s.len() {
        assert(s.take(n) =~= s);
    } else {
        assert(s.take(n + 1).drop_last() =~= s.take(n));
        lemma_waiting_fault(s, n + 1);
    }
}

/// Some attachment is still missing.
pub open spec fn is_missing(s: StateModel, n: NoticeModel) -> bool {
    exists|i: int| 0 <= i < n.waiting.len() && !is_verified(s, #[trigger] n.waiting[i])
}

pub open spec fn event_of(d: DestinationModel) -> Text {
    "bbs-mention:"@ + destination_key(d)
}

impl Record {
    pub fn validate(&self, key: &str) -> (r: Result<(), String>)
        ensures
            fault_of(r) == record_fault(self@, key@),
    {
        match self.destination.validate() {
            Ok(_) => {},
            Err(e) => {
                return Err(e);
            },
        }
        if !valid_hash(&self.version_id) {
            return Err(own("invalid_hash"));
        }
        if self.schema_version != SCHEMA || !same(&self.destination.key(), key) || self.body_offset > self.file_size
            || self.created_at_ms < 0 || self.deadline_ms < self.created_at_ms || (self.ready && self.proof.is_none()) {
            return Err(own("invalid_notification_record"));
        }
        let ghost all = self@.waiting;
        let mut i: usize = 0;
        while i < self.waiting.len()
            invariant
                all == waiting_models(self.waiting@),
                i <= self.waiting@.len(),
                waiting_fault(all.take(i as int)) is None,
                self@.waiting == all,
                record_fault(self@, key@) == waiting_fault(all),
            decreases self.waiting@.len() - i,
        {
            let a = &self.waiting[i];
            assert(all.take(i + 1).drop_last() =~= all.take(i as int));
            assert(all.take(i + 1).last() == a@);
            proof {
                if waiting_fault(all.take(i + 1)) is Some {
                    lemma_waiting_fault(all, i + 1);
                }
            }
            if !safe_component(&a.post_id) || !safe_component(&a.attachment_id) {
                return Err(own("invalid_notification_attachment"));
            }
            if !valid_hash(&a.version_id) || !valid_hash(&a.sha256) {
                return Err(own("invalid_hash"));
            }
            i += 1;
        }
        assert(all.take(i as int) =~= all);
        Ok(())
    }

    pub fn missing(&self, state: &SyncState) -> (r: bool)
        requires
            state.wf(),
        ensures
            r == is_missing(state@, self@),
    {
        let mut i: usize = 0;
        while i < self.waiting.len()
            invariant
                state.wf(),
                i <= self.waiting@.len(),
                forall|j: int| 0 <= j < i ==> is_verified(state@, #[trigger] self@.waiting[j]),
            decreases self.waiting@.len() - i,
        {
            assert(self@.waiting[i as int] == self.waiting@[i as int]@);
            if !self.waiting[i].verified(state) {
                return true;
            }
            i += 1;
        }
        false
    }

    pub fn event_id(&self) -> (r: String)
        ensures
            r@ == event_of(self@.destination),
    {
        plus("bbs-mention:", &self.destination.key())
    }

    pub fn copy(&self) -> (r: Record)
        ensures
            r@ == self@,
    {
        let mut waiting: Vec<WaitingAttachment> = Vec::new();
        let mut i: usize = 0;
        while i < self.waiting.len()
            invariant
                i <= self.waiting@.len(),
                waiting@ == self.waiting@.take(i as int),
            decreases self.waiting@.len() - i,
        {
            waiting.push(self.waiting[i].copy());
            i += 1;
            assert(waiting@ =~= self.waiting@.take(i as int));
        }
        assert(self.waiting@.take(i as int) =~= self.waiting@);
        Record {
            schema_version: self.schema_version,
            destination: self.destination.copy(),
            version_id: self.version_id.clone(),
            author: self.author.copy(),
            body_offset: self.body_offset,
            file_size: self.file_size,
            created_at_ms: self.created_at_ms,
            deadline_ms: self.deadline_ms,
            waiting,
            ready: self.ready,
            proof: self.proof,
            owner_run: copy_opt(&self.owner_run),
            result: copy_opt(&self.result),
        }
    }
}

/// What a notice waits for is there exactly if the ledger has that version of
/// that post with the attachment as verified bytes of the same hash and size.
pub proof fn an_attachment_is_there_if_the_ledger_verified_it(s: StateModel, w: WaitingModel)
    requires
        is_safe_id(w.post),
        is_hash(w.version),
    ensures
        ({
            let k = tkey(version_key(w.post, w.version));
            let a = tkey(w.attachment);
            &&& is_verified(s, w) ==> s.ledger.contains_key(k) && s.ledger[k].attachments.contains_key(a) && {
                let e = s.ledger[k].attachments[a];
                e.verified && e.sha256 == w.sha256 && e.size == w.size
            }
            &&& !is_verified(s, w) && s.ledger.contains_key(k) && s.ledger[k].attachments.contains_key(a) ==> {
                let e = s.ledger[k].attachments[a];
                !e.verified || e.sha256 != w.sha256 || e.size != w.size
            }
        }),
{
}

proof fn lemma_waiting_sound(s: Seq<WaitingModel>)
    ensures
        waiting_fault(s) is None <==> forall|i: int|
            0 <= i < s.len() ==> is_component((#[trigger] s[i]).post) && is_component(s[i].attachment) && is_hash(
                s[i].version,
            ) && is_hash(s[i].sha256),
    decreases s.len(),
{
    if s.len() > 0 {
        let t = s.drop_last();
        lemma_waiting_sound(t);
        assert(s[s.len() - 1] == s.last());
        assert(forall|i: int| 0 <= i < t.len() ==> t[i] == #[trigger] s[i]);
        if waiting_fault(t) is Some {
            let i = choose|i: int|
                0 <= i < t.len() && !(is_component((#[trigger] t[i]).post) && is_component(t[i].attachment) && is_hash(
                    t[i].version,
                ) && is_hash(t[i].sha256));
            assert(s[i] == t[i]);
        }
    }
}

/// A stored notice is trusted exactly if its names are sound, it is stored
/// under its own key, its body lies within its file, its times are in order,
/// it has a proof once it is ready, and what it waits for is named soundly.
pub proof fn only_a_sound_notice_is_trusted(n: NoticeModel, key: Text)
    ensures
        record_fault(n, key) is None <==> {
            &&& is_component(n.destination.thread) && is_component(n.destination.post)
            &&& mention_fault(n.destination.target) is None
            &&& is_hash(n.version)
            &&& n.schema == 1
            &&& key == destination_key(n.destination)
            &&& n.body_offset <= n.file_size
            &&& 0 <= n.created <= n.deadline
            &&& n.ready ==> n.proof is Some
            &&& forall|i: int|
                0 <= i < n.waiting.len() ==> is_component((#[trigger] n.waiting[i]).post) && is_component(
                    n.waiting[i].attachment,
                ) && is_hash(n.waiting[i].version) && is_hash(n.waiting[i].sha256)
        },
{
    lemma_waiting_sound(n.waiting);
}

/// A notice misses something exactly if one of the attachments it waits for is
/// not there; with nothing to wait for nothing is missing.
pub proof fn nothing_is_missing_once_all_is_there(s: StateModel, n: NoticeModel, i: int)
    ensures
        n.waiting.len() == 0 ==> !is_missing(s, n),
        0 <= i < n.waiting.len() && !is_verified(s, n.waiting[i]) ==> is_missing(s, n),
        !is_missing(s, n) && 0 <= i < n.waiting.len() ==> is_verified(s, n.waiting[i]),
{
}

} // verus!
