//! The intent to deliver a notice, kept before its post is published.
use vstd::prelude::*;
use crate::bbs::mentions::{is_received_here, lists, mention_models, Mention, MentionModel};
use crate::bbs::notify::record::{destination_key, is_verified, mention_key, record_fault, waiting_key};
use crate::bbs::notify::record::{waiting_models, ATTACHMENT_WAIT_MS, Author, Destination, DestinationModel};
use crate::bbs::notify::record::{NoticeModel, Record, SCHEMA, WaitingAttachment, WaitingModel};
use crate::bbs::notify::store::{one_phase, same_notice, Queue, QueueModel};
use crate::bbs::sync::model::{lemma_at, lemma_found, suppressed, tkey, FileStamp, LedgerEntry, RefModel, RowModel};
use crate::bbs::sync::model::{StateModel, SyncState};
use crate::bbs::types::{AttachmentModel, BbsPostMeta, PostModel};
use crate::order::{Key, Parts};
use crate::sort::{in_order, lemma_sorted_map, rank_fn, sorted_by, sorting_orders_and_keeps, stable_sort, Ranked};
use crate::text::{copy_opt, opt_text, own, same, texts, Text};

verus! {

// ------------------------------------------------------------------ addressees

/// A mention is for an agent of this device. In a post that was written here
/// `local` means this device; in a received one it means nobody.
pub open spec fn is_addressee(m: MentionModel, local: bool, device: Option<Text>) -> bool {
    if local {
        m.device == "local"@ || device == Some(m.device)
    } else {
        device matches Some(d) && is_received_here(m, d)
    }
}

/// The mentions for this device, each once.
pub open spec fn addressees(s: Seq<MentionModel>, local: bool, device: Option<Text>) -> Seq<MentionModel>
    decreases s.len(),
{
    if s.len() == 0 {
        Seq::empty()
    } else {
        let rest = addressees(s.drop_last(), local, device);
        if is_addressee(s.last(), local, device) && !rest.contains(s.last()) {
            rest.push(s.last())
        } else {
            rest
        }
    }
}

pub open spec fn mention_rank_fn() -> spec_fn(MentionModel) -> Parts {
    |m: MentionModel| mention_key(m)
}

/// The mentions for this device in order.
pub open spec fn selected(s: Seq<MentionModel>, local: bool, device: Option<Text>) -> Seq<MentionModel> {
    sorted_by(addressees(s, local, device), mention_rank_fn())
}

impl Ranked for Mention {
    open spec fn rank(&self) -> Parts {
        mention_key(self@)
    }

    fn rank_before(&self, other: &Self) -> (r: bool) {
        self.is_before(other)
    }
}

fn addressed(m: &Mention, local: bool, device: &Option<String>) -> (r: bool)
    ensures
        r == is_addressee(m@, local, opt_text(*device)),
{
    match device {
        Some(d) => if local {
            same(&m.device_id, "local") || same(&m.device_id, d)
        } else {
            m.received_here(d)
        },
        None => local && same(&m.device_id, "local"),
    }
}

pub fn select(mentions: &Vec<Mention>, local: bool, device: &Option<String>) -> (r: Vec<Mention>)
    ensures
        mention_models(r@) == selected(mention_models(mentions@), local, opt_text(*device)),
{
    let ghost all = mention_models(mentions@);
    let ghost d = opt_text(*device);
    let mut out: Vec<Mention> = Vec::new();
    let mut i: usize = 0;
    assert(mention_models(out@) =~= Seq::empty());
    while i < mentions.len()
        invariant
            all == mention_models(mentions@),
            d == opt_text(*device),
            i <= mentions@.len(),
            mention_models(out@) == addressees(all.take(i as int), local, d),
        decreases mentions@.len() - i,
    {
        let ghost was = out@;
        assert(all.take(i + 1).drop_last() =~= all.take(i as int));
        assert(all.take(i + 1).last() == mentions@[i as int]@);
        if addressed(&mentions[i], local, device) && !lists(&out, &mentions[i]) {
            out.push(mentions[i].copy());
            assert(mention_models(out@) =~= mention_models(was).push(mentions@[i as int]@));
        }
        i += 1;
    }
    assert(all.take(i as int) =~= all);
    let ghost picked = out@;
    let sorted = stable_sort(out);
    proof {
        let f = |m: Mention| m@;
        assert forall|m: Mention| #[trigger] rank_fn::<Mention>()(m) == mention_rank_fn()(f(m)) by {}
        lemma_sorted_map(picked, f, rank_fn::<Mention>(), mention_rank_fn());
        assert(mention_models(sorted@) =~= sorted@.map_values(f));
        assert(mention_models(picked) =~= picked.map_values(f));
    }
    sorted
}

/// The keys of the notices that a post has on this device.
pub open spec fn post_keys(m: PostModel, local: bool, device: Option<Text>) -> Seq<Text> {
    selected(m.mentions, local, device).map_values(
        |target: MentionModel| destination_key(DestinationModel { thread: m.thread_id, post: m.post_id, target }),
    )
}

/// Which notices preparing a post looks at.
pub fn keys_of_post(meta: &BbsPostMeta, local: bool, device: &Option<String>) -> (r: Vec<String>)
    ensures
        texts(r@) == post_keys(meta@, local, opt_text(*device)),
{
    let targets = select(&meta.mentions, local, device);
    let ghost chosen = mention_models(targets@);
    let ghost all = post_keys(meta@, local, opt_text(*device));
    let mut keys: Vec<String> = Vec::new();
    let mut i: usize = 0;
    assert(texts(keys@) =~= all.take(0));
    while i < targets.len()
        invariant
            chosen == mention_models(targets@),
            chosen == selected(meta@.mentions, local, opt_text(*device)),
            all == post_keys(meta@, local, opt_text(*device)),
            i <= targets@.len(),
            texts(keys@) == all.take(i as int),
        decreases targets@.len() - i,
    {
        let ghost was = keys@;
        let destination = Destination {
            thread_id: meta.thread_id.clone(),
            post_id: meta.post_id.clone(),
            target: targets[i].copy(),
        };
        assert(chosen[i as int] == targets@[i as int]@);
        let key = destination.key();
        assert(key@ == all[i as int]);
        keys.push(key);
        i += 1;
        assert(texts(keys@) =~= texts(was).push(key@));
        assert(all.take(i as int) =~= all.take(i - 1).push(all[i - 1]));
    }
    assert(all.take(i as int) =~= all);
    keys
}

// ------------------------------------------------------------------- waiting

pub open spec fn waiting_of(post: Text, version: Text, a: RefModel) -> WaitingModel {
    WaitingModel { post, version, attachment: a.id, sha256: a.sha256, size: a.size }
}

pub open spec fn own_waiting(post: Text, version: Text, a: AttachmentModel) -> WaitingModel {
    WaitingModel { post, version, attachment: a.id, sha256: a.sha256, size: a.size }
}

/// A version of the thread that is there and not deleted.
pub open spec fn is_present(s: StateModel, row: RowModel, thread: Text) -> bool {
    &&& row.thread_id == thread
    &&& row.body_stamp is Some
    &&& !suppressed(s, row.thread_id, row.post_id, row.version_id)
}

/// An attachment of a version that the ledger describes.
pub open spec fn described(row: RowModel, w: WaitingModel) -> bool {
    row.descriptor matches Some(p) && exists|i: int|
        0 <= i < p.attachments.len() && w == #[trigger] waiting_of(p.post_id, p.version_id, p.attachments[i])
}

/// A received notice waits for every attachment of the thread that is not
/// there yet, and for those of its own post.
pub open spec fn awaited(s: StateModel, m: PostModel, version: Text, w: WaitingModel) -> bool {
    ||| exists|i: int| 0 <= i < m.attachments.len() && w == #[trigger] own_waiting(m.post_id, version, m.attachments[i])
    ||| !is_verified(s, w) && exists|k: Parts|
        #[trigger] s.ledger.contains_key(k) && is_present(s, s.ledger[k], m.thread_id) && described(s.ledger[k], w)
}

pub open spec fn waiting_rank_fn() -> spec_fn(WaitingModel) -> Parts {
    |w: WaitingModel| waiting_key(w)
}

impl Ranked for WaitingAttachment {
    open spec fn rank(&self) -> Parts {
        waiting_key(self@)
    }

    fn rank_before(&self, other: &Self) -> (r: bool) {
        self.is_before(other)
    }
}

fn same_waiting(a: &WaitingAttachment, b: &WaitingAttachment) -> (r: bool)
    ensures
        r == (a@ == b@),
{
    same(&a.post_id, &b.post_id) && same(&a.version_id, &b.version_id) && same(&a.attachment_id, &b.attachment_id)
        && same(&a.sha256, &b.sha256) && a.size_bytes == b.size_bytes
}

/// Add an attachment to a list unless it stands there.
fn add_waiting(v: &mut Vec<WaitingAttachment>, w: WaitingAttachment)
    requires
        waiting_models(old(v)@).no_duplicates(),
    ensures
        waiting_models(final(v)@).no_duplicates(),
        forall|x: WaitingModel|
            #[trigger] waiting_models(final(v)@).contains(x) <==> x == w@ || waiting_models(old(v)@).contains(x),
{
    let ghost was = v@;
    let ghost all = waiting_models(v@);
    let mut i: usize = 0;
    while i < v.len()
        invariant
            v@ == was,
            all == waiting_models(was),
            all.no_duplicates(),
            i <= v@.len(),
            forall|j: int| 0 <= j < i ==> #[trigger] all[j] != w@,
        decreases v@.len() - i,
    {
        assert(all[i as int] == v@[i as int]@);
        if same_waiting(&v[i], &w) {
            assert(all.contains(w@));
            return;
        }
        i += 1;
    }
    v.push(w);
    let ghost now = waiting_models(v@);
    proof {
        assert(now =~= all.push(w@));
        assert forall|x: WaitingModel| #[trigger] now.contains(x) <==> x == w@ || all.contains(x) by {
            if now.contains(x) {
                let j = choose|j: int| 0 <= j < now.len() && now[j] == x;
                if j < all.len() {
                    assert(all[j] == x);
                }
            }
            if all.contains(x) {
                let j = choose|j: int| 0 <= j < all.len() && all[j] == x;
                assert(now[j] == x);
            }
            if x == w@ {
                assert(now[all.len() as int] == x);
            }
        }
    }
}

/// Everything described by the first `n` entries of the ledger.
pub open spec fn awaited_from(s: StateModel, rows: Seq<(String, LedgerEntry)>, n: int, thread: Text, w: WaitingModel) -> bool {
    !is_verified(s, w) && exists|j: int|
        0 <= j < n && is_present(s, (#[trigger] rows[j]).1@, thread) && described(rows[j].1@, w)
}

/// The missing attachments of one version.
fn add_missing(v: &mut Vec<WaitingAttachment>, state: &SyncState, row: &LedgerEntry)
    requires
        state.wf(),
        waiting_models(old(v)@).no_duplicates(),
    ensures
        waiting_models(final(v)@).no_duplicates(),
        forall|x: WaitingModel|
            #[trigger] waiting_models(final(v)@).contains(x) <==> waiting_models(old(v)@).contains(x) || (!is_verified(
                state@,
                x,
            ) && described(row@, x)),
{
    let ghost start = waiting_models(v@);
    let p = match &row.descriptor {
        Some(p) => p,
        None => {
            return;
        },
    };
    let ghost pm = p@;
    let mut i: usize = 0;
    while i < p.attachments.len()
        invariant
            state.wf(),
            pm == p@,
            i <= p.attachments@.len(),
            waiting_models(v@).no_duplicates(),
            forall|x: WaitingModel|
                #[trigger] waiting_models(v@).contains(x) <==> start.contains(x) || (!is_verified(state@, x) && exists|
                    j: int,
                |
                    0 <= j < i && x == #[trigger] waiting_of(pm.post_id, pm.version_id, pm.attachments[j])),
        decreases p.attachments@.len() - i,
    {
        let a = &p.attachments[i];
        let w = WaitingAttachment {
            post_id: p.post_id.clone(),
            version_id: p.version_id.clone(),
            attachment_id: a.id.clone(),
            sha256: a.sha256.clone(),
            size_bytes: a.size_bytes,
        };
        assert(pm.attachments[i as int] == a@);
        let ghost wm = waiting_of(pm.post_id, pm.version_id, pm.attachments[i as int]);
        assert(w@ == wm);
        let ghost before = waiting_models(v@);
        if !w.verified(state) {
            add_waiting(v, w);
        }
        proof {
            assert forall|x: WaitingModel|
                #[trigger] waiting_models(v@).contains(x) <==> start.contains(x) || (!is_verified(state@, x) && exists|
                    j: int,
                |
                    0 <= j < i + 1 && x == #[trigger] waiting_of(pm.post_id, pm.version_id, pm.attachments[j])) by {
                assert(before.contains(x) <==> start.contains(x) || (!is_verified(state@, x) && exists|j: int|
                    0 <= j < i && x == #[trigger] waiting_of(pm.post_id, pm.version_id, pm.attachments[j])));
                if x == wm && !is_verified(state@, x) {
                    assert(waiting_models(v@).contains(x));
                }
            }
        }
        i += 1;
    }
}

/// What a received notice waits for, in order.
pub fn awaited_attachments(state: &SyncState, meta: &BbsPostMeta, version: &str) -> (r: Vec<WaitingAttachment>)
    requires
        state.wf(),
    ensures
        in_order(waiting_models(r@), waiting_rank_fn()),
        waiting_models(r@).no_duplicates(),
        forall|w: WaitingModel|
            #[trigger] waiting_models(r@).contains(w) <==> awaited(state@, meta@, version@, w),
{
    let ghost s = state@;
    let ghost m = meta@;
    let rows = &state.ledger.entries;
    let mut out: Vec<WaitingAttachment> = Vec::new();
    let mut i: usize = 0;
    assert(waiting_models(out@) =~= Seq::empty());
    while i < rows.len()
        invariant
            state.wf(),
            s == state@,
            rows == state.ledger.entries,
            m == meta@,
            i <= rows@.len(),
            waiting_models(out@).no_duplicates(),
            forall|w: WaitingModel|
                #[trigger] waiting_models(out@).contains(w) <==> awaited_from(s, rows@, i as int, m.thread_id, w),
        decreases rows@.len() - i,
    {
        let row = &rows[i].1;
        let ghost before = waiting_models(out@);
        let present = same(&row.thread_id, &meta.thread_id) && row.body_stamp.is_some() && !state.suppressed(
            &row.thread_id,
            &row.post_id,
            &row.version_id,
        );
        if present {
            add_missing(&mut out, state, row);
        }
        proof {
            assert forall|w: WaitingModel|
                #[trigger] waiting_models(out@).contains(w) <==> awaited_from(s, rows@, i + 1, m.thread_id, w) by {
                assert(before.contains(w) <==> awaited_from(s, rows@, i as int, m.thread_id, w));
                if awaited_from(s, rows@, i + 1, m.thread_id, w) {
                    let j = choose|j: int|
                        0 <= j < i + 1 && is_present(s, (#[trigger] rows@[j]).1@, m.thread_id) && described(
                            rows@[j].1@,
                            w,
                        );
                    if j < i {
                        assert(awaited_from(s, rows@, i as int, m.thread_id, w));
                    }
                }
                if awaited_from(s, rows@, i as int, m.thread_id, w) {
                    let j = choose|j: int|
                        0 <= j < i && is_present(s, (#[trigger] rows@[j]).1@, m.thread_id) && described(rows@[j].1@, w);
                    assert(is_present(s, rows@[j].1@, m.thread_id));
                }
            }
        }
        i += 1;
    }
    let ghost from_rows = waiting_models(out@);
    let n: usize = meta.attachments.len();
    i = 0;
    while i < n
        invariant
            n == meta.attachments@.len(),
            m == meta@,
            i <= n,
            waiting_models(out@).no_duplicates(),
            forall|w: WaitingModel|
                #[trigger] waiting_models(out@).contains(w) <==> from_rows.contains(w) || exists|j: int|
                    0 <= j < i && w == #[trigger] own_waiting(m.post_id, version@, m.attachments[j]),
        decreases n - i,
    {
        let a = &meta.attachments[i];
        let w = WaitingAttachment {
            post_id: meta.post_id.clone(),
            version_id: own(version),
            attachment_id: a.id.clone(),
            sha256: a.sha256.clone(),
            size_bytes: a.size_bytes,
        };
        assert(m.attachments[i as int] == a@);
        let ghost wm = own_waiting(m.post_id, version@, m.attachments[i as int]);
        assert(w@ == wm);
        let ghost before = waiting_models(out@);
        add_waiting(&mut out, w);
        proof {
            assert forall|x: WaitingModel|
                #[trigger] waiting_models(out@).contains(x) <==> from_rows.contains(x) || exists|j: int|
                    0 <= j < i + 1 && x == #[trigger] own_waiting(m.post_id, version@, m.attachments[j]) by {
                assert(before.contains(x) <==> from_rows.contains(x) || exists|j: int|
                    0 <= j < i && x == #[trigger] own_waiting(m.post_id, version@, m.attachments[j]));
            }
        }
        i += 1;
    }
    let ghost list = out@;
    let ghost models = waiting_models(list);
    let sorted = stable_sort(out);
    proof {
        let f = |w: WaitingAttachment| w@;
        assert forall|w: WaitingAttachment| #[trigger] rank_fn::<WaitingAttachment>()(w) == waiting_rank_fn()(f(w)) by {}
        lemma_sorted_map(list, f, rank_fn::<WaitingAttachment>(), waiting_rank_fn());
        assert(waiting_models(sorted@) =~= sorted@.map_values(f));
        assert(models =~= list.map_values(f));
        let r = waiting_models(sorted@);
        sorting_orders_and_keeps(models, waiting_rank_fn());
        assert(r == sorted_by(models, waiting_rank_fn()));
        lemma_same_elements(models, r);
        assert forall|w: WaitingModel| #[trigger] r.contains(w) <==> awaited(s, m, version@, w) by {
            assert(r.contains(w) <==> models.contains(w));
            assert(models.contains(w) <==> from_rows.contains(w) || exists|j: int|
                0 <= j < n && w == #[trigger] own_waiting(m.post_id, version@, m.attachments[j]));
            if from_rows.contains(w) {
                let j = choose|j: int|
                    0 <= j < rows@.len() && is_present(s, (#[trigger] rows@[j]).1@, m.thread_id) && described(
                        rows@[j].1@,
                        w,
                    );
                lemma_at(state.ledger, j);
                assert(s.ledger.contains_key(tkey(rows@[j].0@)));
            }
            if !is_verified(s, w) && exists|k: Parts|
                #[trigger] s.ledger.contains_key(k) && is_present(s, s.ledger[k], m.thread_id) && described(
                    s.ledger[k],
                    w,
                ) {
                let k = choose|k: Parts|
                    #[trigger] s.ledger.contains_key(k) && is_present(s, s.ledger[k], m.thread_id) && described(
                        s.ledger[k],
                        w,
                    );
                let j = lemma_found(state.ledger, k);
                assert(is_present(s, rows@[j].1@, m.thread_id));
                assert(awaited_from(s, rows@, rows@.len() as int, m.thread_id, w));
            }
        }
    }
    sorted
}

/// Two lists with the same elements as multisets hold the same, and neither or
/// both repeat something.
proof fn lemma_same_elements(a: Seq<WaitingModel>, b: Seq<WaitingModel>)
    requires
        a.to_multiset() == b.to_multiset(),
        a.no_duplicates(),
    ensures
        b.no_duplicates(),
        forall|w: WaitingModel| #[trigger] b.contains(w) <==> a.contains(w),
{
    a.lemma_multiset_has_no_duplicates();
    b.lemma_multiset_has_no_duplicates_conv();
    assert forall|w: WaitingModel| #[trigger] b.contains(w) <==> a.contains(w) by {
        vstd::seq_lib::to_multiset_contains(a, w);
        vstd::seq_lib::to_multiset_contains(b, w);
    }
}

// ------------------------------------------------------------------- records

/// The line of dashes behind a post's frontmatter.
pub open spec fn mark_at(raw: Seq<u8>, i: int) -> bool {
    &&& 0 <= i
    &&& i + 5 <= raw.len()
    &&& raw[i] == 10 && raw[i + 1] == 45 && raw[i + 2] == 45 && raw[i + 3] == 45 && raw[i + 4] == 10
}

fn find_mark(raw: &[u8]) -> (r: Option<usize>)
    ensures
        r matches Some(i) ==> mark_at(raw@, i as int) && forall|j: int| 0 <= j < i ==> !#[trigger] mark_at(raw@, j),
        r is None ==> forall|j: int| !#[trigger] mark_at(raw@, j),
{
    let n = raw.len();
    if n < 5 {
        return None;
    }
    let mut i: usize = 0;
    while i <= n - 5
        invariant
            n == raw@.len(),
            n >= 5,
            i <= n - 4,
            forall|j: int| 0 <= j < i ==> !#[trigger] mark_at(raw@, j),
        decreases n - i,
    {
        if raw[i] == 10 && raw[i + 1] == 45 && raw[i + 2] == 45 && raw[i + 3] == 45 && raw[i + 4] == 10 {
            assert(mark_at(raw@, i as int));
            return Some(i);
        }
        assert(!mark_at(raw@, i as int));
        i += 1;
    }
    None
}

/// Where the first line of dashes stands behind the frontmatter.
pub open spec fn first_mark(raw: Seq<u8>, i: int) -> bool {
    mark_at(raw, i) && forall|j: int| 0 <= j < i ==> !#[trigger] mark_at(raw, j)
}

pub open spec fn author_of(m: BbsPostMeta, local: bool, device: Option<String>, peer: Option<String>) -> Author {
    Author {
        project_id: m.project_id,
        project_name: m.project_display_name,
        agent_id: m.agent_id,
        agent_name: m.agent_display_name,
        local,
        local_device_id: if local {
            device
        } else {
            None
        },
        received_via: if local {
            None
        } else {
            peer
        },
    }
}

/// A new notice of a post for one addressee.
pub open spec fn notice_of(
    m: BbsPostMeta,
    version: Text,
    author: Author,
    offset: int,
    size: nat,
    created: i64,
    waiting: Seq<WaitingModel>,
    target: MentionModel,
) -> NoticeModel {
    NoticeModel {
        schema: SCHEMA,
        destination: DestinationModel { thread: m.thread_id@, post: m.post_id@, target },
        version,
        author,
        body_offset: (offset + 5) as u64,
        file_size: size as u64,
        created,
        deadline: if author.local {
            created
        } else {
            (created + ATTACHMENT_WAIT_MS) as i64
        },
        waiting,
        ready: false,
        proof: None,
        owner: None,
        result: None,
    }
}

/// All new notices of a post, in order of their addressees.
pub open spec fn notices_of(
    m: BbsPostMeta,
    version: Text,
    author: Author,
    offset: int,
    size: nat,
    created: i64,
    waiting: Seq<WaitingModel>,
    targets: Seq<MentionModel>,
) -> Seq<NoticeModel> {
    Seq::new(targets.len(), |i: int| notice_of(m, version, author, offset, size, created, waiting, targets[i]))
}

/// Whether some phase holds a notice.
pub open spec fn known(q: QueueModel, key: Text) -> Result<bool, Text> {
    let k = tkey(key);
    let held = if q.processed.contains_key(k) {
        Some(q.processed[k])
    } else if q.processing.contains_key(k) {
        Some(q.processing[k])
    } else if q.pending.contains_key(k) {
        Some(q.pending[k])
    } else {
        None
    };
    match held {
        None => Ok(false),
        Some(n) => match record_fault(n, key) {
            Some(e) => Err(e),
            None => Ok(true),
        },
    }
}

/// A notice enters the queue once. One that still waits for the same version
/// is taken up again.
pub open spec fn entered(q: QueueModel, n: NoticeModel) -> (QueueModel, Result<Option<Text>, Text>) {
    let key = destination_key(n.destination);
    let k = tkey(key);
    match known(q, key) {
        Err(e) => (q, Err(e)),
        Ok(false) => (QueueModel { pending: q.pending.insert(k, n), ..q }, Ok(Some(key))),
        Ok(true) => if !q.pending.contains_key(k) {
            (q, Ok(None))
        } else {
            match record_fault(q.pending[k], key) {
                Some(e) => (q, Err(e)),
                None => if !q.pending[k].ready && q.pending[k].version == n.version {
                    (q, Ok(Some(key)))
                } else {
                    (q, Ok(None))
                },
            }
        },
    }
}

/// Notices enter one after the other, until one cannot.
pub open spec fn all_entered(q: QueueModel, s: Seq<NoticeModel>) -> (QueueModel, Result<Seq<Text>, Text>)
    decreases s.len(),
{
    if s.len() == 0 {
        (q, Ok(Seq::empty()))
    } else {
        let (before, keys) = all_entered(q, s.drop_last());
        match keys {
            Err(e) => (before, Err(e)),
            Ok(done) => {
                let (after, key) = entered(before, s.last());
                match key {
                    Err(e) => (after, Err(e)),
                    Ok(Some(k)) => (after, Ok(done.push(k))),
                    Ok(None) => (after, Ok(done)),
                }
            },
        }
    }
}

pub open spec fn keys_result(r: Result<Vec<String>, String>) -> Result<Seq<Text>, Text> {
    match r {
        Ok(v) => Ok(texts(v@)),
        Err(e) => Err(e@),
    }
}

pub open spec fn key_result(r: Result<Option<String>, String>) -> Result<Option<Text>, Text> {
    match r {
        Ok(v) => Ok(opt_text(v)),
        Err(e) => Err(e@),
    }
}

proof fn lemma_entered_error(q: QueueModel, s: Seq<NoticeModel>, n: int)
    requires
        0 <= n <= s.len(),
        all_entered(q, s.take(n)).1 is Err,
    ensures
        all_entered(q, s) == all_entered(q, s.take(n)),
    decreases s.len() - n,
{
    if n == s.len() {
        assert(s.take(n) =~= s);
    } else {
        assert(s.take(n + 1).drop_last() =~= s.take(n));
        lemma_entered_error(q, s, n + 1);
    }
}

impl Queue {
    fn existing(&self, key: &String) -> (r: Result<bool, String>)
        requires
            self.wf(),
        ensures
            match r {
                Ok(b) => known(self@, key@) == Ok::<bool, Text>(b),
                Err(e) => known(self@, key@) == Err::<bool, Text>(e@),
            },
    {
        let held: Option<&Record> = match self.processed.get(key) {
            Some(n) => Some(n),
            None => match self.processing.get(key) {
                Some(n) => Some(n),
                None => self.pending.get(key),
            },
        };
        match held {
            None => Ok(false),
            Some(n) => match n.validate(key) {
                Ok(_) => Ok(true),
                Err(e) => Err(e),
            },
        }
    }

    fn enter(&mut self, record: Record) -> (r: Result<Option<String>, String>)
        requires
            old(self).wf(),
        ensures
            final(self).wf(),
            final(self).dir == old(self).dir,
            final(self)@ == entered(old(self)@, record@).0,
            key_result(r) == entered(old(self)@, record@).1,
    {
        let ghost q = self@;
        let key = record.destination.key();
        let there = match self.existing(&key) {
            Ok(b) => b,
            Err(e) => {
                return Err(e);
            },
        };
        if !there {
            let k = key.clone();
            let ghost n = record@;
            self.pending.insert(k, record);
            assert(self@.pending =~= q.pending.insert(tkey(key@), n));
            return Ok(Some(key));
        }
        match self.pending.get(&key) {
            None => Ok(None),
            Some(held) => {
                match held.validate(&key) {
                    Ok(_) => {},
                    Err(e) => {
                        return Err(e);
                    },
                }
                if !held.ready && same(&held.version_id, &record.version_id) {
                    return Ok(Some(key));
                }
                Ok(None)
            },
        }
    }

    /// Keep the intent to deliver the notices of a post, before the post is
    /// published: the keys of those that still need its file. Without an
    /// addressee on this device nothing is kept.
    pub fn prepare(
        &mut self,
        state: &SyncState,
        meta: &BbsPostMeta,
        raw: &[u8],
        version: &str,
        local: bool,
        device: &Option<String>,
        peer: &Option<String>,
        created: i64,
    ) -> (r: Result<Vec<String>, String>)
        requires
            old(self).wf(),
            state.wf(),
            0 <= created <= i64::MAX - ATTACHMENT_WAIT_MS,
            raw@.len() < u64::MAX - 5,
        ensures
            final(self).wf(),
            final(self).dir == old(self).dir,
            prepares(
                old(self)@,
                final(self)@,
                state@,
                *meta,
                raw@,
                version@,
                local,
                *device,
                *peer,
                created,
                keys_result(r),
            ),
    {
        let ghost q = self@;
        let targets = select(&meta.mentions, local, device);
        let ghost chosen = mention_models(targets@);
        let mut keys: Vec<String> = Vec::new();
        assert(texts(keys@) =~= Seq::empty());
        if targets.len() == 0 {
            return Ok(keys);
        }
        let offset: usize = match find_mark(raw) {
            Some(i) => i,
            None => {
                return Err(own("invalid_notification_post"));
            },
        };
        assert(mark_at(raw@, offset as int));
        let waiting: Vec<WaitingAttachment> = if local {
            Vec::new()
        } else {
            awaited_attachments(state, meta, version)
        };
        let ghost w = waiting_models(waiting@);
        assert(local ==> w =~= Seq::empty());
        let ghost author = author_of(*meta, local, *device, *peer);
        let ghost all = notices_of(
            *meta,
            version@,
            author,
            offset as int,
            raw@.len(),
            created,
            w,
            chosen,
        );
        let mut i: usize = 0;
        assert(all.take(0) =~= Seq::empty());
        while i < targets.len()
            invariant
                self.wf(),
                self.dir == old(self).dir,
                q == old(self)@,
                chosen == mention_models(targets@),
                chosen == selected(meta@.mentions, local, opt_text(*device)),
                chosen.len() > 0,
                w == waiting_models(waiting@),
                waits(state@, meta@, version@, local, w),
                author == author_of(*meta, local, *device, *peer),
                all == notices_of(*meta, version@, author, offset as int, raw@.len(), created, w, chosen),
                first_mark(raw@, offset as int),
                offset + 5 <= raw@.len() < u64::MAX - 5,
                0 <= created <= i64::MAX - ATTACHMENT_WAIT_MS,
                i <= targets@.len(),
                self@ == all_entered(q, all.take(i as int)).0,
                all_entered(q, all.take(i as int)).1 == Ok::<Seq<Text>, Text>(texts(keys@)),
            decreases targets@.len() - i,
        {
            let ghost was = keys@;
            assert(all.take(i + 1).drop_last() =~= all.take(i as int));
            assert(all.take(i + 1).last() == all[i as int]);
            let record = new_record(
                meta,
                version,
                local,
                device,
                peer,
                offset,
                raw.len(),
                created,
                &waiting,
                &targets[i],
            );
            assert(record@ == all[i as int]);
            let key = match self.enter(record) {
                Ok(k) => k,
                Err(e) => {
                    proof {
                        lemma_entered_error(q, all, i + 1);
                        assert(mark_at(raw@, offset as int));
                    }
                    return Err(e);
                },
            };
            if let Some(k) = key {
                keys.push(k);
                assert(texts(keys@) =~= texts(was).push(k@));
            }
            i += 1;
        }
        proof {
            assert(all.take(i as int) =~= all);
            assert(mark_at(raw@, offset as int));
        }
        Ok(keys)
    }
}

/// What preparing the notices of a post does to a queue and returns: nothing
/// without an addressee here, an error without a frontmatter, else one notice
/// for each addressee.
pub open spec fn prepares(
    before: QueueModel,
    after: QueueModel,
    s: StateModel,
    m: BbsPostMeta,
    raw: Seq<u8>,
    version: Text,
    local: bool,
    device: Option<String>,
    peer: Option<String>,
    created: i64,
    keys: Result<Seq<Text>, Text>,
) -> bool {
    let targets = selected(m@.mentions, local, opt_text(device));
    if targets.len() == 0 {
        after == before && keys == Ok::<Seq<Text>, Text>(Seq::empty())
    } else if forall|j: int| !#[trigger] mark_at(raw, j) {
        after == before && keys == Err::<Seq<Text>, Text>("invalid_notification_post"@)
    } else {
        exists|offset: int, waiting: Seq<WaitingModel>|
            {
                let all = #[trigger] notices_of(
                    m,
                    version,
                    author_of(m, local, device, peer),
                    offset,
                    raw.len(),
                    created,
                    waiting,
                    targets,
                );
                &&& first_mark(raw, offset)
                &&& waits(s, m@, version, local, waiting)
                &&& after == all_entered(before, all).0
                &&& keys == all_entered(before, all).1
            }
    }
}

/// What the notices of a post wait for: nothing if it was written here.
pub open spec fn waits(s: StateModel, m: PostModel, version: Text, local: bool, waiting: Seq<WaitingModel>) -> bool {
    if local {
        waiting.len() == 0
    } else {
        &&& in_order(waiting, waiting_rank_fn())
        &&& waiting.no_duplicates()
        &&& forall|w: WaitingModel| #[trigger] waiting.contains(w) <==> awaited(s, m, version, w)
    }
}

fn new_record(
    meta: &BbsPostMeta,
    version: &str,
    local: bool,
    device: &Option<String>,
    peer: &Option<String>,
    offset: usize,
    size: usize,
    created: i64,
    waiting: &Vec<WaitingAttachment>,
    target: &Mention,
) -> (r: Record)
    requires
        0 <= created <= i64::MAX - ATTACHMENT_WAIT_MS,
        offset + 5 <= size < u64::MAX - 5,
    ensures
        r@ == notice_of(
            *meta,
            version@,
            author_of(*meta, local, *device, *peer),
            offset as int,
            size as nat,
            created,
            waiting_models(waiting@),
            target@,
        ),
{
    let mut list: Vec<WaitingAttachment> = Vec::new();
    let mut i: usize = 0;
    while i < waiting.len()
        invariant
            i <= waiting@.len(),
            list@ == waiting@.take(i as int),
        decreases waiting@.len() - i,
    {
        list.push(waiting[i].copy());
        i += 1;
        assert(list@ =~= waiting@.take(i as int));
    }
    assert(waiting@.take(i as int) =~= waiting@);
    let local_device_id = if local {
        copy_opt(device)
    } else {
        None
    };
    let received_via = if local {
        None
    } else {
        copy_opt(peer)
    };
    Record {
        schema_version: SCHEMA,
        destination: Destination {
            thread_id: meta.thread_id.clone(),
            post_id: meta.post_id.clone(),
            target: target.copy(),
        },
        version_id: own(version),
        author: Author {
            project_id: meta.project_id.clone(),
            project_name: meta.project_display_name.clone(),
            agent_id: meta.agent_id.clone(),
            agent_name: meta.agent_display_name.clone(),
            local,
            local_device_id,
            received_via,
        },
        body_offset: (offset + 5) as u64,
        file_size: size as u64,
        created_at_ms: created,
        deadline_ms: if local {
            created
        } else {
            created + ATTACHMENT_WAIT_MS
        },
        waiting: list,
        ready: false,
        proof: None,
        owner_run: None,
        result: None,
    }
}

// ----------------------------------------------------------------- publishing

/// The post of a notice is there, and its time runs from now.
pub open spec fn installed(n: NoticeModel, stamp: FileStamp, now: i64) -> NoticeModel {
    NoticeModel {
        ready: true,
        proof: Some(stamp),
        deadline: if n.author.local {
            now
        } else {
            (now + ATTACHMENT_WAIT_MS) as i64
        },
        ..n
    }
}

/// Notices whose post was published, up to the first that cannot be trusted.
pub open spec fn all_installed(q: QueueModel, keys: Seq<Text>, stamp: FileStamp, now: i64) -> (QueueModel, bool)
    decreases keys.len(),
{
    if keys.len() == 0 {
        (q, true)
    } else {
        let (before, fine) = all_installed(q, keys.drop_last(), stamp, now);
        let k = tkey(keys.last());
        if !fine {
            (before, false)
        } else if !before.pending.contains_key(k) {
            (before, true)
        } else if record_fault(before.pending[k], keys.last()) is Some {
            (before, false)
        } else if before.pending[k].ready {
            (before, true)
        } else {
            (
                QueueModel {
                    pending: before.pending.insert(k, installed(before.pending[k], stamp, now)),
                    ..before
                },
                true,
            )
        }
    }
}

proof fn lemma_installed_stops(q: QueueModel, keys: Seq<Text>, stamp: FileStamp, now: i64, n: int)
    requires
        0 <= n <= keys.len(),
        !all_installed(q, keys.take(n), stamp, now).1,
    ensures
        all_installed(q, keys, stamp, now) == all_installed(q, keys.take(n), stamp, now),
    decreases keys.len() - n,
{
    if n == keys.len() {
        assert(keys.take(n) =~= keys);
    } else {
        assert(keys.take(n + 1).drop_last() =~= keys.take(n));
        lemma_installed_stops(q, keys, stamp, now, n + 1);
    }
}

impl Queue {
    /// The post of these notices was published, and `stamp` is its file. A
    /// failure leaves notices that wait for their post; it is never a reason
    /// to post again.
    pub fn published(&mut self, keys: &Vec<String>, stamp: FileStamp, now: i64) -> (r: bool)
        requires
            old(self).wf(),
            now <= i64::MAX - ATTACHMENT_WAIT_MS,
        ensures
            final(self).wf(),
            final(self).dir == old(self).dir,
            (final(self)@, r) == all_installed(old(self)@, texts(keys@), stamp, now),
    {
        let ghost q = self@;
        let ghost all = texts(keys@);
        let mut i: usize = 0;
        assert(all.take(0) =~= Seq::empty());
        while i < keys.len()
            invariant
                self.wf(),
                self.dir == old(self).dir,
                q == old(self)@,
                all == texts(keys@),
                now <= i64::MAX - ATTACHMENT_WAIT_MS,
                i <= keys@.len(),
                (self@, true) == all_installed(q, all.take(i as int), stamp, now),
            decreases keys@.len() - i,
        {
            let key = &keys[i];
            let ghost was = self@;
            assert(all.take(i + 1).drop_last() =~= all.take(i as int));
            assert(all.take(i + 1).last() == key@);
            let held: Option<Record> = match self.pending.get(key) {
                Some(n) => Some(n.copy()),
                None => None,
            };
            if let Some(record) = held {
                match record.validate(key) {
                    Ok(_) => {},
                    Err(_) => {
                        proof {
                            lemma_installed_stops(q, all, stamp, now, i + 1);
                        }
                        return false;
                    },
                }
                if !record.ready {
                    let mut record = record;
                    record.ready = true;
                    record.proof = Some(stamp);
                    record.deadline_ms = if record.author.local {
                        now
                    } else {
                        now + ATTACHMENT_WAIT_MS
                    };
                    let ghost n = record@;
                    assert(n == installed(was.pending[tkey(key@)], stamp, now));
                    self.pending.insert(key.clone(), record);
                    assert(self@.pending =~= was.pending.insert(tkey(key@), n));
                }
            }
            i += 1;
        }
        assert(all.take(i as int) =~= all);
        true
    }
}

// ---------------------------------------------------------------------- laws

/// A notice enters the queue at most once: a key that some phase holds adds
/// nothing.
pub proof fn a_known_notice_is_not_repeated(q: QueueModel, n: NoticeModel)
    requires
        known(q, destination_key(n.destination)) != Ok::<bool, Text>(false),
    ensures
        entered(q, n).0 == q,
{
}

/// Preparing the notices of a post changes none but these.
pub proof fn preparing_touches_only_the_notices_of_the_post(
    before: QueueModel,
    after: QueueModel,
    s: StateModel,
    m: BbsPostMeta,
    raw: Seq<u8>,
    version: Text,
    local: bool,
    device: Option<String>,
    peer: Option<String>,
    created: i64,
    keys: Result<Seq<Text>, Text>,
    other: Text,
)
    requires
        prepares(before, after, s, m, raw, version, local, device, peer, created, keys),
        !post_keys(m@, local, opt_text(device)).contains(other),
    ensures
        same_notice(before, after, other),
{
    let targets = selected(m@.mentions, local, opt_text(device));
    if targets.len() > 0 && exists|j: int| #[trigger] mark_at(raw, j) {
        let (offset, waiting) = choose|offset: int, waiting: Seq<WaitingModel>|
            {
                let all = #[trigger] notices_of(
                    m,
                    version,
                    author_of(m, local, device, peer),
                    offset,
                    raw.len(),
                    created,
                    waiting,
                    targets,
                );
                &&& first_mark(raw, offset)
                &&& waits(s, m@, version, local, waiting)
                &&& after == all_entered(before, all).0
                &&& keys == all_entered(before, all).1
            };
        let all = notices_of(m, version, author_of(m, local, device, peer), offset, raw.len(), created, waiting, targets);
        assert forall|i: int| 0 <= i < all.len() implies destination_key((#[trigger] all[i]).destination) != other by {
            assert(post_keys(m@, local, opt_text(device))[i] == destination_key(all[i].destination));
        }
        lemma_entering_leaves(before, all, other);
    }
}

proof fn lemma_entering_leaves(q: QueueModel, s: Seq<NoticeModel>, other: Text)
    requires
        forall|i: int| 0 <= i < s.len() ==> destination_key((#[trigger] s[i]).destination) != other,
    ensures
        same_notice(q, all_entered(q, s).0, other),
    decreases s.len(),
{
    if s.len() > 0 {
        assert forall|i: int| 0 <= i < s.drop_last().len() implies destination_key(
            (#[trigger] s.drop_last()[i]).destination,
        ) != other by {
            assert(s.drop_last()[i] == s[i]);
        }
        lemma_entering_leaves(q, s.drop_last(), other);
        assert(s.last() == s[s.len() - 1]);
        assert(tkey(other)[0] == other);
        assert(tkey(destination_key(s.last().destination))[0] == destination_key(s.last().destination));
    }
}

/// Entering keeps every notice in one phase.
pub proof fn entering_keeps_one_phase(q: QueueModel, n: NoticeModel)
    requires
        one_phase(q),
    ensures
        one_phase(entered(q, n).0),
{
}

/// In a received post the word `local` addresses nobody here.
pub proof fn a_received_local_mention_selects_nobody(m: MentionModel, device: Option<Text>)
    requires
        m.device == "local"@,
    ensures
        !is_addressee(m, false, device),
{
}

proof fn lemma_addressees(s: Seq<MentionModel>, local: bool, device: Option<Text>)
    ensures
        addressees(s, local, device).no_duplicates(),
        forall|m: MentionModel|
            #[trigger] addressees(s, local, device).contains(m) <==> s.contains(m) && is_addressee(m, local, device),
    decreases s.len(),
{
    let out = addressees(s, local, device);
    if s.len() > 0 {
        let head = s.drop_last();
        lemma_addressees(head, local, device);
        let rest = addressees(head, local, device);
        assert(s =~= head.push(s.last()));
        assert forall|m: MentionModel| #[trigger] out.contains(m) <==> s.contains(m) && is_addressee(m, local, device) by {
            assert(s.contains(m) <==> head.contains(m) || m == s.last()) by {
                if s.contains(m) {
                    let i = choose|i: int| 0 <= i < s.len() && s[i] == m;
                    if i < head.len() {
                        assert(head[i] == m);
                    }
                }
                if head.contains(m) {
                    let i = choose|i: int| 0 <= i < head.len() && head[i] == m;
                    assert(s[i] == m);
                }
                assert(s[s.len() - 1] == s.last());
            }
            if out != rest {
                if out.contains(m) {
                    let i = choose|i: int| 0 <= i < out.len() && out[i] == m;
                    if i < rest.len() {
                        assert(rest[i] == m);
                    }
                }
                if rest.contains(m) {
                    let i = choose|i: int| 0 <= i < rest.len() && rest[i] == m;
                    assert(out[i] == m);
                }
                assert(out[rest.len() as int] == s.last());
            }
        }
    }
}

/// Who is notified here of a post: each mentioned agent once, and only agents
/// whose mention is meant for this device. In a received post that is a
/// mention by the device's own identity, in a post written here also one of
/// `local`. A device without an identity is addressed by nothing else.
pub proof fn the_mentions_for_this_device_are_selected(s: Seq<MentionModel>, device: Option<Text>, m: MentionModel)
    ensures
        selected(s, true, device).no_duplicates(),
        selected(s, false, device).no_duplicates(),
        selected(s, true, device).contains(m) <==> s.contains(m) && (m.device == "local"@ || device == Some(m.device)),
        selected(s, false, device).contains(m) <==> s.contains(m) && device == Some(m.device) && m.device != "local"@,
        selected(s, false, None).len() == 0,
{
    lemma_selected(s, true, device);
    lemma_selected(s, false, device);
    lemma_selected(s, false, None);
    let none = selected(s, false, None);
    if none.len() > 0 {
        assert(none.contains(none[0]));
    }
}

proof fn lemma_selected(s: Seq<MentionModel>, local: bool, device: Option<Text>)
    ensures
        selected(s, local, device).no_duplicates(),
        forall|m: MentionModel|
            #[trigger] selected(s, local, device).contains(m) <==> s.contains(m) && is_addressee(m, local, device),
{
    let a = addressees(s, local, device);
    lemma_addressees(s, local, device);
    let r = selected(s, local, device);
    sorting_orders_and_keeps(a, mention_rank_fn());
    a.lemma_multiset_has_no_duplicates();
    r.lemma_multiset_has_no_duplicates_conv();
    assert forall|m: MentionModel| #[trigger] r.contains(m) <==> s.contains(m) && is_addressee(m, local, device) by {
        assert(a.contains(m) <==> s.contains(m) && is_addressee(m, local, device));
        vstd::seq_lib::to_multiset_contains(a, m);
        vstd::seq_lib::to_multiset_contains(r, m);
    }
}

/// A post has a notice for exactly the agents that are selected, each under
/// the key of its post and agent.
pub proof fn a_post_has_a_notice_for_every_agent_it_addresses(m: PostModel, local: bool, device: Option<Text>, key: Text)
    ensures
        post_keys(m, local, device).len() == selected(m.mentions, local, device).len(),
        post_keys(m, local, device).contains(key) <==> exists|t: MentionModel|
            #[trigger] selected(m.mentions, local, device).contains(t) && key == destination_key(
                DestinationModel { thread: m.thread_id, post: m.post_id, target: t },
            ),
{
    let chosen = selected(m.mentions, local, device);
    let keys = post_keys(m, local, device);
    if keys.contains(key) {
        let i = choose|i: int| 0 <= i < keys.len() && keys[i] == key;
        assert(chosen.contains(chosen[i]));
    }
    if exists|t: MentionModel|
        #[trigger] chosen.contains(t) && key == destination_key(
            DestinationModel { thread: m.thread_id, post: m.post_id, target: t },
        ) {
        let t = choose|t: MentionModel|
            #[trigger] chosen.contains(t) && key == destination_key(
                DestinationModel { thread: m.thread_id, post: m.post_id, target: t },
            );
        let i = choose|i: int| 0 <= i < chosen.len() && chosen[i] == t;
        assert(keys[i] == key);
    }
}

/// A new notice names the post, its version and its addressee, has neither a
/// post nor an owner nor an outcome yet, and waits for attachments for ten
/// seconds if the post was received. A post that was written here waits for
/// nothing.
pub proof fn a_new_notice_names_its_post(
    m: BbsPostMeta,
    version: Text,
    local: bool,
    device: Option<String>,
    peer: Option<String>,
    offset: int,
    size: nat,
    created: i64,
    waiting: Seq<WaitingModel>,
    target: MentionModel,
)
    requires
        0 <= offset,
        offset + 5 <= size <= u64::MAX,
        0 <= created <= i64::MAX - 10000,
    ensures
        ({
            let n = notice_of(m, version, author_of(m, local, device, peer), offset, size, created, waiting, target);
            &&& n.destination.thread == m.thread_id@ && n.destination.post == m.post_id@ && n.destination.target == target
            &&& n.version == version
            &&& n.file_size == size
            &&& n.body_offset == offset + 5
            &&& n.created == created
            &&& local ==> n.deadline == created
            &&& !local ==> n.deadline == created + 10000
            &&& n.waiting == waiting
            &&& !n.ready && n.proof is None && n.owner is None && n.result is None
            &&& n.author.local == local
            &&& n.author.project_id == m.project_id && n.author.project_name == m.project_display_name
            &&& n.author.agent_id == m.agent_id && n.author.agent_name == m.agent_display_name
            &&& local ==> n.author.local_device_id == device && n.author.received_via is None
            &&& !local ==> n.author.local_device_id is None && n.author.received_via == peer
        }),
{
}

/// A received notice waits for every attachment of its own post, and for what
/// is still missing of every version of the thread that is there and not
/// deleted; for nothing else, and a notice of an own post for nothing at all.
pub proof fn a_received_notice_waits_for_what_its_thread_misses(
    s: StateModel,
    m: PostModel,
    version: Text,
    waiting: Seq<WaitingModel>,
    k: Parts,
    i: int,
)
    ensures
        waits(s, m, version, true, waiting) ==> waiting.len() == 0,
        waits(s, m, version, false, waiting) && 0 <= i < m.attachments.len() ==> waiting.contains(
            WaitingModel {
                post: m.post_id,
                version,
                attachment: m.attachments[i].id,
                sha256: m.attachments[i].sha256,
                size: m.attachments[i].size,
            },
        ),
        waits(s, m, version, false, waiting) && s.ledger.contains_key(k) && s.ledger[k].thread_id == m.thread_id
            && s.ledger[k].body_stamp is Some && !suppressed(
            s,
            s.ledger[k].thread_id,
            s.ledger[k].post_id,
            s.ledger[k].version_id,
        ) ==> (s.ledger[k].descriptor matches Some(p) ==> 0 <= i < p.attachments.len() ==> {
            let w = WaitingModel {
                post: p.post_id,
                version: p.version_id,
                attachment: p.attachments[i].id,
                sha256: p.attachments[i].sha256,
                size: p.attachments[i].size,
            };
            !is_verified(s, w) ==> waiting.contains(w)
        }),
        waits(s, m, version, false, waiting) ==> forall|w: WaitingModel|
            #[trigger] waiting.contains(w) && w.post != m.post_id ==> !is_verified(s, w) && exists|l: Parts|
                #[trigger] s.ledger.contains_key(l) && s.ledger[l].thread_id == m.thread_id && s.ledger[l].body_stamp is Some,
{
    if waits(s, m, version, false, waiting) {
        if 0 <= i < m.attachments.len() {
            let w = own_waiting(m.post_id, version, m.attachments[i]);
            assert(awaited(s, m, version, w));
            assert(waiting.contains(w));
        }
        if s.ledger.contains_key(k) && s.ledger[k].descriptor is Some {
            let p = s.ledger[k].descriptor->0;
            if 0 <= i < p.attachments.len() && is_present(s, s.ledger[k], m.thread_id) {
                let w = waiting_of(p.post_id, p.version_id, p.attachments[i]);
                assert(described(s.ledger[k], w));
                if !is_verified(s, w) {
                    assert(awaited(s, m, version, w));
                    assert(waiting.contains(w));
                }
            }
        }
        assert forall|w: WaitingModel| #[trigger] waiting.contains(w) && w.post != m.post_id implies !is_verified(s, w)
            && exists|l: Parts|
            #[trigger] s.ledger.contains_key(l) && s.ledger[l].thread_id == m.thread_id && s.ledger[l].body_stamp is Some by {
            assert(awaited(s, m, version, w));
        }
    }
}

/// A notice that no phase holds enters the queue as it is and is looked after;
/// one that waits without its post is looked after again if its version is the
/// same; one that was ready, taken or settled is not.
pub proof fn a_notice_enters_once(q: QueueModel, n: NoticeModel)
    ensures
        ({
            let key = destination_key(n.destination);
            let k = tkey(key);
            let (after, r) = entered(q, n);
            let held = q.pending.contains_key(k) || q.processing.contains_key(k) || q.processed.contains_key(k);
            &&& !held ==> after.pending.contains_key(k) && after.pending[k] == n && r == Ok::<Option<Text>, Text>(Some(key))
            &&& held ==> after == q
            &&& r == Ok::<Option<Text>, Text>(Some(key)) && held ==> q.pending.contains_key(k) && !q.pending[k].ready
                && q.pending[k].version == n.version
            &&& q.pending.contains_key(k) && !q.processing.contains_key(k) && !q.processed.contains_key(k) && record_fault(
                q.pending[k],
                key,
            ) is None && !q.pending[k].ready && q.pending[k].version == n.version ==> r == Ok::<Option<Text>, Text>(
                Some(key),
            )
            &&& after.processing == q.processing && after.processed == q.processed && after.recovered == q.recovered
        }),
{
}

/// Once the post is published its notices are ready with its file as proof,
/// and their time runs from then: ten seconds for a received post.
pub proof fn publication_starts_the_time(n: NoticeModel, stamp: FileStamp, now: i64)
    requires
        now <= i64::MAX - 10000,
    ensures
        ({
            let r = installed(n, stamp, now);
            &&& r.ready && r.proof == Some(stamp)
            &&& n.author.local ==> r.deadline == now
            &&& !n.author.local ==> r.deadline == now + 10000
            &&& r.created == n.created && r.destination == n.destination && r.version == n.version && r.waiting
                == n.waiting && r.author == n.author && r.owner == n.owner
        }),
{
}

/// Publication readies each of the notices that still waits for its post, and
/// touches no other.
pub proof fn publication_readies_the_notices_of_the_post(
    q: QueueModel,
    keys: Seq<Text>,
    stamp: FileStamp,
    now: i64,
    other: Text,
)
    ensures
        ({
            let (after, fine) = all_installed(q, keys, stamp, now);
            &&& after.processing == q.processing && after.processed == q.processed && after.recovered == q.recovered
            &&& after.pending.dom() == q.pending.dom()
            &&& !keys.contains(other) && q.pending.contains_key(tkey(other)) ==> after.pending[tkey(other)]
                == q.pending[tkey(other)]
            &&& q.pending.contains_key(tkey(other)) && q.pending[tkey(other)].ready ==> after.pending[tkey(other)]
                == q.pending[tkey(other)]
            &&& fine && keys.contains(other) && q.pending.contains_key(tkey(other)) ==> after.pending[tkey(other)].ready
            &&& fine && keys.contains(other) && q.pending.contains_key(tkey(other)) && !q.pending[tkey(other)].ready
                ==> after.pending[tkey(other)].proof == Some(stamp)
        }),
    decreases keys.len(),
{
    if keys.len() > 0 {
        let head = keys.drop_last();
        publication_readies_the_notices_of_the_post(q, head, stamp, now, other);
        publication_readies_the_notices_of_the_post(q, head, stamp, now, keys.last());
        let (before, fine) = all_installed(q, head, stamp, now);
        let after = all_installed(q, keys, stamp, now).0;
        assert(tkey(other)[0] == other);
        assert(tkey(keys.last())[0] == keys.last());
        assert(keys[keys.len() - 1] == keys.last());
        if keys.contains(other) && !head.contains(other) {
            let i = choose|i: int| 0 <= i < keys.len() && keys[i] == other;
            if i < head.len() {
                assert(head[i] == other);
            }
            assert(other == keys.last());
        }
        if head.contains(other) {
            let i = choose|i: int| 0 <= i < head.len() && head[i] == other;
            assert(keys[i] == other);
        }
        assert(after.pending.dom() =~= before.pending.dom());
    } else {
        assert(!keys.contains(other));
    }
}

} // verus!
