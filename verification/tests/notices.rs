use kota_core::agent_directory::{notification_target, Agent, Found, Project, Registration, TargetWorkspace};
use kota_core::bbs::cli::{parse_cli_args, BbsCliCommand};
use kota_core::bbs::mentions::{
    validate, Context, Directories, Membership, Mention, Peer, Prepared, PublishError, PRIVATE_REPLY_ERROR, UNJOINED_NEW_ERROR,
};
use kota_core::bbs::notify::delivery::{dispatch, finish_delivery, plan_delivery, Delivery, Envelope, Sink};
use kota_core::bbs::notify::prepare::keys_of_post;
use kota_core::bbs::notify::record::{Record, ATTACHMENT_WARNING, ORPHAN_WAIT_MS};
use kota_core::bbs::notify::runtime::{Hints, WatchEvent, HINT_BUDGET};
use kota_core::bbs::notify::store::{BodySight, Check, Claim, DirState, Queue, Sight};
use kota_core::bbs::posts::{human_identity, read_post};
use kota_core::bbs::publish::{
    create_thread_with_mentions_as, publish_human_post, publish_human_reply, reply_with_mentions_as, reserve, shared_here,
    Attaching, Draft, Surroundings,
};
use kota_core::bbs::sync::model::{FileStamp, SyncState};
use kota_core::bbs::threads::{load_thread, FoundPost};
use kota_core::bbs::types::{BbsHumanPostRequest, BbsHumanReplyRequest, BbsThreadMeta, Identity, LoadedPost};
use kota_core::path::PathName;

const NOW: i64 = 1_789_000_000_000;

fn agent(id: &str, name: &str) -> Agent {
    Agent { id: id.into(), name: name.into(), avatar_id: None }
}

/// A board that keeps its files in memory.
struct Board {
    state: SyncState,
    queue: Queue,
    device: Option<String>,
    group: Option<(String, String)>,
    members: Vec<String>,
    local: Vec<(String, Vec<(String, String)>)>,
    archived_projects: Vec<String>,
    archived_agents: Vec<String>,
    roster: Option<Vec<(String, Vec<(String, String)>)>>,
    peer: Option<String>,
    threads: Vec<(BbsThreadMeta, Vec<LoadedPost>)>,
    texts: Vec<(String, String, FileStamp)>,
}

impl Board {
    fn new() -> Board {
        Board {
            state: SyncState::new(),
            queue: Queue::new("/account/bbs-sync"),
            device: None,
            group: None,
            members: vec![],
            local: vec![
                ("source".into(), vec![]),
                ("target".into(), vec![("agent".into(), "Receiver".into())]),
            ],
            archived_projects: vec![],
            archived_agents: vec![],
            roster: None,
            peer: None,
            threads: vec![],
            texts: vec![],
        }
    }

    fn join(&mut self) -> (String, String) {
        let own = "1".repeat(64);
        let peer = "2".repeat(64);
        self.device = Some(own.clone());
        self.group = Some(("group-a".into(), "own-membership".into()));
        self.members = vec![own.clone(), peer.clone()];
        self.peer = Some(peer.clone());
        (own, peer)
    }

    fn context(&self) -> Context {
        Context {
            device_id: self.device.clone(),
            membership: self
                .group
                .as_ref()
                .map(|g| Membership { group_id: g.0.clone(), membership_id: g.1.clone() }),
            members: self.members.clone(),
        }
    }

    fn projects(list: &Vec<(String, Vec<(String, String)>)>) -> Vec<Project> {
        list.iter()
            .map(|(id, agents)| Project {
                id: id.clone(),
                name: id.clone(),
                root: format!("/w/{id}"),
                agents: agents.iter().map(|a| agent(&a.0, &a.1)).collect(),
            })
            .collect()
    }

    fn around(&self) -> Surroundings {
        let peers = match &self.peer {
            Some(p) => {
                vec![Peer { device_id: p.clone(), projects: Ok(self.roster.as_ref().map(Board::projects)) }]
            }
            None => vec![],
        };
        Surroundings {
            context: self.context(),
            directories: Directories { local: Ok(Board::projects(&self.local)), peers },
            current: self.context(),
        }
    }

    fn publish(&mut self, draft: Draft, new_root: bool) -> String {
        let group = self.group.as_ref().map(|g| g.0.clone());
        let device = self.device.clone();
        let yaml = "schema: kota.bbs.post.v1\n";
        let r = reserve(
            &mut self.state,
            &mut self.queue,
            &group,
            &device,
            &draft,
            yaml,
            new_root,
            "2026-09-13T10:00:00Z".into(),
            NOW,
        )
        .unwrap();
        let stamp = FileStamp {
            inode: self.texts.len() as u64 + 1,
            len: r.text.len() as u64,
            modified: 1,
            modified_ns: 0,
            changed: 1,
            changed_ns: 0,
        };
        self.queue.published(&r.notices, stamp, NOW);
        let id = draft.post.post_id.clone();
        let thread = draft.thread.thread_id.clone();
        let post = read_post("post.md", &r.text, Ok(draft.post)).unwrap();
        self.texts.push((id.clone(), r.text, stamp));
        if new_root {
            self.threads.push((draft.thread, vec![post]));
            thread
        } else {
            let t = self.threads.iter_mut().find(|t| t.0.thread_id == thread).unwrap();
            t.0 = draft.thread;
            t.1.push(post);
            id
        }
    }

    fn draft(&self, author: &Identity, body: &str, targets: &[Mention]) -> Result<Draft, String> {
        create_thread_with_mentions_as(
            author,
            &vec!["source".into()],
            false,
            body.into(),
            &Attaching::none(),
            &targets.to_vec(),
            &self.around(),
        )
    }

    fn try_post(&mut self, body: &str, targets: &[Mention]) -> Result<String, String> {
        let draft = self.draft(&author(), body, targets)?;
        Ok(self.publish(draft, true))
    }

    fn post(&mut self, body: &str, targets: &[Mention]) -> String {
        self.try_post(body, targets).unwrap()
    }

    fn try_reply(&mut self, thread: &str, body: &str, targets: &[Mention]) -> Result<String, String> {
        let meta = self.threads.iter().find(|t| t.0.thread_id == thread).unwrap().0.copy();
        let shared = shared_here(&self.state, &self.context(), thread);
        let draft = reply_with_mentions_as(
            &author(),
            thread,
            body.into(),
            &Attaching::none(),
            &targets.to_vec(),
            &self.around(),
            true,
            shared,
            Ok(meta),
        )?;
        Ok(self.publish(draft, false))
    }

    fn load(&self, thread: &str) -> Vec<LoadedPost> {
        let t = self.threads.iter().find(|t| t.0.thread_id == thread).unwrap();
        let found = t
            .1
            .iter()
            .map(|p| FoundPost { post: p.meta.post_id.clone(), loaded: Some(p.copy()) })
            .collect();
        load_thread(thread, Ok(t.0.copy()), found).unwrap().1
    }

    fn target(&self) -> Mention {
        Mention::parse("local/target/agent").unwrap()
    }

    fn keys(&self, phase: &str) -> Vec<String> {
        let map = match phase {
            "pending" => &self.queue.pending,
            "processing" => &self.queue.processing,
            _ => &self.queue.processed,
        };
        map.entries.iter().map(|e| e.0.clone()).collect()
    }

    fn record(&self, key: &str) -> Record {
        self.queue.pending.get(&key.to_string()).unwrap().copy()
    }

    fn result(&self, key: &str) -> Option<String> {
        self.queue.processed.get(&key.to_string()).unwrap().result.clone()
    }

    fn sight(&self, post: &str, busy: bool) -> Sight {
        Sight {
            busy,
            device_id: self.device.clone(),
            resident: self.texts.iter().find(|t| t.0 == post).map(|t| t.2),
            version: None,
            thread_present: true,
        }
    }

    fn check(&mut self, key: &str, run: &str, now: i64, busy: bool) -> Check {
        let all = [&self.queue.pending, &self.queue.processing, &self.queue.processed];
        let k = key.to_string();
        let post = all.iter().find_map(|m| m.get(&k)).unwrap().destination.post_id.clone();
        let sight = self.sight(&post, busy);
        self.queue.check(&self.state, key, run, now, &sight).unwrap()
    }

    fn claim(&mut self, key: &str, run: &str) -> Claim {
        match self.check(key, run, NOW, false) {
            Check::Deliver(claim) => claim,
            _ => panic!("expected delivery"),
        }
    }

    /// The workspaces of the account, with what the agent's file says in each.
    fn workspaces(&self, agent_id: &str) -> Vec<TargetWorkspace> {
        let metadata = |agents: &Vec<(String, String)>| {
            let status = if self.archived_agents.contains(&agent_id.to_string()) { "archived" } else { "active" };
            let found = agents.iter().find(|a| a.0 == agent_id);
            found.map(|a| format!("display-name: {}\nstatus: {status}\n", a.1))
        };
        self.local
            .iter()
            .map(|(id, agents)| TargetWorkspace {
                root: format!("/w/{id}"),
                file: Found::Read(Registration {
                    project_id: id.clone(),
                    repo_full_name: format!("owner/{id}"),
                    archived: self.archived_projects.contains(id),
                }),
                metadata: metadata(agents),
            })
            .collect()
    }

    fn deliver(&mut self, claim: Claim, sink: &mut RecordingSink) -> Result<(), String> {
        let d = &claim.record.destination;
        let target = notification_target(&self.workspaces(&d.target.agent_id), &d.target.project_id, &d.target.agent_id);
        let text = self.texts.iter().find(|t| t.0 == d.post_id).unwrap().1.clone();
        let from = claim.record.body_offset as usize;
        let raw = text.as_bytes()[from..].to_vec();
        let body = self.queue.body_text(&claim, true, text.len() as u64, raw, true);
        let sight = self.sight(&d.post_id.clone(), false);
        dispatch(&mut self.queue, &self.state, claim, target, body, "Reply with kota-bbs.", &sight, sink)
    }
}

fn author() -> Identity {
    human_identity("source", "Human".into(), None)
}

struct Call {
    project: String,
    sender: Option<String>,
    intent: Option<String>,
    text: String,
    event: String,
    wake: bool,
}

#[derive(Default)]
struct RecordingSink {
    calls: Vec<Call>,
    recorded: Vec<String>,
    fail_after_record: bool,
}

impl Sink for RecordingSink {
    fn submit(&mut self, envelope: Envelope) -> Result<(), String> {
        if !self.recorded.contains(&envelope.event_id) {
            self.recorded.push(envelope.event_id.clone());
            let r = envelope.request();
            self.calls.push(Call {
                project: envelope.project.id.clone(),
                sender: r.sender_agent_id,
                intent: r.intent,
                text: r.text,
                event: envelope.event_id.clone(),
                wake: envelope.agent.is_some(),
            });
        }
        if self.fail_after_record {
            self.fail_after_record = false;
            return Err("simulated_receipt_gap".into());
        }
        Ok(())
    }
}

fn args(list: &[&str]) -> Vec<String> {
    list.iter().map(|s| s.to_string()).collect()
}

#[test]
fn local_mentions_are_explicit_identity_free_deduplicated_and_keep_historical_names() {
    let mut b = Board::new();
    b.local = vec![("p".into(), vec![("a".into(), "Before".into())])];
    let at = Mention::parse("local/p/a").unwrap();
    let thread = b.post("Original", &[at.clone(), at.clone()]);
    let posts = b.load(&thread);
    assert_eq!(posts[0].meta.mentions, vec![at.clone()]);
    assert_eq!(posts[0].body, "@Before\n\nOriginal");
    b.local = vec![("p".into(), vec![("a".into(), "After".into())])];
    let reply = b.try_reply(&thread, "Reply", &[at]).unwrap();
    b.try_reply(&thread, "@After is plain text", &[]).unwrap();
    let posts = b.load(&thread);
    assert!(posts.iter().find(|p| p.meta.post_id == reply).unwrap().body.starts_with("@After"));
    assert_eq!(posts.iter().find(|p| p.meta.kind == "topic").unwrap().body, "@Before\n\nOriginal");
    assert!(posts.iter().find(|p| p.body == "@After is plain text").unwrap().meta.mentions.is_empty());
    let literal = Mention::parse("local/p/a").unwrap();
    assert!(!literal.received_here("local"));
    assert!(!literal.received_here(&"a".repeat(64)));
}

#[test]
fn refs_validate_before_io_and_remote_local_is_never_rebound() {
    for value in ["a", "local/p/a/x", "local/../a", "local//a", "../p/a", "device-name/p/a", "local/p/a b"] {
        assert!(Mention::parse(value).is_err(), "{value}");
    }
    let id = "a".repeat(64);
    assert!(Mention::parse(&format!("{id}/p/a")).unwrap().received_here(&id));
    for list in [
        vec!["new", "--broadcast", "--at"],
        vec!["new", "--broadcast", "--at", "local/p/a", "--at", "local/p/b"],
        vec!["agents", "--json"],
        vec!["agents", "--device", "local"],
        vec!["reply", "thread-one", "--at", "../p/a"],
    ] {
        assert!(parse_cli_args(&args(&list)).is_err());
    }
    let parsed =
        parse_cli_args(&args(&["reply", "thread-one", "--at", "local/p/a", "--attach", "./pic.png"])).unwrap();
    assert!(matches!(parsed, BbsCliCommand::Reply { at: Some(_), attachments, .. } if attachments.len() == 1));
}

#[test]
fn remote_refs_require_roster_and_shared_reply_and_cannot_publish_across_changed_group() {
    let mut b = Board::new();
    b.local = vec![("p".into(), vec![("a".into(), "Local same ID".into())])];
    let private = b.post("History", &[]);
    let invalid = Mention::parse(&format!("{}/p/a", "a".repeat(64))).unwrap();
    assert_eq!(b.try_post("No group", &[invalid]).err().unwrap(), UNJOINED_NEW_ERROR);
    let (own, peer) = b.join();
    let at = Mention::parse(&format!("{peer}/p/a")).unwrap();
    assert_eq!(b.try_post("No roster", &[at.clone()]).err().unwrap(), "agent_roster_not_synced");
    b.roster = Some(vec![("p".into(), vec![("a".into(), "Remote same ID".into())])]);
    let before = b.load(&private).len();
    assert_eq!(b.try_reply(&private, "Do not post", &[at.clone()]).err().unwrap(), PRIVATE_REPLY_ERROR);
    assert_eq!(b.load(&private).len(), before);
    let shared = b.post("New shared", &[at.clone()]);
    assert_eq!(b.load(&shared)[0].body, "@Remote same ID\n\nNew shared");
    let canonical = b.post(
        "Once",
        &[Mention::parse("local/p/a").unwrap(), Mention::parse(&format!("{own}/p/a")).unwrap()],
    );
    let posts = b.load(&canonical);
    assert_eq!(posts[0].meta.mentions.len(), 1);
    assert_eq!(posts[0].meta.mentions[0].device_id, own);
    let around = b.around();
    let prepared = Prepared::load(&around.context, &around.directories, &vec![at], false).unwrap();
    b.group = Some(("group-a".into(), "changed".into()));
    assert_eq!(
        prepared.finalize(&b.context(), false, true, "No post".into()).err().unwrap(),
        "group_context_changed"
    );
}

#[test]
fn a_known_empty_remote_roster_allows_stale_target_id_without_guessing_a_name() {
    let mut b = Board::new();
    let (_, peer) = b.join();
    b.roster = Some(vec![]);
    let at = Mention::parse(&format!("{peer}/missing/old-agent")).unwrap();
    let thread = b.post("Old target", &[at]);
    assert_eq!(b.load(&thread)[0].body, "@old-agent\n\nOld target");
}

fn code(e: PublishError) -> String {
    match e {
        PublishError::Code { code } => code,
        PublishError::Message(m) => panic!("no code: {}", m),
    }
}

fn new_request(targets: Vec<Mention>) -> BbsHumanPostRequest {
    BbsHumanPostRequest {
        project_id: "source".into(),
        project_display_name: None,
        project_tags: vec!["source".into()],
        body: "Original human input".into(),
        attachments: vec![],
        mentions: targets,
    }
}

#[test]
fn human_commands_emit_actual_safe_errors_and_durable_bridge_fixture() {
    let mut b = Board::new();
    let identity = author();
    let private = b.post("Existing private thread", &[]);
    let remote = Mention::parse(&format!("{}/remote/agent", "a".repeat(64))).unwrap();
    let before = b.threads.len();
    let unjoined = publish_human_post(&identity, new_request(vec![remote]), &Attaching::none(), &b.around());
    let (device, peer) = b.join();
    let remote = Mention::parse(&format!("{peer}/remote/agent")).unwrap();
    let unsynced = publish_human_post(&identity, new_request(vec![remote.clone()]), &Attaching::none(), &b.around());
    b.roster = Some(vec![]);
    let meta = b.threads[0].0.copy();
    let reply = BbsHumanReplyRequest {
        project_id: "source".into(),
        project_display_name: None,
        thread_id: private.clone(),
        body: "Must not post".into(),
        attachments: vec![],
        mentions: vec![remote],
    };
    let shared = shared_here(&b.state, &b.context(), &private);
    let private_error =
        publish_human_reply(&identity, reply, &Attaching::none(), &b.around(), true, shared, Ok(meta));
    assert_eq!(code(unjoined.err().unwrap()), "mention_requires_group");
    assert_eq!(code(unsynced.err().unwrap()), "agent_roster_not_synced");
    assert_eq!(code(private_error.err().unwrap()), "mention_thread_not_shared");
    assert_eq!(b.threads.len(), before);
    assert_eq!(b.load(&private).len(), 1);
    assert!(b.keys("pending").is_empty());
    let draft = publish_human_post(&identity, new_request(vec![b.target()]), &Attaching::none(), &b.around());
    let thread = b.publish(draft.ok().unwrap(), true);
    let posts = b.load(&thread);
    assert_eq!(posts[0].body, "@Receiver\n\nOriginal human input");
    assert_eq!(posts[0].meta.mentions[0].device_id, device);
    let key = b.keys("pending")[0].clone();
    let mut sink = RecordingSink::default();
    let claim = b.claim(&key, "human");
    b.deliver(claim, &mut sink).unwrap();
    assert_eq!(sink.calls.len(), 1);
    assert_eq!(sink.calls[0].event, format!("bbs-mention:{key}"));
    assert_eq!(b.keys("processed").len(), 1);
}

#[test]
fn actual_human_publication_queues_once_without_identity_and_never_parses_plain_at_text() {
    let mut b = Board::new();
    b.post("@Receiver is plain text", &[]);
    assert!(b.keys("pending").is_empty());
    let request = new_request(vec![b.target(), b.target()]);
    let draft = publish_human_post(&author(), request, &Attaching::none(), &b.around()).ok().unwrap();
    let thread = b.publish(draft, true);
    let posts = b.load(&thread);
    assert_eq!(posts[0].body, "@Receiver\n\nOriginal human input");
    assert_eq!(posts[0].meta.mentions, vec![b.target()]);
    assert_eq!(b.keys("pending").len(), 1);
    let key = b.keys("pending")[0].clone();
    let pending = b.record(&key);
    assert!(pending.ready && pending.proof.is_some());
    assert_eq!(pending.destination.key(), key);
    let mut sink = RecordingSink::default();
    let claim = b.claim(&key, "first");
    b.deliver(claim, &mut sink).unwrap();
    assert!(matches!(b.check(&key, "restart", NOW, false), Check::Done));
    assert_eq!(sink.calls.len(), 1);
    assert_eq!(sink.calls[0].project, "target");
    assert_eq!(sink.calls[0].sender.as_deref(), Some("bbs"));
    assert_eq!(sink.calls[0].intent.as_deref(), Some("bbs-thread"));
    assert!(sink.calls[0].text.contains("Original human input"));
    assert!(sink.calls[0].text.contains("local account user"));
}

#[test]
fn processing_claim_is_exclusive_and_crash_after_real_bus_record_dedupes_on_restart() {
    let mut b = Board::new();
    let target = b.target();
    b.post("record then crash", &[target]);
    let key = b.keys("pending")[0].clone();
    let first = b.claim(&key, "run-one");
    assert!(matches!(b.check(&key, "other-app", NOW, true), Check::Done));
    let mut sink = RecordingSink { fail_after_record: true, ..RecordingSink::default() };
    assert!(b.deliver(first, &mut sink).is_err());
    assert!(matches!(b.check(&key, "run-one", NOW, false), Check::Done));
    let again = b.claim(&key, "restart");
    b.deliver(again, &mut sink).unwrap();
    assert_eq!(sink.calls.len(), 1);
    assert_eq!(b.keys("processed"), vec![key.clone()]);
}

#[test]
fn missing_agent_has_one_room_notice_missing_project_has_none_and_large_body_is_a_pointer() {
    let mut b = Board::new();
    let target = b.target();
    b.post(&"large original. ".repeat(2000), &[target.clone()]);
    let key = b.keys("pending")[0].clone();
    b.archived_agents.push("agent".into());
    let mut sink = RecordingSink::default();
    let claim = b.claim(&key, "run");
    b.deliver(claim, &mut sink).unwrap();
    assert!(!sink.calls[0].wake);
    assert!(sink.calls[0].text.contains("Post body omitted from this notice because it exceeds 16 KiB."));
    assert!(!sink.calls[0].text.contains("large original."));
    b.post("project archived", &[target]);
    let key = b.keys("pending")[0].clone();
    b.archived_projects.push("target".into());
    let claim = b.claim(&key, "run");
    b.deliver(claim, &mut sink).unwrap();
    assert_eq!(sink.calls.len(), 1);
}

#[test]
fn local_notice_accepts_a_real_post_filename_beyond_the_sync_id_budget() {
    let mut b = Board::new();
    let mut author = human_identity("source", "Author".into(), None);
    author.agent_id = "a".repeat(128);
    let draft = b.draft(&author, "Long existing local identity", &[b.target()]).unwrap();
    b.publish(draft, true);
    let key = b.keys("pending")[0].clone();
    assert!(b.record(&key).destination.post_id.len() > 128);
    let mut sink = RecordingSink::default();
    let claim = b.claim(&key, "run");
    b.deliver(claim, &mut sink).unwrap();
    assert_eq!(sink.calls.len(), 1);
}

#[test]
fn only_one_processing_recovery_attempt_is_allowed() {
    let mut b = Board::new();
    let target = b.target();
    b.post("Crash before submission", &[target]);
    let key = b.keys("pending")[0].clone();
    drop(b.claim(&key, "first-app"));
    drop(b.claim(&key, "recovery-app"));
    assert!(matches!(b.check(&key, "third-app", NOW, false), Check::Done));
    assert_eq!(b.result(&key).as_deref(), Some("recovery_exhausted"));
}

#[test]
fn awaiting_post_expiry_checks_body_and_never_turns_an_orphan_into_a_notice() {
    let mut b = Board::new();
    let target = b.target();
    b.post("Uncommitted crash window", &[target]);
    let key = b.keys("pending")[0].clone();
    let mut record = b.record(&key);
    record.ready = false;
    record.proof = None;
    let expiry = record.created_at_ms + ORPHAN_WAIT_MS;
    b.queue.pending.insert(key.clone(), record);
    assert!(matches!(b.check(&key, "recovery", expiry + 1, false), Check::Recover));
    b.texts.clear();
    assert!(matches!(b.check(&key, "recovery", expiry - 1, false), Check::Wait { .. }));
    assert!(matches!(b.check(&key, "recovery", expiry + 1, false), Check::Done));
    assert_eq!(b.result(&key).as_deref(), Some("unpublished"));
}

#[test]
fn awaiting_post_recovers_only_its_published_hash_and_keeps_original_deadline() {
    let mut b = Board::new();
    let target = b.target();
    b.post("durable body before ready", &[target]);
    let key = b.keys("pending")[0].clone();
    let mut record = b.record(&key);
    let original_deadline = record.deadline_ms;
    let version = record.version_id.clone();
    record.ready = false;
    record.proof = None;
    b.queue.pending.insert(key.clone(), record);
    assert!(matches!(b.check(&key, "restart", NOW, false), Check::Recover));
    let stamp = b.texts[0].2;
    let raw = b.texts[0].1.clone().into_bytes();
    let mut other = raw.clone();
    other[0] = b'+';
    let wrong = Some(BodySight::of(stamp, &other, true));
    let err = b.queue.recover(&b.state, &key, &wrong, &None, &Some(stamp)).err().unwrap();
    assert_eq!(err, "notification_recovery_body_changed");
    assert!(!b.record(&key).ready);
    let right = Some(BodySight::of(stamp, &raw, true));
    assert_eq!(right.as_ref().unwrap().sha256, version);
    b.queue.recover(&b.state, &key, &right, &None, &Some(stamp)).unwrap();
    assert_eq!(b.record(&key).deadline_ms, original_deadline);
    assert!(b.record(&key).ready);
    let mut sink = RecordingSink::default();
    let claim = b.claim(&key, "restart");
    b.deliver(claim, &mut sink).unwrap();
    assert_eq!(sink.calls.len(), 1);
}

#[test]
fn a_corrupt_record_is_refused_and_left_alone() {
    let mut b = Board::new();
    let target = b.target();
    b.post("Original", &[target]);
    let key = b.keys("pending")[0].clone();
    let mut record = b.record(&key);
    let post = record.destination.post_id.clone();
    record.schema_version = 2;
    b.queue.pending.insert(key.clone(), record);
    let sight = b.sight(&post, false);
    assert!(b.queue.check(&b.state, &key, "run", NOW, &sight).is_err());
    assert_eq!(b.keys("pending"), vec![key]);
}

#[test]
fn a_queue_uses_only_real_directories() {
    let q = Queue::new("/a");
    let dirs = q
        .initialize(&vec![
            DirState::Directory,
            DirState::Missing,
            DirState::Missing,
            DirState::Missing,
            DirState::Missing,
        ])
        .unwrap();
    assert_eq!(dirs[0], "/a/notify");
    assert_eq!(dirs.len(), 4);
    let err = q.initialize(&vec![
        DirState::Directory,
        DirState::Other,
        DirState::Missing,
        DirState::Missing,
        DirState::Missing,
    ]);
    assert_eq!(err.err().unwrap(), "unsafe_notification_directory");
    assert_eq!(
        q.directory("pending", DirState::Directory, DirState::Directory, DirState::Directory).unwrap(),
        "/a/notify/pending"
    );
    assert_eq!(
        q.directory("other", DirState::Directory, DirState::Directory, DirState::Directory).err().unwrap(),
        "invalid_notification_phase"
    );
    let there = DirState::Directory;
    assert_eq!(q.path("pending", "../x", there, there, there).err().unwrap(), "invalid_hash");
    let key = "0a".repeat(32);
    assert_eq!(q.path("pending", &key, there, there, there).unwrap(), format!("/a/notify/pending/{key}.json"));
}

#[test]
fn a_mention_is_checked_before_anything_else() {
    assert!(validate(&vec![Mention::parse("local/p/a").unwrap()]).is_ok());
    let bad = Mention { device_id: "local".into(), project_id: "..".into(), agent_id: "a".into() };
    assert!(validate(&vec![bad]).is_err());
    assert!(ATTACHMENT_WARNING.contains("attachments"));
}

#[test]
fn a_notice_is_planned_then_settled_by_the_answer() {
    let mut b = Board::new();
    let target = b.target();
    b.post("Planned", &[target]);
    let key = b.keys("pending")[0].clone();
    let claim = b.claim(&key, "run");
    let d = claim.record.destination.copy();
    let sight = b.sight(&d.post_id, false);
    let room = || notification_target(&b.workspaces("agent"), "target", "agent");
    let plan = |target, body| plan_delivery(&b.queue, &b.state, &claim, target, body, "Reply.", &sight);
    assert!(matches!(plan(Err("unreadable".into()), Ok("text".into())), Delivery::Fail(e) if e == "unreadable"));
    assert!(matches!(plan(Ok(None), Err("gone".into())), Delivery::RetireUnavailable));
    assert!(matches!(plan(room(), Err("gone".into())), Delivery::Fail(e) if e == "gone"));
    match plan(room(), Ok("text".into())) {
        Delivery::Submit(letter) => {
            assert_eq!(letter.event_id, format!("bbs-mention:{key}"));
            assert_eq!(letter.target_id, "agent");
            assert!(letter.agent.is_some());
        }
        _ => panic!("expected a letter"),
    }
    let elsewhere = Sight { thread_present: false, ..b.sight(&d.post_id, false) };
    let changed = plan_delivery(&b.queue, &b.state, &claim, room(), Ok("text".into()), "Reply.", &elsewhere);
    assert!(matches!(changed, Delivery::RetireChanged));
    assert!(finish_delivery(&mut b.queue, claim, Err("closed".into())).is_err());
    assert_eq!(b.keys("processing"), vec![key.clone()]);
    let again = b.claim(&key, "restart");
    finish_delivery(&mut b.queue, again, Ok(())).unwrap();
    assert_eq!(b.result(&key).as_deref(), Some("submitted_or_duplicate"));
}

#[test]
fn a_recovered_claim_keeps_its_owner_and_is_not_delivered_again() {
    let mut b = Board::new();
    let target = b.target();
    b.post("Crash", &[target]);
    let key = b.keys("pending")[0].clone();
    drop(b.claim(&key, "first"));
    let again = b.claim(&key, "second");
    assert_eq!(again.record.owner_run.as_deref(), Some("first"));
    assert!(matches!(b.check(&key, "second", NOW, true), Check::Done));
    assert!(matches!(b.check(&key, "first", NOW, false), Check::Done));
    assert_eq!(b.keys("processing"), vec![key.clone()]);
    assert!(matches!(b.check(&key, "second", NOW, false), Check::Done));
    assert_eq!(b.result(&key).as_deref(), Some("recovery_exhausted"));
}

#[test]
fn watcher_events_become_hints() {
    let roots = vec![PathName::parse("/account/pending")];
    let key = |n: usize| format!("{n:064x}");
    let file = |n: usize| PathName::parse(&format!("/account/pending/{}.json", key(n)));
    let event = |moved: bool, paths: Vec<PathName>| WatchEvent { failed: false, access: false, rescan: false, moved, paths };
    let mut hints = Hints::new();
    hints.note(&roots, &event(false, vec![file(1), PathName::parse("/account/pending/note.txt"), file(2), file(1)]));
    assert_eq!((hints.keys.len(), hints.rescan, hints.rewatch), (2, false, false));
    hints.note(&roots, &WatchEvent { access: true, ..event(false, vec![file(3)]) });
    assert_eq!(hints.keys.len(), 2);
    hints.note(&roots, &event(false, vec![PathName::parse("/account/pending")]));
    assert!(!hints.rescan);
    hints.note(&roots, &event(true, vec![PathName::parse("/account/pending"), file(4)]));
    assert_eq!((hints.keys.len(), hints.rescan, hints.rewatch), (3, true, true));
    let mut many = Hints::new();
    many.note(&roots, &event(false, (0..HINT_BUDGET).map(file).collect()));
    assert_eq!((many.keys.len(), many.rescan), (HINT_BUDGET, false));
    many.note(&roots, &event(false, vec![file(HINT_BUDGET)]));
    assert_eq!((many.keys.len(), many.rescan, many.rewatch), (HINT_BUDGET, true, false));
    let mut broken = Hints::new();
    broken.note(&roots, &WatchEvent { failed: true, ..event(false, vec![file(1)]) });
    assert_eq!((broken.keys.len(), broken.rescan, broken.rewatch), (0, true, true));
}

#[test]
fn a_post_has_one_notice_for_each_agent_that_it_addresses_here() {
    let mut b = Board::new();
    b.local[1].1.push(("other".into(), "Other".into()));
    let (one, two) = (b.target(), Mention::parse("local/target/other").unwrap());
    let thread = b.post("For two", &[two, one.clone(), one]);
    let meta = b.load(&thread).remove(0).meta;
    let mut keys = keys_of_post(&meta, true, &None);
    keys.sort();
    assert_eq!(keys, b.keys("pending"));
    assert!(keys_of_post(&meta, false, &None).is_empty());
    let (first, second) = (keys[0].clone(), keys[1].clone());
    drop(b.claim(&first, "run"));
    assert_eq!((b.keys("pending"), b.keys("processing")), (vec![second], vec![first]));
}
