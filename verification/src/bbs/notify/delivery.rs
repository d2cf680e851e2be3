//! How a notice reads, and how its delivery ends.
use vstd::prelude::*;
use crate::agent_bus::AgentBusSendRequest;
use crate::agent_directory::{Agent, Project, Target};
use crate::bbs::notify::record::{destination_key, event_of, ATTACHMENT_WARNING, NoticeModel, Record};
use crate::bbs::notify::store::{addressed_here, body_at, is_deleted, retired, Claim, Queue, QueueModel, Sight};
use crate::bbs::notify::store::SightModel;
use crate::bbs::sync::model::{StateModel, SyncState};
use crate::text::{opt_text, own, plus, plus3, replace, replaced, same, Text};
use crate::text::begins;
use crate::text::ends;
use crate::text::occurs;
use crate::text::stands_at;
use crate::bbs::sync::model::tkey;

verus! {

/// A notice on its way to a room.
pub struct Envelope {
    pub project: Project,
    pub agent: Option<Agent>,
    pub target_id: String,
    pub event_id: String,
    pub text: String,
}

/// A line in the log of a room, without an agent to wake.
pub struct RoomNotice {
    pub actor_id: String,
    pub actor_name: String,
    pub text: String,
    pub target_agent_ids: Vec<String>,
    pub event_id: String,
    pub actor_intent: Option<String>,
}

impl Envelope {
    /// The notice as a message to its agent. Its event identifies it and
    /// keeps it from being delivered twice.
    pub fn request(&self) -> (r: AgentBusSendRequest)
        ensures
            r.project_root is None,
            opt_text(r.sender_agent_id) == Some("bbs"@),
            opt_text(r.sender_name) == Some("BBS"@),
            r.target@ == self.target_id@,
            opt_text(r.intent) == Some("bbs-thread"@),
            r.text@ == self.text@,
            opt_text(r.event_id) == Some(self.event_id@),
            opt_text(r.dedupe_key) == Some(self.event_id@),
    {
        AgentBusSendRequest {
            project_root: None,
            sender_agent_id: Some(own("bbs")),
            sender_name: Some(own("BBS")),
            target: self.target_id.clone(),
            intent: Some(own("bbs-thread")),
            text: self.text.clone(),
            event_id: Some(self.event_id.clone()),
            dedupe_key: Some(self.event_id.clone()),
        }
    }

    /// The notice as a line for its room.
    pub fn notice(&self) -> (r: RoomNotice)
        ensures
            r.actor_id@ == "bbs"@,
            r.actor_name@ == "BBS"@,
            r.text@ == self.text@,
            r.target_agent_ids@.len() == 0,
            r.event_id@ == self.event_id@,
            opt_text(r.actor_intent) == Some("bbs-thread"@),
    {
        RoomNotice {
            actor_id: own("bbs"),
            actor_name: own("BBS"),
            text: self.text.clone(),
            target_agent_ids: Vec::new(),
            event_id: self.event_id.clone(),
            actor_intent: Some(own("bbs-thread")),
        }
    }
}

// ---------------------------------------------------------------------- text

pub open spec fn with_id(name: Text, id: Text) -> Text {
    name + " (id: "@ + id + ")"@
}

fn name_and_id(name: &str, id: &str) -> (r: String)
    ensures
        r@ == with_id(name@, id@),
{
    let mut s = plus3(name, " (id: ", id);
    s.append(")");
    s
}

/// The author is the user of this account. Only then does the notice carry a
/// user's instruction.
pub open spec fn is_user(n: NoticeModel) -> bool {
    n.author.local && n.author.agent_id@ == "human"@
}

/// The template with the names of thread, projects and author filled in.
pub open spec fn filled(template: Text, n: NoticeModel, project_name: Text, project_id: Text) -> Text {
    let a = replaced(template, "{{thread_id}}"@, n.destination.thread);
    let b = replaced(a, "{{current_project}}"@, with_id(project_name, project_id));
    let c = replaced(b, "{{source_project}}"@, with_id(n.author.project_name@, n.author.project_id@));
    let d = replaced(c, "{{latest_author}}"@, with_id(n.author.agent_name@, n.author.agent_id@));
    if is_user(n) {
        d
    } else {
        replaced(d, "User instruction:"@, "BBS author context:"@)
    }
}

/// From which device the post came, as far as it is known.
pub open spec fn source_device(n: NoticeModel) -> Text {
    if n.author.local {
        "this device ("@ + (match n.author.local_device_id {
            Some(d) => d@,
            None => "local; no device identity"@,
        }) + ")"@
    } else {
        "received via "@ + (match n.author.received_via {
            Some(p) => p@,
            None => "an authenticated BBS peer"@,
        }) + "; the forwarding device is not an attestation of the original author's device"@
    }
}

pub open spec fn author_kind(n: NoticeModel) -> Text {
    if is_user(n) {
        "local account user"@
    } else {
        "BBS author; not a human instruction"@
    }
}

/// The text of a notice.
pub open spec fn wrapped_text(
    template: Text,
    n: NoticeModel,
    project_name: Text,
    project_id: Text,
    body: Text,
    warning: bool,
) -> Text {
    filled(template, n, project_name, project_id) + "\nSource device: "@ + source_device(n) + "\nSource author: "@
        + n.author.agent_name@ + " (id: "@ + n.author.agent_id@ + "; "@ + author_kind(n) + ")\n"@ + (if warning {
        ATTACHMENT_WARNING@ + "\n"@
    } else {
        ""@
    }) + "\n"@ + body
}

fn fill(template: &str, record: &Record, project: &Project) -> (r: String)
    ensures
        r@ == filled(template@, record@, project.name@, project.id@),
{
    proof {
        reveal_strlit("{{thread_id}}");
        reveal_strlit("{{current_project}}");
        reveal_strlit("{{source_project}}");
        reveal_strlit("{{latest_author}}");
        reveal_strlit("User instruction:");
    }
    let author = &record.author;
    let a = replace(template, "{{thread_id}}", &record.destination.thread_id);
    let b = replace(&a, "{{current_project}}", &name_and_id(&project.name, &project.id));
    let c = replace(&b, "{{source_project}}", &name_and_id(&author.project_name, &author.project_id));
    let d = replace(&c, "{{latest_author}}", &name_and_id(&author.agent_name, &author.agent_id));
    if author.local && same(&author.agent_id, "human") {
        d
    } else {
        replace(&d, "User instruction:", "BBS author context:")
    }
}

fn device_line(record: &Record) -> (r: String)
    ensures
        r@ == source_device(record@),
{
    let author = &record.author;
    if author.local {
        match &author.local_device_id {
            Some(d) => plus3("this device (", d, ")"),
            None => plus3("this device (", "local; no device identity", ")"),
        }
    } else {
        match &author.received_via {
            Some(p) => plus3(
                "received via ",
                p,
                "; the forwarding device is not an attestation of the original author's device",
            ),
            None => plus3(
                "received via ",
                "an authenticated BBS peer",
                "; the forwarding device is not an attestation of the original author's device",
            ),
        }
    }
}

pub fn wrapped(record: &Record, project: &Project, body: &str, warning: bool, template: &str) -> (r: String)
    ensures
        r@ == wrapped_text(template@, record@, project.name@, project.id@, body@, warning),
{
    let mut text = fill(template, record, project);
    text.append("\nSource device: ");
    text.append(&device_line(record));
    text.append("\nSource author: ");
    text.append(&record.author.agent_name);
    text.append(" (id: ");
    text.append(&record.author.agent_id);
    text.append("; ");
    if record.author.local && same(&record.author.agent_id, "human") {
        text.append("local account user");
    } else {
        text.append("BBS author; not a human instruction");
    }
    text.append(")\n");
    if warning {
        text.append(&plus(ATTACHMENT_WARNING, "\n"));
    } else {
        text.append("");
    }
    text.append("\n");
    text.append(body);
    text
}

pub open spec fn no_agent_note() -> Text {
    "\n\nThe addressed agent is no longer available in this project. No agent was awakened."@
}

/// The letter for a claimed notice: it goes to the addressed agent, or to its
/// room alone if the agent is gone.
pub open spec fn is_letter(e: Envelope, claim: Claim, target: Target, body: Text, template: Text) -> bool {
    &&& e.project == target.project
    &&& e.agent == target.agent
    &&& e.target_id@ == claim.record@.destination.target.agent
    &&& e.event_id@ == event_of(claim.record@.destination)
    &&& e.text@ == wrapped_text(
        template,
        claim.record@,
        target.project.name@,
        target.project.id@,
        body,
        claim.attachment_warning,
    ) + (if target.agent is None {
        no_agent_note()
    } else {
        ""@
    })
}

/// The envelope of a claimed notice.
pub fn envelope(claim: &Claim, target: Target, body: &str, template: &str) -> (r: Envelope)
    ensures
        is_letter(r, *claim, target, body@, template@),
{
    let mut text = wrapped(&claim.record, &target.project, body, claim.attachment_warning, template);
    if target.agent.is_none() {
        text.append("\n\nThe addressed agent is no longer available in this project. No agent was awakened.");
    } else {
        text.append("");
    }
    Envelope {
        project: target.project,
        agent: target.agent,
        target_id: claim.record.destination.target.agent_id.clone(),
        event_id: claim.record.event_id(),
        text,
    }
}

// ------------------------------------------------------------------ dispatch

/// Where notices go.
pub trait Sink {
    /// What was handed over so far, each with the answer to it. A sink that is
    /// proved to keep its contract says what it records.
    open spec fn sent(&self) -> Seq<(Envelope, Result<(), String>)> {
        Seq::empty()
    }

    /// Hand over a notice. The receiver keeps its event and drops repetitions.
    fn submit(&mut self, envelope: Envelope) -> (r: Result<(), String>)
        ensures
            final(self).sent() == old(self).sent().push((envelope, r)),
    ;
}

pub open spec fn key_of(c: Claim) -> Text {
    destination_key(c.record@.destination)
}

/// The post of a claimed notice is still what it was, and for this device.
pub open spec fn is_current(s: StateModel, c: Claim, sight: SightModel) -> bool {
    &&& !is_deleted(s, c.record@)
    &&& addressed_here(c.record@, sight.device)
    &&& sight.thread_present
    &&& body_at(s, c.record@, sight) == Some(c.body)
}

/// What is to be done with a claimed notice.
pub enum Delivery {
    /// What is needed could not be read; the claim is left for a later run.
    Fail(String),
    /// Its room is gone.
    RetireUnavailable,
    /// Its post was deleted or changed, or is for another device.
    RetireChanged,
    Submit(Envelope),
}

/// What is to be done with a claimed notice: `target` is its room, `body` the
/// text of its post, `sight` what is seen of the post after both were read.
pub fn plan_delivery(
    queue: &Queue,
    state: &SyncState,
    claim: &Claim,
    target: Result<Option<Target>, String>,
    body: Result<String, String>,
    template: &str,
    sight: &Sight,
) -> (r: Delivery)
    requires
        state.wf(),
    ensures
        match target {
            Err(e) => r == Delivery::Fail(e),
            Ok(None) => r is RetireUnavailable,
            Ok(Some(t)) => match body {
                Err(e) => r == Delivery::Fail(e),
                Ok(b) => if is_current(state@, *claim, sight@) {
                    r matches Delivery::Submit(letter) && is_letter(letter, *claim, t, b@, template@)
                } else {
                    r is RetireChanged
                },
            },
        },
{
    let target = match target {
        Err(e) => {
            return Delivery::Fail(e);
        },
        Ok(None) => {
            return Delivery::RetireUnavailable;
        },
        Ok(Some(t)) => t,
    };
    let body = match body {
        Err(e) => {
            return Delivery::Fail(e);
        },
        Ok(b) => b,
    };
    if !queue.still_publishable(state, claim, sight) {
        return Delivery::RetireChanged;
    }
    Delivery::Submit(envelope(claim, target, &body, template))
}

/// The queue after a notice was handed over: an accepted one is settled, a
/// refused one stays claimed.
pub open spec fn answered(q: QueueModel, claim: Claim, answer: Result<(), String>) -> QueueModel {
    match answer {
        Ok(_) => retired(q, key_of(claim), claim.record@, "submitted_or_duplicate"@),
        Err(_) => q,
    }
}

/// A notice was handed over, with this answer.
pub fn finish_delivery(queue: &mut Queue, claim: Claim, answer: Result<(), String>) -> (r: Result<(), String>)
    requires
        old(queue).wf(),
    ensures
        final(queue).wf(),
        final(queue).dir == old(queue).dir,
        final(queue)@ == answered(old(queue)@, claim, answer),
        r == answer,
{
    if answer.is_ok() {
        queue.finish(claim, "submitted_or_duplicate");
    }
    answer
}

/// Deliver a claimed notice: `target` is its room, `body` the text of its
/// post, `sight` what is seen of the post after both were read. A letter is
/// handed over at most once, and none if the notice fails or is retired. A
/// failure leaves the claim for a later run.
pub fn dispatch<S: Sink>(
    queue: &mut Queue,
    state: &SyncState,
    claim: Claim,
    target: Result<Option<Target>, String>,
    body: Result<String, String>,
    template: &str,
    sight: &Sight,
    sink: &mut S,
) -> (r: Result<(), String>)
    requires
        old(queue).wf(),
        state.wf(),
    ensures
        final(queue).wf(),
        final(queue).dir == old(queue).dir,
        match target {
            Err(e) => r == Err::<(), String>(e) && final(queue)@ == old(queue)@ && final(sink).sent() == old(
                sink,
            ).sent(),
            Ok(None) => r is Ok && final(queue)@ == retired(
                old(queue)@,
                key_of(claim),
                claim.record@,
                "project_unavailable"@,
            ) && final(sink).sent() == old(sink).sent(),
            Ok(Some(t)) => match body {
                Err(e) => r == Err::<(), String>(e) && final(queue)@ == old(queue)@ && final(sink).sent() == old(
                    sink,
                ).sent(),
                Ok(b) => if !is_current(state@, claim, sight@) {
                    r is Ok && final(queue)@ == retired(
                        old(queue)@,
                        key_of(claim),
                        claim.record@,
                        "deleted_or_changed"@,
                    ) && final(sink).sent() == old(sink).sent()
                } else {
                    &&& final(sink).sent() == old(sink).sent().push((final(sink).sent().last().0, r))
                    &&& is_letter(final(sink).sent().last().0, claim, t, b@, template@)
                    &&& final(queue)@ == answered(old(queue)@, claim, r)
                },
            },
        },
{
    match plan_delivery(queue, state, &claim, target, body, template, sight) {
        Delivery::Fail(e) => Err(e),
        Delivery::RetireUnavailable => {
            queue.finish(claim, "project_unavailable");
            Ok(())
        },
        Delivery::RetireChanged => {
            queue.finish(claim, "deleted_or_changed");
            Ok(())
        },
        Delivery::Submit(letter) => {
            let answer = sink.submit(letter);
            finish_delivery(queue, claim, answer)
        },
    }
}

/// Only a human of this account is the user, and only then is the author
/// called so.
pub proof fn only_the_own_human_is_the_user(n: NoticeModel)
    ensures
        is_user(n) ==> n.author.local && n.author.agent_id@ == "human"@,
        n.author.local && n.author.agent_id@ == "human"@ ==> author_kind(n) == "local account user"@,
        author_kind(n) == "local account user"@ ==> is_user(n),
{
    reveal_strlit("local account user");
    reveal_strlit("BBS author; not a human instruction");
    assert("local account user"@.len() == 18);
    assert("BBS author; not a human instruction"@.len() == 35);
}

/// A post that was written here names this device, a received one the peer it
/// came from, and neither claims to be the other.
pub proof fn a_received_post_names_its_peer(n: NoticeModel)
    ensures
        n.author.local ==> begins(source_device(n), "this device ("@),
        !n.author.local ==> begins(source_device(n), "received via "@) && !begins(source_device(n), "this device ("@),
        n.author.local && n.author.local_device_id is Some ==> source_device(n) == "this device ("@
            + n.author.local_device_id->0@ + ")"@,
        !n.author.local && n.author.received_via is Some ==> begins(
            source_device(n),
            "received via "@ + n.author.received_via->0@ + ";"@,
        ),
{
    reveal_strlit("this device (");
    reveal_strlit("received via ");
    reveal_strlit(";");
    reveal_strlit("; the forwarding device is not an attestation of the original author's device");
    let t = source_device(n);
    if n.author.local {
        assert(t.take(13) =~= "this device ("@);
    } else {
        assert(t.take(13) =~= "received via "@);
        assert(t.take(13)[0] == 'r');
        assert("this device ("@[0] == 't');
        if let Some(p) = n.author.received_via {
            let h = "received via "@ + p@ + ";"@;
            assert(t.take(h.len() as int) =~= h);
        }
    }
}

/// The text of a notice ends with the body. The warning about attachments is
/// one line in front of it, and all that the two texts differ in.
pub proof fn a_warning_adds_one_line(
    template: Text,
    n: NoticeModel,
    project_name: Text,
    project_id: Text,
    body: Text,
)
    ensures
        ({
            let plain = wrapped_text(template, n, project_name, project_id, body, false);
            let warned = wrapped_text(template, n, project_name, project_id, body, true);
            let end = "\n"@ + body;
            let line = "Some attachments in this thread have not synced yet. Check first."@ + "\n"@;
            &&& ends(plain, end)
            &&& warned == plain.take(plain.len() - end.len()) + line + end
            &&& begins(plain, filled(template, n, project_name, project_id))
            &&& occurs(plain, "\nSource device: "@ + source_device(n) + "\nSource author: "@)
        }),
{
    let plain = wrapped_text(template, n, project_name, project_id, body, false);
    let warned = wrapped_text(template, n, project_name, project_id, body, true);
    let end = "\n"@ + body;
    let line = "Some attachments in this thread have not synced yet. Check first."@ + "\n"@;
    let f = filled(template, n, project_name, project_id);
    let mid = "\nSource device: "@ + source_device(n) + "\nSource author: "@;
    reveal_strlit("");
    reveal_strlit("\n");
    assert(plain.skip(plain.len() - end.len()) =~= end);
    assert(warned =~= plain.take(plain.len() - end.len()) + line + end);
    assert(plain.take(f.len() as int) =~= f);
    assert(plain.subrange(f.len() as int, (f.len() + mid.len()) as int) =~= mid);
    assert(stands_at(plain, mid, f.len() as int));
}

/// A letter goes to the project and the agent that were found, under the
/// notice's own event, and tells if there is no agent to wake.
pub proof fn a_letter_reaches_whom_it_addresses(
    e: Envelope,
    claim: Claim,
    target: Target,
    body: Text,
    template: Text,
)
    requires
        is_letter(e, claim, target, body, template),
    ensures
        e.project == target.project,
        e.agent == target.agent,
        e.target_id@ == claim.record@.destination.target.agent,
        e.event_id@ == "bbs-mention:"@ + destination_key(claim.record@.destination),
        target.agent is Some ==> ends(e.text@, "\n"@ + body),
        target.agent is None ==> ends(
            e.text@,
            "\n"@ + body + "\n\nThe addressed agent is no longer available in this project. No agent was awakened."@,
        ),
{
    reveal_strlit("");
    let text = wrapped_text(
        template,
        claim.record@,
        target.project.name@,
        target.project.id@,
        body,
        claim.attachment_warning,
    );
    let end = "\n"@ + body;
    assert(text.skip(text.len() - end.len()) =~= end);
    if target.agent is Some {
        assert(e.text@ =~= text);
    } else {
        let tail = end
            + "\n\nThe addressed agent is no longer available in this project. No agent was awakened."@;
        assert(e.text@.skip(e.text@.len() - tail.len()) =~= tail);
    }
}

/// A notice that was handed over is settled; one that was refused stays as it
/// was, to be delivered again.
pub proof fn an_accepted_notice_is_settled(q: QueueModel, claim: Claim, e: String)
    ensures
        answered(q, claim, Err(e)) == q,
        answered(q, claim, Ok(())).processed.contains_key(tkey(key_of(claim))),
        !answered(q, claim, Ok(())).processing.contains_key(tkey(key_of(claim))),
        !answered(q, claim, Ok(())).pending.contains_key(tkey(key_of(claim))),
{
}

} // verus!
