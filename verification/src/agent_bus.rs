//! Messages between agents: who is meant, what the terminal sees, what counts
//! as delivered.
use vstd::prelude::*;
use crate::order::{Key, OrderedSet};
use crate::outside::{all_hex, doc_model, fresh_hex, now_precise, parse_yaml, to_lowercase, unicode_lower, yaml_document, YamlDoc};
use crate::outside::YamlModel;
use crate::text::{alnum, blank, chars_of, copy_opt, cut, decimal, drop_back, drop_front, drop_suffix, is_alnum};
use crate::text::{lower, lower_char, only, opt_text, own, plus, plus3, same, slice_text, spelled, split_once};
use crate::text::{split_words, texts, to_decimal, to_lower, to_lower_char, trim, trim_end_char, trim_start_char};
use crate::text::{ends, trim_suffix, trimmed, words, Text};
use crate::yaml::{either, field, string_field, written};
use crate::text::is_space;
use crate::text::occurs;
use crate::text::stands_at;
use crate::text::a_text_is_cut_at_the_first_mark;
use crate::text::begins;
use crate::text::is_upper;

verus! {

// --------------------------------------------------------------------- types

/// A message on its way to one agent.
pub struct ActorMessage {
    pub project_root: String,
    pub actor_id: String,
    pub actor_name: String,
    pub target_agent_id: String,
    pub intent: String,
    pub text: String,
    pub event_id: String,
    pub dedupe_key: Option<String>,
    /// How to start the agent, if it is not running.
    pub launch_request: Option<String>,
}

/// What became of a message.
pub struct ActorDeliveryResult {
    pub submitted: bool,
    pub skipped_reason: Option<String>,
    pub duplicate: bool,
}

pub struct AgentBusSendRequest {
    pub project_root: Option<String>,
    pub sender_agent_id: Option<String>,
    pub sender_name: Option<String>,
    pub target: String,
    pub intent: Option<String>,
    pub text: String,
    pub event_id: Option<String>,
    pub dedupe_key: Option<String>,
}

pub struct AgentBusSendResult {
    pub event_id: String,
    pub target_agent_id: String,
    pub submitted: bool,
    pub duplicate: bool,
    pub skipped_reason: Option<String>,
}

pub struct AgentBusRetryDeliveryRequest {
    pub project_root: Option<String>,
    pub sender_agent_id: String,
    pub sender_name: Option<String>,
    pub target_agent_id: String,
    pub intent: Option<String>,
    pub text: String,
    pub original_event_id: String,
    pub attempt_event_id: Option<String>,
}

pub struct AgentBusRetryDeliveryResult {
    pub event_id: String,
    pub target_agent_id: String,
    pub submitted: bool,
    pub skipped_reason: Option<String>,
}

/// A line of the room's log.
pub struct ActorMessageRecord {
    pub actor_id: String,
    pub actor_name: String,
    pub text: String,
    pub target_agent_ids: Vec<String>,
    pub event_id: String,
}

/// An agent as messages name it.
pub struct AgentIdentity {
    pub agent_id: String,
    pub display_name: String,
    pub aka: String,
}

// ---------------------------------------------------------- names of an agent

/// How an agent is written in a reference: without `@` and white space.
pub open spec fn reference(raw: Text) -> Text {
    trimmed(drop_front(trimmed(raw), only('@')))
}

pub fn normalize_agent_ref(raw: &str) -> (r: String)
    ensures
        r@ == reference(raw@),
{
    trim(&trim_start_char(&trim(raw), '@'))
}

/// Agents that are no longer there.
pub open spec fn is_gone(status: Text) -> bool {
    status == "archived"@ || status == "deleted"@ || status == "dismissed"@ || status == "removed"@
}

pub fn gone(status: &str) -> (r: bool)
    ensures
        r == is_gone(status@),
{
    same(status, "archived") || same(status, "deleted") || same(status, "dismissed") || same(status, "removed")
}

/// Titles that stay with the word after them.
pub open spec fn is_title(w: Text) -> bool {
    w == "Jr."@ || w == "Sr."@ || w == "Dr."@ || w == "Lady"@ || w == "Lord"@
}

/// First names that stand alone.
pub open spec fn is_short_name(w: Text) -> bool {
    w == "CC"@ || w == "Dex"@ || w == "Gem"@ || w == "Op"@
}

/// The name without the project and the copy marks.
pub open spec fn bare_name(display: Text) -> Text {
    let t = trimmed(display);
    let head = match cut(t, " v. "@) {
        Some((head, _)) => trimmed(head),
        None => trimmed(t),
    };
    trimmed(drop_suffix(drop_suffix(head, "-Bunshin"@), "-Bunshin II"@))
}

/// What an agent is called for short.
pub open spec fn aka_of(display: Text) -> Text {
    if trimmed(display).len() == 0 {
        "Agent"@
    } else {
        let name = bare_name(display);
        let w = words(name);
        if w.len() >= 2 && is_title(w[0]) {
            w[0] + " "@ + w[1]
        } else if w.len() > 1 && is_short_name(w[0]) {
            w[0]
        } else {
            name
        }
    }
}

pub fn agent_aka_from_display_name(display_name: &str) -> (r: String)
    ensures
        r@ == aka_of(display_name@),
{
    let t = trim(display_name);
    if t.as_str().is_empty() {
        return own("Agent");
    }
    let head = match split_once(&t, " v. ") {
        Some(pair) => trim(&pair.0),
        None => trim(&t),
    };
    let name = trim(&trim_suffix(&trim_suffix(&head, "-Bunshin"), "-Bunshin II"));
    let w = split_words(&name);
    assert(forall|i: int| 0 <= i < w@.len() ==> words(name@)[i] == (#[trigger] w@[i])@);
    if w.len() >= 2 && (same(&w[0], "Jr.") || same(&w[0], "Sr.") || same(&w[0], "Dr.") || same(&w[0], "Lady")
        || same(&w[0], "Lord")) {
        return plus3(&w[0], " ", &w[1]);
    }
    if w.len() > 1 && (same(&w[0], "CC") || same(&w[0], "Dex") || same(&w[0], "Gem") || same(&w[0], "Op")) {
        return w[0].clone();
    }
    name
}

/// The agent of a workspace directory, unless it is gone.
pub open spec fn identity_model(id: Text, doc: Option<YamlModel>) -> Option<(Text, Text, Text)> {
    let status = match written(field(doc, "status"@)) {
        Some(t) => t,
        None => "active"@,
    };
    if is_gone(lower(trimmed(status))) {
        None
    } else {
        let name = match either(written(field(doc, "display-name"@)), written(field(doc, "displayName"@))) {
            Some(t) => t,
            None => id,
        };
        Some((id, name, aka_of(name)))
    }
}

impl View for AgentIdentity {
    type V = (Text, Text, Text);

    open spec fn view(&self) -> (Text, Text, Text) {
        (self.agent_id@, self.display_name@, self.aka@)
    }
}

pub open spec fn opt_identity(r: Option<AgentIdentity>) -> Option<(Text, Text, Text)> {
    match r {
        Some(x) => Some(x@),
        None => None,
    }
}

/// What a workspace directory says of its agent, given its parsed metadata. A
/// directory without readable metadata is an agent under its own name.
pub fn identity_from(agent_id: &str, doc: &Option<YamlDoc>) -> (r: Option<AgentIdentity>)
    ensures
        opt_identity(r) == identity_model(agent_id@, doc_model(*doc)),
{
    let status = match string_field(doc, "status") {
        Some(t) => t,
        None => own("active"),
    };
    if gone(&to_lower(&trim(&status))) {
        return None;
    }
    let name = match string_field(doc, "display-name") {
        Some(t) => t,
        None => match string_field(doc, "displayName") {
            Some(t) => t,
            None => own(agent_id),
        },
    };
    Some(AgentIdentity { agent_id: own(agent_id), aka: agent_aka_from_display_name(&name), display_name: name })
}

/// An agent's workspace directory: its name and the text of its metadata.
pub struct AgentFile {
    pub agent_id: String,
    pub metadata: Option<String>,
}

/// The metadata of a workspace directory as a document.
pub open spec fn metadata_doc(metadata: Option<String>) -> Option<YamlModel> {
    match metadata {
        Some(text) => yaml_document(text@),
        None => None,
    }
}

/// The agents of a project, in the order of their directories.
pub open spec fn identities_of(files: Seq<AgentFile>) -> Seq<(Text, Text, Text)>
    decreases files.len(),
{
    if files.len() == 0 {
        Seq::empty()
    } else {
        let rest = identities_of(files.drop_last());
        match identity_model(files.last().agent_id@, metadata_doc(files.last().metadata)) {
            Some(x) => rest.push(x),
            None => rest,
        }
    }
}

pub open spec fn identity_views(s: Seq<AgentIdentity>) -> Seq<(Text, Text, Text)> {
    Seq::new(s.len(), |i: int| s[i]@)
}

pub fn list_agent_identities(files: &Vec<AgentFile>) -> (r: Vec<AgentIdentity>)
    ensures
        identity_views(r@) == identities_of(files@),
{
    let mut out: Vec<AgentIdentity> = Vec::new();
    let mut i: usize = 0;
    assert(identity_views(out@) =~= identities_of(files@.take(0)));
    while i < files.len()
        invariant
            i <= files.len(),
            identity_views(out@) == identities_of(files@.take(i as int)),
        decreases files.len() - i,
    {
        let ghost next = files@.take(i + 1);
        let ghost was = out@;
        assert(next.drop_last() =~= files@.take(i as int));
        assert(next.last() == files@[i as int]);
        let doc = match &files[i].metadata {
            Some(text) => parse_yaml(text),
            None => None,
        };
        assert(doc_model(doc) == metadata_doc(files@[i as int].metadata));
        if let Some(identity) = identity_from(&files[i].agent_id, &doc) {
            out.push(identity);
            assert(identity_views(out@) =~= identity_views(was).push(identity@));
        }
        i += 1;
    }
    assert(files@.take(i as int) =~= files@);
    out
}

// -------------------------------------------------------------------- lookup

/// The reference names the agent by its identifier.
pub open spec fn by_id(x: (Text, Text, Text), wanted: Text) -> bool {
    unicode_lower(x.0) == wanted
}

/// The reference names the agent by one of its names.
pub open spec fn by_name(x: (Text, Text, Text), wanted: Text) -> bool {
    !by_id(x, wanted) && (unicode_lower(x.2) == wanted || unicode_lower(x.1) == wanted)
}

pub open spec fn id_test(wanted: Text) -> spec_fn((Text, Text, Text)) -> bool {
    |x: (Text, Text, Text)| by_id(x, wanted)
}

pub open spec fn name_test(wanted: Text) -> spec_fn((Text, Text, Text)) -> bool {
    |x: (Text, Text, Text)| by_name(x, wanted)
}

/// The agents that a reference may mean: identifiers go before names.
pub open spec fn candidates(s: Seq<(Text, Text, Text)>, wanted: Text) -> Seq<(Text, Text, Text)> {
    let exact = s.filter(id_test(wanted));
    if exact.len() > 0 {
        exact
    } else {
        s.filter(name_test(wanted))
    }
}

pub open spec fn one_agent(s: Seq<(Text, Text, Text)>) -> bool {
    forall|i: int| 0 <= i < s.len() ==> (#[trigger] s[i]).0 == s[0].0
}

/// The agent that a reference means, or why there is none.
pub open spec fn resolved(s: Seq<(Text, Text, Text)>, raw: Text) -> Result<(Text, Text, Text), Text> {
    let wanted = unicode_lower(reference(raw));
    let found = candidates(s, wanted);
    if wanted.len() == 0 {
        Err("empty agent reference"@)
    } else if found.len() == 0 {
        Err("agent not found for reference: "@ + raw)
    } else if !one_agent(found) {
        Err("agent reference is ambiguous: "@ + raw)
    } else {
        Ok(found[0])
    }
}

pub open spec fn identity_result(r: Result<AgentIdentity, String>) -> Result<(Text, Text, Text), Text> {
    match r {
        Ok(x) => Ok(x@),
        Err(e) => Err(e@),
    }
}

fn copy_identity(x: &AgentIdentity) -> (r: AgentIdentity)
    ensures
        r@ == x@,
{
    AgentIdentity {
        agent_id: x.agent_id.clone(),
        display_name: x.display_name.clone(),
        aka: x.aka.clone(),
    }
}

/// Find the agent that a reference means, among those of the project.
pub fn resolve_agent_identity(identities: &Vec<AgentIdentity>, raw: &str) -> (r: Result<AgentIdentity, String>)
    ensures
        identity_result(r) == resolved(identity_views(identities@), raw@),
{
    let wanted = to_lowercase(&normalize_agent_ref(raw));
    if wanted.as_str().is_empty() {
        return Err(own("empty agent reference"));
    }
    let ghost s = identity_views(identities@);
    let ghost p = id_test(wanted@);
    let ghost q = name_test(wanted@);
    let mut exact: Vec<AgentIdentity> = Vec::new();
    let mut named: Vec<AgentIdentity> = Vec::new();
    let mut i: usize = 0;
    proof {
        reveal(Seq::filter);
        assert(identity_views(exact@) =~= s.take(0).filter(p));
        assert(identity_views(named@) =~= s.take(0).filter(q));
    }
    while i < identities.len()
        invariant
            s == identity_views(identities@),
            p == id_test(wanted@),
            q == name_test(wanted@),
            i <= identities.len(),
            identity_views(exact@) == s.take(i as int).filter(p),
            identity_views(named@) == s.take(i as int).filter(q),
        decreases identities.len() - i,
    {
        let ghost exact0 = exact@;
        let ghost named0 = named@;
        let x = &identities[i];
        proof {
            reveal(Seq::filter);
            assert(s.take(i + 1).drop_last() =~= s.take(i as int));
            assert(s.take(i + 1).last() == x@);
        }
        if same(&to_lowercase(&x.agent_id), &wanted) {
            exact.push(copy_identity(x));
            assert(identity_views(exact@) =~= identity_views(exact0).push(x@));
        } else if same(&to_lowercase(&x.aka), &wanted) || same(&to_lowercase(&x.display_name), &wanted) {
            named.push(copy_identity(x));
            assert(identity_views(named@) =~= identity_views(named0).push(x@));
        }
        i += 1;
    }
    assert(s.take(i as int) =~= s);
    let found = if exact.len() == 0 {
        named
    } else {
        exact
    };
    let ghost f = identity_views(found@);
    assert(f == candidates(s, wanted@));
    if found.len() == 0 {
        return Err(plus("agent not found for reference: ", raw));
    }
    let mut j: usize = 1;
    while j < found.len()
        invariant
            1 <= j <= found.len(),
            s == identity_views(identities@),
            wanted@ == unicode_lower(reference(raw@)),
            wanted@.len() > 0,
            f == candidates(s, wanted@),
            f == identity_views(found@),
            forall|k: int| 0 <= k < j ==> (#[trigger] f[k]).0 == f[0].0,
        decreases found.len() - j,
    {
        if !same(&found[j].agent_id, &found[0].agent_id) {
            assert(f[j as int].0 != f[0].0);
            return Err(plus("agent reference is ambiguous: ", raw));
        }
        j += 1;
    }
    assert(one_agent(f));
    Ok(copy_identity(&found[0]))
}

/// The canonical identifier for a reference from the command line.
pub fn resolve_cli_target_agent_id(identities: &Vec<AgentIdentity>, target: &str) -> (r: Result<String, String>)
    ensures
        match resolved(identity_views(identities@), target@) {
            Ok(x) => r is Ok && r->Ok_0@ == x.0,
            Err(e) => r is Err && r->Err_0@ == e
                + ". Use the canonical agent id from the Teammates list, for example `agent-...`"@,
        },
{
    match resolve_agent_identity(identities, target) {
        Ok(x) => Ok(x.agent_id),
        Err(e) => Err(plus(&e, ". Use the canonical agent id from the Teammates list, for example `agent-...`")),
    }
}

// ----------------------------------------------------------- what is rendered

/// How one character stands in an attribute.
pub open spec fn escape_char(c: char) -> Text {
    if c == '&' {
        "&amp;"@
    } else if c == '"' {
        "&quot;"@
    } else if c == '<' {
        "&lt;"@
    } else if c == '>' {
        "&gt;"@
    } else {
        seq![c]
    }
}

pub open spec fn escape_fn() -> spec_fn(char) -> Text {
    |c: char| escape_char(c)
}

/// A text as an attribute value.
pub open spec fn escaped(s: Text) -> Text {
    spelled(s, escape_fn())
}

pub fn escape_attr(value: &str) -> (r: String)
    ensures
        r@ == escaped(value@),
{
    let v = chars_of(value);
    let mut out = String::new();
    let mut i: usize = 0;
    while i < v.len()
        invariant
            i <= v.len(),
            out@ == escaped(v@.take(i as int)),
        decreases v.len() - i,
    {
        let c = v[i];
        assert(v@.take(i + 1).drop_last() =~= v@.take(i as int));
        assert(v@.take(i + 1).last() == c);
        if c == '&' {
            out.append("&amp;");
        } else if c == '"' {
            out.append("&quot;");
        } else if c == '<' {
            out.append("&lt;");
        } else if c == '>' {
            out.append("&gt;");
        } else {
            let ghost was = out@;
            out.push(c);
            assert(out@ =~= was + seq![c]);
        }
        i += 1;
    }
    assert(v@.take(i as int) =~= v@);
    out
}

/// An escaped value cannot end its attribute or open a tag.
pub proof fn an_escaped_value_stays_in_its_attribute(s: Text)
    ensures
        !escaped(s).contains('"'),
        !escaped(s).contains('<'),
        !escaped(s).contains('>'),
    decreases s.len(),
{
    if s.len() > 0 {
        an_escaped_value_stays_in_its_attribute(s.drop_last());
        let a = escaped(s.drop_last());
        let b = escape_char(s.last());
        assert(escaped(s) == a + b);
        reveal_strlit("&amp;");
        reveal_strlit("&quot;");
        reveal_strlit("&lt;");
        reveal_strlit("&gt;");
        assert forall|i: int| 0 <= i < b.len() implies b[i] != '"' && b[i] != '<' && b[i] != '>' by {}
        assert forall|i: int| 0 <= i < (a + b).len() implies (a + b)[i] != '"' && (a + b)[i] != '<' && (a + b)[i]
            != '>' by {
            if i < a.len() {
                assert(a.contains(a[i]));
            } else {
                assert((a + b)[i] == b[i - a.len()]);
            }
        }
    }
}

/// What the agent's terminal sees.
pub open spec fn envelope(id: Text, from: Text, to: Text, intent: Text, text: Text) -> Text {
    "<KOTA_MESSAGE id=\""@ + escaped(id) + "\" from=\""@ + escaped(from) + "\" to=\""@ + escaped(to)
        + "\" intent=\""@ + escaped(intent) + "\">\n"@ + trimmed(text) + "\n</KOTA_MESSAGE>"@
}

pub fn render_terminal_message(message: &ActorMessage) -> (r: String)
    ensures
        r@ == envelope(
            message.event_id@,
            message.actor_id@,
            message.target_agent_id@,
            message.intent@,
            message.text@,
        ),
{
    let mut out = own("<KOTA_MESSAGE id=\"");
    out.append(&escape_attr(&message.event_id));
    out.append("\" from=\"");
    out.append(&escape_attr(&message.actor_id));
    out.append("\" to=\"");
    out.append(&escape_attr(&message.target_agent_id));
    out.append("\" intent=\"");
    out.append(&escape_attr(&message.intent));
    out.append("\">\n");
    out.append(&trim(&message.text));
    out.append("\n</KOTA_MESSAGE>");
    out
}

/// The rendered message as one bracketed paste.
pub fn terminal_input(message: &ActorMessage) -> (r: String)
    ensures
        r@ == "\u{1b}[200~"@ + envelope(
            message.event_id@,
            message.actor_id@,
            message.target_agent_id@,
            message.intent@,
            message.text@,
        ) + "\u{1b}[201~"@,
{
    plus3("\u{1b}[200~", &render_terminal_message(message), "\u{1b}[201~")
}

// --------------------------------------------------------------- identifiers

/// A text as part of an identifier: lower case, and one hyphen for each run of
/// other characters.
pub open spec fn slug(s: Text) -> Text
    decreases s.len(),
{
    if s.len() == 0 {
        Seq::empty()
    } else {
        let out = slug(s.drop_last());
        let c = s.last();
        if is_alnum(c) {
            out.push(lower_char(c))
        } else if c == '-' || c == '_' {
            out.push(c)
        } else if out.len() > 0 && out.last() == '-' {
            out
        } else {
            out.push('-')
        }
    }
}

pub open spec fn sanitized(s: Text) -> Text {
    let out = drop_back(drop_front(slug(s), only('-')), only('-'));
    if out.len() == 0 {
        "message"@
    } else {
        out
    }
}

pub fn sanitize_id(value: &str) -> (r: String)
    ensures
        r@ == sanitized(value@),
{
    let v = chars_of(value);
    let mut out = String::new();
    let mut hyphen = false;
    let mut i: usize = 0;
    while i < v.len()
        invariant
            i <= v.len(),
            out@ == slug(v@.take(i as int)),
            hyphen == (out@.len() > 0 && out@.last() == '-'),
        decreases v.len() - i,
    {
        let c = v[i];
        assert(v@.take(i + 1).drop_last() =~= v@.take(i as int));
        assert(v@.take(i + 1).last() == c);
        if alnum(c) {
            out.push(to_lower_char(c));
            hyphen = false;
        } else if c == '-' || c == '_' {
            out.push(c);
            hyphen = c == '-';
        } else if !hyphen {
            out.push('-');
            hyphen = true;
        }
        i += 1;
    }
    assert(v@.take(i as int) =~= v@);
    let out = trim_end_char(&trim_start_char(&out, '-'), '-');
    if out.as_str().is_empty() {
        own("message")
    } else {
        out
    }
}

/// The identifier of a message, given its random part.
pub open spec fn event_id(sender: Text, target: Text, token: Text) -> Text {
    "agentbus-"@ + sanitized(sender) + "-"@ + sanitized(target) + "-"@ + token
}

pub fn event_id_with(sender: &str, target: &str, token: &str) -> (r: String)
    ensures
        r@ == event_id(sender@, target@, token@),
{
    let mut out = own("agentbus-");
    out.append(&sanitize_id(sender));
    out.append("-");
    out.append(&sanitize_id(target));
    out.append("-");
    out.append(token);
    out
}

/// Twelve random hexadecimal digits.
fn fresh_token() -> (r: String)
    ensures
        is_token(r@),
{
    let hex = chars_of(&fresh_hex());
    let token = slice_text(&hex, 0, 12);
    assert(all_hex(token@));
    token
}

pub open spec fn is_token(s: Text) -> bool {
    s.len() == 12 && all_hex(s)
}

/// The identifier of a new message: its random part is twelve hexadecimal digits.
pub fn mint_event_id(sender: &str, target: &str) -> (r: String)
    ensures
        exists|token: Text|
            is_token(token) && r@ == #[trigger] event_id(sender@, target@, token),
{
    let token = fresh_token();
    let r = event_id_with(sender, target, &token);
    assert(r@ == event_id(sender@, target@, token@));
    r
}

/// The identifier of a retry of a message.
pub fn retry_event_id(original: &str, token: &str) -> (r: String)
    ensures
        r@ == original@ + ":retry:"@ + token@,
{
    plus3(original, ":retry:", token)
}

// ------------------------------------------------------------------- sending

/// A text given by the caller, unless it is blank.
pub open spec fn given(v: Option<Text>) -> Option<Text> {
    match v {
        Some(t) => if trimmed(t).len() > 0 {
            Some(trimmed(t))
        } else {
            None
        },
        None => None,
    }
}

pub fn non_blank(v: &Option<String>) -> (r: Option<String>)
    ensures
        opt_text(r) == given(opt_text(*v)),
{
    match v {
        Some(t) => {
            let t = trim(t);
            if t.as_str().is_empty() {
                None
            } else {
                Some(t)
            }
        },
        None => None,
    }
}

pub open spec fn or_else(v: Option<Text>, d: Text) -> Text {
    match v {
        Some(t) => t,
        None => d,
    }
}

fn or_text(v: Option<String>, d: &str) -> (r: String)
    ensures
        r@ == or_else(opt_text(v), d@),
{
    match v {
        Some(t) => t,
        None => own(d),
    }
}

/// The name a message is signed with: the given one, else the sender's own,
/// else the reference.
pub open spec fn signature(s: Seq<(Text, Text, Text)>, sender: Text, name: Option<Text>) -> Text {
    match given(name) {
        Some(t) => t,
        None => match resolved(s, sender) {
            Ok(x) => x.1,
            Err(_) => sender,
        },
    }
}

fn sign(identities: &Vec<AgentIdentity>, sender: &str, name: &Option<String>) -> (r: String)
    ensures
        r@ == signature(identity_views(identities@), sender@, opt_text(*name)),
{
    match non_blank(name) {
        Some(t) => t,
        None => match resolve_agent_identity(identities, sender) {
            Ok(x) => x.display_name,
            Err(_) => own(sender),
        },
    }
}

/// Why a request cannot be sent, if it cannot.
pub open spec fn send_error(s: Seq<(Text, Text, Text)>, q: AgentBusSendRequest) -> Option<Text> {
    if q.sender_agent_id is None || reference(q.sender_agent_id->0@).len() == 0 {
        Some("agent bus send requires senderAgentId"@)
    } else if resolved(s, q.target@) is Err {
        Some(resolved(s, q.target@)->Err_0)
    } else if trimmed(q.text@).len() == 0 {
        Some("agent bus send requires non-empty text"@)
    } else {
        None
    }
}

/// The message that a request asks for.
pub open spec fn sends(
    s: Seq<(Text, Text, Text)>,
    root: Text,
    q: AgentBusSendRequest,
    launch: Option<Text>,
    token: Text,
    m: ActorMessage,
) -> bool {
    let sender = reference(q.sender_agent_id->0@);
    let target = resolved(s, q.target@)->Ok_0.0;
    let id = or_else(given(opt_text(q.event_id)), event_id(sender, target, token));
    &&& m.project_root@ == root
    &&& m.actor_id@ == sender
    &&& m.actor_name@ == signature(s, sender, opt_text(q.sender_name))
    &&& m.target_agent_id@ == target
    &&& m.intent@ == or_else(given(opt_text(q.intent)), "message"@)
    &&& m.text@ == trimmed(q.text@)
    &&& m.event_id@ == id
    &&& opt_text(m.dedupe_key) == Some(or_else(given(opt_text(q.dedupe_key)), id))
    &&& opt_text(m.launch_request) == launch
}

/// Turn a request into a message. `token` is the random part of a new identifier.
pub fn prepare_send(
    identities: &Vec<AgentIdentity>,
    project_root: &str,
    request: &AgentBusSendRequest,
    launch: &Option<String>,
    token: &str,
) -> (r: Result<ActorMessage, String>)
    ensures
        match send_error(identity_views(identities@), *request) {
            Some(e) => r is Err && r->Err_0@ == e,
            None => r is Ok && sends(
                identity_views(identities@),
                project_root@,
                *request,
                opt_text(*launch),
                token@,
                r->Ok_0,
            ),
        },
{
    let sender = match &request.sender_agent_id {
        Some(raw) => normalize_agent_ref(raw),
        None => String::new(),
    };
    if sender.as_str().is_empty() {
        return Err(own("agent bus send requires senderAgentId"));
    }
    let target = match resolve_agent_identity(identities, &request.target) {
        Ok(x) => x,
        Err(e) => {
            return Err(e);
        },
    };
    let actor_name = sign(identities, &sender, &request.sender_name);
    let text = trim(&request.text);
    if text.as_str().is_empty() {
        return Err(own("agent bus send requires non-empty text"));
    }
    let fallback = event_id_with(&sender, &target.agent_id, token);
    let id = or_text(non_blank(&request.event_id), &fallback);
    let key = or_text(non_blank(&request.dedupe_key), &id);
    Ok(
        ActorMessage {
            project_root: own(project_root),
            actor_id: sender,
            actor_name,
            target_agent_id: target.agent_id,
            intent: or_text(non_blank(&request.intent), "message"),
            text,
            event_id: id,
            dedupe_key: Some(key),
            launch_request: copy_opt(launch),
        },
    )
}

/// Why a delivery cannot be tried again, if it cannot.
pub open spec fn retry_error(s: Seq<(Text, Text, Text)>, q: AgentBusRetryDeliveryRequest) -> Option<Text> {
    if reference(q.sender_agent_id@).len() == 0 {
        Some("agent bus retry requires senderAgentId"@)
    } else if resolved(s, q.target_agent_id@) is Err {
        Some(resolved(s, q.target_agent_id@)->Err_0)
    } else if trimmed(q.text@).len() == 0 {
        Some("agent bus retry requires non-empty text"@)
    } else if trimmed(q.original_event_id@).len() == 0 {
        Some("agent bus retry requires originalEventId"@)
    } else {
        None
    }
}

/// The message that a retry sends. It has no key: a retry is never a duplicate.
pub open spec fn retries(
    s: Seq<(Text, Text, Text)>,
    root: Text,
    q: AgentBusRetryDeliveryRequest,
    launch: Option<Text>,
    token: Text,
    m: ActorMessage,
) -> bool {
    let sender = reference(q.sender_agent_id@);
    &&& m.project_root@ == root
    &&& m.actor_id@ == sender
    &&& m.actor_name@ == signature(s, sender, opt_text(q.sender_name))
    &&& m.target_agent_id@ == resolved(s, q.target_agent_id@)->Ok_0.0
    &&& m.intent@ == or_else(given(opt_text(q.intent)), "handoff"@)
    &&& m.text@ == trimmed(q.text@)
    &&& m.event_id@ == or_else(
        given(opt_text(q.attempt_event_id)),
        trimmed(q.original_event_id@) + ":retry:"@ + token,
    )
    &&& m.dedupe_key is None
    &&& opt_text(m.launch_request) == launch
}

pub fn prepare_retry(
    identities: &Vec<AgentIdentity>,
    project_root: &str,
    request: &AgentBusRetryDeliveryRequest,
    launch: &Option<String>,
    token: &str,
) -> (r: Result<ActorMessage, String>)
    ensures
        match retry_error(identity_views(identities@), *request) {
            Some(e) => r is Err && r->Err_0@ == e,
            None => r is Ok && retries(
                identity_views(identities@),
                project_root@,
                *request,
                opt_text(*launch),
                token@,
                r->Ok_0,
            ),
        },
{
    let sender = normalize_agent_ref(&request.sender_agent_id);
    if sender.as_str().is_empty() {
        return Err(own("agent bus retry requires senderAgentId"));
    }
    let target = match resolve_agent_identity(identities, &request.target_agent_id) {
        Ok(x) => x,
        Err(e) => {
            return Err(e);
        },
    };
    let actor_name = sign(identities, &sender, &request.sender_name);
    let text = trim(&request.text);
    if text.as_str().is_empty() {
        return Err(own("agent bus retry requires non-empty text"));
    }
    let original = trim(&request.original_event_id);
    if original.as_str().is_empty() {
        return Err(own("agent bus retry requires originalEventId"));
    }
    let fallback = retry_event_id(&original, token);
    Ok(
        ActorMessage {
            project_root: own(project_root),
            actor_id: sender,
            actor_name,
            target_agent_id: target.agent_id,
            intent: or_text(non_blank(&request.intent), "handoff"),
            text,
            event_id: or_text(non_blank(&request.attempt_event_id), &fallback),
            dedupe_key: None,
            launch_request: copy_opt(launch),
        },
    )
}

/// What follows the first attempt to write to an agent's terminal.
pub enum Attempt {
    /// It was written.
    Delivered,
    /// Start the agent, wait for it, and write once more.
    StartAndRepeat,
    /// Nothing more can be tried.
    Failed(String),
}

/// An agent that does not answer is started once, if it is known how.
pub fn after_first_attempt(message: &ActorMessage, outcome: Result<(), String>) -> (r: Attempt)
    ensures
        outcome is Ok ==> r is Delivered,
        outcome is Err && message.launch_request is Some ==> r is StartAndRepeat,
        outcome is Err && message.launch_request is None ==> (r matches Attempt::Failed(e) && e == outcome->Err_0),
{
    match outcome {
        Ok(_) => Attempt::Delivered,
        Err(e) => if message.launch_request.is_some() {
            Attempt::StartAndRepeat
        } else {
            Attempt::Failed(e)
        },
    }
}

/// What the room's log holds of a message.
pub open spec fn logs(record: ActorMessageRecord, m: ActorMessage, text: Text, id: Text) -> bool {
    &&& record.actor_id@ == m.actor_id@
    &&& record.actor_name@ == m.actor_name@
    &&& record.text@ == text
    &&& texts(record.target_agent_ids@) == seq![m.target_agent_id@]
    &&& record.event_id@ == id
}

fn log_line(message: &ActorMessage, text: String, id: String) -> (r: ActorMessageRecord)
    ensures
        logs(r, *message, text@, id@),
{
    let mut targets: Vec<String> = Vec::new();
    targets.push(message.target_agent_id.clone());
    assert(texts(targets@) =~= seq![message.target_agent_id@]);
    ActorMessageRecord {
        actor_id: message.actor_id.clone(),
        actor_name: message.actor_name.clone(),
        text,
        target_agent_ids: targets,
        event_id: id,
    }
}

pub fn message_record(message: &ActorMessage) -> (r: ActorMessageRecord)
    ensures
        logs(r, *message, message.text@, message.event_id@),
{
    log_line(message, message.text.clone(), message.event_id.clone())
}

/// The log line for an agent that did not answer.
fn skipped_record(message: &ActorMessage) -> (r: ActorMessageRecord)
    ensures
        logs(
            r,
            *message,
            message.target_agent_id@ + " is not responding. Let's skip this for now."@,
            message.event_id@ + ":skipped"@,
        ),
{
    log_line(
        message,
        plus(&message.target_agent_id, " is not responding. Let's skip this for now."),
        plus(&message.event_id, ":skipped"),
    )
}

/// What the log shows after a delivery: a line only where it failed.
pub fn closing_record(message: &ActorMessage, outcome: &Result<(), String>) -> (r: Option<ActorMessageRecord>)
    ensures
        outcome is Ok ==> r is None,
        outcome is Err ==> r is Some && logs(
            r->0,
            *message,
            message.target_agent_id@ + " is not responding. Let's skip this for now."@,
            message.event_id@ + ":skipped"@,
        ),
{
    match outcome {
        Ok(_) => None,
        Err(_) => Some(skipped_record(message)),
    }
}

/// Remembers which messages were delivered.
pub struct AgentBusManager {
    pub delivered_keys: OrderedSet<String>,
}

/// The keys after a delivery: that of the message is added if it came through.
pub open spec fn notes(before: AgentBusManager, after: AgentBusManager, key: Option<Text>, came_through: bool) -> bool {
    forall|k: Text| #[trigger] after.delivered(k) <==> before.delivered(k) || (came_through && key == Some(k))
}

impl AgentBusManager {
    pub open spec fn wf(&self) -> bool {
        self.delivered_keys.wf()
    }

    /// The keys of the messages delivered so far.
    pub open spec fn delivered(&self, key: Text) -> bool {
        self.delivered_keys@.contains(seq![key])
    }

    pub fn new() -> (r: AgentBusManager)
        ensures
            r.wf(),
            forall|key: Text| !r.delivered(key),
    {
        AgentBusManager { delivered_keys: OrderedSet::new() }
    }

    /// The identifier of the agent that a reference means.
    pub fn resolve_target_agent_id(&self, identities: &Vec<AgentIdentity>, target: &str) -> (r: Result<
        String,
        String,
    >)
        ensures
            match resolved(identity_views(identities@), target@) {
                Ok(x) => r is Ok && r->Ok_0@ == x.0,
                Err(e) => r is Err && r->Err_0@ == e,
            },
    {
        match resolve_agent_identity(identities, target) {
            Ok(x) => Ok(x.agent_id),
            Err(e) => Err(e),
        }
    }

    /// A message with the same key was delivered before.
    pub open spec fn seen(&self, m: ActorMessage, recorded: bool) -> bool {
        m.dedupe_key is Some && trimmed(m.dedupe_key->0@).len() > 0 && (self.delivered(m.dedupe_key->0@) || recorded)
    }

    /// Was a message with this key delivered before, in this run or, as the
    /// room's log shows, earlier? A blank key is no key.
    pub fn is_duplicate(&self, key: &Option<String>, recorded: bool) -> (r: bool)
        requires
            self.wf(),
        ensures
            r == (key is Some && trimmed(key->0@).len() > 0 && (self.delivered(key->0@) || recorded)),
    {
        match key {
            Some(k) => !blank(k) && (self.delivered_keys.has(k) || recorded),
            None => false,
        }
    }

    /// Note the outcome of a delivery. Only what was delivered counts as seen.
    pub fn settle(&mut self, message: &ActorMessage, outcome: Result<(), String>) -> (r: ActorDeliveryResult)
        requires
            old(self).wf(),
        ensures
            final(self).wf(),
            r.submitted == outcome is Ok,
            !r.duplicate,
            outcome is Ok ==> r.skipped_reason is None,
            outcome is Err ==> r.skipped_reason == Some(outcome->Err_0),
            notes(*old(self), *final(self), opt_text(message.dedupe_key), outcome is Ok),
    {
        let ghost before = self.delivered_keys@;
        match outcome {
            Err(e) => ActorDeliveryResult { submitted: false, skipped_reason: Some(e), duplicate: false },
            Ok(_) => {
                if let Some(k) = &message.dedupe_key {
                    self.delivered_keys.insert(k.clone());
                    proof {
                        assert forall|key: Text| #[trigger] self.delivered(key) <==> before.contains(seq![key])
                            || k@ == key by {
                            assert(seq![key][0] == key);
                            assert(seq![k@][0] == k@);
                        }
                    }
                }
                ActorDeliveryResult { submitted: true, skipped_reason: None, duplicate: false }
            },
        }
    }
}

impl AgentBusManager {
    /// The message that a request asks for. Its identifier, where the request
    /// names none, is a fresh one.
    pub fn send_request(
        &self,
        identities: &Vec<AgentIdentity>,
        project_root: &str,
        request: &AgentBusSendRequest,
        launch: &Option<String>,
    ) -> (r: Result<ActorMessage, String>)
        ensures
            match send_error(identity_views(identities@), *request) {
                Some(e) => r is Err && r->Err_0@ == e,
                None => r is Ok && exists|token: Text| #[trigger]
                    is_token(token) && sends(
                        identity_views(identities@),
                        project_root@,
                        *request,
                        opt_text(*launch),
                        token,
                        r->Ok_0,
                    ),
            },
    {
        let token = fresh_token();
        prepare_send(identities, project_root, request, launch, &token)
    }

    /// The message that a retry sends. Its identifier, where the request names
    /// none, is the first one's with a fresh ending.
    pub fn retry_delivery(
        &self,
        identities: &Vec<AgentIdentity>,
        project_root: &str,
        request: &AgentBusRetryDeliveryRequest,
        launch: &Option<String>,
    ) -> (r: Result<ActorMessage, String>)
        ensures
            match retry_error(identity_views(identities@), *request) {
                Some(e) => r is Err && r->Err_0@ == e,
                None => r is Ok && exists|token: Text| #[trigger]
                    is_ending(token) && retries(
                        identity_views(identities@),
                        project_root@,
                        *request,
                        opt_text(*launch),
                        token,
                        r->Ok_0,
                    ),
            },
    {
        let token = fresh_hex();
        assert(is_ending(token@));
        prepare_retry(identities, project_root, request, launch, &token)
    }

    /// How a message goes out: one that was seen before is answered at once,
    /// any other is logged and then delivered.
    pub fn send_actor_message(&self, message: &ActorMessage, recorded: bool) -> (r: Sending)
        requires
            self.wf(),
        ensures
            self.seen(*message, recorded) ==> (r matches Sending::Done(d) && !d.submitted && d.duplicate
                && d.skipped_reason is None),
            !self.seen(*message, recorded) ==> (r matches Sending::Deliver(l) && logs(
                l,
                *message,
                message.text@,
                message.event_id@,
            )),
    {
        if self.is_duplicate(&message.dedupe_key, recorded) {
            Sending::Done(duplicate_result())
        } else {
            Sending::Deliver(message_record(message))
        }
    }
}

/// The random part of a retry's identifier.
pub open spec fn is_ending(s: Text) -> bool {
    s.len() == 32 && all_hex(s)
}

/// What to do with a message.
pub enum Sending {
    /// Nothing more: this is the answer.
    Done(ActorDeliveryResult),
    /// Log this line, then write the message to the agent's terminal.
    Deliver(ActorMessageRecord),
}

/// A message that was seen before is not sent again.
pub fn duplicate_result() -> (r: ActorDeliveryResult)
    ensures
        !r.submitted,
        r.skipped_reason is None,
        r.duplicate,
{
    ActorDeliveryResult { submitted: false, skipped_reason: None, duplicate: true }
}

pub fn send_result(message: &ActorMessage, delivery: ActorDeliveryResult) -> (r: AgentBusSendResult)
    ensures
        r.event_id@ == message.event_id@,
        r.target_agent_id@ == message.target_agent_id@,
        r.submitted == delivery.submitted,
        r.duplicate == delivery.duplicate,
        r.skipped_reason == delivery.skipped_reason,
{
    AgentBusSendResult {
        event_id: message.event_id.clone(),
        target_agent_id: message.target_agent_id.clone(),
        submitted: delivery.submitted,
        duplicate: delivery.duplicate,
        skipped_reason: delivery.skipped_reason,
    }
}

pub fn retry_result(message: &ActorMessage, outcome: Result<(), String>) -> (r: AgentBusRetryDeliveryResult)
    ensures
        r.event_id@ == message.event_id@,
        r.target_agent_id@ == message.target_agent_id@,
        r.submitted == outcome is Ok,
        outcome is Ok ==> r.skipped_reason is None,
        outcome is Err ==> r.skipped_reason == Some(outcome->Err_0),
{
    let submitted = outcome.is_ok();
    AgentBusRetryDeliveryResult {
        event_id: message.event_id.clone(),
        target_agent_id: message.target_agent_id.clone(),
        submitted,
        skipped_reason: match outcome {
            Ok(_) => None,
            Err(e) => Some(e),
        },
    }
}

// ------------------------------------------------------------ dispatch files

pub const DISPATCH_SCHEMA: &'static str = "kota.agent-bus.dispatch.v1";

/// May a dispatch file be handled for this project?
pub fn check_dispatch(schema: &str, dispatch_root: &str, project_root: &str, same_place: bool) -> (r: Result<
    (),
    String,
>)
    ensures
        schema@ != DISPATCH_SCHEMA@ ==> r is Err && r->Err_0@ == "unsupported agent bus dispatch schema: "@ + schema@,
        schema@ == DISPATCH_SCHEMA@ && !same_place ==> r is Err && r->Err_0@
            == "agent bus dispatch project mismatch: "@ + dispatch_root@ + " != "@ + project_root@,
        schema@ == DISPATCH_SCHEMA@ && same_place ==> r is Ok,
{
    if !same(schema, DISPATCH_SCHEMA) {
        return Err(plus("unsupported agent bus dispatch schema: ", schema));
    }
    if !same_place {
        let mut e = own("agent bus dispatch project mismatch: ");
        e.append(dispatch_root);
        e.append(" != ");
        e.append(project_root);
        return Err(e);
    }
    Ok(())
}

/// The name of a dispatch file.
pub fn dispatch_file_name(event: &str) -> (r: String)
    ensures
        r@ == sanitized(event@) + ".json"@,
{
    plus(&sanitize_id(event), ".json")
}

/// The name tried when a file of that name is there already.
pub open spec fn numbered(stem: Text, ext: Text, n: nat) -> Text {
    if ext.len() == 0 {
        stem + "-"@ + decimal(n)
    } else {
        stem + "-"@ + decimal(n) + "."@ + ext
    }
}

pub fn numbered_name(stem: &str, ext: &str, n: u64) -> (r: String)
    ensures
        r@ == numbered(stem@, ext@, n as nat),
{
    let mut out = plus3(stem, "-", &to_decimal(n));
    if !ext.is_empty() {
        out.append(".");
        out.append(ext);
    }
    out
}

/// A text as one word of a shell command.
pub open spec fn quote_char(c: char) -> Text {
    if c == '\'' {
        "'\\''"@
    } else {
        seq![c]
    }
}

pub open spec fn quote_fn() -> spec_fn(char) -> Text {
    |c: char| quote_char(c)
}

pub open spec fn quoted(s: Text) -> Text {
    "'"@ + spelled(s, quote_fn()) + "'"@
}

pub fn shell_quote(value: &str) -> (r: String)
    ensures
        r@ == quoted(value@),
{
    let v = chars_of(value);
    let mut out = String::new();
    let mut i: usize = 0;
    while i < v.len()
        invariant
            i <= v.len(),
            out@ == spelled(v@.take(i as int), quote_fn()),
        decreases v.len() - i,
    {
        let c = v[i];
        assert(v@.take(i + 1).drop_last() =~= v@.take(i as int));
        assert(v@.take(i + 1).last() == c);
        if c == '\'' {
            out.append("'\\''");
        } else {
            let ghost was = out@;
            out.push(c);
            assert(out@ =~= was + seq![c]);
        }
        i += 1;
    }
    assert(v@.take(i as int) =~= v@);
    plus3("'", &out, "'")
}

// -------------------------------------------------------------- command line

/// The arguments of `send`, with what the environment gives.
pub struct SendArgs {
    pub target: Option<String>,
    pub intent: String,
    pub project_root: Option<String>,
    pub sender_agent_id: Option<String>,
    pub sender_name: Option<String>,
}

pub struct SendArgsModel {
    pub target: Option<Text>,
    pub intent: Text,
    pub project_root: Option<Text>,
    pub sender_agent_id: Option<Text>,
    pub sender_name: Option<Text>,
}

impl View for SendArgs {
    type V = SendArgsModel;

    open spec fn view(&self) -> SendArgsModel {
        SendArgsModel {
            target: opt_text(self.target),
            intent: self.intent@,
            project_root: opt_text(self.project_root),
            sender_agent_id: opt_text(self.sender_agent_id),
            sender_name: opt_text(self.sender_name),
        }
    }
}

/// The argument after the first, if there is one.
pub open spec fn second(args: Seq<Text>) -> Option<Text> {
    if args.len() > 1 {
        Some(args[1])
    } else {
        None
    }
}

pub open spec fn after_two(args: Seq<Text>) -> Seq<Text> {
    if args.len() > 2 {
        args.skip(2)
    } else {
        Seq::empty()
    }
}

/// How the arguments of `send` are read: each option takes the next argument.
pub open spec fn send_args(args: Seq<Text>, acc: SendArgsModel) -> Result<SendArgsModel, Text>
    decreases args.len(),
{
    if args.len() == 0 {
        Ok(acc)
    } else if args[0] == "--to"@ {
        send_args(after_two(args), SendArgsModel { target: second(args), ..acc })
    } else if args[0] == "--intent"@ {
        match second(args) {
            Some(t) => send_args(after_two(args), SendArgsModel { intent: t, ..acc }),
            None => Err("usage: kota-agent-bus send --intent <intent>"@),
        }
    } else if args[0] == "--project-root"@ {
        send_args(after_two(args), SendArgsModel { project_root: second(args), ..acc })
    } else if args[0] == "--from"@ {
        send_args(after_two(args), SendArgsModel { sender_agent_id: second(args), ..acc })
    } else if args[0] == "--from-name"@ {
        send_args(after_two(args), SendArgsModel { sender_name: second(args), ..acc })
    } else {
        Err("unknown kota-agent-bus send argument: "@ + args[0])
    }
}

pub open spec fn send_args_result(r: Result<SendArgs, String>) -> Result<SendArgsModel, Text> {
    match r {
        Ok(x) => Ok(x@),
        Err(e) => Err(e@),
    }
}

fn arg_at(args: &Vec<String>, i: usize) -> (r: Option<String>)
    ensures
        opt_text(r) == (if i < args@.len() {
            Some(args@[i as int]@)
        } else {
            None
        }),
{
    if i < args.len() {
        Some(args[i].clone())
    } else {
        None
    }
}

pub fn parse_send_args(args: &Vec<String>, env: SendArgs) -> (r: Result<SendArgs, String>)
    ensures
        send_args_result(r) == send_args(texts(args@), env@),
{
    let ghost all = texts(args@);
    let ghost start = env@;
    let mut acc = env;
    let mut i: usize = 0;
    assert(all.skip(0) =~= all);
    while i < args.len()
        invariant
            all == texts(args@),
            start == env@,
            i <= args@.len(),
            send_args(all, start) == send_args(all.skip(i as int), acc@),
        decreases args@.len() - i,
    {
        let ghost rest = all.skip(i as int);
        let value = arg_at(args, i + 1);
        let next: usize = if args.len() - i > 2 {
            i + 2
        } else {
            args.len()
        };
        proof {
            assert(rest[0] == args@[i as int]@);
            assert(opt_text(value) == second(rest));
            assert(after_two(rest) =~= all.skip(next as int));
        }
        if same(&args[i], "--to") {
            acc.target = value;
        } else if same(&args[i], "--intent") {
            match value {
                Some(t) => {
                    acc.intent = t;
                },
                None => {
                    return Err(own("usage: kota-agent-bus send --intent <intent>"));
                },
            }
        } else if same(&args[i], "--project-root") {
            acc.project_root = value;
        } else if same(&args[i], "--from") {
            acc.sender_agent_id = value;
        } else if same(&args[i], "--from-name") {
            acc.sender_name = value;
        } else {
            return Err(plus("unknown kota-agent-bus send argument: ", &args[i]));
        }
        i = next;
    }
    assert(all.skip(i as int) =~= Seq::<Text>::empty());
    Ok(acc)
}

/// What `send` needs before it looks for its target.
pub struct SendPlan {
    pub project_root: String,
    pub sender_agent_id: String,
    pub target: String,
}

/// Check the arguments in order: the project, the sender, the target.
/// `found_root` is the project around the working directory, if there is one.
pub fn plan_send(args: &SendArgs, found_root: &Option<String>) -> (r: Result<SendPlan, String>)
    ensures
        ({
            let root = either(opt_text(args.project_root), opt_text(*found_root));
            let sender = match args.sender_agent_id {
                Some(t) => reference(t@),
                None => Seq::empty(),
            };
            let target = given(opt_text(args.target));
            if root is None {
                r is Err && r->Err_0@ == "kota-agent-bus send requires KOTA_PROJECT_ROOT or --project-root"@
            } else if sender.len() == 0 {
                r is Err && r->Err_0@ == "kota-agent-bus send requires KOTA_AGENT_ID or --from"@
            } else if target is None {
                r is Err && r->Err_0@ == "usage: kota-agent-bus send --to <AKA-or-agent-id>"@
            } else {
                r is Ok && r->Ok_0.project_root@ == root->0 && r->Ok_0.sender_agent_id@ == sender
                    && r->Ok_0.target@ == target->0
            }
        }),
{
    let root = match &args.project_root {
        Some(t) => t.clone(),
        None => match found_root {
            Some(t) => t.clone(),
            None => {
                return Err(own("kota-agent-bus send requires KOTA_PROJECT_ROOT or --project-root"));
            },
        },
    };
    let sender = match &args.sender_agent_id {
        Some(t) => normalize_agent_ref(t),
        None => String::new(),
    };
    if sender.as_str().is_empty() {
        return Err(own("kota-agent-bus send requires KOTA_AGENT_ID or --from"));
    }
    match non_blank(&args.target) {
        Some(target) => Ok(SendPlan { project_root: root, sender_agent_id: sender, target }),
        None => Err(own("usage: kota-agent-bus send --to <AKA-or-agent-id>")),
    }
}

/// A message as it is written into the outbox.
pub struct AgentBusDispatchFile {
    pub schema: String,
    pub created_at: String,
    pub project_root: String,
    pub sender_agent_id: String,
    pub sender_name: Option<String>,
    pub target: String,
    pub intent: String,
    pub text: String,
    pub event_id: String,
    pub dedupe_key: String,
}

/// The name that a message from the command line is signed with: the given
/// one, else the one in the sender's metadata.
pub open spec fn cli_name(name: Option<Text>, doc: Option<YamlModel>) -> Option<Text> {
    match given(name) {
        Some(t) => Some(t),
        None => given(either(written(field(doc, "display-name"@)), written(field(doc, "displayName"@)))),
    }
}

/// The message of `send`, under a fresh identifier, which is its key too.
/// `metadata` is the text of the sender's metadata, `target` the agent that
/// was found.
pub fn compose_dispatch(plan: &SendPlan, args: &SendArgs, metadata: &Option<String>, target: &str, body: &str) -> (r:
    AgentBusDispatchFile)
    ensures
        r.schema@ == DISPATCH_SCHEMA@,
        r.project_root@ == plan.project_root@,
        r.sender_agent_id@ == plan.sender_agent_id@,
        opt_text(r.sender_name) == cli_name(opt_text(args.sender_name), metadata_doc(*metadata)),
        r.target@ == target@,
        r.intent@ == args.intent@,
        r.text@ == body@,
        r.dedupe_key@ == r.event_id@,
        ends(r.created_at@, "+00:00"@),
        exists|token: Text|
            is_token(token) && r.event_id@ == #[trigger] event_id(plan.sender_agent_id@, target@, token),
{
    let name = match non_blank(&args.sender_name) {
        Some(t) => Some(t),
        None => {
            let doc = match metadata {
                Some(text) => parse_yaml(text),
                None => None,
            };
            let found = match string_field(&doc, "display-name") {
                Some(t) => Some(t),
                None => string_field(&doc, "displayName"),
            };
            non_blank(&found)
        },
    };
    let id = mint_event_id(&plan.sender_agent_id, target);
    AgentBusDispatchFile {
        schema: own(DISPATCH_SCHEMA),
        created_at: now_precise(),
        project_root: plan.project_root.clone(),
        sender_agent_id: plan.sender_agent_id.clone(),
        sender_name: name,
        target: own(target),
        intent: args.intent.clone(),
        text: own(body),
        dedupe_key: id.clone(),
        event_id: id,
    }
}

/// The request that a message in the outbox stands for.
pub fn dispatch_request(file: AgentBusDispatchFile, project_root: &str, target: String) -> (r: AgentBusSendRequest)
    ensures
        opt_text(r.project_root) == Some(project_root@),
        opt_text(r.sender_agent_id) == Some(file.sender_agent_id@),
        r.sender_name == file.sender_name,
        r.target == target,
        opt_text(r.intent) == Some(file.intent@),
        r.text == file.text,
        opt_text(r.event_id) == Some(file.event_id@),
        opt_text(r.dedupe_key) == Some(file.dedupe_key@),
{
    AgentBusSendRequest {
        project_root: Some(own(project_root)),
        sender_agent_id: Some(file.sender_agent_id),
        sender_name: file.sender_name,
        target,
        intent: Some(file.intent),
        text: file.text,
        event_id: Some(file.event_id),
        dedupe_key: Some(file.dedupe_key),
    }
}

/// The body of a message read from standard input.
pub fn message_body(input: &str) -> (r: Result<String, String>)
    ensures
        trimmed(input@).len() == 0 ==> r is Err && r->Err_0@
            == "kota-agent-bus requires a non-empty message body on stdin"@,
        trimmed(input@).len() > 0 ==> r is Ok && r->Ok_0@ == trimmed(input@),
{
    let body = trim(input);
    if body.as_str().is_empty() {
        Err(own("kota-agent-bus requires a non-empty message body on stdin"))
    } else {
        Ok(body)
    }
}

/// A message that came through once is a duplicate from then on, whatever the
/// room's log shows.
pub proof fn a_delivered_message_is_a_duplicate(
    before: AgentBusManager,
    after: AgentBusManager,
    m: ActorMessage,
    recorded: bool,
)
    requires
        notes(before, after, opt_text(m.dedupe_key), true),
        m.dedupe_key is Some,
        trimmed(m.dedupe_key->0@).len() > 0,
    ensures
        after.seen(m, recorded),
{
    assert(after.delivered(m.dedupe_key->0@));
}

/// A message that failed may be sent again: the attempt leaves no trace.
pub proof fn a_failed_message_can_be_sent_again(
    before: AgentBusManager,
    after: AgentBusManager,
    m: ActorMessage,
    recorded: bool,
)
    requires
        notes(before, after, opt_text(m.dedupe_key), false),
    ensures
        after.seen(m, recorded) == before.seen(m, recorded),
{
    if m.dedupe_key is Some {
        assert(after.delivered(m.dedupe_key->0@) == before.delivered(m.dedupe_key->0@));
    }
}

/// A reference with or without `@` before it means the same.
pub proof fn an_at_sign_does_not_matter(t: Text)
    requires
        t.len() > 0,
        !is_space(t[0]),
        !is_space(t.last()),
        t[0] != '@',
    ensures
        reference(t) == t,
        reference(seq!['@'] + t) == t,
{
    let a = seq!['@'] + t;
    assert(a[0] == '@' && a.last() == t.last());
    assert(trimmed(t) == t);
    assert(trimmed(a) == a);
    assert(a.drop_first() =~= t);
    reveal_with_fuel(drop_front, 3);
    assert(drop_front(a, only('@')) == t);
}

/// An agent is gone exactly if its status says so, in whatever case; one whose
/// metadata say nothing of it is there.
pub proof fn a_gone_agent_is_not_listed(id: Text, doc: Option<YamlModel>, t: Text)
    ensures
        written(field(doc, "status"@)) is None ==> identity_model(id, doc) is Some,
        written(field(doc, "status"@)) == Some(t) ==> (identity_model(id, doc) is None <==> lower(trimmed(t)) == "archived"@
            || lower(trimmed(t)) == "deleted"@ || lower(trimmed(t)) == "dismissed"@ || lower(trimmed(t)) == "removed"@),
        identity_model(id, doc) matches Some(x) ==> {
            &&& x.0 == id
            &&& written(field(doc, "display-name"@)) == Some(t) ==> x.1 == t
            &&& written(field(doc, "display-name"@)) is None && written(field(doc, "displayName"@)) == Some(t) ==> x.1 == t
            &&& written(field(doc, "display-name"@)) is None && written(field(doc, "displayName"@)) is None ==> x.1 == id
            &&& x.2 == aka_of(x.1)
        },
{
    reveal_strlit("active");
    reveal_strlit("archived");
    reveal_strlit("deleted");
    reveal_strlit("dismissed");
    reveal_strlit("removed");
    let w = "active"@;
    assert(w.len() == 6 && "archived"@.len() == 8 && "deleted"@.len() == 7 && "dismissed"@.len() == 9
        && "removed"@.len() == 7);
    assert(w[0] == 'a' && w.last() == 'e');
    assert(trimmed(w) == w);
    assert(lower(w).len() == 6);
}

/// What an agent is called for short: its name without the project, a title with
/// the name behind it, and a short first name alone.
pub proof fn an_agent_is_called_for_short(display: Text)
    ensures
        trimmed(display).len() == 0 ==> aka_of(display) == "Agent"@,
        trimmed(display).len() > 0 ==> ({
            let name = bare_name(display);
            let w = words(name);
            &&& w.len() >= 2 && (w[0] == "Dr."@ || w[0] == "Jr."@ || w[0] == "Sr."@ || w[0] == "Lady"@ || w[0] == "Lord"@)
                ==> aka_of(display) == w[0] + " "@ + w[1]
            &&& w.len() >= 2 && !is_title(w[0]) && (w[0] == "CC"@ || w[0] == "Dex"@ || w[0] == "Gem"@ || w[0] == "Op"@)
                ==> aka_of(display) == w[0]
            &&& w.len() < 2 || (!is_title(w[0]) && !is_short_name(w[0])) ==> aka_of(display) == name
        }),
        !occurs(trimmed(display), " v. "@) && !ends(trimmed(display), "-Bunshin"@) && !ends(
            trimmed(display),
            "-Bunshin II"@,
        ) && trimmed(trimmed(display)) == trimmed(display) ==> bare_name(display) == trimmed(display),
{
    let t = trimmed(display);
    a_text_is_cut_at_the_first_mark(t, " v. "@);
}

proof fn lemma_identities(files: Seq<AgentFile>, i: int, x: (Text, Text, Text))
    ensures
        0 <= i < files.len() ==> (identity_model(files[i].agent_id@, metadata_doc(files[i].metadata)) matches Some(y)
            ==> identities_of(files).contains(y)),
        identities_of(files).contains(x) ==> exists|k: int|
            0 <= k < files.len() && identity_model((#[trigger] files[k]).agent_id@, metadata_doc(files[k].metadata)) == Some(
                x,
            ),
    decreases files.len(),
{
    let out = identities_of(files);
    if files.len() > 0 {
        let head = files.drop_last();
        let rest = identities_of(head);
        lemma_identities(head, i, x);
        assert(files[files.len() - 1] == files.last());
        assert(forall|k: int| 0 <= k < head.len() ==> head[k] == #[trigger] files[k]);
        if 0 <= i < files.len() {
            let m = identity_model(files[i].agent_id@, metadata_doc(files[i].metadata));
            if let Some(y) = m {
                if i < head.len() {
                    let j = choose|j: int| 0 <= j < rest.len() && rest[j] == y;
                    assert(out[j] == y);
                } else {
                    assert(out[rest.len() as int] == y);
                }
            }
        }
        if out.contains(x) {
            let j = choose|j: int| 0 <= j < out.len() && out[j] == x;
            if j < rest.len() {
                assert(rest[j] == x);
                assert(rest.contains(x));
                let k = choose|k: int|
                    0 <= k < head.len() && identity_model((#[trigger] head[k]).agent_id@, metadata_doc(head[k].metadata))
                        == Some(x);
                assert(files[k] == head[k]);
            }
        }
    }
}

/// Every directory of an agent that is not gone is listed, and no other.
pub proof fn every_present_agent_is_listed(files: Seq<AgentFile>, i: int, x: (Text, Text, Text))
    ensures
        0 <= i < files.len() ==> (identity_model(files[i].agent_id@, metadata_doc(files[i].metadata)) matches Some(y)
            ==> identities_of(files).contains(y)),
        identities_of(files).contains(x) ==> exists|k: int|
            0 <= k < files.len() && identity_model((#[trigger] files[k]).agent_id@, metadata_doc(files[k].metadata)) == Some(
                x,
            ),
{
    lemma_identities(files, i, x);
}

/// A reference means an agent that is listed and called so: by its identifier,
/// and only if no agent is by one of its names.
pub proof fn a_reference_means_who_is_called_so(s: Seq<(Text, Text, Text)>, raw: Text, i: int)
    ensures
        ({
            let wanted = unicode_lower(reference(raw));
            &&& wanted.len() == 0 ==> resolved(s, raw) is Err
            &&& resolved(s, raw) matches Ok(x) ==> s.contains(x) && (unicode_lower(x.0) == wanted || unicode_lower(x.1)
                == wanted || unicode_lower(x.2) == wanted)
            &&& resolved(s, raw) is Ok && 0 <= i < s.len() && unicode_lower(s[i].0) == wanted ==> (resolved(s, raw) matches Ok(
                x,
            ) && x.0 == s[i].0)
            &&& resolved(s, raw) is Ok && 0 <= i < s.len() && (unicode_lower(s[i].1) == wanted || unicode_lower(s[i].2)
                == wanted) ==> (resolved(s, raw) matches Ok(x) && (x.0 == s[i].0 || unicode_lower(x.0) == wanted))
        }),
{
    let wanted = unicode_lower(reference(raw));
    let exact = s.filter(id_test(wanted));
    let named = s.filter(name_test(wanted));
    broadcast use vstd::seq_lib::group_filter_ensures;

    if resolved(s, raw) is Ok {
        let x = resolved(s, raw)->Ok_0;
        let found = candidates(s, wanted);
        assert(found[0] == x);
        assert(found.contains(x));
        lemma_filter_from(s, id_test(wanted), x);
        lemma_filter_from(s, name_test(wanted), x);
        if exact.len() > 0 {
            assert(id_test(wanted)(exact[0]));
        } else {
            assert(name_test(wanted)(named[0]));
        }
        if 0 <= i < s.len() && unicode_lower(s[i].0) == wanted {
            assert(id_test(wanted)(s[i]));
            assert(exact.contains(s[i]));
            let k = choose|k: int| 0 <= k < exact.len() && exact[k] == s[i];
            assert(exact[k].0 == exact[0].0);
        } else if 0 <= i < s.len() && (unicode_lower(s[i].1) == wanted || unicode_lower(s[i].2) == wanted) {
            assert(name_test(wanted)(s[i]));
            assert(named.contains(s[i]));
            if exact.len() == 0 {
                let k = choose|k: int| 0 <= k < named.len() && named[k] == s[i];
                assert(named[k].0 == named[0].0);
            }
        }
    }
}

proof fn lemma_filter_from(s: Seq<(Text, Text, Text)>, f: spec_fn((Text, Text, Text)) -> bool, x: (Text, Text, Text))
    ensures
        s.filter(f).contains(x) ==> s.contains(x) && f(x),
    decreases s.len(),
{
    reveal(Seq::filter);
    if s.len() > 0 {
        let head = s.drop_last();
        lemma_filter_from(head, f, x);
        assert(s[s.len() - 1] == s.last());
        let out = s.filter(f);
        let rest = head.filter(f);
        if out.contains(x) {
            let k = choose|k: int| 0 <= k < out.len() && out[k] == x;
            if k < rest.len() {
                assert(rest[k] == x);
                assert(head.contains(x));
                let j = choose|j: int| 0 <= j < head.len() && head[j] == x;
                assert(s[j] == x);
            }
        }
    }
}

/// The only agent with an identifier is found by it, whatever others are called.
pub proof fn an_identifier_finds_its_agent(s: Seq<(Text, Text, Text)>, raw: Text, i: int)
    requires
        0 <= i < s.len(),
        unicode_lower(s[i].0) == unicode_lower(reference(raw)),
        unicode_lower(reference(raw)).len() > 0,
        forall|j: int| 0 <= j < s.len() && j != i ==> unicode_lower((#[trigger] s[j]).0) != unicode_lower(s[i].0),
    ensures
        resolved(s, raw) == Ok::<(Text, Text, Text), Text>(s[i]),
{
    let wanted = unicode_lower(reference(raw));
    let exact = s.filter(id_test(wanted));
    broadcast use vstd::seq_lib::group_filter_ensures;

    assert(id_test(wanted)(s[i]));
    assert(exact.contains(s[i]));
    assert forall|k: int| 0 <= k < exact.len() implies #[trigger] exact[k] == s[i] by {
        assert(exact.contains(exact[k]));
        lemma_filter_from(s, id_test(wanted), exact[k]);
        let j = choose|j: int| 0 <= j < s.len() && s[j] == exact[k];
        assert(unicode_lower(s[j].0) == wanted);
        assert(j == i);
    }
}

/// The message that an agent sees names its event, its sender and its addressee,
/// and holds the text.
pub proof fn a_message_shows_its_text(id: Text, from: Text, to: Text, intent: Text, text: Text)
    ensures
        begins(envelope(id, from, to, intent, text), "<KOTA_MESSAGE id=\""@ + escaped(id) + "\" from=\""@ + escaped(from) + "\" to=\""@ + escaped(to)),
        ends(envelope(id, from, to, intent, text), ">\n"@ + trimmed(text) + "\n</KOTA_MESSAGE>"@),
        occurs(envelope(id, from, to, intent, text), "intent=\""@ + escaped(intent) + "\""@),
{
    reveal_strlit("\" intent=\"");
    reveal_strlit("intent=\"");
    reveal_strlit("\">\n");
    reveal_strlit(">\n");
    reveal_strlit("\"");
    let e = envelope(id, from, to, intent, text);
    let a = "<KOTA_MESSAGE id=\""@ + escaped(id) + "\" from=\""@ + escaped(from) + "\" to=\""@ + escaped(to);
    assert(e.take(a.len() as int) =~= a);
    let b = ">\n"@ + trimmed(text) + "\n</KOTA_MESSAGE>"@;
    assert(e.skip(e.len() - b.len()) =~= b);
    let c = "intent=\""@ + escaped(intent) + "\""@;
    let p = a.len() as int + 2;
    assert(e.subrange(p, p + c.len()) =~= c);
    assert(stands_at(e, c, p));
}

/// A text without special characters stands in an attribute as it is, and one
/// without a quote as one quoted word of a shell.
pub proof fn a_plain_text_stays_as_it_is(s: Text)
    ensures
        (forall|i: int| 0 <= i < s.len() ==> (#[trigger] s[i]) != '&' && s[i] != '"' && s[i] != '<' && s[i] != '>') ==> escaped(
            s,
        ) == s,
        !s.contains('\'') ==> quoted(s) == "'"@ + s + "'"@,
{
    if forall|i: int| 0 <= i < s.len() ==> (#[trigger] s[i]) != '&' && s[i] != '"' && s[i] != '<' && s[i] != '>' {
        assert forall|i: int| 0 <= i < s.len() implies escape_fn()(#[trigger] s[i]) == seq![s[i]] by {}
        lemma_spelled_same(s, escape_fn());
    }
    if !s.contains('\'') {
        assert forall|i: int| 0 <= i < s.len() implies quote_fn()(#[trigger] s[i]) == seq![s[i]] by {
            if s[i] == '\'' {
                assert(s.contains('\''));
            }
        }
        lemma_spelled_same(s, quote_fn());
    }
}

proof fn lemma_spelled_same(s: Text, f: spec_fn(char) -> Text)
    requires
        forall|i: int| 0 <= i < s.len() ==> f(#[trigger] s[i]) == seq![s[i]],
    ensures
        spelled(s, f) == s,
    decreases s.len(),
{
    if s.len() > 0 {
        let t = s.drop_last();
        assert(forall|i: int| 0 <= i < t.len() ==> t[i] == #[trigger] s[i]);
        lemma_spelled_same(t, f);
        assert(s[s.len() - 1] == s.last());
        assert(spelled(s, f) =~= s);
    }
}

proof fn lemma_slug_chars(s: Text)
    ensures
        forall|i: int|
            0 <= i < slug(s).len() ==> ('0' <= #[trigger] slug(s)[i] <= '9') || ('a' <= slug(s)[i] <= 'z') || slug(s)[i]
                == '-' || slug(s)[i] == '_',
    decreases s.len(),
{
    if s.len() > 0 {
        let t = s.drop_last();
        let c = s.last();
        lemma_slug_chars(t);
        if is_upper(c) {
            assert('a' <= lower_char(c) <= 'z');
        }
        assert forall|i: int| 0 <= i < slug(s).len() implies ('0' <= #[trigger] slug(s)[i] <= '9') || ('a' <= slug(s)[i]
            <= 'z') || slug(s)[i] == '-' || slug(s)[i] == '_' by {
            if i < slug(t).len() {
                assert(slug(s)[i] == slug(t)[i]);
            }
        }
    }
}

/// A part of an identifier is never empty and holds small letters, digits,
/// hyphens and underscores alone; a text that is made of small letters and
/// digits stays as it is.
pub proof fn a_part_of_an_identifier_is_plain(s: Text, i: int)
    ensures
        sanitized(s).len() > 0,
        0 <= i < sanitized(s).len() ==> ('0' <= sanitized(s)[i] <= '9') || ('a' <= sanitized(s)[i] <= 'z') || sanitized(
            s,
        )[i] == '-' || sanitized(s)[i] == '_',
        s.len() > 0 && (forall|k: int| 0 <= k < s.len() ==> ('0' <= #[trigger] s[k] <= '9') || ('a' <= s[k] <= 'z'))
            ==> sanitized(s) == s,
{
    reveal_strlit("message");
    lemma_slug_chars(s);
    let a = slug(s);
    let b = drop_front(a, only('-'));
    let c = drop_back(b, only('-'));
    lemma_front_part(a, only('-'));
    lemma_back_part(b, only('-'));
    assert(forall|k: int| 0 <= k < "message"@.len() ==> 'a' <= #[trigger] "message"@[k] <= 'z');
    if 0 <= i < c.len() {
        assert(c[i] == b[i]);
        assert(b[i] == a[i + a.len() - b.len()]);
    }
    if s.len() > 0 && (forall|k: int| 0 <= k < s.len() ==> ('0' <= #[trigger] s[k] <= '9') || ('a' <= s[k] <= 'z')) {
        lemma_slug_same(s);
        assert(s[0] != '-' && s[s.len() - 1] != '-');
        assert(s.last() == s[s.len() - 1]);
    }
}

proof fn lemma_slug_same(s: Text)
    requires
        forall|k: int| 0 <= k < s.len() ==> ('0' <= #[trigger] s[k] <= '9') || ('a' <= s[k] <= 'z'),
    ensures
        slug(s) == s,
    decreases s.len(),
{
    if s.len() > 0 {
        let t = s.drop_last();
        assert(forall|i: int| 0 <= i < t.len() ==> t[i] == #[trigger] s[i]);
        lemma_slug_same(t);
        assert(s[s.len() - 1] == s.last());
        assert(slug(s) =~= s);
    }
}

proof fn lemma_front_part(s: Text, p: spec_fn(char) -> bool)
    ensures
        drop_front(s, p).len() <= s.len(),
        drop_front(s, p) == s.skip(s.len() - drop_front(s, p).len()),
    decreases s.len(),
{
    if s.len() > 0 && p(s[0]) {
        lemma_front_part(s.drop_first(), p);
        let n = drop_front(s, p).len();
        assert(s.drop_first().skip(s.len() - 1 - n) =~= s.skip(s.len() - n));
    } else {
        assert(s.skip(0) =~= s);
    }
}

proof fn lemma_back_part(s: Text, p: spec_fn(char) -> bool)
    ensures
        drop_back(s, p).len() <= s.len(),
        drop_back(s, p) == s.take(drop_back(s, p).len() as int),
    decreases s.len(),
{
    if s.len() > 0 && p(s.last()) {
        lemma_back_part(s.drop_last(), p);
        let n = drop_back(s, p).len() as int;
        assert(s.drop_last().take(n) =~= s.take(n));
    } else {
        assert(s.take(s.len() as int) =~= s);
    }
}

/// A message goes from whom the request names to whom its target means, with
/// the text that was given; what the request leaves out is made up: the event
/// from both names, the key from the event.
pub proof fn a_message_says_what_was_asked(
    s: Seq<(Text, Text, Text)>,
    root: Text,
    q: AgentBusSendRequest,
    launch: Option<Text>,
    token: Text,
    m: ActorMessage,
    t: Text,
)
    requires
        send_error(s, q) is None,
        sends(s, root, q, launch, token, m),
        trimmed(t).len() > 0,
    ensures
        m.project_root@ == root,
        q.sender_agent_id matches Some(x) && m.actor_id@ == reference(x@),
        resolved(s, q.target@) matches Ok(x) && m.target_agent_id@ == x.0,
        m.text@ == trimmed(q.text@) && m.text@.len() > 0,
        opt_text(q.sender_name) == Some(t) ==> m.actor_name@ == trimmed(t),
        q.sender_name is None ==> (resolved(s, m.actor_id@) matches Ok(x) ==> m.actor_name@ == x.1),
        q.sender_name is None && resolved(s, m.actor_id@) is Err ==> m.actor_name@ == m.actor_id@,
        opt_text(q.intent) == Some(t) ==> m.intent@ == trimmed(t),
        q.intent is None ==> m.intent@ == "message"@,
        opt_text(q.event_id) == Some(t) ==> m.event_id@ == trimmed(t),
        q.event_id is None ==> m.event_id@ == "agentbus-"@ + sanitized(m.actor_id@) + "-"@ + sanitized(m.target_agent_id@)
            + "-"@ + token,
        opt_text(q.dedupe_key) == Some(t) ==> opt_text(m.dedupe_key) == Some(trimmed(t)),
        q.dedupe_key is None ==> opt_text(m.dedupe_key) == Some(m.event_id@),
        opt_text(m.launch_request) == launch,
{
}

/// A retry goes the same way under an event that tells what it repeats, and is
/// never taken for a duplicate.
pub proof fn a_retry_tells_what_it_repeats(
    s: Seq<(Text, Text, Text)>,
    root: Text,
    q: AgentBusRetryDeliveryRequest,
    launch: Option<Text>,
    token: Text,
    m: ActorMessage,
    t: Text,
)
    requires
        retry_error(s, q) is None,
        retries(s, root, q, launch, token, m),
        trimmed(t).len() > 0,
    ensures
        m.actor_id@ == reference(q.sender_agent_id@) && m.actor_id@.len() > 0,
        resolved(s, q.target_agent_id@) matches Ok(x) && m.target_agent_id@ == x.0,
        m.text@ == trimmed(q.text@) && m.text@.len() > 0,
        q.intent is None ==> m.intent@ == "handoff"@,
        opt_text(q.intent) == Some(t) ==> m.intent@ == trimmed(t),
        opt_text(q.attempt_event_id) == Some(t) ==> m.event_id@ == trimmed(t),
        q.attempt_event_id is None ==> m.event_id@ == trimmed(q.original_event_id@) + ":retry:"@ + token,
        m.dedupe_key is None,
        opt_text(m.launch_request) == launch,
        m.project_root@ == root,
{
}

/// A request is sent exactly if it has a sender, a target that means one agent,
/// and a text.
pub proof fn a_request_needs_sender_target_and_text(
    s: Seq<(Text, Text, Text)>,
    q: AgentBusSendRequest,
    r: AgentBusRetryDeliveryRequest,
)
    ensures
        send_error(s, q) is None <==> (q.sender_agent_id matches Some(x) && reference(x@).len() > 0) && resolved(
            s,
            q.target@,
        ) is Ok && trimmed(q.text@).len() > 0,
        retry_error(s, r) is None <==> reference(r.sender_agent_id@).len() > 0 && resolved(s, r.target_agent_id@) is Ok
            && trimmed(r.text@).len() > 0 && trimmed(r.original_event_id@).len() > 0,
{
}

/// Each option of `send` says what stands behind it, and the last one counts.
pub proof fn an_option_says_what_stands_behind_it(rest: Seq<Text>, x: Text, acc: SendArgsModel)
    ensures
        send_args(seq!["--to"@, x] + rest, acc) == send_args(rest, SendArgsModel { target: Some(x), ..acc }),
        send_args(seq!["--intent"@, x] + rest, acc) == send_args(rest, SendArgsModel { intent: x, ..acc }),
        send_args(seq!["--project-root"@, x] + rest, acc) == send_args(
            rest,
            SendArgsModel { project_root: Some(x), ..acc },
        ),
        send_args(seq!["--from"@, x] + rest, acc) == send_args(rest, SendArgsModel { sender_agent_id: Some(x), ..acc }),
        send_args(seq!["--from-name"@, x] + rest, acc) == send_args(rest, SendArgsModel { sender_name: Some(x), ..acc }),
        send_args(Seq::empty(), acc) == Ok::<SendArgsModel, Text>(acc),
{
    reveal_strlit("--to");
    reveal_strlit("--intent");
    reveal_strlit("--project-root");
    reveal_strlit("--from");
    reveal_strlit("--from-name");
    assert("--to"@.len() == 4 && "--intent"@.len() == 8 && "--project-root"@.len() == 14 && "--from"@.len() == 6
        && "--from-name"@.len() == 11);
    let a = seq!["--to"@, x] + rest;
    let b = seq!["--intent"@, x] + rest;
    let c = seq!["--project-root"@, x] + rest;
    let d = seq!["--from"@, x] + rest;
    let e = seq!["--from-name"@, x] + rest;
    assert(a[0] == "--to"@ && a[1] == x && b[0] == "--intent"@ && b[1] == x && c[0] == "--project-root"@ && c[1] == x);
    assert(d[0] == "--from"@ && d[1] == x && e[0] == "--from-name"@ && e[1] == x);
    assert(after_two(a) =~= rest);
    assert(after_two(b) =~= rest);
    assert(after_two(c) =~= rest);
    assert(after_two(d) =~= rest);
    assert(after_two(e) =~= rest);
}

/// A message is a duplicate exactly if its key, which is not blank, was
/// delivered before or stands in the room's log.
pub proof fn only_a_delivered_key_makes_a_duplicate(b: AgentBusManager, m: ActorMessage, recorded: bool)
    ensures
        m.dedupe_key is None ==> !b.seen(m, recorded),
        m.dedupe_key matches Some(k) ==> (b.seen(m, recorded) <==> trimmed(k@).len() > 0 && (recorded || b.delivered(k@))),
{
}

proof fn lemma_spelled_append(a: Text, b: Text, f: spec_fn(char) -> Text)
    ensures
        spelled(a + b, f) == spelled(a, f) + spelled(b, f),
    decreases b.len(),
{
    if b.len() == 0 {
        assert(a + b =~= a);
        assert(spelled(a, f) + spelled(b, f) =~= spelled(a, f));
    } else {
        lemma_spelled_append(a, b.drop_last(), f);
        assert((a + b).drop_last() =~= a + b.drop_last());
        assert((a + b).last() == b.last());
        assert(spelled(a + b, f) =~= spelled(a, f) + spelled(b, f));
    }
}

proof fn lemma_spelled_one(c: char, f: spec_fn(char) -> Text)
    ensures
        spelled(seq![c], f) == f(c),
{
    reveal_with_fuel(spelled, 2);
    assert(seq![c].drop_last() =~= Seq::<char>::empty());
    assert(seq![c].last() == c);
    assert(spelled(seq![c], f) =~= f(c));
}

/// A text is escaped piece by piece, and each special character by its name.
pub proof fn special_characters_are_escaped(a: Text, b: Text)
    ensures
        escaped(a + b) == escaped(a) + escaped(b),
        escaped(seq!['&']) == "&amp;"@,
        escaped(seq!['"']) == "&quot;"@,
        escaped(seq!['<']) == "&lt;"@,
        escaped(seq!['>']) == "&gt;"@,
{
    lemma_spelled_append(a, b, escape_fn());
    lemma_spelled_one('&', escape_fn());
    lemma_spelled_one('"', escape_fn());
    lemma_spelled_one('<', escape_fn());
    lemma_spelled_one('>', escape_fn());
}

/// A quote inside a shell word ends the quoted part, stands by itself, and
/// begins a new one.
pub proof fn a_quote_is_quoted_by_itself(a: Text, b: Text)
    requires
        !a.contains('\''),
        !b.contains('\''),
    ensures
        quoted(a + seq!['\''] + b) == "'"@ + a + "'\\''"@ + b + "'"@,
{
    let q = seq!['\''];
    lemma_spelled_append(a + q, b, quote_fn());
    lemma_spelled_append(a, q, quote_fn());
    lemma_spelled_one('\'', quote_fn());
    assert forall|i: int| 0 <= i < a.len() implies quote_fn()(#[trigger] a[i]) == seq![a[i]] by {
        if a[i] == '\'' {
            assert(a.contains('\''));
        }
    }
    assert forall|i: int| 0 <= i < b.len() implies quote_fn()(#[trigger] b[i]) == seq![b[i]] by {
        if b[i] == '\'' {
            assert(b.contains('\''));
        }
    }
    lemma_spelled_same(a, quote_fn());
    lemma_spelled_same(b, quote_fn());
    assert(quoted(a + q + b) =~= "'"@ + a + "'\\''"@ + b + "'"@);
}

/// A number stands between the stem and the extension.
pub proof fn a_number_stands_before_the_extension(stem: Text, ext: Text, n: nat)
    ensures
        begins(numbered(stem, ext, n), stem + "-"@ + decimal(n)),
        ext.len() > 0 ==> ends(numbered(stem, ext, n), "."@ + ext) && numbered(stem, ext, n).len() == stem.len()
            + decimal(n).len() + ext.len() + 2,
        ext.len() == 0 ==> numbered(stem, ext, n).len() == stem.len() + decimal(n).len() + 1,
{
    reveal_strlit("-");
    reveal_strlit(".");
    let s = numbered(stem, ext, n);
    let h = stem + "-"@ + decimal(n);
    assert(s.take(h.len() as int) =~= h);
    if ext.len() > 0 {
        let t = "."@ + ext;
        assert(s.skip(s.len() - t.len()) =~= t);
    }
}

/// The log names the sender, the addressee, the event and the text.
pub proof fn the_log_tells_who_wrote_to_whom(record: ActorMessageRecord, m: ActorMessage, text: Text, id: Text)
    requires
        logs(record, m, text, id),
    ensures
        record.actor_id@ == m.actor_id@ && record.actor_name@ == m.actor_name@,
        texts(record.target_agent_ids@).len() == 1 && texts(record.target_agent_ids@)[0] == m.target_agent_id@,
        record.text@ == text && record.event_id@ == id,
{
}

/// A name that is given goes before the one in the agent's metadata, whose
/// hyphenated field goes before the other.
pub proof fn a_given_name_goes_first(t: Text, doc: Option<YamlModel>, x: Text)
    requires
        trimmed(t).len() > 0,
        trimmed(x).len() > 0,
    ensures
        cli_name(Some(t), doc) == Some(trimmed(t)),
        written(field(doc, "display-name"@)) == Some(x) ==> cli_name(None, doc) == Some(trimmed(x)),
        written(field(doc, "display-name"@)) is None && written(field(doc, "displayName"@)) == Some(x) ==> cli_name(
            None,
            doc,
        ) == Some(trimmed(x)),
        written(field(doc, "display-name"@)) is None && written(field(doc, "displayName"@)) is None ==> cli_name(
            None,
            doc,
        ) is None,
{
}

} // verus!
