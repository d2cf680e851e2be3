//! Explicit destinations of a post. Text is for display only: no `@` word in a
//! body ever routes a notice.
use vstd::prelude::*;
use crate::agent_directory::{agent_models, project_models, Agent, AgentModel, Project, ProjectModel};
use crate::ids::{is_hash, is_safe_id, safe_id, valid_hash};
use crate::text::{holds, join, joined, opt_text, own, pieces, plus, plus3, same, split, texts, trim, trimmed, Text};
use crate::text::joined_pieces_are_the_text;
use crate::ids::a_component_stays_in_its_directory;
use crate::text::begins;
use crate::text::a_separator_ends_a_piece;
use crate::text::ends;

verus! {

/// The agent addressed in a reply is on another device, and the thread is not
/// shared.
pub const PRIVATE_REPLY_ERROR: &'static str =
    "This agent is on another device, but this thread is not shared. No reply was posted. Start a new thread to @ this agent.";

/// The agent addressed in a new thread is on another device, and this device
/// is in no group.
pub const UNJOINED_NEW_ERROR: &'static str =
    "This agent is on another device, but this device is not in a sync group. No thread was created.";

// -------------------------------------------------------------------- errors

/// Why a post was not published: one of three fixed codes, or a message.
pub enum PublishError {
    Code { code: String },
    Message(String),
}

pub enum PublishErrorModel {
    Code(Text),
    Message(Text),
}

impl View for PublishError {
    type V = PublishErrorModel;

    open spec fn view(&self) -> PublishErrorModel {
        match self {
            PublishError::Code { code } => PublishErrorModel::Code(code@),
            PublishError::Message(m) => PublishErrorModel::Message(m@),
        }
    }
}

/// The code of a message, if it has one.
pub open spec fn error_code(message: Text) -> Option<Text> {
    if message == PRIVATE_REPLY_ERROR@ {
        Some("mention_thread_not_shared"@)
    } else if message == UNJOINED_NEW_ERROR@ {
        Some("mention_requires_group"@)
    } else if message == "agent_roster_not_synced"@ {
        Some("agent_roster_not_synced"@)
    } else {
        None
    }
}

pub open spec fn coded(message: Text) -> PublishErrorModel {
    match error_code(message) {
        Some(c) => PublishErrorModel::Code(c),
        None => PublishErrorModel::Message(message),
    }
}

impl PublishError {
    /// The public form of an error.
    pub fn of(message: &str) -> (r: PublishError)
        ensures
            r@ == coded(message@),
    {
        if same(message, PRIVATE_REPLY_ERROR) {
            PublishError::Code { code: own("mention_thread_not_shared") }
        } else if same(message, UNJOINED_NEW_ERROR) {
            PublishError::Code { code: own("mention_requires_group") }
        } else if same(message, "agent_roster_not_synced") {
            PublishError::Code { code: own("agent_roster_not_synced") }
        } else {
            PublishError::Message(own(message))
        }
    }
}

// ------------------------------------------------------------------ mentions

/// An agent of a project on a device; the device may be `local`.
#[derive(Clone, Debug, PartialEq, Eq, PartialOrd, Ord)]
pub struct Mention {
    pub device_id: String,
    pub project_id: String,
    pub agent_id: String,
}

pub struct MentionModel {
    pub device: Text,
    pub project: Text,
    pub agent: Text,
}

impl View for Mention {
    type V = MentionModel;

    open spec fn view(&self) -> MentionModel {
        MentionModel { device: self.device_id@, project: self.project_id@, agent: self.agent_id@ }
    }
}

pub open spec fn mention_models(s: Seq<Mention>) -> Seq<MentionModel> {
    s.map_values(|m: Mention| m@)
}

/// What a mention must be made of.
pub open spec fn is_mention(m: MentionModel) -> bool {
    &&& m.device == "local"@ || is_hash(m.device)
    &&& is_safe_id(m.project)
    &&& is_safe_id(m.agent)
}

/// Why a mention is refused.
pub open spec fn mention_fault(m: MentionModel) -> Option<Text> {
    if m.device != "local"@ && !is_hash(m.device) {
        Some("invalid_hash"@)
    } else if !is_safe_id(m.project) || !is_safe_id(m.agent) {
        Some("invalid_id"@)
    } else {
        None
    }
}

pub open spec fn fault_of(r: Result<(), String>) -> Option<Text> {
    match r {
        Ok(_) => None,
        Err(e) => Some(e@),
    }
}

/// The mention that a reference writes.
pub open spec fn parsed(target: Text) -> Result<MentionModel, Text> {
    let parts = pieces(target, '/');
    if parts.len() != 3 {
        Err("--at requires <deviceId|local>/<projectId>/<agentId>"@)
    } else {
        let m = MentionModel { device: parts[0], project: parts[1], agent: parts[2] };
        match mention_fault(m) {
            Some(e) => Err(e),
            None => Ok(m),
        }
    }
}

pub open spec fn mention_result(r: Result<Mention, String>) -> Result<MentionModel, Text> {
    match r {
        Ok(m) => Ok(m@),
        Err(e) => Err(e@),
    }
}

impl Mention {
    pub fn copy(&self) -> (r: Mention)
        ensures
            r == *self,
    {
        Mention {
            device_id: self.device_id.clone(),
            project_id: self.project_id.clone(),
            agent_id: self.agent_id.clone(),
        }
    }

    pub fn validate(&self) -> (r: Result<(), String>)
        ensures
            fault_of(r) == mention_fault(self@),
            r is Ok == is_mention(self@),
    {
        if !same(&self.device_id, "local") && !valid_hash(&self.device_id) {
            return Err(own("invalid_hash"));
        }
        if !safe_id(&self.project_id) || !safe_id(&self.agent_id) {
            return Err(own("invalid_id"));
        }
        Ok(())
    }

    /// A reference `device/project/agent`.
    pub fn parse(target: &str) -> (r: Result<Mention, String>)
        ensures
            mention_result(r) == parsed(target@),
    {
        let parts = split(target, '/');
        assert(texts(parts@).len() == parts@.len());
        if parts.len() != 3 {
            return Err(own("--at requires <deviceId|local>/<projectId>/<agentId>"));
        }
        let mention = Mention {
            device_id: parts[0].clone(),
            project_id: parts[1].clone(),
            agent_id: parts[2].clone(),
        };
        assert(texts(parts@)[0] == parts@[0]@ && texts(parts@)[1] == parts@[1]@ && texts(parts@)[2] == parts@[2]@);
        match mention.validate() {
            Ok(_) => Ok(mention),
            Err(e) => Err(e),
        }
    }

    /// A received mention is meant for this device. The word `local` of
    /// another device never means this one.
    pub fn received_here(&self, device_id: &str) -> (r: bool)
        ensures
            r == is_received_here(self@, device_id@),
    {
        !same(&self.device_id, "local") && same(&self.device_id, device_id)
    }

    pub fn is_same(&self, other: &Mention) -> (r: bool)
        ensures
            r == (self@ == other@),
    {
        same(&self.device_id, &other.device_id) && same(&self.project_id, &other.project_id) && same(
            &self.agent_id,
            &other.agent_id,
        )
    }
}

pub open spec fn is_received_here(m: MentionModel, device: Text) -> bool {
    m.device != "local"@ && m.device == device
}

/// A mention of `local` that came from another device is addressed to nobody
/// here, whatever this device is called.
pub proof fn a_received_local_is_never_rebound(m: MentionModel, device: Text)
    requires
        m.device == "local"@,
    ensures
        !is_received_here(m, device),
{
}

/// The first fault among mentions.
pub open spec fn first_fault(s: Seq<MentionModel>) -> Option<Text>
    decreases s.len(),
{
    if s.len() == 0 {
        None
    } else {
        match first_fault(s.drop_last()) {
            Some(e) => Some(e),
            None => mention_fault(s.last()),
        }
    }
}

pub fn validate(mentions: &Vec<Mention>) -> (r: Result<(), String>)
    ensures
        fault_of(r) == first_fault(mention_models(mentions@)),
{
    let ghost all = mention_models(mentions@);
    let mut i: usize = 0;
    while i < mentions.len()
        invariant
            all == mention_models(mentions@),
            i <= mentions@.len(),
            first_fault(all.take(i as int)) is None,
        decreases mentions@.len() - i,
    {
        assert(all.take(i + 1).drop_last() =~= all.take(i as int));
        assert(all.take(i + 1).last() == mentions@[i as int]@);
        match mentions[i].validate() {
            Ok(_) => {},
            Err(e) => {
                proof {
                    lemma_first_fault(all, i + 1);
                }
                return Err(e);
            },
        }
        i += 1;
    }
    assert(all.take(i as int) =~= all);
    Ok(())
}

proof fn lemma_first_fault(s: Seq<MentionModel>, n: int)
    requires
        0 <= n <= s.len(),
        first_fault(s.take(n)) is Some,
    ensures
        first_fault(s) == first_fault(s.take(n)),
    decreases s.len() - n,
{
    if n == s.len() {
        assert(s.take(n) =~= s);
    } else {
        assert(s.take(n + 1).drop_last() =~= s.take(n));
        lemma_first_fault(s, n + 1);
    }
}

/// A list of mentions holds one.
pub fn lists(v: &Vec<Mention>, m: &Mention) -> (r: bool)
    ensures
        r == mention_models(v@).contains(m@),
{
    let mut i: usize = 0;
    while i < v.len()
        invariant
            i <= v@.len(),
            forall|j: int| 0 <= j < i ==> (#[trigger] v@[j])@ != m@,
        decreases v@.len() - i,
    {
        if v[i].is_same(m) {
            assert(mention_models(v@)[i as int] == m@);
            return true;
        }
        i += 1;
    }
    assert forall|j: int| 0 <= j < v@.len() implies mention_models(v@)[j] != m@ by {
        assert(v@[j]@ != m@);
    }
    false
}

// ------------------------------------------------------------------- context

/// Where this device stands in its group.
pub struct Membership {
    pub group_id: String,
    pub membership_id: String,
}

/// What is known of this device and its group.
pub struct Context {
    pub device_id: Option<String>,
    pub membership: Option<Membership>,
    /// The devices of the group.
    pub members: Vec<String>,
}

pub struct ContextModel {
    pub device: Option<Text>,
    pub membership: Option<(Text, Text)>,
    pub members: Seq<Text>,
}

pub open spec fn member_pair(m: Option<Membership>) -> Option<(Text, Text)> {
    match m {
        Some(x) => Some((x.group_id@, x.membership_id@)),
        None => None,
    }
}

impl View for Context {
    type V = ContextModel;

    open spec fn view(&self) -> ContextModel {
        ContextModel {
            device: opt_text(self.device_id),
            membership: member_pair(self.membership),
            members: texts(self.members@),
        }
    }
}

/// The projects of another device, as it last told: none if it never did, an
/// error if they cannot be read.
pub struct Peer {
    pub device_id: String,
    pub projects: Result<Option<Vec<Project>>, String>,
}

pub struct PeerModel {
    pub device: Text,
    pub projects: Result<Option<Seq<ProjectModel>>, Text>,
}

impl View for Peer {
    type V = PeerModel;

    open spec fn view(&self) -> PeerModel {
        PeerModel {
            device: self.device_id@,
            projects: match self.projects {
                Ok(Some(v)) => Ok(Some(project_models(v@))),
                Ok(None) => Ok(None),
                Err(e) => Err(e@),
            },
        }
    }
}

pub open spec fn peer_models(s: Seq<Peer>) -> Seq<PeerModel> {
    s.map_values(|p: Peer| p@)
}

/// What the devices' directories say.
pub struct Directories {
    /// The projects of this device.
    pub local: Result<Vec<Project>, String>,
    pub peers: Vec<Peer>,
}

pub struct DirectoriesModel {
    pub local: Result<Seq<ProjectModel>, Text>,
    pub peers: Seq<PeerModel>,
}

impl View for Directories {
    type V = DirectoriesModel;

    open spec fn view(&self) -> DirectoriesModel {
        DirectoriesModel {
            local: match self.local {
                Ok(v) => Ok(project_models(v@)),
                Err(e) => Err(e@),
            },
            peers: peer_models(self.peers@),
        }
    }
}

/// The name of an agent among some agents.
pub open spec fn agent_name(s: Seq<AgentModel>, id: Text) -> Option<Text>
    decreases s.len(),
{
    if s.len() == 0 {
        None
    } else if s[0].id == id {
        Some(s[0].name)
    } else {
        agent_name(s.drop_first(), id)
    }
}

/// The name of an agent of the first project with that identifier.
pub open spec fn listed_name(s: Seq<ProjectModel>, project: Text, agent: Text) -> Option<Text>
    decreases s.len(),
{
    if s.len() == 0 {
        None
    } else if s[0].id == project {
        agent_name(s[0].agents, agent)
    } else {
        listed_name(s.drop_first(), project, agent)
    }
}

fn find_agent_name(agents: &Vec<Agent>, id: &str) -> (r: Option<String>)
    ensures
        opt_text(r) == agent_name(agent_models(agents@), id@),
{
    let ghost all = agent_models(agents@);
    let mut i: usize = 0;
    assert(all.skip(0) =~= all);
    while i < agents.len()
        invariant
            all == agent_models(agents@),
            i <= agents@.len(),
            agent_name(all, id@) == agent_name(all.skip(i as int), id@),
        decreases agents@.len() - i,
    {
        let ghost rest = all.skip(i as int);
        assert(rest[0] == agents@[i as int]@);
        assert(rest.drop_first() =~= all.skip(i + 1));
        if same(&agents[i].id, id) {
            return Some(agents[i].name.clone());
        }
        i += 1;
    }
    None
}

/// The name by which an agent is shown, if its project lists it.
pub fn find_name(projects: &Vec<Project>, project: &str, agent: &str) -> (r: Option<String>)
    ensures
        opt_text(r) == listed_name(project_models(projects@), project@, agent@),
{
    let ghost all = project_models(projects@);
    let mut i: usize = 0;
    assert(all.skip(0) =~= all);
    while i < projects.len()
        invariant
            all == project_models(projects@),
            i <= projects@.len(),
            listed_name(all, project@, agent@) == listed_name(all.skip(i as int), project@, agent@),
        decreases projects@.len() - i,
    {
        let ghost rest = all.skip(i as int);
        assert(rest[0] == projects@[i as int]@);
        assert(rest.drop_first() =~= all.skip(i + 1));
        if same(&projects[i].id, project) {
            return find_agent_name(&projects[i].agents, agent);
        }
        i += 1;
    }
    None
}

/// What is known of a device: the first entry for it.
pub open spec fn peer_projects(s: Seq<PeerModel>, device: Text) -> Result<Option<Seq<ProjectModel>>, Text>
    decreases s.len(),
{
    if s.len() == 0 {
        Ok(None)
    } else if s[0].device == device {
        s[0].projects
    } else {
        peer_projects(s.drop_first(), device)
    }
}

/// The name that another device gives an agent. A device whose directory was
/// never received names nobody; one whose directory lacks the agent leaves the
/// name open.
pub open spec fn peer_name(s: Seq<PeerModel>, m: MentionModel) -> Result<Option<Text>, Text> {
    match peer_projects(s, m.device) {
        Err(e) => Err(e),
        Ok(None) => Err("agent_roster_not_synced"@),
        Ok(Some(projects)) => Ok(listed_name(projects, m.project, m.agent)),
    }
}

pub open spec fn name_result(r: Result<Option<String>, String>) -> Result<Option<Text>, Text> {
    match r {
        Ok(n) => Ok(opt_text(n)),
        Err(e) => Err(e@),
    }
}

pub fn find_peer_name(peers: &Vec<Peer>, m: &Mention) -> (r: Result<Option<String>, String>)
    ensures
        name_result(r) == peer_name(peer_models(peers@), m@),
{
    let ghost all = peer_models(peers@);
    let mut i: usize = 0;
    assert(all.skip(0) =~= all);
    while i < peers.len()
        invariant
            all == peer_models(peers@),
            i <= peers@.len(),
            peer_projects(all, m@.device) == peer_projects(all.skip(i as int), m@.device),
        decreases peers@.len() - i,
    {
        let ghost rest = all.skip(i as int);
        assert(rest[0] == peers@[i as int]@);
        assert(rest.drop_first() =~= all.skip(i + 1));
        if same(&peers[i].device_id, &m.device_id) {
            return match &peers[i].projects {
                Ok(Some(projects)) => Ok(find_name(projects, &m.project_id, &m.agent_id)),
                Ok(None) => Err(own("agent_roster_not_synced")),
                Err(e) => Err(e.clone()),
            };
        }
        i += 1;
    }
    Err(own("agent_roster_not_synced"))
}

// ------------------------------------------------------------------- loading

/// The mention names this device.
pub open spec fn is_here(device: Option<Text>, d: Text) -> bool {
    d == "local"@ || device == Some(d)
}

/// This device is called by its identity, where it has one.
pub open spec fn rebound(device: Option<Text>, m: MentionModel) -> MentionModel {
    if is_here(device, m.device) {
        MentionModel {
            device: match device {
                Some(d) => d,
                None => "local"@,
            },
            ..m
        }
    } else {
        m
    }
}

pub open spec fn no_route(new_root: bool) -> Text {
    if new_root {
        UNJOINED_NEW_ERROR@
    } else {
        PRIVATE_REPLY_ERROR@
    }
}

/// The name of an agent that is mentioned.
pub open spec fn named(c: ContextModel, d: DirectoriesModel, new_root: bool, m: MentionModel) -> Result<Text, Text> {
    let found = if is_here(c.device, m.device) {
        match d.local {
            Ok(projects) => Ok(listed_name(projects, m.project, m.agent)),
            Err(e) => Err(e),
        }
    } else if c.membership is None {
        Err(no_route(new_root))
    } else {
        peer_name(d.peers, m)
    };
    match found {
        Ok(Some(n)) => Ok(n),
        Ok(None) => Ok(m.agent),
        Err(e) => Err(e),
    }
}

pub open spec fn has_target(s: Seq<(MentionModel, Text)>, m: MentionModel) -> bool {
    exists|i: int| 0 <= i < s.len() && (#[trigger] s[i]).0 == m
}

/// The targets in order, each once, with the names they have now; or the first
/// error.
pub open spec fn loaded(c: ContextModel, d: DirectoriesModel, new_root: bool, s: Seq<MentionModel>) -> Result<
    Seq<(MentionModel, Text)>,
    Text,
>
    decreases s.len(),
{
    if s.len() == 0 {
        Ok(Seq::empty())
    } else {
        match loaded(c, d, new_root, s.drop_last()) {
            Err(e) => Err(e),
            Ok(done) => {
                let m = rebound(c.device, s.last());
                if has_target(done, m) {
                    Ok(done)
                } else {
                    match named(c, d, new_root, m) {
                        Ok(n) => Ok(done.push((m, n))),
                        Err(e) => Err(e),
                    }
                }
            },
        }
    }
}

/// Some target is on this device.
pub open spec fn any_here(c: ContextModel, s: Seq<MentionModel>) -> bool {
    exists|i: int| 0 <= i < s.len() && is_here(c.device, (#[trigger] s[i]).device)
}

/// The targets of a post, found before the board is locked.
pub struct Prepared {
    pub targets: Vec<(Mention, String)>,
    pub membership: Option<Membership>,
}

pub open spec fn target_models(s: Seq<(Mention, String)>) -> Seq<(MentionModel, Text)> {
    s.map_values(|t: (Mention, String)| (t.0@, t.1@))
}

pub struct PreparedModel {
    pub targets: Seq<(MentionModel, Text)>,
    pub membership: Option<(Text, Text)>,
}

impl View for Prepared {
    type V = PreparedModel;

    open spec fn view(&self) -> PreparedModel {
        PreparedModel { targets: target_models(self.targets@), membership: member_pair(self.membership) }
    }
}

pub open spec fn prepared_result(r: Result<Prepared, String>) -> Result<PreparedModel, Text> {
    match r {
        Ok(p) => Ok(p@),
        Err(e) => Err(e@),
    }
}

/// The targets of a post: nothing is looked up without mentions, every
/// reference is checked before any directory, and the directory of this device
/// matters only to mentions of it.
pub open spec fn prepared(c: ContextModel, d: DirectoriesModel, new_root: bool, s: Seq<MentionModel>) -> Result<
    PreparedModel,
    Text,
> {
    if s.len() == 0 {
        Ok(PreparedModel { targets: Seq::empty(), membership: None })
    } else if first_fault(s) is Some {
        Err(first_fault(s)->0)
    } else if any_here(c, s) && d.local is Err {
        Err(d.local->Err_0)
    } else {
        match loaded(c, d, new_root, s) {
            Ok(t) => Ok(PreparedModel { targets: t, membership: c.membership }),
            Err(e) => Err(e),
        }
    }
}

pub fn copy_membership(m: &Option<Membership>) -> (r: Option<Membership>)
    ensures
        member_pair(r) == member_pair(*m),
{
    match m {
        Some(x) => Some(Membership { group_id: x.group_id.clone(), membership_id: x.membership_id.clone() }),
        None => None,
    }
}

fn same_option(a: &Option<String>, b: &str) -> (r: bool)
    ensures
        r == (opt_text(*a) == Some(b@)),
{
    match a {
        Some(x) => same(x, b),
        None => false,
    }
}

/// A target list holds a mention.
fn targeted(v: &Vec<(Mention, String)>, m: &Mention) -> (r: bool)
    ensures
        r == has_target(target_models(v@), m@),
{
    let mut i: usize = 0;
    while i < v.len()
        invariant
            i <= v@.len(),
            forall|j: int| 0 <= j < i ==> (#[trigger] v@[j]).0@ != m@,
        decreases v@.len() - i,
    {
        if v[i].0.is_same(m) {
            assert(target_models(v@)[i as int].0 == m@);
            return true;
        }
        i += 1;
    }
    assert forall|j: int| 0 <= j < v@.len() implies (#[trigger] target_models(v@)[j]).0 != m@ by {
        assert(v@[j].0@ != m@);
    }
    false
}

fn here(context: &Context, device: &str) -> (r: bool)
    ensures
        r == is_here(context@.device, device@),
{
    same(device, "local") || same_option(&context.device_id, device)
}

fn rebind(context: &Context, m: &Mention) -> (r: Mention)
    ensures
        r@ == rebound(context@.device, m@),
{
    let mut out = m.copy();
    if here(context, &m.device_id) {
        out.device_id = match &context.device_id {
            Some(d) => d.clone(),
            None => own("local"),
        };
    }
    out
}

pub open spec fn text_result(r: Result<String, String>) -> Result<Text, Text> {
    match r {
        Ok(s) => Ok(s@),
        Err(e) => Err(e@),
    }
}

fn name_of(context: &Context, directories: &Directories, new_root: bool, m: &Mention) -> (r: Result<String, String>)
    ensures
        text_result(r) == named(context@, directories@, new_root, m@),
{
    let found: Result<Option<String>, String> = if here(context, &m.device_id) {
        match &directories.local {
            Ok(projects) => Ok(find_name(projects, &m.project_id, &m.agent_id)),
            Err(e) => Err(e.clone()),
        }
    } else if context.membership.is_none() {
        if new_root {
            Err(own(UNJOINED_NEW_ERROR))
        } else {
            Err(own(PRIVATE_REPLY_ERROR))
        }
    } else {
        find_peer_name(&directories.peers, m)
    };
    match found {
        Ok(Some(n)) => Ok(n),
        Ok(None) => Ok(m.agent_id.clone()),
        Err(e) => Err(e),
    }
}

proof fn lemma_loaded_error(c: ContextModel, d: DirectoriesModel, new_root: bool, s: Seq<MentionModel>, n: int)
    requires
        0 <= n <= s.len(),
        loaded(c, d, new_root, s.take(n)) is Err,
    ensures
        loaded(c, d, new_root, s) == loaded(c, d, new_root, s.take(n)),
    decreases s.len() - n,
{
    if n == s.len() {
        assert(s.take(n) =~= s);
    } else {
        assert(s.take(n + 1).drop_last() =~= s.take(n));
        lemma_loaded_error(c, d, new_root, s, n + 1);
    }
}

impl Prepared {
    /// Find the targets of a new thread or of a reply.
    pub fn load(context: &Context, directories: &Directories, targets: &Vec<Mention>, new_root: bool) -> (r: Result<
        Prepared,
        String,
    >)
        ensures
            prepared_result(r) == prepared(context@, directories@, new_root, mention_models(targets@)),
    {
        let ghost all = mention_models(targets@);
        if targets.len() == 0 {
            let out = Prepared { targets: Vec::new(), membership: None };
            assert(out@.targets =~= Seq::empty());
            return Ok(out);
        }
        match validate(targets) {
            Ok(_) => {},
            Err(e) => {
                return Err(e);
            },
        }
        let mut any = false;
        let mut i: usize = 0;
        while i < targets.len()
            invariant
                all == mention_models(targets@),
                i <= targets@.len(),
                any == exists|j: int| 0 <= j < i && is_here(context@.device, (#[trigger] all[j]).device),
            decreases targets@.len() - i,
        {
            assert(all[i as int] == targets@[i as int]@);
            any = any || here(context, &targets[i].device_id);
            i += 1;
        }
        if any {
            if let Err(e) = &directories.local {
                return Err(e.clone());
            }
        }
        let mut out: Vec<(Mention, String)> = Vec::new();
        i = 0;
        assert(target_models(out@) =~= Seq::empty());
        while i < targets.len()
            invariant
                all == mention_models(targets@),
                i <= targets@.len(),
                all.len() > 0,
                first_fault(all) is None,
                any_here(context@, all) ==> directories@.local is Ok,
                loaded(context@, directories@, new_root, all.take(i as int)) == Ok::<Seq<(MentionModel, Text)>, Text>(
                    target_models(out@),
                ),
            decreases targets@.len() - i,
        {
            let ghost was = out@;
            assert(all.take(i + 1).drop_last() =~= all.take(i as int));
            assert(all.take(i + 1).last() == targets@[i as int]@);
            let m = rebind(context, &targets[i]);
            if !targeted(&out, &m) {
                match name_of(context, directories, new_root, &m) {
                    Ok(n) => {
                        out.push((m, n));
                        assert(target_models(out@) =~= target_models(was).push((m@, n@)));
                    },
                    Err(e) => {
                        proof {
                            lemma_loaded_error(context@, directories@, new_root, all, i + 1);
                        }
                        return Err(e);
                    },
                }
            }
            i += 1;
        }
        assert(all.take(i as int) =~= all);
        Ok(Prepared { targets: out, membership: copy_membership(&context.membership) })
    }
}

// ---------------------------------------------------------------- finalizing

/// The target is on another device.
pub open spec fn is_remote(device: Option<Text>, d: Text) -> bool {
    !is_here(device, d)
}

/// Why a target cannot be addressed any more.
pub open spec fn blocked(
    c: ContextModel,
    was: Option<(Text, Text)>,
    new_root: bool,
    shared: bool,
    m: MentionModel,
) -> Option<Text> {
    if !is_remote(c.device, m.device) {
        None
    } else if c.membership is None {
        Some(no_route(new_root))
    } else if was != c.membership {
        Some("group_context_changed"@)
    } else if !c.members.contains(m.device) {
        Some("mention_target_unavailable"@)
    } else if !new_root && !shared {
        Some(PRIVATE_REPLY_ERROR@)
    } else {
        None
    }
}

/// A bare `local` becomes this device's identity, where it has one.
pub open spec fn unlocal(device: Option<Text>, m: MentionModel) -> MentionModel {
    if m.device == "local"@ {
        rebound(device, m)
    } else {
        m
    }
}

/// The targets that stay, each once, with their names; or the first error.
pub open spec fn kept(
    c: ContextModel,
    was: Option<(Text, Text)>,
    new_root: bool,
    shared: bool,
    s: Seq<(MentionModel, Text)>,
) -> Result<Seq<(MentionModel, Text)>, Text>
    decreases s.len(),
{
    if s.len() == 0 {
        Ok(Seq::empty())
    } else {
        match kept(c, was, new_root, shared, s.drop_last()) {
            Err(e) => Err(e),
            Ok(done) => {
                let m = unlocal(c.device, s.last().0);
                match blocked(c, was, new_root, shared, m) {
                    Some(e) => Err(e),
                    None => if has_target(done, m) {
                        Ok(done)
                    } else {
                        Ok(done.push((m, s.last().1)))
                    },
                }
            },
        }
    }
}

proof fn lemma_kept_error(
    c: ContextModel,
    was: Option<(Text, Text)>,
    new_root: bool,
    shared: bool,
    s: Seq<(MentionModel, Text)>,
    n: int,
)
    requires
        0 <= n <= s.len(),
        kept(c, was, new_root, shared, s.take(n)) is Err,
    ensures
        kept(c, was, new_root, shared, s) == kept(c, was, new_root, shared, s.take(n)),
    decreases s.len() - n,
{
    if n == s.len() {
        assert(s.take(n) =~= s);
    } else {
        assert(s.take(n + 1).drop_last() =~= s.take(n));
        lemma_kept_error(c, was, new_root, shared, s, n + 1);
    }
}

pub open spec fn at_names(s: Seq<(MentionModel, Text)>) -> Seq<Text> {
    s.map_values(|t: (MentionModel, Text)| "@"@ + t.1)
}

pub open spec fn targets_only(s: Seq<(MentionModel, Text)>) -> Seq<MentionModel> {
    s.map_values(|t: (MentionModel, Text)| t.0)
}

/// The mentions and the body of the post: the names stand before the text.
pub open spec fn finalized(p: PreparedModel, c: ContextModel, new_root: bool, shared: bool, body: Text) -> Result<
    (Seq<MentionModel>, Text),
    Text,
> {
    if p.targets.len() == 0 {
        Ok((Seq::empty(), body))
    } else {
        match kept(c, p.membership, new_root, shared, p.targets) {
            Ok(k) => Ok((targets_only(k), joined(at_names(k), " "@) + "\n\n"@ + trimmed(body))),
            Err(e) => Err(e),
        }
    }
}

pub open spec fn final_result(r: Result<(Vec<Mention>, String), String>) -> Result<(Seq<MentionModel>, Text), Text> {
    match r {
        Ok(t) => Ok((mention_models(t.0@), t.1@)),
        Err(e) => Err(e@),
    }
}

fn same_membership(a: &Option<Membership>, b: &Membership) -> (r: bool)
    ensures
        r == (member_pair(*a) == Some((b.group_id@, b.membership_id@))),
{
    match a {
        Some(x) => same(&x.group_id, &b.group_id) && same(&x.membership_id, &b.membership_id),
        None => false,
    }
}

fn block(current: &Context, was: &Option<Membership>, new_root: bool, shared: bool, m: &Mention) -> (r: Option<String>)
    ensures
        opt_text(r) == blocked(current@, member_pair(*was), new_root, shared, m@),
{
    if here(current, &m.device_id) {
        return None;
    }
    match &current.membership {
        None => if new_root {
            Some(own(UNJOINED_NEW_ERROR))
        } else {
            Some(own(PRIVATE_REPLY_ERROR))
        },
        Some(member) => {
            if !same_membership(was, member) {
                return Some(own("group_context_changed"));
            }
            if !holds(&current.members, &m.device_id) {
                return Some(own("mention_target_unavailable"));
            }
            if !new_root && !shared {
                return Some(own(PRIVATE_REPLY_ERROR));
            }
            None
        },
    }
}

impl Prepared {
    /// Some target is on another device: whether the thread is shared matters.
    pub fn has_remote(&self, current: &Context) -> (r: bool)
        ensures
            r == exists|i: int|
                0 <= i < self@.targets.len() && is_remote(current@.device, (#[trigger] self@.targets[i]).0.device),
    {
        let mut i: usize = 0;
        while i < self.targets.len()
            invariant
                i <= self.targets@.len(),
                forall|j: int|
                    0 <= j < i ==> !is_remote(current@.device, (#[trigger] self@.targets[j]).0.device),
            decreases self.targets@.len() - i,
        {
            assert(self@.targets[i as int].0 == self.targets@[i as int].0@);
            if !here(current, &self.targets[i].0.device_id) {
                return true;
            }
            i += 1;
        }
        false
    }

    /// Check the targets once more, with the board locked and before anything
    /// is created, and put the names before the body. `shared` says whether
    /// the thread is shared in the current group.
    pub fn finalize(self, current: &Context, new_root: bool, shared: bool, body: String) -> (r: Result<
        (Vec<Mention>, String),
        String,
    >)
        ensures
            final_result(r) == finalized(self@, current@, new_root, shared, body@),
    {
        let ghost all = self@.targets;
        if self.targets.len() == 0 {
            let none: Vec<Mention> = Vec::new();
            assert(mention_models(none@) =~= Seq::empty());
            return Ok((none, body));
        }
        let mut out: Vec<Mention> = Vec::new();
        let mut seen: Vec<(Mention, String)> = Vec::new();
        let mut names: Vec<String> = Vec::new();
        let mut i: usize = 0;
        assert(target_models(seen@) =~= Seq::empty());
        while i < self.targets.len()
            invariant
                all == target_models(self.targets@),
                i <= self.targets@.len(),
                kept(current@, member_pair(self.membership), new_root, shared, all.take(i as int)) == Ok::<
                    Seq<(MentionModel, Text)>,
                    Text,
                >(target_models(seen@)),
                mention_models(out@) == targets_only(target_models(seen@)),
                texts(names@) == at_names(target_models(seen@)),
            decreases self.targets@.len() - i,
        {
            let ghost was = seen@;
            let ghost was_out = out@;
            let ghost was_names = names@;
            assert(all.take(i + 1).drop_last() =~= all.take(i as int));
            assert(all.take(i + 1).last() == all[i as int]);
            let target = &self.targets[i].0;
            let m = if same(&target.device_id, "local") {
                rebind(current, target)
            } else {
                target.copy()
            };
            if let Some(e) = block(current, &self.membership, new_root, shared, &m) {
                proof {
                    lemma_kept_error(current@, member_pair(self.membership), new_root, shared, all, i + 1);
                }
                return Err(e);
            }
            if !targeted(&seen, &m) {
                let name = self.targets[i].1.clone();
                names.push(plus("@", &name));
                out.push(m.copy());
                seen.push((m, name));
                assert(target_models(seen@) =~= target_models(was).push((m@, name@)));
                assert(mention_models(out@) =~= mention_models(was_out).push(m@));
                assert(texts(names@) =~= texts(was_names).push("@"@ + name@));
                assert(targets_only(target_models(seen@)) =~= targets_only(target_models(was)).push(m@));
                assert(at_names(target_models(seen@)) =~= at_names(target_models(was)).push("@"@ + name@));
            }
            i += 1;
        }
        assert(all.take(i as int) =~= all);
        let prefix = join(&names, " ");
        Ok((out, plus3(&prefix, "\n\n", &trim(&body))))
    }
}

// ---------------------------------------------------------------------- laws

pub open spec fn distinct_targets(s: Seq<(MentionModel, Text)>) -> bool {
    forall|i: int, j: int| 0 <= i < j < s.len() ==> (#[trigger] s[i]).0 != (#[trigger] s[j]).0
}

/// Each target stands in a post once, however often it was given and whether
/// this device was called by its identity or `local`.
pub proof fn every_target_is_mentioned_once(
    c: ContextModel,
    was: Option<(Text, Text)>,
    new_root: bool,
    shared: bool,
    s: Seq<(MentionModel, Text)>,
)
    ensures
        kept(c, was, new_root, shared, s) matches Ok(k) ==> distinct_targets(k) && forall|i: int|
            #![trigger k[i]]
            0 <= i < k.len() ==> blocked(c, was, new_root, shared, k[i].0) is None,
    decreases s.len(),
{
    if s.len() > 0 {
        every_target_is_mentioned_once(c, was, new_root, shared, s.drop_last());
    }
}

/// A post that addresses another device is published only while this device
/// is a member of the group in which the targets were found, the other device
/// is too, and the thread is new or shared there.
pub proof fn a_remote_target_needs_the_same_group(
    p: PreparedModel,
    c: ContextModel,
    new_root: bool,
    shared: bool,
    body: Text,
    i: int,
)
    requires
        finalized(p, c, new_root, shared, body) is Ok,
        0 <= i < finalized(p, c, new_root, shared, body)->Ok_0.0.len(),
        is_remote(c.device, finalized(p, c, new_root, shared, body)->Ok_0.0[i].device),
    ensures
        c.membership is Some,
        p.membership == c.membership,
        c.members.contains(finalized(p, c, new_root, shared, body)->Ok_0.0[i].device),
        new_root || shared,
{
    every_target_is_mentioned_once(c, p.membership, new_root, shared, p.targets);
    let k = kept(c, p.membership, new_root, shared, p.targets)->Ok_0;
    assert(targets_only(k)[i] == k[i].0);
}

/// Without mentions nothing is looked up and the body stays as it is.
pub proof fn plain_posts_are_left_alone(c: ContextModel, d: DirectoriesModel, new_root: bool, shared: bool, body: Text)
    ensures
        prepared(c, d, new_root, Seq::empty()) is Ok,
        finalized(prepared(c, d, new_root, Seq::empty())->Ok_0, c, new_root, shared, body) == Ok::<
            (Seq<MentionModel>, Text),
            Text,
        >((Seq::<MentionModel>::empty(), body)),
{
}

/// A post that was refused for want of a way to another device says so by a
/// code: one for a new thread, one for a reply, one for a roster that never
/// came. Every other error is passed on as it is.
pub proof fn a_missing_way_has_a_code(message: Text)
    ensures
        coded(no_route(true)) == PublishErrorModel::Code("mention_requires_group"@),
        coded(no_route(false)) == PublishErrorModel::Code("mention_thread_not_shared"@),
        coded("agent_roster_not_synced"@) == PublishErrorModel::Code("agent_roster_not_synced"@),
        message != no_route(true) && message != no_route(false) && message != "agent_roster_not_synced"@ ==> coded(message)
            == PublishErrorModel::Message(message),
{
    reveal_strlit(
        "This agent is on another device, but this thread is not shared. No reply was posted. Start a new thread to @ this agent.",
    );
    reveal_strlit(
        "This agent is on another device, but this device is not in a sync group. No thread was created.",
    );
    reveal_strlit("agent_roster_not_synced");
    assert("agent_roster_not_synced"@.len() == 23);
    assert(no_route(false).len() == 120);
    assert(no_route(true).len() == 95);
}

/// A mention is sound exactly if its device is `local` or a hash and its project
/// and agent are identifiers that travel; mentions are exactly if each is.
pub proof fn only_sound_mentions_pass(m: MentionModel, s: Seq<MentionModel>)
    ensures
        mention_fault(m) is None <==> (m.device == "local"@ || is_hash(m.device)) && is_safe_id(m.project) && is_safe_id(
            m.agent,
        ),
        first_fault(s) is None <==> forall|i: int| 0 <= i < s.len() ==> mention_fault(#[trigger] s[i]) is None,
    decreases s.len(),
{
    if s.len() > 0 {
        let t = s.drop_last();
        only_sound_mentions_pass(m, t);
        assert(s[s.len() - 1] == s.last());
        assert(forall|i: int| 0 <= i < t.len() ==> t[i] == #[trigger] s[i]);
        if first_fault(t) is Some {
            let i = choose|i: int| 0 <= i < t.len() && mention_fault(#[trigger] t[i]) is Some;
            assert(s[i] == t[i]);
        }
    }
}

/// A reference that is written as device, project and agent with a slash
/// between them is read back so; what is read is sound.
pub proof fn a_reference_is_read_back(m: MentionModel, target: Text)
    ensures
        mention_fault(m) is None ==> parsed(m.device.push('/') + (m.project.push('/') + m.agent)) == Ok::<
            MentionModel,
            Text,
        >(m),
        parsed(target) matches Ok(r) ==> mention_fault(r) is None && target == r.device.push('/') + (r.project.push('/')
            + r.agent),
{
    if mention_fault(m) is None {
        reveal_strlit("local");
        assert(!m.device.contains('/')) by {
            if m.device.contains('/') {
                let i = choose|i: int| 0 <= i < m.device.len() && m.device[i] == '/';
                assert(m.device[i] == '/');
            }
        }
        a_component_stays_in_its_directory(m.project);
        a_component_stays_in_its_directory(m.agent);
        let rest = m.project.push('/') + m.agent;
        a_separator_ends_a_piece(m.device, '/', rest);
        a_separator_ends_a_piece(m.project, '/', m.agent);
        a_separator_ends_a_piece(m.agent, '/', m.agent);
        let p = pieces(m.device.push('/') + rest, '/');
        assert(p =~= seq![m.device, m.project, m.agent]);
    }
    if let Ok(r) = parsed(target) {
        let p = pieces(target, '/');
        joined_pieces_are_the_text(target, '/');
        assert(p =~= seq![r.device, r.project, r.agent]);
        assert(p.drop_last() =~= seq![r.device, r.project]);
        assert(p.drop_last().drop_last() =~= seq![r.device]);
        reveal_with_fuel(joined, 4);
        assert(joined(p, seq!['/']) =~= r.device.push('/') + (r.project.push('/') + r.agent));
    }
}

proof fn lemma_agent_name(s: Seq<AgentModel>, id: Text)
    ensures
        agent_name(s, id) matches Some(n) ==> exists|i: int|
            0 <= i < s.len() && (#[trigger] s[i]).id == id && s[i].name == n,
        agent_name(s, id) is None ==> forall|i: int| 0 <= i < s.len() ==> (#[trigger] s[i]).id != id,
    decreases s.len(),
{
    if s.len() > 0 && s[0].id != id {
        let t = s.drop_first();
        lemma_agent_name(t, id);
        if let Some(n) = agent_name(t, id) {
            let i = choose|i: int| 0 <= i < t.len() && (#[trigger] t[i]).id == id && t[i].name == n;
            assert(s[i + 1] == t[i]);
        } else {
            assert forall|i: int| 0 <= i < s.len() implies (#[trigger] s[i]).id != id by {
                if i > 0 {
                    assert(t[i - 1] == s[i]);
                }
            }
        }
    }
}

/// An agent is named as its project lists it. A project that is not listed, or
/// that does not list the agent, names nobody.
pub proof fn an_agent_is_named_as_its_project_lists_it(s: Seq<ProjectModel>, project: Text, agent: Text)
    ensures
        listed_name(s, project, agent) matches Some(n) ==> exists|i: int, j: int|
            0 <= i < s.len() && s[i].id == project && 0 <= j < s[i].agents.len() && (#[trigger] s[i].agents[j]).id == agent
                && s[i].agents[j].name == n,
        listed_name(s, project, agent) is None ==> {
            ||| forall|i: int| 0 <= i < s.len() ==> (#[trigger] s[i]).id != project
            ||| exists|i: int|
                0 <= i < s.len() && (#[trigger] s[i]).id == project && forall|j: int|
                    0 <= j < s[i].agents.len() ==> (#[trigger] s[i].agents[j]).id != agent
        },
    decreases s.len(),
{
    if s.len() > 0 {
        if s[0].id == project {
            lemma_agent_name(s[0].agents, agent);
            if let Some(n) = agent_name(s[0].agents, agent) {
                let j = choose|j: int|
                    0 <= j < s[0].agents.len() && (#[trigger] s[0].agents[j]).id == agent && s[0].agents[j].name == n;
                assert(s[0].agents[j].id == agent);
            }
        } else {
            let t = s.drop_first();
            an_agent_is_named_as_its_project_lists_it(t, project, agent);
            if let Some(n) = listed_name(t, project, agent) {
                let (i, j) = choose|i: int, j: int|
                    0 <= i < t.len() && t[i].id == project && 0 <= j < t[i].agents.len() && (#[trigger] t[i].agents[j]).id
                        == agent && t[i].agents[j].name == n;
                assert(s[i + 1] == t[i]);
                assert(s[i + 1].agents[j].id == agent);
            } else if exists|i: int|
                0 <= i < t.len() && (#[trigger] t[i]).id == project && forall|j: int|
                    0 <= j < t[i].agents.len() ==> (#[trigger] t[i].agents[j]).id != agent {
                let i = choose|i: int|
                    0 <= i < t.len() && (#[trigger] t[i]).id == project && forall|j: int|
                        0 <= j < t[i].agents.len() ==> (#[trigger] t[i].agents[j]).id != agent;
                assert(s[i + 1] == t[i]);
            } else {
                assert forall|i: int| 0 <= i < s.len() implies (#[trigger] s[i]).id != project by {
                    if i > 0 {
                        assert(t[i - 1] == s[i]);
                    }
                }
            }
        }
    }
}

/// An agent of this device is called as this device's directory lists it, and
/// by its identifier where it does not. One of another device needs a group and
/// a roster of that device.
pub proof fn a_mention_is_named_where_it_lives(
    c: ContextModel,
    d: DirectoriesModel,
    new_root: bool,
    m: MentionModel,
    projects: Seq<ProjectModel>,
)
    ensures
        (m.device == "local"@ || c.device == Some(m.device)) && d.local == Ok::<Seq<ProjectModel>, Text>(projects)
            ==> named(c, d, new_root, m) == Ok::<Text, Text>(
            match listed_name(projects, m.project, m.agent) {
                Some(n) => n,
                None => m.agent,
            },
        ),
        m.device != "local"@ && c.device != Some(m.device) && c.membership is None ==> named(c, d, new_root, m) == Err::<
            Text,
            Text,
        >(no_route(new_root)),
        m.device != "local"@ && c.device != Some(m.device) && c.membership is Some && peer_projects(d.peers, m.device)
            == Ok::<Option<Seq<ProjectModel>>, Text>(None) ==> named(c, d, new_root, m) == Err::<Text, Text>(
            "agent_roster_not_synced"@,
        ),
        m.device != "local"@ && c.device != Some(m.device) && c.membership is Some && peer_projects(d.peers, m.device)
            == Ok::<Option<Seq<ProjectModel>>, Text>(Some(projects)) ==> named(c, d, new_root, m) == Ok::<Text, Text>(
            match listed_name(projects, m.project, m.agent) {
                Some(n) => n,
                None => m.agent,
            },
        ),
{
}

/// What is known of a device is what the first entry for it tells.
pub proof fn a_roster_is_that_of_its_device(s: Seq<PeerModel>, device: Text, i: int)
    requires
        0 <= i < s.len(),
        s[i].device == device,
        forall|j: int| 0 <= j < i ==> (#[trigger] s[j]).device != device,
    ensures
        peer_projects(s, device) == s[i].projects,
    decreases i,
{
    if i > 0 {
        let t = s.drop_first();
        assert forall|j: int| 0 <= j < i - 1 implies (#[trigger] t[j]).device != device by {
            assert(t[j] == s[j + 1]);
        }
        a_roster_is_that_of_its_device(t, device, i - 1);
    }
}

/// The word `local` becomes the identity of this device where it has one;
/// project and agent stay, and so does every other device.
pub proof fn local_becomes_the_identity(device: Option<Text>, m: MentionModel)
    ensures
        ({
            let r = rebound(device, m);
            let u = unlocal(device, m);
            &&& r.project == m.project && r.agent == m.agent && u.project == m.project && u.agent == m.agent
            &&& m.device != "local"@ ==> r.device == m.device && u.device == m.device
            &&& m.device == "local"@ ==> (device matches Some(x) ==> r.device == x && u.device == x)
            &&& m.device == "local"@ && device is None ==> r.device == "local"@ && u.device == "local"@
        }),
{
}

/// Why a target is refused just before the post is published. A target on this
/// device never is.
pub proof fn a_target_is_refused_for_one_reason(
    c: ContextModel,
    was: Option<(Text, Text)>,
    new_root: bool,
    shared: bool,
    m: MentionModel,
)
    ensures
        m.device == "local"@ || c.device == Some(m.device) ==> blocked(c, was, new_root, shared, m) is None,
        m.device != "local"@ && c.device != Some(m.device) ==> {
            &&& c.membership is None ==> blocked(c, was, new_root, shared, m) == Some(no_route(new_root))
            &&& c.membership is Some && was != c.membership ==> blocked(c, was, new_root, shared, m) == Some(
                "group_context_changed"@,
            )
            &&& c.membership is Some && was == c.membership && !c.members.contains(m.device) ==> blocked(
                c,
                was,
                new_root,
                shared,
                m,
            ) == Some("mention_target_unavailable"@)
            &&& c.membership is Some && was == c.membership && c.members.contains(m.device) && !new_root && !shared
                ==> blocked(c, was, new_root, shared, m) == Some(no_route(false))
            &&& c.membership is Some && was == c.membership && c.members.contains(m.device) && (new_root || shared)
                ==> blocked(c, was, new_root, shared, m) is None
        },
{
}

proof fn lemma_loaded_has(c: ContextModel, d: DirectoriesModel, new_root: bool, s: Seq<MentionModel>, i: int)
    requires
        0 <= i < s.len(),
        loaded(c, d, new_root, s) is Ok,
    ensures
        has_target(loaded(c, d, new_root, s)->Ok_0, rebound(c.device, s[i])),
    decreases s.len(),
{
    let done = loaded(c, d, new_root, s.drop_last())->Ok_0;
    let all = loaded(c, d, new_root, s)->Ok_0;
    assert(forall|k: int| 0 <= k < done.len() ==> all[k] == #[trigger] done[k]);
    if i < s.len() - 1 {
        assert(s.drop_last()[i] == s[i]);
        lemma_loaded_has(c, d, new_root, s.drop_last(), i);
        let k = choose|k: int| 0 <= k < done.len() && (#[trigger] done[k]).0 == rebound(c.device, s[i]);
        assert(all[k].0 == rebound(c.device, s[i]));
    } else {
        let m = rebound(c.device, s.last());
        if has_target(done, m) {
            let k = choose|k: int| 0 <= k < done.len() && (#[trigger] done[k]).0 == m;
            assert(all[k].0 == m);
        } else {
            assert(all[done.len() as int].0 == m);
        }
    }
}

proof fn lemma_loaded_from(c: ContextModel, d: DirectoriesModel, new_root: bool, s: Seq<MentionModel>, k: int)
    requires
        loaded(c, d, new_root, s) is Ok,
        0 <= k < loaded(c, d, new_root, s)->Ok_0.len(),
    ensures
        exists|i: int|
            0 <= i < s.len() && loaded(c, d, new_root, s)->Ok_0[k].0 == rebound(c.device, #[trigger] s[i]) && named(
                c,
                d,
                new_root,
                rebound(c.device, s[i]),
            ) == Ok::<Text, Text>(loaded(c, d, new_root, s)->Ok_0[k].1),
    decreases s.len(),
{
    let head = s.drop_last();
    let done = loaded(c, d, new_root, head)->Ok_0;
    let all = loaded(c, d, new_root, s)->Ok_0;
    if k < done.len() {
        lemma_loaded_from(c, d, new_root, head, k);
        let i = choose|i: int|
            0 <= i < head.len() && done[k].0 == rebound(c.device, #[trigger] head[i]) && named(
                c,
                d,
                new_root,
                rebound(c.device, head[i]),
            ) == Ok::<Text, Text>(done[k].1);
        assert(s[i] == head[i]);
        assert(all[k] == done[k]);
    } else {
        assert(s[s.len() - 1] == s.last());
    }
}

/// Every agent that was given becomes a target, under the name that it has
/// where it lives, and nobody else does.
pub proof fn every_given_agent_becomes_a_target(
    c: ContextModel,
    d: DirectoriesModel,
    new_root: bool,
    s: Seq<MentionModel>,
    i: int,
)
    requires
        0 <= i < s.len(),
        prepared(c, d, new_root, s) is Ok,
    ensures
        ({
            let p = prepared(c, d, new_root, s)->Ok_0;
            &&& p.membership == c.membership
            &&& has_target(p.targets, rebound(c.device, s[i]))
            &&& forall|k: int|
                0 <= k < p.targets.len() ==> exists|j: int|
                    0 <= j < s.len() && (#[trigger] p.targets[k]).0 == rebound(c.device, #[trigger] s[j]) && named(
                        c,
                        d,
                        new_root,
                        p.targets[k].0,
                    ) == Ok::<Text, Text>(p.targets[k].1)
            &&& first_fault(s) is None
        }),
{
    let p = prepared(c, d, new_root, s)->Ok_0;
    lemma_loaded_has(c, d, new_root, s, i);
    assert forall|k: int| 0 <= k < p.targets.len() implies exists|j: int|
        0 <= j < s.len() && (#[trigger] p.targets[k]).0 == rebound(c.device, #[trigger] s[j]) && named(
            c,
            d,
            new_root,
            p.targets[k].0,
        ) == Ok::<Text, Text>(p.targets[k].1) by {
        lemma_loaded_from(c, d, new_root, s, k);
    }
}

proof fn lemma_kept_has(
    c: ContextModel,
    was: Option<(Text, Text)>,
    new_root: bool,
    shared: bool,
    s: Seq<(MentionModel, Text)>,
    i: int,
)
    requires
        0 <= i < s.len(),
        kept(c, was, new_root, shared, s) is Ok,
    ensures
        has_target(kept(c, was, new_root, shared, s)->Ok_0, unlocal(c.device, s[i].0)),
    decreases s.len(),
{
    let done = kept(c, was, new_root, shared, s.drop_last())->Ok_0;
    let all = kept(c, was, new_root, shared, s)->Ok_0;
    assert(forall|k: int| 0 <= k < done.len() ==> all[k] == #[trigger] done[k]);
    let m = unlocal(c.device, s[i].0);
    if i < s.len() - 1 {
        assert(s.drop_last()[i] == s[i]);
        lemma_kept_has(c, was, new_root, shared, s.drop_last(), i);
        let k = choose|k: int| 0 <= k < done.len() && (#[trigger] done[k]).0 == m;
        assert(all[k].0 == m);
    } else if has_target(done, m) {
        let k = choose|k: int| 0 <= k < done.len() && (#[trigger] done[k]).0 == m;
        assert(all[k].0 == m);
    } else {
        assert(all[done.len() as int].0 == m);
    }
}

proof fn lemma_kept_from(
    c: ContextModel,
    was: Option<(Text, Text)>,
    new_root: bool,
    shared: bool,
    s: Seq<(MentionModel, Text)>,
    k: int,
)
    requires
        kept(c, was, new_root, shared, s) is Ok,
        0 <= k < kept(c, was, new_root, shared, s)->Ok_0.len(),
    ensures
        exists|i: int|
            0 <= i < s.len() && kept(c, was, new_root, shared, s)->Ok_0[k].0 == unlocal(c.device, (#[trigger] s[i]).0)
                && kept(c, was, new_root, shared, s)->Ok_0[k].1 == s[i].1,
        k == 0 ==> kept(c, was, new_root, shared, s)->Ok_0[k].1 == s[0].1,
    decreases s.len(),
{
    let head = s.drop_last();
    let done = kept(c, was, new_root, shared, head)->Ok_0;
    let all = kept(c, was, new_root, shared, s)->Ok_0;
    if k < done.len() {
        lemma_kept_from(c, was, new_root, shared, head, k);
        let i = choose|i: int|
            0 <= i < head.len() && done[k].0 == unlocal(c.device, (#[trigger] head[i]).0) && done[k].1 == head[i].1;
        assert(s[i] == head[i]);
        assert(all[k] == done[k]);
        assert(head[0] == s[0]);
    } else {
        assert(s[s.len() - 1] == s.last());
        if k == 0 && head.len() > 0 {
            lemma_kept_has(c, was, new_root, shared, head, 0);
        }
    }
}

/// A post mentions every target and nobody else, with the names before its
/// text: it begins with the name of the first and ends with the trimmed body.
pub proof fn the_names_stand_before_the_body(
    p: PreparedModel,
    c: ContextModel,
    new_root: bool,
    shared: bool,
    body: Text,
    i: int,
)
    requires
        0 <= i < p.targets.len(),
        finalized(p, c, new_root, shared, body) is Ok,
    ensures
        ({
            let (mentions, text) = finalized(p, c, new_root, shared, body)->Ok_0;
            &&& mentions.contains(unlocal(c.device, p.targets[i].0))
            &&& forall|k: int|
                0 <= k < mentions.len() ==> exists|j: int|
                    0 <= j < p.targets.len() && #[trigger] mentions[k] == unlocal(c.device, (#[trigger] p.targets[j]).0)
            &&& begins(text, "@"@ + p.targets[0].1)
            &&& ends(text, "\n\n"@ + trimmed(body))
        }),
{
    let k = kept(c, p.membership, new_root, shared, p.targets)->Ok_0;
    let (mentions, text) = finalized(p, c, new_root, shared, body)->Ok_0;
    lemma_kept_has(c, p.membership, new_root, shared, p.targets, i);
    let x = choose|x: int| 0 <= x < k.len() && (#[trigger] k[x]).0 == unlocal(c.device, p.targets[i].0);
    assert(mentions[x] == unlocal(c.device, p.targets[i].0));
    assert forall|y: int| 0 <= y < mentions.len() implies exists|j: int|
        0 <= j < p.targets.len() && #[trigger] mentions[y] == unlocal(c.device, (#[trigger] p.targets[j]).0) by {
        lemma_kept_from(c, p.membership, new_root, shared, p.targets, y);
        assert(mentions[y] == k[y].0);
    }
    lemma_kept_from(c, p.membership, new_root, shared, p.targets, 0);
    let names = at_names(k);
    lemma_joined_begins(names, " "@);
    let all = joined(names, " "@);
    let first = "@"@ + p.targets[0].1;
    assert(names[0] == first);
    assert(text.take(first.len() as int) =~= all.take(first.len() as int));
    let tail = "\n\n"@ + trimmed(body);
    assert(text.skip(text.len() - tail.len()) =~= tail);
}

proof fn lemma_joined_begins(s: Seq<Text>, sep: Text)
    requires
        s.len() > 0,
    ensures
        begins(joined(s, sep), s[0]),
    decreases s.len(),
{
    if s.len() == 1 {
        assert(s[0].take(s[0].len() as int) =~= s[0]);
    } else {
        lemma_joined_begins(s.drop_last(), sep);
        let a = joined(s.drop_last(), sep);
        assert(joined(s, sep).take(s[0].len() as int) =~= a.take(s[0].len() as int));
    }
}

} // verus!
