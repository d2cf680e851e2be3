//! The account's projects and their agents, as read from their registrations.
//! Nothing is written and no workspace is prepared.
use vstd::prelude::*;
use crate::agent_bus::{gone, is_gone};
use crate::bbs::names::{display_project_name_with_fallback, project_name};
use crate::ids::{is_safe_id, safe_id};
use crate::order::{Key, Parts};
use crate::outside::{doc_model, doc_result, entry_models, parse_yaml, read_yaml, to_lowercase, unicode_lower};
use crate::outside::{yaml_document, yaml_reading, Scalar, ScalarModel, YamlDoc, YamlModel};
use crate::sort::{lemma_sorted_map, rank_fn, sorted_by, stable_sort, Ranked};
use crate::text::{chars_of, opt_text, own, same, slice_text, trim, trimmed, Text};
use crate::yaml::{either, entries, entries_of, filled, lookup, text_field};
use crate::text::text_lt;
use crate::sort::sorting_orders_and_keeps;
use crate::order::the_first_part_that_differs_decides;
use crate::text::lemma_text_lt_irreflexive;
use crate::text::lemma_text_lt_total;

verus! {

pub struct Agent {
    pub id: String,
    pub name: String,
    pub avatar_id: Option<String>,
}

pub struct AgentModel {
    pub id: Text,
    pub name: Text,
    pub avatar_id: Option<Text>,
}

impl View for Agent {
    type V = AgentModel;

    open spec fn view(&self) -> AgentModel {
        AgentModel { id: self.id@, name: self.name@, avatar_id: opt_text(self.avatar_id) }
    }
}

pub struct Project {
    pub id: String,
    pub name: String,
    /// Where the project lies on this device.
    pub root: String,
    pub agents: Vec<Agent>,
}

pub struct ProjectModel {
    pub id: Text,
    pub name: Text,
    pub root: Text,
    pub agents: Seq<AgentModel>,
}

pub open spec fn agent_models(s: Seq<Agent>) -> Seq<AgentModel> {
    s.map_values(|a: Agent| a@)
}

impl View for Project {
    type V = ProjectModel;

    open spec fn view(&self) -> ProjectModel {
        ProjectModel { id: self.id@, name: self.name@, root: self.root@, agents: agent_models(self.agents@) }
    }
}

pub open spec fn project_models(s: Seq<Project>) -> Seq<ProjectModel> {
    s.map_values(|p: Project| p@)
}

/// What was found, and whether something could not be read.
pub struct Directory {
    pub projects: Vec<Project>,
    pub incomplete: bool,
}

impl Directory {
    /// The projects, if all of them could be read.
    pub fn complete(self) -> (r: Result<Vec<Project>, String>)
        ensures
            self.incomplete ==> r is Err && r->Err_0@ == "agent_directory_unavailable"@,
            !self.incomplete ==> r is Ok && r->Ok_0 == self.projects,
    {
        if self.incomplete {
            return Err(own("agent_directory_unavailable"));
        }
        Ok(self.projects)
    }
}

/// A project's registration file.
pub struct Registration {
    pub project_id: String,
    pub repo_full_name: String,
    pub archived: bool,
}

/// What reading a file gave.
pub enum Found<T> {
    Missing,
    /// With what went wrong.
    Unreadable(String),
    Read(T),
}

/// An agent with this status is shown.
pub open spec fn is_visible(status: Text) -> bool {
    !is_gone(unicode_lower(trimmed(status)))
}

pub fn visible(status: &str) -> (r: bool)
    ensures
        r == is_visible(status@),
{
    !gone(&to_lowercase(&trim(status)))
}

/// The agent that a mapping describes, unless it is gone.
pub open spec fn agent_of(id: Text, m: Seq<(ScalarModel, ScalarModel)>) -> Option<AgentModel> {
    let status = match filled(lookup(m, "status"@)) {
        Some(t) => t,
        None => "active"@,
    };
    if !is_visible(status) {
        None
    } else {
        Some(
            AgentModel {
                id,
                name: match either(filled(lookup(m, "display-name"@)), filled(lookup(m, "displayName"@))) {
                    Some(t) => t,
                    None => id,
                },
                avatar_id: either(filled(lookup(m, "avatar-id"@)), filled(lookup(m, "avatarId"@))),
            },
        )
    }
}

pub open spec fn opt_agent(a: Option<Agent>) -> Option<AgentModel> {
    match a {
        Some(x) => Some(x@),
        None => None,
    }
}

pub fn agent_fields(id: &str, mapping: &Vec<(Scalar, Scalar)>) -> (r: Option<Agent>)
    ensures
        opt_agent(r) == agent_of(id@, entry_models(mapping@)),
{
    let status = match text_field(mapping, "status") {
        Some(t) => t,
        None => own("active"),
    };
    if !visible(&status) {
        return None;
    }
    let name = match text_field(mapping, "display-name") {
        Some(t) => t,
        None => match text_field(mapping, "displayName") {
            Some(t) => t,
            None => own(id),
        },
    };
    let avatar_id = match text_field(mapping, "avatar-id") {
        Some(t) => Some(t),
        None => text_field(mapping, "avatarId"),
    };
    Some(Agent { id: own(id), name, avatar_id })
}

impl Ranked for Agent {
    open spec fn rank(&self) -> Parts {
        seq![self.id@]
    }

    fn rank_before(&self, other: &Self) -> (r: bool) {
        assert(self.id.key() == self.rank());
        assert(other.id.key() == other.rank());
        self.id.is_before(&other.id)
    }
}

impl Ranked for Project {
    open spec fn rank(&self) -> Parts {
        seq![self.id@]
    }

    fn rank_before(&self, other: &Self) -> (r: bool) {
        assert(self.id.key() == self.rank());
        assert(other.id.key() == other.rank());
        self.id.is_before(&other.id)
    }
}

pub open spec fn by_agent_id() -> spec_fn(AgentModel) -> Parts {
    |a: AgentModel| seq![a.id]
}

pub open spec fn by_project_id() -> spec_fn(ProjectModel) -> Parts {
    |p: ProjectModel| seq![p.id]
}

// ------------------------------------------------------------- registrations

pub open spec fn is_slash(c: char) -> bool {
    c == '/' || c == '\\'
}

/// What follows the last slash.
pub open spec fn last_segment(s: Text) -> Text
    decreases s.len(),
{
    if s.len() == 0 || is_slash(s.last()) {
        Seq::empty()
    } else {
        last_segment(s.drop_last()).push(s.last())
    }
}

fn segment_after_slash(s: &str) -> (r: String)
    ensures
        r@ == last_segment(s@),
{
    let v = chars_of(s);
    let mut from: usize = v.len();
    while from > 0 && v[from - 1] != '/' && v[from - 1] != '\\'
        invariant
            from <= v.len(),
            forall|j: int| from <= j < v.len() ==> !is_slash(#[trigger] v@[j]),
        decreases from,
    {
        from -= 1;
    }
    proof {
        lemma_last_segment(v@, from as int);
    }
    slice_text(&v, from, v.len())
}

proof fn lemma_last_segment(s: Text, from: int)
    requires
        0 <= from <= s.len(),
        forall|j: int| from <= j < s.len() ==> !is_slash(#[trigger] s[j]),
        from > 0 ==> is_slash(s[from - 1]),
    ensures
        last_segment(s) == s.subrange(from, s.len() as int),
    decreases s.len(),
{
    if from < s.len() {
        lemma_last_segment(s.drop_last(), from);
        assert(s.drop_last().subrange(from, s.len() - 1).push(s.last()) =~= s.subrange(from, s.len() as int));
    } else {
        assert(s.subrange(from, s.len() as int) =~= Seq::<char>::empty());
    }
}

/// The project that a registration stands for: none if it is missing or
/// archived, an error if it cannot be used.
pub open spec fn registered(root: Text, file: Found<Registration>) -> Result<Option<ProjectModel>, Text> {
    match file {
        Found::Missing => Ok(None),
        Found::Unreadable(e) => Err(e@),
        Found::Read(reg) => if reg.archived {
            Ok(None)
        } else if !is_safe_id(reg.project_id@) {
            Err("invalid_id"@)
        } else {
            Ok(
                Some(
                    ProjectModel {
                        id: reg.project_id@,
                        name: project_name(reg.project_id@, Some(last_segment(trimmed(reg.repo_full_name@)))),
                        root,
                        agents: Seq::empty(),
                    },
                ),
            )
        },
    }
}

pub open spec fn project_result(r: Result<Option<Project>, String>) -> Result<Option<ProjectModel>, Text> {
    match r {
        Ok(Some(p)) => Ok(Some(p@)),
        Ok(None) => Ok(None),
        Err(e) => Err(e@),
    }
}

pub fn registration(root: &str, file: &Found<Registration>) -> (r: Result<Option<Project>, String>)
    ensures
        project_result(r) == registered(root@, *file),
{
    match file {
        Found::Missing => Ok(None),
        Found::Unreadable(e) => Err(e.clone()),
        Found::Read(reg) => {
            if reg.archived {
                return Ok(None);
            }
            if !safe_id(&reg.project_id) {
                return Err(own("invalid_id"));
            }
            let label = segment_after_slash(&trim(&reg.repo_full_name));
            let project = Project {
                id: reg.project_id.clone(),
                name: display_project_name_with_fallback(&reg.project_id, Some(&label)),
                root: own(root),
                agents: Vec::new(),
            };
            assert(agent_models(project.agents@) =~= Seq::<AgentModel>::empty());
            Ok(Some(project))
        },
    }
}

// -------------------------------------------------------------------- agents

/// An agent's directory in a workspace and its metadata file.
pub struct AgentEntry {
    pub id: String,
    pub metadata: Found<String>,
}

/// The entries of a non-empty mapping.
pub open spec fn mapping_of(doc: Option<YamlModel>) -> Option<Seq<(ScalarModel, ScalarModel)>> {
    match doc {
        Some(d) => match entries_of(d) {
            Some(m) => if m.len() > 0 {
                Some(m)
            } else {
                None
            },
            None => None,
        },
        None => None,
    }
}

/// What one directory adds to the project: nothing, an agent, or an error.
pub open spec fn entry_agent(id: Text, metadata: Found<Result<YamlModel, Text>>) -> Result<
    Option<AgentModel>,
    Text,
> {
    match metadata {
        Found::Missing => Ok(None),
        Found::Unreadable(e) => Err(e@),
        Found::Read(doc) => if !is_safe_id(id) {
            Err("invalid_id"@)
        } else {
            match doc {
                Err(e) => Err(e),
                Ok(d) => match mapping_of(Some(d)) {
                    Some(m) => Ok(agent_of(id, m)),
                    None => Err("invalid_agent_metadata"@),
                },
            }
        },
    }
}

pub open spec fn agent_result(r: Result<Option<Agent>, String>) -> Result<Option<AgentModel>, Text> {
    match r {
        Ok(a) => Ok(opt_agent(a)),
        Err(e) => Err(e@),
    }
}

pub open spec fn found_doc(f: Found<Result<YamlDoc, String>>) -> Found<Result<YamlModel, Text>> {
    match f {
        Found::Missing => Found::Missing,
        Found::Unreadable(e) => Found::Unreadable(e),
        Found::Read(doc) => Found::Read(doc_result(doc)),
    }
}

/// What one directory adds, given its parsed metadata.
pub fn agent_from(id: &str, metadata: &Found<Result<YamlDoc, String>>) -> (r: Result<Option<Agent>, String>)
    ensures
        agent_result(r) == entry_agent(id@, found_doc(*metadata)),
{
    match metadata {
        Found::Missing => Ok(None),
        Found::Unreadable(e) => Err(e.clone()),
        Found::Read(doc) => {
            if !safe_id(id) {
                return Err(own("invalid_id"));
            }
            match doc {
                Err(e) => Err(e.clone()),
                Ok(d) => match entries(d) {
                    Some(m) => {
                        assert(entry_models(m@).len() == m@.len());
                        if m.len() == 0 {
                            return Err(own("invalid_agent_metadata"));
                        }
                        Ok(agent_fields(id, m))
                    },
                    None => Err(own("invalid_agent_metadata")),
                },
            }
        },
    }
}

/// The metadata of a directory as a document.
pub open spec fn read_doc(f: Found<String>) -> Found<Result<YamlModel, Text>> {
    match f {
        Found::Missing => Found::Missing,
        Found::Unreadable(e) => Found::Unreadable(e),
        Found::Read(text) => Found::Read(yaml_reading(text@)),
    }
}

fn agent_at(entry: &AgentEntry) -> (r: Result<Option<Agent>, String>)
    ensures
        agent_result(r) == entry_agent(entry.id@, read_doc(entry.metadata)),
{
    match &entry.metadata {
        Found::Missing => Ok(None),
        Found::Unreadable(e) => Err(e.clone()),
        Found::Read(text) => agent_from(&entry.id, &Found::Read(read_yaml(text))),
    }
}

/// The agents of the directories in turn, or an error if one cannot be used.
pub open spec fn agents_of(entries: Seq<AgentEntry>) -> Result<Seq<AgentModel>, Text>
    decreases entries.len(),
{
    if entries.len() == 0 {
        Ok(Seq::empty())
    } else {
        match agents_of(entries.drop_last()) {
            Err(e) => Err(e),
            Ok(rest) => match entry_agent(entries.last().id@, read_doc(entries.last().metadata)) {
                Err(e) => Err(e),
                Ok(None) => Ok(rest),
                Ok(Some(a)) => Ok(rest.push(a)),
            },
        }
    }
}

/// A project with its agents by identifier.
pub open spec fn collected(
    root: Text,
    file: Found<Registration>,
    entries: Seq<AgentEntry>,
) -> Result<Option<ProjectModel>, Text> {
    match registered(root, file) {
        Err(e) => Err(e),
        Ok(None) => Ok(None),
        Ok(Some(p)) => match agents_of(entries) {
            Err(e) => Err(e),
            Ok(agents) => Ok(Some(ProjectModel { agents: sorted_by(agents, by_agent_id()), ..p })),
        },
    }
}

proof fn lemma_agents_prefix_err(entries: Seq<AgentEntry>, n: int)
    requires
        0 <= n <= entries.len(),
        agents_of(entries.take(n)) is Err,
    ensures
        agents_of(entries) == agents_of(entries.take(n)),
    decreases entries.len() - n,
{
    if n < entries.len() {
        assert(entries.take(n + 1).drop_last() =~= entries.take(n));
        lemma_agents_prefix_err(entries, n + 1);
    } else {
        assert(entries.take(n) =~= entries);
    }
}

pub fn collect_project(root: &str, file: &Found<Registration>, entries: &Vec<AgentEntry>) -> (r: Result<
    Option<Project>,
    String,
>)
    ensures
        project_result(r) == collected(root@, *file, entries@),
{
    let mut project = match registration(root, file) {
        Ok(Some(p)) => p,
        Ok(None) => {
            return Ok(None);
        },
        Err(e) => {
            return Err(e);
        },
    };
    let ghost base = project@;
    let mut agents: Vec<Agent> = Vec::new();
    let mut i: usize = 0;
    assert(agent_models(agents@) =~= Seq::<AgentModel>::empty());
    while i < entries.len()
        invariant
            registered(root@, *file) == Ok::<Option<ProjectModel>, Text>(Some(base)),
            i <= entries@.len(),
            agents_of(entries@.take(i as int)) == Ok::<Seq<AgentModel>, Text>(agent_models(agents@)),
        decreases entries@.len() - i,
    {
        let ghost next = entries@.take(i + 1);
        let ghost was = agents@;
        assert(next.drop_last() =~= entries@.take(i as int));
        assert(next.last() == entries@[i as int]);
        match agent_at(&entries[i]) {
            Err(e) => {
                proof {
                    lemma_agents_prefix_err(entries@, i + 1);
                }
                return Err(e);
            },
            Ok(None) => {},
            Ok(Some(agent)) => {
                agents.push(agent);
                assert(agent_models(agents@) =~= agent_models(was).push(agent@));
            },
        }
        i += 1;
    }
    assert(entries@.take(i as int) =~= entries@);
    proof {
        let f = |a: Agent| a@;
        assert forall|a: Agent| #[trigger] rank_fn::<Agent>()(a) == by_agent_id()(f(a)) by {}
        lemma_sorted_map(agents@, f, rank_fn::<Agent>(), by_agent_id());
    }
    project.agents = stable_sort(agents);
    Ok(Some(project))
}

// ------------------------------------------------------------- the directory

/// One workspace directory: its registration and its agents.
pub struct Workspace {
    pub root: String,
    pub file: Found<Registration>,
    pub entries: Vec<AgentEntry>,
}

pub open spec fn workspace_project(w: Workspace) -> Result<Option<ProjectModel>, Text> {
    collected(w.root@, w.file, w.entries@)
}

/// The projects of the workspaces in turn; those in error are left out.
pub open spec fn usable(ws: Seq<Workspace>) -> Seq<ProjectModel>
    decreases ws.len(),
{
    if ws.len() == 0 {
        Seq::empty()
    } else {
        match workspace_project(ws.last()) {
            Ok(Some(p)) => usable(ws.drop_last()).push(p),
            _ => usable(ws.drop_last()),
        }
    }
}

pub open spec fn some_unusable(ws: Seq<Workspace>) -> bool {
    exists|i: int| 0 <= i < ws.len() && workspace_project(#[trigger] ws[i]) is Err
}

/// Two neighbours share an identifier.
pub open spec fn repeats(s: Seq<ProjectModel>) -> bool {
    exists|i: int| 0 <= i < s.len() - 1 && (#[trigger] s[i]).id == s[i + 1].id
}

/// Read the whole account. Nothing limits the number of agents; one project
/// that cannot be used, or two under one identifier, make it incomplete.
pub fn collect(workspaces: &Vec<Workspace>) -> (r: Directory)
    ensures
        project_models(r.projects@) == sorted_by(usable(workspaces@), by_project_id()),
        r.incomplete == (some_unusable(workspaces@) || repeats(project_models(r.projects@))),
{
    let mut projects: Vec<Project> = Vec::new();
    let mut incomplete = false;
    let mut i: usize = 0;
    assert(project_models(projects@) =~= Seq::<ProjectModel>::empty());
    while i < workspaces.len()
        invariant
            i <= workspaces@.len(),
            project_models(projects@) == usable(workspaces@.take(i as int)),
            incomplete == some_unusable(workspaces@.take(i as int)),
        decreases workspaces@.len() - i,
    {
        let ghost head = workspaces@.take(i as int);
        let ghost next = workspaces@.take(i + 1);
        let ghost was = projects@;
        let w = &workspaces[i];
        proof {
            assert(next.drop_last() =~= head);
            assert(next.last() == workspaces@[i as int]);
            assert(forall|x: int| 0 <= x < i ==> next[x] == head[x]);
        }
        match collect_project(&w.root, &w.file, &w.entries) {
            Ok(Some(p)) => {
                projects.push(p);
                assert(project_models(projects@) =~= project_models(was).push(p@));
            },
            Ok(None) => {},
            Err(_) => {
                incomplete = true;
            },
        }
        proof {
            assert(next[i as int] == workspaces@[i as int]);
            if some_unusable(head) {
                let x = choose|x: int| 0 <= x < head.len() && workspace_project(#[trigger] head[x]) is Err;
                assert(workspace_project(next[x]) is Err);
            }
            assert(some_unusable(next) == (some_unusable(head) || workspace_project(workspaces@[i as int]) is Err));
        }
        i += 1;
    }
    assert(workspaces@.take(i as int) =~= workspaces@);
    proof {
        let f = |p: Project| p@;
        assert forall|p: Project| #[trigger] rank_fn::<Project>()(p) == by_project_id()(f(p)) by {}
        lemma_sorted_map(projects@, f, rank_fn::<Project>(), by_project_id());
    }
    let projects = stable_sort(projects);
    let ghost m = project_models(projects@);
    let mut j: usize = 0;
    let mut repeated = false;
    while projects.len() > 1 && j < projects.len() - 1
        invariant
            m == project_models(projects@),
            projects@.len() > 0 ==> j < projects@.len(),
            projects@.len() == 0 ==> j == 0,
            m.len() == projects@.len(),
            repeated == exists|x: int| 0 <= x < j && (#[trigger] m[x]).id == m[x + 1].id,
        decreases projects@.len() - j,
    {
        if same(&projects[j].id, &projects[j + 1].id) {
            assert(m[j as int].id == m[j + 1].id);
            repeated = true;
        } else {
            assert(m[j as int].id != m[j + 1].id);
        }
        j += 1;
    }
    proof {
        if repeats(m) {
            let x = choose|x: int| 0 <= x < m.len() - 1 && (#[trigger] m[x]).id == m[x + 1].id;
            assert(x < j);
        }
    }
    Directory { projects, incomplete: incomplete || repeated }
}

/// Where a notification goes: the project and, if it is usable, the agent.
pub struct Target {
    pub project: Project,
    pub agent: Option<Agent>,
}

/// A workspace that may hold the target, with the target agent's metadata.
pub struct TargetWorkspace {
    pub root: String,
    pub file: Found<Registration>,
    pub metadata: Option<String>,
}

/// The workspace is registered under this identifier.
pub open spec fn holds_project(w: TargetWorkspace, id: Text) -> bool {
    registered(w.root@, w.file) matches Ok(Some(p)) && p.id == id
}

pub open spec fn target_agent(id: Text, doc: Option<YamlModel>) -> Option<AgentModel> {
    match mapping_of(doc) {
        Some(m) => agent_of(id, m),
        None => None,
    }
}

pub open spec fn target_doc(metadata: Option<String>) -> Option<YamlModel> {
    match metadata {
        Some(text) => yaml_document(text@),
        None => None,
    }
}

/// The agent in parsed metadata; metadata that cannot be used is no agent.
pub fn agent_in(id: &str, doc: &Option<YamlDoc>) -> (r: Option<Agent>)
    ensures
        opt_agent(r) == target_agent(id@, doc_model(*doc)),
{
    match doc {
        Some(d) => match entries(d) {
            Some(m) => {
                assert(entry_models(m@).len() == m@.len());
                if m.len() == 0 {
                    None
                } else {
                    agent_fields(id, m)
                }
            },
            None => None,
        },
        None => None,
    }
}

/// The one place where the project is registered.
pub open spec fn sole_place(ws: Seq<TargetWorkspace>, id: Text, i: int) -> bool {
    0 <= i < ws.len() && holds_project(ws[i], id) && forall|j: int|
        0 <= j < ws.len() && holds_project(#[trigger] ws[j], id) ==> j == i
}

pub open spec fn nowhere(ws: Seq<TargetWorkspace>, id: Text) -> bool {
    forall|j: int| 0 <= j < ws.len() ==> !holds_project(#[trigger] ws[j], id)
}

/// Find the room of a notification. The destination is a registered
/// identifier, never a path or a name that an author gave.
pub fn notification_target(workspaces: &Vec<TargetWorkspace>, project_id: &str, agent_id: &str) -> (r: Result<
    Option<Target>,
    String,
>)
    ensures
        ({
            let ws = workspaces@;
            if !is_safe_id(project_id@) || !is_safe_id(agent_id@) {
                r is Err && r->Err_0@ == "invalid_id"@
            } else if nowhere(ws, project_id@) {
                r matches Ok(None)
            } else if exists|i: int| sole_place(ws, project_id@, i) {
                r matches Ok(Some(t)) && exists|i: int| #[trigger]
                    sole_place(ws, project_id@, i) && registered(ws[i].root@, ws[i].file) == Ok::<
                        Option<ProjectModel>,
                        Text,
                    >(Some(t.project@)) && opt_agent(t.agent) == target_agent(agent_id@, target_doc(ws[i].metadata))
            } else {
                r is Err && r->Err_0@ == "ambiguous_project_registration"@
            }
        }),
{
    if !safe_id(project_id) || !safe_id(agent_id) {
        return Err(own("invalid_id"));
    }
    let ghost ws = workspaces@;
    let mut matched: Option<Target> = None;
    let ghost mut at: int = -1;
    let mut i: usize = 0;
    while i < workspaces.len()
        invariant
            ws == workspaces@,
            is_safe_id(project_id@),
            is_safe_id(agent_id@),
            i <= ws.len(),
            matched is None ==> forall|j: int| 0 <= j < i ==> !holds_project(#[trigger] ws[j], project_id@),
            matched matches Some(t) ==> {
                &&& 0 <= at < i
                &&& holds_project(ws[at], project_id@)
                &&& forall|j: int| 0 <= j < i && holds_project(#[trigger] ws[j], project_id@) ==> j == at
                &&& registered(ws[at].root@, ws[at].file) == Ok::<Option<ProjectModel>, Text>(Some(t.project@))
                &&& opt_agent(t.agent) == target_agent(agent_id@, target_doc(ws[at].metadata))
            },
        decreases ws.len() - i,
    {
        let w = &workspaces[i];
        if let Ok(Some(project)) = registration(&w.root, &w.file) {
            if same(&project.id, project_id) {
                assert(holds_project(ws[i as int], project_id@));
                if matched.is_some() {
                    assert forall|k: int| !sole_place(ws, project_id@, k) by {
                        assert(holds_project(ws[at], project_id@));
                    }
                    return Err(own("ambiguous_project_registration"));
                }
                let doc = match &w.metadata {
                    Some(text) => parse_yaml(text),
                    None => None,
                };
                assert(doc_model(doc) == target_doc(ws[i as int].metadata));
                let agent = agent_in(agent_id, &doc);
                matched = Some(Target { project, agent });
                proof {
                    at = i as int;
                }
            }
        }
        i += 1;
    }
    proof {
        if matched is Some {
            assert(sole_place(ws, project_id@, at));
        }
    }
    Ok(matched)
}

/// An agent is shown with the name and the picture of its metadata, under its
/// identifier, unless its status says that it is gone. The hyphenated names of
/// the fields come first.
pub proof fn an_agent_is_shown_as_its_metadata_say(id: Text, m: Seq<(ScalarModel, ScalarModel)>, t: Text)
    ensures
        filled(lookup(m, "status"@)) == Some(t) ==> (agent_of(id, m) is None <==> is_gone(unicode_lower(trimmed(t)))),
        agent_of(id, m) matches Some(a) ==> {
            &&& a.id == id
            &&& filled(lookup(m, "display-name"@)) == Some(t) ==> a.name == t
            &&& filled(lookup(m, "display-name"@)) is None && filled(lookup(m, "displayName"@)) == Some(t) ==> a.name == t
            &&& filled(lookup(m, "display-name"@)) is None && filled(lookup(m, "displayName"@)) is None ==> a.name == id
            &&& filled(lookup(m, "avatar-id"@)) == Some(t) ==> a.avatar_id == Some(t)
            &&& filled(lookup(m, "avatar-id"@)) is None && filled(lookup(m, "avatarId"@)) == Some(t) ==> a.avatar_id
                == Some(t)
            &&& filled(lookup(m, "avatar-id"@)) is None && filled(lookup(m, "avatarId"@)) is None ==> a.avatar_id is None
        },
{
}

/// The four words for an agent that is no longer there.
pub proof fn four_words_say_that_an_agent_is_gone(status: Text)
    ensures
        is_visible(status) <==> unicode_lower(trimmed(status)) != "archived"@ && unicode_lower(trimmed(status)) != "deleted"@
            && unicode_lower(trimmed(status)) != "dismissed"@ && unicode_lower(trimmed(status)) != "removed"@,
{
}

/// The last segment of a repository's name holds no slash and ends the name.
pub proof fn the_last_segment_ends_the_name(s: Text)
    ensures
        last_segment(s).len() <= s.len(),
        s.skip(s.len() - last_segment(s).len()) == last_segment(s),
        forall|i: int| 0 <= i < last_segment(s).len() ==> (#[trigger] last_segment(s)[i]) != '/' && last_segment(s)[i] != '\\',
        last_segment(s).len() < s.len() ==> s[s.len() - last_segment(s).len() - 1] == '/' || s[s.len() - last_segment(
            s,
        ).len() - 1] == '\\',
    decreases s.len(),
{
    if s.len() > 0 && !is_slash(s.last()) {
        let t = s.drop_last();
        the_last_segment_ends_the_name(t);
        let n = last_segment(t).len();
        assert(s.skip(s.len() - last_segment(s).len()) =~= last_segment(s)) by {
            assert forall|i: int| 0 <= i < n implies s[s.len() - (n + 1) + i] == last_segment(t)[i] by {
                assert(t.skip(t.len() - n)[i] == last_segment(t)[i]);
            }
        }
        if n < t.len() {
            assert(t[t.len() - n - 1] == s[s.len() - (n + 1) - 1]);
        }
    } else {
        assert(s.skip(s.len() as int) =~= Seq::<char>::empty());
    }
}

/// A project is the one that its registration names: under its identifier and
/// the name of its repository, where it lies; an archived one is none.
pub proof fn a_project_is_what_it_is_registered_as(root: Text, reg: Registration)
    ensures
        reg.archived ==> registered(root, Found::Read(reg)) == Ok::<Option<ProjectModel>, Text>(None),
        !reg.archived && is_safe_id(reg.project_id@) ==> (registered(root, Found::Read(reg)) matches Ok(Some(p)) && p.id
            == reg.project_id@ && p.root == root && p.agents.len() == 0 && (trimmed(
            last_segment(trimmed(reg.repo_full_name@)),
        ).len() > 0 ==> p.name == crate::bbs::names::project_label(
            trimmed(last_segment(trimmed(reg.repo_full_name@))),
        ))),
        !reg.archived && !is_safe_id(reg.project_id@) ==> registered(root, Found::Read(reg)) is Err,
        registered(root, Found::Missing) == Ok::<Option<ProjectModel>, Text>(None),
{
}

/// A directory without metadata adds nothing; one with metadata adds the agent
/// they describe, and is an error if they describe none.
pub proof fn a_directory_adds_its_agent(id: Text, d: YamlModel, e: String)
    ensures
        entry_agent(id, Found::Missing) == Ok::<Option<AgentModel>, Text>(None),
        entry_agent(id, Found::Unreadable(e)) == Err::<Option<AgentModel>, Text>(e@),
        entry_agent(id, Found::Read(Ok(d))) is Ok <==> is_safe_id(id) && (entries_of(d) matches Some(m) && m.len() > 0),
        entry_agent(id, Found::Read(Ok(d))) matches Ok(r) ==> (entries_of(d) matches Some(m) && r == agent_of(id, m)),
{
}

proof fn lemma_agents_has(entries: Seq<AgentEntry>, i: int, a: AgentModel)
    requires
        agents_of(entries) is Ok,
    ensures
        0 <= i < entries.len() ==> (entry_agent(entries[i].id@, read_doc(entries[i].metadata)) matches Ok(r) && (r matches Some(
            x,
        ) ==> agents_of(entries)->Ok_0.contains(x))),
        agents_of(entries)->Ok_0.contains(a) ==> exists|k: int|
            0 <= k < entries.len() && entry_agent((#[trigger] entries[k]).id@, read_doc(entries[k].metadata)) == Ok::<
                Option<AgentModel>,
                Text,
            >(Some(a)),
    decreases entries.len(),
{
    if entries.len() > 0 {
        let head = entries.drop_last();
        let rest = agents_of(head)->Ok_0;
        let out = agents_of(entries)->Ok_0;
        lemma_agents_has(head, i, a);
        assert(entries[entries.len() - 1] == entries.last());
        assert(forall|k: int| 0 <= k < head.len() ==> head[k] == #[trigger] entries[k]);
        if 0 <= i < entries.len() {
            if let Ok(Some(x)) = entry_agent(entries[i].id@, read_doc(entries[i].metadata)) {
                if i < head.len() {
                    let j = choose|j: int| 0 <= j < rest.len() && rest[j] == x;
                    assert(out[j] == x);
                } else {
                    assert(out[rest.len() as int] == x);
                }
            }
        }
        if out.contains(a) {
            let j = choose|j: int| 0 <= j < out.len() && out[j] == a;
            if j < rest.len() {
                assert(rest[j] == a);
                assert(rest.contains(a));
                let k = choose|k: int|
                    0 <= k < head.len() && entry_agent((#[trigger] head[k]).id@, read_doc(head[k].metadata)) == Ok::<
                        Option<AgentModel>,
                        Text,
                    >(Some(a));
                assert(entries[k] == head[k]);
            }
        }
    }
}

/// A project lists every agent that its directories describe, in the order of
/// their identifiers, and nobody else.
pub proof fn a_project_lists_its_agents(
    root: Text,
    file: Found<Registration>,
    entries: Seq<AgentEntry>,
    i: int,
    j: int,
    a: AgentModel,
)
    requires
        collected(root, file, entries) matches Ok(Some(_)),
    ensures
        collected(root, file, entries) matches Ok(Some(p)) && {
            &&& registered(root, file) matches Ok(Some(q)) && p.id == q.id && p.name == q.name && p.root == root
            &&& 0 <= i < entries.len() ==> (entry_agent(entries[i].id@, read_doc(entries[i].metadata)) matches Ok(Some(x))
                ==> p.agents.contains(x))
            &&& p.agents.contains(a) ==> exists|k: int|
                0 <= k < entries.len() && entry_agent((#[trigger] entries[k]).id@, read_doc(entries[k].metadata)) == Ok::<
                    Option<AgentModel>,
                    Text,
                >(Some(a))
            &&& 0 <= i < j < p.agents.len() ==> !text_lt(p.agents[j].id, p.agents[i].id)
        },
{
    let agents = agents_of(entries)->Ok_0;
    let p = collected(root, file, entries)->Ok_0->0;
    lemma_agents_has(entries, i, a);
    sorting_orders_and_keeps(agents, by_agent_id());
    vstd::seq_lib::to_multiset_contains(agents, a);
    vstd::seq_lib::to_multiset_contains(p.agents, a);
    if 0 <= i < entries.len() {
        if let Ok(Some(x)) = entry_agent(entries[i].id@, read_doc(entries[i].metadata)) {
            vstd::seq_lib::to_multiset_contains(agents, x);
            vstd::seq_lib::to_multiset_contains(p.agents, x);
        }
    }
    if 0 <= i < j < p.agents.len() {
        let x = seq![p.agents[j].id];
        let y = seq![p.agents[i].id];
        assert(by_agent_id()(p.agents[j]) == x);
        assert(by_agent_id()(p.agents[i]) == y);
        if text_lt(p.agents[j].id, p.agents[i].id) {
            lemma_text_lt_irreflexive(p.agents[j].id);
            assert(x[0] == p.agents[j].id && y[0] == p.agents[i].id);
            the_first_part_that_differs_decides(x, y, 0);
        }
    }
}

proof fn lemma_usable(ws: Seq<Workspace>, i: int, p: ProjectModel)
    ensures
        0 <= i < ws.len() ==> (workspace_project(ws[i]) matches Ok(Some(q)) ==> usable(ws).contains(q)),
        usable(ws).contains(p) ==> exists|k: int|
            0 <= k < ws.len() && workspace_project(#[trigger] ws[k]) == Ok::<Option<ProjectModel>, Text>(Some(p)),
    decreases ws.len(),
{
    if ws.len() > 0 {
        let head = ws.drop_last();
        let rest = usable(head);
        let out = usable(ws);
        lemma_usable(head, i, p);
        assert(ws[ws.len() - 1] == ws.last());
        assert(forall|k: int| 0 <= k < head.len() ==> head[k] == #[trigger] ws[k]);
        if 0 <= i < ws.len() {
            if let Ok(Some(q)) = workspace_project(ws[i]) {
                if i < head.len() {
                    let j = choose|j: int| 0 <= j < rest.len() && rest[j] == q;
                    assert(out[j] == q);
                } else {
                    assert(out[rest.len() as int] == q);
                }
            }
        }
        if out.contains(p) {
            let j = choose|j: int| 0 <= j < out.len() && out[j] == p;
            if j < rest.len() {
                assert(rest[j] == p);
                assert(rest.contains(p));
                let k = choose|k: int|
                    0 <= k < head.len() && workspace_project(#[trigger] head[k]) == Ok::<Option<ProjectModel>, Text>(Some(p));
                assert(ws[k] == head[k]);
            }
        }
    }
}

/// The account has every project of a workspace that can be used, and no other.
pub proof fn every_usable_project_is_listed(ws: Seq<Workspace>, i: int, p: ProjectModel)
    ensures
        0 <= i < ws.len() ==> (workspace_project(ws[i]) matches Ok(Some(q)) ==> sorted_by(
            usable(ws),
            by_project_id(),
        ).contains(q)),
        sorted_by(usable(ws), by_project_id()).contains(p) ==> exists|k: int|
            0 <= k < ws.len() && workspace_project(#[trigger] ws[k]) == Ok::<Option<ProjectModel>, Text>(Some(p)),
{
    let s = usable(ws);
    let out = sorted_by(s, by_project_id());
    sorting_orders_and_keeps(s, by_project_id());
    lemma_usable(ws, i, p);
    vstd::seq_lib::to_multiset_contains(s, p);
    vstd::seq_lib::to_multiset_contains(out, p);
    if 0 <= i < ws.len() {
        if let Ok(Some(q)) = workspace_project(ws[i]) {
            vstd::seq_lib::to_multiset_contains(s, q);
            vstd::seq_lib::to_multiset_contains(out, q);
        }
    }
}

/// In the order of their identifiers, two projects with one identifier are
/// noticed wherever they stand.
pub proof fn a_repeated_project_is_noticed(s: Seq<ProjectModel>, i: int, j: int)
    requires
        forall|a: int, b: int| 0 <= a < b < s.len() ==> !text_lt((#[trigger] s[b]).id, (#[trigger] s[a]).id),
        0 <= i < j < s.len(),
    ensures
        s[i].id == s[j].id ==> repeats(s),
        repeats(s) ==> exists|a: int, b: int| 0 <= a < b < s.len() && (#[trigger] s[a]).id == (#[trigger] s[b]).id,
{
    if s[i].id == s[j].id && i + 1 < j {
        lemma_text_lt_total(s[i].id, s[i + 1].id);
        assert(!text_lt(s[i + 1].id, s[i].id));
        assert(!text_lt(s[j].id, s[i + 1].id));
        assert(s[i].id == s[i + 1].id);
    }
    if repeats(s) {
        let a = choose|a: int| 0 <= a < s.len() - 1 && (#[trigger] s[a]).id == s[a + 1].id;
        assert(s[a].id == s[a + 1].id);
    }
}

/// A project lies in the one workspace that is registered under it; none if
/// there is none, and none if there are several.
pub proof fn a_project_has_one_workspace(ws: Seq<TargetWorkspace>, id: Text, i: int, j: int)
    requires
        0 <= i < ws.len(),
    ensures
        sole_place(ws, id, i) ==> (registered(ws[i].root@, ws[i].file) matches Ok(Some(p)) && p.id == id),
        sole_place(ws, id, i) && sole_place(ws, id, j) ==> i == j,
        sole_place(ws, id, i) ==> !nowhere(ws, id),
        (registered(ws[i].root@, ws[i].file) matches Ok(Some(p)) && p.id == id) ==> !nowhere(ws, id),
        0 <= j < ws.len() && i != j && holds_project(ws[i], id) && holds_project(ws[j], id) ==> !sole_place(ws, id, i)
            && !sole_place(ws, id, j),
{
}

/// An agent is addressed as its metadata describe it; without metadata, or if
/// these are empty, there is nobody.
pub proof fn an_addressed_agent_has_metadata(id: Text, m: Seq<(ScalarModel, ScalarModel)>, tagged: bool)
    ensures
        target_agent(id, None) is None,
        target_agent(id, Some(YamlModel::Plain)) is None,
        m.len() == 0 ==> target_agent(id, Some(YamlModel::Mapping(m, tagged))) is None,
        m.len() > 0 ==> target_agent(id, Some(YamlModel::Mapping(m, tagged))) == agent_of(id, m),
{
}

} // verus!
