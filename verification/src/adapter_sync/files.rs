//! A fixed set of configuration files, followed by their metadata. A failed or
//! unstable read never counts as handled.
use vstd::prelude::*;
use crate::adapter_sync::queue::AgentKey;
use crate::agent_directory::{agent_fields, agent_of, agent_result, mapping_of, opt_agent, Agent, AgentModel};
use crate::order::{ascending, key_lt, list_same, Key, OrderedMap, OrderedSet, Parts, Rule};
use crate::outside::{doc_result, entry_models, read_yaml, yaml_reading, YamlDoc, YamlModel};
use crate::path::{path_text, PathName};
use crate::text::{opt_text, own, plus, same, same_opt, texts, Text};
use crate::yaml::entries;

verus! {

/// What a followed file is.
pub enum Source {
    Shell(AgentKey),
    Identity(AgentKey),
    AccountIdentity,
    RosterProject(PathName),
    AvatarIndex,
    AvatarFile,
}

pub enum SourceModel {
    Shell { project: Parts, agent: Text },
    Identity { project: Parts, agent: Text },
    AccountIdentity,
    RosterProject { project: Parts },
    AvatarIndex,
    AvatarFile,
}

impl View for Source {
    type V = SourceModel;

    open spec fn view(&self) -> SourceModel {
        match self {
            Source::Shell(key) => SourceModel::Shell { project: key.project@, agent: key.agent@ },
            Source::Identity(key) => SourceModel::Identity { project: key.project@, agent: key.agent@ },
            Source::AccountIdentity => SourceModel::AccountIdentity,
            Source::RosterProject(project) => SourceModel::RosterProject { project: project@ },
            Source::AvatarIndex => SourceModel::AvatarIndex,
            Source::AvatarFile => SourceModel::AvatarFile,
        }
    }
}

impl Source {
    pub fn copy(&self) -> (r: Source)
        ensures
            r@ == self@,
    {
        match self {
            Source::Shell(key) => Source::Shell(key.copy()),
            Source::Identity(key) => Source::Identity(key.copy()),
            Source::AccountIdentity => Source::AccountIdentity,
            Source::RosterProject(project) => Source::RosterProject(project.copy()),
            Source::AvatarIndex => Source::AvatarIndex,
            Source::AvatarFile => Source::AvatarFile,
        }
    }
}

/// What tells one state of a file from another.
#[derive(Clone, Copy, PartialEq, Eq, Structural)]
pub struct Stamp {
    pub modified: i64,
    pub modified_nanos: i64,
    pub changed: i64,
    pub changed_nanos: i64,
    pub len: u64,
    pub device: u64,
    pub inode: u64,
}

/// One picture of the avatar index.
pub struct Picture {
    pub id: String,
    pub file_name: String,
    pub mime: String,
}

pub struct PictureModel {
    pub id: Text,
    pub file_name: Text,
    pub mime: Text,
}

impl View for Picture {
    type V = PictureModel;

    open spec fn view(&self) -> PictureModel {
        PictureModel { id: self.id@, file_name: self.file_name@, mime: self.mime@ }
    }
}

pub open spec fn picture_models(s: Seq<Picture>) -> Seq<PictureModel> {
    s.map_values(|p: Picture| p@)
}

/// The fields of a file that matter; of an image, its stamp.
pub enum Fields {
    /// What generated files say of an agent, written down.
    Identity(String),
    AccountName(String),
    Shell { provider: Option<String>, skills: Vec<String> },
    Project { id: String, repo: String, archived: bool },
    Pictures(Vec<Picture>),
    Image(Stamp),
}

pub enum FieldsModel {
    Identity(Text),
    AccountName(Text),
    Shell { provider: Option<Text>, skills: Seq<Text> },
    Project { id: Text, repo: Text, archived: bool },
    Pictures(Seq<PictureModel>),
    Image(Stamp),
}

impl View for Fields {
    type V = FieldsModel;

    open spec fn view(&self) -> FieldsModel {
        match self {
            Fields::Identity(t) => FieldsModel::Identity(t@),
            Fields::AccountName(t) => FieldsModel::AccountName(t@),
            Fields::Shell { provider, skills } => FieldsModel::Shell {
                provider: opt_text(*provider),
                skills: texts(skills@),
            },
            Fields::Project { id, repo, archived } => FieldsModel::Project {
                id: id@,
                repo: repo@,
                archived: *archived,
            },
            Fields::Pictures(v) => FieldsModel::Pictures(picture_models(v@)),
            Fields::Image(s) => FieldsModel::Image(*s),
        }
    }
}

fn same_pictures(a: &Vec<Picture>, b: &Vec<Picture>) -> (r: bool)
    ensures
        r == (picture_models(a@) == picture_models(b@)),
{
    let ghost x = picture_models(a@);
    let ghost y = picture_models(b@);
    if a.len() != b.len() {
        assert(x.len() != y.len());
        return false;
    }
    let mut i: usize = 0;
    while i < a.len()
        invariant
            x == picture_models(a@),
            y == picture_models(b@),
            a@.len() == b@.len(),
            i <= a@.len(),
            forall|j: int| 0 <= j < i ==> #[trigger] x[j] == y[j],
        decreases a@.len() - i,
    {
        if !same(&a[i].id, &b[i].id) || !same(&a[i].file_name, &b[i].file_name) || !same(&a[i].mime, &b[i].mime) {
            assert(x[i as int] != y[i as int]);
            return false;
        }
        assert(x[i as int] == y[i as int]);
        i += 1;
    }
    assert(x =~= y);
    true
}

impl Fields {
    pub fn same(&self, other: &Fields) -> (r: bool)
        ensures
            r == (self@ == other@),
    {
        match (self, other) {
            (Fields::Identity(a), Fields::Identity(b)) => same(a, b),
            (Fields::AccountName(a), Fields::AccountName(b)) => same(a, b),
            (
                Fields::Shell { provider: a, skills: x },
                Fields::Shell { provider: b, skills: y },
            ) => same_opt(a, b) && list_same(x, y),
            (
                Fields::Project { id: a, repo: x, archived: p },
                Fields::Project { id: b, repo: y, archived: q },
            ) => same(a, b) && same(x, y) && *p == *q,
            (Fields::Pictures(a), Fields::Pictures(b)) => same_pictures(a, b),
            (Fields::Image(a), Fields::Image(b)) => *a == *b,
            _ => false,
        }
    }
}

pub open spec fn fields_model(f: Option<Fields>) -> Option<FieldsModel> {
    match f {
        Some(x) => Some(x@),
        None => None,
    }
}

/// A file that was read: its text, and the fields that were found in it.
pub struct Content {
    pub text: String,
    pub fields: Result<Fields, String>,
}

/// What the roster shows of an agent: nothing if the agent is gone.
pub open spec fn shown(agent: Text, doc: Result<YamlModel, Text>) -> Result<Option<AgentModel>, Text> {
    match doc {
        Err(e) => Err(e),
        Ok(d) => match mapping_of(Some(d)) {
            Some(m) => Ok(agent_of(agent, m)),
            None => Err("agent.yaml must contain an identity mapping"@),
        },
    }
}

pub fn shown_agent(agent: &str, doc: &Result<YamlDoc, String>) -> (r: Result<Option<Agent>, String>)
    ensures
        agent_result(r) == shown(agent@, doc_result(*doc)),
{
    match doc {
        Err(e) => Err(e.clone()),
        Ok(d) => match entries(d) {
            Some(m) => {
                assert(entry_models(m@).len() == m@.len());
                if m.len() == 0 {
                    return Err(own("agent.yaml must contain an identity mapping"));
                }
                Ok(agent_fields(agent, m))
            },
            None => Err(own("agent.yaml must contain an identity mapping")),
        },
    }
}

pub open spec fn opt_shown(r: Option<Option<Agent>>) -> Option<Option<AgentModel>> {
    match r {
        Some(a) => Some(opt_agent(a)),
        None => None,
    }
}

fn same_shown(a: &Option<Option<Agent>>, b: &Option<Option<Agent>>) -> (r: bool)
    ensures
        r == (opt_shown(*a) == opt_shown(*b)),
{
    match (a, b) {
        (None, None) => true,
        (Some(None), Some(None)) => true,
        (Some(Some(x)), Some(Some(y))) => same(&x.id, &y.id) && same(&x.name, &y.name) && same_opt(
            &x.avatar_id,
            &y.avatar_id,
        ),
        _ => false,
    }
}

/// The fields that a file gave, and for an agent identity what the roster
/// shows of it.
pub open spec fn taken(source: SourceModel, content: Result<Content, String>) -> Result<
    (FieldsModel, Option<Option<AgentModel>>),
    Text,
> {
    match content {
        Err(e) => Err(e@),
        Ok(c) => match source {
            SourceModel::Identity { agent, .. } => match shown(agent, yaml_reading(c.text@)) {
                Err(e) => Err(e),
                Ok(a) => match c.fields {
                    Err(e) => Err(e@),
                    Ok(f) => Ok((f@, Some(a))),
                },
            },
            _ => match c.fields {
                Err(e) => Err(e@),
                Ok(f) => Ok((f@, None)),
            },
        },
    }
}

pub open spec fn taken_model(r: Result<(Fields, Option<Option<Agent>>), String>) -> Result<
    (FieldsModel, Option<Option<AgentModel>>),
    Text,
> {
    match r {
        Err(e) => Err(e@),
        Ok((f, a)) => Ok((f@, opt_shown(a))),
    }
}

fn take(source: &Source, content: Result<Content, String>) -> (r: Result<(Fields, Option<Option<Agent>>), String>)
    ensures
        taken_model(r) == taken(source@, content),
{
    let c = match content {
        Err(e) => {
            return Err(e);
        },
        Ok(c) => c,
    };
    let roster = match source {
        Source::Identity(key) => match shown_agent(&key.agent, &read_yaml(&c.text)) {
            Err(e) => {
                return Err(e);
            },
            Ok(a) => Some(a),
        },
        _ => None,
    };
    match c.fields {
        Err(e) => Err(e),
        Ok(f) => Ok((f, roster)),
    }
}

/// One look at a file.
pub enum Sighting {
    /// Its metadata could not be had.
    Absent(String),
    /// Its stamp was read, and nothing else was needed.
    Stamped(Stamp),
    /// It was read between two looks at its stamp.
    Read { before: Stamp, content: Result<Content, String>, after: Result<Stamp, String> },
}

/// How a followed file was last handled.
pub struct Entry {
    pub source: Source,
    pub handled: Option<Stamp>,
    pub value: Option<Fields>,
    pub error: Option<String>,
    pub roster_value: Option<Option<Agent>>,
    pub roster_changed: bool,
}

pub struct EntryModel {
    pub source: SourceModel,
    pub handled: Option<Stamp>,
    pub value: Option<FieldsModel>,
    pub error: Option<Text>,
    pub roster_value: Option<Option<AgentModel>>,
    pub roster_changed: bool,
}

impl View for Entry {
    type V = EntryModel;

    open spec fn view(&self) -> EntryModel {
        EntryModel {
            source: self.source@,
            handled: self.handled,
            value: fields_model(self.value),
            error: opt_text(self.error),
            roster_value: opt_shown(self.roster_value),
            roster_changed: self.roster_changed,
        }
    }
}

/// Metadata looks and content reads.
#[derive(Clone, Copy, PartialEq, Eq, Structural)]
pub struct Counts {
    pub stats: u64,
    pub reads: u64,
}

/// An entry nobody looked at yet.
pub open spec fn new_entry(source: SourceModel) -> EntryModel {
    EntryModel {
        source,
        handled: None,
        value: None,
        error: None,
        roster_value: None,
        roster_changed: false,
    }
}

/// The stamp does not settle the matter: the content must be read.
pub open spec fn must_read(e: EntryModel, stamp: Stamp) -> bool {
    !(e.handled == Some(stamp) && e.error is None)
}

/// The roster shows this kind of file.
pub open spec fn in_roster(s: SourceModel) -> bool {
    s is Identity || s is RosterProject || s is AvatarIndex || s is AvatarFile
}

/// The look failed. Only a new error is news, and the stamp does not advance.
pub open spec fn failed(e: EntryModel, error: Text) -> EntryModel {
    if e.error == Some(error) {
        EntryModel { roster_changed: false, ..e }
    } else {
        EntryModel { roster_changed: in_roster(e.source), error: Some(error), ..e }
    }
}

/// The look gave these fields.
pub open spec fn succeeded(
    e: EntryModel,
    stamp: Stamp,
    value: FieldsModel,
    roster: Option<Option<AgentModel>>,
) -> EntryModel {
    EntryModel {
        handled: Some(stamp),
        value: Some(value),
        error: None,
        roster_value: roster,
        roster_changed: roster is Some && ((e.roster_value is Some && e.roster_value != roster) || e.error is Some),
        ..e
    }
}

/// The message for a file that moved under the reader.
pub open spec fn unstable(path: Parts) -> Text {
    path_text(path) + " changed while reading; retry later"@
}

/// The outcome of a look: what the entry becomes and whether its source changed.
pub open spec fn looked(e: EntryModel, path: Parts, s: Sighting) -> (EntryModel, bool) {
    match s {
        Sighting::Absent(error) => (failed(e, error@), false),
        Sighting::Stamped(_) => (EntryModel { roster_changed: false, ..e }, false),
        Sighting::Read { before, content, after } => {
            let read = if e.source is AvatarFile {
                Ok((FieldsModel::Image(before), None))
            } else {
                taken(e.source, content)
            };
            match (read, after) {
                (Err(error), _) => (failed(e, error), false),
                (_, Err(error)) => (failed(e, error@), false),
                (Ok((value, roster)), Ok(stamp)) => if stamp != before {
                    (failed(e, unstable(path)), false)
                } else {
                    (
                        succeeded(e, before, value, roster),
                        (e.value is Some && e.value != Some(value)) || e.error is Some,
                    )
                },
            }
        },
    }
}

/// The looks and reads that a sighting took.
pub open spec fn cost(e: EntryModel, s: Sighting) -> (int, int) {
    match s {
        Sighting::Read { content, .. } => if e.source is AvatarFile {
            (2, 0)
        } else if taken(e.source, content) is Err {
            (1, 1)
        } else {
            (2, 1)
        },
        _ => (1, 0),
    }
}

/// The sighting went as far as the entry asked for.
pub open spec fn apt(e: EntryModel, s: Sighting) -> bool {
    match s {
        Sighting::Absent(_) => true,
        Sighting::Stamped(stamp) => !must_read(e, stamp),
        Sighting::Read { before, .. } => must_read(e, before),
    }
}

impl Entry {
    pub fn new(source: Source) -> (r: Entry)
        ensures
            r@ == new_entry(source@),
    {
        Entry { source, handled: None, value: None, error: None, roster_value: None, roster_changed: false }
    }

    pub fn needs_read(&self, stamp: &Stamp) -> (r: bool)
        ensures
            r == must_read(self@, *stamp),
    {
        let same_stamp = match &self.handled {
            Some(h) => *h == *stamp,
            None => false,
        };
        !(same_stamp && self.error.is_none())
    }

    fn fail(&mut self, error: String)
        requires
            !old(self).roster_changed,
        ensures
            final(self)@ == failed(old(self)@, error@),
    {
        let next = Some(error);
        if !same_opt(&self.error, &next) {
            self.roster_changed = matches!(
                self.source,
                Source::Identity(_) | Source::RosterProject(_) | Source::AvatarIndex | Source::AvatarFile
            );
            self.error = next;
        }
    }

    /// Handle one look at the file; tells whether its source changed.
    pub fn inspect(&mut self, path: &PathName, sighting: Sighting, counts: &mut Counts) -> (r: bool)
        requires
            apt(old(self)@, sighting),
            old(counts).stats + 2 <= u64::MAX,
            old(counts).reads + 1 <= u64::MAX,
        ensures
            (final(self)@, r) == looked(old(self)@, path@, sighting),
            final(counts).stats == old(counts).stats + cost(old(self)@, sighting).0,
            final(counts).reads == old(counts).reads + cost(old(self)@, sighting).1,
    {
        self.roster_changed = false;
        counts.stats = counts.stats + 1;
        match sighting {
            Sighting::Absent(error) => {
                self.fail(error);
                false
            },
            Sighting::Stamped(_) => false,
            Sighting::Read { before, content, after } => {
                let image = matches!(self.source, Source::AvatarFile);
                let (next, roster) = if image {
                    (Fields::Image(before), None)
                } else {
                    counts.reads = counts.reads + 1;
                    match take(&self.source, content) {
                        Ok(read) => read,
                        Err(error) => {
                            self.fail(error);
                            return false;
                        },
                    }
                };
                counts.stats = counts.stats + 1;
                match after {
                    Err(error) => {
                        self.fail(error);
                        false
                    },
                    Ok(after) => {
                        if after != before {
                            let error = plus(&path.display(), " changed while reading; retry later");
                            self.fail(error);
                            return false;
                        }
                        let moved = match &self.value {
                            Some(old_value) => !old_value.same(&next),
                            None => false,
                        };
                        let changed = moved || self.error.is_some();
                        let moved_roster = self.roster_value.is_some() && !same_shown(&self.roster_value, &roster);
                        self.roster_changed = roster.is_some() && (moved_roster || self.error.is_some());
                        self.roster_value = roster;
                        self.value = Some(next);
                        self.handled = Some(before);
                        self.error = None;
                        changed
                    },
                }
            },
        }
    }
}

/// The followed files and the projects they belong to.
pub struct FileSet {
    pub entries: OrderedMap<PathName, Entry>,
    pub projects: OrderedSet<PathName>,
    pub roster_changed: bool,
}

pub open spec fn entries_model(m: Map<Parts, Entry>) -> Map<Parts, EntryModel> {
    m.map_values(|e: Entry| e@)
}

/// Image files that are no longer wanted go; everything else stays.
pub struct WantedImages<'a> {
    pub paths: &'a OrderedSet<PathName>,
}

pub open spec fn stays_with_images(k: Parts, e: EntryModel, paths: Set<Parts>) -> bool {
    !(e.source is AvatarFile) || paths.contains(k)
}

impl<'a> Rule<PathName, Entry> for WantedImages<'a> {
    open spec fn admits(&self, k: Parts, v: Entry) -> bool {
        stays_with_images(k, v@, self.paths@)
    }

    open spec fn ready(&self) -> bool {
        self.paths.wf()
    }

    fn test(&self, k: &PathName, v: &Entry) -> (r: bool) {
        !matches!(v.source, Source::AvatarFile) || self.paths.has(k)
    }
}

/// Files of agents that a project no longer has go.
pub struct PresentAgents<'a> {
    pub root: &'a PathName,
    pub present: &'a OrderedSet<String>,
}

pub open spec fn stays_with_agents(e: EntryModel, root: Parts, present: Set<Parts>) -> bool {
    match e.source {
        SourceModel::Shell { project, agent } => project != root || present.contains(seq![agent]),
        SourceModel::Identity { project, agent } => project != root || present.contains(seq![agent]),
        _ => true,
    }
}

impl<'a> Rule<PathName, Entry> for PresentAgents<'a> {
    open spec fn admits(&self, k: Parts, v: Entry) -> bool {
        stays_with_agents(v@, self.root@, self.present@)
    }

    open spec fn ready(&self) -> bool {
        self.present.wf()
    }

    fn test(&self, k: &PathName, v: &Entry) -> (r: bool) {
        match &v.source {
            Source::Shell(key) => !key.project.is_same(self.root) || self.present.has(&key.agent),
            Source::Identity(key) => !key.project.is_same(self.root) || self.present.has(&key.agent),
            _ => true,
        }
    }
}

/// The files of one agent go.
pub struct GoneAgent<'a> {
    pub gone: &'a AgentKey,
}

pub open spec fn stays_without_agent(e: EntryModel, project: Parts, agent: Text) -> bool {
    match e.source {
        SourceModel::Shell { project: p, agent: a } => !(p == project && a == agent),
        SourceModel::Identity { project: p, agent: a } => !(p == project && a == agent),
        _ => true,
    }
}

impl<'a> Rule<PathName, Entry> for GoneAgent<'a> {
    open spec fn admits(&self, k: Parts, v: Entry) -> bool {
        stays_without_agent(v@, self.gone.project@, self.gone.agent@)
    }

    open spec fn ready(&self) -> bool {
        true
    }

    fn test(&self, k: &PathName, v: &Entry) -> (r: bool) {
        match &v.source {
            Source::Shell(key) => !key.same(self.gone),
            Source::Identity(key) => !key.same(self.gone),
            _ => true,
        }
    }
}

/// The files of one project go.
pub struct GoneProject<'a> {
    pub root: &'a PathName,
}

pub open spec fn stays_without_project(e: EntryModel, root: Parts) -> bool {
    match e.source {
        SourceModel::Shell { project, .. } => project != root,
        SourceModel::Identity { project, .. } => project != root,
        SourceModel::RosterProject { project } => project != root,
        _ => true,
    }
}

impl<'a> Rule<PathName, Entry> for GoneProject<'a> {
    open spec fn admits(&self, k: Parts, v: Entry) -> bool {
        stays_without_project(v@, self.root@)
    }

    open spec fn ready(&self) -> bool {
        true
    }

    fn test(&self, k: &PathName, v: &Entry) -> (r: bool) {
        match &v.source {
            Source::Shell(key) => !key.project.is_same(self.root),
            Source::Identity(key) => !key.project.is_same(self.root),
            Source::RosterProject(project) => !project.is_same(self.root),
            _ => true,
        }
    }
}

/// The entries for which `keep` holds.
pub open spec fn kept_entries(m: Map<Parts, EntryModel>, keep: spec_fn(Parts, EntryModel) -> bool) -> Map<
    Parts,
    EntryModel,
> {
    Map::new(|k: Parts| m.contains_key(k) && keep(k, m[k]), |k: Parts| m[k])
}

/// What the caller does about a changed file.
pub enum Effect {
    /// Rebuild the agent's skills.
    Skills(AgentKey),
    /// Rebuild the project.
    Project(PathName),
    /// Rebuild every project.
    AllProjects,
    /// Tell the roster.
    Roster,
}

/// Which work a changed file causes.
pub fn effect_of(source: &Source) -> (r: Effect)
    ensures
        match source@ {
            SourceModel::Shell { project, agent } => r matches Effect::Skills(key) && key.project@ == project
                && key.agent@ == agent,
            SourceModel::Identity { project, .. } => r matches Effect::Project(root) && root@ == project,
            SourceModel::AccountIdentity => r is AllProjects,
            _ => r is Roster,
        },
{
    match source {
        Source::Shell(key) => Effect::Skills(key.copy()),
        Source::Identity(key) => Effect::Project(key.project.copy()),
        Source::AccountIdentity => Effect::AllProjects,
        _ => Effect::Roster,
    }
}

pub open spec fn followed(s: Seq<(PathName, Entry)>) -> Seq<(Parts, EntryModel)> {
    s.map_values(|e: (PathName, Entry)| (e.0@, e.1@))
}

pub open spec fn source_models(s: Seq<Source>) -> Seq<SourceModel> {
    s.map_values(|x: Source| x@)
}

#[verifier::ext_equal]
pub struct CheckModel {
    pub entries: Seq<(Parts, EntryModel)>,
    /// What changed, in the order of the files.
    pub changed: Seq<SourceModel>,
    pub roster_changed: bool,
    pub stats: int,
    pub reads: int,
}

/// The files after one look at each.
pub open spec fn all_looked(s: Seq<(Parts, EntryModel)>, sightings: Seq<Sighting>) -> CheckModel
    decreases s.len(),
{
    if s.len() == 0 {
        CheckModel { entries: Seq::empty(), changed: Seq::empty(), roster_changed: false, stats: 0, reads: 0 }
    } else {
        let rest = all_looked(s.drop_last(), sightings);
        let (path, e) = s.last();
        let sighting = sightings[s.len() - 1];
        let (after, changed) = looked(e, path, sighting);
        CheckModel {
            entries: rest.entries.push((path, after)),
            changed: if changed {
                rest.changed.push(e.source)
            } else {
                rest.changed
            },
            roster_changed: rest.roster_changed || after.roster_changed,
            stats: rest.stats + cost(e, sighting).0,
            reads: rest.reads + cost(e, sighting).1,
        }
    }
}

impl FileSet {
    pub open spec fn wf(&self) -> bool {
        self.entries.wf() && self.projects.wf()
    }

    pub open spec fn model(&self) -> Map<Parts, EntryModel> {
        entries_model(self.entries@)
    }

    pub fn new() -> (r: FileSet)
        ensures
            r.wf(),
            r.model() == Map::<Parts, EntryModel>::empty(),
            r.projects@ == Set::<Parts>::empty(),
            !r.roster_changed,
    {
        let r = FileSet { entries: OrderedMap::new(), projects: OrderedSet::new(), roster_changed: false };
        assert(r.model() =~= Map::<Parts, EntryModel>::empty());
        r
    }

    pub fn follows(&self, path: &PathName) -> (r: bool)
        requires
            self.wf(),
        ensures
            r == self.model().contains_key(path@),
    {
        self.entries.has(path)
    }

    /// Follow a file. One that is followed already keeps its history; a new one
    /// starts with the given look.
    pub fn add_file(&mut self, path: PathName, source: Source, first: Sighting)
        requires
            old(self).wf(),
            apt(new_entry(source@), first),
        ensures
            final(self).wf(),
            final(self).projects == old(self).projects,
            final(self).roster_changed == old(self).roster_changed,
            final(self).model() == if old(self).model().contains_key(path@) {
                old(self).model()
            } else {
                old(self).model().insert(path@, looked(new_entry(source@), path@, first).0)
            },
    {
        if self.entries.has(&path) {
            return;
        }
        let ghost before = self.model();
        let ghost key = path@;
        let mut entry = Entry::new(source);
        let mut counts = Counts { stats: 0, reads: 0 };
        entry.inspect(&path, first, &mut counts);
        self.entries.insert(path, entry);
        assert(self.model() =~= before.insert(key, entry@));
    }

    /// One look at every followed file, in their order. Gives what changed.
    pub fn check(&mut self, sightings: Vec<Sighting>) -> (r: (Vec<Source>, Counts))
        requires
            old(self).wf(),
            sightings@.len() == old(self).entries.entries@.len(),
            forall|i: int|
                0 <= i < sightings@.len() ==> apt(
                    (#[trigger] old(self).entries.entries@[i]).1@,
                    sightings@[i],
                ),
            2 * sightings@.len() <= u64::MAX,
        ensures
            final(self).wf(),
            final(self).projects == old(self).projects,
            ({
                let m = all_looked(followed(old(self).entries.entries@), sightings@);
                &&& followed(final(self).entries.entries@) == m.entries
                &&& final(self).roster_changed == m.roster_changed
                &&& source_models(r.0@) == m.changed
                &&& r.1.stats == m.stats
                &&& r.1.reads == m.reads
            }),
    {
        let ghost s0 = self.entries.entries@;
        let ghost all = followed(s0);
        let ghost looks = sightings@;
        let mut sightings = sightings;
        let mut counts = Counts { stats: 0, reads: 0 };
        let mut changes: Vec<Source> = Vec::new();
        let mut done: Vec<(PathName, Entry)> = Vec::new();
        let ghost mut n: int = 0;
        self.roster_changed = false;
        proof {
            assert(s0.skip(0) =~= s0);
            assert(looks.skip(0) =~= looks);
            assert(all.take(0) =~= Seq::empty());
            assert(followed(done@) =~= Seq::empty());
            assert(source_models(changes@) =~= Seq::empty());
        }
        while self.entries.entries.len() > 0
            invariant
                0 <= n <= s0.len(),
                looks.len() == s0.len(),
                2 * looks.len() <= u64::MAX,
                self.entries.entries@ == s0.skip(n),
                sightings@ == looks.skip(n),
                self.projects == old(self).projects,
                self.projects.wf(),
                ascending(s0),
                all == followed(s0),
                forall|i: int| 0 <= i < s0.len() ==> apt((#[trigger] s0[i]).1@, looks[i]),
                done@.len() == n,
                forall|i: int| 0 <= i < n ==> (#[trigger] done@[i]).0@ == s0[i].0@,
                counts.stats <= 2 * n,
                counts.reads <= n,
                ({
                    let m = all_looked(all.take(n), looks);
                    &&& followed(done@) == m.entries
                    &&& self.roster_changed == m.roster_changed
                    &&& source_models(changes@) == m.changed
                    &&& counts.stats == m.stats
                    &&& counts.reads == m.reads
                }),
            decreases s0.len() - n,
        {
            let ghost before = done@;
            let ghost told = changes@;
            let (path, mut entry) = self.entries.entries.remove(0);
            let sighting = sightings.remove(0);
            let ghost was = entry@;
            proof {
                assert(path@ == s0[n].0@ && was == s0[n].1@ && sighting == looks[n]);
                assert(s0.skip(n).remove(0) =~= s0.skip(n + 1));
                assert(looks.skip(n).remove(0) =~= looks.skip(n + 1));
                assert(all.take(n + 1).drop_last() =~= all.take(n));
                assert(all.take(n + 1).last() == (path@, was));
            }
            if entry.inspect(&path, sighting, &mut counts) {
                changes.push(entry.source.copy());
                assert(source_models(changes@) =~= source_models(told).push(was.source));
            }
            if entry.roster_changed {
                self.roster_changed = true;
            }
            let ghost key = path@;
            let ghost after = entry@;
            done.push((path, entry));
            proof {
                assert(followed(done@) =~= followed(before).push((key, after)));
                n = n + 1;
            }
        }
        proof {
            assert(n == s0.len());
            assert(all.take(n) =~= all);
            assert forall|i: int, j: int| 0 <= i < j < done@.len() implies key_lt::<PathName>(
                (#[trigger] done@[i]).0.key(),
                (#[trigger] done@[j]).0.key(),
            ) by {
                assert(key_lt::<PathName>(s0[i].0.key(), s0[j].0.key()));
            }
        }
        self.entries = OrderedMap { entries: done };
        (changes, counts)
    }

    /// The project's agents are exactly `present`: files of others go.
    pub fn reconcile_agents(&mut self, root: &PathName, present: &OrderedSet<String>)
        requires
            old(self).wf(),
            present.wf(),
        ensures
            final(self).wf(),
            final(self).projects@ == old(self).projects@.insert(root@),
            final(self).roster_changed == old(self).roster_changed,
            final(self).model() == kept_entries(
                old(self).model(),
                |k: Parts, e: EntryModel| stays_with_agents(e, root@, present@),
            ),
    {
        let ghost before = self.model();
        self.projects.insert(root.copy());
        self.entries.retain(&PresentAgents { root, present });
        assert(self.model() =~= kept_entries(
            before,
            |k: Parts, e: EntryModel| stays_with_agents(e, root@, present@),
        ));
    }

    pub fn forget_agent(&mut self, gone: &AgentKey)
        requires
            old(self).wf(),
        ensures
            final(self).wf(),
            final(self).projects == old(self).projects,
            final(self).roster_changed == old(self).roster_changed,
            final(self).model() == kept_entries(
                old(self).model(),
                |k: Parts, e: EntryModel| stays_without_agent(e, gone.project@, gone.agent@),
            ),
    {
        let ghost before = self.model();
        self.entries.retain(&GoneAgent { gone });
        assert(self.model() =~= kept_entries(
            before,
            |k: Parts, e: EntryModel| stays_without_agent(e, gone.project@, gone.agent@),
        ));
    }

    pub fn forget_project(&mut self, root: &PathName)
        requires
            old(self).wf(),
        ensures
            final(self).wf(),
            final(self).projects@ == old(self).projects@.remove(root@),
            final(self).roster_changed == old(self).roster_changed,
            final(self).model() == kept_entries(
                old(self).model(),
                |k: Parts, e: EntryModel| stays_without_project(e, root@),
            ),
    {
        let ghost before = self.model();
        self.projects.remove(root);
        self.entries.retain(&GoneProject { root });
        assert(self.model() =~= kept_entries(
            before,
            |k: Parts, e: EntryModel| stays_without_project(e, root@),
        ));
    }

    /// Was the file at `path` ever read?
    pub fn was_present(&self, path: &PathName) -> (r: bool)
        requires
            self.wf(),
        ensures
            r == (self.model().contains_key(path@) && self.model()[path@].value is Some),
    {
        match self.entries.get(path) {
            Some(entry) => entry.value.is_some(),
            None => false,
        }
    }
}

/// The first look at a file establishes its fields and reports nothing, so
/// that following a file is no change by itself.
pub proof fn a_first_look_reports_no_change(source: SourceModel, path: Parts, s: Sighting)
    ensures
        !looked(new_entry(source), path, s).1,
{
}

/// A look that fails never counts as handled: the stamp stays what it was, so
/// the file is read again.
pub proof fn a_failed_look_is_retried(e: EntryModel, path: Parts, s: Sighting)
    requires
        looked(e, path, s).0.error is Some,
        apt(e, s),
    ensures
        looked(e, path, s).0.handled == e.handled,
        looked(e, path, s).0.value == e.value,
        forall|stamp: Stamp| must_read(looked(e, path, s).0, stamp),
{
}

/// After an error, the first good look reports a change even if the fields are
/// what they were before.
pub proof fn recovery_reports_a_change(e: EntryModel, path: Parts, s: Sighting)
    requires
        e.error is Some,
        apt(e, s),
        looked(e, path, s).0.error is None,
    ensures
        looked(e, path, s).1,
{
}

/// The roster is made anew exactly when a good look at an identity shows
/// another agent; whatever else the file says does not count.
pub proof fn the_roster_changes_with_what_it_shows(e: EntryModel, path: Parts, s: Sighting)
    requires
        e.source is Identity,
        e.error is None,
        e.roster_value is Some,
        s is Read,
        looked(e, path, s).0.error is None,
    ensures
        looked(e, path, s).0.roster_changed == (looked(e, path, s).0.roster_value != e.roster_value),
        s matches Sighting::Read { content: Ok(c), .. } && looked(e, path, s).0.roster_value == Some(
            shown(e.source->Identity_agent, yaml_reading(c.text@))->Ok_0,
        ),
{
}

/// A file is read unless it was handled in the very state it is in and nothing
/// went wrong.
pub proof fn only_a_settled_file_is_not_read(e: EntryModel, stamp: Stamp)
    ensures
        e.handled is None ==> must_read(e, stamp),
        e.error is Some ==> must_read(e, stamp),
        e.error is None && e.handled == Some(stamp) ==> !must_read(e, stamp),
        e.handled != Some(stamp) ==> must_read(e, stamp),
{
}

/// A file that did not move while it was read is handled with its fields, and
/// tells of a change exactly if they are others than before or the last look
/// had failed.
pub proof fn a_steady_file_is_taken(e: EntryModel, path: Parts, before: Stamp, c: Content, f: Fields)
    requires
        !(e.source is AvatarFile),
        !(e.source is Identity),
        c.fields == Ok::<Fields, String>(f),
    ensures
        ({
            let (next, changed) = looked(e, path, Sighting::Read { before, content: Ok(c), after: Ok(before) });
            &&& next.value == Some(f@)
            &&& next.handled == Some(before)
            &&& next.error is None
            &&& next.source == e.source
            &&& !must_read(next, before)
            &&& changed <==> (e.value is Some && e.value != Some(f@)) || e.error is Some
        }),
{
}

/// An image counts by its stamp alone; its content is never read.
pub proof fn an_image_is_its_stamp(
    e: EntryModel,
    path: Parts,
    before: Stamp,
    content: Result<Content, String>,
)
    requires
        e.source is AvatarFile,
    ensures
        looked(e, path, Sighting::Read { before, content, after: Ok(before) }).0.value == Some(FieldsModel::Image(before)),
        looked(e, path, Sighting::Read { before, content, after: Ok(before) }).0.handled == Some(before),
        cost(e, Sighting::Read { before, content, after: Ok(before) }) == (2int, 0int),
{
}

/// A file that moved while it was read, and one that could not be looked at,
/// give no fields: the error is kept, and what was known stays.
pub proof fn a_moving_file_is_not_taken(
    e: EntryModel,
    path: Parts,
    before: Stamp,
    content: Result<Content, String>,
    after: Stamp,
    error: String,
)
    requires
        before != after,
    ensures
        looked(e, path, Sighting::Read { before, content, after: Ok(after) }).0.error is Some,
        looked(e, path, Sighting::Read { before, content, after: Ok(after) }).0.value == e.value,
        !looked(e, path, Sighting::Read { before, content, after: Ok(after) }).1,
        e.source is AvatarFile ==> looked(e, path, Sighting::Read { before, content, after: Ok(after) }).0.error == Some(
            path_text(path) + " changed while reading; retry later"@,
        ),
        looked(e, path, Sighting::Absent(error)).0.error == Some(error@),
        looked(e, path, Sighting::Absent(error)).0.value == e.value,
        looked(e, path, Sighting::Absent(error)).0.roster_changed <==> e.error != Some(error@) && (e.source is Identity
            || e.source is RosterProject || e.source is AvatarIndex || e.source is AvatarFile),
        !looked(e, path, Sighting::Absent(error)).1,
{
}

/// Every look costs one or two looks at the metadata and at most one read; only
/// a file whose state is not known costs a read.
pub proof fn a_look_is_cheap(e: EntryModel, s: Sighting, stamp: Stamp)
    ensures
        1 <= cost(e, s).0 <= 2,
        0 <= cost(e, s).1 <= 1,
        !(s is Read) ==> cost(e, s) == (1int, 0int),
        s is Read && !(e.source is AvatarFile) ==> cost(e, s).1 == 1,
        s matches Sighting::Read { content, .. } ==> (cost(e, s).0 == 1 <==> !(e.source is AvatarFile) && taken(
            e.source,
            content,
        ) is Err),
{
}

/// Each file becomes what the look at it gave; what changed is told, and only
/// that; the roster is told if one of its files says so.
pub proof fn every_file_is_looked_at(s: Seq<(Parts, EntryModel)>, sightings: Seq<Sighting>, i: int, x: SourceModel)
    ensures
        all_looked(s, sightings).entries.len() == s.len(),
        0 <= i < s.len() ==> all_looked(s, sightings).entries[i] == (
            s[i].0,
            looked(s[i].1, s[i].0, sightings[i]).0,
        ),
        0 <= i < s.len() && looked(s[i].1, s[i].0, sightings[i]).1 ==> all_looked(s, sightings).changed.contains(
            s[i].1.source,
        ),
        all_looked(s, sightings).changed.contains(x) ==> exists|k: int|
            0 <= k < s.len() && (#[trigger] s[k]).1.source == x && looked(s[k].1, s[k].0, sightings[k]).1,
        0 <= i < s.len() && looked(s[i].1, s[i].0, sightings[i]).0.roster_changed ==> all_looked(
            s,
            sightings,
        ).roster_changed,
        all_looked(s, sightings).roster_changed ==> exists|k: int|
            0 <= k < s.len() && looked((#[trigger] s[k]).1, s[k].0, sightings[k]).0.roster_changed,
        s.len() <= all_looked(s, sightings).stats <= 2 * s.len(),
        0 <= all_looked(s, sightings).reads <= s.len(),
    decreases s.len(),
{
    if s.len() > 0 {
        let head = s.drop_last();
        let rest = all_looked(head, sightings);
        let out = all_looked(s, sightings);
        every_file_is_looked_at(head, sightings, i, x);
        assert(s[s.len() - 1] == s.last());
        assert(forall|k: int| 0 <= k < head.len() ==> head[k] == #[trigger] s[k]);
        a_look_is_cheap(s.last().1, sightings[s.len() - 1], arbitrary());
        if 0 <= i < s.len() && looked(s[i].1, s[i].0, sightings[i]).1 {
            if i < head.len() {
                let j = choose|j: int| 0 <= j < rest.changed.len() && rest.changed[j] == s[i].1.source;
                assert(out.changed[j] == s[i].1.source);
            } else {
                assert(out.changed[rest.changed.len() as int] == s[i].1.source);
            }
        }
        if out.changed.contains(x) {
            let j = choose|j: int| 0 <= j < out.changed.len() && out.changed[j] == x;
            if j < rest.changed.len() {
                assert(rest.changed[j] == x);
                assert(rest.changed.contains(x));
                let k = choose|k: int|
                    0 <= k < head.len() && (#[trigger] head[k]).1.source == x && looked(
                        head[k].1,
                        head[k].0,
                        sightings[k],
                    ).1;
                assert(s[k] == head[k]);
            }
        }
        if rest.roster_changed {
            let k = choose|k: int|
                0 <= k < head.len() && looked((#[trigger] head[k]).1, head[k].0, sightings[k]).0.roster_changed;
            assert(s[k] == head[k]);
        }
    }
}

/// A file of an agent goes with its agent and with its project, the
/// registration with the project alone, an image once it is not wanted; the
/// other files always stay.
pub proof fn files_go_with_what_they_belong_to(
    e: EntryModel,
    k: Parts,
    root: Parts,
    agent: Text,
    present: Set<Parts>,
    other: Parts,
)
    ensures
        e.source == (SourceModel::Shell { project: root, agent }) || e.source == (SourceModel::Identity {
            project: root,
            agent,
        }) ==> {
            &&& !stays_without_agent(e, root, agent)
            &&& !stays_without_project(e, root)
            &&& stays_with_agents(e, root, present) <==> present.contains(seq![agent])
            &&& other != root ==> stays_without_agent(e, other, agent) && stays_without_project(e, other)
                && stays_with_agents(e, other, present)
        },
        e.source == (SourceModel::RosterProject { project: root }) ==> {
            &&& !stays_without_project(e, root)
            &&& stays_without_agent(e, root, agent) && stays_with_agents(e, root, present)
            &&& other != root ==> stays_without_project(e, other)
        },
        e.source is AvatarFile ==> (stays_with_images(k, e, present) <==> present.contains(k)),
        !(e.source is AvatarFile) ==> stays_with_images(k, e, present),
        e.source is AccountIdentity || e.source is AvatarIndex || e.source is AvatarFile ==> stays_without_agent(
            e,
            root,
            agent,
        ) && stays_without_project(e, root) && stays_with_agents(e, root, present),
{
}

/// Dropping files drops no others and changes none.
pub proof fn kept_files_are_unchanged(m: Map<Parts, EntryModel>, keep: spec_fn(Parts, EntryModel) -> bool, k: Parts)
    ensures
        kept_entries(m, keep).contains_key(k) <==> m.contains_key(k) && keep(k, m[k]),
        kept_entries(m, keep).contains_key(k) ==> kept_entries(m, keep)[k] == m[k],
{
}

/// An identity counts only if both its roster entry and its fields can be read.
pub proof fn an_identity_needs_both_readings(project: Parts, agent: Text, c: Content, e: String)
    ensures
        taken(SourceModel::Identity { project, agent }, Ok(c)) is Ok <==> shown(agent, yaml_reading(c.text@)) is Ok
            && c.fields is Ok,
        taken(SourceModel::Identity { project, agent }, Ok(c)) matches Ok((f, a)) ==> (c.fields matches Ok(x) && f == x@)
            && (shown(agent, yaml_reading(c.text@)) matches Ok(y) && a == Some(y)),
        taken(SourceModel::Identity { project, agent }, Err(e)) == Err::<(FieldsModel, Option<Option<AgentModel>>), Text>(
            e@,
        ),
{
}

} // verus!
