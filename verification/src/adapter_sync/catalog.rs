//! The files that are followed for a project.
use vstd::prelude::*;
use crate::adapter_sync::files::{apt, kept_entries, looked, new_entry, stays_with_agents, stays_with_images};
use crate::adapter_sync::files::{EntryModel, FileSet, Sighting, Source, SourceModel, WantedImages};
use crate::adapter_sync::queue::AgentKey;
use crate::order::{keyed, lemma_entry, Key, OrderedMap, OrderedSet, Parts};
use crate::path::PathName;
use crate::text::Text;

verus! {

/// The directory of an agent. One that holds neither file is not followed yet.
pub struct AgentDir {
    pub agent: String,
    pub configured: bool,
}

/// The directory that holds those of the agents.
pub enum Listing {
    Missing,
    Unreadable,
    Found(Vec<AgentDir>),
}

pub open spec fn agent_place(root: Parts, agent: Text) -> Parts {
    root.push(".agent-workspaces"@).push(agent)
}

pub open spec fn agent_files(root: Parts, dirs: Seq<AgentDir>) -> Seq<(Parts, SourceModel)>
    decreases dirs.len(),
{
    if dirs.len() == 0 {
        Seq::empty()
    } else {
        let rest = agent_files(root, dirs.drop_last());
        let agent = dirs.last().agent@;
        if dirs.last().configured {
            rest.push(
                (agent_place(root, agent).push("SHELL.yaml"@), SourceModel::Shell { project: root, agent }),
            ).push(
                (agent_place(root, agent).push("agent.yaml"@), SourceModel::Identity { project: root, agent }),
            )
        } else {
            rest
        }
    }
}

/// The files of a project: its registration and those of its agents.
pub open spec fn project_files(root: Parts, listing: Listing) -> Seq<(Parts, SourceModel)> {
    let own = seq![(root.push("workspace.json"@), SourceModel::RosterProject { project: root })];
    match listing {
        Listing::Found(dirs) => own + agent_files(root, dirs@),
        _ => own,
    }
}

pub open spec fn agents_in(dirs: Seq<AgentDir>) -> Set<Parts> {
    Set::new(|k: Parts| exists|i: int| 0 <= i < dirs.len() && k == seq![(#[trigger] dirs[i]).agent@])
}

pub open spec fn file_models(s: Seq<(PathName, Source)>) -> Seq<(Parts, SourceModel)> {
    s.map_values(|f: (PathName, Source)| (f.0@, f.1@))
}

pub fn files_of_project(root: &PathName, listing: &Listing) -> (r: Vec<(PathName, Source)>)
    ensures
        file_models(r@) == project_files(root@, *listing),
{
    let mut out: Vec<(PathName, Source)> = Vec::new();
    out.push((root.child("workspace.json"), Source::RosterProject(root.copy())));
    let ghost own = file_models(out@);
    proof {
        assert(own =~= seq![(root@.push("workspace.json"@), SourceModel::RosterProject { project: root@ })]);
    }
    if let Listing::Found(dirs) = listing {
        let mut i: usize = 0;
        assert(dirs@.take(0) =~= Seq::empty());
        assert(file_models(out@) =~= own + agent_files(root@, dirs@.take(0)));
        while i < dirs.len()
            invariant
                i <= dirs@.len(),
                file_models(out@) == own + agent_files(root@, dirs@.take(i as int)),
            decreases dirs@.len() - i,
        {
            let ghost was = out@;
            let d = &dirs[i];
            proof {
                assert(dirs@.take(i + 1).drop_last() =~= dirs@.take(i as int));
                assert(dirs@.take(i + 1).last() == *d);
            }
            if d.configured {
                let place = root.child(".agent-workspaces").child(&d.agent);
                let shell = AgentKey { project: root.copy(), agent: d.agent.clone() };
                let identity = AgentKey { project: root.copy(), agent: d.agent.clone() };
                let shell = (place.child("SHELL.yaml"), Source::Shell(shell));
                let identity = (place.child("agent.yaml"), Source::Identity(identity));
                let ghost a = (shell.0@, shell.1@);
                let ghost b = (identity.0@, identity.1@);
                out.push(shell);
                out.push(identity);
                proof {
                    assert(file_models(out@) =~= file_models(was).push(a).push(b));
                    assert(agent_files(root@, dirs@.take(i + 1)) == agent_files(root@, dirs@.take(i as int)).push(a).push(b));
                    assert(file_models(out@) =~= own + agent_files(root@, dirs@.take(i + 1)));
                }
            }
            i += 1;
        }
        assert(dirs@.take(i as int) =~= dirs@);
    }
    out
}

/// What is followed after these files are added, each with its first look.
/// A file that was followed before keeps its history.
pub open spec fn joined(m: Map<Parts, EntryModel>, files: Seq<(Parts, SourceModel)>, sights: Seq<Sighting>) -> Map<
    Parts,
    EntryModel,
>
    decreases files.len(),
{
    if files.len() == 0 {
        m
    } else {
        let rest = joined(m, files.drop_last(), sights);
        let (path, source) = files.last();
        if rest.contains_key(path) {
            rest
        } else {
            rest.insert(path, looked(new_entry(source), path, sights[files.len() - 1]).0)
        }
    }
}

/// What is followed after a project is registered. Agents that are no longer
/// there are dropped, unless their directories could not be listed.
pub open spec fn registered(m: Map<Parts, EntryModel>, root: Parts, listing: Listing, sights: Seq<Sighting>) -> Map<
    Parts,
    EntryModel,
> {
    let all = joined(m, project_files(root, listing), sights);
    match listing {
        Listing::Found(dirs) => kept_entries(
            all,
            |k: Parts, e: EntryModel| stays_with_agents(e, root, agents_in(dirs@)),
        ),
        _ => all,
    }
}

fn agent_set(dirs: &Vec<AgentDir>) -> (r: OrderedSet<String>)
    ensures
        r.wf(),
        r@ == agents_in(dirs@),
{
    let mut out: OrderedSet<String> = OrderedSet::new();
    let mut i: usize = 0;
    assert(out@ =~= agents_in(dirs@.take(0)));
    while i < dirs.len()
        invariant
            i <= dirs@.len(),
            out.wf(),
            out@ == agents_in(dirs@.take(i as int)),
        decreases dirs@.len() - i,
    {
        let ghost was = out@;
        out.insert(dirs[i].agent.clone());
        proof {
            let a = dirs@.take(i as int);
            let b = dirs@.take(i + 1);
            assert forall|k: Parts| agents_in(b).contains(k) == was.insert(seq![dirs@[i as int].agent@]).contains(k) by {
                if agents_in(b).contains(k) {
                    let j = choose|j: int| 0 <= j < b.len() && k == seq![(#[trigger] b[j]).agent@];
                    if j < i {
                        assert(a[j] == b[j]);
                    }
                }
                if was.contains(k) {
                    let j = choose|j: int| 0 <= j < a.len() && k == seq![(#[trigger] a[j]).agent@];
                    assert(b[j] == a[j]);
                }
                assert(b[i as int] == dirs@[i as int]);
            }
            assert(out@ =~= agents_in(b));
        }
        i += 1;
    }
    assert(dirs@.take(i as int) =~= dirs@);
    out
}

fn keys<V>(m: &OrderedMap<PathName, V>) -> (r: OrderedSet<PathName>)
    requires
        m.wf(),
    ensures
        r.wf(),
        r@ == m@.dom(),
{
    let mut out: OrderedSet<PathName> = OrderedSet::new();
    let mut i: usize = 0;
    while i < m.entries.len()
        invariant
            m.wf(),
            i <= m.entries@.len(),
            out.wf(),
            forall|j: int| 0 <= j < i ==> out@.contains((#[trigger] m.entries@[j]).0.key()),
            forall|k: Parts| #[trigger] out@.contains(k) ==> m@.contains_key(k),
        decreases m.entries@.len() - i,
    {
        proof {
            lemma_entry(m.entries@, i as int);
        }
        out.insert(m.entries[i].0.copy());
        i += 1;
    }
    proof {
        assert forall|k: Parts| m@.contains_key(k) implies #[trigger] out@.contains(k) by {
            let j = choose|j: int| keyed(m.entries@, j, k);
            assert(out@.contains(m.entries@[j].0.key()));
        }
        assert(out@ =~= m@.dom());
    }
    out
}

fn within(a: &OrderedSet<PathName>, b: &OrderedSet<PathName>) -> (r: bool)
    requires
        a.wf(),
        b.wf(),
    ensures
        r == a@.subset_of(b@),
{
    let v = &a.map.entries;
    let mut i: usize = 0;
    while i < v.len()
        invariant
            a.wf(),
            b.wf(),
            v == a.map.entries,
            i <= v@.len(),
            forall|j: int| 0 <= j < i ==> b@.contains((#[trigger] v@[j]).0.key()),
        decreases v@.len() - i,
    {
        proof {
            lemma_entry(v@, i as int);
        }
        if !b.has(&v[i].0) {
            assert(a@.contains(v@[i as int].0.key()));
            return false;
        }
        i += 1;
    }
    proof {
        assert forall|k: Parts| #[trigger] a@.contains(k) implies b@.contains(k) by {
            let j = choose|j: int| keyed(v@, j, k);
            assert(b@.contains(v@[j].0.key()));
        }
    }
    true
}

impl FileSet {
    fn add_all(&mut self, files: &Vec<(PathName, Source)>, sights: Vec<Sighting>)
        requires
            old(self).wf(),
            sights@.len() == files@.len(),
            forall|i: int|
                0 <= i < sights@.len() ==> apt(new_entry((#[trigger] file_models(files@)[i]).1), sights@[i]),
        ensures
            final(self).wf(),
            final(self).projects == old(self).projects,
            final(self).roster_changed == old(self).roster_changed,
            final(self).model() == joined(old(self).model(), file_models(files@), sights@),
    {
        let ghost start = self.model();
        let ghost looks = sights@;
        let ghost all = file_models(files@);
        let mut sights = sights;
        let mut i: usize = 0;
        proof {
            assert(all.take(0) =~= Seq::empty());
            assert(looks.skip(0) =~= looks);
        }
        while i < files.len()
            invariant
                self.wf(),
                self.projects == old(self).projects,
                self.roster_changed == old(self).roster_changed,
                all == file_models(files@),
                i <= files@.len(),
                looks.len() == files@.len(),
                sights@ == looks.skip(i as int),
                forall|j: int| 0 <= j < looks.len() ==> apt(new_entry((#[trigger] all[j]).1), looks[j]),
                self.model() == joined(start, all.take(i as int), looks),
            decreases files@.len() - i,
        {
            proof {
                assert(all.take(i + 1).drop_last() =~= all.take(i as int));
                assert(all.take(i + 1).last() == (files@[i as int].0@, files@[i as int].1@));
                assert(all[i as int] == (files@[i as int].0@, files@[i as int].1@));
                assert(looks.skip(i as int).remove(0) =~= looks.skip(i + 1));
            }
            let first = sights.remove(0);
            self.add_file(files[i].0.copy(), files[i].1.copy(), first);
            i += 1;
        }
        assert(all.take(i as int) =~= all);
    }

    /// Follow the files of a project. Tells whether other files are followed
    /// than before.
    pub fn register_project(&mut self, root: &PathName, listing: &Listing, sights: Vec<Sighting>) -> (changed: bool)
        requires
            old(self).wf(),
            sights@.len() == project_files(root@, *listing).len(),
            forall|i: int|
                0 <= i < sights@.len() ==> apt(
                    new_entry((#[trigger] project_files(root@, *listing)[i]).1),
                    sights@[i],
                ),
        ensures
            final(self).wf(),
            final(self).projects@ == old(self).projects@.insert(root@),
            final(self).roster_changed == old(self).roster_changed,
            final(self).model() == registered(old(self).model(), root@, *listing, sights@),
            changed == (final(self).model().dom() != old(self).model().dom()),
    {
        let ghost start = self.model();
        let before = keys(&self.entries);
        let files = files_of_project(root, listing);
        self.projects.insert(root.copy());
        self.add_all(&files, sights);
        if let Listing::Found(dirs) = listing {
            let present = agent_set(dirs);
            self.reconcile_agents(root, &present);
            proof {
                assert(self.projects@ =~= old(self).projects@.insert(root@));
            }
        }
        let after = keys(&self.entries);
        let same = within(&before, &after) && within(&after, &before);
        proof {
            assert(self.model().dom() =~= after@);
            assert(old(self).model().dom() =~= before@);
            if same {
                assert(after@ =~= before@);
            }
        }
        !same
    }
}

/// The files of the roster's images.
pub open spec fn image_files(paths: OrderedSet<PathName>) -> Seq<(Parts, SourceModel)> {
    paths.map.entries@.map_values(|e: (PathName, ())| (e.0@, SourceModel::AvatarFile))
}

impl FileSet {
    /// Follow these images and no others. Tells whether one of them is new.
    pub fn register_roster_images(&mut self, paths: &OrderedSet<PathName>, sights: Vec<Sighting>) -> (added: bool)
        requires
            old(self).wf(),
            paths.wf(),
            sights@.len() == paths.map.entries@.len(),
            forall|i: int| 0 <= i < sights@.len() ==> apt(new_entry(SourceModel::AvatarFile), #[trigger] sights@[i]),
        ensures
            final(self).wf(),
            final(self).projects == old(self).projects,
            final(self).roster_changed == old(self).roster_changed,
            final(self).model() == joined(
                kept_entries(old(self).model(), |k: Parts, e: EntryModel| stays_with_images(k, e, paths@)),
                image_files(*paths),
                sights@,
            ),
            added == exists|k: Parts| #[trigger] paths@.contains(k) && !old(self).model().contains_key(k),
    {
        let ghost before = self.model();
        let mut added = false;
        let mut images: Vec<(PathName, Source)> = Vec::new();
        let mut i: usize = 0;
        assert(file_models(images@) =~= image_files(*paths).take(0));
        while i < paths.map.entries.len()
            invariant
                self.wf(),
                paths.wf(),
                self.model() == before,
                self.entries == old(self).entries,
                self.projects == old(self).projects,
                self.roster_changed == old(self).roster_changed,
                i <= paths.map.entries@.len(),
                file_models(images@) == image_files(*paths).take(i as int),
                added == exists|j: int| 0 <= j < i && !before.contains_key((#[trigger] paths.map.entries@[j]).0@),
            decreases paths.map.entries@.len() - i,
        {
            if !self.entries.has(&paths.map.entries[i].0) {
                added = true;
            }
            let ghost was = images@;
            images.push((paths.map.entries[i].0.copy(), Source::AvatarFile));
            proof {
                let next = (paths.map.entries@[i as int].0@, SourceModel::AvatarFile);
                assert(file_models(images@) =~= file_models(was).push(next));
                assert(file_models(images@) =~= image_files(*paths).take(i + 1));
            }
            i += 1;
        }
        proof {
            assert(image_files(*paths).take(i as int) =~= image_files(*paths));
            if added {
                let j = choose|j: int| 0 <= j < i && !before.contains_key((#[trigger] paths.map.entries@[j]).0@);
                lemma_entry(paths.map.entries@, j);
                assert(paths@.contains(paths.map.entries@[j].0@));
            }
            if exists|k: Parts| #[trigger] paths@.contains(k) && !before.contains_key(k) {
                let k = choose|k: Parts| #[trigger] paths@.contains(k) && !before.contains_key(k);
                let j = choose|j: int| #[trigger] keyed(paths.map.entries@, j, k);
                assert(paths.map.entries@[j].0@ == k);
            }
        }
        self.entries.retain(&WantedImages { paths });
        assert(self.model() =~= kept_entries(
            before,
            |k: Parts, e: EntryModel| stays_with_images(k, e, paths@),
        ));
        self.add_all(&images, sights);
        added
    }
}

/// A file of the project that is followed already is followed as what it is.
pub open spec fn consistent(m: Map<Parts, EntryModel>, files: Seq<(Parts, SourceModel)>) -> bool {
    forall|i: int|
        0 <= i < files.len() && m.contains_key((#[trigger] files[i]).0) ==> m[files[i].0].source == files[i].1
}

proof fn lemma_agent_file(root: Parts, dirs: Seq<AgentDir>, i: int) -> (d: int)
    requires
        0 <= i < agent_files(root, dirs).len(),
    ensures
        0 <= d < dirs.len(),
        ({
            let (path, source) = agent_files(root, dirs)[i];
            let agent = dirs[d].agent@;
            ||| path == agent_place(root, agent).push("SHELL.yaml"@) && source == SourceModel::Shell { project: root, agent }
            ||| path == agent_place(root, agent).push("agent.yaml"@) && source == SourceModel::Identity {
                project: root,
                agent,
            }
        }),
    decreases dirs.len(),
{
    let n = agent_files(root, dirs.drop_last()).len() as int;
    if i < n {
        let d = lemma_agent_file(root, dirs.drop_last(), i);
        assert(dirs[d] == dirs.drop_last()[d]);
        d
    } else {
        dirs.len() - 1
    }
}

proof fn lemma_one_source(root: Parts, listing: Listing, i: int, j: int)
    requires
        0 <= i < project_files(root, listing).len(),
        0 <= j < project_files(root, listing).len(),
        project_files(root, listing)[i].0 == project_files(root, listing)[j].0,
    ensures
        project_files(root, listing)[i].1 == project_files(root, listing)[j].1,
{
    reveal_strlit("SHELL.yaml");
    reveal_strlit("agent.yaml");
    let files = project_files(root, listing);
    if let Listing::Found(dirs) = listing {
        if i > 0 {
            let a = lemma_agent_file(root, dirs@, i - 1);
            assert(files[i] == agent_files(root, dirs@)[i - 1]);
            assert(files[i].0.drop_last() =~= agent_place(root, dirs@[a].agent@));
            assert(agent_place(root, dirs@[a].agent@).last() == dirs@[a].agent@);
            assert(files[i].0.last() == "SHELL.yaml"@ || files[i].0.last() == "agent.yaml"@);
        }
        if j > 0 {
            let b = lemma_agent_file(root, dirs@, j - 1);
            assert(files[j] == agent_files(root, dirs@)[j - 1]);
            assert(files[j].0.drop_last() =~= agent_place(root, dirs@[b].agent@));
            assert(agent_place(root, dirs@[b].agent@).last() == dirs@[b].agent@);
        }
        assert("SHELL.yaml"@.len() == 10 && "SHELL.yaml"@[0] == 'S' && "agent.yaml"@[0] == 'a');
        if i == 0 && j > 0 {
            assert(files[0].0.len() == root.len() + 1);
            assert(files[j].0.len() == root.len() + 3);
        }
        if j == 0 && i > 0 {
            assert(files[0].0.len() == root.len() + 1);
            assert(files[i].0.len() == root.len() + 3);
        }
    }
}

proof fn lemma_joined_holds(
    m: Map<Parts, EntryModel>,
    root: Parts,
    listing: Listing,
    sights: Seq<Sighting>,
    n: int,
    i: int,
)
    requires
        consistent(m, project_files(root, listing)),
        0 <= i < n <= project_files(root, listing).len(),
    ensures
        ({
            let files = project_files(root, listing);
            let all = joined(m, files.take(n), sights);
            all.contains_key(files[i].0) && all[files[i].0].source == files[i].1
        }),
    decreases n,
{
    let files = project_files(root, listing);
    assert(files.take(n).drop_last() =~= files.take(n - 1));
    assert(files.take(n).last() == files[n - 1]);
    if i < n - 1 {
        lemma_joined_holds(m, root, listing, sights, n - 1, i);
    } else {
        if joined(m, files.take(n - 1), sights).contains_key(files[i].0) {
            lemma_joined_source(m, root, listing, sights, n - 1, i);
        }
        assert(looked(new_entry(files[i].1), files[i].0, sights[n - 1]).0.source == files[i].1);
    }
}

proof fn lemma_joined_source(
    m: Map<Parts, EntryModel>,
    root: Parts,
    listing: Listing,
    sights: Seq<Sighting>,
    n: int,
    i: int,
)
    requires
        consistent(m, project_files(root, listing)),
        0 <= n <= project_files(root, listing).len(),
        0 <= i < project_files(root, listing).len(),
        joined(m, project_files(root, listing).take(n), sights).contains_key(project_files(root, listing)[i].0),
    ensures
        joined(m, project_files(root, listing).take(n), sights)[project_files(root, listing)[i].0].source
            == project_files(root, listing)[i].1,
    decreases n,
{
    let files = project_files(root, listing);
    if n > 0 {
        assert(files.take(n).drop_last() =~= files.take(n - 1));
        assert(files.take(n).last() == files[n - 1]);
        if files[n - 1].0 == files[i].0 {
            lemma_one_source(root, listing, n - 1, i);
        }
        let rest = joined(m, files.take(n - 1), sights);
        if rest.contains_key(files[i].0) {
            lemma_joined_source(m, root, listing, sights, n - 1, i);
        }
        assert(looked(new_entry(files[n - 1].1), files[n - 1].0, sights[n - 1]).0.source == files[n - 1].1);
    }
}

proof fn lemma_nothing_joins(m: Map<Parts, EntryModel>, files: Seq<(Parts, SourceModel)>, sights: Seq<Sighting>)
    requires
        forall|i: int| 0 <= i < files.len() ==> m.contains_key((#[trigger] files[i]).0),
    ensures
        joined(m, files, sights) == m,
    decreases files.len(),
{
    if files.len() > 0 {
        assert forall|i: int| 0 <= i < files.drop_last().len() implies m.contains_key(
            (#[trigger] files.drop_last()[i]).0,
        ) by {
            assert(files.drop_last()[i] == files[i]);
        }
        lemma_nothing_joins(m, files.drop_last(), sights);
        assert(m.contains_key(files[files.len() - 1].0));
    }
}

/// Registering a project a second time, with the same directories, changes
/// nothing.
pub proof fn registering_again_changes_nothing(
    m: Map<Parts, EntryModel>,
    root: Parts,
    listing: Listing,
    first: Seq<Sighting>,
    second: Seq<Sighting>,
)
    requires
        consistent(m, project_files(root, listing)),
    ensures
        registered(registered(m, root, listing, first), root, listing, second) == registered(m, root, listing, first),
{
    let files = project_files(root, listing);
    let n = files.len() as int;
    let all = joined(m, files, first);
    let once = registered(m, root, listing, first);
    assert(files.take(n) =~= files);
    assert forall|i: int| 0 <= i < files.len() implies once.contains_key((#[trigger] files[i]).0) by {
        lemma_joined_holds(m, root, listing, first, n, i);
        if let Listing::Found(dirs) = listing {
            if i > 0 {
                let d = lemma_agent_file(root, dirs@, i - 1);
                assert(files[i] == agent_files(root, dirs@)[i - 1]);
                assert(agents_in(dirs@).contains(seq![dirs@[d].agent@]));
            }
        }
    }
    lemma_nothing_joins(once, files, second);
    assert(registered(once, root, listing, second) =~= once);
}

proof fn lemma_joined_contains(
    m: Map<Parts, EntryModel>,
    files: Seq<(Parts, SourceModel)>,
    sights: Seq<Sighting>,
    i: int,
)
    requires
        0 <= i < files.len(),
    ensures
        joined(m, files, sights).contains_key(files[i].0),
    decreases files.len(),
{
    if i < files.len() - 1 {
        lemma_joined_contains(m, files.drop_last(), sights, i);
        assert(files.drop_last()[i] == files[i]);
    }
}

/// Images that are registered are followed, so that registering them again
/// finds nothing new.
pub proof fn registered_images_are_followed(m: Map<Parts, EntryModel>, paths: OrderedSet<PathName>, sights: Seq<Sighting>)
    requires
        paths.wf(),
    ensures
        forall|k: Parts| #[trigger]
            paths@.contains(k) ==> joined(
                kept_entries(m, |k: Parts, e: EntryModel| stays_with_images(k, e, paths@)),
                image_files(paths),
                sights,
            ).contains_key(k),
{
    let base = kept_entries(m, |k: Parts, e: EntryModel| stays_with_images(k, e, paths@));
    assert forall|k: Parts| #[trigger] paths@.contains(k) implies joined(
        base,
        image_files(paths),
        sights,
    ).contains_key(k) by {
        let j = choose|j: int| keyed(paths.map.entries@, j, k);
        lemma_joined_contains(base, image_files(paths), sights, j);
        assert(image_files(paths)[j].0 == k);
    }
}

proof fn lemma_agent_files_has(root: Parts, dirs: Seq<AgentDir>, i: int)
    requires
        0 <= i < dirs.len(),
        dirs[i].configured,
    ensures
        agent_files(root, dirs).contains(
            (
                root.push(".agent-workspaces"@).push(dirs[i].agent@).push("SHELL.yaml"@),
                SourceModel::Shell { project: root, agent: dirs[i].agent@ },
            ),
        ),
        agent_files(root, dirs).contains(
            (
                root.push(".agent-workspaces"@).push(dirs[i].agent@).push("agent.yaml"@),
                SourceModel::Identity { project: root, agent: dirs[i].agent@ },
            ),
        ),
    decreases dirs.len(),
{
    let head = dirs.drop_last();
    let rest = agent_files(root, head);
    let out = agent_files(root, dirs);
    let a = (
        root.push(".agent-workspaces"@).push(dirs[i].agent@).push("SHELL.yaml"@),
        SourceModel::Shell { project: root, agent: dirs[i].agent@ },
    );
    let b = (
        root.push(".agent-workspaces"@).push(dirs[i].agent@).push("agent.yaml"@),
        SourceModel::Identity { project: root, agent: dirs[i].agent@ },
    );
    if i < head.len() {
        lemma_agent_files_has(root, head, i);
        assert(head[i] == dirs[i]);
        let j = choose|j: int| 0 <= j < rest.len() && rest[j] == a;
        assert(out[j] == a);
        let k = choose|k: int| 0 <= k < rest.len() && rest[k] == b;
        assert(out[k] == b);
    } else {
        assert(dirs[i] == dirs.last());
        assert(out[rest.len() as int] == a);
        assert(out[rest.len() as int + 1] == b);
    }
}

/// Of a project its registration is followed and, for every agent that is
/// configured, its shell and its identity.
pub proof fn the_files_of_every_configured_agent_are_followed(root: Parts, listing: Listing, i: int)
    ensures
        project_files(root, listing).contains(
            (root.push("workspace.json"@), SourceModel::RosterProject { project: root }),
        ),
        listing matches Listing::Found(dirs) ==> (0 <= i < dirs@.len() && dirs@[i].configured ==> project_files(
            root,
            listing,
        ).contains(
            (
                root.push(".agent-workspaces"@).push(dirs@[i].agent@).push("SHELL.yaml"@),
                SourceModel::Shell { project: root, agent: dirs@[i].agent@ },
            ),
        ) && project_files(root, listing).contains(
            (
                root.push(".agent-workspaces"@).push(dirs@[i].agent@).push("agent.yaml"@),
                SourceModel::Identity { project: root, agent: dirs@[i].agent@ },
            ),
        )),
{
    let all = project_files(root, listing);
    assert(all[0] == (root.push("workspace.json"@), SourceModel::RosterProject { project: root }));
    if let Listing::Found(dirs) = listing {
        if 0 <= i < dirs@.len() && dirs@[i].configured {
            lemma_agent_files_has(root, dirs@, i);
            let rest = agent_files(root, dirs@);
            let a = (
                root.push(".agent-workspaces"@).push(dirs@[i].agent@).push("SHELL.yaml"@),
                SourceModel::Shell { project: root, agent: dirs@[i].agent@ },
            );
            let b = (
                root.push(".agent-workspaces"@).push(dirs@[i].agent@).push("agent.yaml"@),
                SourceModel::Identity { project: root, agent: dirs@[i].agent@ },
            );
            let j = choose|j: int| 0 <= j < rest.len() && rest[j] == a;
            assert(all[1 + j] == a);
            let k = choose|k: int| 0 <= k < rest.len() && rest[k] == b;
            assert(all[1 + k] == b);
        }
    }
}

/// Adding files takes none away: one that is followed keeps its history, and
/// whatever is new is one of the given files with the look that was taken of it.
pub proof fn a_followed_file_keeps_its_history(
    m: Map<Parts, EntryModel>,
    files: Seq<(Parts, SourceModel)>,
    sights: Seq<Sighting>,
    k: Parts,
)
    ensures
        m.contains_key(k) ==> joined(m, files, sights).contains_key(k) && joined(m, files, sights)[k] == m[k],
        joined(m, files, sights).contains_key(k) && !m.contains_key(k) ==> exists|i: int|
            0 <= i < files.len() && (#[trigger] files[i]).0 == k && joined(m, files, sights)[k] == looked(
                new_entry(files[i].1),
                k,
                sights[i],
            ).0,
        (exists|i: int| 0 <= i < files.len() && (#[trigger] files[i]).0 == k) ==> joined(m, files, sights).contains_key(k),
    decreases files.len(),
{
    if files.len() > 0 {
        let head = files.drop_last();
        a_followed_file_keeps_its_history(m, head, sights, k);
        assert(files[files.len() - 1] == files.last());
        assert(forall|i: int| 0 <= i < head.len() ==> head[i] == #[trigger] files[i]);
        if joined(m, head, sights).contains_key(k) && !m.contains_key(k) {
            let i = choose|i: int|
                0 <= i < head.len() && (#[trigger] head[i]).0 == k && joined(m, head, sights)[k] == looked(
                    new_entry(head[i].1),
                    k,
                    sights[i],
                ).0;
            assert(files[i] == head[i]);
        }
        if exists|i: int| 0 <= i < files.len() && (#[trigger] files[i]).0 == k {
            let i = choose|i: int| 0 <= i < files.len() && (#[trigger] files[i]).0 == k;
            if i < head.len() {
                assert(head[i] == files[i]);
            }
        }
    }
}

/// Registering a project drops the files of its agents that are gone, and of
/// nothing else; if the directories could not be listed it drops none.
pub proof fn registering_drops_absent_agents_alone(
    m: Map<Parts, EntryModel>,
    root: Parts,
    listing: Listing,
    sights: Seq<Sighting>,
    k: Parts,
    agent: Text,
)
    requires
        m.contains_key(k),
    ensures
        !(listing is Found) ==> registered(m, root, listing, sights).contains_key(k),
        listing matches Listing::Found(dirs) ==> {
            &&& (m[k].source == (SourceModel::Shell { project: root, agent }) || m[k].source == (SourceModel::Identity {
                project: root,
                agent,
            })) ==> (registered(m, root, listing, sights).contains_key(k) <==> exists|i: int|
                0 <= i < dirs@.len() && (#[trigger] dirs@[i]).agent@ == agent)
            &&& m[k].source is AccountIdentity || m[k].source is AvatarIndex || m[k].source is AvatarFile
                || m[k].source is RosterProject ==> registered(m, root, listing, sights).contains_key(k)
        },
        registered(m, root, listing, sights).contains_key(k) ==> registered(m, root, listing, sights)[k] == m[k],
{
    let all = joined(m, project_files(root, listing), sights);
    a_followed_file_keeps_its_history(m, project_files(root, listing), sights, k);
    if let Listing::Found(dirs) = listing {
        let present = agents_in(dirs@);
        if m[k].source == (SourceModel::Shell { project: root, agent }) || m[k].source == (SourceModel::Identity {
            project: root,
            agent,
        }) {
            if present.contains(seq![agent]) {
                let i = choose|i: int| 0 <= i < dirs@.len() && seq![agent] == seq![(#[trigger] dirs@[i]).agent@];
                assert(seq![agent][0] == seq![dirs@[i].agent@][0]);
                assert(dirs@[i].agent@ == agent);
            }
        }
    }
}

} // verus!
