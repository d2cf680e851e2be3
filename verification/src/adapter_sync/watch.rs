//! File events that concern rule directories and the skill pool.
use vstd::prelude::*;
use crate::order::{list_before, list_same, Key, OrderedMap, OrderedSet, Parts};
use crate::path::{lemma_path_rank, name_extension, path_rank, rank_path, PathName};
use crate::text::{begins, begins_with, lower, opt_text, same, same_opt, texts, to_lower, Text};

verus! {

/// One character as a text, used to rank the variants of a key.
pub open spec fn rank(c: char) -> Text {
    seq![c]
}

/// A list of texts that begins with a rank.
pub fn ranked(c: char, rest: &Vec<String>) -> (r: Vec<String>)
    ensures
        texts(r@) == seq![rank(c)] + texts(rest@),
{
    let mut head = String::new();
    head.push(c);
    assert(head@ =~= rank(c));
    let mut out: Vec<String> = Vec::new();
    out.push(head);
    assert(texts(out@) =~= seq![rank(c)]);
    let mut i: usize = 0;
    while i < rest.len()
        invariant
            i <= rest.len(),
            texts(out@) == seq![rank(c)] + texts(rest@).take(i as int),
        decreases rest.len() - i,
    {
        let ghost was = out@;
        out.push(rest[i].clone());
        i += 1;
        assert(texts(out@) =~= texts(was).push(rest@[i - 1]@));
        assert(texts(rest@).take(i as int) =~= texts(rest@).take(i - 1).push(rest@[i - 1]@));
        assert(texts(out@) =~= seq![rank(c)] + texts(rest@).take(i as int));
    }
    assert(texts(rest@).take(i as int) =~= texts(rest@));
    out
}

/// What a watched directory feeds.
pub enum Source {
    AccountRules,
    ProjectRules(PathName),
    SkillPool,
    PoolSkill(String),
}

pub open spec fn account_key() -> Parts {
    seq![rank('0')]
}

pub open spec fn project_key(root: Parts) -> Parts {
    seq![rank('1')] + root
}

pub open spec fn pool_key() -> Parts {
    seq![rank('2')]
}

pub open spec fn skill_key(id: Text) -> Parts {
    seq![rank('3')] + seq![id]
}

/// What a source is ordered by: its kind, and a project by its path.
pub open spec fn source_rank(k: Parts) -> Parts {
    if k.len() > 0 && k[0] == rank('1') {
        seq![k[0]] + path_rank(k.drop_first())
    } else {
        k
    }
}

impl Source {
    /// The texts that identify the source.
    fn parts(&self) -> (r: Vec<String>)
        ensures
            texts(r@) == self.key(),
    {
        let mut rest: Vec<String> = Vec::new();
        assert(texts(rest@) =~= Seq::<Text>::empty());
        match self {
            Source::AccountRules => {
                assert(seq![rank('0')] + texts(rest@) =~= seq![rank('0')]);
                ranked('0', &rest)
            },
            Source::ProjectRules(root) => ranked('1', &root.parts),
            Source::SkillPool => {
                assert(seq![rank('2')] + texts(rest@) =~= seq![rank('2')]);
                ranked('2', &rest)
            },
            Source::PoolSkill(id) => {
                rest.push(id.clone());
                assert(texts(rest@) =~= seq![id@]);
                ranked('3', &rest)
            },
        }
    }

    fn order_parts(&self) -> (r: Vec<String>)
        ensures
            texts(r@) == source_rank(self.key()),
    {
        proof {
            assert(rank('0')[0] != rank('1')[0]);
            assert(rank('2')[0] != rank('1')[0]);
            assert(rank('3')[0] != rank('1')[0]);
        }
        match self {
            Source::ProjectRules(root) => {
                assert(project_key(root@).drop_first() =~= root@);
                ranked('1', &rank_path(&root.parts))
            },
            _ => self.parts(),
        }
    }

    pub fn is_pool(&self) -> (r: bool)
        ensures
            r == (self is SkillPool),
            r == (self.key() == pool_key()),
    {
        assert(self is SkillPool || self.key()[0] != pool_key()[0]) by {
            assert(rank('0')[0] != rank('2')[0]);
            assert(rank('1')[0] != rank('2')[0]);
            assert(rank('3')[0] != rank('2')[0]);
        }
        matches!(self, Source::SkillPool)
    }
}

impl Key for Source {
    open spec fn key(&self) -> Parts {
        match self {
            Source::AccountRules => account_key(),
            Source::ProjectRules(root) => project_key(root@),
            Source::SkillPool => pool_key(),
            Source::PoolSkill(id) => skill_key(id@),
        }
    }

    open spec fn order_of(k: Parts) -> Parts {
        source_rank(k)
    }

    proof fn order_tells(a: Self, b: Self) {
        let x = a.key();
        let y = b.key();
        if source_rank(x) == source_rank(y) {
            assert(source_rank(x)[0] == x[0] && source_rank(y)[0] == y[0]);
            if x[0] == rank('1') {
                assert(source_rank(x).drop_first() =~= path_rank(x.drop_first()));
                assert(source_rank(y).drop_first() =~= path_rank(y.drop_first()));
                lemma_path_rank(x.drop_first(), y.drop_first());
                assert(x =~= seq![x[0]] + x.drop_first());
                assert(y =~= seq![y[0]] + y.drop_first());
            }
        }
    }

    fn is_before(&self, other: &Self) -> (r: bool) {
        list_before(&self.order_parts(), &other.order_parts())
    }

    fn is_same(&self, other: &Self) -> (r: bool) {
        list_same(&self.parts(), &other.parts())
    }

    fn copy_key(&self) -> (r: Self) {
        match self {
            Source::AccountRules => Source::AccountRules,
            Source::ProjectRules(root) => Source::ProjectRules(root.copy()),
            Source::SkillPool => Source::SkillPool,
            Source::PoolSkill(id) => Source::PoolSkill(id.clone()),
        }
    }
}

/// The changes that a batch of events stands for.
pub struct Changes {
    pub sources: OrderedSet<Source>,
    pub recheck: OrderedSet<PathName>,
    pub error: Option<String>,
}

pub struct ChangesModel {
    pub sources: Set<Parts>,
    pub recheck: Set<Parts>,
    pub error: Option<Text>,
}

impl View for Changes {
    type V = ChangesModel;

    open spec fn view(&self) -> ChangesModel {
        ChangesModel { sources: self.sources@, recheck: self.recheck@, error: opt_text(self.error) }
    }
}

/// Nothing changed.
pub open spec fn no_changes() -> ChangesModel {
    ChangesModel { sources: Set::empty(), recheck: Set::empty(), error: None }
}

/// Both batches together; the later error wins.
pub open spec fn merged(a: ChangesModel, b: ChangesModel) -> ChangesModel {
    ChangesModel {
        sources: a.sources.union(b.sources),
        recheck: a.recheck.union(b.recheck),
        error: if b.error is Some {
            b.error
        } else {
            a.error
        },
    }
}

impl Changes {
    pub open spec fn wf(&self) -> bool {
        self.sources.wf() && self.recheck.wf()
    }

    pub fn new() -> (r: Changes)
        ensures
            r.wf(),
            r@ == no_changes(),
    {
        Changes { sources: OrderedSet::new(), recheck: OrderedSet::new(), error: None }
    }

    pub fn is_empty(&self) -> (r: bool)
        requires
            self.wf(),
        ensures
            r == (self@ == no_changes()),
    {
        self.sources.is_empty() && self.recheck.is_empty() && self.error.is_none()
    }

    pub fn merge(&mut self, other: Changes)
        requires
            old(self).wf(),
            other.wf(),
        ensures
            final(self).wf(),
            final(self)@ == merged(old(self)@, other@),
    {
        self.sources.add_all(&other.sources);
        self.recheck.add_all(&other.recheck);
        if other.error.is_some() {
            self.error = other.error;
        }
    }
}

/// Merging never loses a source or a directory, in whatever order batches come.
pub proof fn merging_is_a_union(a: ChangesModel, b: ChangesModel, c: ChangesModel)
    ensures
        merged(merged(a, b), c) == merged(a, merged(b, c)),
        merged(a, b).sources == merged(b, a).sources,
        merged(a, b).recheck == merged(b, a).recheck,
        merged(a, no_changes()) == a,
        merged(no_changes(), a) == a,
{
    assert(merged(merged(a, b), c).sources =~= merged(a, merged(b, c)).sources);
    assert(merged(merged(a, b), c).recheck =~= merged(a, merged(b, c)).recheck);
    assert(merged(a, b).sources =~= merged(b, a).sources);
    assert(merged(a, b).recheck =~= merged(b, a).recheck);
    assert(merged(a, no_changes()).sources =~= a.sources);
    assert(merged(a, no_changes()).recheck =~= a.recheck);
    assert(merged(no_changes(), a).sources =~= a.sources);
    assert(merged(no_changes(), a).recheck =~= a.recheck);
}

/// One native event: whether it is a mere access, whether events were lost,
/// and the paths it names.
pub struct Event {
    pub access: bool,
    pub rescan: bool,
    pub paths: Vec<PathName>,
}

/// Which sources each watched directory feeds.
pub type Index = OrderedMap<PathName, OrderedSet<Source>>;

pub open spec fn index_wf(index: &Index) -> bool {
    index.wf() && forall|i: int|
        0 <= i < index.entries@.len() ==> (#[trigger] index.entries@[i]).1.wf()
}

/// The skill that a path under the pool directory concerns.
pub open spec fn pool_member(dir: Parts, path: Parts) -> Option<Text> {
    if dir.len() <= path.len() && path.take(dir.len() as int) == dir {
        let rest = path.skip(dir.len() as int);
        if (rest.len() == 1 || (rest.len() == 2 && rest[1] == "SKILL.md"@)) && !begins(rest[0], "."@) {
            Some(rest[0])
        } else {
            None
        }
    } else {
        None
    }
}

/// A Markdown file directly in the directory.
pub open spec fn rule_file(dir: Parts, path: Parts) -> bool {
    &&& path.len() > 0
    &&& path != seq![Seq::<char>::empty()]
    &&& path.drop_last() == dir
    &&& name_extension(path.last()) matches Some(ext) && lower(ext) == "md"@
}

/// The path makes the directory report the source `k`.
pub open spec fn path_reports(dir: Parts, sources: Set<Parts>, path: Parts, k: Parts) -> bool {
    ||| sources.contains(pool_key()) && pool_member(dir, path) is Some && k == skill_key(
        pool_member(dir, path)->0,
    )
    ||| rule_file(dir, path) && sources.contains(k) && k != pool_key()
}

/// Some of the first `n` paths makes the directory report `k`.
pub open spec fn some_path_reports(dir: Parts, sources: Set<Parts>, paths: Seq<PathName>, n: int, k: Parts) -> bool {
    exists|j: int| 0 <= j < n && path_reports(dir, sources, (#[trigger] paths[j])@, k)
}

pub open spec fn names_path(paths: Seq<PathName>, n: int, dir: Parts) -> bool {
    exists|j: int| 0 <= j < n && (#[trigger] paths[j])@ == dir
}

/// The directory reports the source `k` for this event.
pub open spec fn dir_reports(e: Event, dir: Parts, sources: Set<Parts>, k: Parts) -> bool {
    if e.rescan {
        sources.contains(k)
    } else {
        some_path_reports(dir, sources, e.paths@, e.paths@.len() as int, k)
    }
}

/// The directory must be looked at again after this event.
pub open spec fn dir_rechecked(e: Event, dir: Parts) -> bool {
    e.rescan || names_path(e.paths@, e.paths@.len() as int, dir)
}

/// What one event means for the watched directories.
pub open spec fn classified(e: Event, index: Seq<(PathName, OrderedSet<Source>)>) -> ChangesModel {
    if e.access {
        no_changes()
    } else {
        ChangesModel {
            sources: Set::new(
                |k: Parts|
                    exists|i: int|
                        0 <= i < index.len() && dir_reports(e, (#[trigger] index[i]).0@, index[i].1@, k),
            ),
            recheck: Set::new(
                |d: Parts|
                    exists|i: int| 0 <= i < index.len() && (#[trigger] index[i]).0@ == d && dir_rechecked(e, d),
            ),
            error: None,
        }
    }
}

/// `pool_member`, executed.
fn find_pool_member(dir: &PathName, path: &PathName) -> (r: Option<String>)
    ensures
        r is Some == pool_member(dir@, path@) is Some,
        r matches Some(id) ==> pool_member(dir@, path@) == Some(id@),
{
    match dir.below(path) {
        Some(rest) => {
            let n = rest.parts.len();
            assert(forall|j: int| 0 <= j < rest.parts@.len() ==> rest@[j] == (#[trigger] rest.parts@[j])@);
            if (n == 1 || (n == 2 && same(&rest.parts[1], "SKILL.md"))) && !begins_with(&rest.parts[0], ".") {
                Some(rest.parts[0].clone())
            } else {
                None
            }
        },
        None => None,
    }
}

fn is_rule_file(dir: &PathName, path: &PathName) -> (r: bool)
    ensures
        r == rule_file(dir@, path@),
{
    if !dir.is_parent_of(path) {
        return false;
    }
    match path.extension() {
        Some(ext) => same(&to_lower(&ext), "md"),
        None => false,
    }
}

/// Add every source of `sources` except the pool itself.
fn add_rule_sources(into: &mut OrderedSet<Source>, sources: &OrderedSet<Source>)
    requires
        old(into).wf(),
        sources.wf(),
    ensures
        final(into).wf(),
        forall|k: Parts| #[trigger]
            final(into)@.contains(k) <==> old(into)@.contains(k) || (sources@.contains(k) && k != pool_key()),
{
    let ghost s = sources.map.entries@;
    let ghost start = into@;
    let mut i: usize = 0;
    while i < sources.map.entries.len()
        invariant
            into.wf(),
            sources.wf(),
            s == sources.map.entries@,
            i <= s.len(),
            forall|k: Parts| #[trigger]
                into@.contains(k) <==> start.contains(k) || (k != pool_key() && exists|j: int|
                    j < i && #[trigger] crate::order::keyed(s, j, k)),
        decreases s.len() - i,
    {
        let ghost was = into@;
        let ghost key = s[i as int].0.key();
        if !sources.map.entries[i].0.is_pool() {
            into.insert(sources.map.entries[i].0.copy_key());
        }
        i += 1;
        proof {
            assert forall|k: Parts| #[trigger]
                into@.contains(k) <==> start.contains(k) || (k != pool_key() && exists|j: int|
                    j < i && #[trigger] crate::order::keyed(s, j, k)) by {
                assert(crate::order::keyed(s, i - 1, key));
                if k != key {
                    assert(into@.contains(k) == was.contains(k));
                }
            }
        }
    }
    proof {
        assert forall|k: Parts| #[trigger] into@.contains(k) <==> start.contains(k) || (sources@.contains(k) && k
            != pool_key()) by {
            if exists|j: int| j < i && #[trigger] crate::order::keyed(s, j, k) {
                let j = choose|j: int| j < i && #[trigger] crate::order::keyed(s, j, k);
                assert(crate::order::keyed(s, j, k));
                assert(sources@.contains(k));
            }
            if sources@.contains(k) {
                let j = choose|j: int| #[trigger] crate::order::keyed(s, j, k);
                assert(j < i && crate::order::keyed(s, j, k));
            }
        }
    }
}

/// What one directory contributes for the paths of an event.
fn classify_directory(
    event: &Event,
    dir: &PathName,
    sources: &OrderedSet<Source>,
    into: &mut OrderedSet<Source>,
) -> (named: bool)
    requires
        old(into).wf(),
        sources.wf(),
    ensures
        final(into).wf(),
        named == names_path(event.paths@, event.paths@.len() as int, dir@),
        forall|k: Parts| #[trigger]
            final(into)@.contains(k) <==> old(into)@.contains(k) || some_path_reports(
                dir@,
                sources@,
                event.paths@,
                event.paths@.len() as int,
                k,
            ),
{
    let pool = sources.has(&Source::SkillPool);
    let ghost start = into@;
    let mut named = false;
    let mut j: usize = 0;
    while j < event.paths.len()
        invariant
            into.wf(),
            sources.wf(),
            pool == sources@.contains(pool_key()),
            j <= event.paths@.len(),
            named == names_path(event.paths@, j as int, dir@),
            forall|k: Parts| #[trigger]
                into@.contains(k) <==> start.contains(k) || some_path_reports(
                    dir@,
                    sources@,
                    event.paths@,
                    j as int,
                    k,
                ),
        decreases event.paths@.len() - j,
    {
        let ghost was = into@;
        let path = &event.paths[j];
        if path.is_same(dir) {
            named = true;
        }
        if pool {
            if let Some(id) = find_pool_member(dir, path) {
                into.insert(Source::PoolSkill(id));
            }
        }
        let ghost middle = into@;
        if is_rule_file(dir, path) {
            add_rule_sources(into, sources);
        }
        proof {
            assert forall|k: Parts| #[trigger]
                into@.contains(k) <==> start.contains(k) || some_path_reports(
                    dir@,
                    sources@,
                    event.paths@,
                    j + 1,
                    k,
                ) by {
                assert(middle.contains(k) <==> was.contains(k) || (pool && pool_member(dir@, path@) is Some && k
                    == skill_key(pool_member(dir@, path@)->0)));
                assert(into@.contains(k) <==> was.contains(k) || path_reports(dir@, sources@, path@, k));
                if path_reports(dir@, sources@, path@, k) {
                    assert(some_path_reports(dir@, sources@, event.paths@, j + 1, k));
                }
                if some_path_reports(dir@, sources@, event.paths@, j as int, k) {
                    let x = choose|x: int|
                        0 <= x < j && path_reports(dir@, sources@, (#[trigger] event.paths@[x])@, k);
                    assert(some_path_reports(dir@, sources@, event.paths@, j + 1, k));
                }
            }
            if names_path(event.paths@, j as int, dir@) {
                let x = choose|x: int| 0 <= x < j && (#[trigger] event.paths@[x])@ == dir@;
                assert(names_path(event.paths@, j + 1, dir@));
            }
        }
        j += 1;
    }
    named
}

/// What an event means: the sources to rebuild and the directories to look at again.
pub fn classify(event: &Event, index: &Index) -> (r: Changes)
    requires
        index_wf(index),
    ensures
        r.wf(),
        r@ == classified(*event, index.entries@),
{
    let mut changes = Changes::new();
    if event.access {
        return changes;
    }
    let ghost s = index.entries@;
    let mut i: usize = 0;
    while i < index.entries.len()
        invariant
            index_wf(index),
            s == index.entries@,
            i <= s.len(),
            changes.wf(),
            changes.error is None,
            forall|k: Parts| #[trigger]
                changes.sources@.contains(k) <==> exists|x: int|
                    0 <= x < i && dir_reports(*event, (#[trigger] s[x]).0@, s[x].1@, k),
            forall|d: Parts| #[trigger]
                changes.recheck@.contains(d) <==> exists|x: int|
                    0 <= x < i && (#[trigger] s[x]).0@ == d && dir_rechecked(*event, d),
        decreases s.len() - i,
    {
        let ghost was = changes@;
        let dir = &index.entries[i].0;
        let sources = &index.entries[i].1;
        assert(index.entries@[i as int].1.wf());
        if event.rescan {
            changes.sources.add_all(sources);
            changes.recheck.insert(dir.copy());
        } else {
            let named = classify_directory(event, dir, sources, &mut changes.sources);
            if named {
                changes.recheck.insert(dir.copy());
            }
        }
        proof {
            assert forall|k: Parts| #[trigger]
                changes.sources@.contains(k) <==> exists|x: int|
                    0 <= x < i + 1 && dir_reports(*event, (#[trigger] s[x]).0@, s[x].1@, k) by {
                assert(changes.sources@.contains(k) <==> was.sources.contains(k) || dir_reports(
                    *event,
                    s[i as int].0@,
                    s[i as int].1@,
                    k,
                ));
            }
            assert forall|d: Parts| #[trigger]
                changes.recheck@.contains(d) <==> exists|x: int|
                    0 <= x < i + 1 && (#[trigger] s[x]).0@ == d && dir_rechecked(*event, d) by {
                assert(changes.recheck@.contains(d) <==> was.recheck.contains(d) || (s[i as int].0@ == d
                    && dir_rechecked(*event, d)));
            }
        }
        i += 1;
    }
    assert(changes@.sources =~= classified(*event, s).sources);
    assert(changes@.recheck =~= classified(*event, s).recheck);
    changes
}

/// An event never reports a source that no watched directory could feed: each
/// reported source belongs to a directory, or is a skill of the pool.
pub proof fn events_keep_their_scope(e: Event, index: Seq<(PathName, OrderedSet<Source>)>, k: Parts)
    requires
        classified(e, index).sources.contains(k),
    ensures
        exists|i: int|
            0 <= i < index.len() && ((#[trigger] index[i]).1@.contains(k) || (index[i].1@.contains(pool_key())
                && k.len() == 2 && k[0] == rank('3'))),
{
    let i = choose|i: int| 0 <= i < index.len() && dir_reports(e, (#[trigger] index[i]).0@, index[i].1@, k);
    if !e.rescan {
        let j = choose|j: int|
            0 <= j < e.paths@.len() && path_reports(index[i].0@, index[i].1@, (#[trigger] e.paths@[j])@, k);
        assert(path_reports(index[i].0@, index[i].1@, e.paths@[j]@, k));
    }
}

// ------------------------------------------------------------- subscriptions

/// Which directory on disk a path led to.
#[derive(Clone, Copy, PartialEq, Eq, Structural)]
pub struct DirectoryIdentity {
    pub device: u64,
    pub inode: u64,
}

/// What resolving a requested directory gave.
pub enum Resolved {
    Found(PathName, DirectoryIdentity),
    Failed(String),
}

/// A requested directory and how it was last seen.
pub struct Directory {
    pub source: Source,
    pub current: Option<(PathName, DirectoryIdentity)>,
    pub initialized: bool,
    pub recheck: bool,
    pub failures: u8,
    pub last_error: Option<String>,
}

pub struct DirectoryModel {
    pub source: Parts,
    pub current: Option<(Parts, DirectoryIdentity)>,
    pub initialized: bool,
    pub recheck: bool,
    pub failures: u8,
    pub last_error: Option<Text>,
}

pub open spec fn current_model(c: Option<(PathName, DirectoryIdentity)>) -> Option<(Parts, DirectoryIdentity)> {
    match c {
        Some(x) => Some((x.0@, x.1)),
        None => None,
    }
}

impl View for Directory {
    type V = DirectoryModel;

    open spec fn view(&self) -> DirectoryModel {
        DirectoryModel {
            source: self.source.key(),
            current: current_model(self.current),
            initialized: self.initialized,
            recheck: self.recheck,
            failures: self.failures,
            last_error: opt_text(self.last_error),
        }
    }
}

/// At most three failures count, and a pending recheck starts the count anew.
pub open spec fn directory_wf(d: DirectoryModel) -> bool {
    d.failures <= 3 && (d.recheck ==> d.failures == 0)
}

/// The directory is due: asked for, or lost and not yet given up.
pub open spec fn due(d: DirectoryModel) -> bool {
    d.recheck || (d.current is None && d.failures < 3)
}

pub open spec fn fresh_directory(source: Parts) -> DirectoryModel {
    DirectoryModel {
        source,
        current: None,
        initialized: false,
        recheck: true,
        failures: 0,
        last_error: None,
    }
}

pub open spec fn asked_again(d: DirectoryModel) -> DirectoryModel {
    DirectoryModel { recheck: true, failures: 0, ..d }
}

/// After a directory was found.
pub open spec fn after_found(d: DirectoryModel, path: Parts, id: DirectoryIdentity) -> DirectoryModel {
    DirectoryModel {
        current: Some((path, id)),
        initialized: true,
        recheck: false,
        failures: 0,
        last_error: None,
        ..d
    }
}

/// After resolving it failed.
pub open spec fn after_failed(d: DirectoryModel, error: Text) -> DirectoryModel {
    DirectoryModel {
        current: None,
        initialized: true,
        recheck: false,
        failures: (d.failures + 1) as u8,
        last_error: Some(error),
        ..d
    }
}

/// What the caller should do after a directory was resolved.
pub struct Noted {
    /// The directory's source changed and must be rebuilt.
    pub changed: bool,
    /// The error is new and worth a log line.
    pub report: bool,
}

impl Directory {
    pub fn is_due(&self) -> (r: bool)
        ensures
            r == due(self@),
    {
        self.recheck || (self.current.is_none() && self.failures < 3)
    }

    /// Record what resolving the directory gave.
    pub fn settle(&mut self, outcome: Resolved) -> (r: Noted)
        requires
            directory_wf(old(self)@),
            due(old(self)@),
        ensures
            directory_wf(final(self)@),
            outcome matches Resolved::Found(path, id) ==> {
                &&& final(self)@ == after_found(old(self)@, path@, id)
                &&& r.changed == (old(self)@.initialized && old(self)@.current != Some((path@, id)))
                &&& !r.report
            },
            outcome matches Resolved::Failed(error) ==> {
                &&& final(self)@ == after_failed(old(self)@, error@)
                &&& r.changed == old(self)@.current is Some
                &&& r.report == (old(self)@.last_error != Some(error@))
            },
    {
        self.recheck = false;
        match outcome {
            Resolved::Found(path, id) => {
                let unchanged = match &self.current {
                    Some(c) => c.0.is_same(&path) && c.1 == id,
                    None => false,
                };
                let changed = self.initialized && !unchanged;
                self.current = Some((path, id));
                self.failures = 0;
                self.last_error = None;
                self.initialized = true;
                Noted { changed, report: false }
            },
            Resolved::Failed(error) => {
                let changed = self.current.is_some();
                self.current = None;
                self.failures = self.failures + 1;
                let next = Some(error);
                let report = !same_opt(&self.last_error, &next);
                self.last_error = next;
                self.initialized = true;
                Noted { changed, report }
            },
        }
    }
}

/// The directories asked for and the native subscriptions that stand.
pub struct WatchSet {
    pub directories: OrderedMap<PathName, Directory>,
    pub attached: OrderedMap<PathName, DirectoryIdentity>,
    pub attach_failures: OrderedMap<PathName, u8>,
}

pub open spec fn directories_model(m: Map<Parts, Directory>) -> Map<Parts, DirectoryModel> {
    m.map_values(|d: Directory| d@)
}

impl WatchSet {
    pub open spec fn wf(&self) -> bool {
        &&& self.directories.wf()
        &&& self.attached.wf()
        &&& self.attach_failures.wf()
        &&& forall|k: Parts| #[trigger]
            self.directories@.contains_key(k) ==> directory_wf(self.directories@[k]@)
        &&& forall|k: Parts| #[trigger]
            self.attach_failures@.contains_key(k) ==> 0 < self.attach_failures@[k] <= 3
    }

    pub fn new() -> (r: WatchSet)
        ensures
            r.wf(),
            r.directories@ == Map::<Parts, Directory>::empty(),
            r.attached@ == Map::<Parts, DirectoryIdentity>::empty(),
            r.attach_failures@ == Map::<Parts, u8>::empty(),
    {
        WatchSet {
            directories: OrderedMap::new(),
            attached: OrderedMap::new(),
            attach_failures: OrderedMap::new(),
        }
    }

    /// Ask for a directory, or ask again. Either is a new chance for
    /// subscriptions that had been given up.
    pub fn ask(&mut self, directory: PathName, source: Source)
        requires
            old(self).wf(),
        ensures
            final(self).wf(),
            directories_model(final(self).directories@) == directories_model(old(self).directories@).insert(
                directory@,
                if old(self).directories@.contains_key(directory@) {
                    asked_again(old(self).directories@[directory@]@)
                } else {
                    fresh_directory(source.key())
                },
            ),
            final(self).attached == old(self).attached,
            final(self).attach_failures@ == Map::<Parts, u8>::empty(),
    {
        let ghost before = self.directories@;
        let entry = match self.directories.remove(&directory) {
            Some(d) => {
                let mut d = d;
                d.recheck = true;
                d.failures = 0;
                d
            },
            None => Directory {
                source,
                current: None,
                initialized: false,
                recheck: true,
                failures: 0,
                last_error: None,
            },
        };
        self.attach_failures = OrderedMap::new();
        let ghost key = directory@;
        self.directories.insert(directory, entry);
        assert(directories_model(self.directories@) =~= directories_model(before).insert(key, entry@));
    }

    /// The subscription at `path` follows the directory that is wanted there.
    pub fn is_attached(&self, path: &PathName, identity: DirectoryIdentity) -> (r: bool)
        requires
            self.wf(),
        ensures
            r == (self.attached@.contains_key(path@) && self.attached@[path@] == identity),
    {
        match self.attached.get(path) {
            Some(id) => *id == identity,
            None => false,
        }
    }

    /// Should the caller try to subscribe at `path`?
    pub fn should_attach(&self, path: &PathName, identity: DirectoryIdentity) -> (r: bool)
        requires
            self.wf(),
        ensures
            r == (!(self.attached@.contains_key(path@) && self.attached@[path@] == identity) && !(
            self.attach_failures@.contains_key(path@) && self.attach_failures@[path@] >= 3)),
    {
        let given_up = match self.attach_failures.get(path) {
            Some(n) => *n >= 3,
            None => false,
        };
        !self.is_attached(path, identity) && !given_up
    }

    /// Record the outcome of an attempt to subscribe. Success after earlier
    /// failures means that events may have been missed.
    pub fn attach_result(&mut self, path: PathName, identity: DirectoryIdentity, ok: bool) -> (r: Noted)
        requires
            old(self).wf(),
            !(old(self).attach_failures@.contains_key(path@) && old(self).attach_failures@[path@] >= 3),
        ensures
            final(self).wf(),
            final(self).directories == old(self).directories,
            ok ==> {
                &&& final(self).attached@ == old(self).attached@.insert(path@, identity)
                &&& final(self).attach_failures@ == old(self).attach_failures@.remove(path@)
                &&& r.changed == old(self).attach_failures@.contains_key(path@)
                &&& !r.report
            },
            !ok ==> {
                &&& final(self).attached@ == old(self).attached@
                &&& final(self).attach_failures@ == old(self).attach_failures@.insert(
                    path@,
                    (if old(self).attach_failures@.contains_key(path@) {
                        old(self).attach_failures@[path@] + 1
                    } else {
                        1
                    }) as u8,
                )
                &&& !r.changed
                &&& r.report == !old(self).attach_failures@.contains_key(path@)
            },
    {
        if ok {
            let changed = self.attach_failures.remove(&path).is_some();
            self.attached.insert(path, identity);
            Noted { changed, report: false }
        } else {
            let attempts: u8 = match self.attach_failures.get(&path) {
                Some(n) => *n + 1,
                None => 1,
            };
            self.attach_failures.insert(path, attempts);
            Noted { changed: false, report: attempts == 1 }
        }
    }

    /// Ask again for the directories that `paths` names, as requested or as
    /// found, or for all of them.
    pub fn invalidate(&mut self, paths: &OrderedSet<PathName>, all: bool)
        requires
            old(self).wf(),
            paths.wf(),
        ensures
            final(self).wf(),
            final(self).attached == old(self).attached,
            final(self).attach_failures@ == Map::<Parts, u8>::empty(),
            directories_model(final(self).directories@) == invalidated(
                directories_model(old(self).directories@),
                paths@,
                all,
            ),
    {
        let ghost start = self.directories@;
        let ghost s0 = self.directories.entries@;
        let mut done: OrderedMap<PathName, Directory> = OrderedMap::new();
        self.attach_failures = OrderedMap::new();
        assert(directories_model(done@) =~= Map::<Parts, DirectoryModel>::empty());
        while self.directories.entries.len() > 0
            invariant
                self.directories.wf(),
                done.wf(),
                paths.wf(),
                self.attached == old(self).attached,
                self.attach_failures@ == Map::<Parts, u8>::empty(),
                self.attach_failures.wf(),
                self.attached.wf(),
                forall|k: Parts| #[trigger] start.contains_key(k) ==> directory_wf(start[k]@),
                forall|k: Parts| #[trigger] start.contains_key(k) <==> self.directories@.contains_key(k) || done@.contains_key(k),
                forall|k: Parts| #[trigger] self.directories@.contains_key(k) ==> !done@.contains_key(k) && self.directories@[k] == start[k],
                forall|k: Parts| #[trigger] done@.contains_key(k) ==> done@[k]@ == invalidated_one(k, start[k]@, paths@, all),
            decreases self.directories.entries@.len(),
        {
            proof {
                crate::order::lemma_entry(self.directories.entries@, 0);
            }
            let ghost held = self.directories@;
            let (k, d0) = self.directories.remove_at(0);
            let mut d = d0;
            let hit = all || paths.has(&k) || match &d.current {
                Some(c) => paths.has(&c.0),
                None => false,
            };
            if hit {
                d.recheck = true;
                d.failures = 0;
            }
            let ghost key = k@;
            let ghost was = done@;
            done.insert(k, d);
            proof {
                assert(start.contains_key(key));
                assert(d@ == invalidated_one(key, start[key]@, paths@, all));
                assert forall|x: Parts| #[trigger] start.contains_key(x) <==> self.directories@.contains_key(x) || done@.contains_key(x) by {
                    assert(held.contains_key(x) == (self.directories@.contains_key(x) || x == key));
                }
            }
        }
        proof {
            assert(forall|k: Parts, i: int| !crate::order::keyed(self.directories.entries@, i, k));
            assert forall|k: Parts| #[trigger] done@.contains_key(k) implies directory_wf(done@[k]@) by {
                assert(start.contains_key(k));
            }
        }
        self.directories = done;
        assert(directories_model(self.directories@) =~= invalidated(directories_model(start), paths@, all));
    }
}

/// The directory at `k` is named by `paths`.
pub open spec fn invalidated_one(k: Parts, d: DirectoryModel, paths: Set<Parts>, all: bool) -> DirectoryModel {
    if all || paths.contains(k) || (d.current matches Some(c) && paths.contains(c.0)) {
        asked_again(d)
    } else {
        d
    }
}

pub open spec fn invalidated(m: Map<Parts, DirectoryModel>, paths: Set<Parts>, all: bool) -> Map<
    Parts,
    DirectoryModel,
> {
    Map::new(|k: Parts| m.contains_key(k), |k: Parts| invalidated_one(k, m[k], paths, all))
}

/// A directory that keeps failing is tried three times, then left alone until
/// somebody asks again.
pub proof fn a_failing_directory_is_given_up_after_three_tries(d: DirectoryModel, e1: Text, e2: Text, e3: Text)
    requires
        d.recheck,
        directory_wf(d),
    ensures
        due(after_failed(d, e1)),
        due(after_failed(after_failed(d, e1), e2)),
        !due(after_failed(after_failed(after_failed(d, e1), e2), e3)),
        due(asked_again(after_failed(after_failed(after_failed(d, e1), e2), e3))),
{
}

// ------------------------------------------------------------------ dispatch

/// What a batch of changes asks for.
pub struct Dispatch {
    /// Every registered project must be rebuilt.
    pub all_projects: bool,
    /// These projects must be rebuilt.
    pub projects: Vec<PathName>,
    /// The whole pool changed.
    pub all_skills: bool,
    /// These skills of the pool changed.
    pub skills: Vec<String>,
}

/// The project roots among the sources, in order.
pub open spec fn roots_in(s: Seq<(Source, ())>) -> Seq<Parts>
    decreases s.len(),
{
    if s.len() == 0 {
        Seq::empty()
    } else {
        match s.last().0 {
            Source::ProjectRules(root) => roots_in(s.drop_last()).push(root@),
            _ => roots_in(s.drop_last()),
        }
    }
}

/// The pool skills among the sources, in order.
pub open spec fn skills_in(s: Seq<(Source, ())>) -> Seq<Text>
    decreases s.len(),
{
    if s.len() == 0 {
        Seq::empty()
    } else {
        match s.last().0 {
            Source::PoolSkill(id) => skills_in(s.drop_last()).push(id@),
            _ => skills_in(s.drop_last()),
        }
    }
}

pub open spec fn some_account(s: Seq<(Source, ())>) -> bool {
    exists|i: int| 0 <= i < s.len() && (#[trigger] s[i]).0 is AccountRules
}

pub open spec fn some_pool(s: Seq<(Source, ())>) -> bool {
    exists|i: int| 0 <= i < s.len() && (#[trigger] s[i]).0 is SkillPool
}

pub open spec fn path_views(v: Seq<PathName>) -> Seq<Parts> {
    Seq::new(v.len(), |i: int| v[i]@)
}

/// Sort the changed sources by what they ask for. A change of the whole pool
/// makes the single skills irrelevant.
pub fn dispatch(changes: &Changes) -> (r: Dispatch)
    requires
        changes.wf(),
    ensures
        r.all_projects == some_account(changes.sources.map.entries@),
        path_views(r.projects@) == roots_in(changes.sources.map.entries@),
        r.all_skills == some_pool(changes.sources.map.entries@),
        texts(r.skills@) == (if r.all_skills {
            Seq::<Text>::empty()
        } else {
            skills_in(changes.sources.map.entries@)
        }),
{
    let s = &changes.sources.map.entries;
    let mut r = Dispatch {
        all_projects: false,
        projects: Vec::new(),
        all_skills: false,
        skills: Vec::new(),
    };
    let mut i: usize = 0;
    assert(path_views(r.projects@) =~= roots_in(s@.take(0)));
    assert(texts(r.skills@) =~= skills_in(s@.take(0)));
    while i < s.len()
        invariant
            i <= s@.len(),
            r.all_projects == some_account(s@.take(i as int)),
            r.all_skills == some_pool(s@.take(i as int)),
            path_views(r.projects@) == roots_in(s@.take(i as int)),
            texts(r.skills@) == skills_in(s@.take(i as int)),
        decreases s@.len() - i,
    {
        let ghost head = s@.take(i as int);
        let ghost next = s@.take(i + 1);
        let ghost was = r;
        proof {
            assert(next.drop_last() =~= head);
            assert(next.last() == s@[i as int]);
            assert(forall|x: int| 0 <= x < i ==> next[x] == head[x]);
            assert(next[i as int] == s@[i as int]);
        }
        match &s[i].0 {
            Source::AccountRules => {
                r.all_projects = true;
            },
            Source::ProjectRules(root) => {
                r.projects.push(root.copy());
            },
            Source::SkillPool => {
                r.all_skills = true;
            },
            Source::PoolSkill(id) => {
                r.skills.push(id.clone());
            },
        }
        proof {
            assert(some_account(next) == (some_account(head) || s@[i as int].0 is AccountRules)) by {
                if some_account(head) {
                    let x = choose|x: int| 0 <= x < head.len() && (#[trigger] head[x]).0 is AccountRules;
                    assert(next[x].0 is AccountRules);
                }
            }
            assert(some_pool(next) == (some_pool(head) || s@[i as int].0 is SkillPool)) by {
                if some_pool(head) {
                    let x = choose|x: int| 0 <= x < head.len() && (#[trigger] head[x]).0 is SkillPool;
                    assert(next[x].0 is SkillPool);
                }
            }
            assert(path_views(r.projects@) =~= roots_in(next));
            assert(texts(r.skills@) =~= skills_in(next));
        }
        i += 1;
    }
    assert(s@.take(i as int) =~= s@);
    if r.all_skills {
        r.skills = Vec::new();
        assert(texts(r.skills@) =~= Seq::<Text>::empty());
    }
    r
}

/// A change of a skill in the pool, be it of the entry itself or of its
/// `SKILL.md`, reports that skill; hidden entries and deeper files report none.
pub proof fn a_changed_skill_is_reported(dir: Parts, id: Text, path: Parts)
    ensures
        !begins(id, "."@) ==> pool_member(dir, dir + seq![id]) == Some(id),
        !begins(id, "."@) ==> pool_member(dir, dir + seq![id, "SKILL.md"@]) == Some(id),
        begins(id, "."@) ==> pool_member(dir, dir + seq![id]) is None,
        pool_member(dir, path) == Some(id) ==> path == dir + seq![id] || path == dir + seq![id, "SKILL.md"@],
{
    let a = dir + seq![id];
    let b = dir + seq![id, "SKILL.md"@];
    let n = dir.len() as int;
    assert(a.take(n) =~= dir && b.take(n) =~= dir);
    assert(a.skip(n) =~= seq![id]);
    assert(b.skip(n) =~= seq![id, "SKILL.md"@]);
    assert(a.skip(n)[0] == id && b.skip(n)[0] == id && b.skip(n)[1] == "SKILL.md"@);
    if pool_member(dir, path) == Some(id) {
        let rest = path.skip(n);
        assert(path.take(n) + rest =~= path);
        if rest.len() == 1 {
            assert(rest =~= seq![id]);
        } else {
            assert(rest =~= seq![id, "SKILL.md"@]);
        }
    }
}

/// An event other than a mere access reports what the watched directory feeds:
/// everything if events were lost, else the sources of a Markdown file directly
/// in it and the skill of an entry of the pool.
pub proof fn an_event_reports_what_the_directory_feeds(
    e: Event,
    index: Seq<(PathName, OrderedSet<Source>)>,
    i: int,
    j: int,
    k: Parts,
    id: Text,
)
    requires
        0 <= i < index.len(),
        !e.access,
    ensures
        e.rescan && index[i].1@.contains(k) ==> classified(e, index).sources.contains(k),
        e.rescan ==> classified(e, index).recheck.contains(index[i].0@),
        0 <= j < e.paths@.len() && e.paths@[j]@ == index[i].0@ ==> classified(e, index).recheck.contains(index[i].0@),
        !e.rescan && 0 <= j < e.paths@.len() && rule_file(index[i].0@, e.paths@[j]@) && index[i].1@.contains(k) && k
            != pool_key() ==> classified(e, index).sources.contains(k),
        !e.rescan && 0 <= j < e.paths@.len() && index[i].1@.contains(pool_key()) && pool_member(
            index[i].0@,
            e.paths@[j]@,
        ) == Some(id) ==> classified(e, index).sources.contains(skill_key(id)),
        classified(e, index).error is None,
{
    let dir = index[i].0@;
    let sources = index[i].1@;
    if !e.rescan && 0 <= j < e.paths@.len() {
        if rule_file(dir, e.paths@[j]@) && sources.contains(k) && k != pool_key() {
            assert(path_reports(dir, sources, e.paths@[j]@, k));
            assert(dir_reports(e, dir, sources, k));
        }
        if sources.contains(pool_key()) && pool_member(dir, e.paths@[j]@) == Some(id) {
            assert(path_reports(dir, sources, e.paths@[j]@, skill_key(id)));
            assert(dir_reports(e, dir, sources, skill_key(id)));
        }
    }
    if 0 <= j < e.paths@.len() && e.paths@[j]@ == dir {
        assert(names_path(e.paths@, e.paths@.len() as int, dir));
        assert(dir_rechecked(e, dir));
    }
    if e.rescan {
        assert(dir_rechecked(e, dir));
        if sources.contains(k) {
            assert(dir_reports(e, dir, sources, k));
        }
    }
}

/// A mere access reports nothing, and only watched directories that an event
/// names, or that lost events, are looked at again.
pub proof fn an_access_reports_nothing(e: Event, index: Seq<(PathName, OrderedSet<Source>)>, k: Parts)
    ensures
        e.access ==> !classified(e, index).sources.contains(k) && !classified(e, index).recheck.contains(k),
        classified(e, index).recheck.contains(k) ==> (exists|i: int| 0 <= i < index.len() && (#[trigger] index[i]).0@ == k)
            && (e.rescan || exists|j: int| 0 <= j < e.paths@.len() && (#[trigger] e.paths@[j])@ == k),
        !e.rescan && e.paths@.len() == 0 ==> !classified(e, index).sources.contains(k),
{
    if classified(e, index).recheck.contains(k) {
        let i = choose|i: int| 0 <= i < index.len() && (#[trigger] index[i]).0@ == k && dir_rechecked(e, k);
        assert(index[i].0@ == k);
    }
}

/// Only Markdown files directly in a directory make it report rules.
pub proof fn only_markdown_reports_rules(dir: Parts, name: Text, deeper: Parts)
    ensures
        rule_file(dir, dir.push(name)) ==> (name_extension(name) matches Some(ext) && lower(ext) == "md"@),
        (name_extension(name) matches Some(ext) && lower(ext) == "md"@) && dir.len() > 0 ==> rule_file(dir, dir.push(name)),
        deeper.len() > 0 ==> !rule_file(dir, (dir + deeper).push(name)),
{
    assert(dir.push(name).drop_last() =~= dir);
    assert(dir.push(name).last() == name);
    assert((dir + deeper).push(name).drop_last() =~= dir + deeper);
    if deeper.len() > 0 {
        assert((dir + deeper).len() != dir.len());
    }
    if dir.len() > 0 {
        assert(dir.push(name).len() != seq![Seq::<char>::empty()].len());
    }
}

/// A directory that was found is where it was found and owes nothing; one that
/// failed is lost and its failures are counted. Neither changes what it feeds.
pub proof fn a_look_is_remembered(d: DirectoryModel, path: Parts, id: DirectoryIdentity, error: Text)
    requires
        directory_wf(d),
        due(d),
    ensures
        after_found(d, path, id).current == Some((path, id)),
        !due(after_found(d, path, id)),
        after_found(d, path, id).last_error is None,
        after_failed(d, error).current is None,
        after_failed(d, error).last_error == Some(error),
        after_failed(d, error).failures == d.failures + 1,
        after_found(d, path, id).source == d.source && after_failed(d, error).source == d.source,
        after_found(d, path, id).initialized && after_failed(d, error).initialized,
        directory_wf(after_found(d, path, id)) && directory_wf(after_failed(d, error)),
{
}

/// Whoever asks again makes the directory due and forgets no more than the
/// failures; a new request is due as well.
pub proof fn asking_makes_a_directory_due(d: DirectoryModel, source: Parts)
    ensures
        due(asked_again(d)),
        asked_again(d).failures == 0,
        asked_again(d).current == d.current && asked_again(d).source == d.source && asked_again(d).initialized
            == d.initialized && asked_again(d).last_error == d.last_error,
        due(fresh_directory(source)),
        fresh_directory(source).source == source && !fresh_directory(source).initialized && fresh_directory(
            source,
        ).current is None,
{
}

/// Exactly the directories that are named, as they were asked for or where they
/// were found, are asked for again.
pub proof fn only_named_directories_are_asked_again(m: Map<Parts, DirectoryModel>, paths: Set<Parts>, k: Parts)
    ensures
        invalidated(m, paths, true).contains_key(k) <==> m.contains_key(k),
        invalidated(m, paths, false).contains_key(k) <==> m.contains_key(k),
        m.contains_key(k) ==> due(invalidated(m, paths, true)[k]),
        m.contains_key(k) && paths.contains(k) ==> due(invalidated(m, paths, false)[k]),
        m.contains_key(k) && (m[k].current matches Some(c) && paths.contains(c.0)) ==> due(
            invalidated(m, paths, false)[k],
        ),
        m.contains_key(k) && !paths.contains(k) && !(m[k].current matches Some(c) && paths.contains(c.0)) ==> invalidated(
            m,
            paths,
            false,
        )[k] == m[k],
{
}

/// Every changed project, every changed skill and nothing else is handed on.
pub proof fn every_changed_source_is_handed_on(s: Seq<(Source, ())>, i: int, root: Parts, id: Text)
    ensures
        0 <= i < s.len() ==> (s[i].0 matches Source::ProjectRules(r) ==> roots_in(s).contains(r@)),
        0 <= i < s.len() ==> (s[i].0 matches Source::PoolSkill(x) ==> skills_in(s).contains(x@)),
        roots_in(s).contains(root) ==> exists|k: int|
            0 <= k < s.len() && ((#[trigger] s[k]).0 matches Source::ProjectRules(r) && r@ == root),
        skills_in(s).contains(id) ==> exists|k: int|
            0 <= k < s.len() && ((#[trigger] s[k]).0 matches Source::PoolSkill(x) && x@ == id),
    decreases s.len(),
{
    if s.len() > 0 {
        let head = s.drop_last();
        every_changed_source_is_handed_on(head, i, root, id);
        assert(s[s.len() - 1] == s.last());
        assert(forall|k: int| 0 <= k < head.len() ==> head[k] == #[trigger] s[k]);
        let a = roots_in(head);
        let b = skills_in(head);
        if 0 <= i < s.len() {
            if let Source::ProjectRules(r) = s[i].0 {
                if i < head.len() {
                    let j = choose|j: int| 0 <= j < a.len() && a[j] == r@;
                    assert(roots_in(s)[j] == r@);
                } else {
                    assert(roots_in(s)[a.len() as int] == r@);
                }
            }
            if let Source::PoolSkill(x) = s[i].0 {
                if i < head.len() {
                    let j = choose|j: int| 0 <= j < b.len() && b[j] == x@;
                    assert(skills_in(s)[j] == x@);
                } else {
                    assert(skills_in(s)[b.len() as int] == x@);
                }
            }
        }
        if roots_in(s).contains(root) {
            let j = choose|j: int| 0 <= j < roots_in(s).len() && roots_in(s)[j] == root;
            if j < a.len() {
                assert(a[j] == root);
                assert(a.contains(root));
                let k = choose|k: int|
                    0 <= k < head.len() && ((#[trigger] head[k]).0 matches Source::ProjectRules(r) && r@ == root);
                assert(s[k] == head[k]);
            }
        }
        if skills_in(s).contains(id) {
            let j = choose|j: int| 0 <= j < skills_in(s).len() && skills_in(s)[j] == id;
            if j < b.len() {
                assert(b[j] == id);
                assert(b.contains(id));
                let k = choose|k: int|
                    0 <= k < head.len() && ((#[trigger] head[k]).0 matches Source::PoolSkill(x) && x@ == id);
                assert(s[k] == head[k]);
            }
        }
    }
}

/// Of two batches, the error of the later one counts, if it has one.
pub proof fn the_later_error_counts(a: ChangesModel, b: ChangesModel, k: Parts)
    ensures
        b.error is Some ==> merged(a, b).error == b.error,
        b.error is None ==> merged(a, b).error == a.error,
        merged(a, b).sources.contains(k) <==> a.sources.contains(k) || b.sources.contains(k),
        merged(a, b).recheck.contains(k) <==> a.recheck.contains(k) || b.recheck.contains(k),
{
}

} // verus!
