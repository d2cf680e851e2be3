//! The single writer's queue: ordered requests first, then coalesced dirty
//! work with bounded retries.
use vstd::prelude::*;
use std::collections::VecDeque;
use crate::adapter_sync::watch::{merged, no_changes, project_key, rank, ranked, Changes, ChangesModel, Source};
use crate::order::{ascending, key_lt, keyed, lemma_entry, list_before, list_same, map_of, Key, OrderedMap, Parts};
use crate::path::{lemma_path_rank, path_rank, rank_path, PathName};
use crate::text::{copy_texts, texts, Text};
use crate::order::the_first_part_that_differs_decides;
use crate::text::the_first_difference_decides;

verus! {

/// Milliseconds between two looks at configuration files, and before a retry.
pub const CHECK_INTERVAL: u64 = 2000;

/// An agent of a project.
pub struct AgentKey {
    pub project: PathName,
    pub agent: String,
}

/// Work that generates files: a whole project, or one agent's skills.
pub enum Task {
    Project(PathName),
    Skills(AgentKey),
}

pub open spec fn whole_project(root: Parts) -> Parts {
    seq![rank('0')] + root
}

pub open spec fn agent_skills(project: Parts, agent: Text) -> Parts {
    seq![rank('1')] + (project + seq![Seq::<char>::empty(), agent])
}

/// What work is ordered by: whole projects first, each kind by its path, and
/// the agents of a project by their names.
pub open spec fn task_rank(k: Parts) -> Parts {
    if k.len() >= 3 && k[0] == rank('1') {
        let n = k.len() as int;
        seq![k[0]] + (path_rank(k.subrange(1, n - 2)) + k.subrange(n - 2, n))
    } else if k.len() > 0 {
        seq![k[0]] + path_rank(k.drop_first())
    } else {
        k
    }
}

proof fn lemma_task_rank(t: Task)
    ensures
        task_rank(t.key()) == match t {
            Task::Project(root) => seq![rank('0')] + path_rank(root@),
            Task::Skills(a) => seq![rank('1')] + (path_rank(a.project@) + seq![Seq::<char>::empty(), a.agent@]),
        },
{
    assert(rank('0')[0] != rank('1')[0]);
    let k = t.key();
    match t {
        Task::Project(root) => {
            assert(k.drop_first() =~= root@);
        },
        Task::Skills(a) => {
            let n = k.len() as int;
            assert(k.subrange(1, n - 2) =~= a.project@);
            assert(k.subrange(n - 2, n) =~= seq![Seq::<char>::empty(), a.agent@]);
        },
    }
}

impl AgentKey {
    pub fn copy(&self) -> (r: AgentKey)
        ensures
            r.project@ == self.project@,
            r.agent@ == self.agent@,
    {
        AgentKey { project: self.project.copy(), agent: self.agent.clone() }
    }

    pub fn same(&self, other: &AgentKey) -> (r: bool)
        ensures
            r == (self.project@ == other.project@ && self.agent@ == other.agent@),
    {
        self.project.is_same(&other.project) && crate::text::same(&self.agent, &other.agent)
    }
}

impl Task {
    fn parts(&self) -> (r: Vec<String>)
        ensures
            texts(r@) == self.key(),
    {
        match self {
            Task::Project(root) => ranked('0', &root.parts),
            Task::Skills(agent) => {
                let mut rest = copy_texts(&agent.project.parts);
                rest.push(String::new());
                rest.push(agent.agent.clone());
                assert(texts(rest@) =~= agent.project@ + seq![Seq::<char>::empty(), agent.agent@]);
                ranked('1', &rest)
            },
        }
    }

    fn order_parts(&self) -> (r: Vec<String>)
        ensures
            texts(r@) == task_rank(self.key()),
    {
        proof {
            lemma_task_rank(*self);
        }
        match self {
            Task::Project(root) => ranked('0', &rank_path(&root.parts)),
            Task::Skills(agent) => {
                let mut rest = rank_path(&agent.project.parts);
                let ghost path = texts(rest@);
                rest.push(String::new());
                rest.push(agent.agent.clone());
                assert(texts(rest@) =~= path + seq![Seq::<char>::empty(), agent.agent@]);
                ranked('1', &rest)
            },
        }
    }

    /// The work concerns this project.
    pub open spec fn belongs(&self, root: Parts) -> bool {
        match self {
            Task::Project(p) => p@ == root,
            Task::Skills(agent) => agent.project@ == root,
        }
    }

    pub fn belongs_to(&self, root: &PathName) -> (r: bool)
        ensures
            r == self.belongs(root@),
    {
        match self {
            Task::Project(p) => p.is_same(root),
            Task::Skills(agent) => agent.project.is_same(root),
        }
    }
}

impl Key for Task {
    open spec fn key(&self) -> Parts {
        match self {
            Task::Project(root) => whole_project(root@),
            Task::Skills(agent) => agent_skills(agent.project@, agent.agent@),
        }
    }

    open spec fn order_of(k: Parts) -> Parts {
        task_rank(k)
    }

    proof fn order_tells(a: Self, b: Self) {
        let x = a.key();
        let y = b.key();
        if task_rank(x) == task_rank(y) {
            assert(rank('0')[0] != rank('1')[0]);
            lemma_task_rank(a);
            lemma_task_rank(b);
            assert(task_rank(x)[0] == task_rank(y)[0]);
            match (a, b) {
                (Task::Project(p), Task::Project(q)) => {
                    assert(task_rank(x).drop_first() =~= path_rank(p@));
                    assert(task_rank(y).drop_first() =~= path_rank(q@));
                    lemma_path_rank(p@, q@);
                },
                (Task::Skills(p), Task::Skills(q)) => {
                    let n = task_rank(x).len();
                    assert(task_rank(x).subrange(1, n - 2) =~= path_rank(p.project@));
                    assert(task_rank(y).subrange(1, n - 2) =~= path_rank(q.project@));
                    lemma_path_rank(p.project@, q.project@);
                    assert(task_rank(x)[n - 1] == p.agent@ && task_rank(y)[n - 1] == q.agent@);
                },
                _ => {},
            }
        }
    }

    fn is_before(&self, other: &Self) -> (r: bool) {
        list_before(&self.order_parts(), &other.order_parts())
    }

    fn is_same(&self, other: &Self) -> (r: bool) {
        list_same(&self.parts(), &other.parts())
    }

    fn copy_key(&self) -> (r: Self) {
        match self {
            Task::Project(root) => Task::Project(root.copy()),
            Task::Skills(agent) => Task::Skills(agent.copy()),
        }
    }
}

/// The key tells whether work concerns a project.
pub open spec fn concerns(k: Parts, root: Parts) -> bool {
    ||| k == whole_project(root)
    ||| exists|agent: Text| k == #[trigger] agent_skills(root, agent)
}

pub proof fn lemma_belongs(t: Task, root: Parts)
    ensures
        t.belongs(root) == concerns(t.key(), root),
{
    let k = t.key();
    assert(rank('0')[0] != rank('1')[0]);
    match t {
        Task::Project(p) => {
            if k == whole_project(root) {
                assert(k.drop_first() =~= p@);
                assert(whole_project(root).drop_first() =~= root);
            }
            assert forall|agent: Text| k != #[trigger] agent_skills(root, agent) by {
                assert(k[0] == rank('0'));
                assert(agent_skills(root, agent)[0] == rank('1'));
            }
        },
        Task::Skills(a) => {
            assert(k[0] == rank('1'));
            assert(whole_project(root)[0] == rank('0'));
            if exists|agent: Text| k == #[trigger] agent_skills(root, agent) {
                let agent = choose|agent: Text| k == #[trigger] agent_skills(root, agent);
                let x = agent_skills(a.project@, a.agent@);
                let y = agent_skills(root, agent);
                assert(x.len() == a.project@.len() + 3);
                assert(y.len() == root.len() + 3);
                assert(x.subrange(1, x.len() - 2) =~= a.project@);
                assert(y.subrange(1, y.len() - 2) =~= root);
            }
        },
    }
}

/// Why the work is due, and how often it failed already.
pub struct Pending {
    pub reason: String,
    pub attempt: u8,
}

/// Work that failed and comes back at a given time.
pub struct Retry {
    pub at: u64,
    pub pending: Pending,
}

/// Everything that waits for the writer. Requests are held by number; their
/// callers wait for the result.
pub struct Queue {
    pub requests: VecDeque<u64>,
    pub tasks: VecDeque<Task>,
    pub dirty: OrderedMap<Task, Pending>,
    pub retries: OrderedMap<Task, Retry>,
    pub events: Changes,
    pub next_check: Option<u64>,
}

pub struct QueueModel {
    pub requests: Seq<u64>,
    pub tasks: Seq<Parts>,
    pub dirty: Map<Parts, Pending>,
    pub retries: Map<Parts, Retry>,
    pub events: ChangesModel,
    pub next_check: Option<u64>,
}

pub open spec fn task_keys(s: Seq<Task>) -> Seq<Parts> {
    Seq::new(s.len(), |i: int| s[i].key())
}

impl View for Queue {
    type V = QueueModel;

    open spec fn view(&self) -> QueueModel {
        QueueModel {
            requests: self.requests@,
            tasks: task_keys(self.tasks@),
            dirty: self.dirty@,
            retries: self.retries@,
            events: self.events@,
            next_check: self.next_check,
        }
    }
}

/// Each dirty task stands in line exactly once, and nothing else does.
pub open spec fn in_line(m: QueueModel) -> bool {
    &&& m.tasks.no_duplicates()
    &&& forall|k: Parts| #[trigger] m.tasks.contains(k) <==> m.dirty.contains_key(k)
}

/// Dirty tasks stand in line; nothing waits both for its turn and for its
/// retry; no work is tried more than three times.
pub open spec fn queue_wf(m: QueueModel) -> bool {
    &&& in_line(m)
    &&& forall|k: Parts| #[trigger] m.retries.contains_key(k) ==> !m.dirty.contains_key(k)
    &&& forall|k: Parts| #[trigger] m.dirty.contains_key(k) ==> m.dirty[k].attempt <= 2
    &&& forall|k: Parts| #[trigger] m.retries.contains_key(k) ==> 1 <= m.retries[k].pending.attempt <= 2
}

/// `k` becomes dirty: it keeps its place, or goes to the end.
pub open spec fn pushed(m: QueueModel, k: Parts, p: Pending) -> QueueModel {
    QueueModel {
        tasks: if m.dirty.contains_key(k) {
            m.tasks
        } else {
            m.tasks.push(k)
        },
        dirty: m.dirty.insert(k, p),
        ..m
    }
}

/// A new edit: the count of attempts starts anew and a waiting retry is void.
pub open spec fn marked(m: QueueModel, k: Parts, reason: String) -> QueueModel {
    pushed(QueueModel { retries: m.retries.remove(k), ..m }, k, Pending { reason, attempt: 0 })
}

pub open spec fn other_than(k: Parts) -> spec_fn(Parts) -> bool {
    |x: Parts| x != k
}

/// The line without `k`.
pub open spec fn without(s: Seq<Parts>, k: Parts) -> Seq<Parts> {
    s.filter(other_than(k))
}

/// `k` leaves the queue.
pub open spec fn dropped(m: QueueModel, k: Parts) -> QueueModel {
    QueueModel {
        tasks: without(m.tasks, k),
        dirty: m.dirty.remove(k),
        retries: m.retries.remove(k),
        ..m
    }
}

pub open spec fn unrelated(root: Parts) -> spec_fn(Parts) -> bool {
    |k: Parts| !concerns(k, root)
}

/// Nothing that concerns the project waits any more.
pub open spec fn forgotten(m: QueueModel, root: Parts) -> QueueModel {
    QueueModel {
        tasks: m.tasks.filter(unrelated(root)),
        dirty: m.dirty.remove_keys(Set::new(|k: Parts| concerns(k, root))),
        retries: m.retries.remove_keys(Set::new(|k: Parts| concerns(k, root))),
        events: ChangesModel { sources: m.events.sources.remove(project_key(root)), ..m.events },
        ..m
    }
}

/// Work that failed comes back later, unless it failed too often or became
/// dirty again meanwhile.
pub open spec fn retry_scheduled(m: QueueModel, k: Parts, p: Pending, now: u64) -> QueueModel {
    if p.attempt < 2 && !m.dirty.contains_key(k) {
        QueueModel {
            retries: m.retries.insert(
                k,
                Retry {
                    at: (now + CHECK_INTERVAL) as u64,
                    pending: Pending { reason: p.reason, attempt: (p.attempt + 1) as u8 },
                },
            ),
            ..m
        }
    } else {
        m
    }
}

/// The retry under `k` is due.
pub open spec fn retry_due(m: QueueModel, k: Parts, now: u64) -> bool {
    m.retries.contains_key(k) && m.retries[k].at <= now
}

pub open spec fn keys_ascend(s: Seq<Parts>) -> bool {
    forall|i: int, j: int| 0 <= i < j < s.len() ==> key_lt::<Task>(#[trigger] s[i], #[trigger] s[j])
}

/// The due retries, and they alone, become dirty; they queue up in key order.
pub open spec fn promoted(m: QueueModel, n: QueueModel, now: u64) -> bool {
    &&& n.requests == m.requests
    &&& n.events == m.events
    &&& n.next_check == m.next_check
    &&& n.tasks.len() >= m.tasks.len()
    &&& n.tasks.take(m.tasks.len() as int) == m.tasks
    &&& keys_ascend(n.tasks.skip(m.tasks.len() as int))
    &&& forall|k: Parts| #[trigger] n.tasks.skip(m.tasks.len() as int).contains(k) <==> retry_due(m, k, now)
    &&& n.dirty == Map::new(
        |k: Parts| m.dirty.contains_key(k) || retry_due(m, k, now),
        |k: Parts|
            if retry_due(m, k, now) {
                m.retries[k].pending
            } else {
                m.dirty[k]
            },
    )
    &&& n.retries == Map::new(
        |k: Parts| m.retries.contains_key(k) && !retry_due(m, k, now),
        |k: Parts| m.retries[k],
    )
}

/// What the writer does next.
pub enum Step {
    /// Run the request with this number.
    Request(u64),
    /// Look at subscriptions and configuration files.
    Check,
    /// Handle these file events.
    Events(Changes),
    /// Generate files.
    Run(Task, Pending),
    /// Nothing to do before this time, or before somebody calls.
    Wait(Option<u64>),
}

proof fn lemma_drop_filter(s: Seq<Parts>, k: Parts)
    requires
        s.no_duplicates(),
    ensures
        without(s, k).no_duplicates(),
        forall|x: Parts| #[trigger] without(s, k).contains(x) <==> s.contains(x) && x != k,
        !s.contains(k) ==> without(s, k) == s,
    decreases s.len(),
{
    reveal(Seq::filter);
    let p = other_than(k);
    if s.len() > 0 {
        let rest = s.drop_last();
        lemma_drop_filter(rest, k);
        let f = rest.filter(p);
        assert(s =~= rest.push(s.last()));
        assert forall|x: Parts| s.contains(x) <==> rest.contains(x) || x == s.last() by {
            if s.contains(x) {
                let i = choose|i: int| 0 <= i < s.len() && s[i] == x;
                if i < rest.len() {
                    assert(rest[i] == x);
                }
            }
            if rest.contains(x) {
                let i = choose|i: int| 0 <= i < rest.len() && rest[i] == x;
                assert(s[i] == x);
            }
            assert(s[s.len() - 1] == s.last());
        }
        assert(!rest.contains(s.last()));
        if p(s.last()) {
            let g = f.push(s.last());
            assert(s.filter(p) == g);
            assert forall|x: Parts| g.contains(x) <==> f.contains(x) || x == s.last() by {
                if f.contains(x) {
                    let i = choose|i: int| 0 <= i < f.len() && f[i] == x;
                    assert(g[i] == x);
                }
                assert(g[f.len() as int] == s.last());
            }
            assert(!f.contains(s.last()));
            assert forall|a: int, b: int| 0 <= a < g.len() && 0 <= b < g.len() && a != b implies g[a] != g[b] by {
                if a == f.len() {
                    assert(f.contains(f[b]));
                } else if b == f.len() {
                    assert(f.contains(f[a]));
                }
            }
        } else {
            assert(s.filter(p) == f);
        }
        if !s.contains(k) {
            assert(!rest.contains(k));
            assert(p(s.last()));
        }
    }
}

proof fn lemma_filter_unrelated(s: Seq<Parts>, root: Parts)
    requires
        s.no_duplicates(),
    ensures
        s.filter(unrelated(root)).no_duplicates(),
        forall|x: Parts| #[trigger] s.filter(unrelated(root)).contains(x) <==> s.contains(x) && !concerns(x, root),
    decreases s.len(),
{
    reveal(Seq::filter);
    let p = unrelated(root);
    if s.len() > 0 {
        let rest = s.drop_last();
        lemma_filter_unrelated(rest, root);
        let f = rest.filter(p);
        assert forall|x: Parts| s.contains(x) <==> rest.contains(x) || x == s.last() by {
            if s.contains(x) {
                let i = choose|i: int| 0 <= i < s.len() && s[i] == x;
                if i < rest.len() {
                    assert(rest[i] == x);
                }
            }
            if rest.contains(x) {
                let i = choose|i: int| 0 <= i < rest.len() && rest[i] == x;
                assert(s[i] == x);
            }
            assert(s[s.len() - 1] == s.last());
        }
        assert(!rest.contains(s.last()));
        if p(s.last()) {
            let g = f.push(s.last());
            assert(s.filter(p) == g);
            assert forall|x: Parts| g.contains(x) <==> f.contains(x) || x == s.last() by {
                if f.contains(x) {
                    let i = choose|i: int| 0 <= i < f.len() && f[i] == x;
                    assert(g[i] == x);
                }
                assert(g[f.len() as int] == s.last());
            }
            assert(!f.contains(s.last()));
            assert forall|a: int, b: int| 0 <= a < g.len() && 0 <= b < g.len() && a != b implies g[a] != g[b] by {
                if a == f.len() {
                    assert(f.contains(f[b]));
                } else if b == f.len() {
                    assert(f.contains(f[a]));
                }
            }
        } else {
            assert(s.filter(p) == f);
        }
    }
}

/// Drop the entries that concern the project.
fn drop_project<V>(map: &mut OrderedMap<Task, V>, root: &PathName)
    requires
        old(map).wf(),
    ensures
        final(map).wf(),
        forall|k: Parts| #[trigger]
            final(map)@.contains_key(k) <==> old(map)@.contains_key(k) && !concerns(k, root@),
        forall|k: Parts| #[trigger] final(map)@.contains_key(k) ==> final(map)@[k] == old(map)@[k],
{
    let ghost start = map@;
    let mut i: usize = 0;
    while i < map.entries.len()
        invariant
            map.wf(),
            i <= map.entries@.len(),
            forall|x: int| 0 <= x < i ==> !concerns((#[trigger] map.entries@[x]).0.key(), root@),
            forall|k: Parts| #[trigger] map@.contains_key(k) ==> start.contains_key(k) && map@[k] == start[k],
            forall|k: Parts| #[trigger] start.contains_key(k) ==> map@.contains_key(k) || concerns(k, root@),
        decreases map.entries@.len() - i,
    {
        proof {
            lemma_belongs(map.entries@[i as int].0, root@);
        }
        let ghost es = map.entries@;
        if map.entries[i].0.belongs_to(root) {
            map.remove_at(i);
            assert forall|x: int| 0 <= x < i implies !concerns((#[trigger] map.entries@[x]).0.key(), root@) by {
                assert(map.entries@[x] == es[x]);
            }
        } else {
            i += 1;
        }
    }
    proof {
        assert forall|k: Parts| #[trigger] map@.contains_key(k) implies !concerns(k, root@) by {
            let x = choose|x: int| #[trigger] keyed(map.entries@, x, k);
            assert(map.entries@[x].0.key() == k);
        }
    }
}

impl Queue {
    pub open spec fn wf(&self) -> bool {
        &&& self.lines_up()
        &&& queue_wf(self@)
    }

    /// The part of the invariant that holds whatever is pushed.
    pub open spec fn lines_up(&self) -> bool {
        &&& self.dirty.wf()
        &&& self.retries.wf()
        &&& self.events.wf()
        &&& in_line(self@)
    }

    pub fn new() -> (r: Queue)
        ensures
            r.wf(),
            r@ == (QueueModel {
                requests: Seq::empty(),
                tasks: Seq::empty(),
                dirty: Map::empty(),
                retries: Map::empty(),
                events: no_changes(),
                next_check: None,
            }),
    {
        let r = Queue {
            requests: VecDeque::new(),
            tasks: VecDeque::new(),
            dirty: OrderedMap::new(),
            retries: OrderedMap::new(),
            events: Changes::new(),
            next_check: None,
        };
        assert(task_keys(r.tasks@) =~= Seq::<Parts>::empty());
        r
    }

    /// A caller's request, to be run in order of arrival.
    pub fn request(&mut self, number: u64)
        requires
            old(self).wf(),
        ensures
            final(self).wf(),
            final(self)@ == (QueueModel { requests: old(self)@.requests.push(number), ..old(self)@ }),
    {
        self.requests.push_back(number);
    }

    /// The project's files must be generated anew.
    pub fn mark(&mut self, root: PathName, reason: String)
        requires
            old(self).wf(),
        ensures
            final(self).wf(),
            final(self)@ == marked(old(self)@, whole_project(root@), reason),
    {
        self.mark_task(Task::Project(root), reason);
    }

    pub fn mark_task(&mut self, task: Task, reason: String)
        requires
            old(self).wf(),
        ensures
            final(self).wf(),
            final(self)@ == marked(old(self)@, task.key(), reason),
    {
        self.retries.remove(&task);
        assert(queue_wf(self@));
        self.push(task, Pending { reason, attempt: 0 });
    }

    /// A task becomes dirty.
    pub fn push(&mut self, task: Task, pending: Pending)
        requires
            old(self).lines_up(),
        ensures
            final(self).lines_up(),
            old(self).wf() && pending.attempt <= 2 && !old(self)@.retries.contains_key(task.key()) ==> final(self).wf(),
            final(self)@ == pushed(old(self)@, task.key(), pending),
            final(self).retries == old(self).retries,
    {
        let ghost before = self@;
        let ghost k = task.key();
        let copy = task.copy_key();
        if self.dirty.insert(copy, pending).is_none() {
            self.tasks.push_back(task);
            proof {
                let t = task_keys(self.tasks@);
                assert(t =~= before.tasks.push(k));
                assert(!before.tasks.contains(k));
                assert forall|x: Parts| #[trigger] t.contains(x) <==> before.tasks.contains(x) || x == k by {
                    if before.tasks.contains(x) {
                        let i = choose|i: int| 0 <= i < before.tasks.len() && before.tasks[i] == x;
                        assert(t[i] == x);
                    }
                    assert(t[before.tasks.len() as int] == k);
                }
            }
        } else {
            assert(task_keys(self.tasks@) == before.tasks);
        }
        assert(in_line(self@));
    }

    /// Work failed: let it come back later, at most twice.
    pub fn schedule_retry(&mut self, task: Task, pending: Pending, now: u64)
        requires
            old(self).wf(),
            now + CHECK_INTERVAL <= u64::MAX,
        ensures
            final(self).wf(),
            final(self)@ == retry_scheduled(old(self)@, task.key(), pending, now),
    {
        if pending.attempt < 2 && !self.dirty.has(&task) {
            let retry = Retry {
                at: now + CHECK_INTERVAL,
                pending: Pending { reason: pending.reason, attempt: pending.attempt + 1 },
            };
            self.retries.insert(task, retry);
        }
    }

    /// Retries whose time has come queue up again.
    pub fn promote_retries(&mut self, now: u64)
        requires
            old(self).wf(),
        ensures
            final(self).wf(),
            promoted(old(self)@, final(self)@, now),
    {
        let ghost m = self@;
        let ghost s = self.retries.entries@;
        let mut i: usize = 0;
        let ghost n0 = m.tasks.len() as int;
        proof {
            assert(m.tasks.skip(n0) =~= Seq::<Parts>::empty());
            assert(m.tasks.take(n0) =~= m.tasks);
            assert forall|x: int| 0 <= x < s.len() implies m.retries.contains_key((#[trigger] s[x]).0.key())
                && m.retries[s[x].0.key()] == s[x].1 by {
                lemma_entry(s, x);
            }
        }
        let ghost mut j: int = 0;
        while i < self.retries.entries.len()
            invariant
                self.wf(),
                ascending(s),
                map_of(s) == m.retries,
                n0 == m.tasks.len(),
                0 <= i <= j <= s.len(),
                j - i + self.retries.entries@.len() == s.len(),
                forall|x: int| i <= x < self.retries.entries@.len() ==> #[trigger] self.retries.entries@[x] == s[x - i + j],
                forall|x: int| 0 <= x < i ==> (#[trigger] self.retries.entries@[x]).1.at > now,
                self@.requests == m.requests,
                self@.events == m.events,
                self@.next_check == m.next_check,
                self@.tasks.len() >= n0,
                self@.tasks.take(n0) == m.tasks,
                keys_ascend(self@.tasks.skip(n0)),
                forall|k: Parts| #[trigger] self@.tasks.skip(n0).contains(k) <==> exists|x: int|
                    0 <= x < j && (#[trigger] s[x]).1.at <= now && s[x].0.key() == k,
                forall|k: Parts| #[trigger] self@.dirty.contains_key(k) <==> m.dirty.contains_key(k) || exists|x: int|
                    0 <= x < j && (#[trigger] s[x]).1.at <= now && s[x].0.key() == k,
                forall|k: Parts| #[trigger] m.dirty.contains_key(k) ==> self@.dirty.contains_key(k) && self@.dirty[k] == m.dirty[k],
                forall|x: int| 0 <= x < j && (#[trigger] s[x]).1.at <= now ==> self@.dirty.contains_key(s[x].0.key()) && self@.dirty[s[x].0.key()] == s[x].1.pending,
                forall|x: int| 0 <= x < s.len() && (x >= j || (#[trigger] s[x]).1.at > now) ==> self@.retries.contains_key(s[x].0.key()) && self@.retries[s[x].0.key()] == s[x].1,
                forall|k: Parts| #[trigger] self@.retries.contains_key(k) ==> m.retries.contains_key(k),
                forall|x: int| 0 <= x < j && (#[trigger] s[x]).1.at <= now ==> !self@.retries.contains_key(s[x].0.key()),
                queue_wf(m),
            decreases self.retries.entries@.len() - i,
        {
            let ghost before = self@;
            let ghost es = self.retries.entries@;
            proof {
                assert(es[i as int] == s[j]);
                lemma_entry(s, j);
                assert(ascending(s));
            }
            if self.retries.entries[i].1.at <= now {
                let (task, retry) = self.retries.remove_at(i);
                let ghost k = task.key();
                proof {
                    assert(k == s[j].0.key());
                    assert(retry == s[j].1);
                    assert(m.retries.contains_key(k));
                    assert(!before.dirty.contains_key(k)) by {
                        assert(before.retries.contains_key(k));
                    }
                    assert(queue_wf(self@));
                }
                self.push(task, retry.pending);
                proof {
                    let t = self@.tasks;
                    assert(t == before.tasks.push(k));
                    assert(t.take(n0) =~= before.tasks.take(n0));
                    let tail0 = before.tasks.skip(n0);
                    let tail = t.skip(n0);
                    assert(tail =~= tail0.push(k));
                    assert forall|x: Parts| #[trigger] tail.contains(x) <==> tail0.contains(x) || x == k by {
                        if tail0.contains(x) {
                            let y = choose|y: int| 0 <= y < tail0.len() && tail0[y] == x;
                            assert(tail[y] == x);
                        }
                        assert(tail[tail0.len() as int] == k);
                    }
                    assert forall|a: int, b: int| 0 <= a < b < tail.len() implies key_lt::<Task>(
                        #[trigger] tail[a],
                        #[trigger] tail[b],
                    ) by {
                        if b == tail0.len() {
                            assert(tail0.contains(tail0[a]));
                            let y = choose|y: int|
                                0 <= y < j && (#[trigger] s[y]).1.at <= now && s[y].0.key() == tail0[a];
                            assert(key_lt::<Task>(s[y].0.key(), s[j].0.key()));
                        } else {
                            assert(key_lt::<Task>(tail0[a], tail0[b]));
                        }
                    }
                    assert forall|x: Parts| #[trigger] tail.contains(x) <==> exists|y: int|
                        0 <= y < j + 1 && (#[trigger] s[y]).1.at <= now && s[y].0.key() == x by {
                        if tail0.contains(x) {
                            let y = choose|y: int| 0 <= y < j && (#[trigger] s[y]).1.at <= now && s[y].0.key() == x;
                            assert(s[y].1.at <= now && s[y].0.key() == x);
                        }
                        assert(s[j].1.at <= now && s[j].0.key() == k);
                    }
                    assert forall|x: Parts| #[trigger] self@.dirty.contains_key(x) <==> m.dirty.contains_key(x) || exists|y: int|
                        0 <= y < j + 1 && (#[trigger] s[y]).1.at <= now && s[y].0.key() == x by {
                        assert(self@.dirty.contains_key(x) <==> before.dirty.contains_key(x) || x == k);
                        assert(s[j].1.at <= now && s[j].0.key() == k);
                    }
                    assert forall|x: int| 0 <= x < j + 1 && (#[trigger] s[x]).1.at <= now implies self@.dirty.contains_key(
                        s[x].0.key(),
                    ) && self@.dirty[s[x].0.key()] == s[x].1.pending by {
                        if x < j {
                            lemma_entry(s, x);
                            if s[x].0.key() == k {
                                assert(keyed(s, j, s[x].0.key()));
                            }
                        }
                    }
                    assert forall|x: int| 0 <= x < s.len() && (x >= j + 1 || (#[trigger] s[x]).1.at > now) implies self@.retries.contains_key(
                        s[x].0.key(),
                    ) && self@.retries[s[x].0.key()] == s[x].1 by {
                        lemma_entry(s, x);
                        if s[x].0.key() == k {
                            assert(keyed(s, j, s[x].0.key()));
                            assert(x == j);
                        }
                    }
                    assert forall|x: Parts| #[trigger] m.dirty.contains_key(x) implies self@.dirty.contains_key(x)
                        && self@.dirty[x] == m.dirty[x] by {
                        assert(!m.dirty.contains_key(k)) by {
                            assert(m.retries.contains_key(k));
                        }
                    }
                    let fs = self.retries.entries@;
                    assert(fs =~= es.remove(i as int));
                    assert forall|x: int| i <= x < fs.len() implies #[trigger] fs[x] == s[x - i + (j + 1)] by {
                        assert(fs[x] == es[x + 1]);
                    }
                    assert forall|x: int| 0 <= x < i implies (#[trigger] fs[x]).1.at > now by {
                        assert(fs[x] == es[x]);
                    }
                    j = j + 1;
                }
            } else {
                proof {
                    assert forall|x: Parts| #[trigger] self@.tasks.skip(n0).contains(x) <==> exists|y: int|
                        0 <= y < j + 1 && (#[trigger] s[y]).1.at <= now && s[y].0.key() == x by {
                        if exists|y: int| 0 <= y < j + 1 && (#[trigger] s[y]).1.at <= now && s[y].0.key() == x {
                            let y = choose|y: int|
                                0 <= y < j + 1 && (#[trigger] s[y]).1.at <= now && s[y].0.key() == x;
                            assert(y < j);
                        }
                    }
                    assert forall|x: Parts| #[trigger] self@.dirty.contains_key(x) <==> m.dirty.contains_key(x) || exists|y: int|
                        0 <= y < j + 1 && (#[trigger] s[y]).1.at <= now && s[y].0.key() == x by {
                        if exists|y: int| 0 <= y < j + 1 && (#[trigger] s[y]).1.at <= now && s[y].0.key() == x {
                            let y = choose|y: int|
                                0 <= y < j + 1 && (#[trigger] s[y]).1.at <= now && s[y].0.key() == x;
                            assert(y < j);
                        }
                    }
                    j = j + 1;
                }
                i += 1;
            }
        }
        proof {
            let n = self@;
            assert(j == s.len());
            assert forall|k: Parts| retry_due(m, k, now) <==> exists|x: int|
                0 <= x < j && (#[trigger] s[x]).1.at <= now && s[x].0.key() == k by {
                if retry_due(m, k, now) {
                    let x = choose|x: int| #[trigger] keyed(s, x, k);
                    lemma_entry(s, x);
                    assert(s[x].1.at <= now && s[x].0.key() == k);
                }
                if exists|x: int| 0 <= x < j && (#[trigger] s[x]).1.at <= now && s[x].0.key() == k {
                    let x = choose|x: int| 0 <= x < j && (#[trigger] s[x]).1.at <= now && s[x].0.key() == k;
                    lemma_entry(s, x);
                }
            }
            let d = Map::new(
                |k: Parts| m.dirty.contains_key(k) || retry_due(m, k, now),
                |k: Parts|
                    if retry_due(m, k, now) {
                        m.retries[k].pending
                    } else {
                        m.dirty[k]
                    },
            );
            assert forall|k: Parts| n.dirty.contains_key(k) implies n.dirty[k] == d[k] by {
                if retry_due(m, k, now) {
                    let x = choose|x: int| #[trigger] keyed(s, x, k);
                    lemma_entry(s, x);
                }
            }
            assert(n.dirty =~= d);
            let rr = Map::new(
                |k: Parts| m.retries.contains_key(k) && !retry_due(m, k, now),
                |k: Parts| m.retries[k],
            );
            assert forall|k: Parts| n.retries.contains_key(k) <==> rr.contains_key(k) by {
                if m.retries.contains_key(k) {
                    let x = choose|x: int| #[trigger] keyed(s, x, k);
                    lemma_entry(s, x);
                }
            }
            assert forall|k: Parts| n.retries.contains_key(k) implies n.retries[k] == rr[k] by {
                let x = choose|x: int| #[trigger] keyed(s, x, k);
                lemma_entry(s, x);
            }
            assert(n.retries =~= rr);
        }
    }

    /// Take `k`'s task out of its place in the line.
    fn unqueue(&mut self, task: &Task)
        ensures
            final(self).requests == old(self).requests,
            final(self).dirty == old(self).dirty,
            final(self).retries == old(self).retries,
            final(self).events == old(self).events,
            final(self).next_check == old(self).next_check,
            task_keys(final(self).tasks@) == without(task_keys(old(self).tasks@), task.key()),
    {
        let ghost s = task_keys(self.tasks@);
        let ghost p = other_than(task.key());
        let mut kept: VecDeque<Task> = VecDeque::new();
        let ghost mut i: int = 0;
        proof {
            reveal(Seq::filter);
            assert(s.take(0).filter(p) =~= Seq::<Parts>::empty());
            assert(task_keys(kept@) =~= Seq::<Parts>::empty());
            assert(s.skip(0) =~= s);
        }
        while self.tasks.len() > 0
            invariant
                self.requests == old(self).requests,
                self.dirty == old(self).dirty,
                self.retries == old(self).retries,
                self.events == old(self).events,
                self.next_check == old(self).next_check,
                p == other_than(task.key()),
                0 <= i <= s.len(),
                task_keys(self.tasks@) == s.skip(i),
                task_keys(kept@) == s.take(i).filter(p),
            decreases self.tasks@.len(),
        {
            let ghost was = self.tasks@;
            let ghost kept0 = kept@;
            match self.tasks.pop_front() {
                Some(t) => {
                    proof {
                        assert(task_keys(was).len() == s.skip(i).len());
                        assert(task_keys(was)[0] == s.skip(i)[0]);
                        assert(t.key() == s[i]);
                        assert forall|x: int| 0 <= x < self.tasks@.len() implies task_keys(self.tasks@)[x]
                            == s.skip(i + 1)[x] by {
                            assert(task_keys(was)[x + 1] == s.skip(i)[x + 1]);
                        }
                        assert(task_keys(self.tasks@) =~= s.skip(i + 1));
                        reveal(Seq::filter);
                        assert(s.take(i + 1).drop_last() =~= s.take(i));
                    }
                    if !t.is_same(task) {
                        kept.push_back(t);
                        assert(task_keys(kept@) =~= task_keys(kept0).push(t.key()));
                    }
                    proof {
                        i = i + 1;
                    }
                },
                None => {},
            }
        }
        assert(task_keys(self.tasks@).len() == 0);
        assert(s.take(i) =~= s);
        self.tasks = kept;
    }

    /// Take the project's work, if it is dirty, before its turn.
    pub fn take_project(&mut self, root: &PathName) -> (r: Option<Pending>)
        requires
            old(self).wf(),
        ensures
            final(self).wf(),
            final(self)@ == dropped(old(self)@, whole_project(root@)),
            r is Some == old(self)@.dirty.contains_key(whole_project(root@)),
            r matches Some(p) ==> p == old(self)@.dirty[whole_project(root@)],
    {
        let task = Task::Project(root.copy());
        let ghost m = self@;
        let ghost k = whole_project(root@);
        proof {
            lemma_drop_filter(m.tasks, k);
        }
        self.retries.remove(&task);
        let r = self.dirty.remove(&task);
        if r.is_some() {
            self.unqueue(&task);
        }
        assert(self@.dirty =~= dropped(m, k).dirty);
        assert(queue_wf(self@));
        r
    }

    /// The agent is gone: so is its work.
    pub fn forget_agent(&mut self, agent: &AgentKey)
        requires
            old(self).wf(),
        ensures
            final(self).wf(),
            final(self)@ == dropped(old(self)@, agent_skills(agent.project@, agent.agent@)),
    {
        let task = Task::Skills(agent.copy());
        let ghost m = self@;
        let ghost k = task.key();
        proof {
            lemma_drop_filter(m.tasks, k);
        }
        self.unqueue(&task);
        self.dirty.remove(&task);
        self.retries.remove(&task);
        assert(queue_wf(self@));
    }

    /// The project is gone: so is everything that waits for it.
    pub fn forget_project(&mut self, root: &PathName)
        requires
            old(self).wf(),
        ensures
            final(self).wf(),
            final(self)@ == forgotten(old(self)@, root@),
    {
        let ghost m = self@;
        let ghost s = task_keys(self.tasks@);
        let ghost p = unrelated(root@);
        let mut kept: VecDeque<Task> = VecDeque::new();
        let ghost mut i: int = 0;
        proof {
            reveal(Seq::filter);
            assert(s.take(0).filter(p) =~= Seq::<Parts>::empty());
            assert(task_keys(kept@) =~= Seq::<Parts>::empty());
            assert(s.skip(0) =~= s);
        }
        while self.tasks.len() > 0
            invariant
                self.requests == old(self).requests,
                self.dirty == old(self).dirty,
                self.retries == old(self).retries,
                self.events == old(self).events,
                self.next_check == old(self).next_check,
                p == unrelated(root@),
                0 <= i <= s.len(),
                task_keys(self.tasks@) == s.skip(i),
                task_keys(kept@) == s.take(i).filter(p),
            decreases self.tasks@.len(),
        {
            let ghost was = self.tasks@;
            let ghost kept0 = kept@;
            match self.tasks.pop_front() {
                Some(t) => {
                    proof {
                        assert(task_keys(was).len() == s.skip(i).len());
                        assert(task_keys(was)[0] == s.skip(i)[0]);
                        assert(t.key() == s[i]);
                        assert forall|x: int| 0 <= x < self.tasks@.len() implies task_keys(self.tasks@)[x]
                            == s.skip(i + 1)[x] by {
                            assert(task_keys(was)[x + 1] == s.skip(i)[x + 1]);
                        }
                        assert(task_keys(self.tasks@) =~= s.skip(i + 1));
                        reveal(Seq::filter);
                        assert(s.take(i + 1).drop_last() =~= s.take(i));
                        lemma_belongs(t, root@);
                    }
                    if !t.belongs_to(root) {
                        kept.push_back(t);
                        assert(task_keys(kept@) =~= task_keys(kept0).push(t.key()));
                    }
                    proof {
                        i = i + 1;
                    }
                },
                None => {},
            }
        }
        assert(task_keys(self.tasks@).len() == 0);
        assert(s.take(i) =~= s);
        self.tasks = kept;
        drop_project(&mut self.dirty, root);
        drop_project(&mut self.retries, root);
        self.events.sources.remove(&Source::ProjectRules(root.copy()));
        proof {
            lemma_filter_unrelated(m.tasks, root@);
            assert(self@.dirty =~= forgotten(m, root@).dirty);
            assert(self@.retries =~= forgotten(m, root@).retries);
            assert(queue_wf(self@));
        }
    }

    /// Keep file events for a later turn.
    pub fn note_events(&mut self, changes: Changes)
        requires
            old(self).wf(),
            changes.wf(),
        ensures
            final(self).wf(),
            final(self)@ == (QueueModel { events: merged(old(self)@.events, changes@), ..old(self)@ }),
    {
        self.events.merge(changes);
    }

    /// The file events collected so far.
    pub fn take_events(&mut self) -> (r: Changes)
        requires
            old(self).wf(),
        ensures
            final(self).wf(),
            r.wf(),
            r@ == old(self)@.events,
            final(self)@ == (QueueModel { events: no_changes(), ..old(self)@ }),
    {
        let mut taken = Changes::new();
        core::mem::swap(&mut taken, &mut self.events);
        taken
    }

    /// The earliest time at which something is due by the clock.
    fn deadline(&self) -> (r: Option<u64>)
        requires
            self.wf(),
        ensures
            is_deadline(self@, r),
    {
        let ghost s = self.retries.entries@;
        let mut best = self.next_check;
        let mut i: usize = 0;
        while i < self.retries.entries.len()
            invariant
                s == self.retries.entries@,
                i <= s.len(),
                self.next_check matches Some(c) ==> best is Some && best->0 <= c,
                forall|x: int| 0 <= x < i ==> best is Some && best->0 <= (#[trigger] s[x]).1.at,
                best matches Some(b) ==> self.next_check == Some(b) || exists|x: int|
                    0 <= x < i && (#[trigger] s[x]).1.at == b,
            decreases s.len() - i,
        {
            let at = self.retries.entries[i].1.at;
            let better = match best {
                Some(b) => at < b,
                None => true,
            };
            if better {
                best = Some(at);
            }
            i += 1;
        }
        proof {
            assert forall|k: Parts| #[trigger] self@.retries.contains_key(k) implies best is Some && best->0
                <= self@.retries[k].at by {
                let x = choose|x: int| #[trigger] keyed(s, x, k);
                lemma_entry(s, x);
            }
            if best is Some && self.next_check != best {
                let x = choose|x: int| 0 <= x < i && (#[trigger] s[x]).1.at == best->0;
                lemma_entry(s, x);
                assert(self@.retries.contains_key(s[x].0.key()));
            }
        }
        best
    }

    /// The writer's next step: requests first, then the periodic check, then
    /// file events, then dirty work.
    pub fn next(&mut self, now: u64) -> (r: Step)
        requires
            old(self).wf(),
            now + CHECK_INTERVAL <= u64::MAX,
        ensures
            final(self).wf(),
            stepped(old(self)@, r, final(self)@, now),
    {
        let ghost m = self@;
        let first = self.requests.pop_front();
        if let Some(number) = first {
            assert(m.requests.len() > 0);
            assert(self@.requests =~= m.requests.drop_first());
            assert(self@.tasks == m.tasks && self@.dirty == m.dirty && self@.retries == m.retries);
            return Step::Request(number);
        }
        assert(self@.requests =~= m.requests);
        self.promote_retries(now);
        let ghost n = self@;
        let check = match self.next_check {
            Some(due) => due <= now,
            None => false,
        };
        if check {
            self.next_check = Some(now + CHECK_INTERVAL);
            assert(queue_wf(self@));
            assert(stepped_from(n, Step::Check, self@, now));
            return Step::Check;
        }
        if !self.events.is_empty() {
            let events = self.take_events();
            assert(stepped_from(n, Step::Events(events), self@, now));
            return Step::Events(events);
        }
        let task = self.tasks.pop_front();
        if let Some(task) = task {
            let ghost k = task.key();
            proof {
                assert(n.tasks.len() > 0);
                assert(k == n.tasks[0]);
                assert(n.tasks.contains(k));
                assert(task_keys(self.tasks@) =~= n.tasks.drop_first());
            }
            let (i, found) = self.dirty.seek(&task);
            let pending = self.dirty.remove_at(i).1;
            proof {
                let t = n.tasks.drop_first();
                assert forall|x: Parts| #[trigger] t.contains(x) <==> n.tasks.contains(x) && x != k by {
                    if t.contains(x) {
                        let a = choose|a: int| 0 <= a < t.len() && t[a] == x;
                        assert(n.tasks[a + 1] == x);
                        assert(n.tasks[0] == k);
                    }
                    if n.tasks.contains(x) && x != k {
                        let a = choose|a: int| 0 <= a < n.tasks.len() && n.tasks[a] == x;
                        assert(t[a - 1] == x);
                    }
                }
                assert(queue_wf(self@));
                assert(stepped_from(n, Step::Run(task, pending), self@, now));
            }
            return Step::Run(task, pending);
        }
        assert(n.tasks.len() == 0);
        assert(self@.tasks =~= n.tasks);
        let deadline = self.deadline();
        assert(stepped_from(n, Step::Wait(deadline), self@, now));
        Step::Wait(deadline)
    }
}

/// `d` is the earliest of the next check and the waiting retries, if any.
pub open spec fn is_deadline(m: QueueModel, d: Option<u64>) -> bool {
    &&& m.next_check matches Some(c) ==> d is Some && d->0 <= c
    &&& forall|k: Parts| #[trigger] m.retries.contains_key(k) ==> d is Some && d->0 <= m.retries[k].at
    &&& d matches Some(at) ==> m.next_check == Some(at) || exists|k: Parts| #[trigger]
        m.retries.contains_key(k) && m.retries[k].at == at
}

/// One step once no request waits and due retries are back in line.
pub open spec fn stepped_from(m: QueueModel, step: Step, n: QueueModel, now: u64) -> bool {
    if m.next_check is Some && m.next_check->0 <= now {
        step is Check && n == (QueueModel { next_check: Some((now + CHECK_INTERVAL) as u64), ..m })
    } else if m.events != no_changes() {
        &&& step matches Step::Events(changes) && changes@ == m.events
        &&& n == (QueueModel { events: no_changes(), ..m })
    } else if m.tasks.len() > 0 {
        &&& step matches Step::Run(task, pending) && task.key() == m.tasks[0] && m.dirty.contains_key(m.tasks[0])
            && pending == m.dirty[m.tasks[0]]
        &&& n == (QueueModel { tasks: m.tasks.drop_first(), dirty: m.dirty.remove(m.tasks[0]), ..m })
    } else {
        &&& step matches Step::Wait(d) && is_deadline(m, d)
        &&& n == m
    }
}

/// One step of the writer.
pub open spec fn stepped(m: QueueModel, step: Step, n: QueueModel, now: u64) -> bool {
    if m.requests.len() > 0 {
        step == Step::Request(m.requests[0]) && n == (QueueModel { requests: m.requests.drop_first(), ..m })
    } else {
        exists|p: QueueModel| #[trigger] promoted(m, p, now) && stepped_from(p, step, n, now)
    }
}

// ---------------------------------------------------------------------- laws

/// Marks coalesce: however often a project is marked before it is taken, one
/// task waits for it, and the last reason is the one that is handed out.
pub proof fn marks_coalesce(m: QueueModel, k: Parts, first: String, last: String)
    requires
        queue_wf(m),
    ensures
        marked(marked(m, k, first), k, last).tasks == marked(m, k, first).tasks,
        marked(marked(m, k, first), k, last).dirty[k].reason == last,
        marked(marked(m, k, first), k, last).dirty[k].attempt == 0,
{
}

/// A mark made after the work was taken is not lost.
pub proof fn a_mark_after_taking_survives(m: QueueModel, k: Parts, reason: String)
    requires
        queue_wf(m),
    ensures
        marked(dropped(m, k), k, reason).dirty.contains_key(k),
        marked(dropped(m, k), k, reason).tasks.last() == k,
        marked(dropped(m, k), k, reason).dirty[k].reason == reason,
{
}

/// A new edit replaces a waiting retry and starts the count anew.
pub proof fn a_new_edit_replaces_the_retry(m: QueueModel, k: Parts, p: Pending, now: u64, reason: String)
    ensures
        !marked(retry_scheduled(m, k, p, now), k, reason).retries.contains_key(k),
        marked(retry_scheduled(m, k, p, now), k, reason).dirty[k].attempt == 0,
        marked(retry_scheduled(m, k, p, now), k, reason).dirty[k].reason == reason,
{
}

/// Retries are bounded: work that already failed twice before is not retried,
/// and each retry counts one attempt more.
pub proof fn retries_are_bounded(m: QueueModel, k: Parts, p: Pending, now: u64)
    requires
        queue_wf(m),
        !m.dirty.contains_key(k),
        !m.retries.contains_key(k),
    ensures
        retry_scheduled(m, k, p, now).retries.contains_key(k) <==> p.attempt < 2,
        p.attempt < 2 ==> retry_scheduled(m, k, p, now).retries[k].pending.attempt == p.attempt + 1,
{
}

/// A due retry is dirty again and hands out the same reason; nothing else
/// becomes dirty.
pub proof fn a_due_retry_becomes_dirty(m: QueueModel, n: QueueModel, k: Parts, now: u64)
    requires
        queue_wf(m),
        promoted(m, n, now),
    ensures
        n.dirty.contains_key(k) <==> m.dirty.contains_key(k) || retry_due(m, k, now),
        retry_due(m, k, now) ==> n.dirty[k] == m.retries[k].pending && !n.retries.contains_key(k),
{
}

/// Requests run before any other work, in order of arrival.
pub proof fn requests_run_first(m: QueueModel, step: Step, n: QueueModel, now: u64)
    requires
        m.requests.len() > 0,
        stepped(m, step, n, now),
    ensures
        step == Step::Request(m.requests[0]),
        n.tasks == m.tasks,
        n.dirty == m.dirty,
{
}

/// Whatever becomes dirty stands in line once, and everything else stays where
/// it is.
pub proof fn pushing_keeps_the_line(m: QueueModel, k: Parts, p: Pending)
    requires
        in_line(m),
    ensures
        in_line(pushed(m, k, p)),
        pushed(m, k, p).dirty == m.dirty.insert(k, p),
        pushed(m, k, p).tasks == if m.dirty.contains_key(k) {
            m.tasks
        } else {
            m.tasks.push(k)
        },
        pushed(m, k, p).retries == m.retries,
{
    let n = pushed(m, k, p);
    assert forall|x: Parts| #[trigger] n.tasks.contains(x) <==> n.dirty.contains_key(x) by {
        if m.tasks.contains(x) {
            let i = choose|i: int| 0 <= i < m.tasks.len() && m.tasks[i] == x;
            assert(n.tasks[i] == x);
        }
        if n.tasks.contains(x) && x != k {
            let i = choose|i: int| 0 <= i < n.tasks.len() && n.tasks[i] == x;
            assert(m.tasks[i] == x);
        }
        if x == k && !m.dirty.contains_key(k) {
            assert(n.tasks[m.tasks.len() as int] == k);
        }
        if x == k && m.dirty.contains_key(k) {
            assert(m.tasks.contains(k));
        }
    }
    assert(n.tasks.no_duplicates()) by {
        if !m.dirty.contains_key(k) {
            assert(!m.tasks.contains(k));
        }
    }
}

/// What leaves the queue waits nowhere any more, and everything else waits as
/// before.
pub proof fn only_what_is_taken_leaves(m: QueueModel, k: Parts, x: Parts)
    requires
        queue_wf(m),
    ensures
        !dropped(m, k).tasks.contains(k) && !dropped(m, k).dirty.contains_key(k) && !dropped(m, k).retries.contains_key(k),
        x != k ==> (dropped(m, k).tasks.contains(x) <==> m.tasks.contains(x)),
        x != k && m.dirty.contains_key(x) ==> dropped(m, k).dirty.contains_key(x) && dropped(m, k).dirty[x] == m.dirty[x],
        x != k && m.retries.contains_key(x) ==> dropped(m, k).retries.contains_key(x) && dropped(m, k).retries[x]
            == m.retries[x],
        dropped(m, k).requests == m.requests,
        dropped(m, k).events == m.events,
        dropped(m, k).next_check == m.next_check,
{
    lemma_drop_filter(m.tasks, k);
}

/// Once a project is gone, neither its own work nor that of its agents waits;
/// the work of other projects does.
pub proof fn a_gone_project_leaves_nothing(m: QueueModel, root: Parts, agent: Text, x: Parts)
    requires
        queue_wf(m),
    ensures
        !forgotten(m, root).dirty.contains_key(whole_project(root)),
        !forgotten(m, root).retries.contains_key(whole_project(root)),
        !forgotten(m, root).tasks.contains(whole_project(root)),
        !forgotten(m, root).dirty.contains_key(agent_skills(root, agent)),
        !forgotten(m, root).retries.contains_key(agent_skills(root, agent)),
        !forgotten(m, root).tasks.contains(agent_skills(root, agent)),
        !forgotten(m, root).events.sources.contains(project_key(root)),
        x != whole_project(root) && (forall|a: Text| x != #[trigger] agent_skills(root, a)) ==> {
            &&& forgotten(m, root).tasks.contains(x) <==> m.tasks.contains(x)
            &&& m.dirty.contains_key(x) ==> forgotten(m, root).dirty.contains_key(x) && forgotten(m, root).dirty[x]
                == m.dirty[x]
            &&& m.retries.contains_key(x) ==> forgotten(m, root).retries.contains_key(x) && forgotten(m, root).retries[x]
                == m.retries[x]
        },
        x != project_key(root) ==> (forgotten(m, root).events.sources.contains(x) <==> m.events.sources.contains(x)),
        forgotten(m, root).requests == m.requests,
        forgotten(m, root).next_check == m.next_check,
{
    lemma_filter_unrelated(m.tasks, root);
    assert(concerns(whole_project(root), root));
    assert(concerns(agent_skills(root, agent), root));
}

/// Failed work comes back two seconds later, for the same reason.
pub proof fn a_retry_comes_two_seconds_later(m: QueueModel, k: Parts, p: Pending, now: u64, x: Parts)
    requires
        now + 2000 <= u64::MAX,
        p.attempt < 2,
        !m.dirty.contains_key(k),
    ensures
        retry_scheduled(m, k, p, now).retries.contains_key(k),
        retry_scheduled(m, k, p, now).retries[k].at == now + 2000,
        retry_scheduled(m, k, p, now).retries[k].pending.reason == p.reason,
        x != k && m.retries.contains_key(x) ==> retry_scheduled(m, k, p, now).retries[x] == m.retries[x],
        retry_scheduled(m, k, p, now).dirty == m.dirty,
        retry_scheduled(m, k, p, now).tasks == m.tasks,
{
}

/// A retry that is not due yet stays where it is.
pub proof fn an_early_retry_stays(m: QueueModel, n: QueueModel, k: Parts, now: u64)
    requires
        promoted(m, n, now),
        m.retries.contains_key(k),
        m.retries[k].at > now,
    ensures
        n.retries.contains_key(k),
        n.retries[k] == m.retries[k],
        n.dirty.contains_key(k) == m.dirty.contains_key(k),
{
}

/// Without requests, a check that is due comes first, then file events, then the
/// work that stands first in line; while there is any of these nobody waits.
pub proof fn the_writer_keeps_its_order(m: QueueModel, step: Step, n: QueueModel, now: u64)
    requires
        m.requests.len() == 0,
        stepped(m, step, n, now),
        now + 2000 <= u64::MAX,
    ensures
        n.requests.len() == 0,
        m.next_check matches Some(c) && c <= now ==> step is Check && n.next_check == Some((now + 2000) as u64) && n.events
            == m.events,
        !(m.next_check matches Some(c) && c <= now) && m.events != no_changes() ==> (step matches Step::Events(changes)
            && changes@ == m.events && n.events == no_changes() && n.next_check == m.next_check),
        !(m.next_check matches Some(c) && c <= now) && m.events == no_changes() && m.tasks.len() > 0 ==> (step matches Step::Run(
            task,
            p,
        ) && task.key() == m.tasks[0]),
        !(m.next_check matches Some(c) && c <= now) && m.events == no_changes() && (exists|k: Parts|
            retry_due(m, k, now)) ==> step is Run,
        step is Check ==> (m.next_check matches Some(c) && c <= now),
        step is Events ==> m.events != no_changes(),
        step matches Step::Run(task, p) ==> !n.dirty.contains_key(task.key()) && !(m.next_check matches Some(c) && c <= now)
            && m.events == no_changes(),
{
    let p = choose|p: QueueModel| #[trigger] promoted(m, p, now) && stepped_from(p, step, n, now);
    assert(promoted(m, p, now) && stepped_from(p, step, n, now));
    if m.tasks.len() > 0 {
        assert(p.tasks.take(m.tasks.len() as int)[0] == p.tasks[0]);
    }
    if exists|k: Parts| retry_due(m, k, now) {
        let k = choose|k: Parts| retry_due(m, k, now);
        assert(p.tasks.skip(m.tasks.len() as int).contains(k));
        assert(p.tasks.len() > 0);
    }
}

/// Work is handed out with why it is due and how often it was tried.
pub proof fn work_is_handed_out_with_its_reason(m: QueueModel, step: Step, n: QueueModel, now: u64)
    requires
        m.requests.len() == 0,
        queue_wf(m),
        stepped(m, step, n, now),
    ensures
        step matches Step::Run(task, p) ==> (m.dirty.contains_key(task.key()) && p == m.dirty[task.key()]) || (retry_due(
            m,
            task.key(),
            now,
        ) && p == m.retries[task.key()].pending),
{
    let q = choose|p: QueueModel| #[trigger] promoted(m, p, now) && stepped_from(p, step, n, now);
    assert(promoted(m, q, now) && stepped_from(q, step, n, now));
    if let Step::Run(task, p) = step {
        let k = task.key();
        assert(q.dirty.contains_key(k));
        assert(m.retries.contains_key(k) ==> !m.dirty.contains_key(k));
    }
}

/// Whoever waits is woken in the future, and no later than the next check and
/// every retry; without any of them the wait has no end.
pub proof fn nobody_waits_too_long(m: QueueModel, step: Step, n: QueueModel, now: u64, k: Parts)
    requires
        m.requests.len() == 0,
        stepped(m, step, n, now),
    ensures
        step matches Step::Wait(d) ==> {
            &&& (d matches Some(at) ==> at > now)
            &&& (m.next_check matches Some(c) ==> d is Some && d->0 <= c)
            &&& m.retries.contains_key(k) ==> d is Some && d->0 <= m.retries[k].at
            &&& (d matches Some(at) ==> m.next_check == Some(at) || exists|x: Parts|
                m.retries.contains_key(x) && (#[trigger] m.retries[x]).at == at)
            &&& m.tasks.len() == 0 && m.events == no_changes()
        },
{
    let p = choose|p: QueueModel| #[trigger] promoted(m, p, now) && stepped_from(p, step, n, now);
    assert(promoted(m, p, now) && stepped_from(p, step, n, now));
    if let Step::Wait(d) = step {
        assert(is_deadline(p, d));
        if m.retries.contains_key(k) {
            if retry_due(m, k, now) {
                assert(p.tasks.skip(m.tasks.len() as int).contains(k));
                assert(p.tasks.len() > 0);
            }
            assert(p.retries.contains_key(k));
        }
        if let Some(at) = d {
            if m.next_check != Some(at) {
                let x = choose|x: Parts| #[trigger] p.retries.contains_key(x) && p.retries[x].at == at;
                assert(m.retries.contains_key(x) && m.retries[x].at == at);
                assert(!retry_due(m, x, now));
            }
        }
    }
}

/// Whole projects come before the skills of single agents.
pub proof fn projects_come_before_skills(root: Parts, project: Parts, agent: Text)
    ensures
        key_lt::<Task>(whole_project(root), agent_skills(project, agent)),
        !key_lt::<Task>(agent_skills(project, agent), whole_project(root)),
{
    let a = task_rank(whole_project(root));
    let b = task_rank(agent_skills(project, agent));
    assert(whole_project(root)[0] == rank('0'));
    assert(agent_skills(project, agent)[0] == rank('1'));
    assert(rank('0')[0] == '0' && rank('1')[0] == '1');
    assert(a[0] == rank('0') && b[0] == rank('1'));
    the_first_part_that_differs_decides(a, b, 0);
    the_first_part_that_differs_decides(b, a, 0);
    assert(rank('0').take(0) =~= rank('1').take(0));
    the_first_difference_decides(rank('0'), rank('1'), 0);
    the_first_difference_decides(rank('1'), rank('0'), 0);
}

} // verus!
