//! Which notices to look at, and when: the decisions of the service that
//! watches the queue.
use vstd::prelude::*;
use crate::bbs::notify::record::{is_verified, Record, WaitingAttachment};
use crate::bbs::sync::model::{lemma_at, lemma_found, tkey, StateModel, SyncState};
use crate::ids::{is_hash, valid_hash};
use crate::order::{key_lt, lemma_parts_lt_irreflexive, parts_lt, text_set, Key, OrderedMap, OrderedSet, Parts};
use crate::path::PathName;
use crate::text::{own, same, strip_back, texts, Text};
use crate::bbs::notify::record::is_missing;
use crate::bbs::notify::record::waiting_models;
use crate::bbs::notify::record::NoticeModel;

verus! {

/// How many entries of a directory are examined at a time.
pub const BATCH: usize = 64;

/// How many hints are kept before a scan takes their place.
pub const HINT_BUDGET: usize = 256;

/// How many notices are looked at together.
pub const WORKERS: usize = 2;

/// The shortest time before the directories are watched again.
pub const RETRY_FIRST_MS: i64 = 2000;

/// The longest.
pub const RETRY_LAST_MS: i64 = 60000;

// --------------------------------------------------------------------- hints

/// What was noticed since the service last looked.
pub struct Hints {
    pub keys: OrderedSet<String>,
    pub rescan: bool,
    pub rewatch: bool,
}

#[verifier::ext_equal]
pub struct HintsModel {
    pub keys: Set<Parts>,
    pub rescan: bool,
    pub rewatch: bool,
}

impl View for Hints {
    type V = HintsModel;

    open spec fn view(&self) -> HintsModel {
        HintsModel { keys: self.keys@, rescan: self.rescan, rewatch: self.rewatch }
    }
}

pub open spec fn no_hints() -> HintsModel {
    HintsModel { keys: Set::empty(), rescan: false, rewatch: false }
}

/// A notice changed. Beyond the budget everything is scanned instead.
pub open spec fn with_key(m: HintsModel, k: Parts) -> HintsModel {
    if m.keys.len() < HINT_BUDGET {
        HintsModel { keys: m.keys.insert(k), ..m }
    } else {
        HintsModel { rescan: true, ..m }
    }
}

pub open spec fn with_scan(m: HintsModel, rewatch: bool) -> HintsModel {
    HintsModel { rescan: true, rewatch: m.rewatch || rewatch, ..m }
}

impl Hints {
    pub open spec fn wf(&self) -> bool {
        self.keys.wf()
    }

    pub fn new() -> (r: Hints)
        ensures
            r.wf(),
            r@ == no_hints(),
    {
        Hints { keys: OrderedSet::new(), rescan: false, rewatch: false }
    }

    /// A notice changed. Beyond the budget everything is scanned instead.
    pub fn key(&mut self, key: &str)
        requires
            old(self).wf(),
        ensures
            final(self).wf(),
            final(self)@ == with_key(old(self)@, tkey(key@)),
    {
        if self.keys.len() < HINT_BUDGET {
            self.keys.insert(own(key));
        } else {
            self.rescan = true;
        }
    }

    pub fn scan(&mut self, rewatch: bool)
        ensures
            final(self).keys == old(self).keys,
            final(self)@ == with_scan(old(self)@, rewatch),
    {
        self.rescan = true;
        self.rewatch = self.rewatch || rewatch;
    }

    /// Take what was noticed.
    pub fn take(&mut self) -> (r: Hints)
        requires
            old(self).wf(),
        ensures
            r == *old(self),
            final(self).wf(),
            final(self)@ == no_hints(),
    {
        let mut out = Hints::new();
        std::mem::swap(&mut out, self);
        out
    }
}

/// What the watcher reports of a directory.
pub struct WatchEvent {
    pub failed: bool,
    pub access: bool,
    pub rescan: bool,
    /// Something was removed or renamed.
    pub moved: bool,
    pub paths: Vec<PathName>,
}

/// The notice that a file name means.
pub open spec fn file_key(name: Text) -> Option<Text> {
    if crate::text::ends(name, ".json"@) && is_hash(name.take(name.len() - ".json"@.len())) {
        Some(name.take(name.len() - ".json"@.len()))
    } else {
        None
    }
}

pub fn key_of_file(name: &str) -> (r: Option<String>)
    ensures
        crate::text::opt_text(r) == file_key(name@),
{
    match strip_back(name, ".json") {
        Some(key) => if valid_hash(&key) {
            Some(key)
        } else {
            None
        },
        None => None,
    }
}

/// What one path of an event means: the watched directory itself moved, or a
/// notice in it changed.
pub enum PathHint {
    Nothing,
    Rewatch,
    Key(String),
}

pub open spec fn is_watched(roots: Seq<PathName>, p: Parts) -> bool {
    exists|i: int| 0 <= i < roots.len() && (#[trigger] roots[i])@ == p
}

pub open spec fn parent_watched(roots: Seq<PathName>, p: Parts) -> bool {
    p.len() > 0 && p != seq![Seq::<char>::empty()] && exists|i: int|
        0 <= i < roots.len() && (#[trigger] roots[i])@ == p.drop_last()
}

pub fn path_hint(roots: &Vec<PathName>, path: &PathName, moved: bool) -> (r: PathHint)
    ensures
        match r {
            PathHint::Rewatch => is_watched(roots@, path@) && moved,
            PathHint::Key(k) => !(is_watched(roots@, path@) && moved) && parent_watched(roots@, path@) && file_key(
                path@.last(),
            ) == Some(k@),
            PathHint::Nothing => !(is_watched(roots@, path@) && moved) && (!parent_watched(roots@, path@) || file_key(
                path@.last(),
            ) is None),
        },
{
    let mut watched = false;
    let mut below = false;
    let mut i: usize = 0;
    while i < roots.len()
        invariant
            i <= roots@.len(),
            watched == exists|j: int| 0 <= j < i && (#[trigger] roots@[j])@ == path@,
            below == (path@.len() > 0 && path@ != seq![Seq::<char>::empty()] && exists|j: int|
                0 <= j < i && (#[trigger] roots@[j])@ == path@.drop_last()),
        decreases roots@.len() - i,
    {
        if roots[i].is_same(path) {
            watched = true;
        }
        if roots[i].is_parent_of(path) {
            below = true;
        }
        i += 1;
    }
    if watched && moved {
        return PathHint::Rewatch;
    }
    if !below {
        return PathHint::Nothing;
    }
    let n = path.parts.len();
    assert(path@.len() == n);
    assert(path@.last() == path.parts@[n - 1]@);
    match key_of_file(&path.parts[n - 1]) {
        Some(k) => PathHint::Key(k),
        None => PathHint::Nothing,
    }
}

// ---------------------------------------------------------------------- scan

/// An entry of a directory.
pub struct ScanEntry {
    pub is_file: bool,
    pub name: String,
}

/// A scan of the queue's directories, the last one first.
pub struct Scan {
    pub directories: Vec<Vec<ScanEntry>>,
}

pub open spec fn entry_models(s: Seq<ScanEntry>) -> Seq<(bool, Text)> {
    s.map_values(|e: ScanEntry| (e.is_file, e.name@))
}

pub open spec fn dir_models(s: Seq<Vec<ScanEntry>>) -> Seq<Seq<(bool, Text)>> {
    s.map_values(|d: Vec<ScanEntry>| entry_models(d@))
}

/// The notice that an entry is, if it is one.
pub open spec fn entry_key(e: (bool, Text)) -> Seq<Text> {
    match file_key(e.1) {
        Some(k) => if e.0 {
            seq![k]
        } else {
            Seq::empty()
        },
        None => Seq::empty(),
    }
}

/// What is left after `n` steps, the notices found, and whether everything
/// was examined. The end of a directory counts as a step.
pub open spec fn scanned(dirs: Seq<Seq<(bool, Text)>>, n: nat) -> (Seq<Seq<(bool, Text)>>, Seq<Text>, bool)
    decreases n,
{
    if n == 0 {
        (dirs, Seq::empty(), false)
    } else if dirs.len() == 0 {
        (dirs, Seq::empty(), true)
    } else if dirs.last().len() == 0 {
        scanned(dirs.drop_last(), (n - 1) as nat)
    } else {
        let rest = scanned(dirs.drop_last().push(dirs.last().drop_first()), (n - 1) as nat);
        (rest.0, entry_key(dirs.last()[0]) + rest.1, rest.2)
    }
}

impl Scan {
    /// Examine the next entries, at most a batch of them: whether the scan is
    /// over, and the notices found.
    pub fn next(&mut self) -> (r: (bool, Vec<String>))
        ensures
            (dir_models(final(self).directories@), texts(r.1@), r.0) == scanned(
                dir_models(old(self).directories@),
                BATCH as nat,
            ),
    {
        let ghost start = dir_models(self.directories@);
        let mut keys: Vec<String> = Vec::new();
        let mut n: usize = 0;
        assert(texts(keys@) =~= Seq::empty());
        assert(texts(keys@) + scanned(start, BATCH as nat).1 =~= scanned(start, BATCH as nat).1);
        while n < BATCH
            invariant
                start == dir_models(old(self).directories@),
                n <= BATCH,
                ({
                    let rest = scanned(dir_models(self.directories@), (BATCH - n) as nat);
                    scanned(start, BATCH as nat) == (rest.0, texts(keys@) + rest.1, rest.2)
                }),
            decreases BATCH - n,
        {
            let ghost here = dir_models(self.directories@);
            let ghost was = self.directories@;
            let ghost found = texts(keys@);
            let last = self.directories.pop();
            let mut directory = match last {
                Some(d) => d,
                None => {
                    assert(found + Seq::empty() =~= found);
                    return (true, keys);
                },
            };
            assert(here.last() == entry_models(directory@));
            assert(dir_models(self.directories@) =~= here.drop_last());
            n += 1;
            if directory.len() == 0 {
                assert(here.last().len() == 0);
                continue;
            }
            let ghost entries = directory@;
            let entry = directory.remove(0);
            assert(entry_models(directory@) =~= here.last().drop_first());
            assert(here.last()[0] == (entry.is_file, entry.name@));
            self.directories.push(directory);
            assert(dir_models(self.directories@) =~= here.drop_last().push(here.last().drop_first()));
            let ghost rest = scanned(dir_models(self.directories@), (BATCH - n) as nat);
            let ghost more = entry_key(here.last()[0]);
            assert(found + (more + rest.1) =~= (found + more) + rest.1);
            let key = key_of_file(&entry.name);
            if entry.is_file && key.is_some() {
                if let Some(k) = key {
                    let ghost list = keys@;
                    keys.push(k);
                    assert(texts(keys@) =~= texts(list).push(k@));
                    assert(texts(keys@) =~= found + more);
                }
            } else {
                assert(found + more =~= found);
            }
        }
        assert(texts(keys@) + Seq::empty() =~= texts(keys@));
        (false, keys)
    }
}

/// One path of an event: a watched directory that moved has to be watched and
/// scanned anew, a notice in one is hinted at, and nothing else counts.
pub open spec fn path_noted(m: HintsModel, roots: Seq<PathName>, p: Parts, moved: bool) -> HintsModel {
    if is_watched(roots, p) && moved {
        with_scan(m, true)
    } else if parent_watched(roots, p) {
        match file_key(p.last()) {
            Some(k) => with_key(m, tkey(k)),
            None => m,
        }
    } else {
        m
    }
}

/// The paths of an event, one after the other.
pub open spec fn paths_noted(m: HintsModel, roots: Seq<PathName>, paths: Seq<PathName>, moved: bool) -> HintsModel
    decreases paths.len(),
{
    if paths.len() == 0 {
        m
    } else {
        path_noted(paths_noted(m, roots, paths.drop_last(), moved), roots, paths.last()@, moved)
    }
}

/// What an event adds to the hints.
pub open spec fn noted(m: HintsModel, roots: Seq<PathName>, event: WatchEvent) -> HintsModel {
    if event.failed {
        with_scan(m, true)
    } else if event.access {
        m
    } else if event.rescan {
        with_scan(m, false)
    } else {
        paths_noted(m, roots, event.paths@, event.moved)
    }
}

impl Hints {
    /// What the watcher reported.
    pub fn note(&mut self, roots: &Vec<PathName>, event: &WatchEvent)
        requires
            old(self).wf(),
        ensures
            final(self).wf(),
            final(self)@ == noted(old(self)@, roots@, *event),
    {
        if event.failed {
            self.scan(true);
            return;
        }
        if event.access {
            return;
        }
        if event.rescan {
            self.scan(false);
            return;
        }
        let ghost start = self@;
        let ghost paths = event.paths@;
        let mut i: usize = 0;
        assert(paths.take(0) =~= Seq::empty());
        while i < event.paths.len()
            invariant
                self.wf(),
                paths == event.paths@,
                i <= paths.len(),
                self@ == paths_noted(start, roots@, paths.take(i as int), event.moved),
            decreases paths.len() - i,
        {
            assert(paths.take(i + 1).drop_last() =~= paths.take(i as int));
            assert(paths.take(i + 1).last() == paths[i as int]);
            match path_hint(roots, &event.paths[i], event.moved) {
                PathHint::Rewatch => self.scan(true),
                PathHint::Key(k) => self.key(&k),
                PathHint::Nothing => {},
            }
            i += 1;
        }
        assert(paths.take(i as int) =~= paths);
    }
}

/// Nothing that was hinted at is forgotten: it is among the keys, or
/// everything is scanned.
pub proof fn events_lose_no_hint(m: HintsModel, roots: Seq<PathName>, paths: Seq<PathName>, moved: bool, i: int, k: Text)
    requires
        0 <= i < paths.len(),
        !(is_watched(roots, paths[i]@) && moved),
        parent_watched(roots, paths[i]@),
        file_key(paths[i]@.last()) == Some(k),
    ensures
        paths_noted(m, roots, paths, moved).keys.contains(tkey(k)) || paths_noted(m, roots, paths, moved).rescan,
    decreases paths.len(),
{
    if i < paths.len() - 1 {
        assert(paths.drop_last()[i] == paths[i]);
        events_lose_no_hint(m, roots, paths.drop_last(), moved, i, k);
    }
}

// ------------------------------------------------------------------- service

/// What looking at a notice gave.
pub enum Work {
    Done,
    Wait { at: i64, record: Record },
    Recover,
}

/// What a notice waits for, and in which thread.
pub struct Subscription {
    pub thread_id: String,
    pub waiting: Vec<WaitingAttachment>,
}

/// Which part of a scan to run.
#[derive(Clone, Copy, Debug, PartialEq, Eq, Structural)]
pub enum ScanStart {
    /// Go on with the scan under way.
    Rest,
    Fresh,
}

pub struct Service {
    /// When a notice that waits is looked at again.
    pub waiting: OrderedMap<String, i64>,
    pub subscriptions: OrderedMap<String, Subscription>,
    pub todo: OrderedSet<String>,
    pub in_flight: OrderedSet<String>,
    /// Notices that changed while they were looked at.
    pub changed: OrderedSet<String>,
    /// Notices whose post has to be found by its hash.
    pub recover: OrderedSet<String>,
    pub jobs: usize,
    pub recovering: bool,
    pub scanning: bool,
    /// A scan was begun and has entries left.
    pub scan_left: bool,
    pub needs_scan: bool,
    pub watching: bool,
    pub retry_watch: Option<i64>,
    pub retry_delay: i64,
}

#[verifier::ext_equal]
pub struct ServiceModel {
    pub waiting: Map<Parts, i64>,
    pub subscribed: Map<Parts, Subscription>,
    pub todo: Set<Parts>,
    pub in_flight: Set<Parts>,
    pub changed: Set<Parts>,
    pub recover: Set<Parts>,
    pub jobs: nat,
    pub recovering: bool,
    pub scanning: bool,
    pub scan_left: bool,
    pub needs_scan: bool,
    pub watching: bool,
    pub retry_watch: Option<i64>,
    pub retry_delay: i64,
}

impl View for Service {
    type V = ServiceModel;

    open spec fn view(&self) -> ServiceModel {
        ServiceModel {
            waiting: self.waiting@,
            subscribed: self.subscriptions@,
            todo: self.todo@,
            in_flight: self.in_flight@,
            changed: self.changed@,
            recover: self.recover@,
            jobs: self.jobs as nat,
            recovering: self.recovering,
            scanning: self.scanning,
            scan_left: self.scan_left,
            needs_scan: self.needs_scan,
            watching: self.watching,
            retry_watch: self.retry_watch,
            retry_delay: self.retry_delay,
        }
    }
}

/// A notice is to be looked at, now or after the look under way.
pub open spec fn woken(m: ServiceModel, k: Parts) -> ServiceModel {
    if m.in_flight.contains(k) {
        ServiceModel { waiting: m.waiting.remove(k), changed: m.changed.insert(k), ..m }
    } else {
        ServiceModel { waiting: m.waiting.remove(k), todo: m.todo.insert(k), ..m }
    }
}

/// All hints are taken up.
pub open spec fn absorbed(m: ServiceModel, keys: Set<Parts>, rescan: bool, rewatch: bool, now: i64) -> ServiceModel {
    ServiceModel {
        waiting: m.waiting.remove_keys(keys),
        changed: m.changed.union(keys.intersect(m.in_flight)),
        todo: m.todo.union(keys.difference(m.in_flight)),
        needs_scan: m.needs_scan || rescan,
        retry_watch: if rewatch {
            Some(now)
        } else {
            m.retry_watch
        },
        ..m
    }
}

/// The notices whose time has come.
pub open spec fn due(m: ServiceModel, now: i64) -> Set<Parts> {
    Set::new(|k: Parts| m.waiting.contains_key(k) && m.waiting[k] <= now)
}

pub open spec fn elapsed(m: ServiceModel, now: i64) -> ServiceModel {
    ServiceModel {
        waiting: m.waiting.remove_keys(due(m, now)),
        todo: m.todo.union(due(m, now).difference(m.in_flight)),
        ..m
    }
}

/// A look at a notice begins.
pub open spec fn begun(m: ServiceModel, k: Parts) -> ServiceModel {
    ServiceModel {
        waiting: m.waiting.remove(k),
        subscribed: m.subscribed.remove(k),
        todo: m.todo.remove(k),
        in_flight: m.in_flight.insert(k),
        jobs: m.jobs + 1,
        ..m
    }
}

/// A look at a notice is over; if the notice changed meanwhile, it is looked
/// at once more.
pub open spec fn ended(m: ServiceModel, k: Parts) -> ServiceModel {
    ServiceModel {
        in_flight: m.in_flight.remove(k),
        changed: m.changed.remove(k),
        todo: if m.changed.contains(k) {
            m.todo.insert(k)
        } else {
            m.todo
        },
        jobs: (m.jobs - 1) as nat,
        ..m
    }
}

impl Service {
    pub open spec fn wf(&self) -> bool {
        &&& self.waiting.wf()
        &&& self.subscriptions.wf()
        &&& self.todo.wf()
        &&& self.in_flight.wf()
        &&& self.changed.wf()
        &&& self.recover.wf()
        &&& self.jobs <= WORKERS
        &&& RETRY_FIRST_MS <= self.retry_delay <= RETRY_LAST_MS
    }

    /// A service that begins with a scan, and that tries to watch again soon
    /// if watching failed.
    pub fn new(watched: bool, now: i64) -> (r: Service)
        requires
            now <= i64::MAX - RETRY_LAST_MS,
        ensures
            r.wf(),
            r@ == (ServiceModel {
                waiting: Map::empty(),
                subscribed: Map::empty(),
                todo: Set::empty(),
                in_flight: Set::empty(),
                changed: Set::empty(),
                recover: Set::empty(),
                jobs: 0,
                recovering: false,
                scanning: false,
                scan_left: true,
                needs_scan: false,
                watching: false,
                retry_watch: if watched {
                    None
                } else {
                    Some((now + RETRY_FIRST_MS) as i64)
                },
                retry_delay: RETRY_FIRST_MS,
            }),
    {
        let retry_watch: Option<i64> = if watched {
            None
        } else {
            Some(now + RETRY_FIRST_MS)
        };
        Service {
            waiting: OrderedMap::new(),
            subscriptions: OrderedMap::new(),
            todo: OrderedSet::new(),
            in_flight: OrderedSet::new(),
            changed: OrderedSet::new(),
            recover: OrderedSet::new(),
            jobs: 0,
            recovering: false,
            scanning: false,
            scan_left: true,
            needs_scan: false,
            watching: false,
            retry_watch,
            retry_delay: RETRY_FIRST_MS,
        }
    }

    fn wake(&mut self, key: &String)
        requires
            old(self).wf(),
        ensures
            final(self).wf(),
            final(self)@ == woken(old(self)@, tkey(key@)),
    {
        self.waiting.remove(key);
        if self.in_flight.has(key) {
            self.changed.insert(key.clone());
        } else {
            self.todo.insert(key.clone());
        }
    }

    /// Take up what was noticed.
    pub fn absorb(&mut self, hints: &Hints, now: i64)
        requires
            old(self).wf(),
            hints.wf(),
        ensures
            final(self).wf(),
            final(self)@ == absorbed(old(self)@, hints.keys@, hints.rescan, hints.rewatch, now),
    {
        let ghost start = self@;
        self.needs_scan = self.needs_scan || hints.rescan;
        if hints.rewatch {
            self.retry_watch = Some(now);
        }
        let ghost base = self@;
        let keys = &hints.keys.map.entries;
        let mut i: usize = 0;
        assert(first_keys(keys@, 0) =~= Set::empty());
        assert(self@ =~= absorbed(base, first_keys(keys@, 0), false, false, now));
        while i < keys.len()
            invariant
                self.wf(),
                hints.wf(),
                keys == hints.keys.map.entries,
                i <= keys@.len(),
                self@ == absorbed(base, first_keys(keys@, i as int), false, false, now),
            decreases keys@.len() - i,
        {
            let key = &keys[i].0;
            let ghost was = self@;
            self.wake(key);
            proof {
                let k = tkey(key@);
                assert(first_keys(keys@, i + 1) =~= first_keys(keys@, i as int).insert(k));
                assert(self@ =~= absorbed(base, first_keys(keys@, i + 1), false, false, now));
            }
            i += 1;
        }
        proof {
            assert(first_keys(keys@, i as int) =~= hints.keys@) by {
                assert forall|k: Parts| first_keys(keys@, i as int).contains(k) <==> hints.keys@.contains(k) by {
                    if first_keys(keys@, i as int).contains(k) {
                        let j = choose|j: int| 0 <= j < i && tkey((#[trigger] keys@[j]).0@) == k;
                        lemma_at(hints.keys.map, j);
                    }
                    if hints.keys@.contains(k) {
                        let j = lemma_found(hints.keys.map, k);
                        assert(tkey(keys@[j].0@) == k);
                    }
                }
            }
            assert(self@ =~= absorbed(start, hints.keys@, hints.rescan, hints.rewatch, now));
        }
    }

    /// Wake the notices whose time has come.
    pub fn elapse(&mut self, now: i64)
        requires
            old(self).wf(),
        ensures
            final(self).wf(),
            final(self)@ == elapsed(old(self)@, now),
    {
        let ghost start = self@;
        let mut i: usize = 0;
        let ghost mut gone: Set<Parts> = Set::empty();
        assert(self@ =~= dropped(start, gone));
        while i < self.waiting.entries.len()
            invariant
                self.wf(),
                i <= self.waiting.entries@.len(),
                self@ == dropped(start, gone),
                forall|k: Parts| #[trigger] gone.contains(k) ==> due(start, now).contains(k),
                forall|j: int| 0 <= j < i ==> (#[trigger] self.waiting.entries@[j]).1 > now,
            decreases self.waiting.entries@.len() - i,
        {
            if self.waiting.entries[i].1 <= now {
                let ghost was = self@;
                let ghost entries = self.waiting.entries@;
                proof {
                    lemma_at(self.waiting, i as int);
                }
                let (key, _) = self.waiting.remove_at(i);
                if !self.in_flight.has(&key) {
                    self.todo.insert(key);
                }
                proof {
                    let k = entries[i as int].0.key();
                    assert(was.waiting.contains_key(k));
                    assert(start.waiting.contains_key(k) && start.waiting[k] == was.waiting[k]);
                    let next = gone.insert(k);
                    assert(self@ =~= dropped(start, next));
                    gone = next;
                    assert forall|j: int| 0 <= j < i implies (#[trigger] self.waiting.entries@[j]).1 > now by {
                        assert(self.waiting.entries@[j] == entries[j]);
                    }
                }
            } else {
                i += 1;
            }
        }
        proof {
            assert(gone =~= due(start, now)) by {
                assert forall|k: Parts| due(start, now).contains(k) implies gone.contains(k) by {
                    if !gone.contains(k) {
                        assert(self@.waiting.contains_key(k));
                        let j = lemma_found(self.waiting, k);
                        assert(self.waiting.entries@[j].1 > now);
                    }
                }
            }
            assert(self@ =~= elapsed(start, now));
        }
    }

    /// The next notice to look at, if a worker is free.
    pub fn start(&mut self) -> (r: Option<String>)
        requires
            old(self).wf(),
        ensures
            final(self).wf(),
            match r {
                Some(key) => {
                    &&& old(self).jobs < WORKERS
                    &&& is_first(old(self)@.todo, tkey(key@))
                    &&& final(self)@ == begun(old(self)@, tkey(key@))
                },
                None => {
                    &&& old(self).jobs == WORKERS || old(self)@.todo == Set::<Parts>::empty()
                    &&& final(self)@ == old(self)@
                },
            },
    {
        if self.jobs >= WORKERS {
            return None;
        }
        let key = match pop_first(&mut self.todo) {
            Some(k) => k,
            None => {
                return None;
            },
        };
        self.waiting.remove(&key);
        self.subscriptions.remove(&key);
        self.in_flight.insert(key.clone());
        self.jobs = self.jobs + 1;
        Some(key)
    }

    /// The next notice whose post has to be found, one at a time.
    pub fn start_recovery(&mut self) -> (r: Option<String>)
        requires
            old(self).wf(),
        ensures
            final(self).wf(),
            match r {
                Some(key) => {
                    &&& !old(self).recovering
                    &&& is_first(old(self)@.recover, tkey(key@))
                    &&& final(self)@ == (ServiceModel {
                        recover: old(self)@.recover.remove(tkey(key@)),
                        recovering: true,
                        ..old(self)@
                    })
                },
                None => {
                    &&& old(self).recovering || old(self)@.recover == Set::<Parts>::empty()
                    &&& final(self)@ == old(self)@
                },
            },
    {
        if self.recovering {
            return None;
        }
        let key = match pop_first(&mut self.recover) {
            Some(k) => k,
            None => {
                return None;
            },
        };
        self.recovering = true;
        Some(key)
    }

    /// The scan to run, unless one runs or enough is to be done.
    pub fn start_scan(&mut self) -> (r: Option<ScanStart>)
        requires
            old(self).wf(),
        ensures
            final(self).wf(),
            ({
                let m = old(self)@;
                if m.scanning || m.todo.len() >= BATCH || !(m.scan_left || m.needs_scan) {
                    r is None && final(self)@ == m
                } else if m.scan_left {
                    r == Some(ScanStart::Rest) && final(self)@ == (ServiceModel { scan_left: false, scanning: true, ..m })
                } else {
                    r == Some(ScanStart::Fresh) && final(self)@ == (ServiceModel {
                        needs_scan: false,
                        scanning: true,
                        ..m
                    })
                }
            }),
    {
        if self.scanning || self.todo.len() >= BATCH {
            return None;
        }
        if self.scan_left {
            self.scan_left = false;
            self.scanning = true;
            return Some(ScanStart::Rest);
        }
        if self.needs_scan {
            self.needs_scan = false;
            self.scanning = true;
            return Some(ScanStart::Fresh);
        }
        None
    }

    /// Whether to watch the directories again now.
    pub fn start_watch(&mut self, now: i64) -> (r: bool)
        requires
            old(self).wf(),
        ensures
            final(self).wf(),
            r == (!old(self).watching && (old(self).retry_watch matches Some(t) && t <= now)),
            r ==> final(self)@ == (ServiceModel { retry_watch: None, watching: true, ..old(self)@ }),
            !r ==> final(self)@ == old(self)@,
    {
        if self.watching {
            return false;
        }
        match self.retry_watch {
            Some(t) => if t <= now {
                self.retry_watch = None;
                self.watching = true;
                true
            } else {
                false
            },
            None => false,
        }
    }

    /// How long nothing is due, in milliseconds, if anything will be.
    pub fn delay(&self, now: i64) -> (r: Option<u64>)
        requires
            self.wf(),
        ensures
            r is None == (self@.waiting == Map::<Parts, i64>::empty() && self.retry_watch is None),
            r matches Some(d) ==> {
                &&& forall|k: Parts| #[trigger] self@.waiting.contains_key(k) ==> d <= gap(self@.waiting[k], now)
                &&& self.retry_watch matches Some(t) ==> d <= gap(t, now)
                &&& (self.retry_watch matches Some(t) && d == gap(t, now)) || exists|k: Parts|
                    #[trigger] self@.waiting.contains_key(k) && d == gap(self@.waiting[k], now)
            },
    {
        let mut best: Option<u64> = match self.retry_watch {
            Some(t) => Some(wait_for(t, now)),
            None => None,
        };
        let v = &self.waiting.entries;
        let mut i: usize = 0;
        while i < v.len()
            invariant
                self.wf(),
                v == self.waiting.entries,
                i <= v@.len(),
                best is None == (i == 0 && self.retry_watch is None),
                best matches Some(d) ==> {
                    &&& forall|j: int| 0 <= j < i ==> d <= gap((#[trigger] v@[j]).1, now)
                    &&& self.retry_watch matches Some(t) ==> d <= gap(t, now)
                    &&& (self.retry_watch matches Some(t) && d == gap(t, now)) || exists|j: int|
                        0 <= j < i && d == gap((#[trigger] v@[j]).1, now)
                },
            decreases v@.len() - i,
        {
            let d = wait_for(v[i].1, now);
            assert(d == gap(v@[i as int].1, now));
            best = match best {
                Some(b) => if d < b {
                    Some(d)
                } else {
                    Some(b)
                },
                None => Some(d),
            };
            i += 1;
        }
        proof {
            if v@.len() > 0 {
                lemma_at(self.waiting, 0);
            } else {
                assert(self@.waiting =~= Map::<Parts, i64>::empty()) by {
                    assert forall|k: Parts| !self@.waiting.contains_key(k) by {
                        if self@.waiting.contains_key(k) {
                            let j = lemma_found(self.waiting, k);
                        }
                    }
                }
            }
            if best is Some {
                let d = best->0;
                assert forall|k: Parts| #[trigger] self@.waiting.contains_key(k) implies d <= gap(
                    self@.waiting[k],
                    now,
                ) by {
                    let j = lemma_found(self.waiting, k);
                    assert(d <= gap(v@[j].1, now));
                }
                if !(self.retry_watch matches Some(t) && d == gap(t, now)) {
                    let j = choose|j: int| 0 <= j < v@.len() && d == gap((#[trigger] v@[j]).1, now);
                    lemma_at(self.waiting, j);
                    assert(self@.waiting.contains_key(tkey(v@[j].0@)));
                }
            }
        }
        best
    }

    /// A look at a notice is over. `saved` says that attachments were saved
    /// since it began; then the notice is to be hinted at again.
    pub fn job_done(&mut self, key: &str, outcome: Result<Work, String>, saved: bool) -> (r: bool)
        requires
            old(self).wf(),
            old(self).jobs > 0,
        ensures
            final(self).wf(),
            r == (saved && (outcome matches Ok(Work::Wait { .. }))),
            ({
                let k = tkey(key@);
                let m = ended(old(self)@, k);
                match outcome {
                    Ok(Work::Wait { at, record }) => {
                        &&& final(self)@.subscribed.contains_key(k)
                        &&& final(self)@.subscribed[k].thread_id == record.destination.thread_id
                        &&& final(self)@.subscribed[k].waiting == record.waiting
                        &&& final(self)@ == (ServiceModel {
                            waiting: m.waiting.insert(k, at),
                            subscribed: m.subscribed.insert(k, final(self)@.subscribed[k]),
                            ..m
                        })
                    },
                    Ok(Work::Recover) => final(self)@ == (ServiceModel { recover: m.recover.insert(k), ..m }),
                    _ => final(self)@ == m,
                }
            }),
    {
        let k = own(key);
        self.in_flight.remove(&k);
        self.jobs = self.jobs - 1;
        if self.changed.remove(&k) {
            self.todo.insert(own(key));
        }
        match outcome {
            Ok(Work::Wait { at, record }) => {
                let s = Subscription { thread_id: record.destination.thread_id, waiting: record.waiting };
                self.subscriptions.insert(own(key), s);
                self.waiting.insert(k, at);
                saved
            },
            Ok(Work::Recover) => {
                self.recover.insert(k);
                false
            },
            _ => false,
        }
    }

    /// A worker was lost, and with it which notice it looked at.
    pub fn worker_lost(&mut self)
        requires
            old(self).wf(),
            old(self).jobs > 0,
        ensures
            final(self).wf(),
            final(self)@ == (ServiceModel { jobs: (old(self)@.jobs - 1) as nat, ..old(self)@ }),
    {
        self.jobs = self.jobs - 1;
    }

    /// A search for a post is over. One that succeeded is looked at again.
    pub fn recovery_done(&mut self, recovered: &Option<String>)
        requires
            old(self).wf(),
        ensures
            final(self).wf(),
            final(self)@ == (ServiceModel {
                recovering: false,
                todo: match recovered {
                    Some(key) => old(self)@.todo.insert(tkey(key@)),
                    None => old(self)@.todo,
                },
                ..old(self)@
            }),
    {
        self.recovering = false;
        if let Some(key) = recovered {
            self.todo.insert(key.clone());
        }
    }

    /// A part of a scan is over, or failed.
    pub fn scan_done(&mut self, outcome: Result<(bool, Vec<String>), String>, now: i64)
        requires
            old(self).wf(),
            now <= i64::MAX - RETRY_LAST_MS,
        ensures
            final(self).wf(),
            match outcome {
                Ok((over, keys)) => final(self)@ == (ServiceModel {
                    scanning: false,
                    scan_left: !over,
                    todo: old(self)@.todo.union(text_set(texts(keys@)).difference(old(self)@.in_flight)),
                    ..old(self)@
                }),
                Err(_) => final(self)@ == (ServiceModel {
                    scanning: false,
                    retry_watch: Some((now + old(self).retry_delay) as i64),
                    ..old(self)@
                }),
            },
    {
        let ghost start = self@;
        self.scanning = false;
        match outcome {
            Err(_) => {
                self.retry_watch = Some(now + self.retry_delay);
            },
            Ok((over, keys)) => {
                self.scan_left = !over;
                let ghost base = self@;
                let ghost all = texts(keys@);
                let mut i: usize = 0;
                assert(text_set(all.take(0)) =~= Set::empty());
                assert(self@ =~= found(base, all.take(0)));
                while i < keys.len()
                    invariant
                        self.wf(),
                        all == texts(keys@),
                        i <= keys@.len(),
                        self@ == found(base, all.take(i as int)),
                    decreases keys@.len() - i,
                {
                    if !self.in_flight.has(&keys[i]) {
                        self.todo.insert(keys[i].clone());
                    }
                    proof {
                        let t = keys@[i as int]@;
                        assert(all.take(i + 1) =~= all.take(i as int).push(t));
                        assert(text_set(all.take(i + 1)) =~= text_set(all.take(i as int)).insert(tkey(t))) by {
                            assert forall|k: Parts|
                                text_set(all.take(i + 1)).contains(k) <==> text_set(all.take(i as int)).insert(
                                    tkey(t),
                                ).contains(k) by {
                                lemma_text_set_push(all.take(i as int), t, k);
                            }
                        }
                        assert(self@ =~= found(base, all.take(i + 1)));
                    }
                    i += 1;
                }
                assert(all.take(i as int) =~= all);
            },
        }
        proof {
            if outcome is Ok {
                assert(self@ =~= (ServiceModel {
                    scanning: false,
                    scan_left: !outcome->Ok_0.0,
                    todo: start.todo.union(text_set(texts(outcome->Ok_0.1@)).difference(start.in_flight)),
                    ..start
                }));
            }
        }
    }

    /// The directories are watched again, or could not be.
    pub fn watch_done(&mut self, watched: bool, now: i64)
        requires
            old(self).wf(),
            now <= i64::MAX - RETRY_LAST_MS,
        ensures
            final(self).wf(),
            final(self)@ == rewatched(old(self)@, watched, now),
    {
        self.watching = false;
        self.needs_scan = true;
        if watched {
            self.retry_delay = RETRY_FIRST_MS;
        } else {
            self.retry_watch = Some(now + self.retry_delay);
            self.retry_delay = if self.retry_delay * 2 < RETRY_LAST_MS {
                self.retry_delay * 2
            } else {
                RETRY_LAST_MS
            };
        }
    }

    /// Attachments of a thread were saved: the notices that now have all they
    /// wait for.
    pub fn attachments_saved(&self, thread: &str, state: &SyncState) -> (r: Vec<String>)
        requires
            self.wf(),
            state.wf(),
        ensures
            texts(r@).no_duplicates(),
            forall|k: Parts|
                #[trigger] text_set(texts(r@)).contains(k) <==> self@.subscribed.contains_key(k) && satisfied(
                    state@,
                    self@.subscribed[k],
                    thread@,
                ),
    {
        let v = &self.subscriptions.entries;
        let mut out: Vec<String> = Vec::new();
        let mut i: usize = 0;
        assert(texts(out@) =~= Seq::empty());
        while i < v.len()
            invariant
                self.wf(),
                state.wf(),
                v == self.subscriptions.entries,
                i <= v@.len(),
                texts(out@).no_duplicates(),
                forall|k: Parts|
                    #[trigger] text_set(texts(out@)).contains(k) <==> exists|j: int|
                        0 <= j < i && tkey((#[trigger] v@[j]).0@) == k && satisfied(state@, v@[j].1, thread@),
            decreases v@.len() - i,
        {
            let s = &v[i].1;
            let ghost was = texts(out@);
            let ok = same(&s.thread_id, thread) && all_verified(&s.waiting, state);
            if ok {
                out.push(v[i].0.clone());
                assert(texts(out@) =~= was.push(v@[i as int].0@));
                proof {
                    let fresh = v@[i as int].0@;
                    if was.contains(fresh) {
                        assert(text_set(was).contains(tkey(fresh)));
                        let j = choose|j: int|
                            0 <= j < i && tkey((#[trigger] v@[j]).0@) == tkey(fresh) && satisfied(state@, v@[j].1, thread@);
                        lemma_at(self.subscriptions, j);
                        lemma_at(self.subscriptions, i as int);
                        assert(key_lt::<String>(v@[j].0.key(), v@[i as int].0.key()));
                        lemma_parts_lt_irreflexive(v@[j].0.key());
                    }
                }
            }
            proof {
                assert forall|k: Parts|
                    #[trigger] text_set(texts(out@)).contains(k) <==> exists|j: int|
                        0 <= j < i + 1 && tkey((#[trigger] v@[j]).0@) == k && satisfied(state@, v@[j].1, thread@) by {
                    assert(text_set(was).contains(k) <==> exists|j: int|
                        0 <= j < i && tkey((#[trigger] v@[j]).0@) == k && satisfied(state@, v@[j].1, thread@));
                    if ok {
                        lemma_text_set_push(was, v@[i as int].0@, k);
                        assert(satisfied(state@, v@[i as int].1, thread@));
                    }
                }
            }
            i += 1;
        }
        proof {
            assert forall|k: Parts|
                #[trigger] text_set(texts(out@)).contains(k) <==> self@.subscribed.contains_key(k) && satisfied(
                    state@,
                    self@.subscribed[k],
                    thread@,
                ) by {
                if text_set(texts(out@)).contains(k) {
                    let j = choose|j: int|
                        0 <= j < v@.len() && tkey((#[trigger] v@[j]).0@) == k && satisfied(state@, v@[j].1, thread@);
                    lemma_at(self.subscriptions, j);
                }
                if self@.subscribed.contains_key(k) && satisfied(state@, self@.subscribed[k], thread@) {
                    let j = lemma_found(self.subscriptions, k);
                    assert(tkey(v@[j].0@) == k);
                }
            }
        }
        out
    }
}

/// Everything that a notice of this thread waits for is there.
pub open spec fn satisfied(s: StateModel, sub: Subscription, thread: Text) -> bool {
    sub.thread_id@ == thread && forall|i: int|
        0 <= i < sub.waiting@.len() ==> is_verified(s, (#[trigger] sub.waiting@[i])@)
}

fn all_verified(v: &Vec<WaitingAttachment>, state: &SyncState) -> (r: bool)
    requires
        state.wf(),
    ensures
        r == forall|i: int| 0 <= i < v@.len() ==> is_verified(state@, (#[trigger] v@[i])@),
{
    let mut i: usize = 0;
    while i < v.len()
        invariant
            state.wf(),
            i <= v@.len(),
            forall|j: int| 0 <= j < i ==> is_verified(state@, (#[trigger] v@[j])@),
        decreases v@.len() - i,
    {
        if !v[i].verified(state) {
            assert(!is_verified(state@, v@[i as int]@));
            return false;
        }
        i += 1;
    }
    true
}

pub open spec fn rewatched(m: ServiceModel, watched: bool, now: i64) -> ServiceModel {
    if watched {
        ServiceModel { watching: false, needs_scan: true, retry_delay: RETRY_FIRST_MS, ..m }
    } else {
        ServiceModel {
            watching: false,
            needs_scan: true,
            retry_watch: Some((now + m.retry_delay) as i64),
            retry_delay: if m.retry_delay * 2 < RETRY_LAST_MS {
                (m.retry_delay * 2) as i64
            } else {
                RETRY_LAST_MS
            },
            ..m
        }
    }
}

/// The time until `t`, none if it has passed.
pub open spec fn gap(t: i64, now: i64) -> int {
    if t <= now {
        0
    } else if t - now > i64::MAX {
        i64::MAX as int
    } else {
        t - now
    }
}

fn wait_for(t: i64, now: i64) -> (r: u64)
    ensures
        r == gap(t, now),
{
    if t <= now {
        return 0;
    }
    if now < 0 && t > i64::MAX + now {
        return i64::MAX as u64;
    }
    (t - now) as u64
}

/// The keys of the first `n` entries.
pub open spec fn first_keys(s: Seq<(String, ())>, n: int) -> Set<Parts> {
    Set::new(|k: Parts| exists|j: int| 0 <= j < n && tkey((#[trigger] s[j]).0@) == k)
}

/// Some notices whose time has come were woken.
pub open spec fn dropped(m: ServiceModel, gone: Set<Parts>) -> ServiceModel {
    ServiceModel {
        waiting: m.waiting.remove_keys(gone),
        todo: m.todo.union(gone.difference(m.in_flight)),
        ..m
    }
}

/// Notices were found that are not being looked at.
pub open spec fn found(m: ServiceModel, keys: Seq<Text>) -> ServiceModel {
    ServiceModel { todo: m.todo.union(text_set(keys).difference(m.in_flight)), ..m }
}

proof fn lemma_text_set_push(s: Seq<Text>, t: Text, k: Parts)
    ensures
        text_set(s.push(t)).contains(k) <==> text_set(s).contains(k) || k == tkey(t),
{
    let p = s.push(t);
    if text_set(p).contains(k) {
        let i = choose|i: int| 0 <= i < p.len() && seq![#[trigger] p[i]] == k;
        if i < s.len() {
            assert(s[i] == p[i]);
        }
    }
    if text_set(s).contains(k) {
        let i = choose|i: int| 0 <= i < s.len() && seq![#[trigger] s[i]] == k;
        assert(p[i] == s[i]);
    }
    if k == tkey(t) {
        assert(p[s.len() as int] == t);
    }
}

/// The first key of a set.
pub open spec fn is_first(s: Set<Parts>, k: Parts) -> bool {
    s.contains(k) && forall|o: Parts| #[trigger] s.contains(o) ==> o == k || parts_lt(k, o)
}

/// Take the first key of a set.
fn pop_first(set: &mut OrderedSet<String>) -> (r: Option<String>)
    requires
        old(set).wf(),
    ensures
        final(set).wf(),
        match r {
            Some(k) => is_first(old(set)@, tkey(k@)) && final(set)@ == old(set)@.remove(tkey(k@)),
            None => old(set)@ == Set::<Parts>::empty() && final(set)@ == old(set)@,
        },
{
    if set.map.entries.len() == 0 {
        proof {
            assert(set@ =~= Set::<Parts>::empty()) by {
                assert forall|k: Parts| !set@.contains(k) by {
                    if set@.contains(k) {
                        let j = lemma_found(set.map, k);
                    }
                }
            }
        }
        return None;
    }
    let ghost was = set@;
    proof {
        lemma_at(set.map, 0);
        let first = set.map.entries@[0].0.key();
        assert forall|o: Parts| #[trigger] was.contains(o) implies o == first || parts_lt(first, o) by {
            let j = lemma_found(set.map, o);
        }
    }
    let (k, _) = set.map.remove_at(0);
    assert(set@ =~= was.remove(tkey(k@)));
    Some(k)
}

// ---------------------------------------------------------------------- laws

/// A hint is never lost: the notice is looked at, now or, if it is being
/// looked at, right afterwards.
pub proof fn a_hint_is_not_lost(m: ServiceModel, keys: Set<Parts>, rescan: bool, rewatch: bool, now: i64, k: Parts)
    requires
        keys.contains(k),
    ensures
        ({
            let after = absorbed(m, keys, rescan, rewatch, now);
            ||| after.todo.contains(k)
            ||| after.in_flight.contains(k) && ended(after, k).todo.contains(k)
        }),
{
}

/// A notice that waits is looked at once its time has come.
pub proof fn a_deadline_is_kept(m: ServiceModel, now: i64, k: Parts)
    requires
        m.waiting.contains_key(k),
        m.waiting[k] <= now,
        !m.in_flight.contains(k),
    ensures
        elapsed(m, now).todo.contains(k),
        !elapsed(m, now).waiting.contains_key(k),
{
}

/// Failed attempts to watch are repeated ever less often, but at least once a
/// minute, and success starts anew.
pub proof fn watching_is_retried_within_a_minute(m: ServiceModel, now: i64)
    requires
        RETRY_FIRST_MS <= m.retry_delay <= RETRY_LAST_MS,
        now <= i64::MAX - RETRY_LAST_MS,
    ensures
        rewatched(m, false, now).retry_watch matches Some(t) && t - now <= RETRY_LAST_MS,
        m.retry_delay <= rewatched(m, false, now).retry_delay <= RETRY_LAST_MS,
        rewatched(m, true, now).retry_delay == RETRY_FIRST_MS,
{
}

/// A file is a notice exactly if its name is a hash with `.json` behind it.
pub proof fn a_notice_is_a_hash_with_an_ending(name: Text, k: Text)
    ensures
        file_key(name) == Some(k) <==> name == k + ".json"@ && is_hash(k),
{
    let e = ".json"@;
    if name == k + e {
        assert(name.take(name.len() - e.len()) =~= k);
        assert(name.skip(name.len() - e.len()) =~= e);
    }
    if file_key(name) == Some(k) {
        assert(name =~= name.take(name.len() - e.len()) + name.skip(name.len() - e.len()));
    }
}

/// Taking up hints stirs the hinted notices alone. They wait no longer, a scan
/// follows if one was asked for, and so does watching anew.
pub proof fn hints_stir_their_notices_alone(
    m: ServiceModel,
    keys: Set<Parts>,
    rescan: bool,
    rewatch: bool,
    now: i64,
    k: Parts,
)
    ensures
        ({
            let after = absorbed(m, keys, rescan, rewatch, now);
            &&& keys.contains(k) ==> !after.waiting.contains_key(k)
            &&& !keys.contains(k) ==> {
                &&& after.todo.contains(k) == m.todo.contains(k)
                &&& after.changed.contains(k) == m.changed.contains(k)
                &&& after.waiting.contains_key(k) == m.waiting.contains_key(k)
                &&& m.waiting.contains_key(k) ==> after.waiting[k] == m.waiting[k]
            }
            &&& after.in_flight == m.in_flight && after.recover == m.recover && after.jobs == m.jobs
            &&& m.in_flight.contains(k) ==> after.todo.contains(k) == m.todo.contains(k)
            &&& after.needs_scan == (rescan || m.needs_scan)
            &&& rewatch ==> after.retry_watch == Some(now)
            &&& !rewatch ==> after.retry_watch == m.retry_watch
        }),
{
}

/// A notice whose time has not come keeps waiting, and is not looked at on
/// that account.
pub proof fn an_early_notice_keeps_waiting(m: ServiceModel, now: i64, k: Parts)
    ensures
        m.waiting.contains_key(k) && now < m.waiting[k] ==> elapsed(m, now).waiting.contains_key(k) && elapsed(
            m,
            now,
        ).waiting[k] == m.waiting[k] && elapsed(m, now).todo.contains(k) == m.todo.contains(k),
        !m.waiting.contains_key(k) ==> elapsed(m, now).todo.contains(k) == m.todo.contains(k),
        elapsed(m, now).jobs == m.jobs,
        elapsed(m, now).in_flight == m.in_flight,
{
}

/// A look at a notice takes it off the list and out of waiting, and takes one
/// worker; its end frees the worker. The notice is on the list again exactly
/// if it changed meanwhile or was put there. Nothing else is touched.
pub proof fn a_look_takes_one_worker(m: ServiceModel, k: Parts, other: Parts)
    ensures
        ({
            let a = begun(m, k);
            &&& a.in_flight.contains(k) && !a.todo.contains(k) && !a.waiting.contains_key(k)
                && !a.subscribed.contains_key(k)
            &&& a.jobs == m.jobs + 1
            &&& other != k ==> {
                &&& a.in_flight.contains(other) == m.in_flight.contains(other)
                &&& a.todo.contains(other) == m.todo.contains(other)
                &&& a.waiting.contains_key(other) == m.waiting.contains_key(other)
                &&& a.subscribed.contains_key(other) == m.subscribed.contains_key(other)
            }
        }),
        m.jobs > 0 ==> {
            let e = ended(m, k);
            &&& !e.in_flight.contains(k) && !e.changed.contains(k)
            &&& e.jobs + 1 == m.jobs
            &&& e.todo.contains(k) <==> m.todo.contains(k) || m.changed.contains(k)
            &&& other != k ==> {
                &&& e.in_flight.contains(other) == m.in_flight.contains(other)
                &&& e.todo.contains(other) == m.todo.contains(other)
                &&& e.changed.contains(other) == m.changed.contains(other)
            }
            &&& e.waiting == m.waiting && e.recover == m.recover
        },
        !m.changed.contains(k) && !m.in_flight.contains(k) && m.todo.contains(k) ==> !ended(begun(m, k), k).todo.contains(
            k,
        ) && ended(begun(m, k), k).jobs == m.jobs,
{
}

/// A hint is kept by its key while there are fewer than 256, and beyond that a
/// scan takes its place; what was hinted at before stays.
pub proof fn hints_are_kept_or_scanned_for(m: HintsModel, k: Parts, other: Parts, rewatch: bool)
    ensures
        m.keys.len() < 256 ==> with_key(m, k).keys.contains(k) && with_key(m, k).rescan == m.rescan,
        m.keys.len() >= 256 ==> with_key(m, k).rescan && with_key(m, k).keys == m.keys,
        m.keys.contains(other) ==> with_key(m, k).keys.contains(other),
        other != k ==> with_key(m, k).keys.contains(other) == m.keys.contains(other),
        with_key(m, k).rewatch == m.rewatch,
        with_scan(m, rewatch).rescan,
        with_scan(m, rewatch).rewatch == (m.rewatch || rewatch),
        with_scan(m, rewatch).keys == m.keys,
{
}

/// A watcher that failed is set up anew and everything is scanned; a mere
/// access means nothing; a watcher that lost events makes a scan.
pub proof fn a_failed_watcher_is_set_up_anew(m: HintsModel, roots: Seq<PathName>, event: WatchEvent)
    ensures
        event.failed ==> noted(m, roots, event).rescan && noted(m, roots, event).rewatch && noted(m, roots, event).keys
            == m.keys,
        !event.failed && event.access ==> noted(m, roots, event) == m,
        !event.failed && !event.access && event.rescan ==> noted(m, roots, event).rescan && noted(
            m,
            roots,
            event,
        ).rewatch == m.rewatch && noted(m, roots, event).keys == m.keys,
        !event.failed && !event.access && !event.rescan && event.paths@.len() == 0 ==> noted(m, roots, event) == m,
{
}

/// A directory that was removed or renamed is watched anew. A path outside the
/// watched directories means nothing.
pub proof fn a_moved_directory_is_watched_anew(m: HintsModel, roots: Seq<PathName>, paths: Seq<PathName>, moved: bool, i: int)
    requires
        0 <= i < paths.len(),
    ensures
        moved && is_watched(roots, paths[i]@) ==> paths_noted(m, roots, paths, moved).rescan && paths_noted(
            m,
            roots,
            paths,
            moved,
        ).rewatch,
        (forall|j: int|
            0 <= j < paths.len() ==> !parent_watched(roots, (#[trigger] paths[j])@) && !is_watched(roots, paths[j]@))
            ==> paths_noted(m, roots, paths, moved) == m,
    decreases paths.len(),
{
    let head = paths.drop_last();
    assert(forall|j: int| 0 <= j < head.len() ==> head[j] == #[trigger] paths[j]);
    assert(paths[paths.len() - 1] == paths.last());
    if head.len() > 0 {
        a_moved_directory_is_watched_anew(
            m,
            roots,
            head,
            moved,
            if i < head.len() {
                i
            } else {
                0
            },
        );
    } else {
        assert(paths_noted(m, roots, head, moved) == m);
    }
}

/// An attempt to watch the directories that failed is repeated after the delay,
/// which doubles up to a minute; one that succeeded leaves none. Either way a
/// scan follows.
pub proof fn the_delay_doubles_up_to_a_minute(m: ServiceModel, now: i64)
    requires
        2000 <= m.retry_delay <= 60000,
        now <= i64::MAX - 60000,
    ensures
        ({
            let bad = rewatched(m, false, now);
            let good = rewatched(m, true, now);
            &&& bad.needs_scan && good.needs_scan && !bad.watching && !good.watching
            &&& bad.retry_watch matches Some(t) && t - now == m.retry_delay
            &&& m.retry_delay <= 30000 ==> bad.retry_delay == 2 * m.retry_delay
            &&& m.retry_delay >= 30000 ==> bad.retry_delay == 60000
            &&& good.retry_watch == m.retry_watch
            &&& good.retry_delay == 2000
        }),
{
}

/// A notice whose attachments were saved misses nothing any more.
pub proof fn a_satisfied_notice_misses_nothing(s: StateModel, sub: Subscription, thread: Text, n: NoticeModel)
    requires
        n.waiting == waiting_models(sub.waiting@),
    ensures
        satisfied(s, sub, thread) ==> sub.thread_id@ == thread && !is_missing(s, n),
        sub.thread_id@ == thread && !is_missing(s, n) ==> satisfied(s, sub, thread),
{
    if !is_missing(s, n) {
        assert forall|i: int| 0 <= i < sub.waiting@.len() implies is_verified(s, (#[trigger] sub.waiting@[i])@) by {
            assert(n.waiting[i] == sub.waiting@[i]@);
        }
    }
}

/// A file of some directory that is a notice.
pub open spec fn lies_in(dirs: Seq<Seq<(bool, Text)>>, k: Text) -> bool {
    exists|i: int, j: int|
        0 <= i < dirs.len() && 0 <= j < dirs[i].len() && (#[trigger] dirs[i][j]) == (true, k + ".json"@)
}

/// A scan misses no notice and makes none up: what lies in the directories was
/// found or lies in what is left, and a scan that is over has left nothing.
pub proof fn a_scan_misses_no_notice(dirs: Seq<Seq<(bool, Text)>>, n: nat, k: Text)
    requires
        is_hash(k),
    ensures
        ({
            let (left, found, over) = scanned(dirs, n);
            &&& lies_in(dirs, k) <==> found.contains(k) || lies_in(left, k)
            &&& over ==> left.len() == 0
        }),
    decreases n,
{
    let (left, found, over) = scanned(dirs, n);
    if n > 0 && dirs.len() > 0 {
        let head = dirs.drop_last();
        assert(forall|i: int| 0 <= i < head.len() ==> head[i] == #[trigger] dirs[i]);
        let z = dirs.len() - 1;
        if dirs.last().len() == 0 {
            a_scan_misses_no_notice(head, (n - 1) as nat, k);
            if lies_in(dirs, k) {
                let (i, j) = choose|i: int, j: int|
                    0 <= i < dirs.len() && 0 <= j < dirs[i].len() && (#[trigger] dirs[i][j]) == (true, k + ".json"@);
                assert(head[i][j] == (true, k + ".json"@));
            }
            if lies_in(head, k) {
                let (i, j) = choose|i: int, j: int|
                    0 <= i < head.len() && 0 <= j < head[i].len() && (#[trigger] head[i][j]) == (true, k + ".json"@);
                assert(dirs[i][j] == (true, k + ".json"@));
            }
        } else {
            let e = dirs.last()[0];
            let next = head.push(dirs.last().drop_first());
            a_scan_misses_no_notice(next, (n - 1) as nat, k);
            let rest = scanned(next, (n - 1) as nat).1;
            a_notice_is_a_hash_with_an_ending(e.1, k);
            let first = entry_key(e);
            assert(found == first + rest);
            if found.contains(k) {
                let p = choose|p: int| 0 <= p < found.len() && found[p] == k;
                if p < first.len() {
                    assert(first[p] == k);
                    assert(e == (true, k + ".json"@));
                    assert(dirs[z][0] == e);
                } else {
                    assert(rest[p - first.len()] == k);
                }
            }
            if rest.contains(k) {
                let p = choose|p: int| 0 <= p < rest.len() && rest[p] == k;
                assert(found[p + first.len()] == k);
            }
            if lies_in(next, k) {
                let (i, j) = choose|i: int, j: int|
                    0 <= i < next.len() && 0 <= j < next[i].len() && (#[trigger] next[i][j]) == (true, k + ".json"@);
                if i < z {
                    assert(dirs[i][j] == (true, k + ".json"@));
                } else {
                    assert(dirs[i][j + 1] == (true, k + ".json"@));
                }
            }
            if lies_in(dirs, k) {
                let (i, j) = choose|i: int, j: int|
                    0 <= i < dirs.len() && 0 <= j < dirs[i].len() && (#[trigger] dirs[i][j]) == (true, k + ".json"@);
                if i < z {
                    assert(next[i][j] == (true, k + ".json"@));
                } else if j > 0 {
                    assert(next[i][j - 1] == (true, k + ".json"@));
                } else {
                    assert(e == (true, k + ".json"@));
                    assert(first[0] == k);
                    assert(found[0] == k);
                }
            }
        }
    }
}

} // verus!
