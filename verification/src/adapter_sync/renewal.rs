//! Renewing the watches: requested directories are looked up again where that
//! is due, and subscriptions follow what was found.
use vstd::prelude::*;
use crate::adapter_sync::subscriptions::{wanted_wf, Wanted, WantedModel};
use crate::adapter_sync::watch::{after_failed, after_found, directory_wf, due, path_views, Directory, DirectoryIdentity};
use crate::adapter_sync::watch::{DirectoryModel, Resolved, Source, WatchSet};
use crate::order::{ascending, Key, OrderedMap, OrderedSet, Parts};
use crate::path::PathName;
use crate::text::{texts, Text};

verus! {

// --------------------------------------------------------------- directories

pub enum ResolvedModel {
    Found(Parts, DirectoryIdentity),
    Failed(Text),
}

impl View for Resolved {
    type V = ResolvedModel;

    open spec fn view(&self) -> ResolvedModel {
        match self {
            Resolved::Found(path, id) => ResolvedModel::Found(path@, *id),
            Resolved::Failed(error) => ResolvedModel::Failed(error@),
        }
    }
}

pub open spec fn requested(s: Seq<(PathName, Directory)>) -> Seq<(Parts, DirectoryModel)> {
    s.map_values(|e: (PathName, Directory)| (e.0@, e.1@))
}

pub open spec fn resolved_models(s: Seq<Resolved>) -> Seq<ResolvedModel> {
    s.map_values(|r: Resolved| r@)
}

/// The directories that are to be looked up, in order.
pub open spec fn due_in(s: Seq<(Parts, DirectoryModel)>) -> Seq<Parts>
    decreases s.len(),
{
    if s.len() == 0 {
        Seq::empty()
    } else if due(s.last().1) {
        due_in(s.drop_last()).push(s.last().0)
    } else {
        due_in(s.drop_last())
    }
}

/// A directory after it was looked up, whether what it feeds changed, and the
/// error that is new.
pub open spec fn settled(d: DirectoryModel, o: ResolvedModel) -> (DirectoryModel, bool, Option<Text>) {
    match o {
        ResolvedModel::Found(path, id) => (
            after_found(d, path, id),
            d.initialized && d.current != Some((path, id)),
            None,
        ),
        ResolvedModel::Failed(error) => (
            after_failed(d, error),
            d.current is Some,
            if d.last_error != Some(error) {
                Some(error)
            } else {
                None
            },
        ),
    }
}

#[verifier::ext_equal]
pub struct LookModel {
    pub directories: Seq<(Parts, DirectoryModel)>,
    /// What the directories feed that changed.
    pub changed: Set<Parts>,
    /// The errors that are new.
    pub reports: Seq<Text>,
}

/// The directories after those that were due are looked up, with these
/// results one after the other.
pub open spec fn looked_up(s: Seq<(Parts, DirectoryModel)>, outcomes: Seq<ResolvedModel>) -> LookModel
    decreases s.len(),
{
    if s.len() == 0 {
        LookModel { directories: Seq::empty(), changed: Set::empty(), reports: Seq::empty() }
    } else {
        let rest = looked_up(s.drop_last(), outcomes);
        let (path, d) = s.last();
        if !due(d) {
            LookModel { directories: rest.directories.push((path, d)), ..rest }
        } else {
            let (next, changed, report) = settled(d, outcomes[due_in(s.drop_last()).len() as int]);
            LookModel {
                directories: rest.directories.push((path, next)),
                changed: if changed {
                    rest.changed.insert(d.source)
                } else {
                    rest.changed
                },
                reports: match report {
                    Some(e) => rest.reports.push(e),
                    None => rest.reports,
                },
            }
        }
    }
}

proof fn lemma_due_grows(s: Seq<(Parts, DirectoryModel)>, n: int)
    requires
        0 <= n <= s.len(),
    ensures
        due_in(s.take(n)).len() <= due_in(s).len(),
    decreases s.len() - n,
{
    if n == s.len() {
        assert(s.take(n) =~= s);
    } else {
        assert(s.take(n + 1).drop_last() =~= s.take(n));
        lemma_due_grows(s, n + 1);
    }
}

fn copy_resolved(o: &Resolved) -> (r: Resolved)
    ensures
        r@ == o@,
{
    match o {
        Resolved::Found(path, id) => Resolved::Found(path.copy(), *id),
        Resolved::Failed(error) => Resolved::Failed(error.clone()),
    }
}

/// What looking the directories up has brought.
pub struct LookedUp {
    pub changed: OrderedSet<Source>,
    pub reports: Vec<String>,
}

impl WatchSet {
    /// The directories that are to be looked up.
    pub fn due_directories(&self) -> (r: Vec<PathName>)
        requires
            self.wf(),
        ensures
            path_views(r@) == due_in(requested(self.directories.entries@)),
    {
        let v = &self.directories.entries;
        let ghost all = requested(v@);
        let mut out: Vec<PathName> = Vec::new();
        let mut i: usize = 0;
        assert(all.take(0) =~= Seq::empty());
        assert(path_views(out@) =~= Seq::empty());
        while i < v.len()
            invariant
                all == requested(v@),
                i <= v@.len(),
                path_views(out@) == due_in(all.take(i as int)),
            decreases v@.len() - i,
        {
            let ghost was = out@;
            assert(all.take(i + 1).drop_last() =~= all.take(i as int));
            assert(all.take(i + 1).last() == (v@[i as int].0@, v@[i as int].1@));
            if v[i].1.is_due() {
                out.push(v[i].0.copy());
                assert(path_views(out@) =~= path_views(was).push(v@[i as int].0@));
            }
            i += 1;
        }
        assert(all.take(i as int) =~= all);
        out
    }

    /// The directories that were due were looked up, with these results.
    pub fn look_up(&mut self, outcomes: &Vec<Resolved>) -> (r: LookedUp)
        requires
            old(self).wf(),
            outcomes@.len() == due_in(requested(old(self).directories.entries@)).len(),
        ensures
            final(self).wf(),
            final(self).attached == old(self).attached,
            final(self).attach_failures == old(self).attach_failures,
            r.changed.wf(),
            ({
                let m = looked_up(requested(old(self).directories.entries@), resolved_models(outcomes@));
                &&& requested(final(self).directories.entries@) == m.directories
                &&& r.changed@ == m.changed
                &&& texts(r.reports@) == m.reports
            }),
    {
        let ghost s0 = self.directories.entries@;
        let ghost all = requested(s0);
        let ghost results = resolved_models(outcomes@);
        let mut done: Vec<(PathName, Directory)> = Vec::new();
        let mut changed: OrderedSet<Source> = OrderedSet::new();
        let mut reports: Vec<String> = Vec::new();
        let mut used: usize = 0;
        let ghost mut n: int = 0;
        proof {
            assert(s0.skip(0) =~= s0);
            assert(all.take(0) =~= Seq::empty());
            assert(requested(done@) =~= Seq::empty());
            assert(texts(reports@) =~= Seq::empty());
            assert forall|i: int| 0 <= i < s0.len() implies directory_wf((#[trigger] s0[i]).1@) by {
                crate::order::lemma_entry(s0, i);
                assert(self.directories@.contains_key(s0[i].0.key()));
            }
        }
        let total: usize = outcomes.len();
        while self.directories.entries.len() > 0
            invariant
                0 <= n <= s0.len(),
                self.directories.entries@ == s0.skip(n),
                self.attached == old(self).attached,
                self.attach_failures == old(self).attach_failures,
                self.attached.wf(),
                self.attach_failures.wf(),
                ascending(s0),
                forall|i: int| 0 <= i < s0.len() ==> directory_wf((#[trigger] s0[i]).1@),
                all == requested(s0),
                results == resolved_models(outcomes@),
                outcomes@.len() == due_in(all).len(),
                outcomes@.len() == total,
                used == due_in(all.take(n)).len(),
                done@.len() == n,
                forall|i: int| 0 <= i < n ==> (#[trigger] done@[i]).0@ == s0[i].0@ && directory_wf(done@[i].1@),
                requested(done@) == looked_up(all.take(n), results).directories,
                changed.wf(),
                changed@ == looked_up(all.take(n), results).changed,
                texts(reports@) == looked_up(all.take(n), results).reports,
            decreases s0.len() - n,
        {
            let ghost before = done@;
            let ghost told = reports@;
            let (path, mut d) = self.directories.entries.remove(0);
            let ghost d0 = d@;
            proof {
                assert(path@ == s0[n].0@ && d@ == s0[n].1@);
                assert(s0.skip(n).remove(0) =~= s0.skip(n + 1));
                assert(all.take(n + 1).drop_last() =~= all.take(n));
                assert(all.take(n + 1).last() == (path@, d0));
                lemma_due_grows(all, n + 1);
            }
            if d.is_due() {
                let outcome = copy_resolved(&outcomes[used]);
                let noted = d.settle(outcome);
                assert(results[used as int] == outcomes@[used as int]@);
                if noted.changed {
                    changed.insert(d.source.copy_key());
                }
                if noted.report {
                    if let Some(error) = &d.last_error {
                        reports.push(error.clone());
                        assert(texts(reports@) =~= texts(told).push(error@));
                    }
                }
                used += 1;
            }
            let ghost key = path@;
            let ghost next = d@;
            done.push((path, d));
            proof {
                assert(requested(done@) =~= requested(before).push((key, next)));
                n = n + 1;
            }
        }
        proof {
            assert(n == s0.len());
            assert(all.take(n) =~= all);
            assert forall|i: int, j: int| 0 <= i < j < done@.len() implies crate::order::key_lt::<PathName>(
                (#[trigger] done@[i]).0.key(),
                (#[trigger] done@[j]).0.key(),
            ) by {
                assert(crate::order::key_lt::<PathName>(s0[i].0.key(), s0[j].0.key()));
            }
        }
        self.directories = OrderedMap { entries: done };
        proof {
            assert forall|k: Parts| #[trigger] self.directories@.contains_key(k) implies directory_wf(
                self.directories@[k]@,
            ) by {
                let i = choose|i: int| crate::order::keyed(self.directories.entries@, i, k);
                crate::order::lemma_entry(self.directories.entries@, i);
            }
        }
        LookedUp { changed, reports }
    }
}

// ------------------------------------------------------------- subscriptions

pub open spec fn wanted_entries(s: Seq<(PathName, Wanted)>) -> Seq<(Parts, WantedModel)> {
    s.map_values(|e: (PathName, Wanted)| (e.0@, e.1@))
}

/// No attempt is made: the subscription stands, or was given up.
pub open spec fn is_settled(
    attached: Map<Parts, DirectoryIdentity>,
    failures: Map<Parts, u8>,
    path: Parts,
    identity: DirectoryIdentity,
) -> bool {
    (attached.contains_key(path) && attached[path] == identity) || (failures.contains_key(path) && failures[path] >= 3)
}

#[verifier::ext_equal]
pub struct AttachModel {
    pub attached: Map<Parts, DirectoryIdentity>,
    pub failures: Map<Parts, u8>,
    pub changed: Set<Parts>,
    pub reports: Seq<Parts>,
}

/// The subscriptions after one attempt each, with these results. One that
/// stands at last may have missed something; the first failure is reported.
pub open spec fn subscribed(
    attached: Map<Parts, DirectoryIdentity>,
    failures: Map<Parts, u8>,
    s: Seq<(Parts, WantedModel)>,
    results: Seq<bool>,
) -> AttachModel
    decreases s.len(),
{
    if s.len() == 0 {
        AttachModel { attached, failures, changed: Set::empty(), reports: Seq::empty() }
    } else {
        let rest = subscribed(attached, failures, s.drop_last(), results);
        let (path, w) = s.last();
        let failed = rest.failures.contains_key(path);
        if is_settled(rest.attached, rest.failures, path, w.identity) {
            rest
        } else if results[s.len() - 1] {
            AttachModel {
                attached: rest.attached.insert(path, w.identity),
                failures: rest.failures.remove(path),
                changed: if failed {
                    rest.changed.union(w.sources)
                } else {
                    rest.changed
                },
                ..rest
            }
        } else {
            AttachModel {
                failures: rest.failures.insert(
                    path,
                    (if failed {
                        rest.failures[path] + 1
                    } else {
                        1
                    }) as u8,
                ),
                reports: if failed {
                    rest.reports
                } else {
                    rest.reports.push(path)
                },
                ..rest
            }
        }
    }
}

/// What the attempts have brought.
pub struct Subscribed {
    pub changed: OrderedSet<Source>,
    pub reports: Vec<PathName>,
}

impl WatchSet {
    /// Subscribing was tried wherever it was to be tried. The results are those
    /// of the wanted directories in order; that of a directory at which no
    /// attempt was to be made does not count.
    pub fn subscribe(&mut self, wanted: &OrderedMap<PathName, Wanted>, results: &Vec<bool>) -> (r: Subscribed)
        requires
            old(self).wf(),
            wanted_wf(*wanted),
            results@.len() == wanted.entries@.len(),
        ensures
            final(self).wf(),
            final(self).directories == old(self).directories,
            r.changed.wf(),
            ({
                let m = subscribed(
                    old(self).attached@,
                    old(self).attach_failures@,
                    wanted_entries(wanted.entries@),
                    results@,
                );
                &&& final(self).attached@ == m.attached
                &&& final(self).attach_failures@ == m.failures
                &&& r.changed@ == m.changed
                &&& path_views(r.reports@) == m.reports
            }),
    {
        let v = &wanted.entries;
        let ghost all = wanted_entries(v@);
        let ghost a0 = self.attached@;
        let ghost f0 = self.attach_failures@;
        let mut changed: OrderedSet<Source> = OrderedSet::new();
        let mut reports: Vec<PathName> = Vec::new();
        let mut i: usize = 0;
        proof {
            assert(all.take(0) =~= Seq::empty());
            assert(path_views(reports@) =~= Seq::empty());
        }
        while i < v.len()
            invariant
                self.wf(),
                self.directories == old(self).directories,
                wanted_wf(*wanted),
                v == wanted.entries,
                all == wanted_entries(v@),
                results@.len() == v@.len(),
                i <= v@.len(),
                changed.wf(),
                ({
                    let m = subscribed(a0, f0, all.take(i as int), results@);
                    &&& self.attached@ == m.attached
                    &&& self.attach_failures@ == m.failures
                    &&& changed@ == m.changed
                    &&& path_views(reports@) == m.reports
                }),
            decreases v@.len() - i,
        {
            let ghost told = reports@;
            let w = &v[i].1;
            proof {
                assert(all.take(i + 1).drop_last() =~= all.take(i as int));
                assert(all.take(i + 1).last() == (v@[i as int].0@, w@));
                crate::order::lemma_entry(v@, i as int);
                assert(wanted@.contains_key(v@[i as int].0.key()));
                assert(w.sources.wf());
            }
            if self.should_attach(&v[i].0, w.identity) {
                let noted = self.attach_result(v[i].0.copy(), w.identity, results[i]);
                if noted.changed {
                    changed.add_all(&w.sources);
                }
                if noted.report {
                    reports.push(v[i].0.copy());
                    assert(path_views(reports@) =~= path_views(told).push(v@[i as int].0@));
                }
            }
            i += 1;
        }
        assert(all.take(i as int) =~= all);
        Subscribed { changed, reports }
    }
}

// ---------------------------------------------------------------------- laws

/// A directory that is not due stays as it is.
pub proof fn only_due_directories_change(s: Seq<(Parts, DirectoryModel)>, outcomes: Seq<ResolvedModel>, i: int)
    requires
        0 <= i < s.len(),
    ensures
        looked_up(s, outcomes).directories.len() == s.len(),
        looked_up(s, outcomes).directories[i].0 == s[i].0,
        !due(s[i].1) ==> looked_up(s, outcomes).directories[i] == s[i],
    decreases s.len(),
{
    if s.len() > 1 {
        only_due_directories_change(s.drop_last(), outcomes, if i < s.len() - 1 {
            i
        } else {
            0
        });
    } else {
        assert(looked_up(s.drop_last(), outcomes).directories.len() == 0);
    }
    if i < s.len() - 1 {
        assert(s.drop_last()[i] == s[i]);
    }
}

/// Whatever a directory that was lost or replaced feeds is made anew.
pub proof fn a_lost_directory_is_announced(s: Seq<(Parts, DirectoryModel)>, outcomes: Seq<ResolvedModel>, i: int)
    requires
        0 <= i < s.len(),
        s[i].1.initialized,
        s[i].1.current is Some,
        looked_up(s, outcomes).directories[i].1.current != s[i].1.current,
    ensures
        looked_up(s, outcomes).changed.contains(s[i].1.source),
    decreases s.len(),
{
    only_due_directories_change(s, outcomes, i);
    if i < s.len() - 1 {
        only_due_directories_change(s.drop_last(), outcomes, i);
        assert(s.drop_last()[i] == s[i]);
        assert(looked_up(s, outcomes).directories[i] == looked_up(s.drop_last(), outcomes).directories[i]);
        a_lost_directory_is_announced(s.drop_last(), outcomes, i);
    } else if s.len() > 1 {
        only_due_directories_change(s.drop_last(), outcomes, 0);
    }
}

/// Every directory that is due is looked up, and no other.
pub proof fn every_due_directory_is_looked_up(s: Seq<(Parts, DirectoryModel)>, i: int, k: Parts)
    ensures
        0 <= i < s.len() && (s[i].1.recheck || (s[i].1.current is None && s[i].1.failures < 3)) ==> due_in(s).contains(
            s[i].0,
        ),
        due_in(s).contains(k) ==> exists|j: int|
            0 <= j < s.len() && (#[trigger] s[j]).0 == k && (s[j].1.recheck || (s[j].1.current is None && s[j].1.failures
                < 3)),
    decreases s.len(),
{
    if s.len() > 0 {
        let head = s.drop_last();
        let rest = due_in(head);
        let out = due_in(s);
        every_due_directory_is_looked_up(head, i, k);
        assert(s[s.len() - 1] == s.last());
        assert(forall|j: int| 0 <= j < head.len() ==> head[j] == #[trigger] s[j]);
        if 0 <= i < s.len() && due(s[i].1) {
            if i < head.len() {
                let j = choose|j: int| 0 <= j < rest.len() && rest[j] == s[i].0;
                assert(out[j] == s[i].0);
            } else {
                assert(out[rest.len() as int] == s[i].0);
            }
        }
        if out.contains(k) {
            let j = choose|j: int| 0 <= j < out.len() && out[j] == k;
            if j < rest.len() {
                assert(rest[j] == k);
                assert(rest.contains(k));
                let x = choose|x: int|
                    0 <= x < head.len() && (#[trigger] head[x]).0 == k && (head[x].1.recheck || (head[x].1.current is None
                        && head[x].1.failures < 3));
                assert(s[x] == head[x]);
            }
        }
    }
}

/// What a directory feeds changed if it was found elsewhere than before, or was
/// lost; the first look at it is no change. Each error is told once.
pub proof fn a_moved_directory_is_a_change(d: DirectoryModel, path: Parts, id: DirectoryIdentity, error: Text)
    ensures
        settled(d, ResolvedModel::Found(path, id)).0.current == Some((path, id)),
        d.initialized && d.current == Some((path, id)) ==> !settled(d, ResolvedModel::Found(path, id)).1,
        d.initialized && d.current != Some((path, id)) ==> settled(d, ResolvedModel::Found(path, id)).1,
        !d.initialized ==> !settled(d, ResolvedModel::Found(path, id)).1,
        settled(d, ResolvedModel::Found(path, id)).2 is None,
        settled(d, ResolvedModel::Failed(error)).0.current is None,
        settled(d, ResolvedModel::Failed(error)).1 <==> d.current is Some,
        d.last_error == Some(error) ==> settled(d, ResolvedModel::Failed(error)).2 is None,
        d.last_error != Some(error) ==> settled(d, ResolvedModel::Failed(error)).2 == Some(error),
        settled(settled(d, ResolvedModel::Failed(error)).0, ResolvedModel::Failed(error)).2 is None,
{
}

/// A directory that is due becomes what looking it up gave.
pub proof fn the_result_of_a_look_is_kept(
    s: Seq<(Parts, DirectoryModel)>,
    outcomes: Seq<ResolvedModel>,
    i: int,
    path: Parts,
    id: DirectoryIdentity,
    error: Text,
)
    requires
        0 <= i < s.len(),
        due(s[i].1),
    ensures
        outcomes[due_in(s.take(i)).len() as int] == ResolvedModel::Found(path, id) ==> looked_up(
            s,
            outcomes,
        ).directories[i].1.current == Some((path, id)),
        outcomes[due_in(s.take(i)).len() as int] == ResolvedModel::Failed(error) ==> looked_up(
            s,
            outcomes,
        ).directories[i].1.current is None && looked_up(s, outcomes).directories[i].1.last_error == Some(error),
    decreases s.len(),
{
    let head = s.drop_last();
    assert(forall|j: int| 0 <= j < head.len() ==> head[j] == #[trigger] s[j]);
    assert(s[s.len() - 1] == s.last());
    if i < head.len() {
        the_result_of_a_look_is_kept(head, outcomes, i, path, id, error);
        only_due_directories_change(head, outcomes, i);
        assert(head.take(i) =~= s.take(i));
        assert(looked_up(s, outcomes).directories[i] == looked_up(head, outcomes).directories[i]);
    } else {
        assert(s.take(i) =~= head);
        if head.len() > 0 {
            only_due_directories_change(head, outcomes, 0);
        }
    }
}

/// One attempt to subscribe: what succeeded follows the wanted directory and
/// owes nothing; what failed is counted, and given up at the third time; what
/// stands already, or was given up, is left alone.
pub proof fn an_attempt_to_subscribe(
    attached: Map<Parts, DirectoryIdentity>,
    failures: Map<Parts, u8>,
    path: Parts,
    w: WantedModel,
    ok: bool,
    k: Parts,
)
    requires
        failures.contains_key(path) ==> 0 < failures[path] <= 3,
    ensures
        ({
            let r = subscribed(attached, failures, seq![(path, w)], seq![ok]);
            let stands = attached.contains_key(path) && attached[path] == w.identity;
            let given_up = failures.contains_key(path) && failures[path] == 3;
            &&& stands || given_up ==> r.attached == attached && r.failures == failures
            &&& !stands && !given_up && ok ==> r.attached == attached.insert(path, w.identity) && !r.failures.contains_key(path)
            &&& !stands && !given_up && ok && failures.contains_key(path) ==> r.changed == w.sources
            &&& ok && !failures.contains_key(path) ==> r.changed == Set::<Parts>::empty()
            &&& !stands && !given_up && !ok ==> r.attached == attached && r.failures.contains_key(path)
            &&& !stands && !given_up && !ok && !failures.contains_key(path) ==> r.failures[path] == 1 && r.reports
                == seq![path]
            &&& !stands && !given_up && !ok && failures.contains_key(path) ==> r.failures[path] == failures[path] + 1
                && r.reports.len() == 0
            &&& k != path && failures.contains_key(k) ==> r.failures.contains_key(k) && r.failures[k] == failures[k]
        }),
{
    let s = seq![(path, w)];
    assert(s.drop_last() =~= Seq::<(Parts, WantedModel)>::empty());
    assert(s.last() == (path, w));
    assert(seq![ok][0] == ok);
    reveal_with_fuel(subscribed, 2);
    let r = subscribed(attached, failures, s, seq![ok]);
    assert(r.changed =~= w.sources || r.changed =~= Set::<Parts>::empty());
    assert(Set::<Parts>::empty().union(w.sources) =~= w.sources);
}

} // verus!
