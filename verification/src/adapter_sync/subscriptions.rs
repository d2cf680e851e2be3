//! Which native subscriptions are wanted, and which have become useless.
use vstd::prelude::*;
use crate::adapter_sync::watch::{path_views, pool_key, Directory, DirectoryIdentity, DirectoryModel, Source};
use crate::adapter_sync::watch::WatchSet;
use crate::order::{Key, OrderedMap, OrderedSet, Parts, Rule};
use crate::path::PathName;

verus! {

/// What is wanted at a directory: which one it is, and what it feeds.
pub struct Wanted {
    pub identity: DirectoryIdentity,
    pub sources: OrderedSet<Source>,
}

#[verifier::ext_equal]
pub struct WantedModel {
    pub identity: DirectoryIdentity,
    pub sources: Set<Parts>,
}

impl View for Wanted {
    type V = WantedModel;

    open spec fn view(&self) -> WantedModel {
        WantedModel { identity: self.identity, sources: self.sources@ }
    }
}

impl Wanted {
    /// Everything below is watched only where the pool is.
    pub fn recursive(&self) -> (r: bool)
        requires
            self.sources.wf(),
        ensures
            r == self@.sources.contains(pool_key()),
    {
        self.sources.has(&Source::SkillPool)
    }
}

pub open spec fn wanted_models(m: Map<Parts, Wanted>) -> Map<Parts, WantedModel> {
    m.map_values(|w: Wanted| w@)
}

pub open spec fn directory_models(s: Seq<(PathName, Directory)>) -> Seq<DirectoryModel> {
    s.map_values(|e: (PathName, Directory)| e.1@)
}

/// The directories that were found, each with all that it feeds. Where several
/// requests led to one directory, the first says which it is.
pub open spec fn wanted_of(s: Seq<DirectoryModel>) -> Map<Parts, WantedModel>
    decreases s.len(),
{
    if s.len() == 0 {
        Map::empty()
    } else {
        let m = wanted_of(s.drop_last());
        let d = s.last();
        match d.current {
            None => m,
            Some(c) => if m.contains_key(c.0) {
                m.insert(c.0, WantedModel { sources: m[c.0].sources.insert(d.source), ..m[c.0] })
            } else {
                m.insert(c.0, WantedModel { identity: c.1, sources: Set::empty().insert(d.source) })
            },
        }
    }
}

pub open spec fn wanted_wf(m: OrderedMap<PathName, Wanted>) -> bool {
    m.wf() && forall|k: Parts| #[trigger] m@.contains_key(k) ==> m@[k].sources.wf()
}

/// A subscription follows a directory that is no longer wanted there.
pub open spec fn is_stale(wanted: Map<Parts, WantedModel>, path: Parts, identity: DirectoryIdentity) -> bool {
    !(wanted.contains_key(path) && wanted[path].identity == identity)
}

/// The useless subscriptions, in order.
pub open spec fn stale_paths(s: Seq<(PathName, DirectoryIdentity)>, wanted: Map<Parts, WantedModel>) -> Seq<Parts>
    decreases s.len(),
{
    if s.len() == 0 {
        Seq::empty()
    } else {
        let rest = stale_paths(s.drop_last(), wanted);
        if is_stale(wanted, s.last().0@, s.last().1) {
            rest.push(s.last().0@)
        } else {
            rest
        }
    }
}

/// The subscriptions that stay.
pub open spec fn kept_subscriptions(m: Map<Parts, DirectoryIdentity>, wanted: Map<Parts, WantedModel>) -> Map<
    Parts,
    DirectoryIdentity,
> {
    Map::new(|k: Parts| m.contains_key(k) && !is_stale(wanted, k, m[k]), |k: Parts| m[k])
}

pub struct Useful<'a> {
    pub wanted: &'a OrderedMap<PathName, Wanted>,
}

impl<'a> Rule<PathName, DirectoryIdentity> for Useful<'a> {
    open spec fn admits(&self, k: Parts, v: DirectoryIdentity) -> bool {
        !is_stale(wanted_models(self.wanted@), k, v)
    }

    open spec fn ready(&self) -> bool {
        self.wanted.wf()
    }

    fn test(&self, k: &PathName, v: &DirectoryIdentity) -> (r: bool) {
        match self.wanted.get(k) {
            Some(w) => w.identity == *v,
            None => false,
        }
    }
}

/// Requests of other projects.
pub struct NotOf<'a> {
    pub root: &'a PathName,
}

impl<'a> Rule<PathName, Directory> for NotOf<'a> {
    open spec fn admits(&self, k: Parts, v: Directory) -> bool {
        !(v.source matches Source::ProjectRules(r) && r@ == self.root@)
    }

    open spec fn ready(&self) -> bool {
        true
    }

    fn test(&self, k: &PathName, v: &Directory) -> (r: bool) {
        match &v.source {
            Source::ProjectRules(r) => !r.is_same(self.root),
            _ => true,
        }
    }
}

impl WatchSet {
    /// The directories to be watched, by what is known of the requests.
    pub fn wanted(&self) -> (r: OrderedMap<PathName, Wanted>)
        requires
            self.wf(),
        ensures
            wanted_wf(r),
            wanted_models(r@) == wanted_of(directory_models(self.directories.entries@)),
    {
        let v = &self.directories.entries;
        let ghost all = directory_models(v@);
        let mut out: OrderedMap<PathName, Wanted> = OrderedMap::new();
        let mut i: usize = 0;
        assert(wanted_models(out@) =~= wanted_of(all.take(0)));
        while i < v.len()
            invariant
                v == self.directories.entries,
                all == directory_models(v@),
                i <= v@.len(),
                wanted_wf(out),
                wanted_models(out@) == wanted_of(all.take(i as int)),
            decreases v@.len() - i,
        {
            let ghost was = out@;
            let d = &v[i].1;
            proof {
                assert(all.take(i + 1).drop_last() =~= all.take(i as int));
                assert(all.take(i + 1).last() == d@);
            }
            if let Some(c) = &d.current {
                let mut w = match out.remove(&c.0) {
                    Some(w) => w,
                    None => Wanted { identity: c.1, sources: OrderedSet::new() },
                };
                w.sources.insert(d.source.copy_key());
                let ghost added = w@;
                out.insert(c.0.copy(), w);
                proof {
                    let k = c.0@;
                    if was.contains_key(k) {
                        assert(wanted_models(was).contains_key(k));
                    }
                    assert(out@.dom() =~= was.dom().insert(k));
                    assert(wanted_models(out@) =~= wanted_models(was).insert(k, added));
                    assert(wanted_models(out@) =~= wanted_of(all.take(i + 1)));
                    assert forall|x: Parts| #[trigger] out@.contains_key(x) implies out@[x].sources.wf() by {
                        if x != k {
                            assert(was.contains_key(x));
                        }
                    }
                }
            }
            i += 1;
        }
        assert(all.take(i as int) =~= all);
        out
    }

    /// Give up the subscriptions that are useless now.
    pub fn detach_stale(&mut self, wanted: &OrderedMap<PathName, Wanted>) -> (r: Vec<PathName>)
        requires
            old(self).wf(),
            wanted.wf(),
        ensures
            final(self).wf(),
            final(self).directories == old(self).directories,
            final(self).attach_failures == old(self).attach_failures,
            final(self).attached@ == kept_subscriptions(old(self).attached@, wanted_models(wanted@)),
            path_views(r@) == stale_paths(old(self).attached.entries@, wanted_models(wanted@)),
    {
        let ghost w = wanted_models(wanted@);
        let mut out: Vec<PathName> = Vec::new();
        let v = &self.attached.entries;
        let mut i: usize = 0;
        assert(path_views(out@) =~= stale_paths(v@.take(0), w));
        while i < v.len()
            invariant
                wanted.wf(),
                w == wanted_models(wanted@),
                i <= v@.len(),
                path_views(out@) == stale_paths(v@.take(i as int), w),
            decreases v@.len() - i,
        {
            let ghost was = out@;
            assert(v@.take(i + 1).drop_last() =~= v@.take(i as int));
            assert(v@.take(i + 1).last() == v@[i as int]);
            let useful = match wanted.get(&v[i].0) {
                Some(x) => x.identity == v[i].1,
                None => false,
            };
            assert(useful == !is_stale(w, v@[i as int].0@, v@[i as int].1));
            if !useful {
                out.push(v[i].0.copy());
                assert(path_views(out@) =~= path_views(was).push(v@[i as int].0@));
            }
            i += 1;
        }
        assert(v@.take(i as int) =~= v@);
        let ghost before = self.attached@;
        self.attached.retain(&Useful { wanted });
        assert(self.attached@ =~= kept_subscriptions(before, w));
        out
    }

    /// Forget the requests of a project.
    pub fn forget_project(&mut self, root: &PathName)
        requires
            old(self).wf(),
        ensures
            final(self).wf(),
            final(self).attached == old(self).attached,
            final(self).attach_failures == old(self).attach_failures,
            forall|k: Parts|
                #[trigger] final(self).directories@.contains_key(k) <==> old(self).directories@.contains_key(k) && !(
                old(self).directories@[k].source matches Source::ProjectRules(r) && r@ == root@),
            forall|k: Parts|
                #[trigger] final(self).directories@.contains_key(k) ==> final(self).directories@[k]
                    == old(self).directories@[k],
    {
        self.directories.retain(&NotOf { root });
    }
}

// ---------------------------------------------------------------------- laws

/// A subscription that stays follows the very directory that is wanted.
pub proof fn only_wanted_directories_stay(m: Map<Parts, DirectoryIdentity>, wanted: Map<Parts, WantedModel>, k: Parts)
    requires
        kept_subscriptions(m, wanted).contains_key(k),
    ensures
        wanted.contains_key(k),
        wanted[k].identity == kept_subscriptions(m, wanted)[k],
{
}

/// Whatever was found is wanted, with what it feeds.
pub proof fn what_was_found_is_wanted(s: Seq<DirectoryModel>, i: int, path: Parts, identity: DirectoryIdentity)
    requires
        0 <= i < s.len(),
        s[i].current == Some((path, identity)),
    ensures
        wanted_of(s).contains_key(path),
        wanted_of(s)[path].sources.contains(s[i].source),
    decreases s.len(),
{
    if i < s.len() - 1 {
        assert(s.drop_last()[i] == s[i]);
        what_was_found_is_wanted(s.drop_last(), i, path, identity);
    }
}

/// Every useless subscription is given up, no other is, and no directory keeps
/// one that it does not have.
pub proof fn a_subscription_stays_or_is_given_up(
    s: Seq<(PathName, DirectoryIdentity)>,
    m: Map<Parts, DirectoryIdentity>,
    wanted: Map<Parts, WantedModel>,
    i: int,
    k: Parts,
)
    ensures
        0 <= i < s.len() ==> (stale_paths(s, wanted).contains(s[i].0@) || (wanted.contains_key(s[i].0@)
            && wanted[s[i].0@].identity == s[i].1)),
        stale_paths(s, wanted).contains(k) ==> exists|j: int|
            0 <= j < s.len() && (#[trigger] s[j]).0@ == k && !(wanted.contains_key(k) && wanted[k].identity == s[j].1),
        m.contains_key(k) && wanted.contains_key(k) && wanted[k].identity == m[k] ==> kept_subscriptions(
            m,
            wanted,
        ).contains_key(k) && kept_subscriptions(m, wanted)[k] == m[k],
        kept_subscriptions(m, wanted).contains_key(k) ==> m.contains_key(k) && wanted.contains_key(k)
            && wanted[k].identity == m[k],
    decreases s.len(),
{
    if s.len() > 0 {
        let head = s.drop_last();
        let rest = stale_paths(head, wanted);
        let out = stale_paths(s, wanted);
        a_subscription_stays_or_is_given_up(head, m, wanted, i, k);
        assert(s[s.len() - 1] == s.last());
        assert(forall|j: int| 0 <= j < head.len() ==> head[j] == #[trigger] s[j]);
        if 0 <= i < s.len() && is_stale(wanted, s[i].0@, s[i].1) {
            if i < head.len() {
                let j = choose|j: int| 0 <= j < rest.len() && rest[j] == s[i].0@;
                assert(out[j] == s[i].0@);
            } else {
                assert(out[rest.len() as int] == s[i].0@);
            }
        }
        if out.contains(k) {
            let j = choose|j: int| 0 <= j < out.len() && out[j] == k;
            if j < rest.len() {
                assert(rest[j] == k);
                assert(rest.contains(k));
                let x = choose|x: int|
                    0 <= x < head.len() && (#[trigger] head[x]).0@ == k && !(wanted.contains_key(k) && wanted[k].identity
                        == head[x].1);
                assert(s[x] == head[x]);
            }
        }
    }
}

/// Nothing is wanted but what was found, for what was asked there, and as it
/// was found.
pub proof fn only_what_was_found_is_wanted(s: Seq<DirectoryModel>, path: Parts, source: Parts)
    requires
        wanted_of(s).contains_key(path),
    ensures
        exists|i: int|
            0 <= i < s.len() && ((#[trigger] s[i]).current matches Some(c) && c.0 == path && c.1 == wanted_of(
                s,
            )[path].identity),
        wanted_of(s)[path].sources.contains(source) ==> exists|i: int|
            0 <= i < s.len() && (#[trigger] s[i]).source == source && (s[i].current matches Some(c) && c.0 == path),
    decreases s.len(),
{
    let head = s.drop_last();
    let m = wanted_of(head);
    assert(s[s.len() - 1] == s.last());
    assert(forall|j: int| 0 <= j < head.len() ==> head[j] == #[trigger] s[j]);
    if m.contains_key(path) {
        only_what_was_found_is_wanted(head, path, source);
        let i = choose|i: int|
            0 <= i < head.len() && ((#[trigger] head[i]).current matches Some(c) && c.0 == path && c.1 == m[path].identity);
        assert(s[i] == head[i]);
        if m[path].sources.contains(source) {
            let j = choose|j: int|
                0 <= j < head.len() && (#[trigger] head[j]).source == source && (head[j].current matches Some(c) && c.0
                    == path);
            assert(s[j] == head[j]);
        }
    }
}

} // verus!
