//! Ordered collections: vectors kept in strictly ascending key order, modelled
//! as a mathematical set or map over the keys.
use vstd::prelude::*;
use crate::text::{before, lemma_text_lt_irreflexive, lemma_text_lt_total, lemma_text_lt_transitive, same, text_lt};
use crate::text::{texts, Text};

verus! {

/// A key is compared part by part, each part in dictionary order.
pub type Parts = Seq<Text>;

pub open spec fn parts_lt(a: Parts, b: Parts) -> bool
    decreases a.len(),
{
    if b.len() == 0 {
        false
    } else if a.len() == 0 {
        true
    } else if a[0] != b[0] {
        text_lt(a[0], b[0])
    } else {
        parts_lt(a.drop_first(), b.drop_first())
    }
}

pub proof fn lemma_parts_lt_irreflexive(a: Parts)
    ensures
        !parts_lt(a, a),
    decreases a.len(),
{
    if a.len() > 0 {
        lemma_parts_lt_irreflexive(a.drop_first());
    }
}

pub proof fn lemma_parts_lt_transitive(a: Parts, b: Parts, c: Parts)
    requires
        parts_lt(a, b),
        parts_lt(b, c),
    ensures
        parts_lt(a, c),
    decreases a.len(),
{
    if a.len() > 0 && b.len() > 0 && c.len() > 0 {
        if a[0] == b[0] && b[0] == c[0] {
            lemma_parts_lt_transitive(a.drop_first(), b.drop_first(), c.drop_first());
        } else if a[0] != b[0] && b[0] != c[0] {
            lemma_text_lt_transitive(a[0], b[0], c[0]);
            lemma_text_lt_irreflexive(a[0]);
        }
    }
}

pub proof fn lemma_parts_lt_total(a: Parts, b: Parts)
    ensures
        a == b || parts_lt(a, b) || parts_lt(b, a),
    decreases a.len(),
{
    if a.len() > 0 && b.len() > 0 {
        if a[0] == b[0] {
            lemma_parts_lt_total(a.drop_first(), b.drop_first());
            if a.drop_first() == b.drop_first() {
                assert(a =~= seq![a[0]] + a.drop_first());
                assert(b =~= seq![b[0]] + b.drop_first());
            }
        } else {
            lemma_text_lt_total(a[0], b[0]);
        }
    } else if a.len() == 0 && b.len() == 0 {
        assert(a =~= b);
    }
}

/// Is the list `a` before the list `b`?
pub fn list_before(a: &Vec<String>, b: &Vec<String>) -> (r: bool)
    ensures
        r == parts_lt(texts(a@), texts(b@)),
{
    let mut i: usize = 0;
    let ghost x = texts(a@);
    let ghost y = texts(b@);
    assert(x.skip(0) =~= x);
    assert(y.skip(0) =~= y);
    while i < a.len() && i < b.len()
        invariant
            x == texts(a@),
            y == texts(b@),
            i <= a.len(),
            i <= b.len(),
            parts_lt(x, y) == parts_lt(x.skip(i as int), y.skip(i as int)),
        decreases a.len() - i,
    {
        if !same(&a[i], &b[i]) {
            return before(&a[i], &b[i]);
        }
        assert(x.skip(i as int).drop_first() =~= x.skip(i + 1));
        assert(y.skip(i as int).drop_first() =~= y.skip(i + 1));
        i += 1;
    }
    i < b.len()
}

/// Do the two lists hold the same texts in the same order?
pub fn list_same(a: &Vec<String>, b: &Vec<String>) -> (r: bool)
    ensures
        r == (texts(a@) == texts(b@)),
{
    if a.len() != b.len() {
        assert(texts(a@).len() != texts(b@).len());
        return false;
    }
    let mut i: usize = 0;
    while i < a.len()
        invariant
            i <= a.len() == b.len(),
            forall|j: int| 0 <= j < i ==> #[trigger] a@[j]@ == b@[j]@,
        decreases a.len() - i,
    {
        if !same(&a[i], &b[i]) {
            assert(texts(a@)[i as int] != texts(b@)[i as int]);
            return false;
        }
        i += 1;
    }
    assert(texts(a@) =~= texts(b@));
    true
}

/// What an ordered collection needs of its keys.
pub trait Key: Sized {
    spec fn key(&self) -> Parts;

    /// What a key is ordered by.
    spec fn order_of(k: Parts) -> Parts;

    proof fn order_tells(a: Self, b: Self)
        ensures
            Self::order_of(a.key()) == Self::order_of(b.key()) ==> a.key() == b.key(),
    ;

    fn is_before(&self, other: &Self) -> (r: bool)
        ensures
            r == parts_lt(Self::order_of(self.key()), Self::order_of(other.key())),
    ;

    fn is_same(&self, other: &Self) -> (r: bool)
        ensures
            r == (self.key() == other.key()),
    ;

    fn copy_key(&self) -> (r: Self)
        ensures
            r.key() == self.key(),
    ;
}

/// The order of the keys of a type.
pub open spec fn key_lt<K: Key>(a: Parts, b: Parts) -> bool {
    parts_lt(K::order_of(a), K::order_of(b))
}

impl Key for String {
    open spec fn key(&self) -> Parts {
        seq![self@]
    }

    open spec fn order_of(k: Parts) -> Parts {
        k
    }

    proof fn order_tells(a: Self, b: Self) {
    }

    fn is_before(&self, other: &Self) -> (r: bool) {
        proof {
            assert(self.key()[0] == self@);
            assert(other.key()[0] == other@);
            assert(self.key().drop_first() =~= Seq::<Text>::empty());
            assert(other.key().drop_first() =~= Seq::<Text>::empty());
            reveal_with_fuel(parts_lt, 2);
            lemma_text_lt_irreflexive(self@);
        }
        before(self, other)
    }

    fn is_same(&self, other: &Self) -> (r: bool) {
        assert(self.key()[0] == self@);
        assert(other.key()[0] == other@);
        same(self, other)
    }

    fn copy_key(&self) -> (r: Self) {
        self.clone()
    }
}

// ---------------------------------------------------------------------- maps

pub open spec fn ascending<K: Key, V>(s: Seq<(K, V)>) -> bool {
    forall|i: int, j: int| 0 <= i < j < s.len() ==> key_lt::<K>(#[trigger] s[i].0.key(), #[trigger] s[j].0.key())
}

/// `k` is the key of the entry at `i`.
pub open spec fn keyed<K: Key, V>(s: Seq<(K, V)>, i: int, k: Parts) -> bool {
    0 <= i < s.len() && s[i].0.key() == k
}

/// The map that a list of entries stands for.
pub open spec fn map_of<K: Key, V>(s: Seq<(K, V)>) -> Map<Parts, V> {
    Map::new(
        |k: Parts| exists|i: int| #[trigger] keyed(s, i, k),
        |k: Parts| s[choose|i: int| #[trigger] keyed(s, i, k)].1,
    )
}

pub proof fn lemma_entry<K: Key, V>(s: Seq<(K, V)>, i: int)
    requires
        ascending(s),
        0 <= i < s.len(),
    ensures
        map_of(s).contains_key(s[i].0.key()),
        map_of(s)[s[i].0.key()] == s[i].1,
        forall|j: int| keyed(s, j, s[i].0.key()) ==> j == i,
{
    let k = s[i].0.key();
    assert(keyed(s, i, k));
    assert forall|j: int| keyed(s, j, k) implies j == i by {
        lemma_parts_lt_irreflexive(K::order_of(k));
        if j < i {
            assert(key_lt::<K>(s[j].0.key(), s[i].0.key()));
        } else if i < j {
            assert(key_lt::<K>(s[i].0.key(), s[j].0.key()));
        }
    }
}

/// A map kept as a vector of entries in ascending key order.
pub struct OrderedMap<K, V> {
    pub entries: Vec<(K, V)>,
}

impl<K: Key, V> View for OrderedMap<K, V> {
    type V = Map<Parts, V>;

    open spec fn view(&self) -> Map<Parts, V> {
        map_of(self.entries@)
    }
}

impl<K: Key, V> OrderedMap<K, V> {
    pub open spec fn wf(&self) -> bool {
        ascending(self.entries@)
    }

    pub fn new() -> (r: Self)
        ensures
            r.wf(),
            r@ == Map::<Parts, V>::empty(),
            r.entries@.len() == 0,
    {
        let r = OrderedMap { entries: Vec::new() };
        assert(r@ =~= Map::<Parts, V>::empty()) by {
            assert(forall|k: Parts, i: int| !keyed(r.entries@, i, k));
        }
        r
    }

    /// How many entries come before `k`, and whether the next one is `k`.
    pub fn seek(&self, k: &K) -> (r: (usize, bool))
        requires
            self.wf(),
        ensures
            r.0 <= self.entries@.len(),
            forall|j: int| 0 <= j < r.0 ==> key_lt::<K>(#[trigger] self.entries@[j].0.key(), k.key()),
            forall|j: int| r.0 < j < self.entries@.len() ==> key_lt::<K>(k.key(), #[trigger] self.entries@[j].0.key()),
            r.1 ==> keyed(self.entries@, r.0 as int, k.key()),
            !r.1 && r.0 < self.entries@.len() ==> key_lt::<K>(k.key(), self.entries@[r.0 as int].0.key()),
            r.1 == self@.contains_key(k.key()),
            r.1 ==> self@[k.key()] == self.entries@[r.0 as int].1,
    {
        let mut i: usize = 0;
        while i < self.entries.len() && self.entries[i].0.is_before(k)
            invariant
                self.wf(),
                i <= self.entries@.len(),
                forall|j: int| 0 <= j < i ==> key_lt::<K>(#[trigger] self.entries@[j].0.key(), k.key()),
            decreases self.entries@.len() - i,
        {
            i += 1;
        }
        let found = i < self.entries.len() && self.entries[i].0.is_same(k);
        proof {
            let s = self.entries@;
            if i < s.len() {
                lemma_parts_lt_total(K::order_of(s[i as int].0.key()), K::order_of(k.key()));
                K::order_tells(s[i as int].0, *k);
                assert forall|j: int| i < j < s.len() implies key_lt::<K>(k.key(), #[trigger] s[j].0.key()) by {
                    assert(key_lt::<K>(s[i as int].0.key(), s[j].0.key()));
                    if s[i as int].0.key() != k.key() {
                        lemma_parts_lt_transitive(
                            K::order_of(k.key()),
                            K::order_of(s[i as int].0.key()),
                            K::order_of(s[j].0.key()),
                        );
                    }
                }
            }
            if found {
                lemma_entry(s, i as int);
            } else {
                assert forall|j: int| !keyed(s, j, k.key()) by {
                    lemma_parts_lt_irreflexive(K::order_of(k.key()));
                    if keyed(s, j, k.key()) {
                        if j < i {
                            assert(key_lt::<K>(s[j].0.key(), k.key()));
                        } else if j > i {
                            assert(key_lt::<K>(k.key(), s[j].0.key()));
                        }
                    }
                }
            }
        }
        (i, found)
    }

    pub fn has(&self, k: &K) -> (r: bool)
        requires
            self.wf(),
        ensures
            r == self@.contains_key(k.key()),
    {
        self.seek(k).1
    }

    pub fn get(&self, k: &K) -> (r: Option<&V>)
        requires
            self.wf(),
        ensures
            r is Some == self@.contains_key(k.key()),
            r matches Some(v) ==> *v == self@[k.key()],
    {
        let (i, found) = self.seek(k);
        if found {
            Some(&self.entries[i].1)
        } else {
            None
        }
    }

    /// Put `v` under `k`, handing back what stood there.
    pub fn insert(&mut self, k: K, v: V) -> (r: Option<V>)
        requires
            old(self).wf(),
        ensures
            final(self).wf(),
            final(self)@ == old(self)@.insert(k.key(), v),
            r is Some == old(self)@.contains_key(k.key()),
            r matches Some(x) ==> x == old(self)@[k.key()],
    {
        let (i, found) = self.seek(&k);
        let ghost s = self.entries@;
        if found {
            let ghost key = k.key();
            let old_entry = self.entries.remove(i);
            self.entries.insert(i, (k, v));
            proof {
                let t = self.entries@;
                assert(t =~= s.update(i as int, (k, v)));
                assert forall|a: int, b: int| 0 <= a < b < t.len() implies key_lt::<K>(
                    #[trigger] t[a].0.key(),
                    #[trigger] t[b].0.key(),
                ) by {
                    assert(key_lt::<K>(s[a].0.key(), s[b].0.key()));
                }
                lemma_map_update(s, i as int, k, v);
                lemma_entry(s, i as int);
            }
            Some(old_entry.1)
        } else {
            self.entries.insert(i, (k, v));
            proof {
                let t = self.entries@;
                assert(t =~= s.insert(i as int, (k, v)));
                assert forall|a: int, b: int| 0 <= a < b < t.len() implies key_lt::<K>(
                    #[trigger] t[a].0.key(),
                    #[trigger] t[b].0.key(),
                ) by {
                    let a0 = if a < i { a } else { a - 1 };
                    let b0 = if b < i { b } else { b - 1 };
                    if a != i && b != i {
                        assert(key_lt::<K>(s[a0].0.key(), s[b0].0.key()));
                    } else if a == i {
                        assert(key_lt::<K>(k.key(), s[b0].0.key()));
                    } else {
                        assert(key_lt::<K>(s[a0].0.key(), k.key()));
                    }
                }
                lemma_map_insert(s, i as int, k, v);
            }
            None
        }
    }

    /// Take out the entry at a position.
    pub fn remove_at(&mut self, i: usize) -> (r: (K, V))
        requires
            old(self).wf(),
            i < old(self).entries@.len(),
        ensures
            final(self).wf(),
            final(self).entries@ == old(self).entries@.remove(i as int),
            final(self)@ == old(self)@.remove(old(self).entries@[i as int].0.key()),
            r == old(self).entries@[i as int],
    {
        let ghost s = self.entries@;
        let r = self.entries.remove(i);
        proof {
            let t = self.entries@;
            assert forall|a: int, b: int| 0 <= a < b < t.len() implies key_lt::<K>(
                #[trigger] t[a].0.key(),
                #[trigger] t[b].0.key(),
            ) by {
                let a0 = if a < i { a } else { a + 1 };
                let b0 = if b < i { b } else { b + 1 };
                assert(key_lt::<K>(s[a0].0.key(), s[b0].0.key()));
            }
            lemma_map_remove(s, i as int);
        }
        r
    }

    pub fn remove(&mut self, k: &K) -> (r: Option<V>)
        requires
            old(self).wf(),
        ensures
            final(self).wf(),
            final(self)@ == old(self)@.remove(k.key()),
            r is Some == old(self)@.contains_key(k.key()),
            r matches Some(x) ==> x == old(self)@[k.key()],
    {
        let (i, found) = self.seek(k);
        if found {
            let entry = self.remove_at(i);
            Some(entry.1)
        } else {
            assert(self@ =~= self@.remove(k.key()));
            None
        }
    }

    /// Keep the entries that the rule admits.
    pub fn retain<R: Rule<K, V>>(&mut self, rule: &R)
        requires
            old(self).wf(),
            rule.ready(),
        ensures
            final(self).wf(),
            final(self)@ == admitted(old(self)@, *rule),
    {
        let ghost start = self@;
        let mut i: usize = 0;
        while i < self.entries.len()
            invariant
                self.wf(),
                rule.ready(),
                i <= self.entries@.len(),
                forall|x: int| 0 <= x < i ==> rule.admits((#[trigger] self.entries@[x]).0.key(), self.entries@[x].1),
                forall|k: Parts| #[trigger] self@.contains_key(k) ==> start.contains_key(k) && self@[k] == start[k],
                forall|k: Parts| #[trigger] start.contains_key(k) ==> self@.contains_key(k) || !rule.admits(k, start[k]),
            decreases self.entries@.len() - i,
        {
            let ghost es = self.entries@;
            proof {
                lemma_entry(es, i as int);
            }
            if rule.test(&self.entries[i].0, &self.entries[i].1) {
                i += 1;
            } else {
                self.remove_at(i);
                assert forall|x: int| 0 <= x < i implies rule.admits(
                    (#[trigger] self.entries@[x]).0.key(),
                    self.entries@[x].1,
                ) by {
                    assert(self.entries@[x] == es[x]);
                }
            }
        }
        proof {
            assert forall|k: Parts| #[trigger] self@.contains_key(k) implies rule.admits(k, start[k]) by {
                let x = choose|x: int| #[trigger] keyed(self.entries@, x, k);
                lemma_entry(self.entries@, x);
                assert(self.entries@[x].0.key() == k);
            }
            assert(self@ =~= admitted(start, *rule));
        }
    }

    /// Change every value, leaving the keys as they are.
    pub fn change<C: Change<V>>(&mut self, c: &C)
        requires
            old(self).wf(),
            forall|i: int| 0 <= i < old(self).entries@.len() ==> c.takes((#[trigger] old(self).entries@[i]).1),
        ensures
            final(self).wf(),
            final(self)@.dom() == old(self)@.dom(),
            forall|k: Parts| #[trigger] old(self)@.contains_key(k) ==> c.makes(old(self)@[k], final(self)@[k]),
    {
        let ghost s = self.entries@;
        let mut i: usize = 0;
        while i < self.entries.len()
            invariant
                ascending(s),
                i <= s.len(),
                self.entries@.len() == s.len(),
                forall|j: int| 0 <= j < s.len() ==> c.takes((#[trigger] s[j]).1),
                forall|j: int| 0 <= j < s.len() ==> (#[trigger] self.entries@[j]).0 == s[j].0,
                forall|j: int| 0 <= j < i ==> c.makes(s[j].1, (#[trigger] self.entries@[j]).1),
                forall|j: int| i <= j < s.len() ==> #[trigger] self.entries@[j] == s[j],
            decreases s.len() - i,
        {
            let ghost was = self.entries@;
            let (k, v) = self.entries.remove(i);
            assert((k, v) == s[i as int]);
            let w = c.apply(v);
            self.entries.insert(i, (k, w));
            assert(self.entries@ =~= was.update(i as int, (k, w)));
            i += 1;
        }
        proof {
            let t = self.entries@;
            assert forall|a: int, b: int| 0 <= a < b < t.len() implies key_lt::<K>(
                #[trigger] t[a].0.key(),
                #[trigger] t[b].0.key(),
            ) by {
                assert(key_lt::<K>(s[a].0.key(), s[b].0.key()));
            }
            assert forall|k: Parts| map_of(s).contains_key(k) == map_of(t).contains_key(k) by {
                if map_of(s).contains_key(k) {
                    let j = choose|j: int| #[trigger] keyed(s, j, k);
                    assert(keyed(t, j, k));
                }
                if map_of(t).contains_key(k) {
                    let j = choose|j: int| #[trigger] keyed(t, j, k);
                    assert(keyed(s, j, k));
                }
            }
            assert(map_of(s).dom() =~= map_of(t).dom());
            assert forall|k: Parts| #[trigger] map_of(s).contains_key(k) implies c.makes(map_of(s)[k], map_of(t)[k]) by {
                let j = choose|j: int| #[trigger] keyed(s, j, k);
                lemma_entry(s, j);
                lemma_entry(t, j);
            }
        }
    }

    pub fn is_empty(&self) -> (r: bool)
        requires
            self.wf(),
        ensures
            r == (self@ == Map::<Parts, V>::empty()),
    {
        proof {
            let s = self.entries@;
            if s.len() > 0 {
                lemma_entry(s, 0);
            } else {
                assert(self@ =~= Map::<Parts, V>::empty()) by {
                    assert(forall|k: Parts, i: int| !keyed(s, i, k));
                }
            }
        }
        self.entries.len() == 0
    }
}

/// Which entries of a map are kept.
pub trait Rule<K: Key, V>: Sized {
    spec fn admits(&self, k: Parts, v: V) -> bool;

    /// What the test relies on.
    spec fn ready(&self) -> bool;

    fn test(&self, k: &K, v: &V) -> (r: bool)
        requires
            self.ready(),
        ensures
            r == self.admits(k.key(), *v),
    ;
}

/// What is done to a value.
pub trait Change<V>: Sized {
    /// The values to which it can be done.
    spec fn takes(&self, v: V) -> bool;

    /// What stands in the place of a value.
    spec fn makes(&self, v: V, w: V) -> bool;

    fn apply(&self, v: V) -> (w: V)
        requires
            self.takes(v),
        ensures
            self.makes(v, w),
    ;
}

/// The entries that a rule admits.
pub open spec fn admitted<K: Key, V, R: Rule<K, V>>(m: Map<Parts, V>, rule: R) -> Map<Parts, V> {
    Map::new(|k: Parts| m.contains_key(k) && rule.admits(k, m[k]), |k: Parts| m[k])
}

pub proof fn lemma_map_update<K: Key, V>(s: Seq<(K, V)>, i: int, k: K, v: V)
    requires
        ascending(s),
        keyed(s, i, k.key()),
        ascending(s.update(i, (k, v))),
    ensures
        map_of(s.update(i, (k, v))) == map_of(s).insert(k.key(), v),
{
    let t = s.update(i, (k, v));
    assert forall|x: Parts| map_of(t).contains_key(x) == map_of(s).insert(k.key(), v).contains_key(x) by {
        if map_of(t).contains_key(x) {
            let j = choose|j: int| keyed(t, j, x);
            assert(keyed(s, j, x));
        }
        if map_of(s).contains_key(x) {
            let j = choose|j: int| keyed(s, j, x);
            assert(keyed(t, j, x));
        }
        assert(keyed(t, i, k.key()));
    }
    assert forall|x: Parts| map_of(t).contains_key(x) implies map_of(t)[x] == map_of(s).insert(k.key(), v)[x] by {
        let j = choose|j: int| keyed(t, j, x);
        lemma_entry(t, j);
        lemma_entry(s, j);
        lemma_entry(s, i);
        assert(keyed(s, j, x));
    }
    assert(map_of(t) =~= map_of(s).insert(k.key(), v));
}

pub proof fn lemma_map_insert<K: Key, V>(s: Seq<(K, V)>, i: int, k: K, v: V)
    requires
        ascending(s),
        0 <= i <= s.len(),
        !map_of(s).contains_key(k.key()),
        ascending(s.insert(i, (k, v))),
    ensures
        map_of(s.insert(i, (k, v))) == map_of(s).insert(k.key(), v),
{
    let t = s.insert(i, (k, v));
    assert(t[i] == (k, v));
    assert forall|x: Parts| map_of(t).contains_key(x) == map_of(s).insert(k.key(), v).contains_key(x) by {
        if map_of(t).contains_key(x) {
            let j = choose|j: int| keyed(t, j, x);
            if j < i {
                assert(keyed(s, j, x));
            } else if j > i {
                assert(keyed(s, j - 1, x));
            }
        }
        if map_of(s).contains_key(x) {
            let j = choose|j: int| keyed(s, j, x);
            if j < i {
                assert(keyed(t, j, x));
            } else {
                assert(keyed(t, j + 1, x));
            }
        }
        assert(keyed(t, i, k.key()));
    }
    assert forall|x: Parts| map_of(t).contains_key(x) implies map_of(t)[x] == map_of(s).insert(k.key(), v)[x] by {
        let j = choose|j: int| keyed(t, j, x);
        lemma_entry(t, j);
        if j < i {
            lemma_entry(s, j);
            assert(keyed(s, j, x));
        } else if j > i {
            lemma_entry(s, j - 1);
            assert(keyed(s, j - 1, x));
        }
    }
    assert(map_of(t) =~= map_of(s).insert(k.key(), v));
}

pub proof fn lemma_map_remove<K: Key, V>(s: Seq<(K, V)>, i: int)
    requires
        ascending(s),
        0 <= i < s.len(),
        ascending(s.remove(i)),
    ensures
        map_of(s.remove(i)) == map_of(s).remove(s[i].0.key()),
{
    let t = s.remove(i);
    let k = s[i].0.key();
    lemma_entry(s, i);
    assert forall|x: Parts| map_of(t).contains_key(x) == map_of(s).remove(k).contains_key(x) by {
        if map_of(t).contains_key(x) {
            let j = choose|j: int| keyed(t, j, x);
            if j < i {
                assert(keyed(s, j, x));
            } else {
                assert(keyed(s, j + 1, x));
            }
        }
        if map_of(s).remove(k).contains_key(x) {
            let j = choose|j: int| keyed(s, j, x);
            assert(j != i);
            if j < i {
                assert(keyed(t, j, x));
            } else {
                assert(keyed(t, j - 1, x));
            }
        }
    }
    assert forall|x: Parts| map_of(t).contains_key(x) implies map_of(t)[x] == map_of(s).remove(k)[x] by {
        let j = choose|j: int| keyed(t, j, x);
        lemma_entry(t, j);
        if j < i {
            lemma_entry(s, j);
        } else {
            lemma_entry(s, j + 1);
        }
    }
    assert(map_of(t) =~= map_of(s).remove(k));
}

pub proof fn lemma_map_len<K: Key, V>(s: Seq<(K, V)>)
    requires
        ascending(s),
    ensures
        map_of(s).dom().finite(),
        map_of(s).dom().len() == s.len(),
    decreases s.len(),
{
    if s.len() == 0 {
        assert(forall|k: Parts, i: int| !keyed(s, i, k));
        assert(map_of(s).dom() =~= Set::<Parts>::empty());
    } else {
        let t = s.drop_last();
        let last = s.len() - 1;
        assert(s.remove(last) =~= t);
        assert forall|i: int, j: int| 0 <= i < j < t.len() implies key_lt::<K>(
            #[trigger] t[i].0.key(),
            #[trigger] t[j].0.key(),
        ) by {
            assert(t[i] == s[i] && t[j] == s[j]);
        }
        lemma_map_remove(s, last);
        lemma_entry(s, last);
        lemma_map_len(t);
        let k = s[last].0.key();
        assert(map_of(s).dom() =~= map_of(t).dom().insert(k));
    }
}

/// The one-part keys of a list of texts.
pub open spec fn text_set(v: Seq<Text>) -> Set<Parts> {
    Set::new(|k: Parts| exists|i: int| 0 <= i < v.len() && k == seq![#[trigger] v[i]])
}

// ---------------------------------------------------------------------- sets

/// A set kept as a vector of keys in ascending order.
pub struct OrderedSet<K> {
    pub map: OrderedMap<K, ()>,
}

impl<K: Key> View for OrderedSet<K> {
    type V = Set<Parts>;

    open spec fn view(&self) -> Set<Parts> {
        self.map@.dom()
    }
}

impl<K: Key> OrderedSet<K> {
    pub open spec fn wf(&self) -> bool {
        self.map.wf()
    }

    pub fn new() -> (r: Self)
        ensures
            r.wf(),
            r@ == Set::<Parts>::empty(),
            r.map.entries@.len() == 0,
    {
        let r = OrderedSet { map: OrderedMap::new() };
        assert(r@ =~= Set::<Parts>::empty());
        r
    }

    pub fn len(&self) -> (r: usize)
        requires
            self.wf(),
        ensures
            self@.finite(),
            r == self@.len(),
    {
        proof {
            lemma_map_len(self.map.entries@);
        }
        self.map.entries.len()
    }

    pub fn has(&self, k: &K) -> (r: bool)
        requires
            self.wf(),
        ensures
            r == self@.contains(k.key()),
    {
        self.map.has(k)
    }

    pub fn insert(&mut self, k: K) -> (r: bool)
        requires
            old(self).wf(),
        ensures
            final(self).wf(),
            final(self)@ == old(self)@.insert(k.key()),
            r == !old(self)@.contains(k.key()),
    {
        let ghost m = self.map@;
        let ghost key = k.key();
        let was = self.map.insert(k, ());
        assert(self@ =~= m.dom().insert(key));
        was.is_none()
    }

    pub fn remove(&mut self, k: &K) -> (r: bool)
        requires
            old(self).wf(),
        ensures
            final(self).wf(),
            final(self)@ == old(self)@.remove(k.key()),
            r == old(self)@.contains(k.key()),
    {
        let ghost m = self.map@;
        let was = self.map.remove(k);
        assert(self@ =~= m.dom().remove(k.key()));
        was.is_some()
    }

    /// Everything of `other` too.
    pub fn add_all(&mut self, other: &Self)
        requires
            old(self).wf(),
            other.wf(),
        ensures
            final(self).wf(),
            final(self)@ == old(self)@.union(other@),
    {
        let mut i: usize = 0;
        let ghost start = self@;
        let ghost s = other.map.entries@;
        while i < other.map.entries.len()
            invariant
                self.wf(),
                other.wf(),
                s == other.map.entries@,
                i <= s.len(),
                forall|k: Parts| #[trigger] self@.contains(k) <==> start.contains(k) || exists|j: int|
                    j < i && #[trigger] keyed(s, j, k),
            decreases s.len() - i,
        {
            let ghost was = self@;
            self.insert(other.map.entries[i].0.copy_key());
            proof {
                assert forall|k: Parts| #[trigger] self@.contains(k) <==> start.contains(k) || exists|j: int|
                    j < i + 1 && #[trigger] keyed(s, j, k) by {
                    if k == s[i as int].0.key() {
                        assert(keyed(s, i as int, k));
                    }
                }
            }
            i += 1;
        }
        assert(self@ =~= start.union(other@));
    }

    pub fn is_empty(&self) -> (r: bool)
        requires
            self.wf(),
        ensures
            r == (self@ == Set::<Parts>::empty()),
    {
        proof {
            if self@ == Set::<Parts>::empty() {
                assert(self.map@ =~= Map::<Parts, ()>::empty());
            } else {
                assert(self.map@ != Map::<Parts, ()>::empty()) by {
                    if self.map@ == Map::<Parts, ()>::empty() {
                        assert(self@ =~= Set::<Parts>::empty());
                    }
                }
            }
        }
        self.map.is_empty()
    }

    pub fn copy(&self) -> (r: Self)
        requires
            self.wf(),
        ensures
            r.wf(),
            r@ == self@,
    {
        let mut out: Self = OrderedSet::new();
        out.add_all(self);
        assert(Set::<Parts>::empty().union(self@) =~= self@);
        out
    }
}

impl OrderedSet<String> {
    /// Every text of the list too.
    pub fn add_texts(&mut self, v: &Vec<String>)
        requires
            old(self).wf(),
        ensures
            final(self).wf(),
            final(self)@ == old(self)@.union(text_set(texts(v@))),
    {
        let ghost start = self@;
        let ghost t = texts(v@);
        let mut i: usize = 0;
        while i < v.len()
            invariant
                self.wf(),
                t == texts(v@),
                i <= v@.len(),
                forall|k: Parts| #[trigger] self@.contains(k) <==> start.contains(k) || exists|j: int|
                    0 <= j < i && k == seq![#[trigger] t[j]],
            decreases v@.len() - i,
        {
            let ghost was = self@;
            self.insert(v[i].clone());
            i += 1;
            proof {
                assert forall|k: Parts| #[trigger] self@.contains(k) <==> start.contains(k) || exists|j: int|
                    0 <= j < i && k == seq![#[trigger] t[j]] by {
                    if k == seq![t[i - 1]] {
                        assert(self@.contains(k));
                    } else {
                        assert(self@.contains(k) == was.contains(k));
                    }
                }
            }
        }
        assert(self@ =~= start.union(text_set(t)));
    }
}

/// Keys of several parts are compared part by part: the first part that
/// differs decides.
pub proof fn the_first_part_that_differs_decides(a: Parts, b: Parts, i: int)
    requires
        0 <= i < a.len(),
        i < b.len(),
        forall|j: int| 0 <= j < i ==> #[trigger] a[j] == b[j],
        a[i] != b[i],
    ensures
        parts_lt(a, b) == text_lt(a[i], b[i]),
        parts_lt(b, a) == text_lt(b[i], a[i]),
    decreases i,
{
    if i > 0 {
        assert(a[0] == b[0]);
        assert forall|j: int| 0 <= j < i - 1 implies #[trigger] a.drop_first()[j] == b.drop_first()[j] by {
            assert(a[j + 1] == b[j + 1]);
        }
        the_first_part_that_differs_decides(a.drop_first(), b.drop_first(), i - 1);
    }
}

} // verus!
