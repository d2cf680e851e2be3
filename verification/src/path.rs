//! File system paths by their components.
use vstd::prelude::*;
use crate::order::{list_before, list_same, Key, Parts};
use crate::text::{chars_of, copy_texts, join, joined, own, pieces, plus, same, slice_text, split, texts, Text};
use crate::text::text_lt;

verus! {

/// A component that a path keeps wherever it stands.
pub open spec fn kept(part: Text) -> bool {
    part.len() > 0 && part != "."@
}

/// The components of a written path. An absolute path begins with the empty
/// component; repeated separators and inner `.` vanish.
pub open spec fn components(s: Text) -> Parts {
    if s.len() == 0 {
        Seq::empty()
    } else {
        let p = pieces(s, '/');
        seq![p[0]] + p.drop_first().filter(|part: Text| kept(part))
    }
}

/// Paths are ordered component by component: the root comes before a leading
/// `.`, that before `..`, and all three before names.
pub open spec fn component_rank(c: Text) -> Text {
    if c.len() == 0 {
        seq!['0']
    } else if c == "."@ {
        seq!['1']
    } else if c == ".."@ {
        seq!['2']
    } else {
        seq!['3'] + c
    }
}

pub open spec fn path_rank(p: Parts) -> Parts {
    p.map_values(|c: Text| component_rank(c))
}

pub proof fn lemma_path_rank(a: Parts, b: Parts)
    requires
        path_rank(a) == path_rank(b),
    ensures
        a == b,
{
    assert(a.len() == path_rank(a).len() && b.len() == path_rank(b).len());
    assert forall|i: int| 0 <= i < a.len() implies a[i] == b[i] by {
        let x = component_rank(a[i]);
        let y = component_rank(b[i]);
        assert(path_rank(a)[i] == x && path_rank(b)[i] == y);
        assert(x[0] == y[0]);
        if x[0] == '0' {
            assert(a[i] =~= b[i]);
        } else if x[0] == '3' {
            assert(x.drop_first() =~= a[i]);
            assert(y.drop_first() =~= b[i]);
        }
    }
    assert(a =~= b);
}

fn rank_component(c: &str) -> (r: String)
    ensures
        r@ == component_rank(c@),
{
    if c.is_empty() {
        let r = one_char('0');
        assert(r@ =~= component_rank(c@));
        return r;
    }
    if same(c, ".") {
        return one_char('1');
    }
    if same(c, "..") {
        return one_char('2');
    }
    plus(&one_char('3'), c)
}

fn one_char(c: char) -> (r: String)
    ensures
        r@ == seq![c],
{
    let mut r = String::new();
    r.push(c);
    assert(r@ =~= seq![c]);
    r
}

/// The texts that order a path.
pub fn rank_path(parts: &Vec<String>) -> (r: Vec<String>)
    ensures
        texts(r@) == path_rank(texts(parts@)),
{
    let mut out: Vec<String> = Vec::new();
    let ghost all = texts(parts@);
    let mut i: usize = 0;
    assert(texts(out@) =~= path_rank(all.take(0)));
    while i < parts.len()
        invariant
            all == texts(parts@),
            i <= parts@.len(),
            texts(out@) == path_rank(all.take(i as int)),
        decreases parts@.len() - i,
    {
        let ghost was = out@;
        out.push(rank_component(&parts[i]));
        proof {
            assert(texts(out@) =~= texts(was).push(component_rank(all[i as int])));
            assert(path_rank(all.take(i + 1)) =~= path_rank(all.take(i as int)).push(component_rank(all[i as int])));
        }
        i += 1;
    }
    assert(all.take(i as int) =~= all);
    out
}

/// A path, held as its components.
pub struct PathName {
    pub parts: Vec<String>,
}

impl View for PathName {
    type V = Parts;

    open spec fn view(&self) -> Parts {
        texts(self.parts@)
    }
}

impl Key for PathName {
    open spec fn key(&self) -> Parts {
        texts(self.parts@)
    }

    open spec fn order_of(k: Parts) -> Parts {
        path_rank(k)
    }

    proof fn order_tells(a: Self, b: Self) {
        if path_rank(a.key()) == path_rank(b.key()) {
            lemma_path_rank(a.key(), b.key());
        }
    }

    fn is_before(&self, other: &Self) -> (r: bool) {
        list_before(&rank_path(&self.parts), &rank_path(&other.parts))
    }

    fn is_same(&self, other: &Self) -> (r: bool) {
        list_same(&self.parts, &other.parts)
    }

    fn copy_key(&self) -> (r: Self) {
        let parts = copy_texts(&self.parts);
        assert(texts(parts@) == texts(self.parts@));
        let r = PathName { parts };
        assert(r.parts@ == parts@);
        assert(texts(r.parts@) == texts(parts@));
        assert(r.key() == texts(r.parts@));
        assert(self.key() == texts(self.parts@));
        r
    }
}

/// The position of the last `c`, or `-1`.
pub open spec fn last_index(s: Text, c: char) -> int
    decreases s.len(),
{
    if s.len() == 0 {
        -1
    } else if s.last() == c {
        s.len() - 1
    } else {
        last_index(s.drop_last(), c)
    }
}

/// The extension of a file name: what follows its last dot, unless that dot
/// begins the name.
pub open spec fn name_extension(name: Text) -> Option<Text> {
    let dot = last_index(name, '.');
    if name == ".."@ || dot <= 0 {
        None
    } else {
        Some(name.skip(dot + 1))
    }
}

pub fn extension_of_name(name: &str) -> (r: Option<String>)
    ensures
        r is Some == name_extension(name@) is Some,
        r matches Some(t) ==> name_extension(name@) == Some(t@),
{
    if same(name, "..") {
        return None;
    }
    let v = chars_of(name);
    let mut i: usize = v.len();
    assert(v@.take(i as int) =~= v@);
    while i > 0
        invariant
            i <= v.len(),
            v@ == name@,
            name@ != ".."@,
            last_index(v@, '.') == last_index(v@.take(i as int), '.'),
        decreases i,
    {
        let ghost head = v@.take(i as int);
        assert(head.drop_last() =~= v@.take(i - 1));
        if v[i - 1] == '.' {
            assert(last_index(v@, '.') == i - 1);
            if i == 1 {
                return None;
            }
            assert(name@.skip(i as int) =~= name@.subrange(i as int, name@.len() as int));
            return Some(slice_text(&v, i, v.len()));
        }
        i -= 1;
    }
    None
}

impl PathName {
    /// Read a written path.
    pub fn parse(s: &str) -> (r: PathName)
        ensures
            r@ == components(s@),
    {
        let mut out: Vec<String> = Vec::new();
        if s.is_empty() {
            assert(texts(out@) =~= Seq::<Text>::empty());
            return PathName { parts: out };
        }
        let list = split(s, '/');
        let ghost p = pieces(s@, '/');
        let ghost keep = |part: Text| kept(part);
        out.push(list[0].clone());
        let mut i: usize = 1;
        assert(texts(out@) =~= seq![p[0]]);
        assert(p.drop_first().take(0) =~= Seq::<Text>::empty());
        reveal(Seq::filter);
        assert(p.drop_first().take(0).filter(keep) =~= Seq::<Text>::empty());
        while i < list.len()
            invariant
                1 <= i <= list.len(),
                texts(list@) == p,
                keep == (|part: Text| kept(part)),
                texts(out@) == seq![p[0]] + p.drop_first().take(i - 1).filter(keep),
            decreases list.len() - i,
        {
            let ghost was = out@;
            let ghost done = p.drop_first().take(i as int);
            proof {
                reveal(Seq::filter);
                assert(done.drop_last() =~= p.drop_first().take(i - 1));
                assert(done.last() == list@[i as int]@);
            }
            if !list[i].as_str().is_empty() && !same(&list[i], ".") {
                out.push(list[i].clone());
                assert(texts(out@) =~= texts(was).push(list@[i as int]@));
            }
            i += 1;
        }
        assert(p.drop_first().take(i - 1) =~= p.drop_first());
        PathName { parts: out }
    }

    pub fn copy(&self) -> (r: PathName)
        ensures
            r@ == self@,
    {
        self.copy_key()
    }

    /// What is called `name` in this directory.
    pub fn child(&self, name: &str) -> (r: PathName)
        ensures
            r@ == self@.push(name@),
    {
        let mut r = self.copy();
        let ghost was = r@;
        r.parts.push(own(name));
        assert(r@ =~= was.push(name@));
        r
    }

    /// Is `self` what is left of `other` without its last component?
    pub fn is_parent_of(&self, other: &PathName) -> (r: bool)
        ensures
            r == (other@.len() > 0 && other@ != seq![Seq::<char>::empty()] && other@.drop_last() == self@),
    {
        if other.parts.len() == 0 || self.parts.len() != other.parts.len() - 1 {
            assert(other@.len() > 0 ==> other@.drop_last().len() != self@.len());
            return false;
        }
        if other.parts.len() == 1 && other.parts[0].as_str().is_empty() {
            assert(other@[0] =~= Seq::<char>::empty());
            assert(other@ =~= seq![Seq::<char>::empty()]);
            return false;
        }
        proof {
            if other@ == seq![Seq::<char>::empty()] {
                assert(other@.len() == 1 && other@[0].len() == 0);
                assert(other.parts@[0]@.len() == 0);
            }
        }
        let mut i: usize = 0;
        while i < self.parts.len()
            invariant
                i <= self.parts.len() == other.parts.len() - 1,
                forall|j: int| 0 <= j < i ==> self@[j] == other@[j],
            decreases self.parts.len() - i,
        {
            if !same(&self.parts[i], &other.parts[i]) {
                assert(self@[i as int] != other@.drop_last()[i as int]);
                return false;
            }
            i += 1;
        }
        assert(other@.drop_last() =~= self@);
        true
    }

    /// The components of `other` below `self`, if it lies there.
    pub fn below(&self, other: &PathName) -> (r: Option<PathName>)
        ensures
            r is Some == (self@.len() <= other@.len() && other@.take(self@.len() as int) == self@),
            r matches Some(rest) ==> rest@ == other@.skip(self@.len() as int),
    {
        if self.parts.len() > other.parts.len() {
            return None;
        }
        let mut i: usize = 0;
        while i < self.parts.len()
            invariant
                i <= self.parts.len() <= other.parts.len(),
                forall|j: int| 0 <= j < i ==> self@[j] == other@[j],
            decreases self.parts.len() - i,
        {
            if !same(&self.parts[i], &other.parts[i]) {
                assert(self@[i as int] != other@.take(self@.len() as int)[i as int]);
                return None;
            }
            i += 1;
        }
        assert(other@.take(self@.len() as int) =~= self@);
        let mut rest: Vec<String> = Vec::new();
        while i < other.parts.len()
            invariant
                self.parts.len() <= i <= other.parts.len(),
                texts(rest@) == other@.subrange(self.parts@.len() as int, i as int),
            decreases other.parts.len() - i,
        {
            let ghost was = rest@;
            rest.push(other.parts[i].clone());
            i += 1;
            assert(texts(rest@) =~= texts(was).push(other@[i - 1]));
            assert(texts(rest@) =~= other@.subrange(self.parts@.len() as int, i as int));
        }
        assert(texts(rest@) =~= other@.skip(self@.len() as int));
        Some(PathName { parts: rest })
    }

    /// The extension of the last component.
    pub fn extension(&self) -> (r: Option<String>)
        ensures
            r is Some == (self@.len() > 0 && name_extension(self@.last()) is Some),
            r matches Some(t) ==> name_extension(self@.last()) == Some(t@),
    {
        if self.parts.len() == 0 {
            return None;
        }
        assert(self@.last() == self.parts@[self.parts@.len() - 1]@);
        extension_of_name(&self.parts[self.parts.len() - 1])
    }

    /// The written form.
    pub fn display(&self) -> (r: String)
        ensures
            r@ == path_text(self@),
    {
        if self.parts.len() == 1 && self.parts[0].as_str().is_empty() {
            return own("/");
        }
        join(&self.parts, "/")
    }
}

/// How a path is written.
pub open spec fn path_text(p: Parts) -> Text {
    if p.len() == 1 && p[0].len() == 0 {
        "/"@
    } else {
        joined(p, "/"@)
    }
}

/// The last place of a character: nothing behind it is that character.
pub proof fn nothing_follows_the_last_place(s: Text, c: char)
    ensures
        -1 <= last_index(s, c) < s.len(),
        last_index(s, c) >= 0 ==> s[last_index(s, c)] == c,
        forall|i: int| last_index(s, c) < i < s.len() ==> #[trigger] s[i] != c,
    decreases s.len(),
{
    if s.len() > 0 && s.last() != c {
        let t = s.drop_last();
        nothing_follows_the_last_place(t, c);
        assert forall|i: int| last_index(s, c) < i < s.len() implies #[trigger] s[i] != c by {
            if i < t.len() {
                assert(t[i] == s[i]);
            }
        }
    }
}

/// The extension of a name is what follows its last dot; a name without a dot
/// behind its first character has none.
pub proof fn an_extension_follows_the_last_dot(stem: Text, ext: Text)
    requires
        !ext.contains('.'),
    ensures
        stem.len() > 0 && stem + seq!['.'] + ext != ".."@ ==> name_extension(stem + seq!['.'] + ext) == Some(ext),
        name_extension(ext) is None,
        name_extension(seq!['.'] + ext) is None,
{
    let s = stem + seq!['.'] + ext;
    nothing_follows_the_last_place(s, '.');
    let n = stem.len() as int;
    assert(s[n] == '.');
    let k = last_index(s, '.');
    if k > n {
        assert(s[k] == ext[k - n - 1]);
    }
    assert(s.skip(n + 1) =~= ext);
    nothing_follows_the_last_place(ext, '.');
    if last_index(ext, '.') >= 0 {
        assert(ext.contains(ext[last_index(ext, '.')]));
    }
    let h = seq!['.'] + ext;
    nothing_follows_the_last_place(h, '.');
    let j = last_index(h, '.');
    if j > 0 {
        assert(h[j] == ext[j - 1]);
    }
}

/// The components of a path: an absolute one begins with the empty component,
/// and behind the first no component is empty or a dot.
pub proof fn components_are_names(s: Text, i: int)
    requires
        s.len() > 0,
    ensures
        components(s).len() > 0,
        0 < i < components(s).len() ==> components(s)[i].len() > 0 && components(s)[i] != "."@ && pieces(
            s,
            '/',
        ).contains(components(s)[i]),
        components(s)[0] == pieces(s, '/')[0],
{
    broadcast use vstd::seq_lib::group_filter_ensures;

    let p = pieces(s, '/');
    let f = |part: Text| kept(part);
    let rest = p.drop_first();
    let out = rest.filter(f);
    if 0 < i < components(s).len() {
        assert(components(s)[i] == out[i - 1]);
        assert(f(out[i - 1]));
        assert(out.contains(out[i - 1]));
        rest.lemma_filter_contains_rev(f, out[i - 1]);
        let k = choose|k: int| 0 <= k < rest.len() && rest[k] == out[i - 1];
        assert(p[k + 1] == rest[k]);
    }
}

/// The root stands before `.`, that before `..`, and all three before names,
/// which stand in their own order.
pub proof fn the_root_stands_before_names(a: Text, b: Text)
    requires
        a.len() > 0,
        a != "."@,
        a != ".."@,
        b.len() > 0,
        b != "."@,
        b != ".."@,
    ensures
        text_lt(component_rank(Seq::empty()), component_rank("."@)),
        text_lt(component_rank("."@), component_rank(".."@)),
        text_lt(component_rank(".."@), component_rank(a)),
        text_lt(component_rank(a), component_rank(b)) <==> text_lt(a, b),
{
    reveal_strlit(".");
    reveal_strlit("..");
    assert("."@.len() == 1 && ".."@.len() == 2);
    let x = component_rank(a);
    let y = component_rank(b);
    assert(x.drop_first() =~= a && y.drop_first() =~= b);
    assert(x[0] == '3' && y[0] == '3');
    reveal_with_fuel(text_lt, 2);
}

/// A path is written with slashes between its components; the root alone is a
/// slash.
pub proof fn a_path_is_written_with_slashes(p: Parts, name: Text)
    requires
        p.len() > 0,
    ensures
        path_text(seq![Seq::<char>::empty()]) == "/"@,
        p.len() > 1 || p[0].len() > 0 ==> path_text(p.push(name)) == path_text(p) + "/"@ + name,
{
    let q = p.push(name);
    assert(q.drop_last() =~= p);
    assert(q.last() == name);
    assert(seq![Seq::<char>::empty()][0].len() == 0);
    joined_pieces_end_with_the_last(p, "/"@, name);
}

proof fn joined_pieces_end_with_the_last(p: Parts, sep: Text, name: Text)
    requires
        p.len() > 0,
    ensures
        joined(p.push(name), sep) == joined(p, sep) + sep + name,
{
    assert(p.push(name).drop_last() =~= p);
}

} // verus!
