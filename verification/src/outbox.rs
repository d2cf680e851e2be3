//! The directories through which the command line tools hand requests to the
//! running program.
use vstd::prelude::*;
use crate::agent_bus::{numbered, numbered_name};
use crate::order::{Key, Parts};
use crate::path::{extension_of_name, last_index, name_extension};
use crate::shim::{below, path_below};
use crate::sort::{rank_fn, sorted_by, stable_sort, Ranked};
use crate::text::{char_count, chars_of, decimal, holds, own, plus, same, slice_text, texts, Text};
use crate::order::the_first_part_that_differs_decides;
use crate::text::text_lt;
use crate::sort::sorting_orders_and_keeps;
use crate::text::lemma_text_lt_irreflexive;

verus! {

/// Where requests lie: new ones, those in work, and those that are done.
pub struct Places {
    pub outbox: String,
    pub processing: String,
    pub delivered: String,
    pub failed: String,
}

/// The requests of a tool, below a project.
pub open spec fn tool_root(project: Text, tool: Text) -> Text {
    below(below(below(project, "project-memory"@), ".violet"@), tool)
}

pub fn places(project_root: &str, tool: &str) -> (r: Places)
    ensures
        r.outbox@ == below(tool_root(project_root@, tool@), "outbox"@),
        r.processing@ == below(tool_root(project_root@, tool@), "processing"@),
        r.delivered@ == below(tool_root(project_root@, tool@), "delivered"@),
        r.failed@ == below(tool_root(project_root@, tool@), "failed"@),
{
    let root = path_below(&path_below(&path_below(project_root, "project-memory"), ".violet"), tool);
    Places {
        outbox: path_below(&root, "outbox"),
        processing: path_below(&root, "processing"),
        delivered: path_below(&root, "delivered"),
        failed: path_below(&root, "failed"),
    }
}

impl Ranked for String {
    open spec fn rank(&self) -> Parts {
        seq![self@]
    }

    fn rank_before(&self, other: &Self) -> (r: bool) {
        self.is_before(other)
    }
}

/// A request is a JSON file.
pub open spec fn is_request(name: Text) -> bool {
    name_extension(name) == Some("json"@)
}

pub open spec fn requests_of(names: Seq<String>) -> Seq<String> {
    names.filter(|n: String| is_request(n@))
}

/// The requests in a directory, in the order of their names.
pub fn requests(names: &Vec<String>) -> (r: Vec<String>)
    ensures
        r@ == sorted_by(requests_of(names@), rank_fn::<String>()),
{
    let ghost keep = |n: String| is_request(n@);
    let mut out: Vec<String> = Vec::new();
    let mut i: usize = 0;
    reveal(Seq::filter);
    assert(names@.take(0).filter(keep) =~= Seq::<String>::empty());
    while i < names.len()
        invariant
            i <= names@.len(),
            keep == (|n: String| is_request(n@)),
            out@ == names@.take(i as int).filter(keep),
        decreases names@.len() - i,
    {
        let name = &names[i];
        reveal(Seq::filter);
        assert(names@.take(i + 1).drop_last() =~= names@.take(i as int));
        assert(names@.take(i + 1).last() == *name);
        if let Some(e) = extension_of_name(name) {
            if same(&e, "json") {
                out.push(name.clone());
            }
        }
        i += 1;
    }
    assert(names@.take(i as int) =~= names@);
    stable_sort(out)
}

// --------------------------------------------------------------------- names

/// A file name without its extension.
pub open spec fn stem_of(name: Text) -> Text {
    match name_extension(name) {
        Some(e) => name.take(name.len() - e.len() - 1),
        None => name,
    }
}

pub open spec fn ending_of(name: Text) -> Text {
    match name_extension(name) {
        Some(e) => e,
        None => Seq::empty(),
    }
}

fn split_name(name: &str) -> (r: (String, String))
    ensures
        r.0@ == stem_of(name@),
        r.1@ == ending_of(name@),
{
    match extension_of_name(name) {
        Some(e) => {
            let v = chars_of(name);
            let n = char_count(&e);
            proof {
                lemma_last_index(name@, '.');
            }
            let stem = slice_text(&v, 0, v.len() - n - 1);
            assert(stem@ =~= stem_of(name@));
            (stem, e)
        },
        None => {
            let none = String::new();
            assert(none@ =~= Seq::<char>::empty());
            (own(name), none)
        },
    }
}

proof fn lemma_last_index(s: Text, c: char)
    ensures
        -1 <= last_index(s, c) < s.len(),
    decreases s.len(),
{
    if s.len() > 0 && s.last() != c {
        lemma_last_index(s.drop_last(), c);
    }
}

/// The files beside a request that is done: its result, or why it failed.
pub fn result_name(name: &str) -> (r: String)
    ensures
        r@ == stem_of(name@) + ".result.json"@,
{
    plus(&split_name(name).0, ".result.json")
}

pub fn error_name(name: &str) -> (r: String)
    ensures
        r@ == stem_of(name@) + ".error.txt"@,
{
    plus(&split_name(name).0, ".error.txt")
}

/// The name with a number before its extension.
pub open spec fn numbered_file(name: Text, n: nat) -> Text {
    numbered(stem_of(name), ending_of(name), n)
}

pub open spec fn first_free(name: Text, taken: Seq<Text>, r: Text, n: nat) -> bool {
    &&& n >= 1
    &&& r == numbered_file(name, n)
    &&& !taken.contains(r)
    &&& forall|k: nat| 1 <= k < n ==> taken.contains(#[trigger] numbered_file(name, k))
}

/// A name that is not taken: the name itself, or with the first number that
/// makes it so.
pub fn unique_name(name: &str, taken: &Vec<String>) -> (r: String)
    requires
        taken@.len() < usize::MAX,
    ensures
        !texts(taken@).contains(r@),
        !texts(taken@).contains(name@) ==> r@ == name@,
        texts(taken@).contains(name@) ==> exists|n: nat| #[trigger] first_free(name@, texts(taken@), r@, n),
{
    if !holds(taken, name) {
        return own(name);
    }
    let (stem, ending) = split_name(name);
    let mut n: u64 = 1;
    loop
        invariant
            taken@.len() < usize::MAX,
            texts(taken@).contains(name@),
            stem@ == stem_of(name@),
            ending@ == ending_of(name@),
            1 <= n <= taken@.len() + 1,
            forall|k: nat| 1 <= k < n ==> texts(taken@).contains(#[trigger] numbered_file(name@, k)),
        decreases taken@.len() + 1 - n,
    {
        let r = numbered_name(&stem, &ending, n);
        assert(r@ == numbered_file(name@, n as nat));
        if !holds(taken, &r) {
            assert(first_free(name@, texts(taken@), r@, n as nat));
            return r;
        }
        proof {
            assert forall|k: nat| 1 <= k < n + 1 implies texts(taken@).contains(#[trigger] numbered_file(name@, k)) by {
                if k == n {
                    assert(numbered_file(name@, k) == r@);
                }
            }
            lemma_pigeons(name@, texts(taken@), n as nat + 1);
            assert(n < taken@.len() + 1);
        }
        n += 1;
    }
}

/// As many different names are taken as there are numbers in use.
proof fn lemma_pigeons(name: Text, taken: Seq<Text>, n: nat)
    requires
        n >= 1,
        forall|k: nat| 1 <= k < n ==> taken.contains(#[trigger] numbered_file(name, k)),
    ensures
        n - 1 <= taken.len(),
    decreases n,
{
    if n > 1 {
        let last = numbered_file(name, (n - 1) as nat);
        assert(taken.contains(last));
        let i = choose|i: int| 0 <= i < taken.len() && taken[i] == last;
        let rest = taken.remove(i);
        assert forall|k: nat| 1 <= k < n - 1 implies rest.contains(#[trigger] numbered_file(name, k)) by {
            let x = numbered_file(name, k);
            assert(taken.contains(x));
            let j = choose|j: int| 0 <= j < taken.len() && taken[j] == x;
            if i == j {
                lemma_numbers_differ(stem_of(name), ending_of(name), k, (n - 1) as nat);
            }
            if j < i {
                assert(rest[j] == x);
            } else {
                assert(rest[j - 1] == x);
            }
        }
        lemma_pigeons(name, rest, (n - 1) as nat);
    }
}

proof fn lemma_numbers_differ(stem: Text, ending: Text, a: nat, b: nat)
    requires
        numbered(stem, ending, a) == numbered(stem, ending, b),
    ensures
        a == b,
{
    let front = stem + "-"@;
    let x = numbered(stem, ending, a);
    let y = numbered(stem, ending, b);
    let tail = if ending.len() == 0 {
        Seq::<char>::empty()
    } else {
        "."@ + ending
    };
    assert(x =~= front + decimal(a) + tail);
    assert(y =~= front + decimal(b) + tail);
    assert(decimal(a).len() == decimal(b).len());
    assert(decimal(a) =~= x.subrange(front.len() as int, x.len() - tail.len()));
    assert(decimal(b) =~= y.subrange(front.len() as int, y.len() - tail.len()));
    lemma_decimal(a, b);
}

/// Different numbers are written differently.
proof fn lemma_decimal(a: nat, b: nat)
    requires
        decimal(a) == decimal(b),
    ensures
        a == b,
    decreases a,
{
    let x = decimal(a);
    let y = decimal(b);
    assert(x.len() >= 1 && y.len() >= 1);
    assert(x.last() == ((a % 10) + 48) as char);
    assert(y.last() == ((b % 10) + 48) as char);
    assert(a % 10 == b % 10);
    if a >= 10 {
        assert(decimal(a / 10).len() >= 1);
        assert(x.len() >= 2);
        assert(b >= 10);
        assert(x.drop_last() =~= decimal(a / 10));
        assert(y.drop_last() =~= decimal(b / 10));
        lemma_decimal(a / 10, b / 10);
    } else if b >= 10 {
        assert(decimal(b / 10).len() >= 1);
        assert(y.len() >= 2);
    }
}

/// Exactly the JSON files of a directory are its requests, and they come in the
/// order of their names.
pub proof fn every_json_file_is_a_request(names: Seq<String>, i: int, j: int, x: String)
    ensures
        ({
            let r = sorted_by(requests_of(names), rank_fn::<String>());
            &&& 0 <= i < names.len() && name_extension(names[i]@) == Some("json"@) ==> r.contains(names[i])
            &&& r.contains(x) ==> names.contains(x) && name_extension(x@) == Some("json"@)
            &&& 0 <= i < j < r.len() ==> !text_lt(r[j]@, r[i]@)
        }),
{
    broadcast use vstd::seq_lib::group_filter_ensures;

    let f = |n: String| is_request(n@);
    let s = requests_of(names);
    let r = sorted_by(s, rank_fn::<String>());
    sorting_orders_and_keeps(s, rank_fn::<String>());
    vstd::seq_lib::to_multiset_contains(s, x);
    vstd::seq_lib::to_multiset_contains(r, x);
    if 0 <= i < names.len() && is_request(names[i]@) {
        assert(f(names[i]));
        assert(names.filter(f).contains(names[i]));
        vstd::seq_lib::to_multiset_contains(s, names[i]);
        vstd::seq_lib::to_multiset_contains(r, names[i]);
    }
    if r.contains(x) {
        assert(s.contains(x));
        names.lemma_filter_contains_rev(f, x);
        let k = choose|k: int| 0 <= k < s.len() && s[k] == x;
        assert(f(s[k]));
    }
    if 0 <= i < j < r.len() {
        let a = rank_fn::<String>()(r[j]);
        let b = rank_fn::<String>()(r[i]);
        assert(a == seq![r[j]@] && b == seq![r[i]@]);
        assert(a[0] == r[j]@ && b[0] == r[i]@);
        if text_lt(r[j]@, r[i]@) {
            lemma_text_lt_irreflexive(r[j]@);
            the_first_part_that_differs_decides(a, b, 0);
        }
    }
}

/// A name is its stem, a dot and its extension, if it has one.
pub proof fn a_name_is_its_stem_and_its_ending(name: Text)
    ensures
        name_extension(name) matches Some(e) ==> name == stem_of(name) + seq!['.'] + e && ending_of(name) == e,
        name_extension(name) is None ==> stem_of(name) == name && ending_of(name).len() == 0,
{
    lemma_dot_found(name, '.');
    if let Some(e) = name_extension(name) {
        let dot = last_index(name, '.');
        assert(stem_of(name) =~= name.take(dot));
        assert(name =~= name.take(dot) + seq!['.'] + name.skip(dot + 1));
    }
}

proof fn lemma_dot_found(s: Text, c: char)
    ensures
        -1 <= last_index(s, c) < s.len(),
        last_index(s, c) >= 0 ==> s[last_index(s, c)] == c,
    decreases s.len(),
{
    if s.len() > 0 && s.last() != c {
        lemma_dot_found(s.drop_last(), c);
    }
}

/// Requests lie below the memory of the project, each tool apart.
pub proof fn requests_lie_below_the_project(project: Text, tool: Text)
    requires
        project.len() > 0,
        project.last() != '/',
    ensures
        tool_root(project, tool) == project + "/project-memory/.violet/"@ + tool,
{
    reveal_strlit("/project-memory/.violet/");
    reveal_strlit("project-memory");
    reveal_strlit(".violet");
    reveal_strlit("/");
    let a = below(project, "project-memory"@);
    assert(a.last() == 'y');
    let b = below(a, ".violet"@);
    assert(b.last() == 't');
    assert(tool_root(project, tool) =~= project + "/project-memory/.violet/"@ + tool);
}

} // verus!
