//! Text as sequences of characters: the vocabulary every contract uses, and
//! the executable operations that follow it.
use vstd::prelude::*;

verus! {

/// `String::push` appends one character at the end.
pub assume_specification[ String::push ](s: &mut String, c: char)
    ensures
        final(s)@ == old(s)@.push(c),
;

/// The mathematical model of a piece of text.
pub type Text = Seq<char>;

// ---------------------------------------------------------------- characters

/// Unicode `White_Space`, the property behind `char::is_whitespace`.
pub open spec fn is_space(c: char) -> bool {
    ||| '\u{9}' <= c <= '\u{d}'
    ||| c == ' '
    ||| c == '\u{85}'
    ||| c == '\u{a0}'
    ||| c == '\u{1680}'
    ||| '\u{2000}' <= c <= '\u{200a}'
    ||| c == '\u{2028}'
    ||| c == '\u{2029}'
    ||| c == '\u{202f}'
    ||| c == '\u{205f}'
    ||| c == '\u{3000}'
}

pub fn space(c: char) -> (r: bool)
    ensures
        r == is_space(c),
{
    ('\u{9}' <= c && c <= '\u{d}') || c == ' ' || c == '\u{85}' || c == '\u{a0}' || c == '\u{1680}'
        || ('\u{2000}' <= c && c <= '\u{200a}') || c == '\u{2028}' || c == '\u{2029}'
        || c == '\u{202f}' || c == '\u{205f}' || c == '\u{3000}'
}

pub open spec fn is_digit(c: char) -> bool {
    '0' <= c <= '9'
}

pub open spec fn is_upper(c: char) -> bool {
    'A' <= c <= 'Z'
}

pub open spec fn is_lower(c: char) -> bool {
    'a' <= c <= 'z'
}

/// ASCII letters and digits.
pub open spec fn is_alnum(c: char) -> bool {
    is_digit(c) || is_upper(c) || is_lower(c)
}

pub fn alnum(c: char) -> (r: bool)
    ensures
        r == is_alnum(c),
{
    ('0' <= c && c <= '9') || ('A' <= c && c <= 'Z') || ('a' <= c && c <= 'z')
}

/// The control characters (general category `Cc`).
pub open spec fn is_control(c: char) -> bool {
    c <= '\u{1f}' || '\u{7f}' <= c <= '\u{9f}'
}

pub fn control(c: char) -> (r: bool)
    ensures
        r == is_control(c),
{
    c <= '\u{1f}' || ('\u{7f}' <= c && c <= '\u{9f}')
}

/// ASCII lower case of one character.
pub open spec fn lower_char(c: char) -> char {
    if is_upper(c) {
        ((c as u32) + 32) as char
    } else {
        c
    }
}

pub fn to_lower_char(c: char) -> (r: char)
    ensures
        r == lower_char(c),
{
    if 'A' <= c && c <= 'Z' {
        ((c as u8) + 32) as char
    } else {
        c
    }
}

// ------------------------------------------------------------- text <-> chars

/// The characters of `s`, in order.
pub fn chars_of(s: &str) -> (r: Vec<char>)
    ensures
        r@ == s@,
{
    let mut out: Vec<char> = Vec::new();
    for c in it: s.chars()
        invariant
            out@ == it.seq().take(it.index() as int),
            it.seq() == s@,
    {
        out.push(c);
    }
    out
}

/// The text of the characters from `from` up to, not with, `to`.
pub fn slice_text(v: &Vec<char>, from: usize, to: usize) -> (r: String)
    requires
        from <= to <= v.len(),
    ensures
        r@ == v@.subrange(from as int, to as int),
{
    let mut out = String::new();
    let mut i: usize = from;
    while i < to
        invariant
            from <= i <= to <= v.len(),
            out@ == v@.subrange(from as int, i as int),
        decreases to - i,
    {
        out.push(v[i]);
        i += 1;
        assert(out@ =~= v@.subrange(from as int, i as int));
    }
    out
}

/// Owned copy of a borrowed text.
pub fn own(s: &str) -> (r: String)
    ensures
        r@ == s@,
{
    s.to_owned()
}

/// `a` followed by `b`.
pub fn plus(a: &str, b: &str) -> (r: String)
    ensures
        r@ == a@ + b@,
{
    let mut out = own(a);
    out.append(b);
    out
}

pub fn plus3(a: &str, b: &str, c: &str) -> (r: String)
    ensures
        r@ == a@ + b@ + c@,
{
    let mut out = own(a);
    out.append(b);
    out.append(c);
    out
}

/// Number of characters, as a machine integer.
pub fn char_count(s: &str) -> (r: usize)
    ensures
        r == s@.len(),
{
    s.unicode_len()
}

// ------------------------------------------------------------------ equality

/// Same characters.
pub fn same(a: &str, b: &str) -> (r: bool)
    ensures
        r == (a@ == b@),
{
    let x = chars_of(a);
    let y = chars_of(b);
    if x.len() != y.len() {
        return false;
    }
    let mut i: usize = 0;
    while i < x.len()
        invariant
            i <= x.len() == y.len(),
            x@ == a@,
            y@ == b@,
            x@.take(i as int) == y@.take(i as int),
        decreases x.len() - i,
    {
        if x[i] != y[i] {
            assert(a@[i as int] != b@[i as int]);
            return false;
        }
        i += 1;
        assert(x@.take(i as int) =~= y@.take(i as int));
    }
    assert(x@.take(i as int) =~= x@);
    assert(y@.take(i as int) =~= y@);
    true
}

/// Same optional text.
pub open spec fn opt_text(s: Option<String>) -> Option<Text> {
    match s {
        Some(t) => Some(t@),
        None => None,
    }
}

pub fn same_opt(a: &Option<String>, b: &Option<String>) -> (r: bool)
    ensures
        r == (opt_text(*a) == opt_text(*b)),
{
    match (a, b) {
        (Some(x), Some(y)) => same(x, y),
        (None, None) => true,
        _ => false,
    }
}

pub fn copy_opt(a: &Option<String>) -> (r: Option<String>)
    ensures
        r == *a,
        opt_text(r) == opt_text(*a),
{
    match a {
        Some(x) => Some(x.clone()),
        None => None,
    }
}

// --------------------------------------------------------------------- texts

/// The texts held by a vector of strings.
pub open spec fn texts(v: Seq<String>) -> Seq<Text> {
    Seq::new(v.len(), |i: int| v[i]@)
}

/// Copy of a list of texts.
pub fn copy_texts(v: &Vec<String>) -> (r: Vec<String>)
    ensures
        texts(r@) == texts(v@),
        r@ == v@,
{
    let mut out: Vec<String> = Vec::new();
    let mut i: usize = 0;
    while i < v.len()
        invariant
            i <= v.len(),
            out@ == v@.take(i as int),
        decreases v.len() - i,
    {
        out.push(v[i].clone());
        i += 1;
        assert(out@ =~= v@.take(i as int));
    }
    assert(out@ =~= v@);
    out
}

/// Does the list hold `s`?
pub fn holds(v: &Vec<String>, s: &str) -> (r: bool)
    ensures
        r == texts(v@).contains(s@),
{
    let mut i: usize = 0;
    while i < v.len()
        invariant
            i <= v.len(),
            forall|j: int| 0 <= j < i ==> #[trigger] v@[j]@ != s@,
        decreases v.len() - i,
    {
        if same(&v[i], s) {
            assert(texts(v@)[i as int] == s@);
            return true;
        }
        i += 1;
    }
    proof {
        if texts(v@).contains(s@) {
            let j = choose|j: int| 0 <= j < texts(v@).len() && texts(v@)[j] == s@;
            assert(v@[j]@ == s@);
        }
    }
    false
}

/// `seen` followed by the texts of `s` that are new, each once, in order.
pub open spec fn dedup_onto(seen: Seq<Text>, s: Seq<Text>) -> Seq<Text>
    decreases s.len(),
{
    if s.len() == 0 {
        seen
    } else if seen.contains(s[0]) {
        dedup_onto(seen, s.drop_first())
    } else {
        dedup_onto(seen.push(s[0]), s.drop_first())
    }
}

/// The distinct texts of `s` in order of first occurrence.
pub open spec fn dedup(s: Seq<Text>) -> Seq<Text> {
    dedup_onto(Seq::empty(), s)
}

pub proof fn lemma_dedup_onto(seen: Seq<Text>, s: Seq<Text>)
    requires
        seen.no_duplicates(),
    ensures
        dedup_onto(seen, s).no_duplicates(),
        forall|t: Text| #[trigger] dedup_onto(seen, s).contains(t) <==> seen.contains(t) || s.contains(t),
    decreases s.len(),
{
    if s.len() > 0 {
        let rest = s.drop_first();
        assert(forall|t: Text| s.contains(t) <==> t == s[0] || rest.contains(t)) by {
            assert forall|t: Text| s.contains(t) implies t == s[0] || rest.contains(t) by {
                let i = choose|i: int| 0 <= i < s.len() && s[i] == t;
                if i > 0 {
                    assert(rest[i - 1] == t);
                }
            }
            assert forall|t: Text| rest.contains(t) implies s.contains(t) by {
                let i = choose|i: int| 0 <= i < rest.len() && rest[i] == t;
                assert(s[i + 1] == t);
            }
            assert(s[0] == s[0] && s.contains(s[0]));
        }
        if seen.contains(s[0]) {
            lemma_dedup_onto(seen, rest);
        } else {
            let more = seen.push(s[0]);
            assert(more.no_duplicates());
            assert(forall|t: Text| more.contains(t) <==> seen.contains(t) || t == s[0]) by {
                assert forall|t: Text| seen.contains(t) implies more.contains(t) by {
                    let i = choose|i: int| 0 <= i < seen.len() && seen[i] == t;
                    assert(more[i] == t);
                }
                assert(more[seen.len() as int] == s[0]);
                assert forall|t: Text| more.contains(t) implies seen.contains(t) || t == s[0] by {
                    let i = choose|i: int| 0 <= i < more.len() && more[i] == t;
                    if i < seen.len() {
                        assert(seen[i] == t);
                    }
                }
            }
            lemma_dedup_onto(more, rest);
        }
    }
}

/// `dedup` keeps every text, and each only once.
pub proof fn dedup_keeps_each_text_once(s: Seq<Text>)
    ensures
        dedup(s).no_duplicates(),
        forall|t: Text| #[trigger] dedup(s).contains(t) <==> s.contains(t),
{
    lemma_dedup_onto(Seq::empty(), s);
}

// ---------------------------------------------------------------------- trim

/// Without the leading characters that satisfy `p`.
pub open spec fn drop_front(s: Text, p: spec_fn(char) -> bool) -> Text
    decreases s.len(),
{
    if s.len() > 0 && p(s[0]) {
        drop_front(s.drop_first(), p)
    } else {
        s
    }
}

/// Without the trailing characters that satisfy `p`.
pub open spec fn drop_back(s: Text, p: spec_fn(char) -> bool) -> Text
    decreases s.len(),
{
    if s.len() > 0 && p(s.last()) {
        drop_back(s.drop_last(), p)
    } else {
        s
    }
}

pub open spec fn space_fn() -> spec_fn(char) -> bool {
    |c: char| is_space(c)
}

pub open spec fn only(x: char) -> spec_fn(char) -> bool {
    |c: char| c == x
}

/// `str::trim`.
pub open spec fn trimmed(s: Text) -> Text {
    drop_back(drop_front(s, space_fn()), space_fn())
}

proof fn lemma_front(s: Text, p: spec_fn(char) -> bool, i: int)
    requires
        0 <= i <= s.len(),
        forall|j: int| 0 <= j < i ==> p(#[trigger] s[j]),
        i < s.len() ==> !p(s[i]),
    ensures
        drop_front(s, p) == s.subrange(i, s.len() as int),
    decreases i,
{
    if i > 0 {
        lemma_front(s.drop_first(), p, i - 1);
        assert(s.drop_first().subrange(i - 1, s.len() - 1) =~= s.subrange(i, s.len() as int));
    } else {
        assert(s.subrange(0, s.len() as int) =~= s);
    }
}

proof fn lemma_back(s: Text, p: spec_fn(char) -> bool, i: int)
    requires
        0 <= i <= s.len(),
        forall|j: int| i <= j < s.len() ==> p(#[trigger] s[j]),
        i > 0 ==> !p(s[i - 1]),
    ensures
        drop_back(s, p) == s.take(i),
    decreases s.len() - i,
{
    if i < s.len() {
        lemma_back(s.drop_last(), p, i);
        assert(s.drop_last().take(i) =~= s.take(i));
    } else {
        assert(s.take(i) =~= s);
    }
}

pub fn trim(s: &str) -> (r: String)
    ensures
        r@ == trimmed(s@),
{
    let v = chars_of(s);
    let mut from: usize = 0;
    while from < v.len() && space(v[from])
        invariant
            from <= v.len(),
            forall|j: int| 0 <= j < from ==> is_space(#[trigger] v@[j]),
        decreases v.len() - from,
    {
        from += 1;
    }
    let mut to: usize = v.len();
    while to > from && space(v[to - 1])
        invariant
            from <= to <= v.len(),
            forall|j: int| to <= j < v.len() ==> is_space(#[trigger] v@[j]),
        decreases to,
    {
        to -= 1;
    }
    proof {
        lemma_front(v@, space_fn(), from as int);
        let mid = v@.subrange(from as int, v.len() as int);
        lemma_back(mid, space_fn(), to - from);
        assert(mid.take(to - from) =~= v@.subrange(from as int, to as int));
    }
    slice_text(&v, from, to)
}

/// `str::trim_start_matches` with one character.
pub fn trim_start_char(s: &str, x: char) -> (r: String)
    ensures
        r@ == drop_front(s@, only(x)),
{
    let v = chars_of(s);
    let mut from: usize = 0;
    while from < v.len() && v[from] == x
        invariant
            from <= v.len(),
            forall|j: int| 0 <= j < from ==> #[trigger] v@[j] == x,
        decreases v.len() - from,
    {
        from += 1;
    }
    proof {
        lemma_front(v@, only(x), from as int);
    }
    slice_text(&v, from, v.len())
}

/// `str::trim_end_matches` with one character.
pub fn trim_end_char(s: &str, x: char) -> (r: String)
    ensures
        r@ == drop_back(s@, only(x)),
{
    let v = chars_of(s);
    let mut to: usize = v.len();
    while to > 0 && v[to - 1] == x
        invariant
            to <= v.len(),
            forall|j: int| to <= j < v.len() ==> #[trigger] v@[j] == x,
        decreases to,
    {
        to -= 1;
    }
    proof {
        lemma_back(v@, only(x), to as int);
        assert(v@.take(to as int) =~= v@.subrange(0, to as int));
    }
    slice_text(&v, 0, to)
}

/// No text made of nothing but white space survives trimming.
pub fn blank(s: &str) -> (r: bool)
    ensures
        r == (trimmed(s@).len() == 0),
{
    let t = trim(s);
    t.as_str().is_empty()
}

// ------------------------------------------------------------ case, prefixes

/// ASCII lower case of a text.
pub open spec fn lower(s: Text) -> Text {
    Seq::new(s.len(), |i: int| lower_char(s[i]))
}

pub fn to_lower(s: &str) -> (r: String)
    ensures
        r@ == lower(s@),
{
    let v = chars_of(s);
    let mut out = String::new();
    let mut i: usize = 0;
    while i < v.len()
        invariant
            i <= v.len(),
            out@ == lower(v@).take(i as int),
        decreases v.len() - i,
    {
        out.push(to_lower_char(v[i]));
        i += 1;
        assert(out@ =~= lower(v@).take(i as int));
    }
    assert(lower(v@).take(i as int) =~= lower(v@));
    out
}

/// `p` is how `s` begins.
pub open spec fn begins(s: Text, p: Text) -> bool {
    p.len() <= s.len() && s.take(p.len() as int) == p
}

/// `p` is how `s` ends.
pub open spec fn ends(s: Text, p: Text) -> bool {
    p.len() <= s.len() && s.skip(s.len() - p.len()) == p
}

/// `p` stands in `s` at position `i`.
pub open spec fn stands_at(s: Text, p: Text, i: int) -> bool {
    0 <= i && i + p.len() <= s.len() && s.subrange(i, i + p.len()) == p
}

/// `p` occurs somewhere in `s`.
pub open spec fn occurs(s: Text, p: Text) -> bool {
    exists|i: int| #[trigger] stands_at(s, p, i)
}

pub fn matches_at(v: &Vec<char>, p: &Vec<char>, at: usize) -> (r: bool)
    ensures
        r == stands_at(v@, p@, at as int),
{
    if p.len() > v.len() || at > v.len() - p.len() {
        return false;
    }
    let mut j: usize = 0;
    while j < p.len()
        invariant
            j <= p.len(),
            at + p.len() <= v.len(),
            forall|k: int| 0 <= k < j ==> v@[at + k] == #[trigger] p@[k],
        decreases p.len() - j,
    {
        if v[at + j] != p[j] {
            assert(v@.subrange(at as int, at + p.len())[j as int] != p@[j as int]);
            return false;
        }
        j += 1;
    }
    assert(v@.subrange(at as int, at + p.len()) =~= p@);
    true
}

pub fn begins_with(s: &str, p: &str) -> (r: bool)
    ensures
        r == begins(s@, p@),
{
    let v = chars_of(s);
    let q = chars_of(p);
    assert(p@.len() <= s@.len() ==> s@.take(p@.len() as int) =~= s@.subrange(0, p@.len() as int));
    matches_at(&v, &q, 0)
}

pub fn ends_with(s: &str, p: &str) -> (r: bool)
    ensures
        r == ends(s@, p@),
{
    let v = chars_of(s);
    let q = chars_of(p);
    if q.len() > v.len() {
        return false;
    }
    assert(s@.skip(s@.len() - p@.len()) =~= s@.subrange(s@.len() - p@.len(), s@.len() as int));
    matches_at(&v, &q, v.len() - q.len())
}

/// What follows the prefix `p`, if `s` begins with it.
pub fn strip_front(s: &str, p: &str) -> (r: Option<String>)
    ensures
        r is Some == begins(s@, p@),
        r matches Some(t) ==> t@ == s@.skip(p@.len() as int),
{
    if begins_with(s, p) {
        let v = chars_of(s);
        let n = char_count(p);
        assert(s@.skip(n as int) =~= s@.subrange(n as int, s@.len() as int));
        Some(slice_text(&v, n, v.len()))
    } else {
        None
    }
}

/// What stands before the suffix `p`, if `s` ends with it.
pub fn strip_back(s: &str, p: &str) -> (r: Option<String>)
    ensures
        r is Some == ends(s@, p@),
        r matches Some(t) ==> t@ == s@.take(s@.len() - p@.len()),
{
    if ends_with(s, p) {
        let v = chars_of(s);
        let n = char_count(p);
        assert(s@.take(s@.len() - n) =~= s@.subrange(0, s@.len() - n));
        Some(slice_text(&v, 0, v.len() - n))
    } else {
        None
    }
}

/// The first place at or after `from` where `p` stands.
pub open spec fn first_from(s: Text, p: Text, from: int) -> Option<int>
    decreases s.len() + 1 - from,
{
    if from < 0 || from + p.len() > s.len() {
        None
    } else if stands_at(s, p, from) {
        Some(from)
    } else {
        first_from(s, p, from + 1)
    }
}

/// `first_from` finds a place exactly when there is one, and the first.
pub proof fn lemma_first_from(s: Text, p: Text, from: int)
    requires
        0 <= from,
    ensures
        first_from(s, p, from) matches Some(i) ==> from <= i && stands_at(s, p, i) && forall|j: int|
            from <= j < i ==> !#[trigger] stands_at(s, p, j),
        first_from(s, p, from) is None ==> forall|j: int| from <= j ==> !#[trigger] stands_at(s, p, j),
    decreases s.len() + 1 - from,
{
    if from + p.len() <= s.len() && !stands_at(s, p, from) {
        lemma_first_from(s, p, from + 1);
    }
}

pub fn find_from(v: &Vec<char>, p: &Vec<char>, from: usize) -> (r: Option<usize>)
    ensures
        r is Some == first_from(v@, p@, from as int) is Some,
        r matches Some(i) ==> first_from(v@, p@, from as int) == Some(i as int) && from <= i && i + p.len() <= v.len(),
{
    let mut i: usize = from;
    while p.len() <= v.len() && i <= v.len() - p.len()
        invariant
            from <= i,
            first_from(v@, p@, from as int) == first_from(v@, p@, i as int),
        decreases v.len() + 1 - i,
    {
        if matches_at(v, p, i) {
            return Some(i);
        }
        assert(p@.len() == 0 ==> v@.subrange(i as int, i as int) =~= p@);
        i += 1;
    }
    None
}

pub fn contains_text(s: &str, p: &str) -> (r: bool)
    ensures
        r == occurs(s@, p@),
{
    let v = chars_of(s);
    let q = chars_of(p);
    proof {
        lemma_first_from(s@, p@, 0);
    }
    find_from(&v, &q, 0).is_some()
}

/// `str::split_once`: around the first place where `p` stands.
pub open spec fn cut(s: Text, p: Text) -> Option<(Text, Text)> {
    match first_from(s, p, 0) {
        Some(i) => Some((s.take(i), s.skip(i + p.len()))),
        None => None,
    }
}

pub fn split_once(s: &str, p: &str) -> (r: Option<(String, String)>)
    ensures
        r is Some == cut(s@, p@) is Some,
        r matches Some(t) ==> cut(s@, p@) == Some((t.0@, t.1@)),
{
    let v = chars_of(s);
    let q = chars_of(p);
    match find_from(&v, &q, 0) {
        Some(i) => {
            assert(s@.take(i as int) =~= s@.subrange(0, i as int));
            assert(s@.skip(i + p@.len()) =~= s@.subrange(i + p@.len(), s@.len() as int));
            Some((slice_text(&v, 0, i), slice_text(&v, i + q.len(), v.len())))
        },
        None => None,
    }
}

/// `str::replace`: every place where `p` stands, from the left.
pub open spec fn replaced(s: Text, p: Text, to: Text) -> Text
    decreases s.len(),
{
    if p.len() == 0 {
        s
    } else {
        match first_from(s, p, 0) {
            Some(i) => if 0 <= i && i + p.len() <= s.len() {
                s.take(i) + to + replaced(s.skip(i + p.len()), p, to)
            } else {
                s
            },
            None => s,
        }
    }
}

pub fn replace(s: &str, p: &str, to: &str) -> (r: String)
    requires
        p@.len() > 0,
    ensures
        r@ == replaced(s@, p@, to@),
    decreases s@.len(),
{
    let v = chars_of(s);
    let q = chars_of(p);
    match find_from(&v, &q, 0) {
        Some(i) => {
            let rest = slice_text(&v, i + q.len(), v.len());
            assert(s@.take(i as int) =~= s@.subrange(0, i as int));
            assert(s@.skip(i + p@.len()) =~= s@.subrange(i + p@.len(), s@.len() as int));
            let tail = replace(&rest, p, to);
            plus3(&slice_text(&v, 0, i), to, &tail)
        },
        None => own(s),
    }
}

// --------------------------------------------------------------- split, join

/// `str::split` on one character.
pub open spec fn pieces(s: Text, sep: char) -> Seq<Text>
    decreases s.len(),
{
    if !s.contains(sep) {
        seq![s]
    } else {
        let i = s.index_of_first(sep)->0;
        if 0 <= i < s.len() {
            seq![s.take(i)] + pieces(s.skip(i + 1), sep)
        } else {
            seq![s]
        }
    }
}

pub fn split(s: &str, sep: char) -> (r: Vec<String>)
    ensures
        texts(r@) == pieces(s@, sep),
        r@.len() > 0,
{
    let v = chars_of(s);
    let mut out: Vec<String> = Vec::new();
    let mut from: usize = 0;
    let mut i: usize = 0;
    assert(s@.skip(0) =~= s@);
    assert(texts(out@) + pieces(s@.skip(0), sep) =~= pieces(s@, sep));
    while i < v.len()
        invariant
            v@ == s@,
            from <= i <= v.len(),
            forall|j: int| from <= j < i ==> v@[j] != sep,
            texts(out@) + pieces(s@.skip(from as int), sep) == pieces(s@, sep),
        decreases v.len() - i,
    {
        if v[i] == sep {
            let ghost rest = s@.skip(from as int);
            let piece = slice_text(&v, from, i);
            let ghost before = out@;
            out.push(piece);
            proof {
                let k = i - from;
                assert(rest[k] == sep);
                assert(rest.contains(sep));
                assert forall|j: int| 0 <= j < k implies rest[j] != sep by {
                    assert(rest[j] == v@[from + j]);
                }
                rest.index_of_first_ensures(sep);
                let f = rest.index_of_first(sep)->0;
                assert(f == k) by {
                    if f < k {
                        assert(rest[f] != sep);
                    }
                }
                assert(rest.take(k) =~= piece@);
                assert(rest.skip(k + 1) =~= s@.skip(i + 1));
                assert(texts(out@) =~= texts(before).push(piece@));
                assert(texts(out@) + pieces(s@.skip(i + 1), sep) =~= texts(before) + (seq![piece@]
                    + pieces(s@.skip(i + 1), sep)));
            }
            from = i + 1;
        }
        i += 1;
    }
    let last = slice_text(&v, from, v.len());
    let ghost before = out@;
    out.push(last);
    proof {
        let rest = s@.skip(from as int);
        assert(!rest.contains(sep)) by {
            if rest.contains(sep) {
                let j = choose|j: int| 0 <= j < rest.len() && rest[j] == sep;
                assert(v@[from + j] == sep);
            }
        }
        assert(last@ =~= rest);
        assert(texts(out@) =~= texts(before) + seq![rest]);
    }
    out
}

/// `parts` with `sep` between neighbours.
pub open spec fn joined(parts: Seq<Text>, sep: Text) -> Text
    decreases parts.len(),
{
    if parts.len() == 0 {
        Seq::empty()
    } else if parts.len() == 1 {
        parts[0]
    } else {
        joined(parts.drop_last(), sep) + sep + parts.last()
    }
}

pub fn join(parts: &Vec<String>, sep: &str) -> (r: String)
    ensures
        r@ == joined(texts(parts@), sep@),
{
    let mut out = String::new();
    let mut i: usize = 0;
    while i < parts.len()
        invariant
            i <= parts.len(),
            out@ == joined(texts(parts@).take(i as int), sep@),
        decreases parts.len() - i,
    {
        let ghost done = texts(parts@).take(i + 1);
        assert(done.drop_last() =~= texts(parts@).take(i as int));
        assert(done.last() == parts@[i as int]@);
        if i > 0 {
            out.append(sep);
        }
        out.append(parts[i].as_str());
        i += 1;
    }
    assert(texts(parts@).take(i as int) =~= texts(parts@));
    out
}

// --------------------------------------------------------------------- words

/// How many characters pass before the first white space.
pub open spec fn run_len(s: Text) -> nat
    decreases s.len(),
{
    if s.len() == 0 || is_space(s[0]) {
        0
    } else {
        1 + run_len(s.drop_first())
    }
}

pub proof fn lemma_run_len(s: Text, n: int)
    requires
        0 <= n <= s.len(),
        forall|j: int| 0 <= j < n ==> !is_space(#[trigger] s[j]),
        n < s.len() ==> is_space(s[n]),
    ensures
        run_len(s) == n,
    decreases s.len(),
{
    if n > 0 {
        lemma_run_len(s.drop_first(), n - 1);
    }
}

pub proof fn lemma_drop_front_len(s: Text, p: spec_fn(char) -> bool)
    ensures
        drop_front(s, p).len() <= s.len(),
        drop_front(s, p).len() > 0 ==> !p(drop_front(s, p)[0]),
    decreases s.len(),
{
    if s.len() > 0 && p(s[0]) {
        lemma_drop_front_len(s.drop_first(), p);
    }
}

/// `str::split_whitespace`: the runs of characters between white space.
pub open spec fn words(s: Text) -> Seq<Text>
    decreases s.len(),
    via words_decreases
{
    let t = drop_front(s, space_fn());
    if t.len() == 0 {
        Seq::empty()
    } else {
        let n = run_len(t) as int;
        seq![t.take(n)] + words(t.skip(n))
    }
}

#[via_fn]
proof fn words_decreases(s: Text) {
    lemma_drop_front_len(s, space_fn());
    lemma_run_bound(drop_front(s, space_fn()));
}

proof fn lemma_run_bound(s: Text)
    ensures
        run_len(s) <= s.len(),
        s.len() > 0 && !is_space(s[0]) ==> run_len(s) > 0,
    decreases s.len(),
{
    if s.len() > 0 && !is_space(s[0]) {
        lemma_run_bound(s.drop_first());
    }
}

pub fn split_words(s: &str) -> (r: Vec<String>)
    ensures
        texts(r@) == words(s@),
{
    let v = chars_of(s);
    let mut out: Vec<String> = Vec::new();
    let mut i: usize = 0;
    assert(s@.skip(0) =~= s@);
    assert(texts(out@) + words(s@.skip(0)) =~= words(s@));
    while i < v.len()
        invariant
            v@ == s@,
            i <= v.len(),
            texts(out@) + words(s@.skip(i as int)) == words(s@),
        decreases v.len() - i,
    {
        let ghost rest = s@.skip(i as int);
        let mut from: usize = i;
        while from < v.len() && space(v[from])
            invariant
                v@ == s@,
                i <= from <= v.len(),
                forall|j: int| i <= j < from ==> is_space(#[trigger] v@[j]),
            decreases v.len() - from,
        {
            from += 1;
        }
        proof {
            assert forall|j: int| 0 <= j < from - i implies is_space(#[trigger] rest[j]) by {
                assert(rest[j] == v@[i + j]);
            }
            lemma_front(rest, space_fn(), from - i);
            assert(rest.subrange(from - i, rest.len() as int) =~= s@.skip(from as int));
        }
        if from == v.len() {
            assert(s@.skip(from as int).len() == 0);
            assert(words(rest) =~= Seq::<Text>::empty());
            assert(s@.skip(v.len() as int) =~= Seq::<char>::empty());
            assert(words(Seq::<char>::empty()) =~= Seq::<Text>::empty());
            i = from;
        } else {
            let mut to: usize = from;
            while to < v.len() && !space(v[to])
                invariant
                    v@ == s@,
                    from <= to <= v.len(),
                    forall|j: int| from <= j < to ==> !is_space(#[trigger] v@[j]),
                decreases v.len() - to,
            {
                to += 1;
            }
            let word = slice_text(&v, from, to);
            let ghost was = out@;
            out.push(word);
            proof {
                let t = s@.skip(from as int);
                assert forall|j: int| 0 <= j < to - from implies !is_space(#[trigger] t[j]) by {
                    assert(t[j] == v@[from + j]);
                }
                if to < v.len() {
                    assert(t[to - from] == v@[to as int]);
                }
                lemma_run_len(t, to - from);
                assert(t.take(to - from) =~= word@);
                assert(t.skip(to - from) =~= s@.skip(to as int));
                assert(words(rest) == seq![word@] + words(s@.skip(to as int)));
                assert(texts(out@) =~= texts(was).push(word@));
                assert(texts(out@) + words(s@.skip(to as int)) =~= texts(was) + words(rest));
                assert(to > i) by {
                    assert(!is_space(v@[from as int]));
                }
            }
            i = to;
        }
    }
    assert(s@.skip(i as int) =~= Seq::<char>::empty());
    assert(words(Seq::<char>::empty()) =~= Seq::<Text>::empty());
    assert(texts(out@) + Seq::<Text>::empty() =~= texts(out@));
    out
}

// --------------------------------------------------------------- replacement

/// Each character replaced by a text.
pub open spec fn spelled(s: Text, f: spec_fn(char) -> Text) -> Text
    decreases s.len(),
{
    if s.len() == 0 {
        Seq::empty()
    } else {
        spelled(s.drop_last(), f) + f(s.last())
    }
}

/// `str::trim_end_matches` with a text: the suffix is dropped as often as it occurs.
pub open spec fn drop_suffix(s: Text, p: Text) -> Text
    decreases s.len(),
{
    if p.len() > 0 && ends(s, p) {
        drop_suffix(s.take(s.len() - p.len()), p)
    } else {
        s
    }
}

pub fn trim_suffix(s: &str, p: &str) -> (r: String)
    ensures
        r@ == drop_suffix(s@, p@),
    decreases s@.len(),
{
    if p.is_empty() {
        return own(s);
    }
    match strip_back(s, p) {
        Some(rest) => trim_suffix(&rest, p),
        None => own(s),
    }
}

// ------------------------------------------------------------------ decimals

/// Decimal notation.
pub open spec fn decimal(n: nat) -> Text
    decreases n,
{
    let digit = ((n % 10) + 48) as char;
    if n < 10 {
        seq![digit]
    } else {
        decimal(n / 10).push(digit)
    }
}

pub fn to_decimal(n: u64) -> (r: String)
    ensures
        r@ == decimal(n as nat),
    decreases n,
{
    let digit = ((n % 10) as u8 + 48) as char;
    if n < 10 {
        let mut out = String::new();
        out.push(digit);
        assert(out@ =~= seq![digit]);
        out
    } else {
        let mut out = to_decimal(n / 10);
        out.push(digit);
        out
    }
}

// --------------------------------------------------------------------- order

/// Dictionary order by code point, which is also the order of UTF-8 bytes.
pub open spec fn text_lt(a: Text, b: Text) -> bool
    decreases a.len(),
{
    if b.len() == 0 {
        false
    } else if a.len() == 0 {
        true
    } else if a[0] != b[0] {
        a[0] < b[0]
    } else {
        text_lt(a.drop_first(), b.drop_first())
    }
}

pub proof fn lemma_text_lt_irreflexive(a: Text)
    ensures
        !text_lt(a, a),
    decreases a.len(),
{
    if a.len() > 0 {
        lemma_text_lt_irreflexive(a.drop_first());
    }
}

pub proof fn lemma_text_lt_transitive(a: Text, b: Text, c: Text)
    requires
        text_lt(a, b),
        text_lt(b, c),
    ensures
        text_lt(a, c),
    decreases a.len(),
{
    if a.len() > 0 && b.len() > 0 && c.len() > 0 && a[0] == b[0] && b[0] == c[0] {
        lemma_text_lt_transitive(a.drop_first(), b.drop_first(), c.drop_first());
    }
}

pub proof fn lemma_text_lt_total(a: Text, b: Text)
    ensures
        a == b || text_lt(a, b) || text_lt(b, a),
    decreases a.len(),
{
    if a.len() > 0 && b.len() > 0 && a[0] == b[0] {
        lemma_text_lt_total(a.drop_first(), b.drop_first());
        if a.drop_first() == b.drop_first() {
            assert(a =~= seq![a[0]] + a.drop_first());
            assert(b =~= seq![b[0]] + b.drop_first());
        }
    } else if a.len() == 0 && b.len() == 0 {
        assert(a =~= b);
    }
}

/// Is `a` before `b` in dictionary order?
pub fn before(a: &str, b: &str) -> (r: bool)
    ensures
        r == text_lt(a@, b@),
{
    let x = chars_of(a);
    let y = chars_of(b);
    let mut i: usize = 0;
    assert(a@.skip(0) =~= a@);
    assert(b@.skip(0) =~= b@);
    while i < x.len() && i < y.len()
        invariant
            x@ == a@,
            y@ == b@,
            i <= x.len(),
            i <= y.len(),
            text_lt(a@, b@) == text_lt(a@.skip(i as int), b@.skip(i as int)),
        decreases x.len() - i,
    {
        if x[i] != y[i] {
            return x[i] < y[i];
        }
        assert(a@.skip(i as int).drop_first() =~= a@.skip(i + 1));
        assert(b@.skip(i as int).drop_first() =~= b@.skip(i + 1));
        i += 1;
    }
    i < y.len()
}

/// The first difference decides the order of two texts: the smaller character
/// comes first, and a text comes before its continuations.
pub proof fn the_first_difference_decides(a: Text, b: Text, i: int)
    requires
        0 <= i <= a.len(),
        i < b.len(),
        a.take(i) == b.take(i),
    ensures
        i == a.len() ==> text_lt(a, b) && !text_lt(b, a),
        i < a.len() && a[i] < b[i] ==> text_lt(a, b) && !text_lt(b, a),
        i < a.len() && b[i] < a[i] ==> text_lt(b, a) && !text_lt(a, b),
    decreases i,
{
    if i > 0 {
        assert(a[0] == a.take(i)[0] && b[0] == b.take(i)[0]);
        if i < a.len() {
            assert(a.drop_first()[i - 1] == a[i] && b.drop_first()[i - 1] == b[i]);
        }
        assert(a.drop_first().take(i - 1) =~= a.take(i).drop_first());
        assert(b.drop_first().take(i - 1) =~= b.take(i).drop_first());
        the_first_difference_decides(a.drop_first(), b.drop_first(), i - 1);
    }
}

proof fn lemma_front_is_a_tail(s: Text, p: spec_fn(char) -> bool) -> (i: int)
    ensures
        0 <= i <= s.len(),
        drop_front(s, p) == s.skip(i),
        forall|j: int| 0 <= j < i ==> p(#[trigger] s[j]),
        i < s.len() ==> !p(s[i]),
    decreases s.len(),
{
    if s.len() > 0 && p(s[0]) {
        let t = s.drop_first();
        let k = lemma_front_is_a_tail(t, p);
        assert(t.skip(k) =~= s.skip(k + 1));
        assert forall|j: int| 0 <= j < k + 1 implies p(#[trigger] s[j]) by {
            if j > 0 {
                assert(s[j] == t[j - 1]);
            }
        }
        if k < t.len() {
            assert(t[k] == s[k + 1]);
        }
        k + 1
    } else {
        assert(s.skip(0) =~= s);
        0
    }
}

proof fn lemma_back_is_a_head(s: Text, p: spec_fn(char) -> bool) -> (i: int)
    ensures
        0 <= i <= s.len(),
        drop_back(s, p) == s.take(i),
        forall|j: int| i <= j < s.len() ==> p(#[trigger] s[j]),
        i > 0 ==> !p(s[i - 1]),
    decreases s.len(),
{
    if s.len() > 0 && p(s.last()) {
        let t = s.drop_last();
        let k = lemma_back_is_a_head(t, p);
        assert(t.take(k) =~= s.take(k));
        assert forall|j: int| k <= j < s.len() implies p(#[trigger] s[j]) by {
            if j < t.len() {
                assert(s[j] == t[j]);
            }
        }
        if k > 0 {
            assert(t[k - 1] == s[k - 1]);
        }
        k
    } else {
        assert(s.take(s.len() as int) =~= s);
        s.len() as int
    }
}

/// Trimming takes away white space at both ends and nothing else: what is left
/// is one piece of the text, only white space stands around it, and it neither
/// begins nor ends with any.
pub proof fn trimming_takes_away_white_space_only(s: Text) -> (r: (int, int))
    ensures
        0 <= r.0 <= r.1 <= s.len(),
        trimmed(s) == s.subrange(r.0, r.1),
        forall|j: int| 0 <= j < r.0 || r.1 <= j < s.len() ==> is_space(#[trigger] s[j]),
        trimmed(s).len() > 0 ==> !is_space(trimmed(s)[0]) && !is_space(trimmed(s).last()),
{
    let a = lemma_front_is_a_tail(s, space_fn());
    let t = s.skip(a);
    let b = lemma_back_is_a_head(t, space_fn());
    assert(trimmed(s) =~= s.subrange(a, a + b));
    assert forall|j: int| 0 <= j < a || a + b <= j < s.len() implies is_space(#[trigger] s[j]) by {
        if j < a {
            assert(space_fn()(s[j]));
        } else {
            assert(s[j] == t[j - a]);
            assert(space_fn()(t[j - a]));
        }
    }
    if trimmed(s).len() > 0 {
        assert(trimmed(s)[0] == s[a]);
        assert(trimmed(s).last() == t[b - 1]);
        assert(!space_fn()(s[a]) && !space_fn()(t[b - 1]));
    }
    (a, a + b)
}

/// What stands before the first separator is a piece of its own, and the rest
/// is split by itself; without a separator a text is its only piece.
pub proof fn a_separator_ends_a_piece(x: Text, sep: char, rest: Text)
    requires
        !x.contains(sep),
    ensures
        pieces(x, sep) == seq![x],
        pieces(x.push(sep) + rest, sep) == seq![x] + pieces(rest, sep),
{
    let s = x.push(sep) + rest;
    assert(s[x.len() as int] == sep);
    s.index_of_first_ensures(sep);
    let i = s.index_of_first(sep)->0;
    assert(i == x.len()) by {
        if i < x.len() {
            assert(x[i] == s[i]);
        }
    }
    assert(s.take(i) =~= x);
    assert(s.skip(i + 1) =~= rest);
}

/// Pieces hold no separator, and joining them gives the text back.
pub proof fn joined_pieces_are_the_text(s: Text, sep: char)
    ensures
        pieces(s, sep).len() > 0,
        forall|i: int| 0 <= i < pieces(s, sep).len() ==> !(#[trigger] pieces(s, sep)[i]).contains(sep),
        joined(pieces(s, sep), seq![sep]) == s,
    decreases s.len(),
{
    if s.contains(sep) {
        s.index_of_first_ensures(sep);
        let i = s.index_of_first(sep)->0;
        let x = s.take(i);
        let rest = s.skip(i + 1);
        joined_pieces_are_the_text(rest, sep);
        assert(!x.contains(sep)) by {
            if x.contains(sep) {
                let k = choose|k: int| 0 <= k < x.len() && x[k] == sep;
                assert(s[k] == sep);
            }
        }
        lemma_joined_front(x, pieces(rest, sep), seq![sep]);
        assert(s =~= x + seq![sep] + rest);
    } else {
        assert(pieces(s, sep) =~= seq![s]);
    }
}

proof fn lemma_joined_front(x: Text, p: Seq<Text>, sep: Text)
    requires
        p.len() > 0,
    ensures
        joined(seq![x] + p, sep) == x + sep + joined(p, sep),
    decreases p.len(),
{
    let all = seq![x] + p;
    assert(all.last() == p.last());
    assert(all.drop_last() =~= seq![x] + p.drop_last());
    if p.len() == 1 {
        assert(all.drop_last() =~= seq![x]);
        assert(joined(all.drop_last(), sep) == x);
        assert(joined(all, sep) =~= x + sep + p[0]);
    } else {
        lemma_joined_front(x, p.drop_last(), sep);
        assert(joined(all, sep) =~= x + sep + (joined(p.drop_last(), sep) + sep + p.last()));
    }
}

/// Replacing changes nothing where there is nothing to replace, and what
/// stands before the first place stays.
pub proof fn replacing_begins_at_the_first_place(s: Text, p: Text, to: Text, i: int)
    requires
        p.len() > 0,
    ensures
        !occurs(s, p) ==> replaced(s, p, to) == s,
        stands_at(s, p, i) && (forall|j: int| 0 <= j < i ==> !#[trigger] stands_at(s, p, j)) ==> replaced(s, p, to)
            == s.take(i) + to + replaced(s.skip(i + p.len()), p, to),
{
    lemma_first_from(s, p, 0);
}

/// A text is cut at the first place of the mark: the two parts and the mark
/// make up the text, and the mark does not stand any earlier.
pub proof fn a_text_is_cut_at_the_first_mark(s: Text, p: Text)
    ensures
        cut(s, p) is Some <==> occurs(s, p),
        cut(s, p) matches Some((a, b)) ==> s == a + p + b && forall|j: int|
            0 <= j < a.len() ==> !#[trigger] stands_at(s, p, j),
{
    lemma_first_from(s, p, 0);
    if let Some(i) = first_from(s, p, 0) {
        assert(s.subrange(i, i + p.len()) == p);
        assert(s =~= s.take(i) + s.subrange(i, i + p.len()) + s.skip(i + p.len()));
        assert(stands_at(s, p, i));
    } else if occurs(s, p) {
        let j = choose|j: int| #[trigger] stands_at(s, p, j);
        assert(0 <= j);
    }
}

/// Lower case changes capital letters of the alphabet alone, and keeps the
/// length.
pub proof fn lower_case_changes_capitals_alone(s: Text, i: int)
    requires
        0 <= i < s.len(),
    ensures
        lower(s).len() == s.len(),
        !('A' <= s[i] <= 'Z') ==> lower(s)[i] == s[i],
        'A' <= s[i] <= 'Z' ==> lower(s)[i] as u32 == s[i] as u32 + 32,
        lower(lower(s)) == lower(s),
{
    assert(lower(lower(s)) =~= lower(s));
}

/// Repeated texts vanish where they are repeated: what is left of a list comes
/// first in what is left of a longer one, and a list without repetition stays
/// as it is.
pub proof fn the_first_mention_stays(seen: Seq<Text>, s: Seq<Text>)
    ensures
        dedup_onto(seen, s).len() >= seen.len(),
        dedup_onto(seen, s).take(seen.len() as int) == seen,
        seen.no_duplicates() && s.no_duplicates() && (forall|i: int| 0 <= i < s.len() ==> !seen.contains(#[trigger] s[i]))
            ==> dedup_onto(seen, s) == seen + s,
    decreases s.len(),
{
    if s.len() == 0 {
        assert(seen.take(seen.len() as int) =~= seen);
        assert(seen + s =~= seen);
    } else {
        let t = s.drop_first();
        let next = if seen.contains(s[0]) {
            seen
        } else {
            seen.push(s[0])
        };
        the_first_mention_stays(next, t);
        let out = dedup_onto(seen, s);
        assert(out == dedup_onto(next, t));
        assert(out.take(seen.len() as int) =~= out.take(next.len() as int).take(seen.len() as int));
        assert(next.take(seen.len() as int) =~= seen);
        if seen.no_duplicates() && s.no_duplicates() && (forall|i: int|
            0 <= i < s.len() ==> !seen.contains(#[trigger] s[i])) {
            assert(!seen.contains(s[0]));
            assert(next.no_duplicates());
            assert forall|i: int, j: int| 0 <= i < t.len() && 0 <= j < t.len() && i != j implies t[i] != t[j] by {
                assert(t[i] == s[i + 1] && t[j] == s[j + 1]);
            }
            assert forall|i: int| 0 <= i < t.len() implies !next.contains(#[trigger] t[i]) by {
                assert(t[i] == s[i + 1]);
                if next.contains(t[i]) {
                    let k = choose|k: int| 0 <= k < next.len() && next[k] == t[i];
                    if k < seen.len() {
                        assert(seen[k] == t[i]);
                        assert(seen.contains(s[i + 1]));
                    } else {
                        assert(s[0] == s[i + 1]);
                    }
                }
            }
            assert(next + t =~= seen + s);
        }
    }
}

} // verus!
