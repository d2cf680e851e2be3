//! How projects, agents and posts are named and abbreviated.
use vstd::prelude::*;
use crate::ids::{id_char, is_component};
use crate::outside::{all_hex, doc_model, fresh_hex, is_compact, now_compact, parse_yaml, to_uppercase};
use crate::outside::unicode_upper;
use crate::outside::{yaml_document, YamlDoc, YamlModel};
use crate::text::{alnum, blank, char_count, chars_of, cut, dedup, dedup_onto, holds, join, joined, lemma_dedup_onto};
use crate::text::{is_space, opt_text, own, pieces, plus, slice_text, split, split_once, texts, trim, trimmed, Text};
use crate::yaml::{either, entries, entries_of, filled, lookup, text_field};
use crate::text::dedup_keeps_each_text_once;
use crate::text::stands_at;
use crate::text::begins;
use crate::text::occurs;
use crate::text::ends;
use crate::text::a_separator_ends_a_piece;
use crate::text::a_text_is_cut_at_the_first_mark;

verus! {

// ------------------------------------------------------------------ projects

pub open spec fn is_separator(c: char) -> bool {
    c == '-' || c == '_' || c == '/'
}

/// Separators become blanks, and each word begins with a capital.
pub open spec fn humanized(s: Text) -> Text
    decreases s.len(),
{
    if s.len() == 0 {
        Seq::empty()
    } else {
        let head = humanized(s.drop_last());
        let c = s.last();
        if is_separator(c) {
            head.push(' ')
        } else if s.len() == 1 || is_separator(s[s.len() - 2]) {
            head + unicode_upper(c)
        } else {
            head.push(c)
        }
    }
}

pub open spec fn project_label(s: Text) -> Text {
    if trimmed(humanized(s)).len() == 0 {
        "Project"@
    } else {
        humanized(s)
    }
}

/// No separator is left in a text.
pub open spec fn unseparated(s: Text) -> bool {
    forall|i: int| 0 <= i < s.len() ==> !is_separator(#[trigger] s[i])
}

/// A text with its words capitalized and without separators.
pub fn humanize_project_label(value: &str) -> (r: String)
    ensures
        r@ == project_label(value@),
        trimmed(r@).len() > 0,
        unseparated(r@),
{
    let v = chars_of(value);
    let mut out = String::new();
    let mut capitalize = true;
    let mut i: usize = 0;
    while i < v.len()
        invariant
            i <= v.len(),
            out@ == humanized(v@.take(i as int)),
            capitalize == (i == 0 || is_separator(v@[i - 1])),
            unseparated(out@),
        decreases v.len() - i,
    {
        let c = v[i];
        let ghost was = out@;
        let ghost next = v@.take(i + 1);
        assert(next.drop_last() =~= v@.take(i as int));
        assert(next.last() == c);
        if i > 0 {
            assert(next[next.len() - 2] == v@[i - 1]);
        }
        if c == '-' || c == '_' || c == '/' {
            out.push(' ');
            capitalize = true;
        } else if capitalize {
            let upper = to_uppercase(c);
            out.append(&upper);
            capitalize = false;
            proof {
                assert forall|j: int| 0 <= j < out@.len() implies !is_separator(#[trigger] out@[j]) by {
                    if j < was.len() {
                        assert(out@[j] == was[j]);
                    } else {
                        assert(out@[j] == upper@[j - was.len()]);
                    }
                }
            }
        } else {
            out.push(c);
        }
        i += 1;
    }
    assert(v@.take(i as int) =~= v@);
    if blank(&out) {
        proof {
            lemma_project_word();
        }
        own("Project")
    } else {
        out
    }
}

proof fn lemma_project_word()
    ensures
        trimmed("Project"@).len() > 0,
        unseparated("Project"@),
{
    reveal_strlit("Project");
    let p = "Project"@;
    assert(!is_space(p[0]) && !is_space(p.last()));
    assert(trimmed(p) == p);
}

/// The label of a project without one of its own: its identifier without the
/// owner, that is without what stands before the first hyphen.
pub open spec fn label_from_id(id: Text) -> Text {
    let t = trimmed(id);
    if t.len() == 0 {
        "Project"@
    } else {
        match cut(t, "-"@) {
            Some((_, rest)) => if trimmed(rest).len() > 0 {
                project_label(rest)
            } else {
                project_label(t)
            },
            None => project_label(t),
        }
    }
}

/// How a project is shown.
pub open spec fn project_name(id: Text, fallback: Option<Text>) -> Text {
    match fallback {
        Some(f) => if trimmed(f).len() > 0 {
            project_label(trimmed(f))
        } else {
            label_from_id(id)
        },
        None => label_from_id(id),
    }
}

pub open spec fn opt_str(s: Option<&str>) -> Option<Text> {
    match s {
        Some(t) => Some(t@),
        None => None,
    }
}

/// The name of a project as it is shown. A label of its own decides it, whatever
/// the identifier. It is never blank and holds no separator.
pub fn display_project_name_with_fallback(project_id: &str, fallback: Option<&str>) -> (r: String)
    ensures
        r@ == project_name(project_id@, opt_str(fallback)),
        fallback matches Some(f) && trimmed(f@).len() > 0 ==> forall|other: Text|
            #[trigger] project_name(other, opt_str(fallback)) == r@,
        trimmed(r@).len() > 0,
        unseparated(r@),
{
    if let Some(f) = fallback {
        let f = trim(f);
        if !f.as_str().is_empty() {
            return humanize_project_label(&f);
        }
    }
    let t = trim(project_id);
    if t.as_str().is_empty() {
        proof {
            lemma_project_word();
        }
        return own("Project");
    }
    if let Some(pair) = split_once(&t, "-") {
        if !blank(&pair.1) {
            return humanize_project_label(&pair.1);
        }
    }
    humanize_project_label(&t)
}

// --------------------------------------------------------------------- lists

/// What is left of texts after trimming; blank ones vanish.
pub open spec fn filled_items(s: Seq<Text>) -> Seq<Text>
    decreases s.len(),
{
    if s.len() == 0 {
        Seq::empty()
    } else {
        let rest = filled_items(s.drop_last());
        if trimmed(s.last()).len() > 0 {
            rest.push(trimmed(s.last()))
        } else {
            rest
        }
    }
}

/// The trimmed pieces of a text between separators, without blank ones.
pub fn items_between(value: &str, sep: char) -> (r: Vec<String>)
    ensures
        texts(r@) == filled_items(pieces(value@, sep)),
{
    let list = split(value, sep);
    let ghost all = pieces(value@, sep);
    let mut out: Vec<String> = Vec::new();
    let mut i: usize = 0;
    assert(texts(out@) =~= filled_items(all.take(0)));
    while i < list.len()
        invariant
            texts(list@) == all,
            i <= list@.len(),
            texts(out@) == filled_items(all.take(i as int)),
        decreases list@.len() - i,
    {
        let ghost was = out@;
        assert(all.take(i + 1).drop_last() =~= all.take(i as int));
        assert(all.take(i + 1).last() == list@[i as int]@);
        let t = trim(&list[i]);
        if !t.as_str().is_empty() {
            out.push(t);
            assert(texts(out@) =~= texts(was).push(t@));
        }
        i += 1;
    }
    assert(all.take(i as int) =~= all);
    out
}

/// A comma-separated list of projects.
pub fn parse_project_list(value: &str) -> (r: Vec<String>)
    ensures
        texts(r@) == filled_items(pieces(value@, ',')),
{
    items_between(value, ',')
}

/// All projects that a list of tags names, one after the other.
pub open spec fn tagged_projects(tags: Seq<Text>) -> Seq<Text>
    decreases tags.len(),
{
    if tags.len() == 0 {
        Seq::empty()
    } else {
        tagged_projects(tags.drop_last()) + filled_items(pieces(trimmed(tags.last()), ','))
    }
}

proof fn lemma_dedup_append(seen: Seq<Text>, a: Seq<Text>, b: Seq<Text>)
    ensures
        dedup_onto(seen, a + b) == dedup_onto(dedup_onto(seen, a), b),
    decreases a.len(),
{
    if a.len() == 0 {
        assert(a + b =~= b);
    } else {
        assert((a + b).drop_first() =~= a.drop_first() + b);
        assert((a + b)[0] == a[0]);
        if seen.contains(a[0]) {
            lemma_dedup_append(seen, a.drop_first(), b);
        } else {
            lemma_dedup_append(seen.push(a[0]), a.drop_first(), b);
        }
    }
}

/// Add the texts of `more` that are new, in order.
fn add_new(out: &mut Vec<String>, more: &Vec<String>)
    ensures
        texts(final(out)@) == dedup_onto(texts(old(out)@), texts(more@)),
{
    let ghost start = texts(out@);
    let ghost m = texts(more@);
    let mut i: usize = 0;
    assert(m.skip(0) =~= m);
    while i < more.len()
        invariant
            m == texts(more@),
            i <= more@.len(),
            dedup_onto(start, m) == dedup_onto(texts(out@), m.skip(i as int)),
        decreases more@.len() - i,
    {
        let ghost was = out@;
        let ghost rest = m.skip(i as int);
        assert(rest[0] == more@[i as int]@);
        assert(rest.drop_first() =~= m.skip(i + 1));
        if !holds(out, &more[i]) {
            out.push(more[i].clone());
            assert(texts(out@) =~= texts(was).push(more@[i as int]@));
        }
        i += 1;
    }
    assert(m.skip(i as int).len() == 0);
}

/// The projects that the tags name, each once, in order of first mention.
pub fn normalize_project_tags(tags: &Vec<String>) -> (r: Vec<String>)
    ensures
        texts(r@) == dedup(tagged_projects(texts(tags@))),
        texts(r@).no_duplicates(),
{
    let ghost all = texts(tags@);
    let mut out: Vec<String> = Vec::new();
    let mut i: usize = 0;
    assert(texts(out@) =~= Seq::<Text>::empty());
    while i < tags.len()
        invariant
            all == texts(tags@),
            i <= tags@.len(),
            texts(out@) == dedup(tagged_projects(all.take(i as int))),
        decreases tags@.len() - i,
    {
        assert(all.take(i + 1).drop_last() =~= all.take(i as int));
        assert(all.take(i + 1).last() == tags@[i as int]@);
        let items = parse_project_list(&trim(&tags[i]));
        proof {
            lemma_dedup_append(Seq::empty(), tagged_projects(all.take(i as int)), texts(items@));
        }
        add_new(&mut out, &items);
        i += 1;
    }
    assert(all.take(i as int) =~= all);
    proof {
        lemma_dedup_onto(Seq::empty(), tagged_projects(all));
    }
    out
}

// ------------------------------------------------------------------- preview

/// The lines of a body on one line, at most 220 characters.
pub open spec fn preview(body: Text) -> Text {
    let text = joined(filled_items(pieces(body, '\n')), " "@);
    if text.len() <= 220 {
        text
    } else {
        text.take(217) + "..."@
    }
}

pub fn preview_markdown(body: &str) -> (r: String)
    ensures
        r@ == preview(body@),
        r@.len() <= 220,
{
    let text = join(&items_between(body, '\n'), " ");
    if char_count(&text) <= 220 {
        return text;
    }
    let v = chars_of(&text);
    proof {
        reveal_strlit("...");
        assert(v@.subrange(0, 217) =~= v@.take(217));
    }
    plus(&slice_text(&v, 0, 217), "...")
}

// --------------------------------------------------------------- identifiers

/// A text as a file name: other characters become hyphens, one for one.
pub open spec fn file_id(s: Text) -> Text {
    Seq::new(
        s.len(),
        |i: int|
            if id_char(s[i]) {
                s[i]
            } else {
                '-'
            },
    )
}

pub fn sanitize_id(value: &str) -> (r: String)
    ensures
        r@ == file_id(value@),
{
    let v = chars_of(value);
    let mut out = String::new();
    let mut i: usize = 0;
    while i < v.len()
        invariant
            i <= v.len(),
            out@ == file_id(v@).take(i as int),
        decreases v.len() - i,
    {
        let c = v[i];
        if alnum(c) || c == '-' || c == '_' || c == '.' {
            out.push(c);
        } else {
            out.push('-');
        }
        i += 1;
        assert(out@ =~= file_id(v@).take(i as int));
    }
    assert(file_id(v@).take(i as int) =~= file_id(v@));
    out
}

/// A sanitised name is its own sanitised name.
pub proof fn sanitising_twice_changes_nothing(s: Text)
    ensures
        file_id(file_id(s)) == file_id(s),
        file_id(s).len() == s.len(),
{
    assert(file_id(file_id(s)) =~= file_id(s));
}

/// The identifier of a post, given the time and its random part.
pub open spec fn post_id(timestamp: Text, agent: Text, token: Text) -> Text {
    "post-"@ + timestamp + "-"@ + file_id(agent) + "-"@ + token
}

pub fn post_id_with(timestamp: &str, agent_id: &str, token: &str) -> (r: String)
    ensures
        r@ == post_id(timestamp@, agent_id@, token@),
{
    let mut out = own("post-");
    out.append(timestamp);
    out.append("-");
    out.append(&sanitize_id(agent_id));
    out.append("-");
    out.append(token);
    out
}

/// The time in an identifier: digits, as long as years have four of them.
pub open spec fn is_stamp(s: Text) -> bool {
    s.len() == 15 ==> is_compact(s)
}

/// The identifier of a new post: its random part is eight hexadecimal digits.
pub fn mint_post_id(agent_id: &str) -> (r: String)
    ensures
        exists|timestamp: Text, token: Text|
            is_stamp(timestamp) && token.len() == 8 && all_hex(token) && r@ == #[trigger] post_id(
                timestamp,
                agent_id@,
                token,
            ),
{
    let timestamp = now_compact();
    let hex = chars_of(&fresh_hex());
    let token = slice_text(&hex, 0, 8);
    assert(all_hex(token@));
    let r = post_id_with(&timestamp, agent_id, &token);
    assert(r@ == post_id(timestamp@, agent_id@, token@));
    r
}

/// The identifier of a new thread: twelve hexadecimal digits.
pub fn mint_thread_id() -> (r: String)
    ensures
        exists|token: Text| token.len() == 12 && all_hex(token) && #[trigger] ("thread-"@ + token) == r@,
{
    let hex = chars_of(&fresh_hex());
    let token = slice_text(&hex, 0, 12);
    assert(all_hex(token@));
    let r = plus("thread-", &token);
    assert(("thread-"@ + token@) == r@);
    r
}

// --------------------------------------------------------------------- agent

/// The first filled text field of two.
pub open spec fn agent_field(doc: Option<YamlModel>, a: Text, b: Text) -> Option<Text> {
    match doc {
        Some(d) => match entries_of(d) {
            Some(s) => either(filled(lookup(s, a)), filled(lookup(s, b))),
            None => None,
        },
        None => None,
    }
}

pub fn agent_string(doc: &Option<YamlDoc>, a: &str, b: &str) -> (r: Option<String>)
    ensures
        opt_text(r) == agent_field(doc_model(*doc), a@, b@),
{
    match doc {
        Some(d) => match entries(d) {
            Some(v) => match text_field(v, a) {
                Some(t) => Some(t),
                None => text_field(v, b),
            },
            None => None,
        },
        None => None,
    }
}

/// The display name in the text of an agent's metadata.
pub fn agent_display_name_from_yaml(text: &str) -> (r: Option<String>)
    ensures
        opt_text(r) == agent_field(yaml_document(text@), "display-name"@, "displayName"@),
{
    agent_string(&parse_yaml(text), "display-name", "displayName")
}

/// The avatar in the text of an agent's metadata.
pub fn agent_avatar_from_yaml(text: &str) -> (r: Option<String>)
    ensures
        opt_text(r) == agent_field(yaml_document(text@), "avatar-id"@, "avatarId"@),
{
    agent_string(&parse_yaml(text), "avatar-id", "avatarId")
}

// ---------------------------------------------------------------------- laws

/// A label of its own decides how a project is shown, whatever its identifier,
/// and the name is not blank.
pub proof fn a_label_decides_the_name(id: Text, other: Text, label: Text)
    requires
        trimmed(label).len() > 0,
    ensures
        project_name(id, Some(label)) == project_name(other, Some(label)),
        trimmed(project_name(id, Some(label))).len() > 0,
{
    lemma_project_word();
}

/// The identifier of a new post is one component of a path, as long as years
/// have four digits.
pub proof fn a_minted_post_id_is_a_component(timestamp: Text, agent: Text, token: Text)
    requires
        is_compact(timestamp),
        all_hex(token),
    ensures
        is_component(post_id(timestamp, agent, token)),
{
    reveal_strlit("post-");
    reveal_strlit("-");
    reveal_strlit(".");
    reveal_strlit("..");
    let id = post_id(timestamp, agent, token);
    assert(id[0] == 'p');
    let a = "post-"@;
    let b = a + timestamp;
    let c = b + "-"@;
    let d = c + file_id(agent);
    let e = d + "-"@;
    assert(id == e + token);
    assert forall|i: int| 0 <= i < id.len() implies id_char(#[trigger] id[i]) by {
        if i < a.len() {
            assert(id[i] == a[i]);
        } else if i < b.len() {
            assert(id[i] == timestamp[i - a.len()]);
        } else if i < c.len() {
            assert(id[i] == '-');
        } else if i < d.len() {
            assert(id[i] == file_id(agent)[i - c.len()]);
        } else if i < e.len() {
            assert(id[i] == '-');
        } else {
            assert(id[i] == token[i - e.len()]);
        }
    }
}

/// A word keeps all but its first letter, which becomes a capital.
pub proof fn a_word_is_capitalized(c: char, rest: Text)
    requires
        !is_separator(c),
        unseparated(rest),
    ensures
        humanized(seq![c] + rest) == unicode_upper(c) + rest,
    decreases rest.len(),
{
    let s = seq![c] + rest;
    if rest.len() == 0 {
        assert(s =~= seq![c]);
        assert(s.drop_last() =~= Seq::<char>::empty());
        assert(humanized(s.drop_last()) =~= Seq::<char>::empty());
        assert(humanized(s) =~= unicode_upper(c) + rest);
    } else {
        assert forall|i: int| 0 <= i < rest.drop_last().len() implies !is_separator(#[trigger] rest.drop_last()[i]) by {
            assert(rest.drop_last()[i] == rest[i]);
        }
        a_word_is_capitalized(c, rest.drop_last());
        assert(s.drop_last() =~= seq![c] + rest.drop_last());
        assert(s.last() == rest.last());
        assert(!is_separator(rest[rest.len() - 1]));
        if rest.len() > 1 {
            assert(s[s.len() - 2] == rest[rest.len() - 2]);
            assert(!is_separator(rest[rest.len() - 2]));
        } else {
            assert(s[s.len() - 2] == c);
        }
        assert(humanized(s) =~= unicode_upper(c) + rest);
    }
}

/// A separator is a blank between words that are capitalized one by one.
pub proof fn words_are_capitalized_one_by_one(a: Text, c: char, b: Text)
    requires
        is_separator(c),
    ensures
        humanized(a.push(c) + b) == humanized(a).push(' ') + humanized(b),
    decreases b.len(),
{
    let s = a.push(c) + b;
    if b.len() == 0 {
        assert(s =~= a.push(c));
        assert(s.drop_last() =~= a);
        assert(humanized(s) =~= humanized(a).push(' ') + humanized(b));
    } else {
        words_are_capitalized_one_by_one(a, c, b.drop_last());
        assert(s.drop_last() =~= a.push(c) + b.drop_last());
        assert(s.last() == b.last());
        if b.len() > 1 {
            assert(s[s.len() - 2] == b[b.len() - 2]);
        } else {
            assert(s[s.len() - 2] == c);
        }
        assert(humanized(s) =~= humanized(a).push(' ') + humanized(b));
    }
}

/// A project without a label is shown without its owner: what stands before
/// the first hyphen is left out, unless nothing would be left.
pub proof fn the_owner_is_left_out(owner: Text, rest: Text)
    requires
        trimmed(owner + "-"@ + rest) == owner + "-"@ + rest,
        !occurs(owner, "-"@),
    ensures
        trimmed(rest).len() > 0 ==> project_name(owner + "-"@ + rest, None) == project_label(rest),
        trimmed(rest).len() == 0 ==> project_name(owner + "-"@ + rest, None) == project_label(owner + "-"@ + rest),
{
    reveal_strlit("-");
    let t = owner + "-"@ + rest;
    a_text_is_cut_at_the_first_mark(t, "-"@);
    assert(t.subrange(owner.len() as int, (owner.len() + 1) as int) =~= "-"@);
    assert(stands_at(t, "-"@, owner.len() as int));
    let (a, b) = cut(t, "-"@)->0;
    if a.len() < owner.len() {
        let i = a.len() as int;
        assert(t[i] == '-');
        assert(owner.subrange(i, i + 1) =~= "-"@);
        assert(stands_at(owner, "-"@, i));
        assert(false);
    }
    if a.len() > owner.len() {
        assert(!stands_at(t, "-"@, owner.len() as int));
        assert(false);
    }
    assert(b =~= rest) by {
        assert(t =~= a + "-"@ + b);
        assert(b.len() == rest.len());
        assert forall|i: int| 0 <= i < b.len() implies b[i] == rest[i] by {
            assert(t[a.len() + 1 + i] == b[i]);
        }
    }
}

proof fn lemma_filled_has(s: Seq<Text>, t: Text)
    ensures
        filled_items(s).contains(t) <==> t.len() > 0 && exists|i: int| 0 <= i < s.len() && t == trimmed(#[trigger] s[i]),
    decreases s.len(),
{
    let out = filled_items(s);
    if s.len() > 0 {
        let head = s.drop_last();
        lemma_filled_has(head, t);
        let rest = filled_items(head);
        assert(s[s.len() - 1] == s.last());
        if rest.contains(t) {
            let i = choose|i: int| 0 <= i < head.len() && t == trimmed(#[trigger] head[i]);
            assert(s[i] == head[i]);
            let j = choose|j: int| 0 <= j < rest.len() && rest[j] == t;
            assert(out[j] == t);
        }
        if out.contains(t) && !rest.contains(t) {
            let j = choose|j: int| 0 <= j < out.len() && out[j] == t;
            if j < rest.len() {
                assert(rest[j] == t);
            }
        }
        if t.len() > 0 && exists|i: int| 0 <= i < s.len() && t == trimmed(#[trigger] s[i]) {
            let i = choose|i: int| 0 <= i < s.len() && t == trimmed(#[trigger] s[i]);
            if i < head.len() {
                assert(head[i] == s[i]);
            } else {
                assert(out[rest.len() as int] == t);
            }
        }
    }
}

/// A list of projects holds every trimmed piece between its commas that is not
/// blank, and nothing else.
pub proof fn a_project_list_holds_its_pieces(value: Text, t: Text)
    ensures
        filled_items(pieces(value, ',')).contains(t) <==> t.len() > 0 && exists|i: int|
            0 <= i < pieces(value, ',').len() && t == trimmed(#[trigger] pieces(value, ',')[i]),
{
    lemma_filled_has(pieces(value, ','), t);
}

proof fn lemma_tagged(tags: Seq<Text>, t: Text)
    ensures
        tagged_projects(tags).contains(t) <==> exists|i: int|
            0 <= i < tags.len() && filled_items(pieces(trimmed(#[trigger] tags[i]), ',')).contains(t),
    decreases tags.len(),
{
    if tags.len() > 0 {
        let head = tags.drop_last();
        lemma_tagged(head, t);
        let a = tagged_projects(head);
        let b = filled_items(pieces(trimmed(tags.last()), ','));
        let out = tagged_projects(tags);
        assert(tags[tags.len() - 1] == tags.last());
        assert(out == a + b);
        if a.contains(t) {
            let i = choose|i: int| 0 <= i < head.len() && filled_items(pieces(trimmed(#[trigger] head[i]), ',')).contains(t);
            assert(tags[i] == head[i]);
            let j = choose|j: int| 0 <= j < a.len() && a[j] == t;
            assert(out[j] == t);
        }
        if b.contains(t) {
            let j = choose|j: int| 0 <= j < b.len() && b[j] == t;
            assert(out[a.len() + j] == t);
        }
        if out.contains(t) {
            let j = choose|j: int| 0 <= j < out.len() && out[j] == t;
            if j < a.len() {
                assert(a[j] == t);
            } else {
                assert(b[j - a.len()] == t);
            }
        }
        if exists|i: int| 0 <= i < tags.len() && filled_items(pieces(trimmed(#[trigger] tags[i]), ',')).contains(t) {
            let i = choose|i: int|
                0 <= i < tags.len() && filled_items(pieces(trimmed(#[trigger] tags[i]), ',')).contains(t);
            if i < head.len() {
                assert(head[i] == tags[i]);
            }
        }
    }
}

/// The tags of a thread name every project that some tag lists, each once.
pub proof fn the_tags_name_every_listed_project(tags: Seq<Text>, t: Text)
    ensures
        dedup(tagged_projects(tags)).no_duplicates(),
        dedup(tagged_projects(tags)).contains(t) <==> exists|i: int|
            0 <= i < tags.len() && filled_items(pieces(trimmed(#[trigger] tags[i]), ',')).contains(t),
{
    dedup_keeps_each_text_once(tagged_projects(tags));
    lemma_tagged(tags, t);
}

/// A body of one line is its own preview. A preview that is too long keeps its
/// first 217 characters and ends in three dots.
pub proof fn a_short_line_is_its_own_preview(body: Text)
    ensures
        !body.contains('\n') && trimmed(body).len() <= 220 ==> preview(body) == trimmed(body),
        !body.contains('\n') && trimmed(body).len() > 220 ==> preview(body) == trimmed(body).take(217) + "..."@,
        preview(body).len() <= 220,
{
    reveal_strlit("...");
    if !body.contains('\n') {
        a_separator_ends_a_piece(body, '\n', body);
        let p = pieces(body, '\n');
        assert(p.drop_last() =~= Seq::<Text>::empty());
        assert(p.last() == body);
        assert(filled_items(p.drop_last()) =~= Seq::<Text>::empty());
        if trimmed(body).len() > 0 {
            assert(filled_items(p) =~= seq![trimmed(body)]);
        } else {
            assert(filled_items(p) =~= Seq::<Text>::empty());
            assert(trimmed(body) =~= Seq::<char>::empty());
        }
    }
}

/// The name of a file keeps what an identifier may hold and has a hyphen for
/// everything else.
pub proof fn a_file_name_keeps_what_is_plain(s: Text, i: int)
    requires
        0 <= i < s.len(),
    ensures
        file_id(s).len() == s.len(),
        ('0' <= s[i] <= '9') || ('A' <= s[i] <= 'Z') || ('a' <= s[i] <= 'z') || s[i] == '-' || s[i] == '_' || s[i] == '.'
            ==> file_id(s)[i] == s[i],
        file_id(s)[i] != s[i] ==> file_id(s)[i] == '-',
        s[i] == '/' ==> file_id(s)[i] == '-',
{
}

/// The identifier of a post tells its time, its author and its random part.
pub proof fn a_post_is_named_by_time_and_author(timestamp: Text, agent: Text, token: Text)
    ensures
        begins(post_id(timestamp, agent, token), "post-"@ + timestamp + "-"@),
        ends(post_id(timestamp, agent, token), "-"@ + file_id(agent) + "-"@ + token),
{
    let id = post_id(timestamp, agent, token);
    let a = "post-"@ + timestamp + "-"@;
    let b = "-"@ + file_id(agent) + "-"@ + token;
    assert(id.take(a.len() as int) =~= a);
    assert(id.skip(id.len() - b.len()) =~= b);
}

} // verus!
