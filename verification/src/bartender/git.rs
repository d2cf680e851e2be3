//! What the output of `git` means, and how results are put into words.
use vstd::prelude::*;
use crate::bbs::names::{filled_items, items_between};
use crate::order::{text_set, Key, OrderedSet};
use crate::text::{char_count, chars_of, contains_text, decimal, drop_back, drop_front, is_digit, join, joined};
use crate::text::{occurs, only, opt_text, own, pieces, plus, plus3, same, slice_text, split_words, texts, to_decimal};
use crate::text::{trim, trim_end_char, trim_start_char, trimmed, words, Text};
use crate::text::begins;
use crate::text::trimming_takes_away_white_space_only;
use crate::text::is_space;
use crate::text::stands_at;

verus! {

// -------------------------------------------------------------------- output

/// How many lines of a porcelain listing are not blank.
pub fn count_porcelain_changes(out: &str) -> (r: usize)
    ensures
        r == filled_items(pieces(out@, '\n')).len(),
{
    let lines = items_between(out, '\n');
    assert(texts(lines@).len() == lines@.len());
    lines.len()
}

/// The lines of an output without blanks around them and without blank ones.
pub fn output_lines(out: &str) -> (r: Vec<String>)
    ensures
        texts(r@) == filled_items(pieces(out@, '\n')),
{
    items_between(out, '\n')
}

/// The one line of an output, unless it is blank.
pub open spec fn line_of(out: Text) -> Option<Text> {
    if trimmed(out).len() > 0 {
        Some(trimmed(out))
    } else {
        None
    }
}

pub fn output_line(out: &str) -> (r: Option<String>)
    ensures
        opt_text(r) == line_of(out@),
{
    let line = trim(out);
    if line.as_str().is_empty() {
        None
    } else {
        Some(line)
    }
}

/// The branch that is checked out, given what `git` says of it. A detached
/// head is none.
pub fn current_branch(out: &str) -> (r: Option<String>)
    ensures
        opt_text(r) == match line_of(out@) {
            Some(name) => if name == "HEAD"@ {
                None
            } else {
                Some(name)
            },
            None => None,
        },
{
    match output_line(out) {
        Some(name) => if same(&name, "HEAD") {
            None
        } else {
            Some(name)
        },
        None => None,
    }
}

/// The operation that a repository is in the middle of, if any.
pub fn active_git_operation(merging: bool, picking: bool) -> (r: Option<String>)
    ensures
        opt_text(r) == (if merging {
            Some("Git merge"@)
        } else if picking {
            Some("Git cherry-pick"@)
        } else {
            None
        }),
{
    if merging {
        Some(own("Git merge"))
    } else if picking {
        Some(own("Git cherry-pick"))
    } else {
        None
    }
}

/// Which commits of an agent the room may lack. None, if both stand at the same.
pub fn pending_range(room_head: &str, agent_head: &str) -> (r: Option<String>)
    ensures
        opt_text(r) == (if room_head@ == agent_head@ {
            None
        } else {
            Some(room_head@ + "..."@ + agent_head@)
        }),
{
    if same(room_head, agent_head) {
        None
    } else {
        Some(plus3(room_head, "...", agent_head))
    }
}

pub open spec fn slashed(s: Text) -> Text {
    Seq::new(
        s.len(),
        |i: int|
            if s[i] == '\\' {
                '/'
            } else {
                s[i]
            },
    )
}

/// A path of the repository: forward slashes, none at either end.
pub open spec fn repository_path(s: Text) -> Text {
    drop_back(drop_front(slashed(s), only('/')), only('/'))
}

pub fn normalize_git_path(path: &str) -> (r: String)
    ensures
        r@ == repository_path(path@),
{
    let v = chars_of(path);
    let mut out = String::new();
    let mut i: usize = 0;
    while i < v.len()
        invariant
            i <= v.len(),
            out@ == slashed(v@).take(i as int),
        decreases v.len() - i,
    {
        if v[i] == '\\' {
            out.push('/');
        } else {
            out.push(v[i]);
        }
        i += 1;
        assert(out@ =~= slashed(v@).take(i as int));
    }
    assert(slashed(v@).take(i as int) =~= slashed(v@));
    trim_end_char(&trim_start_char(&out, '/'), '/')
}

/// Every second text, as a path of the repository.
pub open spec fn paired_paths(parts: Seq<Text>) -> Seq<Text>
    decreases parts.len(),
{
    if parts.len() < 2 {
        Seq::empty()
    } else {
        seq![repository_path(parts[1])] + paired_paths(parts.skip(2))
    }
}

/// The paths in a zero-separated listing of status and path.
pub open spec fn name_status_paths(diff: Text) -> Seq<Text> {
    paired_paths(filled_items(pieces(diff, '\0')))
}

pub fn paths_of_name_status(diff: &str) -> (r: Vec<String>)
    ensures
        texts(r@) == name_status_paths(diff@),
{
    let parts = items_between(diff, '\0');
    let ghost all = texts(parts@);
    let mut out: Vec<String> = Vec::new();
    let mut i: usize = 0;
    assert(all.skip(0) =~= all);
    assert(texts(out@) + paired_paths(all.skip(0)) =~= paired_paths(all));
    while i < parts.len() && parts.len() - i >= 2
        invariant
            all == texts(parts@),
            i <= parts@.len(),
            texts(out@) + paired_paths(all.skip(i as int)) == paired_paths(all),
        decreases parts@.len() - i,
    {
        let ghost rest = all.skip(i as int);
        let ghost was = out@;
        let path = normalize_git_path(&parts[i + 1]);
        out.push(path);
        proof {
            assert(rest[1] == parts@[i + 1]@);
            assert(rest.skip(2) =~= all.skip(i + 2));
            assert(texts(out@) =~= texts(was).push(path@));
            assert(texts(out@) + paired_paths(all.skip(i + 2)) =~= texts(was) + paired_paths(rest));
        }
        i += 2;
    }
    assert(paired_paths(all.skip(i as int)) =~= Seq::<Text>::empty());
    assert(texts(out@) + Seq::<Text>::empty() =~= texts(out@));
    out
}

/// Collect the paths of a listing.
pub fn append_name_status_paths(paths: &mut OrderedSet<String>, diff: &str)
    requires
        old(paths).wf(),
    ensures
        final(paths).wf(),
        final(paths)@ == old(paths)@.union(text_set(name_status_paths(diff@))),
{
    let found = paths_of_name_status(diff);
    paths.add_texts(&found);
}

/// The paths of a zero-separated listing of files.
pub open spec fn listed_paths(s: Seq<Text>) -> Seq<Text> {
    s.map_values(|t: Text| repository_path(t))
}

/// Collect the files of a zero-separated listing.
pub fn append_listed_paths(paths: &mut OrderedSet<String>, listing: &str)
    requires
        old(paths).wf(),
    ensures
        final(paths).wf(),
        final(paths)@ == old(paths)@.union(text_set(listed_paths(filled_items(pieces(listing@, '\0'))))),
{
    let files = items_between(listing, '\0');
    let ghost all = texts(files@);
    let mut found: Vec<String> = Vec::new();
    let mut i: usize = 0;
    while i < files.len()
        invariant
            all == texts(files@),
            i <= files@.len(),
            texts(found@) == listed_paths(all).take(i as int),
        decreases files@.len() - i,
    {
        let ghost was = found@;
        let path = normalize_git_path(&files[i]);
        found.push(path);
        i += 1;
        assert(texts(found@) =~= texts(was).push(path@));
        assert(texts(found@) =~= listed_paths(all).take(i as int));
    }
    assert(listed_paths(all).take(i as int) =~= listed_paths(all));
    paths.add_texts(&found);
}

/// The number that decimal digits stand for.
pub open spec fn digits_value(s: Text) -> nat
    decreases s.len(),
{
    if s.len() == 0 {
        0
    } else {
        (digits_value(s.drop_last()) * 10 + (s.last() as nat - '0' as nat)) as nat
    }
}

pub open spec fn all_digits(s: Text) -> bool {
    forall|i: int| 0 <= i < s.len() ==> is_digit(#[trigger] s[i])
}

/// The digits of a number that may carry a plus sign.
pub open spec fn unsigned(s: Text) -> Text {
    if s.len() > 0 && s[0] == '+' {
        s.drop_first()
    } else {
        s
    }
}

/// A count as `git` prints it, if it is one.
pub open spec fn count_of(out: Text) -> Option<nat> {
    let d = unsigned(trimmed(out));
    if d.len() > 0 && all_digits(d) && digits_value(d) <= usize::MAX {
        Some(digits_value(d))
    } else {
        None
    }
}

proof fn lemma_digits_grow(s: Text, n: int)
    requires
        0 <= n <= s.len(),
        all_digits(s),
    ensures
        digits_value(s.take(n)) <= digits_value(s),
    decreases s.len() - n,
{
    if n < s.len() {
        let t = s.take(n + 1);
        assert(t.drop_last() =~= s.take(n));
        assert(is_digit(s[n]));
        assert(t.last() == s[n]);
        assert(digits_value(t) >= digits_value(s.take(n)));
        lemma_digits_grow(s, n + 1);
    } else {
        assert(s.take(n) =~= s);
    }
}

pub fn parse_count(out: &str) -> (r: Option<usize>)
    ensures
        r is Some == count_of(out@) is Some,
        r matches Some(n) ==> count_of(out@) == Some(n as nat),
{
    let text = trim(out);
    let v = chars_of(&text);
    let from: usize = if v.len() > 0 && v[0] == '+' {
        1
    } else {
        0
    };
    let ghost d = unsigned(text@);
    assert(d =~= v@.skip(from as int));
    if from == v.len() {
        return None;
    }
    let mut i: usize = from;
    while i < v.len()
        invariant
            from <= i <= v.len(),
            d == v@.skip(from as int),
            d == unsigned(trimmed(out@)),
            forall|j: int| from <= j < i ==> is_digit(#[trigger] v@[j]),
        decreases v.len() - i,
    {
        if !('0' <= v[i] && v[i] <= '9') {
            assert(d[i - from] == v@[i as int]);
            assert(!all_digits(d));
            return None;
        }
        i += 1;
    }
    assert(all_digits(d)) by {
        assert forall|j: int| 0 <= j < d.len() implies is_digit(#[trigger] d[j]) by {
            assert(d[j] == v@[from + j]);
        }
    }
    let mut total: usize = 0;
    let mut k: usize = from;
    assert(d.take(0) =~= Seq::<char>::empty());
    while k < v.len()
        invariant
            from <= k <= v.len(),
            from < v.len(),
            d == v@.skip(from as int),
            d == unsigned(trimmed(out@)),
            all_digits(d),
            total == digits_value(d.take(k - from)),
        decreases v.len() - k,
    {
        let ghost t = d.take(k - from + 1);
        proof {
            assert(t.drop_last() =~= d.take(k - from));
            assert(t.last() == v@[k as int]);
            assert(is_digit(d[k - from]));
            lemma_digits_grow(d, k - from + 1);
        }
        let digit: usize = ((v[k] as u32) - ('0' as u32)) as usize;
        match total.checked_mul(10) {
            None => {
                return None;
            },
            Some(ten) => match ten.checked_add(digit) {
                None => {
                    return None;
                },
                Some(next) => {
                    total = next;
                },
            },
        }
        k += 1;
    }
    assert(d.take(k - from) =~= d);
    Some(total)
}

// --------------------------------------------------------------------- words

pub open spec fn changes(n: nat) -> Text {
    if n == 1 {
        "1 change"@
    } else {
        decimal(n) + " changes"@
    }
}

pub fn change_phrase(count: usize) -> (r: String)
    ensures
        r@ == changes(count as nat),
{
    if count == 1 {
        own("1 change")
    } else {
        plus(&to_decimal(count as u64), " changes")
    }
}

pub open spec fn changed_files(n: nat) -> Text {
    if n == 1 {
        "1 changed file"@
    } else {
        decimal(n) + " changed files"@
    }
}

pub fn changed_file_phrase(count: usize) -> (r: String)
    ensures
        r@ == changed_files(count as nat),
{
    if count == 1 {
        own("1 changed file")
    } else {
        plus(&to_decimal(count as u64), " changed files")
    }
}

pub open spec fn truncated(s: Text, max: nat) -> Text {
    if s.len() <= max {
        s
    } else {
        s.take(max as int) + "..."@
    }
}

pub fn truncate_for_message(value: &str, max_chars: usize) -> (r: String)
    ensures
        r@ == truncated(value@, max_chars as nat),
{
    if char_count(value) <= max_chars {
        return own(value);
    }
    let v = chars_of(value);
    assert(v@.subrange(0, max_chars as int) =~= v@.take(max_chars as int));
    plus(&slice_text(&v, 0, max_chars), "...")
}

/// A failure of `git` in one short line.
pub open spec fn concise(s: Text) -> Text {
    if occurs(s, "index.lock"@) {
        "Git index.lock exists; stop any running git process or remove the stale lock, then sync again."@
    } else {
        truncated(joined(words(s), " "@), 180)
    }
}

pub fn concise_git_error(value: &str) -> (r: String)
    ensures
        r@ == concise(value@),
{
    if contains_text(value, "index.lock") {
        return own(
            "Git index.lock exists; stop any running git process or remove the stale lock, then sync again.",
        );
    }
    truncate_for_message(&join(&split_words(value), " "), 180)
}

pub open spec fn is_lock_error(s: Text) -> bool {
    occurs(s, "index.lock"@)
}

pub fn is_index_lock_error(message: &str) -> (r: bool)
    ensures
        r == is_lock_error(message@),
{
    contains_text(message, "index.lock")
}

/// The cherry-pick failed only because nothing was left to apply.
pub open spec fn is_empty_pick(s: Text) -> bool {
    occurs(s, "previous cherry-pick is now empty"@) || occurs(s, "The previous cherry-pick is now empty"@)
        || occurs(s, "nothing to commit"@)
}

pub fn looks_like_empty_cherry_pick(value: &str) -> (r: bool)
    ensures
        r == is_empty_pick(value@),
{
    contains_text(value, "previous cherry-pick is now empty") || contains_text(
        value,
        "The previous cherry-pick is now empty",
    ) || contains_text(value, "nothing to commit")
}

/// What a failed command says: its errors, else its output.
pub fn failure_message(path: &str, args: &Vec<String>, stdout: &str, stderr: &str) -> (r: String)
    ensures
        r@ == "git -C "@ + path@ + " "@ + joined(texts(args@), " "@) + " failed: "@ + if trimmed(stderr@).len() == 0 {
            trimmed(stdout@)
        } else {
            trimmed(stderr@)
        },
{
    let detail = trim(stderr);
    let detail = if detail.as_str().is_empty() {
        trim(stdout)
    } else {
        detail
    };
    let mut out = own("git -C ");
    out.append(path);
    out.append(" ");
    out.append(&join(args, " "));
    out.append(" failed: ");
    out.append(&detail);
    out
}

/// A path of the repository neither begins nor ends with a slash, and a path
/// that has no slash at its ends and no backslash is already one.
pub proof fn a_repository_path_has_no_outer_slash(s: Text)
    ensures
        repository_path(s).len() > 0 ==> repository_path(s)[0] != '/' && repository_path(s).last() != '/',
        s.len() > 0 && s[0] != '/' && s.last() != '/' && !s.contains('\\') ==> repository_path(s) == s,
{
    let a = slashed(s);
    let b = drop_front(a, only('/'));
    lemma_front_clean(a);
    lemma_back_clean(b);
    if s.len() > 0 && s[0] != '/' && s.last() != '/' && !s.contains('\\') {
        assert forall|i: int| 0 <= i < s.len() implies a[i] == s[i] by {
            if s[i] == '\\' {
                assert(s.contains('\\'));
            }
        }
        assert(a =~= s);
    }
}

proof fn lemma_front_clean(s: Text)
    ensures
        drop_front(s, only('/')).len() > 0 ==> drop_front(s, only('/'))[0] != '/',
    decreases s.len(),
{
    if s.len() > 0 && s[0] == '/' {
        lemma_front_clean(s.drop_first());
    }
}

proof fn lemma_back_clean(s: Text)
    ensures
        drop_back(s, only('/')).len() > 0 ==> drop_back(s, only('/')).last() != '/' && drop_back(s, only('/'))[0] == s[0],
    decreases s.len(),
{
    if s.len() > 0 && s.last() == '/' {
        lemma_back_clean(s.drop_last());
    }
}

/// A listing of status and path gives the path of every pair, in order.
pub proof fn every_second_entry_is_a_path(parts: Seq<Text>, i: int)
    requires
        0 <= i,
        2 * i + 1 < parts.len(),
    ensures
        paired_paths(parts).len() == parts.len() / 2,
        paired_paths(parts)[i] == repository_path(parts[2 * i + 1]),
    decreases parts.len(),
{
    let rest = parts.skip(2);
    lemma_paired_len(rest);
    if i > 0 {
        every_second_entry_is_a_path(rest, i - 1);
        assert(rest[2 * (i - 1) + 1] == parts[2 * i + 1]);
    }
}

proof fn lemma_paired_len(parts: Seq<Text>)
    ensures
        paired_paths(parts).len() == parts.len() / 2,
    decreases parts.len(),
{
    if parts.len() >= 2 {
        lemma_paired_len(parts.skip(2));
    }
}

/// A number that is written in decimal is read back, with or without a plus
/// sign before it.
pub proof fn a_number_is_read_back(n: nat)
    ensures
        all_digits(decimal(n)),
        digits_value(decimal(n)) == n,
        decimal(n).len() > 0,
    decreases n,
{
    let digit = ((n % 10) + 48) as char;
    if n >= 10 {
        a_number_is_read_back(n / 10);
        assert(decimal(n).drop_last() =~= decimal(n / 10));
        assert(decimal(n).last() == digit);
    } else {
        assert(decimal(n) =~= seq![digit]);
        assert(decimal(n).drop_last() =~= Seq::<char>::empty());
        assert(digits_value(decimal(n).drop_last()) == 0);
    }
}

/// One change is told in the singular, any other number in the plural.
pub proof fn numbers_are_told_in_words(n: nat)
    ensures
        n != 1 ==> changes(n) == decimal(n) + " changes"@ && changed_files(n) == decimal(n) + " changed files"@,
        changes(1) == "1 change"@,
        changed_files(1) == "1 changed file"@,
{
}

/// A message of up to 180 characters is kept, with its white space as single
/// blanks; a longer one is cut there and ends in three dots. A locked index is
/// told in words of its own.
pub proof fn a_failure_is_told_in_one_short_line(s: Text)
    ensures
        occurs(s, "index.lock"@) ==> is_lock_error(s) && begins(concise(s), "Git index.lock exists"@),
        !occurs(s, "index.lock"@) && joined(words(s), " "@).len() <= 180 ==> concise(s) == joined(words(s), " "@),
        !occurs(s, "index.lock"@) && joined(words(s), " "@).len() > 180 ==> concise(s) == joined(words(s), " "@).take(180)
            + "..."@,
        !occurs(s, "index.lock"@) ==> !is_lock_error(s),
{
    reveal_strlit("Git index.lock exists");
    reveal_strlit("Git index.lock exists; stop any running git process or remove the stale lock, then sync again.");
    let a = "Git index.lock exists"@;
    let b = "Git index.lock exists; stop any running git process or remove the stale lock, then sync again."@;
    assert(b.take(a.len() as int) =~= a);
}

/// What is kept of a text has at most the limit and three dots, and begins as
/// the text does.
pub proof fn a_cut_text_begins_as_it_did(s: Text, max: nat)
    ensures
        s.len() <= max ==> truncated(s, max) == s,
        s.len() > max ==> truncated(s, max).len() == max + 3 && truncated(s, max).take(max as int) == s.take(max as int),
{
    reveal_strlit("...");
    if s.len() > max {
        assert(truncated(s, max).take(max as int) =~= s.take(max as int));
    }
}

/// A commit has nothing left to apply exactly if git says so anywhere in its
/// words.
pub proof fn git_says_that_nothing_is_left(a: Text, b: Text, s: Text)
    ensures
        is_empty_pick(a + "nothing to commit"@ + b),
        is_empty_pick(a + "previous cherry-pick is now empty"@ + b),
        is_empty_pick(s) ==> occurs(s, "nothing to commit"@) || occurs(s, "previous cherry-pick is now empty"@),
{
    let x = "nothing to commit"@;
    let y = "previous cherry-pick is now empty"@;
    let z = "The previous cherry-pick is now empty"@;
    let n = a.len() as int;
    assert((a + x + b).subrange(n, n + x.len()) =~= x);
    assert(stands_at(a + x + b, x, n));
    assert((a + y + b).subrange(n, n + y.len()) =~= y);
    assert(stands_at(a + y + b, y, n));
    if occurs(s, z) {
        reveal_strlit("previous cherry-pick is now empty");
        reveal_strlit("The previous cherry-pick is now empty");
        let i = choose|i: int| #[trigger] stands_at(s, z, i);
        assert(z.subrange(4, 4 + y.len() as int) =~= y);
        assert(s.subrange(i + 4, i + 4 + y.len()) =~= s.subrange(i, i + z.len()).subrange(4, 4 + y.len() as int));
        assert(stands_at(s, y, i + 4));
    }
}

/// What git printed is one line without white space around it, unless it is
/// blank.
pub proof fn a_printed_line_is_trimmed(out: Text)
    ensures
        line_of(out) is None <==> trimmed(out).len() == 0,
        line_of(out) matches Some(t) ==> t == trimmed(out) && !is_space(t[0]) && !is_space(t.last()),
{
    let r = trimming_takes_away_white_space_only(out);
}

} // verus!
