//! The small shell scripts through which the tools are called.
use vstd::prelude::*;
use crate::bbs::names::opt_str;
use crate::text::{begins, ends_with, opt_text, own, pieces, plus, plus3, same, split, strip_front, texts, trim};
use crate::text::{trimmed, Text};
use crate::text::ends;
use crate::text::stands_at;
use crate::text::occurs;

verus! {

/// A path below a directory.
pub open spec fn below(dir: Text, name: Text) -> Text {
    if dir.len() == 0 || dir.last() == '/' {
        dir + name
    } else {
        dir + "/"@ + name
    }
}

pub fn path_below(dir: &str, name: &str) -> (r: String)
    ensures
        r@ == below(dir@, name@),
{
    proof {
        reveal_strlit("/");
        if dir@.len() > 0 {
            assert(dir@.skip(dir@.len() - 1) =~= seq![dir@.last()]);
            assert("/"@ =~= seq!['/']);
            if dir@.skip(dir@.len() - 1) == "/"@ {
                assert(dir@.skip(dir@.len() - 1)[0] == '/');
            }
        }
    }
    if dir.is_empty() || ends_with(dir, "/") {
        plus(dir, name)
    } else {
        plus3(dir, "/", name)
    }
}

/// Where a tool may be found beside the running program.
pub open spec fn beside(dir: Text, tool: Text, triple: Option<Text>) -> Seq<Text> {
    let near = seq![below(dir, tool), below(dir, "../Resources/"@ + tool)];
    match triple {
        None => near,
        Some(t) => near + seq![
            below(dir, tool + "-"@ + t),
            below(dir, "../Resources/"@ + tool + "-"@ + t),
        ],
    }
}

/// The places where a tool is looked for: beside the running program, whose
/// directory is `dir`, and in the build directory of its sources.
pub open spec fn tool_places(dir: Option<Text>, tool: Text, triple: Option<Text>, sources: Text) -> Seq<Text> {
    (match dir {
        Some(d) => beside(d, tool, triple),
        None => Seq::empty(),
    }) + seq![below(sources, "target/debug/"@ + tool), below(sources, "target/release/"@ + tool)]
}

pub fn shim_candidates(dir: Option<&str>, tool: &str, triple: Option<&str>, sources: &str) -> (r: Vec<String>)
    ensures
        texts(r@) == tool_places(opt_str(dir), tool@, opt_str(triple), sources@),
{
    let mut v: Vec<String> = Vec::new();
    if let Some(d) = dir {
        v.push(path_below(d, tool));
        v.push(path_below(d, &plus("../Resources/", tool)));
        if let Some(t) = triple {
            v.push(path_below(d, &plus3(tool, "-", t)));
            let mut name = plus("../Resources/", tool);
            name.append("-");
            name.append(t);
            v.push(path_below(d, &name));
        }
    }
    v.push(path_below(sources, &plus("target/debug/", tool)));
    v.push(path_below(sources, &plus("target/release/", tool)));
    assert(texts(v@) =~= tool_places(opt_str(dir), tool@, opt_str(triple), sources@));
    v
}

/// Run the tool from here, if it is there: `word` is a path as a shell word.
pub open spec fn attempt(word: Text) -> Text {
    "if [ -x "@ + word + " ]; then exec "@ + word + " \"$@\"; fi\n"@
}

pub open spec fn attempts(words: Seq<Text>) -> Text
    decreases words.len(),
{
    if words.len() == 0 {
        Seq::empty()
    } else {
        attempts(words.drop_last()) + attempt(words.last())
    }
}

/// The script: the variable comes first, then the places in their order, and
/// last the complaint that the tool is not installed.
pub open spec fn script(tool: Text, variable: Text, words: Seq<Text>) -> Text {
    "#!/bin/sh\nset -eu\nif [ -n \"${"@ + variable + ":-}\" ] && [ -x \"$"@ + variable + "\" ]; then exec \"$"@ + variable
        + "\" \"$@\"; fi\n"@ + attempts(words) + "echo '"@ + tool
        + " binary is not installed. Build it with: cargo build --bin "@ + tool + "' >&2\nexit 127\n"@
}

pub fn shim_script(tool: &str, variable: &str, words: &Vec<String>) -> (r: String)
    ensures
        r@ == script(tool@, variable@, texts(words@)),
{
    let mut out = own("#!/bin/sh\nset -eu\nif [ -n \"${");
    out.append(variable);
    out.append(":-}\" ] && [ -x \"$");
    out.append(variable);
    out.append("\" ]; then exec \"$");
    out.append(variable);
    out.append("\" \"$@\"; fi\n");
    let ghost head = out@;
    let ghost all = texts(words@);
    let mut i: usize = 0;
    assert(head + attempts(all.take(0)) =~= head);
    while i < words.len()
        invariant
            all == texts(words@),
            i <= words@.len(),
            out@ == head + attempts(all.take(i as int)),
        decreases words@.len() - i,
    {
        assert(all.take(i + 1).drop_last() =~= all.take(i as int));
        assert(all.take(i + 1).last() == words@[i as int]@);
        out.append("if [ -x ");
        out.append(&words[i]);
        out.append(" ]; then exec ");
        out.append(&words[i]);
        out.append(" \"$@\"; fi\n");
        assert(out@ =~= head + attempts(all.take(i + 1)));
        i += 1;
    }
    assert(all.take(i as int) =~= all);
    out.append("echo '");
    out.append(tool);
    out.append(" binary is not installed. Build it with: cargo build --bin ");
    out.append(tool);
    out.append("' >&2\nexit 127\n");
    out
}

// -------------------------------------------------------------------- triples

/// The platforms on which the board's tool is built.
pub open spec fn board_triple(arch: Text, os: Text) -> Option<Text> {
    if arch == "aarch64"@ && os == "macos"@ {
        Some("aarch64-apple-darwin"@)
    } else if arch == "x86_64"@ && os == "macos"@ {
        Some("x86_64-apple-darwin"@)
    } else if arch == "x86_64"@ && os == "linux"@ {
        Some("x86_64-unknown-linux-gnu"@)
    } else if arch == "x86_64"@ && os == "windows"@ {
        Some("x86_64-pc-windows-msvc.exe"@)
    } else {
        None
    }
}

pub fn board_target_triple(arch: &str, os: &str) -> (r: Option<String>)
    ensures
        opt_text(r) == board_triple(arch@, os@),
{
    if same(arch, "aarch64") && same(os, "macos") {
        return Some(own("aarch64-apple-darwin"));
    }
    if same(arch, "x86_64") && same(os, "macos") {
        return Some(own("x86_64-apple-darwin"));
    }
    if same(arch, "x86_64") && same(os, "linux") {
        return Some(own("x86_64-unknown-linux-gnu"));
    }
    if same(arch, "x86_64") && same(os, "windows") {
        return Some(own("x86_64-pc-windows-msvc.exe"));
    }
    None
}

/// The platforms on which the bus's tool is built.
pub fn bus_target_triple(arch: &str, os: &str) -> (r: Option<String>)
    ensures
        opt_text(r) == (if os@ == "macos"@ {
            board_triple(arch@, os@)
        } else {
            None
        }),
{
    if !same(os, "macos") {
        return None;
    }
    board_target_triple(arch, os)
}

/// The first line that names the host, without that word.
pub open spec fn host_of(lines: Seq<Text>) -> Option<Text>
    decreases lines.len(),
{
    if lines.len() == 0 {
        None
    } else if begins(lines[0], "host: "@) {
        Some(trimmed(lines[0].skip("host: "@.len() as int)))
    } else {
        host_of(lines.drop_first())
    }
}

/// The host's triple in what the compiler says of itself.
pub fn host_triple(text: &str) -> (r: Option<String>)
    ensures
        opt_text(r) == host_of(pieces(text@, '\n')),
{
    let lines = split(text, '\n');
    let ghost all = texts(lines@);
    let mut i: usize = 0;
    assert(all.skip(0) =~= all);
    while i < lines.len()
        invariant
            all == texts(lines@),
            i <= lines@.len(),
            host_of(all) == host_of(all.skip(i as int)),
            all == pieces(text@, '\n'),
        decreases lines@.len() - i,
    {
        assert(all.skip(i as int)[0] == lines@[i as int]@);
        assert(all.skip(i as int).drop_first() =~= all.skip(i + 1));
        if let Some(rest) = strip_front(&lines[i], "host: ") {
            return Some(trim(&rest));
        }
        i += 1;
    }
    None
}

/// A path below a directory is separated from it by exactly one slash.
pub proof fn one_slash_stands_between(dir: Text, name: Text)
    requires
        dir.len() > 0,
        dir.last() != '/',
    ensures
        below(dir, name) == dir + seq!['/'] + name,
        below(dir.push('/'), name) == below(dir, name),
        below(Seq::empty(), name) == name,
{
    reveal_strlit("/");
    assert("/"@ =~= seq!['/']);
    assert(dir.push('/') + name =~= dir + seq!['/'] + name);
    assert(Seq::<char>::empty() + name =~= name);
}

/// A tool is looked for beside the program first, and in the build directories
/// last, the debug build before the release build.
pub proof fn a_tool_is_looked_for_near_first(dir: Text, tool: Text, triple: Text, sources: Text)
    ensures
        tool_places(None, tool, None, sources) == seq![
            below(sources, "target/debug/"@ + tool),
            below(sources, "target/release/"@ + tool),
        ],
        ({
            let p = tool_places(Some(dir), tool, Some(triple), sources);
            &&& p.len() == 6
            &&& p[0] == below(dir, tool)
            &&& p[1] == below(dir, "../Resources/"@ + tool)
            &&& p[2] == below(dir, tool + "-"@ + triple)
            &&& p[3] == below(dir, "../Resources/"@ + tool + "-"@ + triple)
            &&& p[4] == below(sources, "target/debug/"@ + tool)
            &&& p[5] == below(sources, "target/release/"@ + tool)
        }),
        tool_places(Some(dir), tool, None, sources).len() == 4,
        tool_places(Some(dir), tool, None, sources)[0] == below(dir, tool),
        tool_places(Some(dir), tool, None, sources)[2] == below(sources, "target/debug/"@ + tool),
{
    assert(tool_places(None, tool, None, sources) =~= seq![
        below(sources, "target/debug/"@ + tool),
        below(sources, "target/release/"@ + tool),
    ]);
}

/// The script tries the places in their order: the attempts of a list are those
/// of its first part, then those of the rest.
pub proof fn places_are_tried_in_order(a: Seq<Text>, b: Seq<Text>, w: Text)
    ensures
        attempts(a + b) == attempts(a) + attempts(b),
        attempts(seq![w]) == "if [ -x "@ + w + " ]; then exec "@ + w + " \"$@\"; fi\n"@,
        attempts(Seq::empty()) == Seq::<char>::empty(),
    decreases b.len(),
{
    assert(seq![w].drop_last() =~= Seq::<Text>::empty());
    assert(seq![w].last() == w);
    reveal_with_fuel(attempts, 2);
    assert(attempts(seq![w]) =~= attempt(w));
    if b.len() == 0 {
        assert(a + b =~= a);
        assert(attempts(a) + attempts(b) =~= attempts(a));
    } else {
        places_are_tried_in_order(a, b.drop_last(), w);
        assert((a + b).drop_last() =~= a + b.drop_last());
        assert((a + b).last() == b.last());
        assert(attempts(a + b) =~= attempts(a) + attempts(b));
    }
}

/// The script is one for a shell, and tries the places before it complains.
pub proof fn a_script_tries_before_it_complains(tool: Text, variable: Text, words: Seq<Text>)
    ensures
        begins(script(tool, variable, words), "#!/bin/sh\n"@),
        ends(
            script(tool, variable, words),
            attempts(words) + "echo '"@ + tool + " binary is not installed. Build it with: cargo build --bin "@ + tool
                + "' >&2\nexit 127\n"@,
        ),
        occurs(script(tool, variable, words), "exec \"$"@ + variable + "\""@),
{
    let s = script(tool, variable, words);
    reveal_strlit("#!/bin/sh\n");
    reveal_strlit("#!/bin/sh\nset -eu\nif [ -n \"${");
    reveal_strlit(":-}\" ] && [ -x \"$");
    reveal_strlit("\" ]; then exec \"$");
    reveal_strlit("exec \"$");
    reveal_strlit("\"");
    reveal_strlit("\" \"$@\"; fi\n");
    let h = "#!/bin/sh\n"@;
    assert(s.take(h.len() as int) =~= h);
    let t = attempts(words) + "echo '"@ + tool + " binary is not installed. Build it with: cargo build --bin "@ + tool
        + "' >&2\nexit 127\n"@;
    assert(s.skip(s.len() - t.len()) =~= t);
    let x = "exec \"$"@ + variable + "\""@;
    let pre = "#!/bin/sh\nset -eu\nif [ -n \"${"@ + variable + ":-}\" ] && [ -x \"$"@ + variable;
    let at = pre.len() as int + 10;
    assert(s.subrange(at, at + x.len()) =~= x);
    assert(stands_at(s, x, at));
}

/// The board's tool is built for four platforms, and each has its own triple.
pub proof fn four_platforms_are_built_for(arch: Text, os: Text)
    ensures
        board_triple("aarch64"@, "macos"@) == Some("aarch64-apple-darwin"@),
        board_triple("x86_64"@, "macos"@) == Some("x86_64-apple-darwin"@),
        board_triple("x86_64"@, "linux"@) == Some("x86_64-unknown-linux-gnu"@),
        board_triple("x86_64"@, "windows"@) == Some("x86_64-pc-windows-msvc.exe"@),
        board_triple(arch, os) matches Some(t) ==> begins(t, arch + "-"@),
        board_triple(arch, os) is Some <==> (arch == "x86_64"@ && (os == "macos"@ || os == "linux"@ || os == "windows"@))
            || (arch == "aarch64"@ && os == "macos"@),
{
    reveal_strlit("aarch64");
    reveal_strlit("x86_64");
    reveal_strlit("macos");
    reveal_strlit("linux");
    reveal_strlit("windows");
    reveal_strlit("-");
    reveal_strlit("aarch64-apple-darwin");
    reveal_strlit("x86_64-apple-darwin");
    reveal_strlit("x86_64-unknown-linux-gnu");
    reveal_strlit("x86_64-pc-windows-msvc.exe");
    assert("aarch64"@.len() == 7 && "x86_64"@.len() == 6);
    assert("macos"@[0] == 'm' && "linux"@[0] == 'l' && "windows"@[0] == 'w');
    assert("aarch64-apple-darwin"@.take(8) =~= "aarch64"@ + "-"@);
    assert("x86_64-apple-darwin"@.take(7) =~= "x86_64"@ + "-"@);
    assert("x86_64-unknown-linux-gnu"@.take(7) =~= "x86_64"@ + "-"@);
    assert("x86_64-pc-windows-msvc.exe"@.take(7) =~= "x86_64"@ + "-"@);
}

/// The host is what the first line that names one says.
pub proof fn the_first_host_counts(lines: Seq<Text>, i: int, t: Text)
    requires
        0 <= i < lines.len(),
        lines[i] == "host: "@ + t,
        forall|j: int| 0 <= j < i ==> !begins(#[trigger] lines[j], "host: "@),
    ensures
        host_of(lines) == Some(trimmed(t)),
    decreases lines.len(),
{
    let n = "host: "@.len() as int;
    if i == 0 {
        assert(lines[0].take(n) =~= "host: "@);
        assert(lines[0].skip(n) =~= t);
    } else {
        let rest = lines.drop_first();
        assert(!begins(lines[0], "host: "@));
        assert(rest[i - 1] == lines[i]);
        assert forall|j: int| 0 <= j < i - 1 implies !begins(#[trigger] rest[j], "host: "@) by {
            assert(rest[j] == lines[j + 1]);
        }
        the_first_host_counts(rest, i - 1, t);
    }
}

} // verus!
