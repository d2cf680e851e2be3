//! The bartender's command line.
use vstd::prelude::*;
use crate::agent_bus::{quoted, shell_quote as always_quote};
use crate::text::{alnum, chars_of, is_alnum, opt_text, own, plus, same, texts, Text};

verus! {

/// What the command line asks for.
pub enum Command {
    Usage,
    Status(CliOptions),
    Sync(CliOptions),
}

pub struct CliOptions {
    pub json: bool,
    pub project_root: Option<String>,
}

pub open spec fn is_help(s: Text) -> bool {
    s == "--help"@ || s == "-h"@
}

/// How the options of a command are read.
pub open spec fn options(args: Seq<Text>, json: bool, root: Option<Text>) -> Result<(bool, Option<Text>), Text>
    decreases args.len(),
{
    if args.len() == 0 {
        Ok((json, root))
    } else if args[0] == "--json"@ {
        options(args.skip(1), true, root)
    } else if args[0] == "--project-root"@ {
        if args.len() < 2 {
            Err("--project-root requires a path"@)
        } else {
            options(args.skip(2), json, Some(args[1]))
        }
    } else {
        Err("unknown kota-bartender argument: "@ + args[0])
    }
}

pub open spec fn options_result(r: Result<CliOptions, String>) -> Result<(bool, Option<Text>), Text> {
    match r {
        Ok(o) => Ok((o.json, opt_text(o.project_root))),
        Err(e) => Err(e@),
    }
}

/// Read the options that begin at a position.
pub fn parse_cli_options(args: &Vec<String>, from: usize) -> (r: Result<CliOptions, String>)
    requires
        from <= args@.len(),
    ensures
        options_result(r) == options(texts(args@).skip(from as int), false, None),
{
    let ghost all = texts(args@);
    let mut out = CliOptions { json: false, project_root: None };
    let mut i: usize = from;
    while i < args.len()
        invariant
            all == texts(args@),
            from <= i <= args@.len(),
            options(all.skip(from as int), false, None) == options(
                all.skip(i as int),
                out.json,
                opt_text(out.project_root),
            ),
        decreases args@.len() - i,
    {
        let ghost rest = all.skip(i as int);
        assert(rest[0] == args@[i as int]@);
        if same(&args[i], "--json") {
            out.json = true;
            assert(rest.skip(1) =~= all.skip(i + 1));
            i += 1;
        } else if same(&args[i], "--project-root") {
            if args.len() - i < 2 {
                return Err(own("--project-root requires a path"));
            }
            assert(rest[1] == args@[i + 1]@);
            assert(rest.skip(2) =~= all.skip(i + 2));
            out.project_root = Some(args[i + 1].clone());
            i += 2;
        } else {
            return Err(plus("unknown kota-bartender argument: ", &args[i]));
        }
    }
    assert(all.skip(i as int) =~= Seq::<Text>::empty());
    Ok(out)
}

pub open spec fn asks_help(args: Seq<Text>) -> bool {
    exists|i: int| 1 <= i < args.len() && is_help(#[trigger] args[i])
}

/// The command that the arguments stand for. Help anywhere is help.
pub open spec fn command_of(args: Seq<Text>, c: Result<Command, String>) -> bool {
    if args.len() == 0 || args[0] == "help"@ || is_help(args[0]) || asks_help(args) {
        c matches Ok(Command::Usage)
    } else if args[0] == "status"@ || args[0] == "sync"@ {
        match options(args.skip(1), false, None) {
            Err(e) => c is Err && c->Err_0@ == e,
            Ok(o) => if args[0] == "status"@ {
                c matches Ok(Command::Status(x)) && (x.json, opt_text(x.project_root)) == o
            } else {
                c matches Ok(Command::Sync(x)) && (x.json, opt_text(x.project_root)) == o
            },
        }
    } else {
        c is Err && c->Err_0@ == "unknown kota-bartender command: "@ + args[0]
    }
}

pub fn parse_command(args: &Vec<String>) -> (r: Result<Command, String>)
    ensures
        command_of(texts(args@), r),
{
    let ghost all = texts(args@);
    if args.len() == 0 {
        return Ok(Command::Usage);
    }
    assert(all[0] == args@[0]@);
    if same(&args[0], "help") || same(&args[0], "--help") || same(&args[0], "-h") {
        return Ok(Command::Usage);
    }
    let mut i: usize = 1;
    while i < args.len()
        invariant
            all == texts(args@),
            1 <= i <= args@.len(),
            forall|j: int| 1 <= j < i ==> !is_help(#[trigger] all[j]),
        decreases args@.len() - i,
    {
        if same(&args[i], "--help") || same(&args[i], "-h") {
            assert(is_help(all[i as int]));
            return Ok(Command::Usage);
        }
        assert(!is_help(all[i as int]));
        i += 1;
    }
    if same(&args[0], "status") {
        return match parse_cli_options(args, 1) {
            Ok(o) => Ok(Command::Status(o)),
            Err(e) => Err(e),
        };
    }
    if same(&args[0], "sync") {
        proof {
            reveal_strlit("status");
            reveal_strlit("sync");
            assert("status"@.len() != "sync"@.len());
        }
        return match parse_cli_options(args, 1) {
            Ok(o) => Ok(Command::Sync(o)),
            Err(e) => Err(e),
        };
    }
    Err(plus("unknown kota-bartender command: ", &args[0]))
}

/// The project a command works on: the one named, else the one of the
/// environment, else the one around the working directory.
pub fn choose_project_root(named: &Option<String>, environment: &Option<String>, found: &Option<String>) -> (r:
    Result<String, String>)
    ensures
        match (*named, *environment, *found) {
            (Some(p), _, _) => r is Ok && r->Ok_0@ == p@,
            (None, Some(p), _) => r is Ok && r->Ok_0@ == p@,
            (None, None, Some(p)) => r is Ok && r->Ok_0@ == p@,
            (None, None, None) => r is Err && r->Err_0@
                == "kota-bartender requires KOTA_PROJECT_ROOT or --project-root"@,
        },
{
    match (named, environment, found) {
        (Some(p), _, _) => Ok(p.clone()),
        (None, Some(p), _) => Ok(p.clone()),
        (None, None, Some(p)) => Ok(p.clone()),
        (None, None, None) => Err(own("kota-bartender requires KOTA_PROJECT_ROOT or --project-root")),
    }
}

pub open spec fn plain_char(c: char) -> bool {
    is_alnum(c) || c == '/' || c == '.' || c == '_' || c == '-' || c == ':'
}

/// The text needs no quotes.
pub open spec fn is_plain(s: Text) -> bool {
    forall|i: int| 0 <= i < s.len() ==> plain_char(#[trigger] s[i])
}

/// A text as one word of a shell command, quoted only where it must be.
pub fn shell_quote(value: &str) -> (r: String)
    ensures
        r@ == if is_plain(value@) {
            value@
        } else {
            quoted(value@)
        },
{
    let v = chars_of(value);
    let mut i: usize = 0;
    while i < v.len()
        invariant
            v@ == value@,
            i <= v.len(),
            forall|j: int| 0 <= j < i ==> plain_char(#[trigger] v@[j]),
        decreases v.len() - i,
    {
        let c = v[i];
        if !(alnum(c) || c == '/' || c == '.' || c == '_' || c == '-' || c == ':') {
            assert(!plain_char(value@[i as int]));
            return always_quote(value);
        }
        i += 1;
    }
    own(value)
}

/// What a waiting caller does after a look at the request's files.
pub enum Wait {
    Finished(String),
    Failed(String),
    /// Nobody took the request in time: withdraw it.
    TimedOut(String),
    Again,
}

/// How long a caller waits, in milliseconds.
pub const SYNC_TIMEOUT: u64 = 1_800_000;

pub fn after_look(finished: &Option<String>, failed: &Option<String>, waited: u64) -> (r: Wait)
    ensures
        match (*finished, *failed) {
            (Some(t), _) => r matches Wait::Finished(x) && x@ == t@,
            (None, Some(t)) => r matches Wait::Failed(x) && x@ == crate::text::trimmed(t@),
            (None, None) => if waited >= SYNC_TIMEOUT {
                r matches Wait::TimedOut(x) && x@
                    == "Bartender sync request was not processed. Open Kota and retry."@
            } else {
                r is Again
            },
        },
{
    match (finished, failed) {
        (Some(t), _) => Wait::Finished(t.clone()),
        (None, Some(t)) => Wait::Failed(crate::text::trim(t)),
        (None, None) => {
            if waited >= SYNC_TIMEOUT {
                Wait::TimedOut(own("Bartender sync request was not processed. Open Kota and retry."))
            } else {
                Wait::Again
            }
        },
    }
}

/// A project that is named is the project, and JSON is asked for by its option;
/// without options neither is.
pub proof fn options_say_what_they_name(rest: Seq<Text>, path: Text, json: bool, root: Option<Text>)
    ensures
        options(Seq::empty(), json, root) == Ok::<(bool, Option<Text>), Text>((json, root)),
        options(seq!["--json"@] + rest, json, root) == options(rest, true, root),
        options(seq!["--project-root"@, path] + rest, json, root) == options(rest, json, Some(path)),
        options(seq!["--project-root"@], json, root) is Err,
{
    reveal_strlit("--json");
    reveal_strlit("--project-root");
    assert("--json"@.len() == 6 && "--project-root"@.len() == 14);
    let a = seq!["--json"@] + rest;
    assert(a[0] == "--json"@);
    assert(a.skip(1) =~= rest);
    let b = seq!["--project-root"@, path] + rest;
    assert(b[0] == "--project-root"@ && b[1] == path);
    assert(b.skip(2) =~= rest);
}

/// A command is run with its options, and only the one that was named.
pub proof fn the_named_command_is_run(args: Seq<Text>, c: Result<Command, String>)
    requires
        command_of(args, c),
    ensures
        c matches Ok(Command::Status(x)) ==> args.len() > 0 && args[0] == "status"@ && options(args.skip(1), false, None)
            == Ok::<(bool, Option<Text>), Text>((x.json, opt_text(x.project_root))),
        c matches Ok(Command::Sync(x)) ==> args.len() > 0 && args[0] == "sync"@ && options(args.skip(1), false, None) == Ok::<
            (bool, Option<Text>),
            Text,
        >((x.json, opt_text(x.project_root))),
        args.len() == 0 ==> (c matches Ok(Command::Usage)),
        args.len() > 0 && args[0] != "status"@ && args[0] != "sync"@ && args[0] != "help"@ && !is_help(args[0])
            && !asks_help(args) ==> c is Err,
{
}

} // verus!
