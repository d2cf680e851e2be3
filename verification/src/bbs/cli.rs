//! The command line of the board.
use vstd::prelude::*;
use crate::bbs::mentions::{parsed, Mention, MentionModel};
use crate::bbs::names::{filled_items, parse_project_list};
use crate::bbs::types::{BbsAttachmentSource, MAX_ATTACHMENTS};
use crate::ids::{is_component, safe_component};
use crate::text::{begins, begins_with, own, pieces, plus, same, texts, trim, trimmed, Text};

verus! {

pub const CLI_HELP: &'static str = "Kota BBS — cross-project posts and replies\n\n\
Usage:\n\
  kota-bbs agents\n\
  kota-bbs new --projects <project-id> [project-id...] [--at <targetRef>] [--attach <file> ...]\n\
  kota-bbs new --broadcast [--at <targetRef>] [--attach <file> ...]\n\
  kota-bbs reply <thread-id> [--at <targetRef>] [--attach <file> ...]\n\
  kota-bbs show <thread-id>\n\
  kota-bbs root\n\
  kota-bbs install-shim\n\
  kota-bbs help | --help | -h (also available after a subcommand)\n\n\
new/reply read Markdown from stdin; they print the new thread/post ID.\n\
agents prints the full public JSON directory; it does not join a group or start agents.\n\
Copy targetRef from agents for --at (at most one per post/reply).\n\
Refs are <deviceId|local>/<projectId>/<agentId>; names in text do not route notices.\n\
The App delivers explicit mentions after publication. Reply targets are never inherited.\n\
Local mentions work without a sync identity; remote replies require a shared thread.\n\
Posts over 8 MiB or with frontmatter over 64 KiB cannot trigger remote notices.\n\
Publication success does not mean a remote notice has been delivered.\n\
Repeat --attach for images or other regular files (not directories).\n\
Limits: 1 GiB per file, 1 GiB total per post, at most 9 attachments.\n\
Example:\n\
  kota-bbs reply thread-example --attach ./screenshot.png --attach ./report.pdf <<'EOF'\n\
  Findings are attached.\n\
  EOF\n\
For an attachment-only post, use --attach ./file </dev/null.\n\n\
Files are copied as a snapshot at publication; originals are never moved or edited.\n\
Attachments live with their post, outside the Markdown body. Images appear below\n\
the body; other files show their name and full local path. Use show to find each\n\
post ID and its attachments, local paths, size and SHA-256 (or missing status).\n\
Only --attach files get a BBS copy. Paths written in the body are NOT collected,\n\
rewritten or guaranteed to work on another device. Old posts are not migrated.\n\
Attachment failure aborts publication; fix/remove the attachment and retry.\n";

/// What the command line asks for.
pub enum BbsCliCommand {
    Help,
    Agents,
    New { projects: Vec<String>, broadcast: bool, attachments: Vec<BbsAttachmentSource>, at: Option<Mention> },
    Reply { thread_id: String, attachments: Vec<BbsAttachmentSource>, at: Option<Mention> },
    Show(String),
    Root,
    InstallShim,
}

pub enum CommandModel {
    Help,
    Agents,
    New { projects: Seq<Text>, broadcast: bool, attachments: Seq<Text>, at: Option<MentionModel> },
    Reply { thread_id: Text, attachments: Seq<Text>, at: Option<MentionModel> },
    Show(Text),
    Root,
    InstallShim,
}

/// The paths of attachments that carry no name of their own.
pub open spec fn bare_paths(v: Seq<BbsAttachmentSource>) -> Seq<Text> {
    v.map_values(|a: BbsAttachmentSource| a.path@)
}

pub open spec fn unnamed(v: Seq<BbsAttachmentSource>) -> bool {
    forall|i: int| 0 <= i < v.len() ==> (#[trigger] v[i]).name is None
}

pub open spec fn opt_mention(m: Option<Mention>) -> Option<MentionModel> {
    match m {
        Some(x) => Some(x@),
        None => None,
    }
}

impl View for BbsCliCommand {
    type V = CommandModel;

    open spec fn view(&self) -> CommandModel {
        match self {
            BbsCliCommand::Help => CommandModel::Help,
            BbsCliCommand::Agents => CommandModel::Agents,
            BbsCliCommand::New { projects, broadcast, attachments, at } => CommandModel::New {
                projects: texts(projects@),
                broadcast: *broadcast,
                attachments: bare_paths(attachments@),
                at: opt_mention(*at),
            },
            BbsCliCommand::Reply { thread_id, attachments, at } => CommandModel::Reply {
                thread_id: thread_id@,
                attachments: bare_paths(attachments@),
                at: opt_mention(*at),
            },
            BbsCliCommand::Show(t) => CommandModel::Show(t@),
            BbsCliCommand::Root => CommandModel::Root,
            BbsCliCommand::InstallShim => CommandModel::InstallShim,
        }
    }
}

impl BbsCliCommand {
    /// No attachment carries a name of its own.
    pub open spec fn plain(&self) -> bool {
        match self {
            BbsCliCommand::New { attachments, .. } => unnamed(attachments@),
            BbsCliCommand::Reply { attachments, .. } => unnamed(attachments@),
            _ => true,
        }
    }
}

pub open spec fn command_result(r: Result<BbsCliCommand, String>) -> Result<CommandModel, Text> {
    match r {
        Ok(c) => Ok(c@),
        Err(e) => Err(e@),
    }
}

pub open spec fn is_command(s: Text) -> bool {
    s == "new"@ || s == "reply"@ || s == "show"@ || s == "root"@ || s == "install-shim"@ || s == "agents"@
}

pub open spec fn is_help_flag(s: Text) -> bool {
    s == "--help"@ || s == "-h"@
}

/// The subcommands that publish.
pub open spec fn publishes(command: Text) -> bool {
    command == "new"@ || command == "reply"@
}

/// The arguments read so far.
pub struct ArgsModel {
    pub projects: Seq<Text>,
    pub broadcast: bool,
    pub attachments: Seq<Text>,
    pub thread: Option<Text>,
    pub at: Option<MentionModel>,
}

pub open spec fn no_args() -> ArgsModel {
    ArgsModel { projects: Seq::empty(), broadcast: false, attachments: Seq::empty(), thread: None, at: None }
}

/// Where the values that follow an option end.
pub open spec fn values_end(args: Seq<Text>, i: int) -> int
    decreases args.len() - i,
{
    if 0 <= i < args.len() && !begins(args[i], "-"@) {
        values_end(args, i + 1)
    } else {
        i
    }
}

/// The projects that arguments list, one after the other.
pub open spec fn listed_projects(args: Seq<Text>) -> Seq<Text>
    decreases args.len(),
{
    if args.len() == 0 {
        Seq::empty()
    } else {
        listed_projects(args.drop_last()) + filled_items(pieces(args.last(), ','))
    }
}

/// The arguments of a subcommand from the `i`th on.
pub open spec fn scanned(command: Text, args: Seq<Text>, i: int, m: ArgsModel) -> Result<ArgsModel, Text>
    decreases args.len() - i,
{
    if i < 0 || i >= args.len() {
        Ok(m)
    } else {
        let a = args[i];
        if a == "--at"@ && publishes(command) && m.at is None {
            if i + 1 >= args.len() {
                Err("--at requires a targetRef"@)
            } else {
                match parsed(args[i + 1]) {
                    Ok(t) => scanned(command, args, i + 2, ArgsModel { at: Some(t), ..m }),
                    Err(e) => Err(e),
                }
            }
        } else if a == "--attach"@ && publishes(command) {
            if i + 1 < args.len() && args[i + 1].len() > 0 && !begins(args[i + 1], "-"@) {
                scanned(command, args, i + 2, ArgsModel { attachments: m.attachments.push(args[i + 1]), ..m })
            } else {
                Err("--attach requires a file path"@)
            }
        } else if a == "--broadcast"@ && command == "new"@ && !m.broadcast {
            scanned(command, args, i + 1, ArgsModel { broadcast: true, ..m })
        } else if a == "--projects"@ && command == "new"@ {
            let end = values_end(args, i + 1);
            proof {
                lemma_values_end(args, i + 1);
            }
            if end <= i + 1 {
                Err("--projects requires a project ID"@)
            } else {
                scanned(
                    command,
                    args,
                    end,
                    ArgsModel { projects: m.projects + listed_projects(args.subrange(i + 1, end)), ..m },
                )
            }
        } else if (command == "reply"@ || command == "show"@) && m.thread is None && !begins(a, "-"@)
            && is_component(a) {
            scanned(command, args, i + 1, ArgsModel { thread: Some(a), ..m })
        } else {
            Err("unknown or extra kota-bbs "@ + command + " argument: "@ + a)
        }
    }
}

/// The command that complete arguments ask for.
pub open spec fn asked(command: Text, m: ArgsModel) -> Result<CommandModel, Text> {
    if m.attachments.len() > MAX_ATTACHMENTS {
        Err("at most 9 attachments are allowed"@)
    } else if command == "new"@ {
        if m.broadcast == (m.projects.len() > 0) {
            Err("new requires either --projects <project-id> or --broadcast"@)
        } else {
            Ok(
                CommandModel::New {
                    projects: m.projects,
                    broadcast: m.broadcast,
                    attachments: m.attachments,
                    at: m.at,
                },
            )
        }
    } else if command == "reply"@ {
        match m.thread {
            Some(t) => Ok(CommandModel::Reply { thread_id: t, attachments: m.attachments, at: m.at }),
            None => Err("reply requires a thread ID"@),
        }
    } else if command == "show"@ {
        match m.thread {
            Some(t) => Ok(CommandModel::Show(t)),
            None => Err("show requires a thread ID"@),
        }
    } else if command == "root"@ {
        Ok(CommandModel::Root)
    } else if command == "agents"@ {
        Ok(CommandModel::Agents)
    } else {
        Ok(CommandModel::InstallShim)
    }
}

/// Help is asked for after a subcommand.
pub open spec fn wants_help(args: Seq<Text>) -> bool {
    ||| args.len() == 2 && args[1] == "help"@
    ||| exists|i: int| 1 <= i < args.len() && is_help_flag(#[trigger] args[i])
}

/// The whole command line.
pub open spec fn command_line(args: Seq<Text>) -> Result<CommandModel, Text> {
    if args.len() == 0 {
        Ok(CommandModel::Help)
    } else if args[0] == "help"@ || is_help_flag(args[0]) {
        if args.len() > 2 || (args.len() == 2 && !is_command(args[1])) {
            Err("usage: kota-bbs help [new|reply|show|root|install-shim|agents]"@)
        } else {
            Ok(CommandModel::Help)
        }
    } else if !is_command(args[0]) {
        Err("unknown kota-bbs command: "@ + args[0])
    } else if wants_help(args) {
        Ok(CommandModel::Help)
    } else {
        match scanned(args[0], args, 1, no_args()) {
            Ok(m) => asked(args[0], m),
            Err(e) => Err(e),
        }
    }
}

fn known(s: &str) -> (r: bool)
    ensures
        r == is_command(s@),
{
    same(s, "new") || same(s, "reply") || same(s, "show") || same(s, "root") || same(s, "install-shim") || same(
        s,
        "agents",
    )
}

fn help_flag(s: &str) -> (r: bool)
    ensures
        r == is_help_flag(s@),
{
    same(s, "--help") || same(s, "-h")
}

fn asks_help(args: &[String]) -> (r: bool)
    ensures
        r == wants_help(texts(args@)),
{
    let ghost all = texts(args@);
    if args.len() == 2 && same(&args[1], "help") {
        assert(all[1] == args@[1]@);
        return true;
    }
    let mut i: usize = 1;
    while i < args.len()
        invariant
            all == texts(args@),
            1 <= i,
            i <= args@.len() || i == 1,
            !(all.len() == 2 && all[1] == "help"@),
            forall|j: int| 1 <= j < i && j < args@.len() ==> !is_help_flag(#[trigger] all[j]),
        decreases args@.len() - i,
    {
        assert(all[i as int] == args@[i as int]@);
        if help_flag(&args[i]) {
            return true;
        }
        i += 1;
    }
    false
}

pub proof fn lemma_values_end(args: Seq<Text>, i: int)
    requires
        0 <= i <= args.len(),
    ensures
        i <= values_end(args, i) <= args.len(),
    decreases args.len() - i,
{
    if i < args.len() && !begins(args[i], "-"@) {
        lemma_values_end(args, i + 1);
    }
}

/// The projects listed from an argument on, and where the list ends.
fn read_projects(args: &[String], from: usize) -> (r: (Vec<String>, usize))
    requires
        from <= args@.len(),
    ensures
        r.1 == values_end(texts(args@), from as int),
        from <= r.1 <= args@.len(),
        texts(r.0@) == listed_projects(texts(args@).subrange(from as int, r.1 as int)),
{
    let ghost all = texts(args@);
    let mut out: Vec<String> = Vec::new();
    let mut i = from;
    assert(texts(out@) =~= listed_projects(all.subrange(from as int, i as int)));
    while i < args.len() && !begins_with(&args[i], "-")
        invariant
            all == texts(args@),
            from <= i <= args@.len(),
            values_end(all, from as int) == values_end(all, i as int),
            texts(out@) == listed_projects(all.subrange(from as int, i as int)),
        decreases args@.len() - i,
    {
        let ghost was = out@;
        let mut more = parse_project_list(&args[i]);
        let ghost added = more@;
        out.append(&mut more);
        assert(texts(out@) =~= texts(was) + texts(added));
        assert(all.subrange(from as int, i + 1).drop_last() =~= all.subrange(from as int, i as int));
        assert(all.subrange(from as int, i + 1).last() == args@[i as int]@);
        i += 1;
    }
    if i < args.len() {
        assert(all[i as int] == args@[i as int]@);
    }
    (out, i)
}

pub fn parse_cli_args(args: &[String]) -> (r: Result<BbsCliCommand, String>)
    ensures
        command_result(r) == command_line(texts(args@)),
        r matches Ok(c) ==> c.plain(),
{
    let ghost all = texts(args@);
    if args.len() == 0 {
        return Ok(BbsCliCommand::Help);
    }
    let command = &args[0];
    let total = args.len();
    assert(all[0] == args@[0]@);
    if same(command, "help") || help_flag(command) {
        if args.len() > 1 {
            assert(all[1] == args@[1]@);
        }
        if args.len() > 2 || (args.len() == 2 && !known(&args[1])) {
            return Err(own("usage: kota-bbs help [new|reply|show|root|install-shim|agents]"));
        }
        return Ok(BbsCliCommand::Help);
    }
    if !known(command) {
        return Err(plus("unknown kota-bbs command: ", command));
    }
    if asks_help(args) {
        return Ok(BbsCliCommand::Help);
    }
    let publishing = same(command, "new") || same(command, "reply");
    let new = same(command, "new");
    let threaded = same(command, "reply") || same(command, "show");
    let mut projects: Vec<String> = Vec::new();
    let mut broadcast = false;
    let mut attachments: Vec<BbsAttachmentSource> = Vec::new();
    let mut thread_id: Option<String> = None;
    let mut at: Option<Mention> = None;
    let mut i: usize = 1;
    assert(texts(projects@) =~= no_args().projects);
    assert(bare_paths(attachments@) =~= no_args().attachments);
    while i < total
        invariant
            all == texts(args@),
            total == args@.len(),
            command@ == all[0],
            publishing == publishes(all[0]),
            new == (all[0] == "new"@),
            threaded == (all[0] == "reply"@ || all[0] == "show"@),
            1 <= i <= total,
            total > 0,
            all[0] != "help"@ && !is_help_flag(all[0]) && is_command(all[0]),
            !wants_help(all),
            unnamed(attachments@),
            scanned(all[0], all, 1, no_args()) == scanned(
                all[0],
                all,
                i as int,
                ArgsModel {
                    projects: texts(projects@),
                    broadcast,
                    attachments: bare_paths(attachments@),
                    thread: crate::text::opt_text(thread_id),
                    at: opt_mention(at),
                },
            ),
        decreases total - i,
    {
        let a = &args[i];
        let ghost m = ArgsModel {
            projects: texts(projects@),
            broadcast,
            attachments: bare_paths(attachments@),
            thread: crate::text::opt_text(thread_id),
            at: opt_mention(at),
        };
        assert(all[i as int] == a@);
        if i + 1 < total {
            assert(all[i + 1] == args@[i + 1]@);
        }
        if same(a, "--at") && publishing && at.is_none() {
            if i + 1 >= total {
                return Err(own("--at requires a targetRef"));
            }
            match Mention::parse(&args[i + 1]) {
                Ok(t) => {
                    at = Some(t);
                },
                Err(e) => {
                    return Err(e);
                },
            }
            i += 2;
        } else if same(a, "--attach") && publishing {
            if i + 1 >= total || args[i + 1].as_str().is_empty() || begins_with(&args[i + 1], "-") {
                return Err(own("--attach requires a file path"));
            }
            let ghost was = attachments@;
            attachments.push(BbsAttachmentSource { path: args[i + 1].clone(), name: None });
            assert(bare_paths(attachments@) =~= bare_paths(was).push(all[i + 1]));
            i += 2;
        } else if same(a, "--broadcast") && new && !broadcast {
            broadcast = true;
            i += 1;
        } else if same(a, "--projects") && new {
            let read = read_projects(args, i + 1);
            if read.1 == i + 1 {
                return Err(own("--projects requires a project ID"));
            }
            let mut more = read.0;
            let ghost was = projects@;
            let ghost added = more@;
            projects.append(&mut more);
            assert(texts(projects@) =~= texts(was) + texts(added));
            i = read.1;
        } else if threaded && thread_id.is_none() && !begins_with(a, "-") && safe_component(a) {
            thread_id = Some(a.clone());
            i += 1;
        } else {
            let mut e = own("unknown or extra kota-bbs ");
            e.append(command);
            e.append(" argument: ");
            e.append(a);
            return Err(e);
        }
    }
    finish(command, projects, broadcast, attachments, thread_id, at)
}

fn finish(
    command: &str,
    projects: Vec<String>,
    broadcast: bool,
    attachments: Vec<BbsAttachmentSource>,
    thread_id: Option<String>,
    at: Option<Mention>,
) -> (r: Result<BbsCliCommand, String>)
    requires
        unnamed(attachments@),
    ensures
        command_result(r) == asked(
            command@,
            ArgsModel {
                projects: texts(projects@),
                broadcast,
                attachments: bare_paths(attachments@),
                thread: crate::text::opt_text(thread_id),
                at: opt_mention(at),
            },
        ),
        r matches Ok(c) ==> c.plain(),
{
    if attachments.len() > MAX_ATTACHMENTS {
        return Err(own("at most 9 attachments are allowed"));
    }
    if same(command, "new") {
        if broadcast == (projects.len() > 0) {
            return Err(own("new requires either --projects <project-id> or --broadcast"));
        }
        return Ok(BbsCliCommand::New { projects, broadcast, attachments, at });
    }
    if same(command, "reply") {
        return match thread_id {
            Some(thread_id) => Ok(BbsCliCommand::Reply { thread_id, attachments, at }),
            None => Err(own("reply requires a thread ID")),
        };
    }
    if same(command, "show") {
        return match thread_id {
            Some(t) => Ok(BbsCliCommand::Show(t)),
            None => Err(own("show requires a thread ID")),
        };
    }
    if same(command, "root") {
        return Ok(BbsCliCommand::Root);
    }
    if same(command, "agents") {
        return Ok(BbsCliCommand::Agents);
    }
    Ok(BbsCliCommand::InstallShim)
}

/// The body that was typed; without attachments it must hold something.
pub fn stdin_body(input: &str, has_attachments: bool) -> (r: Result<String, String>)
    ensures
        r is Err == (trimmed(input@).len() == 0 && !has_attachments),
        r matches Ok(b) ==> b@ == trimmed(input@),
        r matches Err(e) ==> e@ == "kota-bbs requires text on stdin or --attach <file>"@,
{
    let body = trim(input);
    if body.as_str().is_empty() && !has_attachments {
        return Err(own("kota-bbs requires text on stdin or --attach <file>"));
    }
    Ok(body)
}

// ---------------------------------------------------------------------- laws

/// A new thread goes to projects or to everybody, never to both or neither,
/// and no command line attaches more than nine files.
pub proof fn a_new_thread_has_exactly_one_audience(args: Seq<Text>)
    ensures
        command_line(args) matches Ok(CommandModel::New { projects, broadcast, attachments, .. }) ==> broadcast != (
        projects.len() > 0) && attachments.len() <= MAX_ATTACHMENTS,
        command_line(args) matches Ok(CommandModel::Reply { attachments, .. }) ==> attachments.len()
            <= MAX_ATTACHMENTS,
{
}

proof fn lemma_words_differ()
    ensures
        "new"@ != "reply"@,
        "new"@ != "show"@,
        "reply"@ != "show"@,
        "new"@ != "help"@,
        "reply"@ != "help"@,
        "show"@ != "help"@,
        "root"@ != "help"@,
        "new"@ != "--help"@ && "new"@ != "-h"@,
        "reply"@ != "--help"@ && "reply"@ != "-h"@,
        "show"@ != "--help"@ && "show"@ != "-h"@,
        "--at"@ != "--help"@ && "--at"@ != "-h"@,
        "--attach"@ != "--help"@ && "--attach"@ != "-h"@,
        "--attach"@ != "--at"@,
        "--projects"@ != "--help"@ && "--projects"@ != "-h"@,
        "--projects"@ != "--at"@ && "--projects"@ != "--attach"@ && "--projects"@ != "--broadcast"@,
        "-"@.len() == 1,
        "-"@[0] == '-',
        begins("--at"@, "-"@),
        begins("--attach"@, "-"@),
        begins("--broadcast"@, "-"@),
        begins("--projects"@, "-"@),
        begins("--help"@, "-"@),
        begins("-h"@, "-"@),
{
    reveal_strlit("new");
    reveal_strlit("reply");
    reveal_strlit("show");
    reveal_strlit("help");
    reveal_strlit("root");
    reveal_strlit("--help");
    reveal_strlit("-h");
    reveal_strlit("--at");
    reveal_strlit("--attach");
    reveal_strlit("--projects");
    reveal_strlit("--broadcast");
    reveal_strlit("-");
    assert("new"@.len() == 3 && "reply"@.len() == 5 && "show"@.len() == 4 && "help"@.len() == 4);
    assert("show"@[0] == 's' && "help"@[0] == 'h' && "root"@[0] == 'r');
    assert("--help"@.len() == 6 && "-h"@.len() == 2 && "--at"@.len() == 4 && "--attach"@.len() == 8);
    assert("--projects"@.len() == 10 && "--broadcast"@.len() == 11);
    assert("--at"@.take(1) =~= "-"@);
    assert("--attach"@.take(1) =~= "-"@);
    assert("--projects"@.take(1) =~= "-"@);
    assert("--broadcast"@.take(1) =~= "-"@);
    assert("--help"@.take(1) =~= "-"@);
    assert("-h"@.take(1) =~= "-"@);
}

/// A thread is shown or answered by its name.
pub proof fn a_thread_is_named_after_the_command(t: Text)
    requires
        is_component(t),
        !begins(t, "-"@),
        t != "help"@,
    ensures
        command_line(seq!["show"@, t]) == Ok::<CommandModel, Text>(CommandModel::Show(t)),
        command_line(seq!["reply"@, t]) == Ok::<CommandModel, Text>(
            CommandModel::Reply { thread_id: t, attachments: Seq::empty(), at: None },
        ),
{
    lemma_words_differ();
    let a = seq!["show"@, t];
    let b = seq!["reply"@, t];
    assert(!wants_help(a)) by {
        assert(a[1] == t);
    }
    assert(!wants_help(b)) by {
        assert(b[1] == t);
    }
    reveal_with_fuel(scanned, 3);
}

/// A reply carries the file behind `--attach` and the agent behind `--at`.
pub proof fn a_reply_carries_its_file_and_its_agent(t: Text, f: Text, r: Text)
    requires
        is_component(t),
        !begins(t, "-"@),
        f.len() > 0,
        !begins(f, "-"@),
        parsed(r) is Ok,
        !begins(r, "-"@),
    ensures
        command_line(seq!["reply"@, t, "--attach"@, f]) == Ok::<CommandModel, Text>(
            CommandModel::Reply { thread_id: t, attachments: seq![f], at: None },
        ),
        command_line(seq!["reply"@, t, "--at"@, r]) == Ok::<CommandModel, Text>(
            CommandModel::Reply { thread_id: t, attachments: Seq::empty(), at: Some(parsed(r)->Ok_0) },
        ),
{
    lemma_words_differ();
    let a = seq!["reply"@, t, "--attach"@, f];
    let b = seq!["reply"@, t, "--at"@, r];
    assert(!wants_help(a)) by {
        assert(a[1] == t && a[2] == "--attach"@ && a[3] == f);
    }
    assert(!wants_help(b)) by {
        assert(b[1] == t && b[2] == "--at"@ && b[3] == r);
    }
    reveal_with_fuel(scanned, 4);
    assert(Seq::<Text>::empty().push(f) =~= seq![f]);
}

/// A new thread goes to the projects that `--projects` lists, in order.
pub proof fn a_new_thread_goes_to_the_listed_projects(p: Text)
    requires
        !begins(p, "-"@),
        filled_items(pieces(p, ',')).len() > 0,
    ensures
        command_line(seq!["new"@, "--projects"@, p]) == Ok::<CommandModel, Text>(
            CommandModel::New {
                projects: filled_items(pieces(p, ',')),
                broadcast: false,
                attachments: Seq::empty(),
                at: None,
            },
        ),
{
    lemma_words_differ();
    let a = seq!["new"@, "--projects"@, p];
    assert(!wants_help(a)) by {
        assert(a[1] == "--projects"@ && a[2] == p);
    }
    reveal_with_fuel(values_end, 3);
    assert(values_end(a, 2) == 3);
    let sub = a.subrange(2, 3);
    assert(sub =~= seq![p]);
    reveal_with_fuel(listed_projects, 2);
    assert(sub.drop_last() =~= Seq::<Text>::empty());
    assert(listed_projects(sub) =~= filled_items(pieces(p, ',')));
    assert(Seq::<Text>::empty() + listed_projects(sub) =~= filled_items(pieces(p, ',')));
    reveal_with_fuel(scanned, 3);
}

/// Whoever asks for help behind a subcommand gets help and nothing else.
pub proof fn help_comes_before_everything(args: Seq<Text>, i: int)
    requires
        1 <= i < args.len(),
        is_command(args[0]),
        args[i] == "--help"@ || args[i] == "-h"@,
        args[0] != "help"@,
        !is_help_flag(args[0]),
    ensures
        command_line(args) == Ok::<CommandModel, Text>(CommandModel::Help),
{
    assert(is_help_flag(args[i]));
}

/// A publishing command has at most one addressee, and it is one that was
/// written behind `--at`. Only `reply` and `show` name a thread, and only
/// `new` an audience.
pub proof fn a_command_holds_what_its_kind_has(command: Text, m: ArgsModel)
    requires
        m.attachments.len() <= 9,
    ensures
        command == "new"@ && m.broadcast != (m.projects.len() > 0) ==> asked(command, m) == Ok::<CommandModel, Text>(
            CommandModel::New {
                projects: m.projects,
                broadcast: m.broadcast,
                attachments: m.attachments,
                at: m.at,
            },
        ),
        command == "new"@ && m.broadcast == (m.projects.len() > 0) ==> asked(command, m) is Err,
        command == "reply"@ ==> (m.thread matches Some(t) ==> asked(command, m) == Ok::<CommandModel, Text>(
            CommandModel::Reply { thread_id: t, attachments: m.attachments, at: m.at },
        )),
        command == "show"@ ==> (m.thread matches Some(t) ==> asked(command, m) == Ok::<CommandModel, Text>(
            CommandModel::Show(t),
        )),
        (command == "reply"@ || command == "show"@) && m.thread is None ==> asked(command, m) is Err,
        command == "root"@ ==> asked(command, m) == Ok::<CommandModel, Text>(CommandModel::Root),
        command == "agents"@ ==> asked(command, m) == Ok::<CommandModel, Text>(CommandModel::Agents),
        command == "install-shim"@ ==> asked(command, m) == Ok::<CommandModel, Text>(CommandModel::InstallShim),
{
    lemma_words_differ();
    reveal_strlit("new");
    reveal_strlit("reply");
    reveal_strlit("show");
    reveal_strlit("root");
    reveal_strlit("agents");
    reveal_strlit("install-shim");
    assert("new"@.len() == 3 && "reply"@.len() == 5 && "show"@.len() == 4 && "root"@.len() == 4);
    assert("agents"@.len() == 6 && "install-shim"@.len() == 12);
    assert("show"@[0] == 's' && "root"@[0] == 'r');
}

} // verus!
