use kota_core::adapter_sync::adapter::{write_needed, Next, Update, Verdict};
use kota_core::adapter_sync::catalog::{files_of_project, AgentDir, Listing};
use kota_core::adapter_sync::files::{effect_of, shown_agent, Content, Counts, Effect, Entry, Fields, FileSet, Sighting, Source as FileSource, Stamp};
use kota_core::adapter_sync::queue::{AgentKey, Pending, Queue, Step, Task, CHECK_INTERVAL};
use kota_core::adapter_sync::watch::{classify, dispatch, Changes, DirectoryIdentity, Event, Index, Resolved, Source, WatchSet};
use kota_core::order::{OrderedMap, OrderedSet};
use kota_core::outside::{Scalar, YamlDoc};
use kota_core::path::PathName;

fn path(s: &str) -> PathName {
    PathName::parse(s)
}

fn event(s: &str) -> Event {
    Event { access: false, rescan: false, paths: vec![path(s)] }
}

fn sources(list: Vec<Source>) -> OrderedSet<Source> {
    let mut set = OrderedSet::new();
    for s in list {
        set.insert(s);
    }
    set
}

fn holds_exactly(changes: &Changes, list: Vec<Source>) -> bool {
    changes.sources.len() == list.len() && list.iter().all(|s| changes.sources.has(s))
}

#[test]
fn dirty_projects_coalesce_and_marks_after_take_survive() {
    let mut queue = Queue::new();
    let root = path("project");
    queue.mark(path("project"), "first".into());
    queue.mark(path("project"), "last".into());
    assert_eq!(queue.tasks.len(), 1);
    assert_eq!(queue.take_project(&root).map(|pending| pending.reason).as_deref(), Some("last"));
    queue.mark(path("project"), "during compilation".into());
    assert_eq!(
        queue.take_project(&root).map(|pending| pending.reason).as_deref(),
        Some("during compilation")
    );
}

#[test]
fn retries_are_bounded_and_a_new_edit_replaces_the_retry() {
    let mut queue = Queue::new();
    let root = path("project");
    let mut now = 0;
    queue.mark(path("project"), "first".into());
    for attempt in 0..3 {
        let pending = queue.take_project(&root).unwrap();
        assert_eq!(pending.attempt, attempt);
        queue.schedule_retry(Task::Project(path("project")), pending, now);
        now += CHECK_INTERVAL;
        queue.promote_retries(now);
    }
    assert!(queue.dirty.is_empty() && queue.retries.is_empty());
    queue.mark(path("project"), "failed".into());
    let pending = queue.take_project(&root).unwrap();
    queue.schedule_retry(Task::Project(path("project")), pending, now);
    queue.mark(path("project"), "new edit".into());
    assert!(queue.retries.is_empty());
    let pending = queue.take_project(&root).unwrap();
    assert_eq!(pending.reason, "new edit");
    assert_eq!(pending.attempt, 0);
}

#[test]
fn a_pushed_task_stands_once_in_the_line_whatever_its_attempt() {
    let mut queue = Queue::new();
    let pending = |reason: &str, attempt: u8| Pending { reason: reason.into(), attempt };
    queue.push(Task::Project(path("a")), pending("first", 9));
    queue.push(Task::Project(path("b")), pending("other", 0));
    queue.push(Task::Project(path("a")), pending("second", 1));
    assert_eq!(queue.tasks.len(), 2);
    assert_eq!(queue.dirty.entries.len(), 2);
    let taken = queue.take_project(&path("a")).unwrap();
    assert_eq!((taken.reason.as_str(), taken.attempt), ("second", 1));
    assert!(queue.retries.is_empty());
}

#[test]
fn retries_that_are_due_come_in_the_order_of_their_paths() {
    let mut queue = Queue::new();
    for root in ["/a/-x", "/a/../b"] {
        queue.mark(path(root), "edit".into());
        let pending = queue.take_project(&path(root)).unwrap();
        queue.schedule_retry(Task::Project(path(root)), pending, 0);
    }
    queue.promote_retries(CHECK_INTERVAL);
    let roots: Vec<String> = queue
        .tasks
        .iter()
        .map(|task| match task {
            Task::Project(root) => root.display(),
            _ => panic!("expected a project"),
        })
        .collect();
    assert_eq!(roots, vec!["/a/../b", "/a/-x"]);
}

#[test]
fn requests_come_before_dirty_work_and_checks_come_at_their_time() {
    let mut queue = Queue::new();
    queue.mark(path("project"), "edit".into());
    queue.request(7);
    queue.next_check = Some(50);
    assert!(matches!(queue.next(10), Step::Request(7)));
    assert!(matches!(queue.next(60), Step::Check));
    assert_eq!(queue.next_check, Some(60 + CHECK_INTERVAL));
    match queue.next(61) {
        Step::Run(Task::Project(root), pending) => {
            assert_eq!(root.display(), "project");
            assert_eq!(pending.reason, "edit");
        }
        _ => panic!("the project is dirty"),
    }
    assert!(matches!(queue.next(62), Step::Wait(Some(2060))));
}

#[test]
fn a_forgotten_project_leaves_no_work() {
    let mut queue = Queue::new();
    queue.mark(path("a"), "edit".into());
    queue.mark(path("b"), "edit".into());
    queue.mark_task(
        Task::Skills(AgentKey { project: path("a"), agent: "one".into() }),
        "skills".into(),
    );
    queue.forget_project(&path("a"));
    assert_eq!(queue.tasks.len(), 1);
    assert!(queue.take_project(&path("a")).is_none());
    assert!(queue.take_project(&path("b")).is_some());
}

#[test]
fn only_rule_files_and_root_changes_trigger_sync() {
    let mut index: Index = OrderedMap::new();
    index.insert(path("/rules"), sources(vec![Source::AccountRules]));
    assert!(classify(&event("/rules/readme.MD"), &index).sources.has(&Source::AccountRules));
    for ignored in ["/rules/tmp.txt", "/rules/nested/a.md", "/project/src/main.rs", "/rules/a.md.tmp"] {
        assert!(classify(&event(ignored), &index).sources.is_empty());
    }
    assert!(classify(&event("/rules"), &index).recheck.has(&path("/rules")));
}

#[test]
fn account_and_project_directories_keep_their_source_scope_when_events_merge() {
    let first_source = || Source::ProjectRules(path("/first"));
    let second_source = || Source::ProjectRules(path("/second"));
    let mut index: Index = OrderedMap::new();
    index.insert(path("/account/rules"), sources(vec![Source::AccountRules]));
    index.insert(path("/first/project-rules"), sources(vec![first_source()]));
    index.insert(path("/second/project-rules"), sources(vec![second_source()]));
    let mut changes = classify(&event("/first/project-rules/rule.md"), &index);
    assert!(holds_exactly(&changes, vec![first_source()]));
    changes.merge(classify(&event("/account/rules/rule.md"), &index));
    assert!(holds_exactly(&changes, vec![first_source(), Source::AccountRules]));
    assert!(!changes.sources.has(&second_source()));
    let rescan = Event { access: false, rescan: true, paths: vec![] };
    assert_eq!(classify(&rescan, &index).sources.len(), 3);
}

#[test]
fn pool_events_select_member_ids_and_ignore_unrelated_skill_contents() {
    let mut index: Index = OrderedMap::new();
    index.insert(path("/skills"), sources(vec![Source::SkillPool]));
    for p in ["/skills/A", "/skills/A/SKILL.md"] {
        assert!(holds_exactly(&classify(&event(p), &index), vec![Source::PoolSkill("A".into())]));
    }
    for p in ["/skills/A/scripts/run.py", "/skills/.importing/SKILL.md"] {
        assert!(classify(&event(p), &index).sources.is_empty());
    }
}

#[test]
fn reading_is_no_change() {
    let mut index: Index = OrderedMap::new();
    index.insert(path("/rules"), sources(vec![Source::AccountRules]));
    let seen = Event { access: true, rescan: false, paths: vec![path("/rules/a.md")] };
    assert!(classify(&seen, &index).is_empty());
}

#[test]
fn a_change_of_the_whole_pool_covers_its_members() {
    let mut changes = Changes::new();
    changes.sources.insert(Source::PoolSkill("a".into()));
    changes.sources.insert(Source::ProjectRules(path("/p")));
    let d = dispatch(&changes);
    assert_eq!(d.skills, vec!["a".to_string()]);
    assert_eq!(d.projects.len(), 1);
    assert!(!d.all_projects && !d.all_skills);
    changes.sources.insert(Source::SkillPool);
    changes.sources.insert(Source::AccountRules);
    let d = dispatch(&changes);
    assert!(d.all_projects && d.all_skills && d.skills.is_empty());
}

#[test]
fn subscriptions_follow_the_directories_that_were_found() {
    let one = DirectoryIdentity { device: 1, inode: 1 };
    let two = DirectoryIdentity { device: 1, inode: 2 };
    let mut set = WatchSet::new();
    set.ask(path("/a"), Source::AccountRules);
    set.ask(path("/b"), Source::SkillPool);
    let due = set.due_directories();
    assert_eq!(due.iter().map(|p| p.display()).collect::<Vec<_>>(), ["/a", "/b"]);
    let found = |id| vec![Resolved::Found(path("/real"), id), Resolved::Found(path("/real"), id)];
    let looked = set.look_up(&found(one));
    assert!(looked.changed.is_empty() && looked.reports.is_empty());
    assert!(set.due_directories().is_empty());
    let wanted = set.wanted();
    let at = wanted.get(&path("/real")).unwrap();
    assert_eq!(at.sources.len(), 2);
    assert!(at.recursive());
    assert!(set.should_attach(&path("/real"), one));
    assert!(set.subscribe(&wanted, &vec![true]).changed.is_empty());
    assert!(set.detach_stale(&wanted).is_empty());
    assert!(set.is_attached(&path("/real"), one));

    let mut touched = OrderedSet::new();
    touched.insert(path("/real"));
    set.invalidate(&touched, false);
    assert_eq!(set.look_up(&found(two)).changed.len(), 2);
    let gone = set.detach_stale(&set.wanted());
    assert_eq!(gone.len(), 1);
    assert_eq!(gone[0].display(), "/real");
    assert!(!set.is_attached(&path("/real"), one));
}

#[test]
fn a_late_subscription_may_have_missed_something() {
    let one = DirectoryIdentity { device: 1, inode: 1 };
    let mut set = WatchSet::new();
    set.ask(path("/a"), Source::AccountRules);
    set.look_up(&vec![Resolved::Found(path("/real"), one)]);
    let wanted = set.wanted();
    let first = set.subscribe(&wanted, &vec![false]);
    assert_eq!(first.reports.len(), 1);
    assert!(first.changed.is_empty());
    let second = set.subscribe(&wanted, &vec![false]);
    assert!(second.reports.is_empty() && second.changed.is_empty());
    let third = set.subscribe(&wanted, &vec![true]);
    assert_eq!(third.changed.len(), 1);
    assert!(set.subscribe(&wanted, &vec![false]).reports.is_empty(), "no attempt counts where it stands");
    assert!(set.is_attached(&path("/real"), one));
}

#[test]
fn a_directory_that_was_lost_is_announced_once() {
    let one = DirectoryIdentity { device: 1, inode: 1 };
    let mut set = WatchSet::new();
    set.ask(path("/a"), Source::AccountRules);
    set.ask(path("/b"), Source::SkillPool);
    set.look_up(&vec![Resolved::Found(path("/a"), one), Resolved::Found(path("/b"), one)]);
    let mut touched = OrderedSet::new();
    touched.insert(path("/a"));
    set.invalidate(&touched, false);
    let lost = set.look_up(&vec![Resolved::Failed("gone".into())]);
    assert_eq!(lost.reports, ["gone"]);
    assert_eq!(lost.changed.len(), 1);
    assert!(lost.changed.has(&Source::AccountRules));
    let again = set.look_up(&vec![Resolved::Failed("gone".into())]);
    assert!(again.changed.is_empty() && again.reports.is_empty());
}

#[test]
fn a_directory_is_given_up_after_three_failures_until_it_is_asked_for_again() {
    let mut set = WatchSet::new();
    set.ask(path("/a"), Source::ProjectRules(path("/p")));
    for i in 0..3 {
        let looked = set.look_up(&vec![Resolved::Failed("missing".into())]);
        assert!(looked.changed.is_empty());
        assert_eq!(looked.reports.len(), if i == 0 { 1 } else { 0 });
    }
    assert!(set.due_directories().is_empty());
    set.ask(path("/a"), Source::ProjectRules(path("/p")));
    assert_eq!(set.due_directories().len(), 1);
    set.forget_project(&path("/p"));
    assert!(set.directories.is_empty());
}

fn stamp(n: i64) -> Stamp {
    Stamp { modified: n, modified_nanos: 0, changed: n, changed_nanos: 0, len: 1, device: 1, inode: 1 }
}

fn read(n: i64, text: &str) -> Sighting {
    Sighting::Read {
        before: stamp(n),
        content: Ok(Content { text: text.into(), fields: Ok(Fields::AccountName(text.into())) }),
        after: Ok(stamp(n)),
    }
}

#[test]
fn a_file_reports_changes_of_its_fields_and_its_recovery() {
    let file = path("/p/SHELL.yaml");
    let key = || AgentKey { project: path("/p"), agent: "a".into() };
    let mut counts = Counts { stats: 0, reads: 0 };
    let mut entry = Entry::new(FileSource::Shell(key()));
    assert!(!entry.inspect(&file, read(1, "one"), &mut counts));
    assert!(!entry.needs_read(&stamp(1)));
    assert!(!entry.inspect(&file, Sighting::Stamped(stamp(1)), &mut counts));
    assert!(!entry.inspect(&file, read(2, "one"), &mut counts));
    assert!(entry.inspect(&file, read(3, "two"), &mut counts));
    assert_eq!(counts.reads, 3);
    let torn = Sighting::Read {
        before: stamp(4),
        content: Ok(Content { text: "three".into(), fields: Ok(Fields::AccountName("three".into())) }),
        after: Ok(stamp(5)),
    };
    assert!(!entry.inspect(&file, torn, &mut counts));
    assert_eq!(entry.error.as_deref(), Some("/p/SHELL.yaml changed while reading; retry later"));
    assert!(entry.inspect(&file, read(5, "two"), &mut counts));
}

fn identity(n: i64, text: &str, compiled: &str) -> Sighting {
    Sighting::Read {
        before: stamp(n),
        content: Ok(Content { text: text.into(), fields: Ok(Fields::Identity(compiled.into())) }),
        after: Ok(stamp(n)),
    }
}

#[test]
fn the_roster_ignores_what_it_does_not_show() {
    let mut files = FileSet::new();
    let key = AgentKey { project: path("/p"), agent: "a".into() };
    let at = path("/p/agent.yaml");
    let text = "display-name: A\nstatus: active\navatar-id: codex\nsession-id: old\n";
    files.add_file(at.copy(), FileSource::Identity(key), identity(1, text, "A"));
    let text = "display-name: A\nstatus: active\navatar-id: codex\nsession-id: new\n";
    let (changes, counts) = files.check(vec![identity(2, text, "A")]);
    assert!(changes.is_empty() && !files.roster_changed);
    assert_eq!(counts.reads, 1);
    let text = "display-name: A\nstatus: active\navatar-id: user:pic\nsession-id: new\n";
    assert!(files.check(vec![identity(3, text, "A")]).0.is_empty());
    assert!(files.roster_changed);
    assert_eq!(files.check(vec![Sighting::Stamped(stamp(3))]).1.reads, 0);
    assert!(!files.roster_changed);
    let text = "display-name: B\nstatus: active\navatar-id: user:pic\n";
    let (changes, _) = files.check(vec![identity(4, text, "B")]);
    assert!(matches!(changes[..], [FileSource::Identity(_)]));
    assert!(files.roster_changed);
    assert!(files.check(vec![identity(5, "", "B")]).0.is_empty());
    let entry = files.entries.get(&at).unwrap();
    assert!(entry.handled == Some(stamp(4)));
    assert_eq!(entry.error.as_deref(), Some("agent.yaml must contain an identity mapping"));
}

#[test]
fn an_identity_is_shown_unless_the_agent_is_gone() {
    let doc = |status: &str| {
        let text = |s: &str| Scalar::Text(s.into(), false);
        Ok(YamlDoc::Mapping(vec![(text("displayName"), text(" Alice ")), (text("status"), text(status))], false))
    };
    assert_eq!(shown_agent("a", &doc("active")).unwrap().unwrap().name, "Alice");
    assert!(shown_agent("a", &doc("Archived")).unwrap().is_none());
    assert_eq!(shown_agent("a", &Err("bad".into())).err().unwrap(), "bad");
    let empty = shown_agent("a", &Ok(YamlDoc::Plain)).err().unwrap();
    assert_eq!(empty, "agent.yaml must contain an identity mapping");
}

#[test]
fn images_are_compared_by_their_stamps() {
    let mut files = FileSet::new();
    let look = |n: i64| Sighting::Read { before: stamp(n), content: Err("unread".into()), after: Ok(stamp(n)) };
    files.add_file(path("/p/picture.png"), FileSource::AvatarFile, look(1));
    let (changes, counts) = files.check(vec![look(2)]);
    assert!(matches!(changes[..], [FileSource::AvatarFile]));
    assert_eq!((counts.stats, counts.reads), (2, 0));
    let registration = |n: i64, archived: bool| Sighting::Read {
        before: stamp(n),
        content: Ok(Content {
            text: String::new(),
            fields: Ok(Fields::Project { id: "p".into(), repo: "P".into(), archived }),
        }),
        after: Ok(stamp(n)),
    };
    files.add_file(path("/p/workspace.json"), FileSource::RosterProject(path("/p")), registration(1, false));
    let (changes, counts) = files.check(vec![Sighting::Stamped(stamp(2)), registration(2, true)]);
    assert!(matches!(changes[..], [FileSource::RosterProject(_)]));
    assert_eq!((counts.stats, counts.reads), (3, 1));
}

#[test]
fn a_missing_file_is_followed_until_it_appears() {
    let mut files = FileSet::new();
    let key = AgentKey { project: path("/p"), agent: "alice".into() };
    files.add_file(path("/p/SHELL.yaml"), FileSource::Shell(key), Sighting::Absent("none".into()));
    assert!(files.check(vec![Sighting::Absent("none".into())]).0.is_empty());
    let shell = |n: i64, skill: &str| Sighting::Read {
        before: stamp(n),
        content: Ok(Content {
            text: String::new(),
            fields: Ok(Fields::Shell { provider: Some("codex".into()), skills: vec![skill.into()] }),
        }),
        after: Ok(stamp(n)),
    };
    assert_eq!(files.check(vec![shell(1, "A")]).0.len(), 1);
    assert!(files.check(vec![shell(2, "A")]).0.is_empty());
    assert_eq!(files.check(vec![shell(3, "B")]).0.len(), 1);
}

#[test]
fn files_of_agents_that_left_are_no_longer_followed() {
    let mut set = FileSet::new();
    let key = |a: &str| AgentKey { project: path("/p"), agent: a.into() };
    set.add_file(path("/p/a/SHELL.yaml"), FileSource::Shell(key("a")), Sighting::Absent("none".into()));
    set.add_file(path("/p/b/SHELL.yaml"), FileSource::Shell(key("b")), Sighting::Absent("none".into()));
    let mut present = OrderedSet::new();
    present.insert("b".to_string());
    set.reconcile_agents(&path("/p"), &present);
    assert!(!set.follows(&path("/p/a/SHELL.yaml")));
    assert!(set.follows(&path("/p/b/SHELL.yaml")));
    set.forget_agent(&key("b"));
    assert!(!set.follows(&path("/p/b/SHELL.yaml")));
}

#[test]
fn registering_a_project_follows_the_files_of_its_agents() {
    let mut files = FileSet::new();
    let root = path("/p");
    let listing = |agents: &[(&str, bool)]| {
        Listing::Found(agents.iter().map(|(a, c)| AgentDir { agent: a.to_string(), configured: *c }).collect())
    };
    let mut register = |listing: Listing| {
        let wanted = files_of_project(&root, &listing);
        let sights = wanted.iter().map(|_| Sighting::Absent("none".into())).collect();
        let changed = files.register_project(&root, &listing, sights);
        let names: Vec<String> = files.entries.entries.iter().map(|(p, _)| p.display()).collect();
        (changed, names)
    };
    let alice = ["/p/.agent-workspaces/alice/SHELL.yaml", "/p/.agent-workspaces/alice/agent.yaml"];
    let bob = ["/p/.agent-workspaces/bob/SHELL.yaml", "/p/.agent-workspaces/bob/agent.yaml"];
    let all = |parts: &[&[&str]]| -> Vec<String> {
        let mut names: Vec<String> = parts.iter().flat_map(|p| p.iter().map(|s| s.to_string())).collect();
        names.push("/p/workspace.json".to_string());
        names
    };
    assert_eq!(register(listing(&[("alice", true)])), (true, all(&[&alice])));
    assert_eq!(register(listing(&[("alice", true)])), (false, all(&[&alice])));
    assert_eq!(register(listing(&[("alice", true), ("bob", true)])), (true, all(&[&alice, &bob])));
    assert_eq!(register(listing(&[("alice", true), ("bob", false)])), (false, all(&[&alice, &bob])));
    assert_eq!(register(Listing::Missing), (false, all(&[&alice, &bob])));
    assert_eq!(register(Listing::Unreadable), (false, all(&[&alice, &bob])));
    assert_eq!(register(listing(&[("bob", true)])), (true, all(&[&bob])));
}

#[test]
fn images_are_new_once() {
    let mut files = FileSet::new();
    let mut paths = OrderedSet::new();
    paths.insert(path("/a/one.png"));
    let look = || vec![Sighting::Read { before: stamp(1), content: Err("unread".into()), after: Ok(stamp(1)) }];
    assert!(files.register_roster_images(&paths, look()));
    assert!(files.check(vec![Sighting::Stamped(stamp(1))]).0.is_empty());
    assert!(!files.register_roster_images(&paths, look()));
    assert!(files.was_present(&path("/a/one.png")));
    assert!(!files.register_roster_images(&OrderedSet::new(), vec![]));
    assert!(!files.follows(&path("/a/one.png")));
}

#[test]
fn every_kind_of_file_has_its_effect() {
    let key = || AgentKey { project: path("/p"), agent: "a".into() };
    assert!(matches!(effect_of(&FileSource::Shell(key())), Effect::Skills(_)));
    assert!(matches!(effect_of(&FileSource::Identity(key())), Effect::Project(_)));
    assert!(matches!(effect_of(&FileSource::AccountIdentity), Effect::AllProjects));
    assert!(matches!(effect_of(&FileSource::AvatarIndex), Effect::Roster));
}

#[test]
fn an_update_gives_up_when_the_file_is_edited_in_every_round() {
    let file = path("/p/AGENTS.md");
    let mut update = Update::begin(Some("old".into()));
    assert!(matches!(update.compiled("old"), Verdict::Unchanged));
    assert!(matches!(update.compiled("new"), Verdict::Compare));
    assert!(matches!(update.looked_again(&file, Some("edit 1".into())), Next::Recompile));
    assert!(matches!(update.looked_again(&file, Some("edit 1".into())), Next::Replace));
    let mut update = Update::begin(None);
    assert!(matches!(update.looked_again(&file, Some("1".into())), Next::Recompile));
    assert!(matches!(update.looked_again(&file, Some("2".into())), Next::Recompile));
    assert!(matches!(update.looked_again(&file, Some("3".into())), Next::GiveUp(_)));
}

#[test]
fn identical_output_is_not_written_again() {
    assert!(write_needed(&None, &b"first".to_vec()));
    assert!(!write_needed(&Some(b"first".to_vec()), &b"first".to_vec()));
    assert!(write_needed(&Some(b"first".to_vec()), &b"second".to_vec()));
}
