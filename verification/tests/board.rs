use kota_core::bbs::attachments::{
    attachment_file, attachment_name, attachment_views, copy_attachment_stream, fresh_tokens, validate_attachments, CopyOutcome,
    FileFacts, Look, Moment,
};
use kota_core::bbs::cli::{parse_cli_args, stdin_body, BbsCliCommand, CLI_HELP};
use kota_core::bbs::mentions::{Context, Directories};
use kota_core::bbs::names::{agent_avatar_from_yaml, agent_display_name_from_yaml, display_project_name_with_fallback, mint_post_id, normalize_project_tags, preview_markdown};
use kota_core::bbs::posts::{
    avatar_candidates, human_identity, identity_from_env, post_version, project_agent_avatar_from_yaml, read_post, serialized_post,
    shared_frontmatter, validate_post_meta, Session,
};
use kota_core::bbs::publish::{
    before_local_publish, create_thread_with_attachments_as, reply_with_attachments_as, Attaching, Draft, Surroundings,
};
use kota_core::bbs::snapshot::{render_thread, snapshot, FoundPostView, FoundThread};
use kota_core::bbs::sync::model::{SyncState, Tombstone};
use kota_core::bbs::threads::{load_thread, mark_processed, read_thread_ids, thread_dir, FoundPost, ShownThread};
use kota_core::bbs::types::{
    BbsAttachment, BbsAttachmentSource, BbsProjectState, BbsThreadMeta, LoadedPost, MAX_ATTACHMENT_BYTES,
};

fn args(list: &[&str]) -> Vec<String> {
    list.iter().map(|s| s.to_string()).collect()
}

fn source(path: &str) -> BbsAttachmentSource {
    BbsAttachmentSource { path: path.into(), name: None }
}

fn file(size: u64) -> Look {
    Look::Seen {
        before: FileFacts { regular: true, size_bytes: size },
        opened: Ok(FileFacts { regular: true, size_bytes: size }),
    }
}

fn directory() -> Look {
    Look::Seen {
        before: FileFacts { regular: false, size_bytes: 0 },
        opened: Ok(FileFacts { regular: false, size_bytes: 0 }),
    }
}

/// Files that hold the given bytes.
fn files(list: &[(&str, &[u8])]) -> Attaching {
    let mut a = Attaching::none();
    a.tokens = fresh_tokens(list.len());
    for (path, bytes) in list {
        a.sources.push(source(path));
        a.looks.push(file(bytes.len() as u64));
        let mut copy = Vec::new();
        let (count, sha256) =
            copy_attachment_stream(&vec![bytes.to_vec()], &mut copy, MAX_ATTACHMENT_BYTES).unwrap();
        let at = Moment { len: count, modified: Some(1) };
        a.outcomes.push(CopyOutcome::Done { count, sha256, before: at, after: Moment { len: count, modified: Some(1) } });
    }
    a
}

fn around() -> Surroundings {
    let alone = || Context { device_id: None, membership: None, members: vec![] };
    Surroundings {
        context: alone(),
        directories: Directories { local: Ok(vec![]), peers: vec![] },
        current: alone(),
    }
}

struct TestBoard {
    threads: Vec<(BbsThreadMeta, Vec<LoadedPost>)>,
}

impl TestBoard {
    fn new() -> TestBoard {
        TestBoard { threads: vec![] }
    }

    fn keep(&mut self, draft: Draft) -> (String, String) {
        let text = serialized_post("front: matter\n", &draft.body);
        let ids = (draft.thread.thread_id.clone(), draft.post.post_id.clone());
        let path = format!("{}/posts/{}.md", thread_dir(&ids.0), ids.1);
        let post = read_post(&path, &text, Ok(draft.post)).unwrap();
        match self.threads.iter_mut().find(|t| t.0.thread_id == ids.0) {
            Some(t) => {
                t.0 = draft.thread;
                t.1.push(post);
            }
            None => self.threads.push((draft.thread, vec![post])),
        }
        ids
    }

    fn post(&mut self, body: &str, a: &Attaching) -> Result<String, String> {
        let author = human_identity("project", "User".into(), None);
        let draft = create_thread_with_attachments_as(&author, &vec![], true, body.into(), a, &around())?;
        Ok(self.keep(draft).0)
    }

    fn reply(&mut self, thread: &str, body: &str, a: &Attaching) -> Result<String, String> {
        let author = human_identity("project", "User".into(), None);
        let meta = self.threads.iter().find(|t| t.0.thread_id == thread).map(|t| t.0.copy());
        let there = meta.is_some();
        let meta = meta.ok_or("missing".to_string());
        let draft = reply_with_attachments_as(&author, thread, body.into(), a, &around(), there, meta)?;
        Ok(self.keep(draft).1)
    }

    fn load(&self, thread: &str) -> (BbsThreadMeta, Vec<LoadedPost>) {
        let t = self.threads.iter().find(|t| t.0.thread_id == thread).unwrap();
        let found =
            t.1.iter().map(|p| FoundPost { post: p.meta.post_id.clone(), loaded: Some(p.copy()) }).collect();
        load_thread(thread, Ok(t.0.copy()), found).unwrap()
    }

    fn found(&self, thread: &str, there: bool) -> FoundThread {
        let (meta, posts) = self.load(thread);
        let posts = posts
            .into_iter()
            .map(|post| {
                let paths = post
                    .meta
                    .attachments
                    .iter()
                    .map(|a| if there { Some(format!("/board/{}", a.path)) } else { None })
                    .collect();
                let attachments = attachment_views("/board", thread, &post.meta.post_id, &post.meta.attachments, &paths);
                FoundPostView { post, sync_avatar: None, found_avatar: None, attachments }
            })
            .collect();
        FoundThread { meta, posts, markers: vec![] }
    }

    fn render(&self, thread: &str, there: bool) -> String {
        render_thread(&SyncState::new(), self.found(thread, there))
    }
}

#[test]
fn cli_help_and_arguments_are_parsed_without_io() {
    for list in [
        vec![],
        vec!["help"],
        vec!["--help"],
        vec!["-h"],
        vec!["new", "--help"],
        vec!["reply", "help"],
        vec!["show", "-h"],
    ] {
        assert!(matches!(parse_cli_args(&args(&list)), Ok(BbsCliCommand::Help)));
    }
    assert!(CLI_HELP.contains("1 GiB total"));
    assert!(CLI_HELP.contains("9 attachments"));
    for list in [
        vec!["new", "--broadcast", "extra"],
        vec!["reply", "thread-1", "extra"],
        vec!["show", "thread-1", "extra"],
        vec!["root", "extra"],
        vec!["new", "--projects"],
        vec!["new", "--broadcast", "--attach"],
        vec!["show", "../private"],
    ] {
        assert!(parse_cli_args(&args(&list)).is_err());
    }
    match parse_cli_args(&args(&["reply", "thread-1", "--attach", "./one.png", "--attach", "./two.pdf"])) {
        Ok(BbsCliCommand::Reply { attachments, .. }) => assert_eq!(attachments.len(), 2),
        _ => panic!("expected reply"),
    }
}

#[test]
fn project_display_fallback_keeps_repo_dash_segments() {
    assert_eq!(display_project_name_with_fallback("stabruriss-kota-app", None), "Kota App");
    assert_eq!(display_project_name_with_fallback("example-cedar-lantern", None), "Cedar Lantern");
    assert_eq!(display_project_name_with_fallback("stabruriss-kota-app", Some("kota-app")), "Kota App");
    assert_eq!(display_project_name_with_fallback("stabruriss-kota-app", Some("Kota App")), "Kota App");
}

#[test]
fn agent_avatar_from_yaml_reads_avatar_id() {
    assert_eq!(
        agent_avatar_from_yaml("id: agent-one\ndisplay-name: Agent One\navatar-id: user:avatar-one\n").as_deref(),
        Some("user:avatar-one")
    );
}

#[test]
fn project_agent_avatar_from_yaml_reads_source_project_agent() {
    let paths = avatar_candidates("/w", "source-project", "agent-one");
    let wanted = "/w/source-project/.agent-workspaces/agent-one/agent.yaml";
    assert!(paths.iter().any(|p| p == wanted));
    let found: Vec<Option<String>> = paths
        .iter()
        .map(|p| {
            if p == wanted {
                Some("id: agent-one\ndisplay-name: Agent One\navatar-id: user:avatar-one\n".to_string())
            } else {
                None
            }
        })
        .collect();
    assert_eq!(project_agent_avatar_from_yaml(&found).as_deref(), Some("user:avatar-one"));
}

#[test]
fn attachment_stream_is_bounded_even_if_source_outgrows_preflight() {
    let mut output = Vec::new();
    assert!(copy_attachment_stream(&vec![b"123456789".to_vec()], &mut output, 8).is_err());
    assert!(output.len() <= 8);
    let (count, hash) = copy_attachment_stream(&vec![b"12345678".to_vec()], &mut Vec::new(), 8).unwrap();
    assert_eq!(count, 8);
    assert_eq!(hash, format!("{:x}", <sha2::Sha256 as sha2::Digest>::digest(b"12345678")));
}

#[test]
fn index_repair_preserves_a_valid_latest_pointer_within_the_same_second() {
    let mut board = TestBoard::new();
    let thread = board.post("topic", &Attaching::none()).unwrap();
    board.reply(&thread, "reply", &Attaching::none()).unwrap();
    for post in board.threads[0].1.iter_mut() {
        post.meta.created_at = "2026-09-10T01:00:00Z".into();
    }
    let (_, posts) = board.load(&thread);
    let latest = posts.first().unwrap().meta.post_id.clone();
    board.threads[0].0.latest_post_id = latest.clone();
    let (repaired, _) = board.load(&thread);
    assert_eq!(repaired.latest_post_id, latest);
    assert_eq!(repaired.updated_at, "2026-09-10T01:00:00Z");
}

#[test]
fn attachment_posts_are_self_contained_and_each_reply_has_its_own_directory() {
    let mut board = TestBoard::new();
    let picture: (&str, &[u8]) = ("/src/same name.PNG", b"picture");
    let body = "Handwritten reference remains: /src/same name.PNG";
    let thread = board.post(body, &files(&[picture, picture])).unwrap();
    let reply = board.reply(&thread, "", &files(&[picture])).unwrap();
    let (_, posts) = board.load(&thread);
    let topic = posts.iter().find(|post| post.meta.kind == "topic").unwrap();
    let response = posts.iter().find(|post| post.meta.post_id == reply).unwrap();
    assert_eq!(topic.body, body);
    assert!(response.body.is_empty());
    assert_ne!(topic.meta.attachments[0].id, topic.meta.attachments[1].id);
    assert_ne!(topic.meta.post_id, response.meta.post_id);
    for post in &posts {
        for item in &post.meta.attachments {
            assert!(item.path.starts_with(&format!("attachments/{}/", post.meta.post_id)));
            assert!(item.path.ends_with(".png"));
            assert_eq!(item.size_bytes, 7);
            assert_eq!(item.sha256, format!("{:x}", <sha2::Sha256 as sha2::Digest>::digest(b"picture")));
        }
    }
    let show = board.render(&thread, true);
    assert!(show.contains(&format!("post: {reply}")));
    assert!(show.contains("same name.PNG"));
    assert!(show.contains("sha256:"));
    assert!(!show.contains("[missing]"));
}

#[test]
fn attachment_validation_rejects_invalid_batches_before_publishing() {
    let mut board = TestBoard::new();
    let mut a = files(&[("/src/small.md", b"hello"), ("/src", b"")]);
    a.looks[1] = directory();
    assert!(board.post("body", &a).is_err());
    let mut a = files(&[("/src/small.md", b"hello"), ("/src/missing", b"")]);
    a.looks[1] = Look::Unreadable("no such file".into());
    assert!(board.post("body", &a).is_err());
    let ten: Vec<(&str, &[u8])> = (0..10).map(|_| ("/src/small.md", b"hello" as &[u8])).collect();
    assert!(board.post("body", &files(&ten)).is_err());
    assert!(board.post("", &Attaching::none()).is_err());
    assert!(board.threads.is_empty());
    let huge = |size: u64| (vec![source("/src/huge.bin")], vec![file(size)]);
    let (s, l) = huge(MAX_ATTACHMENT_BYTES + 1);
    assert!(validate_attachments(&s, &l).err().unwrap().contains("1 GiB"));
    let (s, l) = huge(MAX_ATTACHMENT_BYTES);
    assert!(validate_attachments(&s, &l).is_ok());
    let both = validate_attachments(
        &vec![source("/src/huge.bin"), source("/src/small.md")],
        &vec![file(MAX_ATTACHMENT_BYTES), file(5)],
    );
    assert!(both.err().unwrap().contains("total"));
}

#[test]
fn attachment_missing_paths_and_orphans_are_not_silently_loaded() {
    let mut board = TestBoard::new();
    let thread = board.post("", &files(&[("/src/file.pdf", b"document")])).unwrap();
    let (_, posts) = board.load(&thread);
    let post = &posts[0];
    let views = attachment_views("/board", &thread, &post.meta.post_id, &post.meta.attachments, &vec![None]);
    assert!(!views[0].available);
    assert!(board.render(&thread, false).contains("[missing]"));
    for path in ["../../private.png", "/tmp/private.png", "attachments/other/att.png"] {
        let invalid = BbsAttachment { path: path.into(), ..post.meta.attachments[0].copy() };
        assert!(attachment_file(&post.meta.post_id, &invalid).is_none());
        assert!(
            attachment_views("/board", &thread, &post.meta.post_id, &vec![invalid], &vec![Some("/x".into())]).is_empty()
        );
    }
}

#[test]
fn publication_survives_index_failure_and_legacy_posts_stay_unchanged() {
    let mut board = TestBoard::new();
    let thread = board.post("legacy plain text", &Attaching::none()).unwrap();
    let reply = board.reply(&thread, "still published", &Attaching::none()).unwrap();
    assert_eq!(read_thread_ids(&vec![], &vec![thread.clone()]), vec![thread.clone()]);
    board.threads[0].0.latest_post_id = "missing".into();
    board.threads[0].0.updated_at = "1900-01-01".into();
    let (meta, posts) = board.load(&thread);
    assert_eq!(meta.latest_post_id, posts.last().unwrap().meta.post_id);
    assert_ne!(meta.updated_at, "1900-01-01");
    assert!(posts.iter().any(|post| post.meta.post_id == reply));
}

#[test]
fn a_reply_to_a_deleted_thread_is_not_published() {
    let mut board = TestBoard::new();
    let thread = board.post("topic", &Attaching::none()).unwrap();
    let mut state = SyncState::new();
    state.bury(Tombstone {
        thread_id: thread.clone(),
        post_id: None,
        version_id: None,
        deleted_at: "2026-09-10T01:00:00Z".into(),
    });
    let author = human_identity("project", "User".into(), None);
    let meta = board.threads[0].0.copy();
    let draft =
        reply_with_attachments_as(&author, &thread, "reply".into(), &Attaching::none(), &around(), true, Ok(meta)).unwrap();
    let text = serialized_post("front: matter\n", &draft.body);
    let r = before_local_publish(&mut state, &None, &draft.post, &text, false, "2026-09-10T01:00:01Z".into());
    assert_eq!(r.err().unwrap(), "BBS target was deleted");
    assert!(board.reply("thread-gone", "reply", &Attaching::none()).is_err());
}

#[test]
fn a_post_is_read_back_as_it_was_written() {
    let text = serialized_post("a: 1\n", "Body\n---\nmore");
    assert_eq!(text, "---\na: 1\n---\n\nBody\n---\nmore\n");
    assert_eq!(post_version(&text), format!("{:x}", <sha2::Sha256 as sha2::Digest>::digest(text.as_bytes())));
    assert_eq!(shared_frontmatter(text.into_bytes()).unwrap(), "a: 1");
    assert_eq!(shared_frontmatter(b"no front".to_vec()).err().unwrap(), "invalid_sync_frontmatter");
    assert_eq!(shared_frontmatter(vec![0xff, 0xfe]).err().unwrap(), "invalid_sync_post_utf8");
}

#[test]
fn only_posts_with_real_times_and_places_can_travel() {
    let mut board = TestBoard::new();
    let thread = board.post("topic", &files(&[("/src/a.txt", b"a")])).unwrap();
    let mut meta = board.load(&thread).1.remove(0).meta;
    let post = meta.post_id.clone();
    assert!(validate_post_meta(&meta, &thread, &post).is_ok());
    assert_eq!(validate_post_meta(&meta, "other", &post).err().unwrap(), "invalid_post_relationship");
    meta.created_at = "yesterday".into();
    assert_eq!(validate_post_meta(&meta, &thread, &post).err().unwrap(), "invalid_timestamp");
    meta.created_at = "2026-09-10T01:00:00Z".into();
    meta.attachments[0].path = "attachments/elsewhere/x".into();
    assert_eq!(validate_post_meta(&meta, &thread, &post).err().unwrap(), "invalid_sync_attachment_path");
}

#[test]
fn names_are_taken_from_the_last_part_of_a_path() {
    assert_eq!(attachment_name(&source("/a/b/report.pdf")), "report.pdf");
    assert_eq!(
        attachment_name(&BbsAttachmentSource { path: "/a/x".into(), name: Some("../shown.png".into()) }),
        "shown.png"
    );
}

#[test]
fn previews_are_one_short_line() {
    assert_eq!(preview_markdown(" one \n\n two "), "one two");
    let long = preview_markdown(&"x".repeat(300));
    assert_eq!(long.len(), 220);
    assert!(long.ends_with("..."));
}

#[test]
fn tags_are_cleaned_and_post_ids_are_fresh() {
    assert_eq!(normalize_project_tags(&args(&[" a ", "a", "", "b"])), args(&["a", "b"]));
    let a = mint_post_id("Agent One");
    assert_ne!(a, mint_post_id("Agent One"));
    assert!(a.contains("Agent-One") || a.contains("agent-one"));
}

#[test]
fn a_session_without_names_is_still_somebody() {
    let s = Session {
        project_id: Some("org-kota-app".into()),
        agent_id: Some("agent-1".into()),
        agent_display_name: None,
        project_display_name: None,
        agent_avatar: None,
        metadata: Some("display-name: Dex\navatar-id: user:x\n".into()),
    };
    let i = identity_from_env(&s);
    assert_eq!(i.agent_display_name, "Dex");
    assert_eq!(i.agent_avatar.as_deref(), Some("user:x"));
    assert_eq!(i.project_display_name, "Kota App");
}

#[test]
fn an_empty_post_needs_an_attachment() {
    assert_eq!(stdin_body(" text\n", false).unwrap(), "text");
    assert_eq!(stdin_body("\n", true).unwrap(), "");
    assert_eq!(stdin_body("\n", false).err().unwrap(), "kota-bbs requires text on stdin or --attach <file>");
}

#[test]
fn a_post_is_new_to_other_projects_until_they_have_dealt_with_it() {
    let mut board = TestBoard::new();
    let thread = board.post("topic", &Attaching::none()).unwrap();
    let state = SyncState::new();
    let mut seen = BbsProjectState::new("other");
    let shot = snapshot(&state, &None, &seen, "other", Some("Other"), "/board", vec![board.found(&thread, true)]);
    assert_eq!(shot.new_count, 1);
    assert_eq!(shot.threads[0].posts[0].state, "new");
    assert!(shot.threads[0].posts[0].external);
    let own = snapshot(
        &state,
        &None,
        &BbsProjectState::new("project"),
        "project",
        None,
        "/board",
        vec![board.found(&thread, true)],
    );
    assert_eq!(own.new_count, 0);
    assert_eq!(own.threads[0].posts[0].state, "none");
    let (meta, posts) = board.load(&thread);
    let post = posts[0].meta.post_id.clone();
    mark_processed(&vec![ShownThread { meta, posts }], &mut seen, &post).unwrap();
    let shot = snapshot(&state, &None, &seen, "other", None, "/board", vec![board.found(&thread, true)]);
    assert_eq!(shot.new_count, 0);
    assert_eq!(shot.threads[0].posts[0].state, "processed");
    assert!(mark_processed(&vec![], &mut seen, "nobody").is_err());
}

#[test]
fn the_board_shows_the_latest_thread_first_and_no_deleted_posts() {
    let mut board = TestBoard::new();
    let first = board.post("first", &Attaching::none()).unwrap();
    let second = board.post("second", &files(&[("/src/a.txt", b"a"), ("/src/b.txt", b"b")])).unwrap();
    for (i, t) in board.threads.iter_mut().enumerate() {
        t.1[0].meta.created_at = format!("2026-09-1{i}T00:00:00Z");
    }
    board.threads[1].1[0].body = String::new();
    let mut state = SyncState::new();
    let seen = BbsProjectState::new("project");
    let show = |state: &SyncState| {
        snapshot(
            state,
            &None,
            &seen,
            "project",
            None,
            "/board",
            vec![board.found(&first, true), board.found(&second, true)],
        )
    };
    let shot = show(&state);
    assert_eq!(shot.threads.len(), 2);
    assert_eq!(shot.threads[0].thread_id, second);
    assert_eq!(shot.threads[0].posts[0].preview, "a.txt, b.txt");
    state.bury(Tombstone {
        thread_id: second.clone(),
        post_id: None,
        version_id: None,
        deleted_at: "2026-09-12T00:00:00Z".into(),
    });
    let shot = show(&state);
    assert_eq!(shot.threads.len(), 1);
    assert_eq!(shot.threads[0].thread_id, first);
}

#[test]
fn names_in_metadata_are_read_whatever_their_tags() {
    assert_eq!(agent_display_name_from_yaml("displayName: ' Alice '\n").as_deref(), Some("Alice"));
    assert_eq!(agent_display_name_from_yaml("display-name: !name Alice\n").as_deref(), Some("Alice"));
    assert_eq!(agent_display_name_from_yaml("!agent\ndisplay-name: Alice\n").as_deref(), Some("Alice"));
    assert_eq!(agent_display_name_from_yaml("display-name: 7\n"), None);
    assert_eq!(agent_display_name_from_yaml("- display-name\n"), None);
    assert_eq!(agent_display_name_from_yaml("display-name: [\n"), None);
}

#[test]
fn a_label_decides_the_shown_name_and_leaves_no_separator() {
    for project in ["one-two", "three", ""] {
        assert_eq!(display_project_name_with_fallback(project, Some(" kota_app/room ")), "Kota App Room");
        assert_eq!(display_project_name_with_fallback(project, Some("kota--app")), "Kota  App");
        assert_eq!(display_project_name_with_fallback(project, Some("-_/")), "Project");
    }
}

#[test]
fn no_letter_becomes_a_separator() {
    for c in '\0'..=char::MAX {
        let shown = display_project_name_with_fallback("room", Some(&c.to_string()));
        assert!(!shown.contains(['-', '_', '/']), "{c:?}");
        assert!(!shown.trim().is_empty(), "{c:?}");
        for u in c.to_uppercase().filter(|u| u.is_ascii()) {
            assert!(u.is_ascii_uppercase() || u == c, "{c:?}");
        }
    }
    assert_eq!(display_project_name_with_fallback("room", Some("\u{149}-\u{df}")), "\u{2bc}N SS");
}
