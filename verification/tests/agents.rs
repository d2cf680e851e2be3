use kota_core::agent_bus::{
    closing_record, compose_dispatch, dispatch_request, list_agent_identities, message_body, parse_send_args, plan_send, SendArgs, DISPATCH_SCHEMA, mint_event_id, numbered_name, prepare_retry, prepare_send, render_terminal_message, Sending,
    resolve_agent_identity, resolve_cli_target_agent_id, ActorMessage, AgentBusManager, AgentBusRetryDeliveryRequest,
    AgentBusSendRequest, AgentFile, AgentIdentity,
};
use kota_core::roots::{nearest_project, project_of, Ancestor};
use kota_core::agent_directory::{agent_from, collect, collect_project, notification_target, visible, AgentEntry, Found, Registration, TargetWorkspace, Workspace};

fn message(text: &str) -> ActorMessage {
    ActorMessage {
        project_root: "/tmp/project".into(),
        actor_id: "bartender".into(),
        actor_name: "Bartender".into(),
        target_agent_id: "alice".into(),
        intent: "resolve-conflict".into(),
        text: text.into(),
        event_id: "msg_1".into(),
        dedupe_key: None,
        launch_request: None,
    }
}

#[test]
fn terminal_message_uses_structured_envelope() {
    let text = render_terminal_message(&message("Resolve this conflict."));
    assert!(text.contains("<KOTA_MESSAGE"));
    assert!(text.contains("from=\"bartender\""));
    assert!(text.contains("to=\"alice\""));
    assert!(text.contains("Resolve this conflict."));
}

fn identities() -> Vec<AgentIdentity> {
    list_agent_identities(&vec![AgentFile {
        agent_id: "agent-alice".into(),
        metadata: Some("id: agent-alice\ndisplay-name: Dex III v. kota\nstatus: active\n".into()),
    }])
}

#[test]
fn resolves_agent_reference_by_aka_or_at_id() {
    let by_aka = resolve_agent_identity(&identities(), "Dex").unwrap();
    let by_id = resolve_agent_identity(&identities(), "@agent-alice").unwrap();
    assert_eq!(by_aka.agent_id, "agent-alice");
    assert_eq!(by_id.agent_id, "agent-alice");
}

#[test]
fn cli_target_resolution_returns_canonical_agent_id() {
    let target = resolve_cli_target_agent_id(&identities(), "Dex").unwrap();
    assert_eq!(target, "agent-alice");
}

#[test]
fn cli_target_resolution_rejects_unknown_target() {
    let err = resolve_cli_target_agent_id(&vec![], "座山雕CC48").err().unwrap();
    assert!(err.contains("agent not found for reference: 座山雕CC48"));
    assert!(err.contains("canonical agent id"));
}

#[test]
fn a_message_needs_a_sender_a_target_and_a_text() {
    let request = |sender: Option<&str>, target: &str, text: &str| AgentBusSendRequest {
        project_root: None,
        sender_agent_id: sender.map(String::from),
        sender_name: None,
        target: target.into(),
        intent: None,
        text: text.into(),
        event_id: None,
        dedupe_key: None,
    };
    let all = identities();
    let err = prepare_send(&all, "/p", &request(None, "Dex", "hi"), &None, "t0ken").err().unwrap();
    assert_eq!(err, "agent bus send requires senderAgentId");
    let err = prepare_send(&all, "/p", &request(Some("@x"), "Dex", "  "), &None, "t0ken").err().unwrap();
    assert_eq!(err, "agent bus send requires non-empty text");
    assert!(prepare_send(&all, "/p", &request(Some("@x"), "nobody", "hi"), &None, "t0ken").is_err());
    let m = prepare_send(&all, "/p", &request(Some("@agent-alice"), "dex", " hi "), &None, "t0ken").unwrap();
    assert_eq!(m.actor_id, "agent-alice");
    assert_eq!(m.actor_name, "Dex III v. kota");
    assert_eq!(m.target_agent_id, "agent-alice");
    assert_eq!(m.intent, "message");
    assert_eq!(m.text, "hi");
    assert_eq!(m.dedupe_key.as_deref(), Some(m.event_id.as_str()));
    assert_eq!(m.event_id, "agentbus-agent-alice-agent-alice-t0ken");
    let bus = AgentBusManager::new();
    let fresh = bus.send_request(&all, "/p", &request(Some("@agent-alice"), "dex", " hi "), &None).unwrap();
    assert_ne!(fresh.event_id, m.event_id);
    assert!(fresh.event_id.starts_with("agentbus-agent-alice-agent-alice-"));
    assert!(matches!(bus.send_actor_message(&fresh, true), Sending::Done(d) if d.duplicate));
    match bus.send_actor_message(&fresh, false) {
        Sending::Deliver(line) => assert_eq!(line.event_id, fresh.event_id),
        _ => panic!("expected a delivery"),
    }
}

#[test]
fn a_retry_names_the_event_it_repeats() {
    let request = |original: &str| AgentBusRetryDeliveryRequest {
        project_root: None,
        original_event_id: original.into(),
        attempt_event_id: None,
        sender_agent_id: "x".into(),
        sender_name: Some("X".into()),
        target_agent_id: "agent-alice".into(),
        intent: None,
        text: "again".into(),
    };
    let err = prepare_retry(&identities(), "/p", &request(" "), &None, "t0ken").err().unwrap();
    assert_eq!(err, "agent bus retry requires originalEventId");
    let m = prepare_retry(&identities(), "/p", &request("e1"), &None, "t0ken").unwrap();
    assert_eq!(m.event_id, "e1:retry:t0ken");
    let m = AgentBusManager::new().retry_delivery(&identities(), "/p", &request("e1"), &None).unwrap();
    assert!(m.event_id.starts_with("e1:retry:"));
    assert_eq!(m.event_id.len(), "e1:retry:".len() + 32);
    assert_eq!(m.intent, "handoff");
    assert!(m.dedupe_key.is_none());
}

#[test]
fn event_ids_are_fresh() {
    let a = mint_event_id("a", "b");
    let b = mint_event_id("a", "b");
    assert_ne!(a, b);
    assert!(a.starts_with("agentbus-a-b-"));
}

#[test]
fn a_delivered_message_is_not_delivered_again() {
    let mut bus = AgentBusManager::new();
    let mut m = message("hi");
    m.dedupe_key = Some("key".into());
    assert!(!bus.is_duplicate(&m.dedupe_key, false));
    assert!(bus.is_duplicate(&m.dedupe_key, true));
    let failed = bus.settle(&m, Err("closed".into()));
    assert!(!failed.submitted);
    assert_eq!(failed.skipped_reason.as_deref(), Some("closed"));
    assert!(!bus.is_duplicate(&m.dedupe_key, false));
    assert!(bus.settle(&m, Ok(())).submitted);
    assert!(bus.is_duplicate(&m.dedupe_key, false));
}

#[test]
fn taken_file_names_are_numbered() {
    assert_eq!(numbered_name("a", "json", 2), "a-2.json");
    assert_eq!(numbered_name("a", "", 1), "a-1");
}

#[test]
fn an_empty_message_body_is_refused() {
    assert_eq!(message_body(" hi\n").unwrap(), "hi");
    assert!(message_body("\n").is_err());
}

fn registered(id: &str, archived: bool) -> Found<Registration> {
    Found::Read(Registration { project_id: id.into(), repo_full_name: "org/Same Name".into(), archived })
}

fn agent(id: &str, yaml: &str) -> AgentEntry {
    AgentEntry { id: id.into(), metadata: Found::Read(yaml.into()) }
}

#[test]
fn collector_is_read_only_and_excludes_only_inactive_registrations() {
    assert!(collect(&vec![]).complete().unwrap().is_empty());
    let workspaces = vec![
        Workspace {
            root: "/w/project-a".into(),
            file: registered("project-a", false),
            entries: vec![
                agent("agent-a", "displayName: Same\nstatus: active\nsession-id: private\n"),
                agent("agent-b", "display-name: Same\nstatus: idle\n"),
                agent("agent-closed", "display-name: Gone\nstatus: ARCHIVED\n"),
            ],
        },
        Workspace {
            root: "/w/project-b".into(),
            file: registered("project-b", true),
            entries: vec![agent("agent-a", "display-name: Hidden\n")],
        },
    ];
    let directory = collect(&workspaces).complete().unwrap();
    assert_eq!(directory.len(), 1);
    assert_eq!(directory[0].agents.len(), 2);
    assert_eq!(directory[0].agents[0].name, "Same");
    assert_eq!(directory[0].root, "/w/project-a");
    for status in ["archived", "deleted", "dismissed", "removed"] {
        assert!(!visible(status));
    }
    for status in ["active", "offline", "idle", "", "unknown"] {
        assert!(visible(status));
    }
}

#[test]
fn a_project_that_cannot_be_used_says_why() {
    let fault = |file: &Found<Registration>, entries: Vec<AgentEntry>| {
        collect_project("/w/p", file, &entries).err().unwrap()
    };
    assert_eq!(fault(&registered("../p", false), vec![]), "invalid_id");
    assert_eq!(fault(&Found::Unreadable("denied".into()), vec![]), "denied");
    assert!(collect_project("/w/p", &Found::Missing, &vec![]).unwrap().is_none());
    let good = registered("p", false);
    assert_eq!(fault(&good, vec![agent("a", "name: A\n"), agent("b", "- list\n")]), "invalid_agent_metadata");
    assert_eq!(fault(&good, vec![agent("a/b", "name: A\n")]), "invalid_id");
    assert_eq!(fault(&good, vec![agent("a", "{}\n")]), "invalid_agent_metadata");
    let broken = fault(&good, vec![agent("a", "skills: [\n")]);
    assert!(!broken.is_empty() && broken != "invalid_agent_metadata");
    assert_eq!(agent_from("a", &Found::Read(Err("torn".into()))).err().unwrap(), "torn");
}

#[test]
fn collector_has_no_agent_total_cap_and_detects_rename_removal_and_bad_partial_input() {
    let mut entries: Vec<AgentEntry> =
        (0..130).map(|i| agent(&format!("a-{i:03}"), "display-name: Original\n")).collect();
    let directory = |entries: Vec<AgentEntry>| {
        collect(&vec![Workspace { root: "/w/project-a".into(), file: registered("project-a", false), entries }])
    };
    let copy = |entries: &Vec<AgentEntry>| -> Vec<AgentEntry> {
        entries
            .iter()
            .map(|e| match &e.metadata {
                Found::Read(t) => agent(&e.id, t),
                _ => unreachable!(),
            })
            .collect()
    };
    assert_eq!(directory(copy(&entries)).complete().unwrap()[0].agents.len(), 130);
    entries[129] = agent("a-129", "display-name: New name\n");
    assert_eq!(directory(copy(&entries)).complete().unwrap()[0].agents[129].name, "New name");
    entries.pop();
    assert_eq!(directory(copy(&entries)).complete().unwrap()[0].agents.len(), 129);
    entries[1] = agent("a-001", "[invalid yaml");
    assert!(directory(copy(&entries)).complete().is_err());
    entries[1] = agent("a-001", "display-name: Recovered\n");
    assert_eq!(directory(copy(&entries)).complete().unwrap()[0].agents.len(), 129);
}

#[test]
fn a_notification_goes_to_the_one_project_with_its_name() {
    let place = |root: &str| TargetWorkspace {
        root: root.into(),
        file: registered("p", false),
        metadata: Some("display-name: Dex\n".into()),
    };
    let found = notification_target(&vec![place("/a")], "p", "agent-a").unwrap().unwrap();
    assert_eq!(found.project.root, "/a");
    assert_eq!(found.agent.unwrap().name, "Dex");
    assert!(notification_target(&vec![], "p", "agent-a").unwrap().is_none());
    assert!(notification_target(&vec![place("/a"), place("/b")], "p", "agent-a").is_err());
    assert_eq!(notification_target(&vec![], "../p", "agent-a").err().unwrap(), "invalid_id");
}

fn ancestor(agent_file: bool, memory: bool, workspaces: bool) -> Ancestor {
    Ancestor { agent_file, memory, workspaces }
}

#[test]
fn an_agents_workspace_belongs_to_its_project() {
    // The agent's own directory, the directory of all agents, the project.
    let chain = vec![
        ancestor(true, true, false),
        ancestor(false, false, false),
        ancestor(false, true, true),
        ancestor(false, false, false),
    ];
    assert_eq!(project_of(&chain), Some(2));
    assert_eq!(nearest_project(&chain), Some(2));
    let below = vec![ancestor(false, false, false), ancestor(false, true, true)];
    assert_eq!(project_of(&below), Some(1));
    assert_eq!(nearest_project(&below), Some(1));
    // An agent's file two levels below a project wins over a project in between.
    let nested = vec![ancestor(true, true, true), ancestor(false, false, false), ancestor(false, true, true)];
    assert_eq!(project_of(&nested), Some(2));
    assert_eq!(nearest_project(&nested), Some(0));
    assert_eq!(project_of(&vec![ancestor(true, true, false)]), None);
    assert_eq!(nearest_project(&vec![]), None);
}

#[test]
fn a_message_goes_through_the_outbox() {
    let env = SendArgs {
        target: None,
        intent: "message".into(),
        project_root: Some("/work/room".into()),
        sender_agent_id: Some("@agent-bob".into()),
        sender_name: None,
    };
    let words: Vec<String> = ["--to", " Dex ", "--intent", "handoff"].iter().map(|w| w.to_string()).collect();
    let args = parse_send_args(&words, env).unwrap();
    let plan = plan_send(&args, &None).unwrap();
    assert_eq!(plan.sender_agent_id, "agent-bob");
    assert_eq!(plan.target, "Dex");
    let target = resolve_cli_target_agent_id(&identities(), &plan.target).unwrap();
    let metadata = Some("display-name: ' Bob '\n".to_string());
    let file = compose_dispatch(&plan, &args, &metadata, &target, "please look");
    assert_eq!(file.schema, DISPATCH_SCHEMA);
    assert_eq!(file.sender_name.as_deref(), Some("Bob"));
    assert_eq!(file.event_id, file.dedupe_key);
    assert!(file.created_at.ends_with("+00:00"));
    assert_eq!((file.target.as_str(), file.intent.as_str(), file.text.as_str()), ("agent-alice", "handoff", "please look"));
    let event = file.event_id.clone();
    let request = dispatch_request(file, "/work/room", target);
    assert_eq!(request.event_id.as_deref(), Some(event.as_str()));
    assert_eq!(request.target, "agent-alice");
    let sent = AgentBusManager::new().send_request(&identities(), "/work/room", &request, &None).unwrap();
    assert_eq!(sent.actor_name, "Bob");
    assert_eq!(sent.event_id, event);
}

#[test]
fn only_a_failed_delivery_is_followed_by_a_line() {
    assert!(closing_record(&message("hi"), &Ok(())).is_none());
    let line = closing_record(&message("hi"), &Err("closed".into())).unwrap();
    assert_eq!(line.text, "alice is not responding. Let's skip this for now.");
    assert_eq!(line.event_id, "msg_1:skipped");
    assert_eq!(line.target_agent_ids, vec!["alice"]);
}
