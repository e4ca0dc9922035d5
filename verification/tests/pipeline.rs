use sweethosts::model::{HistoryEntry, NodeKind, ProfileNode};
use sweethosts::compose::{collect_active_ids, get_content_of_list, ContentStore};
use sweethosts::apply::{apply_step, elevation_command, get_path_of_system_hosts, record_apply,
    sandbox_file_name, should_run_hook, staging_file_name, start_apply, ApplyAction,
    ApplyEvent, ApplyOutcome, ApplyRequest, ApplyState};

fn leaf(id: &str, title: &str, on: bool) -> ProfileNode {
    ProfileNode {
        id: id.to_string(),
        title: title.to_string(),
        on,
        kind: NodeKind::Leaf,
        children: Vec::new(),
    }
}

fn folder(id: &str, title: &str, on: bool, children: Vec<ProfileNode>) -> ProfileNode {
    ProfileNode { id: id.to_string(), title: title.to_string(), on, kind: NodeKind::Folder, children }
}

fn store_of(pairs: &[(&str, &str)]) -> ContentStore {
    let mut s = ContentStore::new();
    for (id, text) in pairs {
        s.set(&id.to_string(), text.to_string());
    }
    s
}

fn request(doc: &str, sandbox: bool, secret: Option<&str>) -> ApplyRequest {
    ApplyRequest {
        doc: doc.to_string(),
        sandbox,
        posix: true,
        secret: secret.map(|s| s.to_string()),
        sys_path: "/etc/hosts".to_string(),
        tmp_path: "/tmp/staged".to_string(),
        old_content: "old content".to_string(),
    }
}

#[test]
fn compose_takes_active_ids_at_every_depth() {
    let tree = vec![
        leaf("1", "A", true),
        leaf("2", "B", false),
        folder("f", "F", false, vec![leaf("3", "C", true)]),
    ];
    let ids = collect_active_ids(&tree);
    assert_eq!(ids, vec!["1".to_string(), "3".to_string()]);

    let store = store_of(&[("1", "x"), ("3", "y")]);
    let doc = get_content_of_list(&tree, &store);
    assert_eq!(doc, "# file: 1\nx\n\n# file: 3\ny");
}

#[test]
fn compose_folder_flag_does_not_gate_children() {
    let off_folder = vec![folder("f", "F", false, vec![leaf("3", "C", true)])];
    let on_folder = vec![folder("f", "F", true, vec![leaf("3", "C", true)])];
    let store = store_of(&[("3", "y")]);
    assert_eq!(get_content_of_list(&off_folder, &store), "# file: 3\ny");
    // The folder's own id has no blob, so an active folder adds nothing.
    assert_eq!(get_content_of_list(&on_folder, &store), "# file: 3\ny");
}

#[test]
fn compose_skips_missing_blobs_silently() {
    let tree = vec![leaf("1", "A", true), leaf("2", "B", true)];
    let store = store_of(&[("2", "z")]);
    assert_eq!(get_content_of_list(&tree, &store), "# file: 2\nz");
}

#[test]
fn compose_empty_tree_is_empty_document() {
    let tree: Vec<ProfileNode> = Vec::new();
    let store = ContentStore::new();
    assert_eq!(get_content_of_list(&tree, &store), "");
}

#[test]
fn content_store_overwrites_in_place() {
    let mut store = store_of(&[("1", "x")]);
    assert_eq!(store.get(&"1".to_string()), Some(&"x".to_string()));
    store.set(&"1".to_string(), "x2".to_string());
    assert_eq!(store.get(&"1".to_string()), Some(&"x2".to_string()));
    assert_eq!(store.get(&"missing".to_string()), None);
}

#[test]
fn apply_direct_write_records_two_entries() {
    let req = request("new doc", false, None);
    let (st, act) = start_apply(&req);
    assert!(matches!(st, ApplyState::DirectWriting));
    match act {
        ApplyAction::WriteFile { path, content } => {
            assert_eq!(path, "/etc/hosts");
            assert_eq!(content, "new doc");
        },
        _ => panic!("a direct apply starts with the direct write"),
    }
    let (st, act) = apply_step(&req, st, ApplyEvent::WriteOk);
    assert!(matches!(st, ApplyState::Recording));
    let (old_doc, new_doc) = match act {
        ApplyAction::AppendHistory { old_doc, new_doc } => (old_doc, new_doc),
        _ => panic!("a successful write is followed by the history append"),
    };
    assert_eq!(old_doc, "old content");
    assert_eq!(new_doc, "new doc");

    let mut history: Vec<HistoryEntry> = Vec::new();
    record_apply(&mut history, &old_doc, &new_doc, 100, 101);
    assert_eq!(history.len(), 2);
    assert_eq!(history[0].content, "old content");
    assert_eq!(history[1].content, "new doc");

    let (st, act) = apply_step(&req, st, ApplyEvent::Recorded);
    assert!(matches!(st, ApplyState::Finished(ApplyOutcome::Installed)));
    assert!(matches!(act, ApplyAction::Finish(ApplyOutcome::Installed)));
}

#[test]
fn apply_sandbox_never_touches_system_path() {
    let req = request("doc", true, Some("hunter"));
    let (st, act) = start_apply(&req);
    assert!(matches!(st, ApplyState::SandboxWriting));
    match act {
        ApplyAction::WriteFile { path, content } => {
            assert_eq!(path, "/tmp/staged");
            assert_eq!(content, "doc");
        },
        _ => panic!("a sandboxed apply writes the sandbox copy"),
    }
    // Whatever the write reported, the run finishes without further actions.
    let (st, act) = apply_step(&req, st, ApplyEvent::WriteFailed);
    match &st {
        ApplyState::Finished(ApplyOutcome::InstalledSandboxed(p)) => {
            assert_eq!(p, "/tmp/staged")
        },
        _ => panic!("a sandboxed run finishes after its one write"),
    }
    assert!(matches!(act, ApplyAction::Finish(ApplyOutcome::InstalledSandboxed(_))));
}

#[test]
fn sandbox_apply_of_empty_document_succeeds() {
    let req = request("", true, None);
    let (st, act) = start_apply(&req);
    match act {
        ApplyAction::WriteFile { path, content } => {
            assert_eq!(path, "/tmp/staged");
            assert_eq!(content, "");
        },
        _ => panic!("a sandboxed apply writes the sandbox copy"),
    }
    let (st, _) = apply_step(&req, st, ApplyEvent::WriteOk);
    assert!(matches!(st, ApplyState::Finished(ApplyOutcome::InstalledSandboxed(_))));
}

#[test]
fn apply_without_secret_is_denied() {
    let req = request("doc", false, None);
    let (st, _) = start_apply(&req);
    let (st, act) = apply_step(&req, st, ApplyEvent::WriteFailed);
    assert!(matches!(st, ApplyState::Finished(ApplyOutcome::PermissionDenied(None))));
    assert!(matches!(act, ApplyAction::Finish(ApplyOutcome::PermissionDenied(None))));
}

#[test]
fn apply_elevation_fallback_and_failure_message() {
    let req = request("doc", false, Some("s3cr3t"));
    let (st, _) = start_apply(&req);
    let (st, act) = apply_step(&req, st, ApplyEvent::WriteFailed);
    assert!(matches!(st, ApplyState::Elevating));
    match act {
        ApplyAction::ElevatedInstall { tmp_path, sys_path, content } => {
            assert_eq!(tmp_path, "/tmp/staged");
            assert_eq!(sys_path, "/etc/hosts");
            assert_eq!(content, "doc");
        },
        _ => panic!("the fallback stages an elevated install"),
    }
    let (st, _) = apply_step(&req, st, ApplyEvent::ElevateFailed("denied!".to_string()));
    match st {
        ApplyState::Finished(ApplyOutcome::PermissionDenied(Some(msg))) => {
            assert_eq!(msg, "denied!")
        },
        _ => panic!("a failed elevation surfaces the captured output"),
    }
}

#[test]
fn apply_elevation_success_records_history() {
    let req = request("doc", false, Some("s3cr3t"));
    let (st, _) = start_apply(&req);
    let (st, _) = apply_step(&req, st, ApplyEvent::WriteFailed);
    let (st, act) = apply_step(&req, st, ApplyEvent::ElevateOk);
    assert!(matches!(st, ApplyState::Recording));
    assert!(matches!(act, ApplyAction::AppendHistory { .. }));
    let (st, _) = apply_step(&req, st, ApplyEvent::Recorded);
    assert!(matches!(st, ApplyState::Finished(ApplyOutcome::Installed)));
}

#[test]
fn secret_never_reaches_history() {
    let secret = "s3cr3t";
    let mut history: Vec<HistoryEntry> = Vec::new();
    record_apply(&mut history, "old content", "new doc", 1, 2);
    for e in &history {
        assert!(!e.content.contains(secret));
        assert!(!e.id.contains(secret));
    }
}

#[test]
fn elevation_command_escapes_the_secret() {
    let cmd = elevation_command("pa'ss", "/tmp/t", "/etc/hosts");
    assert_eq!(
        cmd,
        "echo 'pa'\\''ss' | sudo -S sh -c 'cat \"/tmp/t\" > \"/etc/hosts\" && chmod 644 \"/etc/hosts\"'"
    );
}

#[test]
fn system_hosts_paths() {
    assert_eq!(get_path_of_system_hosts(false, None), "/etc/hosts");
    let w = "D:\\Win".to_string();
    assert_eq!(
        get_path_of_system_hosts(true, Some(&w)),
        "D:\\Win\\system32\\drivers\\etc\\hosts"
    );
    assert_eq!(
        get_path_of_system_hosts(true, None),
        "C:\\Windows\\system32\\drivers\\etc\\hosts"
    );
}

#[test]
fn temporary_file_names() {
    assert_eq!(sandbox_file_name(12345), "sweethosts_safe_12345.hosts");
    assert_eq!(staging_file_name(678), "swh_678.txt");
}

#[test]
fn hook_runs_only_for_nonblank_commands() {
    assert!(!should_run_hook(None));
    let blank = "  \t\n".to_string();
    assert!(!should_run_hook(Some(&blank)));
    let cmd = " echo done ".to_string();
    assert!(should_run_hook(Some(&cmd)));
}
