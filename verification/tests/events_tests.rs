use zelland::assets::{AssetManager, ASSET_TTL_MS};
use zelland::events::{
    activate_project, generic_trigger, handle_changed_path, handle_event, title_of, trigger_md, trigger_show, ChangeKind, WatchAction,
};
use zelland::projects::TriggerRequest;
use zelland::watcher::{FileType, WatchCommand};

fn broadcast(a: &WatchAction) -> &zelland::events::OpenView {
    match a {
        WatchAction::Broadcast(v) => v,
        other => panic!("expected a broadcast, got {:?}", other),
    }
}

#[test]
fn test_title_of_file_name() {
    assert_eq!(title_of("/home/u/notes/plan.md"), "plan.md");
    assert_eq!(title_of("/"), "");
}

#[test]
fn test_changed_markdown_is_registered_and_reloaded() {
    let mut mgr = AssetManager::new();
    let acts = handle_changed_path(&mut mgr, "/w/doc.md", Some("/w/doc.md".to_string()), 5000, 1700000000);
    assert_eq!(acts.len(), 2);
    match &acts[0] {
        WatchAction::ReloadAnnotations(p) => assert_eq!(p, "/w/doc.md"),
        other => panic!("expected a reload, got {:?}", other),
    }
    let v = broadcast(&acts[1]);
    assert_eq!(v.asset_id.len(), 16);
    assert_eq!(v.url, format!("/assets/{}?t=1700000000", v.asset_id));
    assert_eq!(v.file_type, FileType::Markdown);
    assert_eq!(v.title, "doc.md");
    assert_eq!(mgr.resolve(&v.asset_id, 5000).as_deref(), Some("/w/doc.md"));
    assert_eq!(mgr.resolve(&v.asset_id, 5000 + ASSET_TTL_MS + 1), None);

    // A second change finds the registration again.
    let id = v.asset_id.clone();
    let again = handle_changed_path(&mut mgr, "/w/doc.md", Some("/w/doc.md".to_string()), 6000, -5);
    assert_eq!(again.len(), 2);
    let v2 = broadcast(&again[1]);
    assert_eq!(v2.asset_id, id);
    assert_eq!(v2.url, format!("/assets/{}?t=-5", id));
}

#[test]
fn test_changed_hidden_or_unknown_is_ignored() {
    let mut mgr = AssetManager::new();
    assert!(handle_changed_path(&mut mgr, "/w/.zelland/doc.md", Some("/w/.zelland/doc.md".to_string()), 0, 0).is_empty());
    assert!(handle_changed_path(&mut mgr, "/w/data.csv", Some("/w/data.csv".to_string()), 0, 0).is_empty());
    assert!(mgr.find_by_path("/w/.zelland/doc.md").is_none());
}

#[test]
fn test_changed_unregistered_image_is_not_broadcast() {
    let mut mgr = AssetManager::new();
    let acts = handle_changed_path(&mut mgr, "/w/pic.png", Some("/w/pic.png".to_string()), 0, 0);
    assert!(acts.is_empty());
    let id = mgr.register("/w/pic.png".to_string(), 0);
    let acts = handle_changed_path(&mut mgr, "/w/pic.png", None, 10, 7);
    assert_eq!(acts.len(), 1);
    let v = broadcast(&acts[0]);
    assert_eq!(v.asset_id, id);
    assert_eq!(v.file_type, FileType::Image);
    assert_eq!(v.title, "pic.png");
}

#[test]
fn test_changed_markdown_without_canonical_path_only_reloads() {
    let mut mgr = AssetManager::new();
    let acts = handle_changed_path(&mut mgr, "/w/gone.md", None, 0, 0);
    assert_eq!(acts.len(), 1);
    assert!(matches!(&acts[0], WatchAction::ReloadAnnotations(p) if p == "/w/gone.md"));
    assert!(mgr.find_by_path("/w/gone.md").is_none());
}

#[test]
fn test_event_kinds() {
    let mut mgr = AssetManager::new();
    let paths = vec!["/w/a.md".to_string(), "/w/b.txt".to_string(), "/w/c.md".to_string()];
    let canon = vec![Some("/w/a.md".to_string()), None, Some("/w/c.md".to_string())];
    assert!(handle_event(&mut mgr, ChangeKind::Other, &paths, &canon, 0, 0).is_empty());
    assert!(mgr.find_by_path("/w/a.md").is_none());

    let acts = handle_event(&mut mgr, ChangeKind::Modify, &paths, &canon, 0, 3);
    assert_eq!(acts.len(), 4);
    assert!(matches!(&acts[0], WatchAction::ReloadAnnotations(p) if p == "/w/a.md"));
    assert_eq!(broadcast(&acts[1]).title, "a.md");
    assert!(matches!(&acts[2], WatchAction::ReloadAnnotations(p) if p == "/w/c.md"));
    assert_eq!(broadcast(&acts[3]).title, "c.md");
    assert!(mgr.find_by_path("/w/a.md").is_some());
    assert!(mgr.find_by_path("/w/c.md").is_some());
}

#[test]
fn test_trigger_registers_and_replies() {
    let mut mgr = AssetManager::new();
    let req = TriggerRequest { path: "docs/plan.md".to_string(), title: String::new() };
    let out = trigger_md(&mut mgr, &req, "/p/docs/plan.md", Ok("/real/p/docs/plan.md".to_string()), 100).unwrap();
    let id = out.view.asset_id.clone();
    assert_eq!(id.len(), 16);
    assert_eq!(out.view.url, format!("/assets/{}", id));
    assert_eq!(out.view.file_type, FileType::Markdown);
    assert_eq!(out.view.title, "plan.md");
    assert_eq!(out.watch, WatchCommand::Add("/p/docs/plan.md".to_string()));
    assert_eq!(out.reply, format!("Showing docs/plan.md (ID: {})", id));
    assert_eq!(mgr.resolve(&id, 100).as_deref(), Some("/real/p/docs/plan.md"));
}

#[test]
fn test_trigger_keeps_given_title() {
    let mut mgr = AssetManager::new();
    let req = TriggerRequest { path: "shot.png".to_string(), title: "Screenshot".to_string() };
    let out = trigger_show(&mut mgr, &req, "/p/shot.png", Ok("/p/shot.png".to_string()), 0).unwrap();
    assert_eq!(out.view.title, "Screenshot");
    assert_eq!(out.view.file_type, FileType::Image);
}

#[test]
fn test_trigger_reports_access_error() {
    let mut mgr = AssetManager::new();
    let req = TriggerRequest { path: "missing.pdf".to_string(), title: String::new() };
    let err = generic_trigger(
        &mut mgr,
        &req,
        "/p/missing.pdf",
        Err("No such file or directory (os error 2)".to_string()),
        FileType::Pdf,
        0,
    )
    .unwrap_err();
    assert_eq!(err, "Failed to access file missing.pdf: No such file or directory (os error 2)");
    assert!(mgr.find_by_path("/p/missing.pdf").is_none());
}

#[test]
fn test_activate_project_watches_directory() {
    assert_eq!(
        activate_project("/home/u/projects", "zelland"),
        WatchCommand::AddRecursive("/home/u/projects/zelland".to_string())
    );
    // A project whose directory does not exist yet is activated all the same.
    assert_eq!(
        activate_project("/tmp/fresh-projects", "test"),
        WatchCommand::AddRecursive("/tmp/fresh-projects/test".to_string())
    );
}
