use std::sync::mpsc;
use zelland::keyed::KeyedMap;
use zelland::keystore::{
    complete_biometric_request, master_passphrase_from_file, BiometricResponse, StandardKeyManager,
};
use zelland::projects::{
    md_walk_step, project_files, projects_from_entries, relative_md_path, resolve_filepath,
    DirEntryInfo, EntryKind, NotificationSource, NotifyRequest, WalkStep,
};
use zelland::remote::{
    attach_command, mosh_fixed_address, mosh_server_command, parse_mosh_connect, parse_session_list, zellij_action_args,
};
use zelland::renderer::{ansi_palette_color, padded_row_bytes, ppm_from_bgra, store_pending_size};

fn dir(name: &str) -> DirEntryInfo {
    DirEntryInfo { name: name.into(), kind: EntryKind::Dir, path: format!("/p/{}", name) }
}

fn file(name: &str) -> DirEntryInfo {
    DirEntryInfo { name: name.into(), kind: EntryKind::File, path: format!("/p/{}", name) }
}

#[test]
fn test_scan_projects() {
    let projects = projects_from_entries(&[dir("beta"), file("readme.txt"), dir("alpha")]);
    assert_eq!(projects.len(), 2);
    assert_eq!(projects[0].id, "alpha");
    assert_eq!(projects[1].id, "beta");
    assert_eq!(projects[0].session_name, "alpha");
    assert_eq!(projects[0].host, "localhost");
    assert_eq!(projects[0].name.as_deref(), Some("alpha"));
    assert_eq!(projects[0].root_path, "/p/alpha");
}

#[test]
fn test_scan_skips_hidden_dirs() {
    let projects = projects_from_entries(&[dir("visible"), dir(".hidden")]);
    assert_eq!(projects.len(), 1);
    assert_eq!(projects[0].id, "visible");
}

#[test]
fn test_scan_empty_dir() {
    assert!(projects_from_entries(&[]).is_empty());
}

#[test]
fn project_files_sorted_and_filtered() {
    let root = [file("README.md"), file("PLAN.md"), file(".hidden.md"), file("notes.txt"), dir("docs.md")];
    let files = project_files(&root, vec!["docs/sub/ref.md".into(), "docs/guide.md".into()]);
    assert_eq!(files.root_md, vec!["PLAN.md".to_string(), "README.md".to_string()]);
    assert_eq!(files.docs_md, vec!["docs/guide.md".to_string(), "docs/sub/ref.md".to_string()]);
}

#[test]
fn md_walk_steps() {
    assert_eq!(md_walk_step(".hidden", true), WalkStep::Skip);
    assert_eq!(md_walk_step("sub", true), WalkStep::Descend);
    assert_eq!(md_walk_step("a.md", false), WalkStep::Collect);
    assert_eq!(md_walk_step("a.txt", false), WalkStep::Skip);
    assert_eq!(relative_md_path("docs\\sub\\a.md"), "docs/sub/a.md");
}

#[test]
fn resolve_filepath_strips_one_slash() {
    assert_eq!(resolve_filepath("/home/u/code", "/proj/README.md"), "/home/u/code/proj/README.md");
    assert_eq!(resolve_filepath("/home/u/code", "proj/a.md"), "/home/u/code/proj/a.md");
    assert_eq!(resolve_filepath("/home/u/code", "//etc/passwd"), "/etc/passwd");
}

#[test]
fn notify_request_mapping() {
    let mut req = NotifyRequest {
        title: "t".into(),
        body: "b".into(),
        question: None,
        session_name: Some("main".into()),
        tab_index: None,
        pane_id: Some(3),
        source: Some("gemini_cli".into()),
    };
    assert_eq!(req.notification_source(), NotificationSource::GeminiCli);
    let target = req.navigation_target().unwrap();
    assert_eq!((target.session_name.as_str(), target.tab_index, target.pane_id), ("main", 0, 3));
    req.source = Some("other".into());
    req.session_name = None;
    assert_eq!(req.notification_source(), NotificationSource::User);
    assert!(req.navigation_target().is_none());
}

#[test]
fn palette_colors() {
    assert_eq!(ansi_palette_color(1), (170, 0, 0));
    assert_eq!(ansi_palette_color(15), (255, 255, 255));
    assert_eq!(ansi_palette_color(16), (0, 0, 0));
    assert_eq!(ansi_palette_color(17), (0, 0, 95));
    assert_eq!(ansi_palette_color(231), (255, 255, 255));
    assert_eq!(ansi_palette_color(232), (8, 8, 8));
    assert_eq!(ansi_palette_color(255), (238, 238, 238));
    assert_eq!(ansi_palette_color(256), (248, 248, 248));
}

#[test]
fn pending_size_is_stored() {
    let mut slot = None;
    store_pending_size(&mut slot, 800, 600);
    assert_eq!(slot, Some((800, 600)));
}

#[test]
fn test_biometric_bridge_success() {
    let mut pending = KeyedMap::new();
    let (tx, rx) = mpsc::channel();
    pending.insert("test-req-1".to_string(), tx);
    let (waiter, response) = complete_biometric_request(
        &mut pending,
        BiometricResponse { request_id: "test-req-1".to_string(), success: true, error: None },
    )
    .unwrap();
    waiter.send(response).unwrap();
    let result = rx.recv().unwrap();
    assert!(result.success);
    assert!(result.error.is_none());
}

#[test]
fn test_biometric_bridge_failure() {
    let mut pending = KeyedMap::new();
    let (tx, rx) = mpsc::channel();
    pending.insert("test-req-2".to_string(), tx);
    let (waiter, response) = complete_biometric_request(
        &mut pending,
        BiometricResponse {
            request_id: "test-req-2".to_string(),
            success: false,
            error: Some("User cancelled".to_string()),
        },
    )
    .unwrap();
    waiter.send(response).unwrap();
    let result = rx.recv().unwrap();
    assert!(!result.success);
    assert_eq!(result.error, Some("User cancelled".to_string()));
}

#[test]
fn test_biometric_bridge_unknown_request_ignored() {
    let mut pending: KeyedMap<mpsc::Sender<BiometricResponse>> = KeyedMap::new();
    let out = complete_biometric_request(
        &mut pending,
        BiometricResponse { request_id: "nonexistent".to_string(), success: true, error: None },
    );
    assert!(out.is_none());
}

#[test]
fn biometric_request_completes_once() {
    let mut pending = KeyedMap::new();
    pending.insert("r".to_string(), 1u8);
    pending.insert("r".to_string(), 2u8);
    let resp = BiometricResponse { request_id: "r".to_string(), success: true, error: None };
    assert_eq!(complete_biometric_request(&mut pending, resp.clone()).map(|p| p.0), Some(2));
    assert!(complete_biometric_request(&mut pending, resp).is_none());
}

#[test]
fn key_store_paths() {
    let km = StandardKeyManager::new_with_path("/data/keys".to_string());
    assert_eq!(km.private_key_path("abc"), "/data/keys/abc.priv");
    assert_eq!(km.metadata_path("abc"), "/data/keys/abc.json");
    assert_eq!(km.master_key_path(), "/data/keys/master.key");
    assert_eq!(master_passphrase_from_file("  secret\n"), "secret");
}

#[test]
fn mosh_connect_parsing() {
    let out = "\nMOSH CONNECT 60001 AbCdEf==\nmosh-server (mosh 1.4)\n";
    assert_eq!(parse_mosh_connect(out), Ok(("60001".to_string(), "AbCdEf==".to_string())));
    assert_eq!(
        parse_mosh_connect("nothing here"),
        Err("Mosh server did not return connection string. Output: nothing here".to_string())
    );
    assert_eq!(parse_mosh_connect("MOSH CONNECT 6000"), Err("Invalid MOSH CONNECT string: MOSH CONNECT 6000".to_string()));
}

#[test]
fn remote_commands() {
    assert_eq!(attach_command("main"), "zellij attach --create main || $SHELL");
    assert_eq!(
        mosh_server_command("main"),
        "mosh-server new -c 256 -- sh -c \"zellij attach --create main || $SHELL\""
    );
    assert_eq!(mosh_fixed_address("localhost"), Some("127.0.0.1".to_string()));
    assert_eq!(mosh_fixed_address("example.com"), None);
    assert_eq!(parse_session_list(" a \n\nb\n"), vec!["a".to_string(), "b".to_string()]);
}

#[test]
fn test_zellij_action_args() {
    assert_eq!(
        zellij_action_args("work", "  go-to-tab   3 "),
        vec!["-s", "work", "action", "go-to-tab", "3"]
    );
    assert_eq!(zellij_action_args("s", ""), vec!["-s", "s", "action"]);
}

#[test]
fn padded_row_bytes_rounds_up_to_256() {
    assert_eq!(padded_row_bytes(1), 256);
    assert_eq!(padded_row_bytes(64), 256);
    assert_eq!(padded_row_bytes(65), 512);
    assert_eq!(padded_row_bytes(0), 0);
}

#[test]
fn ppm_from_bgra_drops_alpha_and_padding() {
    // Two rows of two BGRA pixels, each row padded to 12 bytes.
    let data: Vec<u8> = vec![
        1, 2, 3, 255, 4, 5, 6, 255, 9, 9, 9, 9, //
        7, 8, 9, 255, 10, 11, 12, 255, 9, 9, 9, 9,
    ];
    let out = ppm_from_bgra(&data, 2, 2, 12);
    let mut expected = b"P6\n2 2\n255\n".to_vec();
    expected.extend_from_slice(&[3, 2, 1, 6, 5, 4, 9, 8, 7, 12, 11, 10]);
    assert_eq!(out, expected);
    let wide = ppm_from_bgra(&[], 10, 0, 256);
    assert_eq!(wide, b"P6\n10 0\n255\n".to_vec());
}
