use zelland::helper::RemotePlatform;
use zelland::helper_setup::{
    binary_load_error, helper_binary_source, setup_begin, setup_step, BinarySource, SetupAction, SetupEvent, SetupState,
};

fn ok(s: &str) -> SetupEvent {
    SetupEvent::Done(Ok(s.to_string()))
}

fn run_cmd(a: &SetupAction) -> &str {
    match a {
        SetupAction::Run(c) => c.as_str(),
        other => panic!("expected a command, got {:?}", other),
    }
}

#[test]
fn test_setup_reuses_healthy_helper() {
    let (s, a) = setup_begin();
    assert_eq!(s, SetupState::MakingDirs);
    assert_eq!(run_cmd(&a), "mkdir -p ~/.local/state/zelland ~/bin");
    let (s, a) = setup_step(s, ok(""), "devbox", "0.1.0");
    assert_eq!(run_cmd(&a), "uname -s && uname -m");
    let (s, a) = setup_step(s, ok("Linux\nx86_64\n"), "devbox", "0.1.0");
    assert_eq!(s, SetupState::ReadingVersion(RemotePlatform::LinuxX86_64));
    assert!(run_cmd(&a).contains("--version"));
    let (s, a) = setup_step(s, ok("zlnd 0.1.0\n"), "devbox", "0.1.0");
    assert_eq!(s, SetupState::ReadingOldPort);
    assert_eq!(run_cmd(&a), "cat ~/.local/state/zelland/zlnd.port 2>/dev/null || true");
    let (s, a) = setup_step(s, ok(" 8123\n"), "devbox", "0.1.0");
    assert_eq!(s, SetupState::CheckingOld(8123));
    match &a {
        SetupAction::Probe(url) => assert_eq!(url, "http://devbox:8123/api/v1/meta/version"),
        other => panic!("expected a probe, got {:?}", other),
    }
    let (s, a) = setup_step(s, SetupEvent::Healthy(true), "devbox", "0.1.0");
    assert_eq!(s, SetupState::Finished);
    assert!(matches!(a, SetupAction::Finish(Ok(8123))));
}

#[test]
fn test_setup_installs_and_restarts() {
    let (s, _) = setup_begin();
    let (s, _) = setup_step(s, ok(""), "h", "0.2.0");
    let (s, _) = setup_step(s, ok("Darwin\narm64\n"), "h", "0.2.0");
    let (s, a) = setup_step(s, ok("zlnd 0.1.0\n"), "h", "0.2.0");
    assert_eq!(s, SetupState::LoadingBinary(RemotePlatform::MacosAarch64));
    assert!(matches!(a, SetupAction::LoadBinary(RemotePlatform::MacosAarch64)));
    let (s, a) = setup_step(s, ok(""), "h", "0.2.0");
    match &a {
        SetupAction::Upload(p) => assert_eq!(p, "~/.local/state/zelland/zlnd.upload"),
        other => panic!("expected an upload, got {:?}", other),
    }
    let (s, a) = setup_step(s, ok(""), "h", "0.2.0");
    assert_eq!(
        run_cmd(&a),
        "chmod 755 ~/.local/state/zelland/zlnd.upload && mv ~/.local/state/zelland/zlnd.upload ~/bin/zlnd"
    );
    let (s, a) = setup_step(s, ok(""), "h", "0.2.0");
    assert_eq!(s, SetupState::Starting);
    assert!(run_cmd(&a).contains("pkill"));
    let (s, a) = setup_step(s, ok(""), "h", "0.2.0");
    assert_eq!(s, SetupState::FirstWait);
    assert!(matches!(a, SetupAction::Sleep(1000)));
    let (s, _) = setup_step(s, SetupEvent::Slept, "h", "0.2.0");
    assert_eq!(s, SetupState::ReadingPort(0));
    let (s, _) = setup_step(s, ok(""), "h", "0.2.0");
    assert_eq!(s, SetupState::WaitingPort(0));
    let (s, _) = setup_step(s, SetupEvent::Slept, "h", "0.2.0");
    assert_eq!(s, SetupState::ReadingPort(1));
    let (s, _) = setup_step(s, ok("9000\n"), "h", "0.2.0");
    assert_eq!(s, SetupState::Probing(9000, 0));
    let (s, a) = setup_step(s, SetupEvent::Healthy(false), "h", "0.2.0");
    assert_eq!(s, SetupState::WaitingProbe(9000, 0));
    assert!(matches!(a, SetupAction::Sleep(500)));
    let (s, _) = setup_step(s, SetupEvent::Slept, "h", "0.2.0");
    let (s, a) = setup_step(s, SetupEvent::Healthy(true), "h", "0.2.0");
    assert_eq!(s, SetupState::Finished);
    assert!(matches!(a, SetupAction::Finish(Ok(9000))));
}

#[test]
fn test_setup_unhealthy_old_helper_is_started_without_kill() {
    let (s, a) = setup_step(SetupState::CheckingOld(7000), SetupEvent::Healthy(false), "h", "1.0.0");
    assert_eq!(s, SetupState::Starting);
    assert!(!run_cmd(&a).contains("pkill"));
    assert!(run_cmd(&a).contains("nohup"));
    // A failed read of the old port file counts as none.
    let (s, _) = setup_step(SetupState::ReadingOldPort, SetupEvent::Done(Err("ssh down".to_string())), "h", "1.0.0");
    assert_eq!(s, SetupState::Starting);
}

#[test]
fn test_setup_gives_up_without_port_file() {
    let mut s = SetupState::ReadingPort(0);
    let mut last = None;
    for _ in 0..10 {
        let (w, _) = setup_step(s, ok("not a port"), "h", "1.0.0");
        let (n, a) = setup_step(w, SetupEvent::Slept, "h", "1.0.0");
        s = n;
        last = Some(a);
    }
    assert_eq!(s, SetupState::Finished);
    match last.unwrap() {
        SetupAction::Finish(Err(m)) => assert_eq!(
            m,
            "Remote helper did not write port file after 10 s \u{2014} check ~/.local/state/zelland/zlnd.log on the remote host"
        ),
        other => panic!("expected a failure, got {:?}", other),
    }
}

#[test]
fn test_setup_gives_up_on_unhealthy_helper() {
    let mut s = SetupState::Probing(4321, 0);
    let mut last = None;
    for _ in 0..10 {
        let (w, _) = setup_step(s, SetupEvent::Healthy(false), "h", "1.0.0");
        let (n, a) = setup_step(w, SetupEvent::Slept, "h", "1.0.0");
        s = n;
        last = Some(a);
    }
    assert_eq!(s, SetupState::Finished);
    match last.unwrap() {
        SetupAction::Finish(Err(m)) => assert_eq!(
            m,
            "Remote helper started on port 4321 but did not become healthy \u{2014} check ~/.local/state/zelland/zlnd.log on the remote host"
        ),
        other => panic!("expected a failure, got {:?}", other),
    }
}

#[test]
fn test_setup_fails_on_command_error_and_unknown_platform() {
    let (s, a) = setup_step(SetupState::MakingDirs, SetupEvent::Done(Err("auth failed".to_string())), "h", "1");
    assert_eq!(s, SetupState::Finished);
    assert!(matches!(a, SetupAction::Finish(Err(ref m)) if m == "auth failed"));
    let (s, a) = setup_step(SetupState::DetectingPlatform, ok("FreeBSD\namd64\n"), "h", "1");
    assert_eq!(s, SetupState::Finished);
    match a {
        SetupAction::Finish(Err(m)) => assert!(m.starts_with("Unsupported remote platform: FreeBSD amd64")),
        other => panic!("expected a failure, got {:?}", other),
    }
}

#[test]
fn test_binary_source_order() {
    let cached = helper_binary_source("/tmp/c/zlnd", true, Some("/src/zlnd".to_string()), "njreid/zelland", "0.1.0", RemotePlatform::LinuxX86_64);
    assert!(matches!(cached, BinarySource::Cache(ref p) if p == "/tmp/c/zlnd"));
    assert_eq!(binary_load_error(&cached, "denied"), "Failed to read cached helper /tmp/c/zlnd: denied");
    let local = helper_binary_source("/tmp/c/zlnd", false, Some("/src/zlnd".to_string()), "njreid/zelland", "0.1.0", RemotePlatform::LinuxX86_64);
    assert!(matches!(local, BinarySource::Local(ref p) if p == "/src/zlnd"));
    let remote = helper_binary_source("/tmp/c/zlnd", false, None, "njreid/zelland", "0.1.0", RemotePlatform::MacosAarch64);
    match &remote {
        BinarySource::Download(u) => assert_eq!(
            u,
            "https://github.com/njreid/zelland/releases/download/v0.1.0/zlnd-aarch64-apple-darwin"
        ),
        other => panic!("expected a download, got {:?}", other),
    }
    assert!(binary_load_error(&remote, "timeout").starts_with("Failed to download helper from https://github.com/"));
}
