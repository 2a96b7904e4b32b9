use zelland::helper::{
    helper_cache_path, helper_download_url, helper_repository, helper_version_url, install_command,
    local_dev_helper_path, local_platform_target, needs_install, parse_helper_version,
    parse_port_file, parse_remote_platform, port_probe_command, start_command, RemotePlatform,
};

#[test]
fn parses_linux_x86_platform() {
    let platform = parse_remote_platform("Linux\nx86_64\n").unwrap();
    assert_eq!(platform, RemotePlatform::LinuxX86_64);
    assert_eq!(platform.artifact_name(), "zlnd-x86_64-unknown-linux-gnu");
}

#[test]
fn parses_macos_arm_platform() {
    let platform = parse_remote_platform("Darwin\narm64\n").unwrap();
    assert_eq!(platform, RemotePlatform::MacosAarch64);
    assert_eq!(platform.target_triple(), "aarch64-apple-darwin");
}

#[test]
fn parses_helper_version_from_clap_output() {
    assert_eq!(parse_helper_version("zlnd 0.1.0\n"), Some("0.1.0".to_string()));
}

#[test]
fn start_command_restarts_when_requested() {
    let cmd = start_command(true);
    assert!(cmd.contains("pkill"));
    assert!(cmd.contains("nohup"));
    assert!(cmd.contains("zlnd.port"));
}

#[test]
fn start_command_skips_kill_when_not_forced() {
    let cmd = start_command(false);
    assert!(!cmd.contains("pkill"));
    assert!(cmd.contains("nohup"));
}

#[test]
fn start_command_exact_text() {
    assert_eq!(
        start_command(false),
        "mkdir -p ~/.local/state/zelland ~/bin &&  if command -v pgrep >/dev/null 2>&1 && pgrep -u \"$USER\" -f \"$HOME/bin/zlnd\" >/dev/null 2>&1; then exit 0; fi && nohup \"$HOME/bin/zlnd\" >\"$HOME/.local/state/zelland/zlnd.log\" 2>&1 </dev/null &"
    );
}

#[test]
fn platform_probe_errors() {
    assert_eq!(parse_remote_platform("  \n\n"), Err("Remote platform probe returned no OS".to_string()));
    assert_eq!(parse_remote_platform("Linux\n  \n"), Err("Remote platform probe returned no architecture".to_string()));
    assert_eq!(
        parse_remote_platform("FreeBSD\namd64\n"),
        Err("Unsupported remote platform: FreeBSD amd64 (supported: Linux x86_64/aarch64, Darwin x86_64/arm64)".to_string())
    );
    assert_eq!(parse_remote_platform("\n  Linux \r\n\n arm64\n"), Ok(RemotePlatform::LinuxAarch64));
    assert_eq!(parse_remote_platform("Darwin\nx86_64"), Ok(RemotePlatform::MacosX86_64));
}

#[test]
fn helper_version_edge_cases() {
    assert_eq!(parse_helper_version("zlnd\n"), None);
    assert_eq!(parse_helper_version("v1.2 3.4"), Some("3.4".to_string()));
    assert_eq!(parse_helper_version(""), None);
}

#[test]
fn port_file_parsing() {
    assert_eq!(parse_port_file(" 8080\n"), Some(8080));
    assert_eq!(parse_port_file("+1"), Some(1));
    assert_eq!(parse_port_file("65535"), Some(65535));
    assert_eq!(parse_port_file("65536"), None);
    assert_eq!(parse_port_file(""), None);
    assert_eq!(parse_port_file("+"), None);
    assert_eq!(parse_port_file("-1"), None);
    assert_eq!(parse_port_file("12a"), None);
    assert_eq!(parse_port_file("99999999999999"), None);
}

#[test]
fn helper_commands_and_urls() {
    assert_eq!(port_probe_command(), "cat ~/.local/state/zelland/zlnd.port 2>/dev/null || true");
    assert_eq!(
        install_command(),
        "chmod 755 ~/.local/state/zelland/zlnd.upload && mv ~/.local/state/zelland/zlnd.upload ~/bin/zlnd"
    );
    assert_eq!(helper_version_url("example.com", 4100), "http://example.com:4100/api/v1/meta/version");
    assert_eq!(helper_repository(None), "njreid/zelland");
    assert_eq!(helper_repository(Some("me/fork")), "me/fork");
    assert_eq!(
        helper_download_url("njreid/zelland", "0.1.0", RemotePlatform::LinuxAarch64),
        "https://github.com/njreid/zelland/releases/download/v0.1.0/zlnd-aarch64-unknown-linux-gnu"
    );
    assert!(needs_install(None, "0.1.0"));
    assert!(needs_install(Some("0.0.9"), "0.1.0"));
    assert!(!needs_install(Some("0.1.0"), "0.1.0"));
}

#[test]
fn local_helper_paths() {
    assert_eq!(local_platform_target("linux", "x86_64"), Some("x86_64-unknown-linux-gnu"));
    assert_eq!(local_platform_target("windows", "x86_64"), None);
    assert_eq!(
        local_dev_helper_path("/src/app", RemotePlatform::LinuxX86_64, Some("x86_64-unknown-linux-gnu")),
        Some("/src/app/../daemon-rs/target/release/zlnd".to_string())
    );
    assert_eq!(local_dev_helper_path("/src/app", RemotePlatform::MacosX86_64, Some("x86_64-unknown-linux-gnu")), None);
    assert_eq!(
        helper_cache_path("/tmp", "0.1.0", RemotePlatform::MacosX86_64),
        "/tmp/zelland-helper-cache/0.1.0/zlnd-x86_64-apple-darwin"
    );
}
