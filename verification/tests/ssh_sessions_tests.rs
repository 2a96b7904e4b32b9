use zelland::ssh_sessions::{credential_for, ssh_address, AuthMethod, Credential, SessionRegistry, SshConfig};

fn config(method: AuthMethod) -> SshConfig {
    SshConfig {
        host: "devbox".to_string(),
        port: 2222,
        username: "njr".to_string(),
        auth_method: method,
        password: None,
        private_key_path: None,
        private_key_passphrase: None,
        key_id: None,
        session_name: "main".to_string(),
    }
}

#[test]
fn test_credential_requires_its_field() {
    assert_eq!(credential_for(&config(AuthMethod::Password)).unwrap_err(), "Password is required");
    assert_eq!(credential_for(&config(AuthMethod::PrivateKey)).unwrap_err(), "Private key path is required");
    assert_eq!(credential_for(&config(AuthMethod::Key)).unwrap_err(), "Key ID is required");
}

#[test]
fn test_credential_picks_the_method() {
    let mut c = config(AuthMethod::PrivateKey);
    c.password = Some("secret".to_string());
    c.private_key_path = Some("/home/njr/.ssh/id_ed25519".to_string());
    c.private_key_passphrase = Some("pp".to_string());
    match credential_for(&c).unwrap() {
        Credential::KeyFile(p, q) => {
            assert_eq!(p, "/home/njr/.ssh/id_ed25519");
            assert_eq!(q.as_deref(), Some("pp"));
        }
        other => panic!("expected a key file, got {:?}", other),
    }
    c.auth_method = AuthMethod::Password;
    assert!(matches!(credential_for(&c).unwrap(), Credential::Password(ref p) if p == "secret"));
    c.auth_method = AuthMethod::Key;
    c.key_id = Some("k1".to_string());
    assert!(matches!(credential_for(&c).unwrap(), Credential::StoredKey(ref k) if k == "k1"));
}

#[test]
fn test_ssh_address() {
    assert_eq!(ssh_address(&config(AuthMethod::Password)), "devbox:2222");
}

#[test]
fn test_registry_focus_and_lookup() {
    let mut reg: SessionRegistry<u32> = SessionRegistry::new();
    assert_eq!(reg.touch_target().unwrap_err(), "No focused session");
    reg.register("tab-1", 10);
    reg.register("tab-2", 20);
    assert_eq!(*reg.touch_target().unwrap(), 10);
    assert_eq!(*reg.session_for("tab-2").unwrap(), 20);
    reg.register("tab-2", 21);
    assert_eq!(*reg.session_for("tab-2").unwrap(), 21);
    reg.disconnect("tab-1");
    assert_eq!(reg.session_for("tab-1").unwrap_err(), "No active session");
    // The focus stays on the closed tab.
    assert_eq!(reg.touch_target().unwrap_err(), "No active session");
}
