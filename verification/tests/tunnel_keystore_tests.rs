use zelland::keystore::{biometric_outcome, biometric_request, master_passphrase, BiometricResponse};
use zelland::tunnel::{check_tunnel, WireguardConfig, KEEPALIVE_SECS};

// 32 zero bytes and 32 bytes of 0x01, in padded standard base64.
const ZEROS: &str = "AAAAAAAAAAAAAAAAAAAAAAAAAAAAAAAAAAAAAAAAAAA=";
const ONES: &str = "AQEBAQEBAQEBAQEBAQEBAQEBAQEBAQEBAQEBAQEBAQE=";

fn config(private_key: &str, peer: &str, ips: &[&str]) -> WireguardConfig {
    WireguardConfig {
        private_key: private_key.to_string(),
        peer_public_key: peer.to_string(),
        endpoint: "1.2.3.4:51820".to_string(),
        allowed_ips: ips.iter().map(|s| s.to_string()).collect(),
        internal_ip: "10.0.0.2".to_string(),
    }
}

#[test]
fn test_tunnel_settings_from_valid_config() {
    let t = check_tunnel(&config(ZEROS, ONES, &["10.0.0.0/24", "fd00::/8"]), true).unwrap();
    assert_eq!(t.private_key, vec![0u8; 32]);
    assert_eq!(t.peer_public_key, vec![1u8; 32]);
    assert_eq!(t.endpoint, "1.2.3.4:51820");
    assert_eq!(t.allowed_ips, vec!["10.0.0.0/24".to_string(), "fd00::/8".to_string()]);
    assert_eq!(t.keepalive, KEEPALIVE_SECS);
    assert_eq!(t.keepalive, 25);
    assert_eq!(t.interface, "zn0");
}

#[test]
fn test_tunnel_errors_in_order() {
    assert_eq!(check_tunnel(&config("!!", ONES, &[]), true).unwrap_err(), "Invalid private key base64");
    assert_eq!(check_tunnel(&config("priv", ONES, &[]), true).unwrap_err(), "Private key must be 32 bytes");
    assert_eq!(check_tunnel(&config(ZEROS, "@@", &[]), true).unwrap_err(), "Invalid peer public key base64");
    assert_eq!(check_tunnel(&config(ZEROS, "AQID", &[]), true).unwrap_err(), "Peer public key must be 32 bytes");
    assert_eq!(check_tunnel(&config(ZEROS, ONES, &[]), false).unwrap_err(), "Invalid endpoint address");
    assert_eq!(
        check_tunnel(&config(ZEROS, ONES, &["10.0.0.0/24", "not-a-net", "also bad"]), true).unwrap_err(),
        "Invalid allowed IP: not-a-net"
    );
}

#[test]
fn test_master_passphrase_reused_or_created() {
    let kept = master_passphrase(Some("  abc-123\n"));
    assert_eq!(kept.passphrase, "abc-123");
    assert!(!kept.created);
    let made = master_passphrase(None);
    assert!(made.created);
    assert_eq!(made.passphrase.len(), 36);
    assert_ne!(made.passphrase, master_passphrase(None).passphrase);
}

#[test]
fn test_biometric_request_and_outcome() {
    let req = biometric_request("key-1", "Connect to SSH");
    assert_eq!(req.request_id.len(), 36);
    assert_eq!(req.key_id, "key-1");
    assert_eq!(req.title, "Unlock SSH Key");
    assert_eq!(req.subtitle, "Connect to SSH");

    assert_eq!(biometric_outcome(None).unwrap_err(), "Biometric request was cancelled");
    let ok = BiometricResponse { request_id: req.request_id.clone(), success: true, error: None };
    assert!(biometric_outcome(Some(ok)).is_ok());
    let failed = BiometricResponse { request_id: req.request_id.clone(), success: false, error: None };
    assert_eq!(biometric_outcome(Some(failed)).unwrap_err(), "Biometric authentication failed");
    let told = BiometricResponse { request_id: req.request_id, success: false, error: Some("Too many attempts".to_string()) };
    assert_eq!(biometric_outcome(Some(told)).unwrap_err(), "Too many attempts");
}

fn looks_like_uuid_v4(s: &str) -> bool {
    let c: Vec<char> = s.chars().collect();
    c.len() == 36
        && c.iter().enumerate().all(|(i, ch)| {
            if i == 8 || i == 13 || i == 18 || i == 23 {
                *ch == '-'
            } else {
                ch.is_ascii_digit() || ('a'..='f').contains(ch)
            }
        })
        && c[14] == '4'
        && matches!(c[19], '8' | '9' | 'a' | 'b')
}

#[test]
fn generated_ids_are_uuid_v4_text() {
    assert!(looks_like_uuid_v4(&master_passphrase(None).passphrase));
    assert!(looks_like_uuid_v4(&biometric_request("k", "r").request_id));
}
