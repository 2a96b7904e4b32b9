//! The WireGuard tunnel of the client: checking a tunnel configuration and
//! deriving the settings the tunnel device is built with.

use vstd::prelude::*;
use crate::text::{push_str, chars_to_string};

verus! {

/// A tunnel configuration as the interface hands it over: keys in base64,
/// the peer's `address:port`, the networks routed through the tunnel, and
/// the tunnel's own address.
#[derive(Debug)]
pub struct WireguardConfig {
    pub private_key: String,
    pub peer_public_key: String,
    pub endpoint: String,
    pub allowed_ips: Vec<String>,
    pub internal_ip: String,
}

/// What the tunnel device is built with.
#[derive(Debug)]
pub struct TunnelSettings {
    /// The 32 bytes of the local private key.
    pub private_key: Vec<u8>,
    /// The 32 bytes of the peer's public key.
    pub peer_public_key: Vec<u8>,
    pub endpoint: String,
    pub allowed_ips: Vec<String>,
    /// Seconds between keepalive packets.
    pub keepalive: u16,
    /// The name of the TUN interface.
    pub interface: String,
}

/// Seconds between keepalive packets to the peer.
pub const KEEPALIVE_SECS: u16 = 25;

/// What `base64::engine::general_purpose::STANDARD.decode` gives for `text`:
/// the decoded bytes, or `None` where it reports an error.
pub uninterp spec fn base64_standard_decode(text: Seq<char>) -> Option<Seq<u8>>;

/// Whether `ipnetwork::IpNetwork::from_str` accepts `s` (an IPv4 or IPv6
/// network, with or without a prefix length).
pub uninterp spec fn ip_network_parses(s: Seq<char>) -> bool;

/// `STANDARD.decode` of the `base64` crate (padded standard alphabet); the
/// result is claimed to be a function of the text, named
/// `base64_standard_decode`.
#[verifier::external_body]
fn decode_base64(text: &str) -> (r: Option<Vec<u8>>)
    ensures
        match r {
            Some(b) => base64_standard_decode(text@) == Some(b@),
            None => base64_standard_decode(text@) is None,
        },
{
    base64::Engine::decode(&base64::engine::general_purpose::STANDARD, text).ok()
}

/// `IpNetwork::from_str` of the `ipnetwork` crate; only whether it succeeds
/// is handed back, claimed to be a function of `s`.
#[verifier::external_body]
fn ip_network_ok(s: &str) -> (r: bool)
    ensures
        r == ip_network_parses(s@),
{
    s.parse::<ipnetwork::IpNetwork>().is_ok()
}

/// The index of the first network of `ips` that does not parse, from `i` on.
pub open spec fn first_bad_network(ips: Seq<Seq<char>>, i: int) -> Option<int>
    decreases ips.len() - i,
{
    if i < 0 || i >= ips.len() {
        None
    } else if !ip_network_parses(ips[i]) {
        Some(i)
    } else {
        first_bad_network(ips, i + 1)
    }
}

/// The keys of a configuration, or the first problem found: each key must
/// be base64 of exactly 32 bytes, the endpoint an address with a port
/// (`endpoint_ok`), and each allowed network parse.
pub open spec fn spec_check_tunnel(
    private_key: Seq<char>,
    peer_public_key: Seq<char>,
    endpoint_ok: bool,
    allowed_ips: Seq<Seq<char>>,
) -> Result<(Seq<u8>, Seq<u8>), Seq<char>> {
    match base64_standard_decode(private_key) {
        None => Err("Invalid private key base64"@),
        Some(k) => if k.len() != 32 {
            Err("Private key must be 32 bytes"@)
        } else {
            match base64_standard_decode(peer_public_key) {
                None => Err("Invalid peer public key base64"@),
                Some(p) => if p.len() != 32 {
                    Err("Peer public key must be 32 bytes"@)
                } else if !endpoint_ok {
                    Err("Invalid endpoint address"@)
                } else {
                    match first_bad_network(allowed_ips, 0) {
                        Some(i) => Err("Invalid allowed IP: "@ + allowed_ips[i]),
                        None => Ok((k, p)),
                    }
                },
            }
        },
    }
}

proof fn lemma_first_bad_network(ips: Seq<Seq<char>>, i: int)
    requires
        0 <= i,
    ensures
        first_bad_network(ips, i) matches Some(j) ==> i <= j < ips.len() && !ip_network_parses(ips[j]),
    decreases ips.len() - i,
{
    if i < ips.len() && ip_network_parses(ips[i]) {
        lemma_first_bad_network(ips, i + 1);
    }
}

fn first_bad_network_exec(ips: &Vec<String>) -> (r: Option<usize>)
    ensures
        match r {
            Some(i) => i < ips@.len() && first_bad_network(ips@.map_values(|s: String| s@), 0) == Some(i as int),
            None => first_bad_network(ips@.map_values(|s: String| s@), 0) is None,
        },
{
    let ghost v = ips@.map_values(|s: String| s@);
    proof {
        lemma_first_bad_network(v, 0);
    }
    let mut i: usize = 0;
    while i < ips.len()
        invariant
            i <= ips@.len(),
            v == ips@.map_values(|s: String| s@),
            first_bad_network(v, 0) == first_bad_network(v, i as int),
        decreases ips@.len() - i,
    {
        if !ip_network_ok(ips[i].as_str()) {
            return Some(i);
        }
        i = i + 1;
    }
    None
}

/// Check the configuration `config` (see [`spec_check_tunnel`];
/// `endpoint_ok` says whether its endpoint parses as a socket address) and
/// give the settings of the tunnel: the decoded keys, the endpoint and
/// networks as given, a keepalive every 25 seconds, the interface `zn0`.
pub fn check_tunnel(config: &WireguardConfig, endpoint_ok: bool) -> (r: Result<TunnelSettings, String>)
    ensures
        match spec_check_tunnel(
            config.private_key@,
            config.peer_public_key@,
            endpoint_ok,
            config.allowed_ips@.map_values(|s: String| s@),
        ) {
            Ok((k, p)) => r matches Ok(t) && t.private_key@ == k && t.peer_public_key@ == p && t.endpoint@
                == config.endpoint@ && t.allowed_ips@.map_values(|s: String| s@) == config.allowed_ips@.map_values(
                |s: String| s@,
            ) && t.keepalive == KEEPALIVE_SECS && t.interface@ == "zn0"@,
            Err(m) => r matches Err(e) && e@ == m,
        },
{
    let k = match decode_base64(config.private_key.as_str()) {
        Some(k) => k,
        None => return Err("Invalid private key base64".to_string()),
    };
    if k.len() != 32 {
        return Err("Private key must be 32 bytes".to_string());
    }
    let p = match decode_base64(config.peer_public_key.as_str()) {
        Some(p) => p,
        None => return Err("Invalid peer public key base64".to_string()),
    };
    if p.len() != 32 {
        return Err("Peer public key must be 32 bytes".to_string());
    }
    if !endpoint_ok {
        return Err("Invalid endpoint address".to_string());
    }
    match first_bad_network_exec(&config.allowed_ips) {
        Some(i) => {
            let mut msg: Vec<char> = Vec::new();
            push_str(&mut msg, "Invalid allowed IP: ");
            push_str(&mut msg, config.allowed_ips[i].as_str());
            assert(config.allowed_ips@.map_values(|s: String| s@)[i as int] == config.allowed_ips@[i as int]@);
            Err(chars_to_string(&msg))
        },
        None => {
            let mut ips: Vec<String> = Vec::new();
            let mut j: usize = 0;
            while j < config.allowed_ips.len()
                invariant
                    j <= config.allowed_ips@.len(),
                    ips@.len() == j,
                    forall|m: int| 0 <= m < j ==> #[trigger] ips@[m]@ == config.allowed_ips@[m]@,
                decreases config.allowed_ips@.len() - j,
            {
                ips.push(config.allowed_ips[j].clone());
                j = j + 1;
            }
            assert(ips@.map_values(|s: String| s@) =~= config.allowed_ips@.map_values(|s: String| s@));
            Ok(
                TunnelSettings {
                    private_key: k,
                    peer_public_key: p,
                    endpoint: config.endpoint.clone(),
                    allowed_ips: ips,
                    keepalive: KEEPALIVE_SECS,
                    interface: "zn0".to_string(),
                },
            )
        },
    }
}

} // verus!
