//! SSH sessions of the client: how a connection authenticates, what it
//! runs, and the registry of open sessions by tab with the one that touch
//! input goes to.

use vstd::prelude::*;
use crate::text::{push_str, push_decimal, decimal, chars_to_string};
use crate::kdl_tree::opt_str;
use crate::keyed::{KeyedMap, keys_unique, inserted, removed, value_of};

verus! {

/// How a connection authenticates.
#[derive(Debug, Clone, Copy, PartialEq, Eq, Structural)]
pub enum AuthMethod {
    /// With a password.
    Password,
    /// With a private key read from a file.
    PrivateKey,
    /// With a key from the client's key store.
    Key,
}

/// Where and how to connect.
#[derive(Debug)]
pub struct SshConfig {
    pub host: String,
    pub port: u16,
    pub username: String,
    pub auth_method: AuthMethod,
    pub password: Option<String>,
    pub private_key_path: Option<String>,
    pub private_key_passphrase: Option<String>,
    pub key_id: Option<String>,
    pub session_name: String,
}

/// What a connection authenticates with.
#[derive(Debug)]
pub enum Credential {
    Password(String),
    /// A private key file, and the passphrase that decrypts it, if any.
    KeyFile(String, Option<String>),
    /// The id of a key in the key store.
    StoredKey(String),
}

/// The mathematical content of a [`Credential`].
pub enum CredentialModel {
    Password(Seq<char>),
    KeyFile(Seq<char>, Option<Seq<char>>),
    StoredKey(Seq<char>),
}

impl View for Credential {
    type V = CredentialModel;

    open spec fn view(&self) -> CredentialModel {
        match self {
            Credential::Password(p) => CredentialModel::Password(p@),
            Credential::KeyFile(p, q) => CredentialModel::KeyFile(p@, opt_str(*q)),
            Credential::StoredKey(k) => CredentialModel::StoredKey(k@),
        }
    }
}

/// The credential that `method` needs, from the optional fields of a
/// configuration, or the error naming the missing field.
pub open spec fn spec_credential(
    method: AuthMethod,
    password: Option<Seq<char>>,
    key_path: Option<Seq<char>>,
    passphrase: Option<Seq<char>>,
    key_id: Option<Seq<char>>,
) -> Result<CredentialModel, Seq<char>> {
    match method {
        AuthMethod::Password => match password {
            Some(p) => Ok(CredentialModel::Password(p)),
            None => Err("Password is required"@),
        },
        AuthMethod::PrivateKey => match key_path {
            Some(p) => Ok(CredentialModel::KeyFile(p, passphrase)),
            None => Err("Private key path is required"@),
        },
        AuthMethod::Key => match key_id {
            Some(k) => Ok(CredentialModel::StoredKey(k)),
            None => Err("Key ID is required"@),
        },
    }
}

fn clone_opt(o: &Option<String>) -> (r: Option<String>)
    ensures
        opt_str(r) == opt_str(*o),
{
    match o {
        Some(s) => Some(s.clone()),
        None => None,
    }
}

/// What the connection described by `config` authenticates with: the
/// password, the key file (with its passphrase) or the stored key that its
/// method needs; the error names the field that is missing.
pub fn credential_for(config: &SshConfig) -> (r: Result<Credential, String>)
    ensures
        match (r, spec_credential(
            config.auth_method,
            opt_str(config.password),
            opt_str(config.private_key_path),
            opt_str(config.private_key_passphrase),
            opt_str(config.key_id),
        )) {
            (Ok(c), Ok(d)) => c@ == d,
            (Err(m), Err(n)) => m@ == n,
            _ => false,
        },
{
    match config.auth_method {
        AuthMethod::Password => match &config.password {
            Some(p) => Ok(Credential::Password(p.clone())),
            None => Err("Password is required".to_string()),
        },
        AuthMethod::PrivateKey => match &config.private_key_path {
            Some(p) => Ok(Credential::KeyFile(p.clone(), clone_opt(&config.private_key_passphrase))),
            None => Err("Private key path is required".to_string()),
        },
        AuthMethod::Key => match &config.key_id {
            Some(k) => Ok(Credential::StoredKey(k.clone())),
            None => Err("Key ID is required".to_string()),
        },
    }
}

/// The address a connection dials: `host:port`.
pub fn ssh_address(config: &SshConfig) -> (r: String)
    ensures
        r@ == config.host@ + ":"@ + decimal(config.port as nat),
{
    let mut out: Vec<char> = Vec::new();
    push_str(&mut out, config.host.as_str());
    push_str(&mut out, ":");
    push_decimal(&mut out, config.port as u64);
    chars_to_string(&out)
}

// ---------------------------------------------------------------------------
// The registry of sessions
// ---------------------------------------------------------------------------

/// The open sessions, each under its tab, and the tab that touch input
/// goes to. `T` is whatever reaches a session (its input channel).
pub struct SessionRegistry<T> {
    sessions: KeyedMap<T>,
    focused: Option<String>,
}

impl<T> SessionRegistry<T> {
    /// The sessions, by tab, in the order they were opened.
    pub closed spec fn sessions(&self) -> Seq<(Seq<char>, T)> {
        self.sessions.view()
    }

    /// The tab that touch input goes to.
    pub closed spec fn focused(&self) -> Option<Seq<char>> {
        opt_str(self.focused)
    }

    /// No tab has two sessions.
    pub closed spec fn wf(&self) -> bool {
        keys_unique(self.sessions.view())
    }

    /// A well-formed registry holds at most one session for each tab, so the
    /// laws of keyed maps apply to its sessions.
    pub proof fn lemma_sessions_keys_unique(&self)
        requires
            self.wf(),
        ensures
            keys_unique(self.sessions()),
    {
    }

    /// No session is open and none is focused.
    pub fn new() -> (r: Self)
        ensures
            r.wf(),
            r.sessions().len() == 0,
            r.focused() is None,
    {
        SessionRegistry { sessions: KeyedMap::new(), focused: None }
    }

    /// Register the session `session` of the tab `tab_id` (one it had
    /// before is dropped); the first session registered while no tab has
    /// the focus gets it.
    pub fn register(&mut self, tab_id: &str, session: T)
        requires
            old(self).wf(),
        ensures
            final(self).wf(),
            final(self).sessions() == inserted(old(self).sessions(), tab_id@, session),
            final(self).focused() == match old(self).focused() {
                Some(f) => Some(f),
                None => Some(tab_id@),
            },
    {
        self.sessions.insert(tab_id.to_string(), session);
        if self.focused.is_none() {
            self.focused = Some(tab_id.to_string());
        }
    }

    /// Drop the session of the tab `tab_id`; the focus stays where it is.
    pub fn disconnect(&mut self, tab_id: &str)
        requires
            old(self).wf(),
        ensures
            final(self).wf(),
            final(self).sessions() == removed(old(self).sessions(), tab_id@),
            final(self).focused() == old(self).focused(),
    {
        let _ = self.sessions.remove(tab_id);
    }

    /// The session of the tab `tab_id`, or the error that none is open.
    pub fn session_for(&self, tab_id: &str) -> (r: Result<&T, String>)
        requires
            self.wf(),
        ensures
            match value_of(self.sessions(), tab_id@) {
                Some(v) => r matches Ok(x) && *x == v,
                None => r matches Err(m) && m@ == "No active session"@,
            },
    {
        match self.sessions.get(tab_id) {
            Some(s) => Ok(s),
            None => Err("No active session".to_string()),
        }
    }

    /// The session that touch input goes to: that of the focused tab; an
    /// error where no tab has the focus or its session is gone.
    pub fn touch_target(&self) -> (r: Result<&T, String>)
        requires
            self.wf(),
        ensures
            match self.focused() {
                None => r matches Err(m) && m@ == "No focused session"@,
                Some(f) => match value_of(self.sessions(), f) {
                    Some(v) => r matches Ok(x) && *x == v,
                    None => r matches Err(m) && m@ == "No active session"@,
                },
            },
    {
        match &self.focused {
            Some(f) => self.session_for(f.as_str()),
            None => Err("No focused session".to_string()),
        }
    }
}

} // verus!
