//! SSH identities kept by the client, and the bridge that hands biometric
//! prompts to the frontend and routes each answer back to the request that
//! waits for it.

use vstd::prelude::*;
use crate::text::{str_chars, chars_to_string, push_str, trim, trim_vec};
use crate::paths::{join_relative, join_relative_path};
use crate::keyed::{
    KeyedMap, keys_unique, inserted, removed, value_of, lemma_find_key, law_value_after_insert,
    law_value_after_remove,
};

verus! {

/// An SSH identity: its id, label, OpenSSH public key and creation time.
#[derive(Debug, Clone, PartialEq)]
pub struct KeyIdentity {
    pub id: String,
    pub label: String,
    pub public_key: String,
    pub created_at: i64,
}

/// The key store on disk: one directory holding `<id>.priv` (the private
/// key, encrypted at rest), `<id>.json` (the identity) and `master.key` (the
/// passphrase the keys are encrypted with).
#[derive(Debug, Clone, PartialEq)]
pub struct StandardKeyManager {
    pub base_path: String,
}

impl StandardKeyManager {
    /// The key store in `base_path`.
    pub fn new_with_path(base_path: String) -> (r: StandardKeyManager)
        ensures
            r.base_path == base_path,
    {
        StandardKeyManager { base_path }
    }

    /// The file of the private key `id`.
    pub fn private_key_path(&self, id: &str) -> (r: String)
        ensures
            r@ == join_relative(self.base_path@, id@ + ".priv"@),
    {
        let mut name: Vec<char> = str_chars(id);
        push_str(&mut name, ".priv");
        let n = chars_to_string(&name);
        join_relative_path(self.base_path.as_str(), n.as_str())
    }

    /// The file of the identity `id`.
    pub fn metadata_path(&self, id: &str) -> (r: String)
        ensures
            r@ == join_relative(self.base_path@, id@ + ".json"@),
    {
        let mut name: Vec<char> = str_chars(id);
        push_str(&mut name, ".json");
        let n = chars_to_string(&name);
        join_relative_path(self.base_path.as_str(), n.as_str())
    }

    /// The file of the master passphrase.
    pub fn master_key_path(&self) -> (r: String)
        ensures
            r@ == join_relative(self.base_path@, "master.key"@),
    {
        join_relative_path(self.base_path.as_str(), "master.key")
    }
}

/// The master passphrase as its file holds it: the text, trimmed.
pub fn master_passphrase_from_file(content: &str) -> (r: String)
    ensures
        r@ == trim(content@),
{
    let c = str_chars(content);
    let t = trim_vec(&c);
    chars_to_string(&t)
}

/// Request sent to the frontend to trigger biometric authentication.
#[derive(Debug, Clone, PartialEq)]
pub struct BiometricRequest {
    pub request_id: String,
    pub key_id: String,
    pub title: String,
    pub subtitle: String,
}

/// Response sent from the frontend after biometric authentication.
#[derive(Debug, Clone, PartialEq)]
pub struct BiometricResponse {
    pub request_id: String,
    pub success: bool,
    pub error: Option<String>,
}

// ---------------------------------------------------------------------------
// Pending requests
// ---------------------------------------------------------------------------

/// Complete a pending biometric request: take out the waiter registered
/// under the response's request id and hand it back with the response, to
/// be sent; a response to an unknown request is dropped.
pub fn complete_biometric_request<T>(pending: &mut KeyedMap<T>, response: BiometricResponse) -> (r:
    Option<(T, BiometricResponse)>)
    ensures
        final(pending).view() == removed(old(pending).view(), response.request_id@),
        match value_of(old(pending).view(), response.request_id@) {
            Some(w) => r matches Some(p) && p.0 == w && p.1 == response,
            None => r is None,
        },
{
    match pending.remove(response.request_id.as_str()) {
        Some(w) => Some((w, response)),
        None => None,
    }
}

/// A waiter registered under `k` is what completing `k` hands back, and
/// the request then waits no longer: a biometric answer reaches the request
/// that asked for it, once.
pub proof fn law_complete_after_register<T>(s: Seq<(Seq<char>, T)>, k: Seq<char>, waiter: T)
    requires
        keys_unique(s),
    ensures
        value_of(inserted(s, k, waiter), k) == Some(waiter),
        value_of(removed(inserted(s, k, waiter), k), k) is None,
{
    law_value_after_insert(s, k, waiter, k);
    crate::keyed::lemma_inserted_unique(s, k, waiter);
    law_value_after_remove(inserted(s, k, waiter), k, k);
}

/// Completing a request that nobody registered changes nothing and hands
/// nothing back.
pub proof fn law_complete_unknown<T>(s: Seq<(Seq<char>, T)>, k: Seq<char>)
    requires
        forall|i: int| 0 <= i < s.len() ==> s[i].0 != k,
    ensures
        value_of(s, k) is None,
        removed(s, k) == s,
{
    lemma_find_key(s, k, 0);
}

// ---------------------------------------------------------------------------
// Fresh ids, the master passphrase and biometric prompts
// ---------------------------------------------------------------------------

/// `c` is a lowercase hexadecimal digit.
pub open spec fn is_lower_hex(c: char) -> bool {
    ('0' <= c && c <= '9') || ('a' <= c && c <= 'f')
}

/// `s` is a random (version 4, RFC 4122 variant) UUID in its hyphenated
/// lowercase form: thirty-six characters, hyphens at offsets 8, 13, 18 and
/// 23, lowercase hexadecimal digits elsewhere, the version digit `4` at
/// offset 14 and one of `8`, `9`, `a`, `b` at offset 19.
pub open spec fn is_uuid_v4_text(s: Seq<char>) -> bool {
    &&& s.len() == 36
    &&& s[8] == '-' && s[13] == '-' && s[18] == '-' && s[23] == '-'
    &&& forall|i: int|
        0 <= i < 36 && i != 8 && i != 13 && i != 18 && i != 23 ==> is_lower_hex(#[trigger] s[i])
    &&& s[14] == '4'
    &&& s[19] == '8' || s[19] == '9' || s[19] == 'a' || s[19] == 'b'
}

/// A fresh random UUID (`uuid::Uuid::new_v4().to_string()`): `new_v4` masks
/// random bits to set the version and the variant, and the display form is
/// the hyphenated lowercase one. Which random digits come is not claimed.
#[verifier::external_body]
fn new_uuid() -> (r: String)
    ensures
        is_uuid_v4_text(r@),
{
    uuid::Uuid::new_v4().to_string()
}

/// The master passphrase, and whether it was just made and must be written
/// to its file.
#[derive(Debug)]
pub struct MasterPassphrase {
    pub passphrase: String,
    pub created: bool,
}

/// The master passphrase from the content of its file, if there is one
/// (trimmed); otherwise a fresh random UUID, to be written to the file.
pub fn master_passphrase(existing: Option<&str>) -> (r: MasterPassphrase)
    ensures
        match existing {
            Some(c) => r.passphrase@ == trim(c@) && !r.created,
            None => r.created && is_uuid_v4_text(r.passphrase@),
        },
{
    match existing {
        Some(c) => MasterPassphrase { passphrase: master_passphrase_from_file(c), created: false },
        None => MasterPassphrase { passphrase: new_uuid(), created: true },
    }
}

/// A biometric prompt for unlocking the key `key_id` because of `reason`,
/// under a fresh random request id.
pub fn biometric_request(key_id: &str, reason: &str) -> (r: BiometricRequest)
    ensures
        is_uuid_v4_text(r.request_id@),
        r.key_id@ == key_id@,
        r.title@ == "Unlock SSH Key"@,
        r.subtitle@ == reason@,
{
    BiometricRequest {
        request_id: new_uuid(),
        key_id: key_id.to_string(),
        title: "Unlock SSH Key".to_string(),
        subtitle: reason.to_string(),
    }
}

/// What a biometric prompt came to: `None` where the waiter was dropped
/// before an answer came (the request was cancelled); a successful answer
/// unlocks; a failed one gives its error, or a general one.
pub fn biometric_outcome(response: Option<BiometricResponse>) -> (r: Result<(), String>)
    ensures
        match response {
            None => r matches Err(m) && m@ == "Biometric request was cancelled"@,
            Some(resp) => if resp.success {
                r is Ok
            } else {
                r matches Err(m) && m@ == match resp.error {
                    Some(e) => e@,
                    None => "Biometric authentication failed"@,
                }
            },
        },
{
    match response {
        None => Err("Biometric request was cancelled".to_string()),
        Some(resp) => if resp.success {
            Ok(())
        } else {
            match resp.error {
                Some(e) => Err(e),
                None => Err("Biometric authentication failed".to_string()),
            }
        },
    }
}

} // verus!
