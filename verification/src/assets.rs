//! Files shown to clients are served under short-lived random asset ids:
//! each registration lasts thirty minutes, expired ones are swept out.
//! Times are milliseconds of a monotonic clock.

use vstd::prelude::*;
use crate::text::chars_to_string;
use crate::kdl_tree::str_eq;
use crate::keyed::{
    KeyedMap, find_key, keys_unique, inserted, value_of, lemma_find_key, law_value_after_insert,
};

verus! {

/// How long a registration lasts, in milliseconds (thirty minutes).
pub const ASSET_TTL_MS: u64 = 1800000;

/// A registered file and the time its registration ends.
#[derive(Debug)]
pub struct AssetEntry {
    pub file_path: String,
    pub expires_at: u64,
}

/// The mathematical content of an [`AssetEntry`].
pub struct AssetEntryView {
    pub file_path: Seq<char>,
    pub expires_at: u64,
}

impl View for AssetEntry {
    type V = AssetEntryView;

    open spec fn view(&self) -> AssetEntryView {
        AssetEntryView { file_path: self.file_path@, expires_at: self.expires_at }
    }
}

impl AssetEntry {
    /// A copy of this entry.
    pub fn duplicate(&self) -> (r: AssetEntry)
        ensures
            r@ == self@,
    {
        AssetEntry { file_path: self.file_path.clone(), expires_at: self.expires_at }
    }
}

// ---------------------------------------------------------------------------
// Asset ids
// ---------------------------------------------------------------------------

/// The lowercase hexadecimal digit of `n`.
pub open spec fn hex_digit(n: int) -> char {
    if n < 10 {
        (('0' as int) + n) as char
    } else {
        (('a' as int) + n - 10) as char
    }
}

/// `bytes` in lowercase hexadecimal, two digits a byte (`hex::encode`).
pub open spec fn hex_of(bytes: Seq<u8>) -> Seq<char>
    decreases bytes.len(),
{
    if bytes.len() == 0 {
        Seq::empty()
    } else {
        hex_of(bytes.drop_last()) + seq![
            hex_digit((bytes.last() / 16) as int),
            hex_digit((bytes.last() % 16) as int),
        ]
    }
}

proof fn lemma_hex_len(bytes: Seq<u8>)
    ensures
        hex_of(bytes).len() == 2 * bytes.len(),
    decreases bytes.len(),
{
    if bytes.len() > 0 {
        lemma_hex_len(bytes.drop_last());
    }
}

fn hex_digit_exec(n: u8) -> (c: char)
    requires
        n < 16,
    ensures
        c == hex_digit(n as int),
{
    let digits: [char; 16] = ['0', '1', '2', '3', '4', '5', '6', '7', '8', '9', 'a', 'b', 'c', 'd', 'e', 'f'];
    let c = digits[n as usize];
    assert(digits@ =~= seq!['0', '1', '2', '3', '4', '5', '6', '7', '8', '9', 'a', 'b', 'c', 'd', 'e', 'f']);
    c
}

/// The asset id made of `bytes`: their lowercase hexadecimal digits.
pub fn asset_id_from_bytes(bytes: &[u8]) -> (r: String)
    ensures
        r@ == hex_of(bytes@),
{
    let mut out: Vec<char> = Vec::new();
    let mut i: usize = 0;
    while i < bytes.len()
        invariant
            i <= bytes@.len(),
            out@ == hex_of(bytes@.take(i as int)),
        decreases bytes@.len() - i,
    {
        let b = bytes[i];
        assert(bytes@.take(i + 1).drop_last() =~= bytes@.take(i as int));
        out.push(hex_digit_exec(b / 16));
        out.push(hex_digit_exec(b % 16));
        assert(out@ =~= hex_of(bytes@.take(i + 1)));
        i = i + 1;
    }
    assert(bytes@.take(bytes@.len() as int) =~= bytes@);
    chars_to_string(&out)
}

/// Eight bytes from `rand::thread_rng` (`RngCore::fill_bytes`); nothing is
/// claimed of their values, which are random.
#[verifier::external_body]
fn random_id_bytes() -> (r: [u8; 8]) {
    let mut buf = [0u8; 8];
    rand::RngCore::fill_bytes(&mut rand::thread_rng(), &mut buf);
    buf
}

/// A fresh random asset id: sixteen lowercase hexadecimal digits.
pub fn generate_id() -> (r: String)
    ensures
        r@.len() == 16,
        exists|b: Seq<u8>| b.len() == 8 && r@ == hex_of(b),
{
    let bytes = random_id_bytes();
    let r = asset_id_from_bytes(&bytes);
    proof {
        lemma_hex_len(bytes@);
    }
    r
}

// ---------------------------------------------------------------------------
// The registry
// ---------------------------------------------------------------------------

/// The file that the asset `id` stands for at time `now`: its entry, unless
/// that has expired (`now` is past its end).
pub open spec fn resolved(s: Seq<(Seq<char>, AssetEntryView)>, id: Seq<char>, now: u64) -> Option<Seq<char>> {
    match value_of(s, id) {
        Some(e) => if now > e.expires_at {
            None
        } else {
            Some(e.file_path)
        },
        None => None,
    }
}

/// The entries of `s` that have not expired at `now`, in order.
pub open spec fn unexpired(s: Seq<(Seq<char>, AssetEntryView)>, now: u64) -> Seq<(Seq<char>, AssetEntryView)>
    decreases s.len(),
{
    if s.len() == 0 {
        Seq::empty()
    } else {
        let rest = unexpired(s.drop_last(), now);
        if s.last().1.expires_at > now {
            rest.push(s.last())
        } else {
            rest
        }
    }
}

/// The registered assets.
pub struct AssetManager {
    assets: KeyedMap<AssetEntry>,
}

impl AssetManager {
    /// The registered assets, by id.
    pub closed spec fn entries(&self) -> Seq<(Seq<char>, AssetEntryView)> {
        self.assets.view().map_values(|e: (Seq<char>, AssetEntry)| (e.0, e.1@))
    }

    /// No id is registered twice.
    pub closed spec fn wf(&self) -> bool {
        keys_unique(self.assets.view())
    }

    /// No asset is registered.
    pub fn new() -> (r: AssetManager)
        ensures
            r.wf(),
            r.entries().len() == 0,
    {
        let r = AssetManager { assets: KeyedMap::new() };
        assert(r.entries() =~= Seq::<(Seq<char>, AssetEntryView)>::empty());
        r
    }

    proof fn lemma_entries(&self, id: Seq<char>, e: AssetEntry)
        ensures
            value_of(self.entries(), id) == match value_of(self.assets.view(), id) {
                Some(x) => Some(x@),
                None => None,
            },
            self.wf() ==> keys_unique(self.entries()),
    {
        crate::keyed::lemma_map_entries(self.assets.view(), |x: AssetEntry| x@, id, e);
        assert(self.entries() == crate::keyed::map_entries(self.assets.view(), |x: AssetEntry| x@));
    }

    /// Register `entry` under `id`; an earlier registration of `id` is dropped.
    pub fn insert_entry(&mut self, id: String, entry: AssetEntry)
        requires
            old(self).wf(),
        ensures
            final(self).wf(),
            final(self).entries() == inserted(old(self).entries(), id@, entry@),
    {
        let ghost e = entry;
        proof {
            crate::keyed::lemma_map_entries(self.assets.view(), |x: AssetEntry| x@, id@, e);
            assert(self.entries() == crate::keyed::map_entries(self.assets.view(), |x: AssetEntry| x@));
        }
        self.assets.insert(id, entry);
        proof {
            assert(self.entries() == crate::keyed::map_entries(self.assets.view(), |x: AssetEntry| x@));
        }
    }

    /// Register the file `file_path` at time `now` under a fresh random id,
    /// for thirty minutes; return the id.
    pub fn register(&mut self, file_path: String, now: u64) -> (r: String)
        requires
            old(self).wf(),
            now + ASSET_TTL_MS <= u64::MAX,
        ensures
            final(self).wf(),
            r@.len() == 16,
            final(self).entries() == inserted(
                old(self).entries(),
                r@,
                AssetEntryView { file_path: file_path@, expires_at: (now + ASSET_TTL_MS) as u64 },
            ),
    {
        let id = generate_id();
        let entry = AssetEntry { file_path, expires_at: now + ASSET_TTL_MS };
        self.insert_entry(id.clone(), entry);
        id
    }

    /// The file of the asset `id` at time `now`; `None` where it is unknown
    /// or has expired.
    pub fn resolve(&self, id: &str, now: u64) -> (r: Option<String>)
        requires
            self.wf(),
        ensures
            match resolved(self.entries(), id@, now) {
                Some(p) => r matches Some(x) && x@ == p,
                None => r is None,
            },
    {
        proof {
            self.lemma_entries(id@, arbitrary());
        }
        match self.assets.get(id) {
            Some(e) => if now > e.expires_at {
                None
            } else {
                Some(e.file_path.clone())
            },
            None => None,
        }
    }

    /// Drop the registrations that have expired at `now`.
    pub fn cleanup(&mut self, now: u64)
        requires
            old(self).wf(),
        ensures
            final(self).wf(),
            final(self).entries() == unexpired(old(self).entries(), now),
    {
        let ghost s = self.entries();
        let mut kept: KeyedMap<AssetEntry> = KeyedMap::new();
        let n = self.assets.len();
        let mut i: usize = 0;
        proof {
            assert(s == crate::keyed::map_entries(self.assets.view(), |x: AssetEntry| x@));
            crate::keyed::lemma_map_entries(self.assets.view(), |x: AssetEntry| x@, Seq::empty(), arbitrary());
            assert(crate::keyed::map_entries(kept.view(), |x: AssetEntry| x@) =~= unexpired(s.take(0), now));
        }
        while i < n
            invariant
                i <= n,
                n == self.assets.view().len(),
                s == crate::keyed::map_entries(self.assets.view(), |x: AssetEntry| x@),
                keys_unique(s),
                keys_unique(kept.view()),
                crate::keyed::map_entries(kept.view(), |x: AssetEntry| x@) == unexpired(s.take(i as int), now),
                forall|j: int| 0 <= j < kept.view().len() ==> exists|m: int| 0 <= m < i && #[trigger] kept.view()[j].0 == s[m].0,
            decreases n - i,
        {
            let e = self.assets.value_at(i);
            assert(s.take(i + 1).drop_last() =~= s.take(i as int));
            assert(s[i as int] == (self.assets.view()[i as int].0, self.assets.view()[i as int].1@));
            if e.expires_at > now {
                let k = self.assets.key_at(i).clone();
                let d = e.duplicate();
                let ghost kv = kept.view();
                proof {
                    lemma_find_key(kv, k@, 0);
                    assert forall|j: int| 0 <= j < kv.len() implies kv[j].0 != k@ by {
                        let m = choose|m: int| 0 <= m < i && kv[j].0 == s[m].0;
                        assert(s[m].0 != s[i as int].0);
                    }
                    crate::keyed::lemma_map_entries(kv, |x: AssetEntry| x@, k@, d);
                }
                kept.insert(k, d);
                proof {
                    assert(kept.view() == kv.push((k@, d)));
                    assert(crate::keyed::map_entries(kept.view(), |x: AssetEntry| x@) =~= unexpired(s.take(i + 1), now));
                    assert forall|j: int| 0 <= j < kept.view().len() implies exists|m: int| 0 <= m < i + 1 && #[trigger] kept.view()[j].0 == s[m].0 by {
                        if j < kv.len() {
                            let m = choose|m: int| 0 <= m < i && kv[j].0 == s[m].0;
                            assert(kept.view()[j].0 == s[m].0);
                        } else {
                            assert(kept.view()[j].0 == s[i as int].0);
                        }
                    }
                }
            }
            i = i + 1;
        }
        assert(s.take(n as int) =~= s);
        self.assets = kept;
    }

    /// The id under which the file `file_path` is registered, if any (the
    /// first registration found).
    pub fn find_by_path(&self, file_path: &str) -> (r: Option<String>)
        ensures
            match r {
                Some(id) => exists|j: int| 0 <= j < self.entries().len() && self.entries()[j].0 == id@
                    && self.entries()[j].1.file_path == file_path@,
                None => forall|j: int| 0 <= j < self.entries().len() ==> self.entries()[j].1.file_path != file_path@,
            },
    {
        let n = self.assets.len();
        let mut i: usize = 0;
        while i < n
            invariant
                i <= n,
                n == self.assets.view().len(),
                n == self.entries().len(),
                forall|j: int| 0 <= j < i ==> self.entries()[j].1.file_path != file_path@,
            decreases n - i,
        {
            assert(self.entries()[i as int] == (self.assets.view()[i as int].0, self.assets.view()[i as int].1@));
            if str_eq(self.assets.value_at(i).file_path.as_str(), file_path) {
                return Some(self.assets.key_at(i).clone());
            }
            i = i + 1;
        }
        None
    }
}

// ---------------------------------------------------------------------------
// Laws
// ---------------------------------------------------------------------------

/// A registered file resolves to itself until its registration ends, and
/// to nothing after; registering it leaves every other asset as it was.
pub proof fn law_resolve_after_register(
    s: Seq<(Seq<char>, AssetEntryView)>,
    id: Seq<char>,
    file_path: Seq<char>,
    registered_at: u64,
    now: u64,
    other: Seq<char>,
)
    requires
        keys_unique(s),
        registered_at + ASSET_TTL_MS <= u64::MAX,
    ensures
        resolved(
            inserted(s, id, AssetEntryView { file_path, expires_at: (registered_at + ASSET_TTL_MS) as u64 }),
            id,
            now,
        ) == if now <= registered_at + ASSET_TTL_MS {
            Some(file_path)
        } else {
            None
        },
        other != id ==> resolved(
            inserted(s, id, AssetEntryView { file_path, expires_at: (registered_at + ASSET_TTL_MS) as u64 }),
            other,
            now,
        ) == resolved(s, other, now),
{
    let e = AssetEntryView { file_path, expires_at: (registered_at + ASSET_TTL_MS) as u64 };
    law_value_after_insert(s, id, e, id);
    law_value_after_insert(s, id, e, other);
}

proof fn lemma_unexpired_value(s: Seq<(Seq<char>, AssetEntryView)>, now: u64, id: Seq<char>)
    requires
        keys_unique(s),
    ensures
        value_of(unexpired(s, now), id) == match value_of(s, id) {
            Some(e) => if e.expires_at > now {
                Some(e)
            } else {
                None
            },
            None => None,
        },
        keys_unique(unexpired(s, now)),
        forall|j: int| 0 <= j < unexpired(s, now).len() ==> exists|m: int| 0 <= m < s.len() && #[trigger] unexpired(s, now)[j].0 == s[m].0,
    decreases s.len(),
{
    if s.len() > 0 {
        let p = s.drop_last();
        assert(keys_unique(p)) by {
            assert forall|a: int, b: int| 0 <= a < b < p.len() implies #[trigger] p[a].0 != #[trigger] p[b].0 by {
                assert(p[a] == s[a] && p[b] == s[b]);
            }
        }
        lemma_unexpired_value(p, now, id);
        let u = unexpired(p, now);
        let x = s.last();
        lemma_find_key(s, id, 0);
        lemma_find_key(p, id, 0);
        lemma_find_key(u, id, 0);
        // `x`'s key does not occur among the earlier entries
        assert forall|j: int| 0 <= j < u.len() implies u[j].0 != x.0 by {
            let m = choose|m: int| 0 <= m < p.len() && u[j].0 == p[m].0;
            assert(p[m] == s[m]);
            assert(s[m].0 != s[s.len() - 1].0);
        }
        if x.1.expires_at > now {
            let v = u.push(x);
            lemma_find_key(v, id, 0);
            assert forall|a: int, b: int| 0 <= a < b < v.len() implies #[trigger] v[a].0 != #[trigger] v[b].0 by {
                if b == u.len() {
                    assert(v[a] == u[a]);
                } else {
                    assert(v[a] == u[a] && v[b] == u[b]);
                }
            }
            assert forall|j: int| 0 <= j < v.len() implies exists|m: int| 0 <= m < s.len() && #[trigger] v[j].0 == s[m].0 by {
                if j < u.len() {
                    let m = choose|m: int| 0 <= m < p.len() && u[j].0 == p[m].0;
                    assert(v[j].0 == s[m].0);
                } else {
                    assert(v[j].0 == s[s.len() - 1].0);
                }
            }
            match find_key(v, id, 0) {
                Some(k) => {
                    if k < u.len() {
                        assert(v[k] == u[k]);
                    }
                },
                None => {
                    assert(v[u.len() as int] == x);
                },
            }
            match find_key(u, id, 0) {
                Some(k) => {
                    assert(v[k] == u[k]);
                },
                None => {},
            }
            match find_key(p, id, 0) {
                Some(k) => {
                    assert(s[k] == p[k]);
                },
                None => {},
            }
            match find_key(s, id, 0) {
                Some(k) => {
                    if k < p.len() {
                        assert(s[k] == p[k]);
                    }
                },
                None => {},
            }
        } else {
            assert forall|j: int| 0 <= j < u.len() implies exists|m: int| 0 <= m < s.len() && #[trigger] u[j].0 == s[m].0 by {
                let m = choose|m: int| 0 <= m < p.len() && u[j].0 == p[m].0;
                assert(u[j].0 == s[m].0);
            }
            match find_key(p, id, 0) {
                Some(k) => {
                    assert(s[k] == p[k]);
                },
                None => {},
            }
            match find_key(s, id, 0) {
                Some(k) => {
                    if k < p.len() {
                        assert(s[k] == p[k]);
                    }
                },
                None => {},
            }
        }
    }
}

/// Sweeping out expired registrations at `now` changes what any asset
/// resolves to at any later time: nothing.
pub proof fn law_cleanup_keeps_resolution(
    s: Seq<(Seq<char>, AssetEntryView)>,
    now: u64,
    id: Seq<char>,
    later: u64,
)
    requires
        keys_unique(s),
        later > now,
    ensures
        resolved(unexpired(s, now), id, later) == resolved(s, id, later),
{
    lemma_unexpired_value(s, now, id);
}

} // verus!
