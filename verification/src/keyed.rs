//! A small map keyed by strings, kept as a vector of entries without
//! repeated keys: the registry of pending requests and the per-annotation
//! maps of an annotation document use it.

use vstd::prelude::*;
use crate::kdl_tree::str_eq;

verus! {

/// The index of the first entry of `s` whose key is `k`, from `i` on.
pub open spec fn find_key<T>(s: Seq<(Seq<char>, T)>, k: Seq<char>, i: int) -> Option<int>
    decreases s.len() - i,
{
    if i < 0 || i >= s.len() {
        None
    } else if s[i].0 == k {
        Some(i)
    } else {
        find_key(s, k, i + 1)
    }
}

/// No two entries of `s` have the same key.
pub open spec fn keys_unique<T>(s: Seq<(Seq<char>, T)>) -> bool {
    forall|i: int, j: int| 0 <= i < j < s.len() ==> #[trigger] s[i].0 != #[trigger] s[j].0
}

/// The entries after `v` is stored under `k`: an earlier entry under `k`
/// is dropped, the new one goes last.
pub open spec fn inserted<T>(s: Seq<(Seq<char>, T)>, k: Seq<char>, v: T) -> Seq<(Seq<char>, T)> {
    match find_key(s, k, 0) {
        Some(i) => s.remove(i),
        None => s,
    }.push((k, v))
}

/// The entries after the entry under `k` is removed.
pub open spec fn removed<T>(s: Seq<(Seq<char>, T)>, k: Seq<char>) -> Seq<(Seq<char>, T)> {
    match find_key(s, k, 0) {
        Some(i) => s.remove(i),
        None => s,
    }
}

/// The value stored under `k`, if any.
pub open spec fn value_of<T>(s: Seq<(Seq<char>, T)>, k: Seq<char>) -> Option<T> {
    match find_key(s, k, 0) {
        Some(i) => Some(s[i].1),
        None => None,
    }
}

pub proof fn lemma_find_key<T>(s: Seq<(Seq<char>, T)>, k: Seq<char>, i: int)
    requires
        0 <= i,
    ensures
        match find_key(s, k, i) {
            Some(j) => i <= j < s.len() && s[j].0 == k && forall|m: int| i <= m < j ==> s[m].0 != k,
            None => forall|m: int| i <= m < s.len() ==> s[m].0 != k,
        },
    decreases s.len() - i,
{
    if i < s.len() && s[i].0 != k {
        lemma_find_key(s, k, i + 1);
    }
}

pub proof fn lemma_find_key_unique<T>(s: Seq<(Seq<char>, T)>, k: Seq<char>, j: int)
    requires
        keys_unique(s),
        0 <= j < s.len(),
        s[j].0 == k,
    ensures
        find_key(s, k, 0) == Some(j),
{
    lemma_find_key(s, k, 0);
    match find_key(s, k, 0) {
        Some(m) => {
            if m < j {
                assert(s[m].0 != s[j].0);
            }
        },
        None => {},
    }
}

pub proof fn lemma_removed_has_no_key<T>(s: Seq<(Seq<char>, T)>, k: Seq<char>)
    requires
        keys_unique(s),
    ensures
        forall|m: int| 0 <= m < removed(s, k).len() ==> removed(s, k)[m].0 != k,
{
    lemma_find_key(s, k, 0);
    let t = removed(s, k);
    assert forall|m: int| 0 <= m < t.len() implies t[m].0 != k by {
        match find_key(s, k, 0) {
            Some(i) => {
                let m0 = if m < i { m } else { m + 1 };
                assert(t[m] == s[m0]);
                if m0 > i {
                    assert(s[i].0 != s[m0].0);
                }
            },
            None => {},
        }
    }
}

/// Values keyed by strings, each key at most once, in the order the keys
/// were (last) stored.
pub struct KeyedMap<T> {
    entries: Vec<(String, T)>,
}

impl<T> KeyedMap<T> {
    /// The entries, in the order they were stored.
    pub closed spec fn view(&self) -> Seq<(Seq<char>, T)> {
        self.entries@.map_values(|e: (String, T)| (e.0@, e.1))
    }

    #[verifier::type_invariant]
    closed spec fn inv(&self) -> bool {
        keys_unique(self.view())
    }

    /// The empty map.
    pub fn new() -> (r: Self)
        ensures
            r.view() == Seq::<(Seq<char>, T)>::empty(),
            keys_unique(r.view()),
    {
        let r = KeyedMap { entries: Vec::new() };
        assert(r.view() =~= Seq::<(Seq<char>, T)>::empty());
        r
    }

    /// Remove the entry under `key` and hand back its value, if any.
    pub fn remove(&mut self, key: &str) -> (r: Option<T>)
        ensures
            r == value_of(old(self).view(), key@),
            final(self).view() == removed(old(self).view(), key@),
            keys_unique(final(self).view()),
    {
        proof {
            use_type_invariant(&*self);
            lemma_find_key(self.view(), key@, 0);
        }
        let ghost s = self.view();
        let mut entries: Vec<(String, T)> = Vec::new();
        std::mem::swap(&mut entries, &mut self.entries);
        let mut i: usize = 0;
        while i < entries.len()
            invariant
                i <= entries@.len(),
                s == entries@.map_values(|e: (String, T)| (e.0@, e.1)),
                keys_unique(s),
                find_key(s, key@, 0) == find_key(s, key@, i as int),
            ensures
                i <= entries@.len(),
                i < entries@.len() ==> find_key(s, key@, 0) == Some(i as int),
                i == entries@.len() ==> find_key(s, key@, 0) is None,
            decreases entries@.len() - i,
        {
            assert(s[i as int].0 == entries@[i as int].0@);
            if str_eq(entries[i].0.as_str(), key) {
                break;
            }
            i = i + 1;
        }
        if i < entries.len() {
            let (_, w) = entries.remove(i);
            proof {
                assert(entries@.map_values(|e: (String, T)| (e.0@, e.1)) =~= s.remove(i as int));
                assert forall|a: int, b: int|
                    0 <= a < b < s.remove(i as int).len() implies #[trigger] s.remove(
                    i as int,
                )[a].0 != #[trigger] s.remove(i as int)[b].0 by {
                    let a0 = if a < i { a } else { a + 1 };
                    let b0 = if b < i { b } else { b + 1 };
                    assert(s[a0].0 != s[b0].0);
                }
            }
            std::mem::swap(&mut entries, &mut self.entries);
            Some(w)
        } else {
            std::mem::swap(&mut entries, &mut self.entries);
            None
        }
    }

    /// Store `value` under `key`; an earlier value under it is dropped.
    pub fn insert(&mut self, key: String, value: T)
        ensures
            final(self).view() == inserted(old(self).view(), key@, value),
            keys_unique(final(self).view()),
    {
        let ghost s0 = self.view();
        proof {
            use_type_invariant(&*self);
        }
        let _ = self.remove(key.as_str());
        proof {
            lemma_removed_has_no_key(s0, key@);
            use_type_invariant(&*self);
            lemma_find_key(self.view(), key@, 0);
        }
        let ghost s = self.view();
        let ghost k = key@;
        let mut entries: Vec<(String, T)> = Vec::new();
        std::mem::swap(&mut entries, &mut self.entries);
        entries.push((key, value));
        proof {
            assert(entries@.map_values(|e: (String, T)| (e.0@, e.1)) =~= s.push((k, value)));
            assert forall|a: int, b: int|
                0 <= a < b < s.push((k, value)).len() implies #[trigger] s.push((k, value))[a].0
                != #[trigger] s.push((k, value))[b].0 by {
                if b == s.len() {
                    assert(s[a].0 != k);
                }
            }
        }
        std::mem::swap(&mut entries, &mut self.entries);
    }
    /// The number of entries.
    pub fn len(&self) -> (r: usize)
        ensures
            r == self.view().len(),
    {
        self.entries.len()
    }

    /// The key of the `i`-th entry.
    pub fn key_at(&self, i: usize) -> (r: &String)
        requires
            i < self.view().len(),
        ensures
            r@ == self.view()[i as int].0,
    {
        &self.entries[i].0
    }

    /// The value of the `i`-th entry.
    pub fn value_at(&self, i: usize) -> (r: &T)
        requires
            i < self.view().len(),
        ensures
            *r == self.view()[i as int].1,
    {
        &self.entries[i].1
    }

    /// The index of the entry under `key`, if any.
    pub fn index_of(&self, key: &str) -> (r: Option<usize>)
        ensures
            match r {
                Some(i) => find_key(self.view(), key@, 0) == Some(i as int),
                None => find_key(self.view(), key@, 0) is None,
            },
    {
        let ghost s = self.view();
        let mut i: usize = 0;
        while i < self.entries.len()
            invariant
                i <= self.entries@.len(),
                s == self.entries@.map_values(|e: (String, T)| (e.0@, e.1)),
                find_key(s, key@, 0) == find_key(s, key@, i as int),
            decreases self.entries@.len() - i,
        {
            assert(s[i as int].0 == self.entries@[i as int].0@);
            if str_eq(self.entries[i].0.as_str(), key) {
                return Some(i);
            }
            i = i + 1;
        }
        None
    }

    /// The value stored under `key`, if any.
    pub fn get(&self, key: &str) -> (r: Option<&T>)
        ensures
            match value_of(self.view(), key@) {
                Some(v) => r matches Some(x) && *x == v,
                None => r is None,
            },
    {
        proof {
            lemma_find_key(self.view(), key@, 0);
        }
        match self.index_of(key) {
            Some(i) => Some(self.value_at(i)),
            None => None,
        }
    }
}



/// What a read gives back of a write: after storing `v` under `k`, reading
/// `k` gives `v` and reading any other key gives what it gave before.
pub proof fn law_value_after_insert<T>(s: Seq<(Seq<char>, T)>, k: Seq<char>, v: T, k2: Seq<char>)
    requires
        keys_unique(s),
    ensures
        value_of(inserted(s, k, v), k2) == if k2 == k {
            Some(v)
        } else {
            value_of(s, k2)
        },
{
    lemma_find_key(s, k, 0);
    lemma_find_key(s, k2, 0);
    lemma_removed_has_no_key(s, k);
    let t = removed(s, k);
    let u = t.push((k, v));
    lemma_find_key(u, k2, 0);
    if k2 == k {
        assert(u[t.len() as int].0 == k);
        match find_key(u, k2, 0) {
            Some(j) => {
                if j < t.len() {
                    assert(u[j] == t[j]);
                }
            },
            None => {},
        }
    } else {
        lemma_find_key(t, k2, 0);
        match find_key(s, k, 0) {
            Some(i) => {
                match find_key(s, k2, 0) {
                    Some(j) => {
                        let j2 = if j < i { j } else { j - 1 };
                        assert(j != i);
                        assert(t[j2] == s[j]);
                        lemma_find_key_unique(s, k2, j);
                        assert forall|m: int| 0 <= m < j2 implies t[m].0 != k2 by {
                            let m0 = if m < i { m } else { m + 1 };
                            assert(t[m] == s[m0]);
                            assert(s[m0].0 != s[j].0);
                        }
                        assert(u[j2] == t[j2]);
                        match find_key(u, k2, 0) {
                            Some(x) => {
                                if x < j2 {
                                    assert(u[x] == t[x]);
                                }
                            },
                            None => {},
                        }
                    },
                    None => {
                        assert forall|m: int| 0 <= m < u.len() implies u[m].0 != k2 by {
                            if m < t.len() {
                                let m0 = if m < i { m } else { m + 1 };
                                assert(u[m] == t[m]);
                                assert(t[m] == s[m0]);
                            }
                        }
                    },
                }
            },
            None => {
                assert(t == s);
                match find_key(u, k2, 0) {
                    Some(x) => {
                        if x < s.len() {
                            assert(u[x] == s[x]);
                        }
                    },
                    None => {},
                }
                match find_key(s, k2, 0) {
                    Some(j) => {
                        assert(u[j] == s[j]);
                    },
                    None => {},
                }
            },
        }
    }
}

/// After the entry under `k` is removed, reading `k` gives nothing and
/// reading any other key gives what it gave before.
pub proof fn law_value_after_remove<T>(s: Seq<(Seq<char>, T)>, k: Seq<char>, k2: Seq<char>)
    requires
        keys_unique(s),
    ensures
        value_of(removed(s, k), k2) == if k2 == k {
            None
        } else {
            value_of(s, k2)
        },
{
    lemma_find_key(s, k, 0);
    lemma_find_key(s, k2, 0);
    lemma_removed_has_no_key(s, k);
    let t = removed(s, k);
    lemma_find_key(t, k2, 0);
    if k2 != k {
        match find_key(s, k, 0) {
            Some(i) => {
                match find_key(s, k2, 0) {
                    Some(j) => {
                        let j2 = if j < i { j } else { j - 1 };
                        assert(t[j2] == s[j]);
                        assert forall|m: int| 0 <= m < j2 implies t[m].0 != k2 by {
                            let m0 = if m < i { m } else { m + 1 };
                            assert(t[m] == s[m0]);
                            lemma_find_key_unique(s, k2, j);
                        }
                        match find_key(t, k2, 0) {
                            Some(x) => {
                                if x > j2 {
                                    assert(t[j2].0 == k2);
                                }
                            },
                            None => {},
                        }
                    },
                    None => {
                        assert forall|m: int| 0 <= m < t.len() implies t[m].0 != k2 by {
                            let m0 = if m < i { m } else { m + 1 };
                            assert(t[m] == s[m0]);
                        }
                    },
                }
            },
            None => {},
        }
    }
}

/// Storing a value keeps keys unique.
pub proof fn lemma_inserted_unique<T>(s: Seq<(Seq<char>, T)>, k: Seq<char>, v: T)
    requires
        keys_unique(s),
    ensures
        keys_unique(inserted(s, k, v)),
{
    lemma_removed_has_no_key(s, k);
    lemma_removed_unique(s, k);
    let t = removed(s, k);
    let u = t.push((k, v));
    assert forall|a: int, b: int| 0 <= a < b < u.len() implies #[trigger] u[a].0 != #[trigger] u[b].0 by {
        if b == t.len() {
            assert(t[a].0 != k);
        } else {
            assert(u[a] == t[a] && u[b] == t[b]);
        }
    }
}

/// Removing an entry keeps keys unique.
pub proof fn lemma_removed_unique<T>(s: Seq<(Seq<char>, T)>, k: Seq<char>)
    requires
        keys_unique(s),
    ensures
        keys_unique(removed(s, k)),
{
    lemma_find_key(s, k, 0);
    match find_key(s, k, 0) {
        Some(i) => {
            let t = s.remove(i);
            assert forall|a: int, b: int| 0 <= a < b < t.len() implies #[trigger] t[a].0 != #[trigger] t[b].0 by {
                let a0 = if a < i { a } else { a + 1 };
                let b0 = if b < i { b } else { b + 1 };
                assert(t[a] == s[a0] && t[b] == s[b0]);
            }
        },
        None => {},
    }
}

/// The entries with each value mapped by `f`.
pub open spec fn map_entries<T, U>(s: Seq<(Seq<char>, T)>, f: spec_fn(T) -> U) -> Seq<(Seq<char>, U)> {
    s.map_values(|e: (Seq<char>, T)| (e.0, f(e.1)))
}

proof fn lemma_find_key_map<T, U>(s: Seq<(Seq<char>, T)>, f: spec_fn(T) -> U, k: Seq<char>, i: int)
    ensures
        find_key(map_entries(s, f), k, i) == find_key(s, k, i),
    decreases s.len() - i,
{
    if 0 <= i < s.len() {
        lemma_find_key_map(s, f, k, i + 1);
    }
}

/// Mapping the values commutes with storing, removing and reading, and
/// keeps keys unique.
pub proof fn lemma_map_entries<T, U>(s: Seq<(Seq<char>, T)>, f: spec_fn(T) -> U, k: Seq<char>, v: T)
    ensures
        map_entries(inserted(s, k, v), f) == inserted(map_entries(s, f), k, f(v)),
        map_entries(removed(s, k), f) == removed(map_entries(s, f), k),
        value_of(map_entries(s, f), k) == match value_of(s, k) {
            Some(x) => Some(f(x)),
            None => None,
        },
        keys_unique(s) <==> keys_unique(map_entries(s, f)),
{
    lemma_find_key_map(s, f, k, 0);
    lemma_find_key(s, k, 0);
    match find_key(s, k, 0) {
        Some(i) => {
            assert(map_entries(s.remove(i), f) =~= map_entries(s, f).remove(i));
            assert(map_entries(s.remove(i).push((k, v)), f) =~= map_entries(s, f).remove(i).push(
                (k, f(v)),
            ));
        },
        None => {
            assert(map_entries(s.push((k, v)), f) =~= map_entries(s, f).push((k, f(v))));
        },
    }
    let m = map_entries(s, f);
    if keys_unique(s) {
        assert forall|a: int, b: int| 0 <= a < b < m.len() implies #[trigger] m[a].0 != #[trigger] m[b].0 by {
            assert(m[a].0 == s[a].0 && m[b].0 == s[b].0);
        }
    }
    if keys_unique(m) {
        assert forall|a: int, b: int| 0 <= a < b < s.len() implies #[trigger] s[a].0 != #[trigger] s[b].0 by {
            assert(m[a].0 == s[a].0 && m[b].0 == s[b].0);
        }
    }
}

/// Removing what was removed changes nothing more; storing after removing
/// is storing.
pub proof fn lemma_removed_twice<T>(s: Seq<(Seq<char>, T)>, k: Seq<char>, v: T)
    requires
        keys_unique(s),
    ensures
        removed(removed(s, k), k) == removed(s, k),
        inserted(removed(s, k), k, v) == inserted(s, k, v),
{
    lemma_removed_has_no_key(s, k);
    lemma_find_key(removed(s, k), k, 0);
}

} // verus!
