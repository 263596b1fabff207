//! The variables read from a `.env` file: each key once, with its value, or
//! no value where the file gives none.
use vstd::prelude::*;

use crate::text::{chars_eq, chars_of};

verus! {

/// One variable as character sequences: its key and its value, if any.
pub type EntryView = (Seq<char>, Option<Seq<char>>);

/// The view of an optional string.
pub open spec fn opt_str_view(o: Option<String>) -> Option<Seq<char>> {
    match o {
        Some(s) => Some(s@),
        None => None,
    }
}

/// The view of one stored variable.
pub open spec fn entry_view(e: (String, Option<String>)) -> EntryView {
    (e.0@, opt_str_view(e.1))
}

/// No key occurs twice in `s`.
pub open spec fn keys_distinct(s: Seq<EntryView>) -> bool {
    forall|i: int, j: int| 0 <= i < j < s.len() ==> #[trigger] s[i].0 != #[trigger] s[j].0
}

/// The index of the first entry of `s` at or after `i` whose key is `k`, or
/// `s.len()` when there is none.
pub open spec fn find_key_from(s: Seq<EntryView>, k: Seq<char>, i: int) -> int
    decreases s.len() - i,
{
    if i < 0 || i >= s.len() {
        s.len() as int
    } else if s[i].0 == k {
        i
    } else {
        find_key_from(s, k, i + 1)
    }
}

/// The index of the entry of `s` whose key is `k`, or `s.len()` when there is none.
pub open spec fn find_key(s: Seq<EntryView>, k: Seq<char>) -> int {
    find_key_from(s, k, 0)
}

/// `s` has an entry with key `k`.
pub open spec fn has_key(s: Seq<EntryView>, k: Seq<char>) -> bool {
    exists|i: int| 0 <= i < s.len() && #[trigger] s[i].0 == k
}

/// The value stored under `k`: `None` when `k` is absent, `Some(v)` otherwise.
pub open spec fn lookup(s: Seq<EntryView>, k: Seq<char>) -> Option<Option<Seq<char>>> {
    let i = find_key(s, k);
    if i < s.len() {
        Some(s[i].1)
    } else {
        None
    }
}

/// `s` after storing `v` under `k`: the entry of `k` is replaced where it
/// exists, and a new entry is appended where it does not.
pub open spec fn store(s: Seq<EntryView>, k: Seq<char>, v: Option<Seq<char>>) -> Seq<EntryView> {
    let i = find_key(s, k);
    if i < s.len() {
        s.update(i, (k, v))
    } else {
        s.push((k, v))
    }
}

proof fn lemma_find_key_from(s: Seq<EntryView>, k: Seq<char>, i: int)
    requires
        0 <= i <= s.len(),
    ensures
        i <= find_key_from(s, k, i) <= s.len(),
        find_key_from(s, k, i) < s.len() ==> s[find_key_from(s, k, i)].0 == k,
        forall|j: int| i <= j < find_key_from(s, k, i) ==> s[j].0 != k,
    decreases s.len() - i,
{
    if i < s.len() && s[i].0 != k {
        lemma_find_key_from(s, k, i + 1);
    }
}

/// Facts about `find_key`: it is the first index with key `k`, and it is
/// `s.len()` exactly when `k` is absent.
pub proof fn lemma_find_key(s: Seq<EntryView>, k: Seq<char>)
    ensures
        0 <= find_key(s, k) <= s.len(),
        find_key(s, k) < s.len() ==> s[find_key(s, k)].0 == k,
        forall|j: int| 0 <= j < find_key(s, k) ==> s[j].0 != k,
        has_key(s, k) <==> find_key(s, k) < s.len(),
{
    lemma_find_key_from(s, k, 0);
    if has_key(s, k) {
        let w = choose|w: int| 0 <= w < s.len() && #[trigger] s[w].0 == k;
        assert(find_key(s, k) <= w);
    }
}

/// Storing a value keeps the keys distinct; afterwards the key maps to the
/// stored value and every other key keeps its value.
pub proof fn lemma_store(s: Seq<EntryView>, k: Seq<char>, v: Option<Seq<char>>)
    requires
        keys_distinct(s),
    ensures
        keys_distinct(store(s, k, v)),
        lookup(store(s, k, v), k) == Some(v),
        forall|k2: Seq<char>| k2 != k ==> #[trigger] lookup(store(s, k, v), k2) == lookup(s, k2),
        has_key(store(s, k, v), k),
        forall|k2: Seq<char>| #[trigger] has_key(store(s, k, v), k2) <==> (k2 == k || has_key(s, k2)),
{
    let t = store(s, k, v);
    lemma_find_key(s, k);
    lemma_find_key(t, k);
    let i = find_key(s, k);
    if i < s.len() {
        assert forall|a: int, b: int| 0 <= a < b < t.len() implies #[trigger] t[a].0 != #[trigger] t[b].0 by {
            if a == i {
                assert(s[b].0 != s[a].0);
            } else if b == i {
                assert(s[b].0 != s[a].0);
            }
        }
    } else {
        assert forall|a: int, b: int| 0 <= a < b < t.len() implies #[trigger] t[a].0 != #[trigger] t[b].0 by {
            if b == s.len() {
                assert(s[a].0 != k);
            }
        }
    }
    assert(t[find_key(s, k) as int].0 == k);
    assert forall|k2: Seq<char>| k2 != k implies #[trigger] lookup(t, k2) == lookup(s, k2) by {
        lemma_find_key(s, k2);
        lemma_find_key(t, k2);
        let a = find_key(s, k2);
        let b = find_key(t, k2);
        if a < s.len() {
            assert(t[a].0 == k2);
            assert(b <= a);
            if b < a {
                assert(s[b].0 != k2);
                assert(t[b] == s[b]);
            }
        } else {
            if b < t.len() {
                assert(t[b].0 == k2);
                if b < s.len() {
                    assert(t[b] == s[b]);
                }
            }
        }
    }
    assert forall|k2: Seq<char>| #[trigger] has_key(t, k2) <==> (k2 == k || has_key(s, k2)) by {
        lemma_find_key(s, k2);
        lemma_find_key(t, k2);
        if k2 != k {
            assert(lookup(t, k2) == lookup(s, k2));
        }
    }
    if i < s.len() {
        assert(find_key(t, k) <= i);
        assert(find_key(t, k) == i) by {
            if find_key(t, k) < i {
                assert(t[find_key(t, k)] == s[find_key(t, k)]);
            }
        }
    } else {
        assert(find_key(t, k) <= s.len());
        if find_key(t, k) < s.len() {
            assert(t[find_key(t, k)] == s[find_key(t, k)]);
        }
    }
}

/// The variables of a `.env` file, in the order in which their keys first
/// appeared. Each key is stored once.
#[derive(Debug, Clone)]
pub struct EnvMap {
    entries: Vec<(String, Option<String>)>,
}

impl View for EnvMap {
    type V = Seq<EntryView>;

    closed spec fn view(&self) -> Seq<EntryView> {
        self.entries@.map_values(|e: (String, Option<String>)| entry_view(e))
    }
}

impl EnvMap {
    /// The map is well formed: no key is stored twice.
    pub open spec fn wf(&self) -> bool {
        keys_distinct(self@)
    }

    /// An empty map.
    pub fn new() -> (m: EnvMap)
        ensures
            m.wf(),
            m@ == Seq::<EntryView>::empty(),
    {
        let m = EnvMap { entries: Vec::new() };
        assert(m@ =~= Seq::<EntryView>::empty());
        m
    }

    /// The number of variables.
    pub fn len(&self) -> (n: usize)
        ensures
            n == self@.len(),
    {
        self.entries.len()
    }

    /// There are no variables.
    pub fn is_empty(&self) -> (b: bool)
        ensures
            b == (self@.len() == 0),
    {
        self.entries.len() == 0
    }

    /// The index of the variable with key `key`, or `len()` when there is none.
    fn position(&self, key: &str) -> (i: usize)
        ensures
            i == find_key(self@, key@),
    {
        let kc = chars_of(key);
        let n = self.entries.len();
        let mut i: usize = 0;
        while i < n
            invariant
                n == self.entries@.len() == self@.len(),
                kc@ == key@,
                i <= n,
                find_key(self@, key@) == find_key_from(self@, key@, i as int),
            decreases n - i,
        {
            let ec = chars_of(self.entries[i].0.as_str());
            assert(self@[i as int].0 == self.entries@[i as int].0@);
            if chars_eq(ec.as_slice(), kc.as_slice()) {
                return i;
            }
            i = i + 1;
        }
        i
    }

    /// The key and value of the variable at position `i`.
    pub fn entry_at(&self, i: usize) -> (r: (&str, Option<&str>))
        requires
            i < self@.len(),
        ensures
            r.0@ == self@[i as int].0,
            match (r.1, self@[i as int].1) {
                (Some(a), Some(b)) => a@ == b,
                (None, None) => true,
                _ => false,
            },
    {
        let e = &self.entries[i];
        let v = match &e.1 {
            Some(s) => Some(s.as_str()),
            None => None,
        };
        (e.0.as_str(), v)
    }

    /// The value stored under `key`: `None` when the key is absent.
    pub fn get(&self, key: &str) -> (r: Option<&Option<String>>)
        ensures
            match (r, lookup(self@, key@)) {
                (Some(v), Some(w)) => opt_str_view(*v) == w,
                (None, None) => true,
                _ => false,
            },
    {
        let i = self.position(key);
        if i < self.entries.len() {
            Some(&self.entries[i].1)
        } else {
            None
        }
    }

    /// A variable with key `key` is stored.
    pub fn contains_key(&self, key: &str) -> (b: bool)
        ensures
            b == has_key(self@, key@),
    {
        proof {
            lemma_find_key(self@, key@);
        }
        self.position(key) < self.entries.len()
    }

    /// Stores `value` under `key`, replacing the value that the key had.
    pub fn insert(&mut self, key: String, value: Option<String>)
        requires
            old(self).wf(),
        ensures
            final(self).wf(),
            final(self)@ == store(old(self)@, key@, opt_str_view(value)),
    {
        let ghost k = key@;
        let ghost v = opt_str_view(value);
        let i = self.position(key.as_str());
        proof {
            lemma_find_key(self@, k);
            lemma_store(self@, k, v);
        }
        let ghost old_entries = self.entries@;
        if i < self.entries.len() {
            self.entries.set(i, (key, value));
            assert(self@ =~= old_entries.map_values(|e: (String, Option<String>)| entry_view(e)).update(i as int, (k, v)));
        } else {
            self.entries.push((key, value));
            assert(self@ =~= old_entries.map_values(|e: (String, Option<String>)| entry_view(e)).push((k, v)));
        }
    }
}

} // verus!
