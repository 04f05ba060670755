//! A map from document identifiers to the documents loaded under them.
//!
//! Entries are kept in ascending order of their keys, compared character by
//! character, and no key occurs twice: inserting under a key that is already
//! present replaces that entry. Walking the map therefore visits documents in
//! a fixed order that depends only on the keys, which is what keeps findings
//! and the search index in a stable order.

use vstd::prelude::*;

verus! {

// ---------------------------------------------------------------------------
// The order on keys
// ---------------------------------------------------------------------------

/// `a` comes strictly before `b`: lexicographic order by code point.
pub open spec fn key_less(a: Seq<char>, b: Seq<char>) -> bool
    decreases a.len(),
{
    if a.len() == 0 {
        b.len() > 0
    } else if b.len() == 0 {
        false
    } else if a[0] != b[0] {
        a[0] < b[0]
    } else {
        key_less(a.drop_first(), b.drop_first())
    }
}

/// No key comes before itself.
pub proof fn lemma_key_less_irreflexive(a: Seq<char>)
    ensures
        !key_less(a, a),
    decreases a.len(),
{
    if a.len() > 0 {
        lemma_key_less_irreflexive(a.drop_first());
    }
}

/// The order on keys is transitive.
pub proof fn lemma_key_less_transitive(a: Seq<char>, b: Seq<char>, c: Seq<char>)
    requires
        key_less(a, b),
        key_less(b, c),
    ensures
        key_less(a, c),
    decreases a.len(),
{
    if a.len() > 0 && b.len() > 0 && c.len() > 0 {
        if a[0] == b[0] && b[0] == c[0] {
            lemma_key_less_transitive(a.drop_first(), b.drop_first(), c.drop_first());
        }
    }
}

/// Two different keys are ordered one way or the other.
pub proof fn lemma_key_less_total(a: Seq<char>, b: Seq<char>)
    requires
        a != b,
    ensures
        key_less(a, b) || key_less(b, a),
    decreases a.len(),
{
    if a.len() == 0 && b.len() == 0 {
        assert(a =~= b);
    }
    if a.len() > 0 && b.len() > 0 && a[0] == b[0] {
        if a.drop_first() == b.drop_first() {
            assert(a =~= seq![a[0]] + a.drop_first());
            assert(b =~= seq![b[0]] + b.drop_first());
        }
        lemma_key_less_total(a.drop_first(), b.drop_first());
    }
}

/// The order on keys is asymmetric.
pub proof fn lemma_key_less_asymmetric(a: Seq<char>, b: Seq<char>)
    requires
        key_less(a, b),
    ensures
        !key_less(b, a),
{
    if key_less(b, a) {
        lemma_key_less_transitive(a, b, a);
        lemma_key_less_irreflexive(a);
    }
}

/// Compares two keys: negative when `a` comes first, zero when they are equal,
/// positive when `b` comes first.
pub fn compare_keys(a: &str, b: &str) -> (r: i8)
    ensures
        (r < 0) == key_less(a@, b@),
        (r == 0) == (a@ == b@),
        (r > 0) == key_less(b@, a@),
{
    let la = a.unicode_len();
    let lb = b.unicode_len();
    let mut i: usize = 0;
    assert(a@.skip(0) =~= a@);
    assert(b@.skip(0) =~= b@);
    while i < la && i < lb
        invariant
            la == a@.len(),
            lb == b@.len(),
            i <= la,
            i <= lb,
            a@.take(i as int) == b@.take(i as int),
            key_less(a@, b@) == key_less(a@.skip(i as int), b@.skip(i as int)),
            key_less(b@, a@) == key_less(b@.skip(i as int), a@.skip(i as int)),
        decreases la - i,
    {
        let ca = a.get_char(i);
        let cb = b.get_char(i);
        assert(a@.skip(i as int)[0] == ca);
        assert(b@.skip(i as int)[0] == cb);
        if ca != cb {
            assert(a@[i as int] != b@[i as int]);
            if ca < cb {
                return -1;
            } else {
                return 1;
            }
        }
        assert(a@.skip(i as int).drop_first() =~= a@.skip(i + 1));
        assert(b@.skip(i as int).drop_first() =~= b@.skip(i + 1));
        assert(a@.take(i + 1) =~= a@.take(i as int).push(ca));
        assert(b@.take(i + 1) =~= b@.take(i as int).push(cb));
        i = i + 1;
    }
    if la < lb {
        assert(a@.len() != b@.len());
        -1
    } else if lb < la {
        assert(a@.len() != b@.len());
        1
    } else {
        assert(a@ =~= a@.take(i as int));
        assert(b@ =~= b@.take(i as int));
        0
    }
}

// ---------------------------------------------------------------------------
// The map
// ---------------------------------------------------------------------------

/// Documents keyed by identifier; each entry holds the key, the file the
/// document was read from, and the document.
#[derive(Debug)]
pub struct DocMap<T> {
    entries: Vec<(String, (String, T))>,
}

/// Keys in strictly ascending order (hence pairwise distinct).
pub open spec fn keys_ascending<T>(e: Seq<(String, (String, T))>) -> bool {
    forall|i: int, j: int| 0 <= i < j < e.len() ==> key_less(#[trigger] e[i].0@, #[trigger] e[j].0@)
}

/// Whether some entry of `e` has key `k`.
pub open spec fn has_key_in<T>(e: Seq<(String, (String, T))>, k: Seq<char>) -> bool {
    exists|i: int| 0 <= i < e.len() && #[trigger] e[i].0@ == k
}

/// The position of key `k` in `e`, when present.
pub open spec fn position_in<T>(e: Seq<(String, (String, T))>, k: Seq<char>) -> int {
    choose|i: int| 0 <= i < e.len() && #[trigger] e[i].0@ == k
}

/// The (path, document) stored under `k` in `e`, if any.
pub open spec fn lookup_in<T>(e: Seq<(String, (String, T))>, k: Seq<char>) -> Option<(String, T)> {
    if has_key_in(e, k) {
        Some(e[position_in(e, k)].1)
    } else {
        None
    }
}

/// With ascending keys, entry `i` is the one found under its key.
pub proof fn lemma_lookup_at<T>(e: Seq<(String, (String, T))>, i: int)
    requires
        keys_ascending(e),
        0 <= i < e.len(),
    ensures
        has_key_in(e, e[i].0@),
        position_in(e, e[i].0@) == i,
        lookup_in(e, e[i].0@) == Some(e[i].1),
{
    let k = e[i].0@;
    assert(has_key_in(e, k));
    let p = position_in(e, k);
    if p < i {
        lemma_key_less_irreflexive(k);
    } else if p > i {
        lemma_key_less_irreflexive(k);
    }
}

impl<T> DocMap<T> {
    /// The entries, in ascending key order.
    pub closed spec fn entries(&self) -> Seq<(String, (String, T))> {
        self.entries@
    }

    /// Keys ascend.
    #[verifier::type_invariant]
    pub closed spec fn ascending(&self) -> bool {
        keys_ascending(self.entries@)
    }

    /// Number of entries.
    pub open spec fn size(&self) -> nat {
        self.entries().len()
    }

    /// Key of entry `i`.
    pub open spec fn key_at(&self, i: int) -> Seq<char> {
        self.entries()[i].0@
    }

    /// File path of entry `i`.
    pub open spec fn path_at(&self, i: int) -> Seq<char> {
        self.entries()[i].1.0@
    }

    /// Document of entry `i`.
    pub open spec fn doc_at(&self, i: int) -> T {
        self.entries()[i].1.1
    }

    /// Whether some entry has key `k`.
    pub open spec fn has_key(&self, k: Seq<char>) -> bool {
        has_key_in(self.entries(), k)
    }

    /// The position of key `k`, when present.
    pub open spec fn position(&self, k: Seq<char>) -> int {
        position_in(self.entries(), k)
    }

    /// The (path, document) stored under `k`, if any.
    pub open spec fn lookup(&self, k: Seq<char>) -> Option<(String, T)> {
        lookup_in(self.entries(), k)
    }

    /// Keys ascend in every map.
    pub proof fn lemma_ascending(&self)
        requires
            self.ascending(),
        ensures
            keys_ascending(self.entries()),
    {
    }

    /// An empty map.
    pub fn new() -> (m: Self)
        ensures
            m.size() == 0,
    {
        DocMap { entries: Vec::new() }
    }

    /// Number of entries.
    pub fn len(&self) -> (n: usize)
        ensures
            n == self.size(),
    {
        self.entries.len()
    }

    /// Whether the map is empty.
    pub fn is_empty(&self) -> (b: bool)
        ensures
            b == (self.size() == 0),
    {
        self.entries.len() == 0
    }

    /// The key of entry `i`.
    pub fn key(&self, i: usize) -> (k: &String)
        requires
            i < self.size(),
        ensures
            k@ == self.key_at(i as int),
            *k == self.entries()[i as int].0,
    {
        &self.entries[i].0
    }

    /// The (path, document) of entry `i`.
    pub fn entry(&self, i: usize) -> (v: &(String, T))
        requires
            i < self.size(),
        ensures
            *v == self.entries()[i as int].1,
    {
        &self.entries[i].1
    }

    /// The position of `k`, if present.
    pub fn find(&self, k: &str) -> (r: Option<usize>)
        ensures
            r is None ==> !self.has_key(k@),
            r matches Some(i) ==> i < self.size() && self.key_at(i as int) == k@ && self.position(
                k@,
            ) == i,
    {
        proof {
            use_type_invariant(self);
        }
        let n = self.entries.len();
        let mut i: usize = 0;
        while i < n
            invariant
                n == self.size(),
                i <= n,
                self.ascending(),
                forall|j: int| 0 <= j < i ==> #[trigger] self.entries()[j].0@ != k@,
            decreases n - i,
        {
            if compare_keys(self.entries[i].0.as_str(), k) == 0 {
                proof {
                    lemma_lookup_at(self.entries(), i as int);
                }
                return Some(i);
            }
            i = i + 1;
        }
        None
    }

    /// Whether some entry has key `k`.
    pub fn contains_key(&self, k: &str) -> (b: bool)
        ensures
            b == self.has_key(k@),
    {
        self.find(k).is_some()
    }

    /// The (path, document) stored under `k`.
    pub fn get(&self, k: &str) -> (r: Option<&(String, T)>)
        ensures
            r matches Some(v) ==> self.lookup(k@) == Some(*v),
            r is None ==> self.lookup(k@) is None,
    {
        match self.find(k) {
            Some(i) => Some(&self.entries[i].1),
            None => None,
        }
    }

    /// Stores `value` under `key`, replacing any entry with an equal key.
    pub fn insert(&mut self, key: String, value: (String, T))
        ensures
            final(self).lookup(key@) == Some(value),
            forall|k: Seq<char>| k != key@ ==> #[trigger] final(self).lookup(k) == old(self).lookup(k),
            final(self).size() == old(self).size() + if old(self).has_key(key@) {
                0int
            } else {
                1int
            },
    {
        proof {
            use_type_invariant(&*self);
        }
        let ghost old_entries = self.entries@;
        let ghost kv = key@;
        let n = self.entries.len();
        let mut p: usize = 0;
        while p < n && compare_keys(self.entries[p].0.as_str(), key.as_str()) < 0
            invariant
                n == self.entries@.len(),
                self.entries@ == old_entries,
                key@ == kv,
                p <= n,
                forall|j: int| 0 <= j < p ==> key_less(#[trigger] old_entries[j].0@, kv),
            decreases n - p,
        {
            p = p + 1;
        }
        let found = p < n && compare_keys(self.entries[p].0.as_str(), key.as_str()) == 0;
        let mut entries: Vec<(String, (String, T))> = Vec::new();
        std::mem::swap(&mut entries, &mut self.entries);
        if found {
            let old_entry = entries.remove(p);
            let ghost new_entries = old_entries.update(p as int, (old_entry.0, value));
            entries.insert(p, (old_entry.0, value));
            proof {
                assert(entries@ =~= new_entries);
                assert forall|i: int, j: int| 0 <= i < j < new_entries.len() implies key_less(
                    #[trigger] new_entries[i].0@,
                    #[trigger] new_entries[j].0@,
                ) by {
                    assert(new_entries[i].0 == old_entries[i].0);
                    assert(new_entries[j].0 == old_entries[j].0);
                }
                lemma_lookup_at(new_entries, p as int);
                assert(new_entries[p as int].0@ == kv);
                assert forall|kk: Seq<char>| kk != kv implies #[trigger] lookup_in(new_entries, kk)
                    == lookup_in(old_entries, kk) by {
                    if has_key_in(old_entries, kk) {
                        let i = position_in(old_entries, kk);
                        lemma_lookup_at(old_entries, i);
                        assert(new_entries[i].0@ == kk);
                        lemma_lookup_at(new_entries, i);
                    }
                    if has_key_in(new_entries, kk) {
                        let i = position_in(new_entries, kk);
                        assert(old_entries[i].0@ == kk);
                    }
                }
                assert(has_key_in(old_entries, kv)) by {
                    assert(old_entries[p as int].0@ == kv);
                }
            }
        } else {
            let ghost new_entries = old_entries.insert(p as int, (key, value));
            entries.insert(p, (key, value));
            proof {
                assert(entries@ =~= new_entries);
                if p < n {
                    lemma_key_less_total(old_entries[p as int].0@, kv);
                }
                assert forall|j: int| p < j < n implies key_less(kv, #[trigger] old_entries[j].0@) by {
                    lemma_key_less_transitive(kv, old_entries[p as int].0@, old_entries[j].0@);
                }
                assert forall|i: int, j: int| 0 <= i < j < new_entries.len() implies key_less(
                    #[trigger] new_entries[i].0@,
                    #[trigger] new_entries[j].0@,
                ) by {
                    if j < p {
                        assert(new_entries[i] == old_entries[i]);
                        assert(new_entries[j] == old_entries[j]);
                    } else if j == p {
                        assert(new_entries[i] == old_entries[i]);
                    } else if i < p {
                        assert(new_entries[i] == old_entries[i]);
                        assert(new_entries[j] == old_entries[j - 1]);
                        lemma_key_less_transitive(old_entries[i].0@, kv, old_entries[j - 1].0@);
                    } else if i == p {
                        assert(new_entries[j] == old_entries[j - 1]);
                    } else {
                        assert(new_entries[i] == old_entries[i - 1]);
                        assert(new_entries[j] == old_entries[j - 1]);
                    }
                }
                assert(!has_key_in(old_entries, kv)) by {
                    if has_key_in(old_entries, kv) {
                        let i = position_in(old_entries, kv);
                        if i < p {
                            lemma_key_less_irreflexive(kv);
                        } else if i > p {
                            lemma_key_less_irreflexive(kv);
                        } else {
                            lemma_key_less_irreflexive(kv);
                        }
                    }
                }
                lemma_lookup_at(new_entries, p as int);
                assert forall|kk: Seq<char>| kk != kv implies #[trigger] lookup_in(new_entries, kk)
                    == lookup_in(old_entries, kk) by {
                    if has_key_in(old_entries, kk) {
                        let i = position_in(old_entries, kk);
                        lemma_lookup_at(old_entries, i);
                        if i < p {
                            assert(new_entries[i].0@ == kk);
                            lemma_lookup_at(new_entries, i);
                        } else {
                            assert(new_entries[i + 1].0@ == kk);
                            lemma_lookup_at(new_entries, i + 1);
                        }
                    }
                    if has_key_in(new_entries, kk) {
                        let i = position_in(new_entries, kk);
                        if i < p {
                            assert(old_entries[i].0@ == kk);
                        } else if i > p {
                            assert(old_entries[i - 1].0@ == kk);
                        }
                    }
                }
            }
        }
        self.entries = entries;
    }
}

} // verus!
