//! The keyspace: byte-string keys mapped to values with optional deadlines,
//! expired lazily; and the configuration table.
use vstd::prelude::*;
use crate::clock::now_millis;

verus! {

/// The model of a stored value: its bytes and its deadline, in milliseconds
/// since the UNIX epoch.
pub struct Stored {
    pub value: Seq<u8>,
    pub expiration: Option<int>,
}

/// A value with an optional absolute deadline.
#[derive(Clone, Debug, PartialEq)]
pub struct ValueType {
    pub value: Vec<u8>,
    pub expiration: Option<u64>,
}

impl View for ValueType {
    type V = Stored;

    open spec fn view(&self) -> Stored {
        Stored {
            value: self.value@,
            expiration: match self.expiration {
                Some(d) => Some(d as int),
                None => None,
            },
        }
    }
}

/// Whether a value with this model is past its deadline at time `now`.
pub open spec fn expired(v: Stored, now: int) -> bool {
    match v.expiration {
        Some(d) => now > d,
        None => false,
    }
}

fn copy_bytes(s: &[u8]) -> (r: Vec<u8>)
    ensures
        r@ == s@,
{
    vstd::slice::slice_to_vec(s)
}

impl ValueType {
    /// A value that never expires.
    pub fn new(value: Vec<u8>) -> (r: Self)
        ensures
            r@ == (Stored { value: value@, expiration: None }),
    {
        ValueType { value, expiration: None }
    }

    /// A value that expires `seconds` seconds after the UNIX epoch.
    pub fn new_from_seconds(value: Vec<u8>, seconds: u32) -> (r: Self)
        ensures
            r@ == (Stored { value: value@, expiration: Some(seconds * 1000) }),
    {
        ValueType { value, expiration: Some(seconds as u64 * 1000) }
    }

    /// A value that expires `millis` milliseconds after the UNIX epoch.
    pub fn new_from_millis(value: Vec<u8>, millis: u64) -> (r: Self)
        ensures
            r@ == (Stored { value: value@, expiration: Some(millis as int) }),
    {
        ValueType { value, expiration: Some(millis) }
    }

    /// A value with the given deadline, if any.
    pub fn with_expiration(value: Vec<u8>, expiration: Option<u64>) -> (r: Self)
        ensures
            r.value@ == value@,
            r.expiration == expiration,
    {
        ValueType { value, expiration }
    }

    pub fn value(&self) -> (r: &Vec<u8>)
        ensures
            r@ == self@.value,
    {
        &self.value
    }

    pub fn expiration(&self) -> (r: Option<u64>)
        ensures
            r == self.expiration,
            self@.expiration == match r {
                Some(d) => Some(d as int),
                None => None,
            },
    {
        self.expiration
    }

    /// Whether the deadline has passed at time `now`.
    pub fn is_expired_at(&self, now: u64) -> (r: bool)
        ensures
            r == expired(self@, now as int),
    {
        match self.expiration {
            Some(d) => now > d,
            None => false,
        }
    }

    /// Whether the deadline has passed, by the wall clock.
    pub fn is_expired(&self) -> (r: bool)
        ensures
            exists|now: u64| r == #[trigger] expired(self@, now as int),
            self.expiration is None ==> !r,
    {
        let now = now_millis();
        let r = self.is_expired_at(now);
        assert(r == expired(self@, now as int));
        r
    }

    pub fn duplicate(&self) -> (r: Self)
        ensures
            r@ == self@,
    {
        ValueType { value: copy_bytes(self.value.as_slice()), expiration: self.expiration }
    }
}

/// Whether no key occurs twice in `s`.
pub open spec fn unique_keys<V>(s: Seq<(Seq<u8>, V)>) -> bool {
    forall|i: int, j: int| 0 <= i < s.len() && 0 <= j < s.len() && i != j ==> #[trigger] s[i].0 != #[trigger] s[j].0
}

pub open spec fn has_key<V>(s: Seq<(Seq<u8>, V)>, k: Seq<u8>) -> bool {
    exists|i: int| 0 <= i < s.len() && #[trigger] s[i].0 == k
}

/// The position of key `k` in `s`, or -1.
pub open spec fn key_index<V>(s: Seq<(Seq<u8>, V)>, k: Seq<u8>) -> int {
    if has_key(s, k) {
        choose|i: int| 0 <= i < s.len() && #[trigger] s[i].0 == k
    } else {
        -1
    }
}

/// The map that a list of entries with unique keys stands for.
pub open spec fn entries_map<V>(s: Seq<(Seq<u8>, V)>) -> Map<Seq<u8>, V> {
    Map::new(|k: Seq<u8>| has_key(s, k), |k: Seq<u8>| s[key_index(s, k)].1)
}

/// `s` with key `k` bound to `v`: in place where `k` is present, else at
/// the end.
pub open spec fn entries_insert<V>(s: Seq<(Seq<u8>, V)>, k: Seq<u8>, v: V) -> Seq<(Seq<u8>, V)> {
    if has_key(s, k) {
        s.update(key_index(s, k), (k, v))
    } else {
        s.push((k, v))
    }
}

/// `s` without key `k`; the other entries keep their order.
pub open spec fn entries_remove<V>(s: Seq<(Seq<u8>, V)>, k: Seq<u8>) -> Seq<(Seq<u8>, V)> {
    if has_key(s, k) {
        s.remove(key_index(s, k))
    } else {
        s
    }
}

pub open spec fn entry_keys<V>(s: Seq<(Seq<u8>, V)>) -> Seq<Seq<u8>> {
    Seq::new(s.len(), |i: int| s[i].0)
}

pub proof fn lemma_key_index<V>(s: Seq<(Seq<u8>, V)>, i: int)
    requires
        unique_keys(s),
        0 <= i < s.len(),
    ensures
        key_index(s, s[i].0) == i,
        has_key(s, s[i].0),
{
    assert(has_key(s, s[i].0));
}

pub proof fn lemma_insert_unique<V>(s: Seq<(Seq<u8>, V)>, k: Seq<u8>, v: V)
    requires
        unique_keys(s),
    ensures
        unique_keys(entries_insert(s, k, v)),
        has_key(entries_insert(s, k, v), k),
        entries_insert(s, k, v)[key_index(entries_insert(s, k, v), k)] == (k, v),
        entries_map(entries_insert(s, k, v)) == entries_map(s).insert(k, v),
{
    let t = entries_insert(s, k, v);
    let pos = if has_key(s, k) { key_index(s, k) } else { s.len() as int };
    assert(t[pos] == (k, v));
    assert(unique_keys(t)) by {
        assert forall|i: int, j: int| 0 <= i < t.len() && 0 <= j < t.len() && i != j implies #[trigger] t[i].0 != #[trigger] t[j].0 by {
            if i != pos && j != pos {
                assert(t[i] == s[i] && t[j] == s[j]);
            } else if i == pos {
                assert(t[j] == s[j]);
                if !has_key(s, k) {
                    assert(s[j].0 != k);
                }
            } else {
                assert(t[i] == s[i]);
                if !has_key(s, k) {
                    assert(s[i].0 != k);
                }
            }
        }
    }
    lemma_key_index(t, pos);
    assert(entries_map(t) =~= entries_map(s).insert(k, v)) by {
        assert forall|q: Seq<u8>| #[trigger] has_key(t, q) == (has_key(s, q) || q == k) by {
            if has_key(s, q) {
                let i = choose|i: int| 0 <= i < s.len() && #[trigger] s[i].0 == q;
                if i != pos {
                    assert(t[i] == s[i]);
                }
            }
            if has_key(t, q) {
                let i = choose|i: int| 0 <= i < t.len() && #[trigger] t[i].0 == q;
                if i != pos {
                    assert(t[i] == s[i]);
                }
            }
        }
        assert forall|q: Seq<u8>| has_key(t, q) && q != k implies entries_map(t)[q] == entries_map(s)[q] by {
            let i = key_index(t, q);
            assert(t[i].0 == q);
            assert(i != pos);
            assert(t[i] == s[i]);
            lemma_key_index(s, i);
        }
    }
}

pub proof fn lemma_remove_unique<V>(s: Seq<(Seq<u8>, V)>, k: Seq<u8>)
    requires
        unique_keys(s),
    ensures
        unique_keys(entries_remove(s, k)),
        !has_key(entries_remove(s, k), k),
        entries_map(entries_remove(s, k)) == entries_map(s).remove(k),
{
    let t = entries_remove(s, k);
    if has_key(s, k) {
        let pos = key_index(s, k);
        assert(forall|i: int| 0 <= i < pos ==> t[i] == s[i]);
        assert(forall|i: int| pos <= i < t.len() ==> t[i] == s[i + 1]);
        assert(unique_keys(t)) by {
            assert forall|i: int, j: int| 0 <= i < t.len() && 0 <= j < t.len() && i != j implies #[trigger] t[i].0 != #[trigger] t[j].0 by {
                let a = if i < pos { i } else { i + 1 };
                let b = if j < pos { j } else { j + 1 };
                assert(t[i] == s[a] && t[j] == s[b]);
            }
        }
        assert(!has_key(t, k)) by {
            if has_key(t, k) {
                let i = choose|i: int| 0 <= i < t.len() && #[trigger] t[i].0 == k;
                let a = if i < pos { i } else { i + 1 };
                assert(t[i] == s[a]);
            }
        }
        assert(entries_map(t) =~= entries_map(s).remove(k)) by {
            assert forall|q: Seq<u8>| #[trigger] has_key(t, q) == (has_key(s, q) && q != k) by {
                if has_key(s, q) && q != k {
                    let i = choose|i: int| 0 <= i < s.len() && #[trigger] s[i].0 == q;
                    assert(i != pos);
                    let a = if i < pos { i } else { i - 1 };
                    assert(t[a] == s[i]);
                }
                if has_key(t, q) {
                    let i = choose|i: int| 0 <= i < t.len() && #[trigger] t[i].0 == q;
                    let a = if i < pos { i } else { i + 1 };
                    assert(t[i] == s[a]);
                }
            }
            assert forall|q: Seq<u8>| has_key(t, q) implies entries_map(t)[q] == entries_map(s)[q] by {
                let i = key_index(t, q);
                let a = if i < pos { i } else { i + 1 };
                assert(t[i] == s[a]);
                lemma_key_index(s, a);
            }
        }
    } else {
        assert(entries_map(t) =~= entries_map(s).remove(k));
    }
}


/// The keyspace: each key at most once, in the order of first insertion.
#[derive(Debug, PartialEq)]
pub struct DataStore {
    entries: Vec<(Vec<u8>, ValueType)>,
}

impl View for DataStore {
    type V = Seq<(Seq<u8>, Stored)>;

    closed spec fn view(&self) -> Seq<(Seq<u8>, Stored)> {
        Seq::new(self.entries@.len(), |i: int| (self.entries@[i].0@, self.entries@[i].1@))
    }
}

/// The value that a read of `k` at time `now` sees, and the entries after
/// that read: an expired entry is removed and reads as absent.
pub open spec fn store_get(s: Seq<(Seq<u8>, Stored)>, k: Seq<u8>, now: int) -> (Option<Stored>, Seq<(Seq<u8>, Stored)>) {
    if !has_key(s, k) {
        (None, s)
    } else if expired(s[key_index(s, k)].1, now) {
        (None, entries_remove(s, k))
    } else {
        (Some(s[key_index(s, k)].1), s)
    }
}

impl DataStore {
    pub open spec fn wf(&self) -> bool {
        unique_keys(self@)
    }

    pub fn new() -> (r: Self)
        ensures
            r.wf(),
            r@ == Seq::<(Seq<u8>, Stored)>::empty(),
    {
        let r = DataStore { entries: Vec::new() };
        proof {
            assert(r@ =~= Seq::<(Seq<u8>, Stored)>::empty());
        }
        r
    }

    pub fn len(&self) -> (r: usize)
        ensures
            r == self@.len(),
    {
        self.entries.len()
    }

    fn position_of(&self, key: &[u8]) -> (r: Option<usize>)
        requires
            self.wf(),
        ensures
            match r {
                Some(i) => has_key(self@, key@) && i == key_index(self@, key@) && i < self@.len(),
                None => !has_key(self@, key@),
            },
    {
        let mut i: usize = 0;
        while i < self.entries.len()
            invariant
                0 <= i <= self.entries@.len(),
                self.wf(),
                forall|j: int| 0 <= j < i ==> #[trigger] self@[j].0 != key@,
            decreases self.entries@.len() - i,
        {
            if crate::resp::bytes_equal(self.entries[i].0.as_slice(), key) {
                proof {
                    assert(self@[i as int].0 == key@);
                    lemma_key_index(self@, i as int);
                }
                return Some(i);
            }
            i += 1;
        }
        None
    }

    /// Binds `key` to `value`, replacing any earlier binding.
    pub fn insert(&mut self, key: Vec<u8>, value: ValueType)
        requires
            old(self).wf(),
        ensures
            final(self).wf(),
            final(self)@ == entries_insert(old(self)@, key@, value@),
    {
        proof {
            lemma_insert_unique(self@, key@, value@);
        }
        let ghost k = key@;
        let ghost v = value@;
        match self.position_of(key.as_slice()) {
            Some(i) => {
                self.entries.set(i, (key, value));
                proof {
                    assert(self@ =~= old(self)@.update(i as int, (k, v)));
                }
            },
            None => {
                self.entries.push((key, value));
                proof {
                    assert(self@ =~= old(self)@.push((k, v)));
                }
            },
        }
    }

    /// Reads `key` at time `now`. An expired entry is removed and reads as
    /// absent.
    pub fn get(&mut self, key: &[u8], now: u64) -> (r: Option<ValueType>)
        requires
            old(self).wf(),
        ensures
            final(self).wf(),
            (match r {
                Some(v) => Some(v@),
                None => None,
            }, final(self)@) == store_get(old(self)@, key@, now as int),
    {
        proof {
            lemma_remove_unique(self@, key@);
        }
        match self.position_of(key) {
            None => None,
            Some(i) => {
                if self.entries[i].1.is_expired_at(now) {
                    self.entries.remove(i);
                    proof {
                        assert(self@ =~= old(self)@.remove(i as int));
                    }
                    None
                } else {
                    Some(self.entries[i].1.duplicate())
                }
            },
        }
    }

    /// Copies of all keys, in the keyspace's order.
    pub fn keys(&self) -> (r: Vec<Vec<u8>>)
        ensures
            r@.len() == self@.len(),
            forall|i: int| 0 <= i < r@.len() ==> #[trigger] r@[i]@ == self@[i].0,
    {
        let mut out: Vec<Vec<u8>> = Vec::new();
        let mut i: usize = 0;
        while i < self.entries.len()
            invariant
                0 <= i <= self.entries@.len(),
                out@.len() == i,
                forall|j: int| 0 <= j < i ==> #[trigger] out@[j]@ == self@[j].0,
            decreases self.entries@.len() - i,
        {
            out.push(copy_bytes(self.entries[i].0.as_slice()));
            i += 1;
        }
        out
    }

    /// Copies of all entries, in the keyspace's order.
    pub fn to_pairs(&self) -> (r: Vec<(Vec<u8>, ValueType)>)
        ensures
            r@.len() == self@.len(),
            forall|i: int| 0 <= i < r@.len() ==> (#[trigger] r@[i]).0@ == self@[i].0 && r@[i].1@ == self@[i].1,
    {
        let mut out: Vec<(Vec<u8>, ValueType)> = Vec::new();
        let mut i: usize = 0;
        while i < self.entries.len()
            invariant
                0 <= i <= self.entries@.len(),
                out@.len() == i,
                forall|j: int| 0 <= j < i ==> (#[trigger] out@[j]).0@ == self@[j].0 && out@[j].1@ == self@[j].1,
            decreases self.entries@.len() - i,
        {
            out.push((copy_bytes(self.entries[i].0.as_slice()), self.entries[i].1.duplicate()));
            i += 1;
        }
        out
    }
}

/// Configuration parameters: names mapped to values, each name at most once.
#[derive(Debug)]
pub struct Config {
    entries: Vec<(Vec<u8>, Vec<u8>)>,
}

impl View for Config {
    type V = Seq<(Seq<u8>, Seq<u8>)>;

    closed spec fn view(&self) -> Seq<(Seq<u8>, Seq<u8>)> {
        Seq::new(self.entries@.len(), |i: int| (self.entries@[i].0@, self.entries@[i].1@))
    }
}

impl Config {
    pub open spec fn wf(&self) -> bool {
        unique_keys(self@)
    }

    pub fn new() -> (r: Self)
        ensures
            r.wf(),
            r@ == Seq::<(Seq<u8>, Seq<u8>)>::empty(),
    {
        let r = Config { entries: Vec::new() };
        proof {
            assert(r@ =~= Seq::<(Seq<u8>, Seq<u8>)>::empty());
        }
        r
    }

    fn position_of(&self, key: &[u8]) -> (r: Option<usize>)
        requires
            self.wf(),
        ensures
            match r {
                Some(i) => has_key(self@, key@) && i == key_index(self@, key@) && i < self@.len(),
                None => !has_key(self@, key@),
            },
    {
        let mut i: usize = 0;
        while i < self.entries.len()
            invariant
                0 <= i <= self.entries@.len(),
                self.wf(),
                forall|j: int| 0 <= j < i ==> #[trigger] self@[j].0 != key@,
            decreases self.entries@.len() - i,
        {
            if crate::resp::bytes_equal(self.entries[i].0.as_slice(), key) {
                proof {
                    assert(self@[i as int].0 == key@);
                    lemma_key_index(self@, i as int);
                }
                return Some(i);
            }
            i += 1;
        }
        None
    }

    /// Binds parameter `key` to `value`, replacing any earlier binding.
    pub fn insert(&mut self, key: Vec<u8>, value: Vec<u8>)
        requires
            old(self).wf(),
        ensures
            final(self).wf(),
            final(self)@ == entries_insert(old(self)@, key@, value@),
    {
        proof {
            lemma_insert_unique(self@, key@, value@);
        }
        let ghost k = key@;
        let ghost v = value@;
        match self.position_of(key.as_slice()) {
            Some(i) => {
                self.entries.set(i, (key, value));
                proof {
                    assert(self@ =~= old(self)@.update(i as int, (k, v)));
                }
            },
            None => {
                self.entries.push((key, value));
                proof {
                    assert(self@ =~= old(self)@.push((k, v)));
                }
            },
        }
    }

    /// The value of parameter `key`.
    pub fn get(&self, key: &[u8]) -> (r: Option<&Vec<u8>>)
        requires
            self.wf(),
        ensures
            match r {
                Some(v) => entries_map(self@).contains_key(key@) && v@ == entries_map(self@)[key@],
                None => !entries_map(self@).contains_key(key@),
            },
    {
        match self.position_of(key) {
            None => None,
            Some(i) => Some(&self.entries[i].1),
        }
    }
}

} // verus!
