//! The storage-engine capability contract and a verified in-memory engine.
//!
//! The protocol and dispatch layers consume storage only through
//! [`KvsEngine`], so interchangeable engines plug in without the protocol
//! layer knowing which one is in use. An engine is modelled as a map from
//! keys to values; scanning is engine-defined, constrained only to return
//! nothing on an empty store.

use vstd::prelude::*;

use crate::error::KvsError;

verus! {

/// The capability contract every storage engine offers: get, set, remove
/// and scan, each specified against the engine's map model.
pub trait KvsEngine: Sized {
    /// The stored contents, as a map from keys to values.
    spec fn model(&self) -> Map<Seq<char>, Seq<char>>;

    /// What a scan with the given pattern returns: engine-defined, beyond
    /// the law that an empty store yields nothing.
    spec fn scan_model(&self, pattern: Seq<char>) -> Seq<Seq<char>>;

    /// Scanning an empty store returns the empty sequence, whatever the
    /// pattern.
    proof fn lemma_scan_model_empty(&self, pattern: Seq<char>)
        requires
            self.model() == Map::<Seq<char>, Seq<char>>::empty(),
        ensures
            self.scan_model(pattern) == Seq::<Seq<char>>::empty(),
    ;

    /// The value stored under `key`, or `None` when the key is absent.
    fn get(&self, key: &String) -> (r: Option<String>)
        ensures
            r.deep_view() == if self.model().contains_key(key@) {
                Some(self.model()[key@])
            } else {
                None::<Seq<char>>
            },
    ;

    /// Stores `value` under `key`, replacing any previous value.
    fn set(&mut self, key: String, value: String)
        ensures
            final(self).model() == old(self).model().insert(key@, value@),
    ;

    /// Removes `key`; fails with [`KvsError::KeyNotFound`] when it is
    /// absent, leaving the store unchanged.
    fn remove(&mut self, key: &String) -> (r: Result<(), KvsError>)
        ensures
            old(self).model().contains_key(key@) ==> r is Ok && final(self).model() == old(
                self,
            ).model().remove(key@),
            !old(self).model().contains_key(key@) ==> (r matches Err(e) && e is KeyNotFound)
                && final(self).model() == old(self).model(),
    ;

    /// The keys the pattern matches, per the engine's scan semantics.
    fn scan(&self, pattern: &String) -> (r: Vec<String>)
        ensures
            r.deep_view() == self.scan_model(pattern@),
    ;
}

/// Whether `pattern` matches `key` under the in-memory engine's rule:
/// the pattern is a prefix of the key.
pub open spec fn prefix_matches(pattern: Seq<char>, key: Seq<char>) -> bool {
    pattern.is_prefix_of(key)
}

/// The keys of the listed entries, in order, that the pattern matches.
pub open spec fn matching_keys(entries: Seq<(String, String)>, pattern: Seq<char>) -> Seq<
    Seq<char>,
>
    decreases entries.len(),
{
    if entries.len() == 0 {
        Seq::<Seq<char>>::empty()
    } else {
        matching_keys(entries.drop_last(), pattern) + if prefix_matches(
            pattern,
            entries.last().0@,
        ) {
            seq![entries.last().0@]
        } else {
            Seq::<Seq<char>>::empty()
        }
    }
}

/// Whether no two entries share a key.
pub open spec fn keys_distinct(entries: Seq<(String, String)>) -> bool {
    forall|i: int, j: int|
        0 <= i < j < entries.len() ==> (#[trigger] entries[i]).0@ != (#[trigger] entries[j]).0@
}

/// Whether some entry holds the given key.
pub open spec fn has_key(entries: Seq<(String, String)>, k: Seq<char>) -> bool {
    exists|i: int| 0 <= i < entries.len() && (#[trigger] entries[i]).0@ == k
}

/// The position of the entry holding the given key.
pub open spec fn index_of_key(entries: Seq<(String, String)>, k: Seq<char>) -> int {
    choose|i: int| 0 <= i < entries.len() && (#[trigger] entries[i]).0@ == k
}

/// The map an entry list denotes.
pub open spec fn entries_model(entries: Seq<(String, String)>) -> Map<Seq<char>, Seq<char>> {
    Map::new(
        |k: Seq<char>| has_key(entries, k),
        |k: Seq<char>| entries[index_of_key(entries, k)].1@,
    )
}

/// A thread-unaware in-memory storage engine: an entry list with pairwise
/// distinct keys, in insertion order. Sharing one store across connections
/// is the caller's concern (reference counting and locking around it).
pub struct MemStore {
    entries: Vec<(String, String)>,
}

impl MemStore {
    /// Well-formedness: no two entries share a key.
    #[verifier::type_invariant]
    pub closed spec fn wf(&self) -> bool {
        keys_distinct(self.entries@)
    }

    /// The entry list behind the store, oldest first.
    pub closed spec fn entries_view(&self) -> Seq<(String, String)> {
        self.entries@
    }

    /// The in-memory engine's contents are exactly what its entry list
    /// denotes.
    pub proof fn lemma_model_rule(&self)
        ensures
            self.model() == entries_model(self.entries_view()),
    {
    }

    /// The in-memory engine's documented scan rule: the keys of the stored
    /// entries, oldest first, that the pattern is a prefix of.
    pub proof fn lemma_scan_rule(&self, pattern: Seq<char>)
        ensures
            self.scan_model(pattern) == matching_keys(self.entries_view(), pattern),
    {
    }

    /// An empty store.
    pub fn new() -> (r: MemStore)
        ensures
            r.model() == Map::<Seq<char>, Seq<char>>::empty(),
            r.entries_view() == Seq::<(String, String)>::empty(),
    {
        let r = MemStore { entries: Vec::new() };
        proof {
            assert(r.model() =~= Map::<Seq<char>, Seq<char>>::empty());
        }
        r
    }
}

/// Equality of two strings, reported over their views.
fn strings_equal(a: &String, b: &String) -> (r: bool)
    ensures
        r == (a@ == b@),
{
    a.eq(b)
}

/// Whether `pattern` is a prefix of `key`, compared character by character.
fn is_prefix(pattern: &String, key: &String) -> (r: bool)
    ensures
        r == pattern@.is_prefix_of(key@),
{
    let plen = pattern.as_str().unicode_len();
    let klen = key.as_str().unicode_len();
    if plen > klen {
        return false;
    }
    let mut i: usize = 0;
    while i < plen
        invariant
            plen == pattern@.len(),
            klen == key@.len(),
            plen <= klen,
            0 <= i <= plen,
            forall|j: int| 0 <= j < i ==> pattern@[j] == key@[j],
        decreases plen - i,
    {
        let pc = pattern.as_str().get_char(i);
        let kc = key.as_str().get_char(i);
        if pc != kc {
            proof {
                assert(key@.subrange(0, plen as int)[i as int] == key@[i as int]);
            }
            return false;
        }
        i = i + 1;
    }
    proof {
        assert(pattern@ =~= key@.subrange(0, plen as int));
    }
    true
}

/// With pairwise distinct keys, the entry holding a key is unique, and
/// `index_of_key` finds it.
proof fn lemma_index_unique(s: Seq<(String, String)>, k: Seq<char>)
    requires
        keys_distinct(s),
        has_key(s, k),
    ensures
        0 <= index_of_key(s, k) < s.len(),
        s[index_of_key(s, k)].0@ == k,
        forall|i: int| 0 <= i < s.len() && (#[trigger] s[i]).0@ == k ==> i == index_of_key(s, k),
{
    let i0 = index_of_key(s, k);
    assert(0 <= i0 < s.len() && s[i0].0@ == k);
    assert forall|i: int| 0 <= i < s.len() && (#[trigger] s[i]).0@ == k implies i == i0 by {
        if i < i0 {
            assert(s[i].0@ != s[i0].0@);
        } else if i0 < i {
            assert(s[i0].0@ != s[i].0@);
        }
    }
}

/// Appending an entry under a fresh key keeps the keys distinct and inserts
/// into the denoted map.
proof fn lemma_model_push(s: Seq<(String, String)>, key: String, value: String)
    requires
        keys_distinct(s),
        !has_key(s, key@),
    ensures
        keys_distinct(s.push((key, value))),
        entries_model(s.push((key, value))) == entries_model(s).insert(key@, value@),
{
    let s2 = s.push((key, value));
    let n = s.len() as int;
    assert(s2[n] == (key, value));
    assert forall|i: int, j: int|
        0 <= i < j < s2.len() implies (#[trigger] s2[i]).0@ != (#[trigger] s2[j]).0@ by {
        if j < n {
            assert(s2[i] == s[i] && s2[j] == s[j]);
        } else {
            assert(s2[i] == s[i]);
            if s[i].0@ == key@ {
                assert(has_key(s, key@));
            }
        }
    }
    assert(keys_distinct(s2));
    assert forall|k: Seq<char>| #[trigger] has_key(s2, k) implies (has_key(s, k) || k
        == key@) by {
        let i = choose|i: int| 0 <= i < s2.len() && (#[trigger] s2[i]).0@ == k;
        if i < n {
            assert(s2[i] == s[i]);
            assert(has_key(s, k));
        }
    }
    assert forall|k: Seq<char>| has_key(s, k) implies #[trigger] has_key(s2, k) by {
        let i = choose|i: int| 0 <= i < s.len() && (#[trigger] s[i]).0@ == k;
        assert(s2[i] == s[i]);
        assert(s2[i].0@ == k);
    }
    assert(has_key(s2, key@)) by {
        assert(s2[n].0@ == key@);
    }
    assert forall|k: Seq<char>| #[trigger] has_key(s2, k) implies entries_model(s2)[k]
        == entries_model(s).insert(key@, value@)[k] by {
        lemma_index_unique(s2, k);
        let i2 = index_of_key(s2, k);
        if k == key@ {
            assert(s2[n].0@ == k);
            assert(i2 == n);
        } else {
            assert(has_key(s, k));
            lemma_index_unique(s, k);
            let i1 = index_of_key(s, k);
            assert(s2[i1] == s[i1]);
            assert(s2[i1].0@ == k);
            assert(i1 == i2);
        }
    }
    assert(entries_model(s2) =~= entries_model(s).insert(key@, value@));
}

/// Removing the entry at one position keeps the keys distinct and removes
/// its key from the denoted map.
proof fn lemma_model_remove(s: Seq<(String, String)>, at: int)
    requires
        keys_distinct(s),
        0 <= at < s.len(),
    ensures
        keys_distinct(s.remove(at)),
        entries_model(s.remove(at)) == entries_model(s).remove(s[at].0@),
{
    let s2 = s.remove(at);
    let n = s.len() as int;
    let k0 = s[at].0@;
    s.remove_ensures(at);
    assert forall|i: int, j: int|
        0 <= i < j < s2.len() implies (#[trigger] s2[i]).0@ != (#[trigger] s2[j]).0@ by {
        let i1: int = if i < at {
            i
        } else {
            i + 1
        };
        let j1: int = if j < at {
            j
        } else {
            j + 1
        };
        assert(s2[i] == s[i1] && s2[j] == s[j1]);
        assert(s[i1].0@ != s[j1].0@);
    }
    assert(keys_distinct(s2));
    assert forall|k: Seq<char>| #[trigger] has_key(s2, k) implies (has_key(s, k) && k != k0) by {
        let i = choose|i: int| 0 <= i < s2.len() && (#[trigger] s2[i]).0@ == k;
        let i1: int = if i < at {
            i
        } else {
            i + 1
        };
        assert(s2[i] == s[i1]);
        assert(s[i1].0@ == k);
        if i1 != at {
            if i1 < at {
                assert(s[i1].0@ != s[at].0@);
            } else {
                assert(s[at].0@ != s[i1].0@);
            }
        }
    }
    assert forall|k: Seq<char>| has_key(s, k) && k != k0 implies #[trigger] has_key(s2, k) by {
        let i = choose|i: int| 0 <= i < s.len() && (#[trigger] s[i]).0@ == k;
        if i < at {
            assert(s2[i] == s[i]);
            assert(s2[i].0@ == k);
        } else {
            assert(i != at);
            assert(s2[i - 1] == s[i]);
            assert(s2[i - 1].0@ == k);
        }
    }
    assert forall|k: Seq<char>| #[trigger] has_key(s2, k) implies entries_model(s2)[k]
        == entries_model(s)[k] by {
        lemma_index_unique(s2, k);
        let i2 = index_of_key(s2, k);
        let i1: int = if i2 < at {
            i2
        } else {
            i2 + 1
        };
        assert(s2[i2] == s[i1]);
        assert(s[i1].0@ == k);
        assert(has_key(s, k));
        lemma_index_unique(s, k);
        assert(i1 == index_of_key(s, k));
    }
    assert(entries_model(s2) =~= entries_model(s).remove(k0));
}

impl MemStore {
    /// The position of the entry holding `key`, or `None` when no entry
    /// does.
    fn find_index(&self, key: &String) -> (r: Option<usize>)
        ensures
            match r {
                Some(i) => 0 <= i < self.entries_view().len() && self.entries_view()[
                    i as int
                ].0@ == key@,
                None => !has_key(self.entries_view(), key@),
            },
    {
        let n = self.entries.len();
        let mut i: usize = 0;
        while i < n
            invariant
                n == self.entries@.len(),
                0 <= i <= n,
                forall|j: int| 0 <= j < i ==> (#[trigger] self.entries@[j]).0@ != key@,
            decreases n - i,
        {
            if strings_equal(&self.entries[i].0, key) {
                return Some(i);
            }
            i = i + 1;
        }
        None
    }
}

impl KvsEngine for MemStore {
    closed spec fn model(&self) -> Map<Seq<char>, Seq<char>> {
        entries_model(self.entries@)
    }

    closed spec fn scan_model(&self, pattern: Seq<char>) -> Seq<Seq<char>> {
        matching_keys(self.entries@, pattern)
    }

    proof fn lemma_scan_model_empty(&self, pattern: Seq<char>) {
        if self.entries@.len() > 0 {
            let k = self.entries@[0].0@;
            assert(has_key(self.entries@, k));
            assert(self.model().dom().contains(k));
        }
        assert(self.entries@.len() == 0);
    }

    fn get(&self, key: &String) -> (r: Option<String>) {
        proof {
            use_type_invariant(&*self);
        }
        match self.find_index(key) {
            Some(i) => {
                let v = self.entries[i].1.clone();
                proof {
                    assert(has_key(self.entries@, key@));
                    lemma_index_unique(self.entries@, key@);
                    assert(index_of_key(self.entries@, key@) == i as int);
                }
                Some(v)
            },
            None => {
                proof {
                    assert(!self.model().contains_key(key@));
                }
                None
            },
        }
    }

    fn set(&mut self, key: String, value: String) {
        proof {
            use_type_invariant(&*self);
        }
        let ghost s0 = self.entries@;
        let found = self.find_index(&key);
        let mut tmp = MemStore { entries: Vec::new() };
        core::mem::swap(self, &mut tmp);
        let MemStore { entries: mut es } = tmp;
        match found {
            Some(i) => {
                es.remove(i);
                proof {
                    lemma_model_remove(s0, i as int);
                    assert(!has_key(es@, key@)) by {
                        if has_key(es@, key@) {
                            assert(entries_model(es@).dom().contains(key@));
                        }
                    }
                    lemma_model_push(es@, key, value);
                }
                es.push((key, value));
                proof {
                    assert(entries_model(s0).remove(key@).insert(key@, value@) =~= entries_model(
                        s0,
                    ).insert(key@, value@));
                }
            },
            None => {
                proof {
                    lemma_model_push(es@, key, value);
                }
                es.push((key, value));
            },
        }
        *self = MemStore { entries: es };
    }

    fn remove(&mut self, key: &String) -> (r: Result<(), KvsError>) {
        proof {
            use_type_invariant(&*self);
        }
        let ghost s0 = self.entries@;
        let found = self.find_index(key);
        match found {
            Some(i) => {
                let mut tmp = MemStore { entries: Vec::new() };
                core::mem::swap(self, &mut tmp);
                let MemStore { entries: mut es } = tmp;
                proof {
                    assert(has_key(s0, key@));
                    lemma_model_remove(s0, i as int);
                }
                es.remove(i);
                *self = MemStore { entries: es };
                Ok(())
            },
            None => {
                proof {
                    assert(!self.model().contains_key(key@));
                }
                Err(KvsError::KeyNotFound)
            },
        }
    }

    fn scan(&self, pattern: &String) -> (r: Vec<String>) {
        let n = self.entries.len();
        let mut out: Vec<String> = Vec::new();
        let mut i: usize = 0;
        while i < n
            invariant
                n == self.entries@.len(),
                0 <= i <= n,
                out.deep_view() == matching_keys(self.entries@.take(i as int), pattern@),
            decreases n - i,
        {
            let ghost before = out.deep_view();
            let matched = is_prefix(pattern, &self.entries[i].0);
            if matched {
                let k = self.entries[i].0.clone();
                out.push(k);
                proof {
                    assert(out.deep_view() =~= before.push(self.entries@[i as int].0@));
                }
            }
            proof {
                let t1 = self.entries@.take(i + 1);
                assert(t1.drop_last() =~= self.entries@.take(i as int));
                assert(t1.last() == self.entries@[i as int]);
                if matched {
                    assert(before + seq![self.entries@[i as int].0@] =~= before.push(
                        self.entries@[i as int].0@,
                    ));
                } else {
                    assert(before + Seq::<Seq<char>>::empty() =~= before);
                }
            }
            i = i + 1;
        }
        proof {
            assert(self.entries@.take(n as int) =~= self.entries@);
        }
        out
    }
}

} // verus!
