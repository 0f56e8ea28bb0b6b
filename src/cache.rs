//! The run's cache of fetched bytes, keyed by cleaned URL.
use vstd::prelude::*;
use crate::text::str_eq;

verus! {

/// What the entries hold for a key: the bytes of the first entry with that key.
pub open spec fn lookup(entries: Seq<(Seq<char>, Seq<u8>)>, key: Seq<char>) -> Option<Seq<u8>>
    decreases entries.len(),
{
    if entries.len() == 0 {
        None
    } else if entries[0].0 == key {
        Some(entries[0].1)
    } else {
        lookup(entries.drop_first(), key)
    }
}

proof fn lemma_lookup_skip(entries: Seq<(Seq<char>, Seq<u8>)>, i: int, key: Seq<char>)
    requires
        0 <= i <= entries.len(),
        forall|j: int| 0 <= j < i ==> (#[trigger] entries[j]).0 != key,
    ensures
        lookup(entries, key) == lookup(entries.subrange(i, entries.len() as int), key),
    decreases i,
{
    if i > 0 {
        let rest = entries.drop_first();
        lemma_lookup_skip(rest, i - 1, key);
        assert(rest.subrange(i - 1, rest.len() as int) =~= entries.subrange(i, entries.len() as int));
    } else {
        assert(entries.subrange(0, entries.len() as int) =~= entries);
    }
}

proof fn lemma_lookup_push(entries: Seq<(Seq<char>, Seq<u8>)>, e: (Seq<char>, Seq<u8>), key: Seq<char>)
    ensures
        lookup(entries.push(e), key) == (if lookup(entries, key) is Some {
            lookup(entries, key)
        } else if e.0 == key {
            Some(e.1)
        } else {
            None
        }),
    decreases entries.len(),
{
    if entries.len() > 0 {
        assert(entries.push(e).drop_first() =~= entries.drop_first().push(e));
        lemma_lookup_push(entries.drop_first(), e, key);
        assert(entries.push(e)[0] == entries[0]);
        assert(lookup(entries.push(e), key) == (if entries[0].0 == key {
            Some(entries[0].1)
        } else {
            lookup(entries.drop_first().push(e), key)
        }));
    } else {
        assert(entries.push(e)[0] == e);
        assert(lookup(entries.push(e).drop_first(), key) is None);
        assert(lookup(entries, key) is None);
        assert(entries.push(e).drop_first() =~= Seq::<(Seq<char>, Seq<u8>)>::empty());
    }
}

proof fn lemma_lookup_update(entries: Seq<(Seq<char>, Seq<u8>)>, i: int, v: Seq<u8>, key: Seq<char>)
    requires
        0 <= i < entries.len(),
        forall|j: int| 0 <= j < i ==> (#[trigger] entries[j]).0 != entries[i].0,
    ensures
        lookup(entries.update(i, (entries[i].0, v)), key) == (if key == entries[i].0 {
            Some(v)
        } else {
            lookup(entries, key)
        }),
    decreases i,
{
    let u = entries.update(i, (entries[i].0, v));
    if i > 0 {
        assert(u.drop_first() =~= entries.drop_first().update(i - 1, (entries[i].0, v)));
        let d = entries.drop_first();
        assert forall|j: int| 0 <= j < i - 1 implies (#[trigger] d[j]).0 != d[i - 1].0 by {
            assert(d[j] == entries[j + 1]);
        }
        lemma_lookup_update(d, i - 1, v, key);
        assert(u[0] == entries[0]);
    } else {
        assert(u.drop_first() =~= entries.drop_first());
    }
}

/// Bytes fetched during a run, by cleaned URL. It only grows.
pub struct Cache {
    entries: Vec<(String, Vec<u8>)>,
}

impl Cache {
    /// The entries as keys and bytes.
    pub closed spec fn view(&self) -> Seq<(Seq<char>, Seq<u8>)> {
        self.entries@.map_values(|e: (String, Vec<u8>)| (e.0@, e.1@))
    }

    /// What the cache holds for a key.
    pub open spec fn get_spec(&self, key: Seq<char>) -> Option<Seq<u8>> {
        lookup(self.view(), key)
    }

    /// An empty cache.
    pub fn new() -> (r: Cache)
        ensures
            forall|k: Seq<char>| r.get_spec(k) is None,
    {
        let r = Cache { entries: Vec::new() };
        assert(r.view() =~= Seq::<(Seq<char>, Seq<u8>)>::empty());
        r
    }

    /// The bytes held for a key, if any.
    pub fn get(&self, key: &str) -> (r: Option<Vec<u8>>)
        ensures
            r is Some <==> self.get_spec(key@) is Some,
            r matches Some(b) ==> self.get_spec(key@) == Some(b@),
    {
        let ghost v = self.view();
        let mut i: usize = 0;
        while i < self.entries.len()
            invariant
                v == self.view(),
                v.len() == self.entries@.len(),
                i <= v.len(),
                forall|j: int| 0 <= j < i ==> (#[trigger] v[j]).0 != key@,
            decreases v.len() - i,
        {
            assert(v[i as int] == (self.entries@[i as int].0@, self.entries@[i as int].1@));
            if str_eq(self.entries[i].0.as_str(), key) {
                proof {
                    lemma_lookup_skip(v, i as int, key@);
                    assert(v.subrange(i as int, v.len() as int)[0] == v[i as int]);
                }
                return Some(self.entries[i].1.clone());
            }
            i = i + 1;
        }
        proof {
            lemma_lookup_skip(v, i as int, key@);
        }
        None
    }

    /// Stores the bytes under the key; every other key keeps what it had.
    pub fn insert(&mut self, key: String, bytes: Vec<u8>)
        ensures
            final(self).get_spec(key@) == Some(bytes@),
            forall|k: Seq<char>| k != key@ ==> final(self).get_spec(k) == old(self).get_spec(k),
    {
        let ghost v = self.view();
        let ghost kv = key@;
        let ghost bv = bytes@;
        let mut i: usize = 0;
        while i < self.entries.len()
            invariant
                v == self.view(),
                v == old(self).view(),
                v.len() == self.entries@.len(),
                kv == key@,
                bv == bytes@,
                i <= v.len(),
                forall|j: int| 0 <= j < i ==> (#[trigger] v[j]).0 != key@,
            decreases v.len() - i,
        {
            assert(v[i as int] == (self.entries@[i as int].0@, self.entries@[i as int].1@));
            if str_eq(self.entries[i].0.as_str(), key.as_str()) {
                let k = self.entries[i].0.clone();
                self.entries.set(i, (k, bytes));
                proof {
                    lemma_lookup_update(v, i as int, bv, kv);
                    assert(self.view() =~= v.update(i as int, (v[i as int].0, bv)));
                    assert forall|k: Seq<char>| k != kv implies self.get_spec(k) == old(self).get_spec(k) by {
                        lemma_lookup_update(v, i as int, bv, k);
                    }
                }
                return;
            }
            i = i + 1;
        }
        self.entries.push((key, bytes));
        proof {
            lemma_lookup_skip(v, v.len() as int, kv);
            assert(v.subrange(v.len() as int, v.len() as int) =~= Seq::<(Seq<char>, Seq<u8>)>::empty());
            assert(self.view() =~= v.push((kv, bv)));
            lemma_lookup_push(v, (kv, bv), kv);
            assert forall|k: Seq<char>| k != kv implies self.get_spec(k) == old(self).get_spec(k) by {
                lemma_lookup_push(v, (kv, bv), k);
            }
        }
    }
}

} // verus!
