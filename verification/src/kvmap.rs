//! A string-to-string map kept as a list of entries where a later entry for
//! a key shadows an earlier one. Its mathematical view is a `Map` from key
//! characters to value characters, which makes merging two maps with a
//! "later wins" rule a plain concatenation of entries.

use vstd::prelude::*;

verus! {

/// The map denoted by a sequence of entries: each entry overwrites the
/// binding of its key left by the entries before it.
pub open spec fn kv_as_map(s: Seq<(String, String)>) -> Map<Seq<char>, Seq<char>>
    decreases s.len(),
{
    if s.len() == 0 {
        Map::empty()
    } else {
        kv_as_map(s.drop_last()).insert(s.last().0@, s.last().1@)
    }
}

/// The binding of `k` in the entry list `s`, if any: the value of the last
/// entry whose key is `k`.
pub open spec fn kv_get(s: Seq<(String, String)>, k: Seq<char>) -> Option<Seq<char>>
    decreases s.len(),
{
    if s.len() == 0 {
        None
    } else if s.last().0@ == k {
        Some(s.last().1@)
    } else {
        kv_get(s.drop_last(), k)
    }
}

/// `kv_get` computes exactly the lookup in `kv_as_map`.
pub proof fn lemma_kv_get_as_map(s: Seq<(String, String)>, k: Seq<char>)
    ensures
        kv_as_map(s).contains_key(k) ==> kv_get(s, k) == Some(kv_as_map(s)[k]),
        !kv_as_map(s).contains_key(k) ==> kv_get(s, k) is None,
    decreases s.len(),
{
    if s.len() > 0 {
        lemma_kv_get_as_map(s.drop_last(), k);
    }
}

/// The map of a concatenation is the union of the maps, the right side
/// winning on shared keys.
pub proof fn lemma_kv_as_map_add(a: Seq<(String, String)>, b: Seq<(String, String)>)
    ensures
        kv_as_map(a + b) == kv_as_map(a).union_prefer_right(kv_as_map(b)),
    decreases b.len(),
{
    if b.len() == 0 {
        assert(a + b =~= a);
        assert(kv_as_map(a).union_prefer_right(Map::empty()) =~= kv_as_map(a));
    } else {
        lemma_kv_as_map_add(a, b.drop_last());
        assert((a + b).drop_last() =~= a + b.drop_last());
        assert((a + b).last() == b.last());
        assert(kv_as_map(a).union_prefer_right(kv_as_map(b.drop_last())).insert(
            b.last().0@,
            b.last().1@,
        ) =~= kv_as_map(a).union_prefer_right(
            kv_as_map(b.drop_last()).insert(b.last().0@, b.last().1@),
        ));
    }
}

/// A string-keyed, string-valued map.
pub struct KvMap {
    entries: Vec<(String, String)>,
}

impl View for KvMap {
    type V = Map<Seq<char>, Seq<char>>;

    closed spec fn view(&self) -> Map<Seq<char>, Seq<char>> {
        kv_as_map(self.entries@)
    }
}

impl KvMap {
    /// The entry list behind the map, in shadowing order.
    pub closed spec fn entry_seq(&self) -> Seq<(String, String)> {
        self.entries@
    }

    pub fn new() -> (r: KvMap)
        ensures
            r@ == Map::<Seq<char>, Seq<char>>::empty(),
            r.entry_seq() == Seq::<(String, String)>::empty(),
    {
        KvMap { entries: Vec::new() }
    }

    /// Binds `key` to `value`, shadowing any earlier binding.
    pub fn insert(&mut self, key: String, value: String)
        ensures
            final(self)@ == old(self)@.insert(key@, value@),
            final(self).entry_seq() == old(self).entry_seq().push((key, value)),
    {
        let ghost before = self.entries@;
        let ghost kv = (key, value);
        self.entries.push((key, value));
        proof {
            assert(self.entries@.drop_last() =~= before);
            assert(self.entries@.last() == kv);
        }
    }

    pub fn contains_key(&self, key: &String) -> (r: bool)
        ensures
            r == self@.contains_key(key@),
    {
        self.get(key).is_some()
    }

    /// The value bound to `key`, if any.
    pub fn get(&self, key: &String) -> (r: Option<&String>)
        ensures
            match r {
                Some(v) => self@.contains_key(key@) && v@ == self@[key@],
                None => !self@.contains_key(key@),
            },
    {
        proof {
            lemma_kv_get_as_map(self.entries@, key@);
            assert(self.entries@.take(self.entries@.len() as int) =~= self.entries@);
        }
        let mut i: usize = self.entries.len();
        while i > 0
            invariant
                i <= self.entries.len(),
                kv_get(self.entries@, key@) == kv_get(self.entries@.take(i as int), key@),
            decreases i,
        {
            i = i - 1;
            proof {
                assert(self.entries@.take(i + 1).drop_last() =~= self.entries@.take(i as int));
                assert(self.entries@.take(i + 1).last() == self.entries@[i as int]);
            }
            if self.entries[i].0 == *key {
                proof {
                    lemma_kv_get_as_map(self.entries@, key@);
                }
                return Some(&self.entries[i].1);
            }
        }
        proof {
            lemma_kv_get_as_map(self.entries@, key@);
            assert(self.entries@.take(0) =~= Seq::<(String, String)>::empty());
        }
        None
    }

    /// True exactly when the map binds no key.
    pub fn is_empty(&self) -> (r: bool)
        ensures
            r == (self@ == Map::<Seq<char>, Seq<char>>::empty()),
    {
        if self.entries.len() == 0 {
            proof {
                assert(self@ =~= Map::<Seq<char>, Seq<char>>::empty());
            }
            true
        } else {
            proof {
                assert(self@.contains_key(self.entries@.last().0@));
                assert(!Map::<Seq<char>, Seq<char>>::empty().contains_key(
                    self.entries@.last().0@,
                ));
            }
            false
        }
    }

    /// Copies every entry of `other` after the entries of `self`, so that
    /// `other`'s bindings win on shared keys.
    pub fn append_all(&mut self, other: &KvMap)
        ensures
            final(self)@ == old(self)@.union_prefer_right(other@),
            final(self).entry_seq() == old(self).entry_seq() + other.entry_seq(),
    {
        let ghost orig = self.entries@;
        proof {
            assert(orig + other.entries@.take(0) =~= orig);
        }
        let mut i: usize = 0;
        while i < other.entries.len()
            invariant
                i <= other.entries.len(),
                self.entries@ == orig + other.entries@.take(i as int),
            decreases other.entries.len() - i,
        {
            let k = other.entries[i].0.clone();
            let v = other.entries[i].1.clone();
            self.entries.push((k, v));
            proof {
                assert(self.entries@ =~= orig + other.entries@.take(i + 1));
            }
            i = i + 1;
        }
        proof {
            assert(other.entries@.take(i as int) =~= other.entries@);
            lemma_kv_as_map_add(orig, other.entries@);
        }
    }

    /// A fresh copy with the same entries.
    pub fn duplicate(&self) -> (r: KvMap)
        ensures
            r@ == self@,
            r.entry_seq() == self.entry_seq(),
    {
        let mut r = KvMap::new();
        r.append_all(self);
        proof {
            assert(Seq::<(String, String)>::empty() + self.entries@ =~= self.entries@);
            assert(Map::<Seq<char>, Seq<char>>::empty().union_prefer_right(self@) =~= self@);
        }
        r
    }

    /// The entries, for callers that walk the map.
    pub fn entries(&self) -> (r: &Vec<(String, String)>)
        ensures
            r@ == self.entry_seq(),
            kv_as_map(r@) == self@,
    {
        &self.entries
    }
}

} // verus!
