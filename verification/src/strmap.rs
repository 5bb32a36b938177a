use vstd::prelude::*;

use crate::strutil::str_eq;

verus! {

/// The mapping a key/value list denotes: each key to the value of its
/// latest entry (later entries overwrite earlier ones).
pub open spec fn kv_map(s: Seq<(String, String)>) -> Map<Seq<char>, Seq<char>>
    decreases s.len(),
{
    if s.len() == 0 {
        Map::empty()
    } else {
        kv_map(s.drop_last()).insert(s.last().0@, s.last().1@)
    }
}

pub open spec fn unique_keys(s: Seq<(String, String)>) -> bool {
    forall|i: int, j: int| 0 <= i < j < s.len() ==> s[i].0@ != s[j].0@
}

/// A string-to-string dictionary with overwrite-on-duplicate semantics,
/// used for the metadata of a document.
pub struct StrMap {
    pub list: Vec<(String, String)>,
}

impl View for StrMap {
    type V = Map<Seq<char>, Seq<char>>;

    open spec fn view(&self) -> Map<Seq<char>, Seq<char>> {
        kv_map(self.list@)
    }
}

impl StrMap {
    pub open spec fn wf(self) -> bool {
        unique_keys(self.list@)
    }

    pub fn new() -> (r: StrMap)
        ensures
            r@ == Map::<Seq<char>, Seq<char>>::empty(),
            r.wf(),
    {
        StrMap { list: Vec::new() }
    }

    /// Stores `key -> value`, overwriting any earlier entry with the same key.
    pub fn insert(&mut self, key: String, value: String)
        requires
            old(self).wf(),
        ensures
            final(self).wf(),
            final(self)@ == old(self)@.insert(key@, value@),
    {
        let n = self.list.len();
        let mut i: usize = 0;
        while i < n
            invariant
                i <= n,
                n == self.list@.len(),
                self.list@ == old(self).list@,
                unique_keys(self.list@),
                forall|j: int| 0 <= j < i ==> self.list@[j].0@ != key@,
            decreases n - i,
        {
            if str_eq(self.list[i].0.as_str(), key.as_str()) {
                let ghost pre = self.list@;
                self.list.set(i, (key, value));
                proof {
                    lemma_kv_map_update(pre, i as int, self.list@[i as int]);
                }
                return ;
            }
            i = i + 1;
        }
        let ghost pre = self.list@;
        self.list.push((key, value));
        proof {
            assert(self.list@.drop_last() =~= pre);
            assert forall|a: int, b: int| 0 <= a < b < self.list@.len() implies self.list@[a].0@
                != self.list@[b].0@ by {
                if b < self.list@.len() - 1 {
                    assert(pre[a].0@ != pre[b].0@);
                }
            }
        }
    }

    /// The value stored for `key`, or `None`.
    pub fn get(&self, key: &str) -> (r: Option<String>)
        ensures
            match r {
                Some(v) => self@.contains_key(key@) && self@[key@] == v@,
                None => !self@.contains_key(key@),
            },
    {
        let n = self.list.len();
        let mut i: usize = n;
        while i > 0
            invariant
                i <= n,
                n == self.list@.len(),
                forall|j: int| i <= j < n ==> self.list@[j].0@ != key@,
            decreases i,
        {
            i = i - 1;
            if str_eq(self.list[i].0.as_str(), key) {
                proof {
                    lemma_kv_map_prefix(self.list@, i as int + 1, key@);
                    assert(self.list@.take(i as int + 1).drop_last() =~= self.list@.take(i as int));
                    assert(self.list@.take(i as int + 1).last() == self.list@[i as int]);
                }
                return Some(self.list[i].1.clone());
            }
        }
        proof {
            lemma_kv_map_prefix(self.list@, 0, key@);
            assert(self.list@.take(0) =~= Seq::<(String, String)>::empty());
        }
        None
    }
}

/// When no entry at or after position `i` carries `key`, the denoted map
/// behaves on `key` as the map of the prefix before `i`.
pub proof fn lemma_kv_map_prefix(s: Seq<(String, String)>, i: int, key: Seq<char>)
    requires
        0 <= i <= s.len(),
        forall|j: int| i <= j < s.len() ==> s[j].0@ != key,
    ensures
        kv_map(s).contains_key(key) == kv_map(s.take(i)).contains_key(key),
        kv_map(s).contains_key(key) ==> kv_map(s)[key] == kv_map(s.take(i))[key],
    decreases s.len() - i,
{
    if i == s.len() {
        assert(s.take(i) =~= s);
    } else {
        lemma_kv_map_prefix(s, i + 1, key);
        assert(s.take(i + 1).drop_last() =~= s.take(i));
        assert(s.take(i + 1).last() == s[i]);
    }
}

/// Replacing the entry at `j` by one with the same key denotes the same map
/// as inserting that entry, provided keys are unique.
pub proof fn lemma_kv_map_update(s: Seq<(String, String)>, j: int, kv2: (String, String))
    requires
        unique_keys(s),
        0 <= j < s.len(),
        s[j].0@ == kv2.0@,
    ensures
        kv_map(s.update(j, kv2)) == kv_map(s).insert(kv2.0@, kv2.1@),
    decreases s.len(),
{
    let s2 = s.update(j, kv2);
    if j == s.len() - 1 {
        assert(s2.drop_last() =~= s.drop_last());
        assert(s2.last() == kv2);
        assert(kv_map(s.drop_last()).insert(kv2.0@, kv2.1@) =~= kv_map(s).insert(kv2.0@, kv2.1@));
    } else {
        assert(s2.drop_last() =~= s.drop_last().update(j, kv2));
        assert(s2.last() == s.last());
        lemma_kv_map_update(s.drop_last(), j, kv2);
        assert(s.last().0@ != kv2.0@);
        assert(kv_map(s.drop_last()).insert(kv2.0@, kv2.1@).insert(s.last().0@, s.last().1@)
            =~= kv_map(s).insert(kv2.0@, kv2.1@));
    }
}

} // verus!
