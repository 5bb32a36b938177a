use vstd::prelude::*;

use crate::strutil::str_eq;

verus! {

/// One resource of the package: an identifier, the resolved location of
/// the bytes, and their media type.
pub struct Resource {
    pub id: String,
    pub path: String,
    pub mime: String,
}

/// The mapping a resource list denotes: each identifier to the location and
/// media type of its latest entry (later entries overwrite earlier ones).
pub open spec fn res_map(s: Seq<Resource>) -> Map<Seq<char>, (Seq<char>, Seq<char>)>
    decreases s.len(),
{
    if s.len() == 0 {
        Map::empty()
    } else {
        res_map(s.drop_last()).insert(s.last().id@, (s.last().path@, s.last().mime@))
    }
}

/// The media type of the first resource stored at `path`, if any.
pub open spec fn path_mime(s: Seq<Resource>, path: Seq<char>) -> Option<Seq<char>>
    decreases s.len(),
{
    if s.len() == 0 {
        None
    } else if s[0].path@ == path {
        Some(s[0].mime@)
    } else {
        path_mime(s.drop_first(), path)
    }
}

pub open spec fn unique_ids(s: Seq<Resource>) -> bool {
    forall|i: int, j: int| 0 <= i < j < s.len() ==> s[i].id@ != s[j].id@
}

/// The resource table: identifier to (location, media type), with
/// later insertions under the same identifier overwriting earlier ones.
pub struct ResTable {
    pub list: Vec<Resource>,
}

impl View for ResTable {
    type V = Map<Seq<char>, (Seq<char>, Seq<char>)>;

    open spec fn view(&self) -> Map<Seq<char>, (Seq<char>, Seq<char>)> {
        res_map(self.list@)
    }
}

impl ResTable {
    pub open spec fn wf(self) -> bool {
        unique_ids(self.list@)
    }

    pub fn new() -> (r: ResTable)
        ensures
            r@ == Map::<Seq<char>, (Seq<char>, Seq<char>)>::empty(),
            r.wf(),
            r.list@.len() == 0,
    {
        ResTable { list: Vec::new() }
    }

    /// Stores `id -> (path, mime)`, overwriting any earlier entry with the
    /// same identifier.
    pub fn insert(&mut self, id: String, path: String, mime: String)
        requires
            old(self).wf(),
        ensures
            final(self).wf(),
            final(self)@ == old(self)@.insert(id@, (path@, mime@)),
    {
        let n = self.list.len();
        let mut i: usize = 0;
        while i < n
            invariant
                i <= n,
                n == self.list@.len(),
                self.list@ == old(self).list@,
                unique_ids(self.list@),
                forall|j: int| 0 <= j < i ==> self.list@[j].id@ != id@,
            decreases n - i,
        {
            if str_eq(self.list[i].id.as_str(), id.as_str()) {
                let ghost pre = self.list@;
                self.list.set(i, Resource { id, path, mime });
                proof {
                    lemma_res_map_update(pre, i as int, self.list@[i as int]);
                }
                return ;
            }
            i = i + 1;
        }
        let ghost pre = self.list@;
        self.list.push(Resource { id, path, mime });
        proof {
            assert(self.list@.drop_last() =~= pre);
            assert forall|a: int, b: int| 0 <= a < b < self.list@.len() implies self.list@[a].id@
                != self.list@[b].id@ by {
                if b < self.list@.len() - 1 {
                    assert(pre[a].id@ != pre[b].id@);
                }
            }
        }
    }

    /// The (location, media type) stored for `id`, or `None`.
    pub fn get(&self, id: &str) -> (r: Option<(String, String)>)
        ensures
            match r {
                Some(pm) => self@.contains_key(id@) && self@[id@] == (pm.0@, pm.1@),
                None => !self@.contains_key(id@),
            },
    {
        let n = self.list.len();
        let mut i: usize = n;
        while i > 0
            invariant
                i <= n,
                n == self.list@.len(),
                forall|j: int| i <= j < n ==> self.list@[j].id@ != id@,
            decreases i,
        {
            i = i - 1;
            if str_eq(self.list[i].id.as_str(), id) {
                proof {
                    lemma_res_map_prefix(self.list@, i as int + 1, id@);
                    assert(self.list@.take(i as int + 1).drop_last() =~= self.list@.take(i as int));
                    assert(self.list@.take(i as int + 1).last() == self.list@[i as int]);
                }
                return Some((self.list[i].path.clone(), self.list[i].mime.clone()));
            }
        }
        proof {
            lemma_res_map_prefix(self.list@, 0, id@);
            assert(self.list@.take(0) =~= Seq::<Resource>::empty());
        }
        None
    }

    /// The media type of the first entry whose location is `path`, or `None`.
    pub fn mime_by_path(&self, path: &str) -> (r: Option<String>)
        ensures
            match r {
                Some(m) => path_mime(self.list@, path@) == Some(m@),
                None => path_mime(self.list@, path@) is None,
            },
    {
        let n = self.list.len();
        let mut i: usize = 0;
        proof {
            assert(self.list@.skip(0) =~= self.list@);
        }
        while i < n
            invariant
                i <= n,
                n == self.list@.len(),
                path_mime(self.list@, path@) == path_mime(self.list@.skip(i as int), path@),
            decreases n - i,
        {
            proof {
                assert(self.list@.skip(i as int)[0] == self.list@[i as int]);
                assert(self.list@.skip(i as int).drop_first() =~= self.list@.skip(i as int + 1));
            }
            if str_eq(self.list[i].path.as_str(), path) {
                return Some(self.list[i].mime.clone());
            }
            i = i + 1;
        }
        proof {
            assert(self.list@.skip(n as int) =~= Seq::<Resource>::empty());
        }
        None
    }
}

/// When no entry at or after position `i` carries `id`, the denoted map
/// behaves on `id` as the map of the prefix before `i`.
pub proof fn lemma_res_map_prefix(s: Seq<Resource>, i: int, id: Seq<char>)
    requires
        0 <= i <= s.len(),
        forall|j: int| i <= j < s.len() ==> s[j].id@ != id,
    ensures
        res_map(s).contains_key(id) == res_map(s.take(i)).contains_key(id),
        res_map(s).contains_key(id) ==> res_map(s)[id] == res_map(s.take(i))[id],
    decreases s.len() - i,
{
    if i == s.len() {
        assert(s.take(i) =~= s);
    } else {
        lemma_res_map_prefix(s, i + 1, id);
        assert(s.take(i + 1).drop_last() =~= s.take(i));
        assert(s.take(i + 1).last() == s[i]);
    }
}

/// Replacing the entry at `j` by one with the same identifier denotes the
/// same map as inserting that entry, provided identifiers are unique.
pub proof fn lemma_res_map_update(s: Seq<Resource>, j: int, r2: Resource)
    requires
        unique_ids(s),
        0 <= j < s.len(),
        s[j].id@ == r2.id@,
    ensures
        res_map(s.update(j, r2)) == res_map(s).insert(r2.id@, (r2.path@, r2.mime@)),
    decreases s.len(),
{
    let s2 = s.update(j, r2);
    if j == s.len() - 1 {
        assert(s2.drop_last() =~= s.drop_last());
        assert(s2.last() == r2);
        assert(res_map(s.drop_last()).insert(r2.id@, (r2.path@, r2.mime@)) =~= res_map(s).insert(
            r2.id@,
            (r2.path@, r2.mime@),
        ));
    } else {
        assert(s2.drop_last() =~= s.drop_last().update(j, r2));
        assert(s2.last() == s.last());
        lemma_res_map_update(s.drop_last(), j, r2);
        assert(s.last().id@ != r2.id@);
        assert(res_map(s.drop_last()).insert(r2.id@, (r2.path@, r2.mime@)).insert(
            s.last().id@,
            (s.last().path@, s.last().mime@),
        ) =~= res_map(s).insert(r2.id@, (r2.path@, r2.mime@)));
    }
}

/// Each entry of a table with unique identifiers is what the denoted map
/// stores for its identifier.
pub proof fn lemma_res_map_index(s: Seq<Resource>, i: int)
    requires
        unique_ids(s),
        0 <= i < s.len(),
    ensures
        res_map(s).contains_key(s[i].id@),
        res_map(s)[s[i].id@] == (s[i].path@, s[i].mime@),
{
    lemma_res_map_prefix(s, i + 1, s[i].id@);
    assert(s.take(i + 1).drop_last() =~= s.take(i));
    assert(s.take(i + 1).last() == s[i]);
}

/// Every identifier the denoted map stores names some entry of the list.
pub proof fn lemma_res_map_contains(s: Seq<Resource>, id: Seq<char>)
    requires
        res_map(s).contains_key(id),
    ensures
        exists|i: int| 0 <= i < s.len() && s[i].id@ == id,
    decreases s.len(),
{
    if s.len() > 0 {
        if s.last().id@ == id {
            assert(s[s.len() - 1].id@ == id);
        } else {
            lemma_res_map_contains(s.drop_last(), id);
            let i = choose|i: int| 0 <= i < s.drop_last().len() && s.drop_last()[i].id@ == id;
            assert(s[i].id@ == id);
        }
    }
}

/// The id lookup and the path lookup agree: when the table maps `id` to
/// `(path, mime)` and every resource stored at that location carries the
/// same media type, looking the location up yields that media type. (With
/// two identifiers stored at one location under different media types, the
/// path lookup can only return one of them, so the premise is needed.)
pub proof fn lemma_mime_lookups_agree(t: ResTable, id: Seq<char>, path: Seq<char>, mime: Seq<char>)
    requires
        t.wf(),
        t@.contains_key(id),
        t@[id] == (path, mime),
        forall|k: Seq<char>| #[trigger] t@.contains_key(k) && t@[k].0 == path ==> t@[k].1 == mime,
    ensures
        path_mime(t.list@, path) == Some(mime),
{
    lemma_res_map_contains(t.list@, id);
    let i = choose|i: int| 0 <= i < t.list@.len() && t.list@[i].id@ == id;
    lemma_res_map_index(t.list@, i);
    lemma_path_mime_agrees(t, path, mime, 0);
    assert(t.list@.skip(0) =~= t.list@);
}

/// Helper for the lookup-agreement law: scanning from position `i`, if some
/// entry at or after `i` is stored at `path`, and every entry at `path`
/// carries `mime`, the scan yields `mime`.
proof fn lemma_path_mime_agrees(t: ResTable, path: Seq<char>, mime: Seq<char>, i: int)
    requires
        t.wf(),
        0 <= i <= t.list@.len(),
        exists|j: int| i <= j < t.list@.len() && #[trigger] t.list@[j].path@ == path,
        forall|k: Seq<char>| #[trigger] t@.contains_key(k) && t@[k].0 == path ==> t@[k].1 == mime,
    ensures
        path_mime(t.list@.skip(i), path) == Some(mime),
    decreases t.list@.len() - i,
{
    let s = t.list@;
    assert(s.skip(i)[0] == s[i]);
    assert(s.skip(i).drop_first() =~= s.skip(i + 1));
    if s[i].path@ == path {
        lemma_res_map_index(s, i);
        assert(t@.contains_key(s[i].id@) && t@[s[i].id@].0 == path);
        assert(s[i].mime@ == mime);
    } else {
        let j = choose|j: int| i <= j < s.len() && #[trigger] s[j].path@ == path;
        assert(i + 1 <= j < s.len() && s[j].path@ == path);
        lemma_path_mime_agrees(t, path, mime, i + 1);
    }
}

} // verus!
