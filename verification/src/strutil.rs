use vstd::prelude::*;

verus! {

/// Character-for-character equality of two string slices.
pub fn str_eq(a: &str, b: &str) -> (r: bool)
    ensures
        r == (a@ == b@),
{
    let alen = a.unicode_len();
    let blen = b.unicode_len();
    if alen != blen {
        return false;
    }
    let mut i: usize = 0;
    while i < alen
        invariant
            i <= alen,
            alen == a@.len(),
            alen == b@.len(),
            forall|j: int| 0 <= j < i ==> a@[j] == b@[j],
        decreases alen - i,
    {
        if a.get_char(i) != b.get_char(i) {
            return false;
        }
        i = i + 1;
    }
    proof {
        assert(a@ =~= b@);
    }
    true
}

/// Index of the first separator `/` in `s`, or `s.len()` if there is none.
pub open spec fn sep_idx(s: Seq<char>) -> nat
    decreases s.len(),
{
    if s.len() == 0 {
        0
    } else if s[0] == '/' {
        0
    } else {
        1 + sep_idx(s.drop_first())
    }
}

/// If `s` has no separator before position `m`, and position `m` (when it
/// exists) holds one, then `m` is the first separator position.
pub proof fn lemma_sep_idx_is(s: Seq<char>, m: int)
    requires
        0 <= m <= s.len(),
        forall|j: int| 0 <= j < m ==> s[j] != '/',
        m < s.len() ==> s[m] == '/',
    ensures
        sep_idx(s) == if m < s.len() { m } else { s.len() as int },
    decreases m,
{
    if m == 0 {
    } else {
        assert(s[0] != '/');
        lemma_sep_idx_is(s.drop_first(), m - 1);
    }
}

/// The segments of `s` split on `/`: the separator-free stretches between
/// the separators, in order. Splitting never yields an empty list; empty
/// segments appear around adjacent or outer separators.
pub open spec fn split_path(s: Seq<char>) -> Seq<Seq<char>>
    decreases s.len(),
{
    let k = sep_idx(s);
    if k >= s.len() {
        seq![s]
    } else {
        seq![s.take(k as int)] + split_path(s.skip(k as int + 1))
    }
}

/// The base prefix derived from a package-file path: the second-to-last
/// segment when the split has at least two segments, otherwise the empty
/// segment, with a trailing separator either way. Only one directory level
/// above the package file is kept; deeper nesting is dropped on purpose.
pub open spec fn root_base_of(path: Seq<char>) -> Seq<char> {
    let segs = split_path(path);
    if segs.len() >= 2 {
        segs[segs.len() - 2] + seq!['/']
    } else {
        seq!['/']
    }
}

/// Splits `s` on `/` into its segments.
pub fn split_slash(s: &str) -> (segs: Vec<String>)
    ensures
        segs@.map_values(|t: String| t@) == split_path(s@),
        segs@.len() >= 1,
{
    let n = s.unicode_len();
    let mut segs: Vec<String> = Vec::new();
    let mut start: usize = 0;
    let mut i: usize = 0;
    proof {
        assert(s@.skip(0) =~= s@);
        assert(segs@.map_values(|t: String| t@) + split_path(s@) =~= split_path(s@));
    }
    while i < n
        invariant
            start <= i <= n,
            n == s@.len(),
            forall|j: int| start <= j < i ==> s@[j] != '/',
            split_path(s@) =~= segs@.map_values(|t: String| t@) + split_path(s@.skip(start as int)),
        decreases n - i,
    {
        if s.get_char(i) == '/' {
            let seg = s.substring_char(start, i).to_owned();
            proof {
                let rest = s@.skip(start as int);
                lemma_sep_idx_is(rest, i - start);
                assert(rest.take(i - start) =~= s@.subrange(start as int, i as int));
                assert(rest.skip(i - start + 1) =~= s@.skip(i as int + 1));
                let f = |t: String| t@;
                assert(segs@.push(seg).map_values(f) =~= segs@.map_values(f)
                    + seq![s@.subrange(start as int, i as int)]);
            }
            segs.push(seg);
            start = i + 1;
        }
        i = i + 1;
    }
    let last = s.substring_char(start, n).to_owned();
    proof {
        let rest = s@.skip(start as int);
        lemma_sep_idx_is(rest, n - start);
        assert(rest =~= s@.subrange(start as int, n as int));
        let f = |t: String| t@;
        assert(segs@.push(last).map_values(f) =~= segs@.map_values(f)
            + seq![s@.subrange(start as int, n as int)]);
        assert(split_path(s@.skip(start as int)) =~= seq![s@.subrange(start as int, n as int)]);
    }
    segs.push(last);
    segs
}

/// Derives the base prefix for resource locations from the package-file
/// path, per `root_base_of`.
pub fn derive_root_base(path: &str) -> (r: String)
    ensures
        r@ == root_base_of(path@),
{
    let segs = split_slash(path);
    let n = segs.len();
    proof {
        reveal_strlit("/");
        assert("/"@ =~= seq!['/']);
    }
    if n >= 2 {
        let base = segs[n - 2].clone();
        let r = base.concat("/");
        proof {
            let f = |t: String| t@;
            assert(segs@.map_values(f)[n - 2] == segs@[n - 2]@);
        }
        r
    } else {
        let r = String::from_str("/");
        proof {
            assert(split_path(path@).len() == 1);
            assert(r@ =~= root_base_of(path@));
        }
        r
    }
}

} // verus!
