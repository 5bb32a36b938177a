use vstd::prelude::*;

use crate::errors::{DocError, ErrorKind};
use crate::strutil::str_eq;

verus! {

/// One entry of the packaged container: the bytes stored at a path.
pub struct ArchiveEntry {
    pub path: String,
    pub data: Vec<u8>,
}

/// The first entry stored at `path`, if any.
pub open spec fn entry_lookup(s: Seq<ArchiveEntry>, path: Seq<char>) -> Option<Seq<u8>>
    decreases s.len(),
{
    if s.len() == 0 {
        None
    } else if s[0].path@ == path {
        Some(s[0].data@)
    } else {
        entry_lookup(s.drop_first(), path)
    }
}

/// An in-memory archive accessor: every entry of the packaged container,
/// loaded as plain path/bytes pairs. The host that opens the container on
/// disk fills it once; afterwards entries are read by path at will.
pub struct Archive {
    pub entries: Vec<ArchiveEntry>,
}

impl Archive {
    /// The bytes this archive stores at `path`, if any.
    pub open spec fn lookup(self, path: Seq<char>) -> Option<Seq<u8>> {
        entry_lookup(self.entries@, path)
    }

    pub fn new() -> (r: Archive)
        ensures
            r.entries@.len() == 0,
    {
        Archive { entries: Vec::new() }
    }

    pub fn add_entry(&mut self, path: String, data: Vec<u8>)
        ensures
            final(self).entries@ == old(self).entries@.push((ArchiveEntry { path, data })),
    {
        self.entries.push(ArchiveEntry { path, data });
    }

    /// The bytes stored at `path`, or `ResourcePathNotFound` if the archive
    /// holds no such entry.
    pub fn get_entry(&self, path: &str) -> (r: Result<Vec<u8>, DocError>)
        ensures
            match r {
                Ok(d) => self.lookup(path@) == Some(d@),
                Err(e) => self.lookup(path@) is None && (e.kind matches ErrorKind::ResourcePathNotFound(p)
                    && p@ == path@),
            },
    {
        let n = self.entries.len();
        let mut i: usize = 0;
        proof {
            assert(self.entries@.skip(0) =~= self.entries@);
        }
        while i < n
            invariant
                i <= n,
                n == self.entries@.len(),
                entry_lookup(self.entries@, path@) == entry_lookup(self.entries@.skip(i as int), path@),
            decreases n - i,
        {
            proof {
                assert(self.entries@.skip(i as int)[0] == self.entries@[i as int]);
                assert(self.entries@.skip(i as int).drop_first() =~= self.entries@.skip(i as int + 1));
            }
            if str_eq(self.entries[i].path.as_str(), path) {
                return Ok(clone_bytes(&self.entries[i].data));
            }
            i = i + 1;
        }
        proof {
            assert(self.entries@.skip(n as int) =~= Seq::<ArchiveEntry>::empty());
        }
        Err(DocError { kind: ErrorKind::ResourcePathNotFound(String::from_str(path)) })
    }

    /// The bytes stored at `path`, decoded as text. Fails with
    /// `ResourcePathNotFound` when the entry is absent and with
    /// `MalformedInput` when its bytes are not valid text.
    pub fn get_entry_as_str(&self, path: &str) -> (r: Result<String, DocError>)
        ensures
            match r {
                Ok(t) => self.lookup(path@) matches Some(d) && vstd::utf8::valid_utf8(d)
                    && t@ == vstd::utf8::decode_utf8(d),
                Err(e) => match self.lookup(path@) {
                    None => e.kind matches ErrorKind::ResourcePathNotFound(p) && p@ == path@,
                    Some(d) => !vstd::utf8::valid_utf8(d) && e.kind == ErrorKind::MalformedInput,
                },
            },
    {
        let data = match self.get_entry(path) {
            Ok(d) => d,
            Err(e) => {
                return Err(e);
            },
        };
        decode_utf8_bytes(data)
    }
}

/// Copies a byte vector.
pub fn clone_bytes(v: &Vec<u8>) -> (r: Vec<u8>)
    ensures
        r@ == v@,
{
    let mut r: Vec<u8> = Vec::new();
    let n = v.len();
    let mut i: usize = 0;
    while i < n
        invariant
            i <= n,
            n == v@.len(),
            r@ == v@.take(i as int),
        decreases n - i,
    {
        r.push(v[i]);
        proof {
            assert(v@.take(i as int).push(v@[i as int]) =~= v@.take(i as int + 1));
        }
        i = i + 1;
    }
    proof {
        assert(v@.take(n as int) =~= v@);
    }
    r
}

/// Relies on `String::from_utf8`: it returns the text decoded from the
/// bytes exactly when they are valid UTF-8, and fails otherwise.
#[verifier::external_body]
fn decode_utf8_bytes(bytes: Vec<u8>) -> (r: Result<String, DocError>)
    ensures
        match r {
            Ok(t) => vstd::utf8::valid_utf8(bytes@) && t@ == vstd::utf8::decode_utf8(bytes@),
            Err(e) => !vstd::utf8::valid_utf8(bytes@) && e.kind == ErrorKind::MalformedInput,
        },
{
    match String::from_utf8(bytes) {
        Ok(t) => Ok(t),
        Err(_) => Err(DocError { kind: ErrorKind::MalformedInput }),
    }
}

} // verus!
