use vstd::prelude::*;

use crate::archive::Archive;
pub use crate::errors::{DocError, ErrorKind};
use crate::restable::{ResTable, Resource, path_mime};
use crate::strmap::StrMap;
use crate::strutil::{derive_root_base, root_base_of, str_eq};
use crate::xmltree::{XmlTree, attr_of, child_named, find, find_child, find_from, get_attr,
    text_or_empty};
use crate::xmlparse::parse_tree;

verus! {

/// The text content an element contributes to the metadata: its text, or
/// the empty string when it has none.
pub open spec fn text_view(node: crate::xmltree::XmlNode) -> Seq<char> {
    match node.text {
        Some(t) => t@,
        None => Seq::<char>::empty(),
    }
}

/// What the manifest pass computes from the child handles `cs`: for each
/// child in order, its `id`, `href` and `media-type` attributes are read
/// (the first missing one, in that order, fails the pass with its name)
/// and `id` is mapped to `(base + href, media-type)`, later children
/// overwriting earlier ones.
pub open spec fn manifest_fold(
    tree: XmlTree,
    cs: Seq<usize>,
    base: Seq<char>,
    acc: Map<Seq<char>, (Seq<char>, Seq<char>)>,
) -> Result<Map<Seq<char>, (Seq<char>, Seq<char>)>, Seq<char>>
    decreases cs.len(),
{
    if cs.len() == 0 {
        Ok(acc)
    } else {
        let node = tree.nodes@[cs[0] as int];
        match attr_of(node.attrs@, "id"@) {
            None => Err("id"@),
            Some(id) => match attr_of(node.attrs@, "href"@) {
                None => Err("href"@),
                Some(href) => match attr_of(node.attrs@, "media-type"@) {
                    None => Err("media-type"@),
                    Some(mt) => manifest_fold(
                        tree,
                        cs.drop_first(),
                        base,
                        acc.insert(id, (base + href, mt)),
                    ),
                },
            },
        }
    }
}

/// What the spine pass computes: the `idref` attribute of each child in
/// order (a missing one fails the pass), duplicates kept.
pub open spec fn spine_fold(tree: XmlTree, cs: Seq<usize>, acc: Seq<Seq<char>>) -> Result<
    Seq<Seq<char>>,
    Seq<char>,
>
    decreases cs.len(),
{
    if cs.len() == 0 {
        Ok(acc)
    } else {
        match attr_of(tree.nodes@[cs[0] as int].attrs@, "idref"@) {
            None => Err("idref"@),
            Some(id) => spine_fold(tree, cs.drop_first(), acc.push(id)),
        }
    }
}

/// What the metadata pass computes: a `meta` child maps its `name`
/// attribute to its `content` attribute (either missing fails the pass);
/// any other child maps its element name to its text content or the empty
/// string. Later children overwrite earlier ones.
pub open spec fn metadata_fold(
    tree: XmlTree,
    cs: Seq<usize>,
    acc: Map<Seq<char>, Seq<char>>,
) -> Result<Map<Seq<char>, Seq<char>>, Seq<char>>
    decreases cs.len(),
{
    if cs.len() == 0 {
        Ok(acc)
    } else {
        let node = tree.nodes@[cs[0] as int];
        if node.name@ == "meta"@ {
            match attr_of(node.attrs@, "name"@) {
                None => Err("name"@),
                Some(k) => match attr_of(node.attrs@, "content"@) {
                    None => Err("content"@),
                    Some(v) => metadata_fold(tree, cs.drop_first(), acc.insert(k, v)),
                },
            }
        } else {
            metadata_fold(tree, cs.drop_first(), acc.insert(node.name@, text_view(node)))
        }
    }
}

/// Reads the `full-path` attribute of the first `rootfile` element
/// reachable from the root of the container-descriptor tree.
pub fn root_file_from_tree(tree: &XmlTree) -> (r: Result<String, DocError>)
    requires
        tree.wf(),
    ensures
        match find_from(*tree, tree.root as int, "rootfile"@) {
            None => r matches Err(e) && (e.kind matches ErrorKind::ElementNotFound(m) && m@
                == "rootfile"@),
            Some(h) => match attr_of(tree.nodes@[h].attrs@, "full-path"@) {
                None => r matches Err(e) && (e.kind matches ErrorKind::AttributeMissing(m) && m@
                    == "full-path"@),
                Some(p) => r matches Ok(s) && s@ == p,
            },
        },
{
    let h = match find(tree, "rootfile") {
        Ok(h) => h,
        Err(e) => {
            return Err(e);
        },
    };
    get_attr(tree, h, "full-path")
}

/// Parses the container-descriptor bytes and resolves the package-file
/// path they point at, per `root_file_from_tree`.
pub fn get_root_file(container: &Vec<u8>) -> (r: Result<String, DocError>)
    ensures
        r matches Err(e) ==> (e.kind == ErrorKind::MalformedInput || e.kind matches ErrorKind::ElementNotFound(
            _,
        ) || e.kind matches ErrorKind::AttributeMissing(_)),
{
    let tree = match parse_tree(container.as_slice()) {
        Ok(t) => t,
        Err(e) => {
            return Err(e);
        },
    };
    root_file_from_tree(&tree)
}

/// Builds the resource table from the `manifest` element of the package
/// tree, per `manifest_fold` over its direct children.
pub fn manifest_pass(tree: &XmlTree, base: &str) -> (r: Result<ResTable, DocError>)
    requires
        tree.wf(),
    ensures
        match child_named(*tree, tree.nodes@[tree.root as int].children@, "manifest"@) {
            None => r matches Err(e) && (e.kind matches ErrorKind::ElementNotFound(m) && m@
                == "manifest"@),
            Some(h) => match manifest_fold(
                *tree,
                tree.nodes@[h].children@,
                base@,
                Map::<Seq<char>, (Seq<char>, Seq<char>)>::empty(),
            ) {
                Ok(rm) => r matches Ok(t) && t@ == rm && t.wf(),
                Err(a) => r matches Err(e) && (e.kind matches ErrorKind::AttributeMissing(m) && m@ == a),
            },
        },
{
    let h = match find_child(tree, tree.root, "manifest") {
        Ok(h) => h,
        Err(e) => {
            return Err(e);
        },
    };
    let cs = &tree.nodes[h].children;
    let n = cs.len();
    let mut table = ResTable::new();
    let mut i: usize = 0;
    proof {
        assert(cs@.skip(0) =~= cs@);
    }
    while i < n
        invariant
            tree.wf(),
            h < tree.nodes@.len(),
            i <= n,
            n == cs@.len(),
            cs@ == tree.nodes@[h as int].children@,
            child_named(*tree, tree.nodes@[tree.root as int].children@, "manifest"@) == Some(
                h as int,
            ),
            table.wf(),
            manifest_fold(*tree, cs@.skip(i as int), base@, table@) == manifest_fold(
                *tree,
                cs@,
                base@,
                Map::<Seq<char>, (Seq<char>, Seq<char>)>::empty(),
            ),
        decreases n - i,
    {
        proof {
            assert(cs@.skip(i as int)[0] == cs@[i as int]);
            assert(cs@.skip(i as int).drop_first() =~= cs@.skip(i as int + 1));
            assert(tree.wf_node(h as int));
        }
        let c = cs[i];
        let id = match get_attr(tree, c, "id") {
            Ok(v) => v,
            Err(e) => {
                return Err(e);
            },
        };
        let href = match get_attr(tree, c, "href") {
            Ok(v) => v,
            Err(e) => {
                return Err(e);
            },
        };
        let mt = match get_attr(tree, c, "media-type") {
            Ok(v) => v,
            Err(e) => {
                return Err(e);
            },
        };
        let path = String::from_str(base).concat(href.as_str());
        table.insert(id, path, mt);
        i = i + 1;
    }
    proof {
        assert(cs@.skip(n as int) =~= Seq::<usize>::empty());
    }
    Ok(table)
}

/// Builds the reading sequence from the `spine` element of the package
/// tree, per `spine_fold` over its direct children.
pub fn spine_pass(tree: &XmlTree) -> (r: Result<Vec<String>, DocError>)
    requires
        tree.wf(),
    ensures
        match child_named(*tree, tree.nodes@[tree.root as int].children@, "spine"@) {
            None => r matches Err(e) && (e.kind matches ErrorKind::ElementNotFound(m) && m@ == "spine"@),
            Some(h) => match spine_fold(*tree, tree.nodes@[h].children@, Seq::<Seq<char>>::empty()) {
                Ok(ids) => r matches Ok(v) && v@.map_values(|s: String| s@) == ids,
                Err(a) => r matches Err(e) && (e.kind matches ErrorKind::AttributeMissing(m) && m@ == a),
            },
        },
{
    let h = match find_child(tree, tree.root, "spine") {
        Ok(h) => h,
        Err(e) => {
            return Err(e);
        },
    };
    let cs = &tree.nodes[h].children;
    let n = cs.len();
    let mut ids: Vec<String> = Vec::new();
    let mut i: usize = 0;
    proof {
        assert(cs@.skip(0) =~= cs@);
        assert(ids@.map_values(|s: String| s@) =~= Seq::<Seq<char>>::empty());
    }
    while i < n
        invariant
            tree.wf(),
            h < tree.nodes@.len(),
            i <= n,
            n == cs@.len(),
            cs@ == tree.nodes@[h as int].children@,
            child_named(*tree, tree.nodes@[tree.root as int].children@, "spine"@) == Some(
                h as int,
            ),
            spine_fold(*tree, cs@.skip(i as int), ids@.map_values(|s: String| s@)) == spine_fold(
                *tree,
                cs@,
                Seq::<Seq<char>>::empty(),
            ),
        decreases n - i,
    {
        proof {
            assert(cs@.skip(i as int)[0] == cs@[i as int]);
            assert(cs@.skip(i as int).drop_first() =~= cs@.skip(i as int + 1));
            assert(tree.wf_node(h as int));
        }
        let c = cs[i];
        let id = match get_attr(tree, c, "idref") {
            Ok(v) => v,
            Err(e) => {
                return Err(e);
            },
        };
        proof {
            assert(ids@.push(id).map_values(|s: String| s@) =~= ids@.map_values(|s: String| s@)
                .push(id@));
        }
        ids.push(id);
        i = i + 1;
    }
    proof {
        assert(cs@.skip(n as int) =~= Seq::<usize>::empty());
    }
    Ok(ids)
}

/// Builds the metadata dictionary from the `metadata` element of the
/// package tree, per `metadata_fold` over its direct children.
pub fn metadata_pass(tree: &XmlTree) -> (r: Result<StrMap, DocError>)
    requires
        tree.wf(),
    ensures
        match child_named(*tree, tree.nodes@[tree.root as int].children@, "metadata"@) {
            None => r matches Err(e) && (e.kind matches ErrorKind::ElementNotFound(m) && m@
                == "metadata"@),
            Some(h) => match metadata_fold(
                *tree,
                tree.nodes@[h].children@,
                Map::<Seq<char>, Seq<char>>::empty(),
            ) {
                Ok(km) => r matches Ok(t) && t@ == km && t.wf(),
                Err(a) => r matches Err(e) && (e.kind matches ErrorKind::AttributeMissing(m) && m@ == a),
            },
        },
{
    let h = match find_child(tree, tree.root, "metadata") {
        Ok(h) => h,
        Err(e) => {
            return Err(e);
        },
    };
    let cs = &tree.nodes[h].children;
    let n = cs.len();
    let mut table = StrMap::new();
    let mut i: usize = 0;
    proof {
        assert(cs@.skip(0) =~= cs@);
    }
    while i < n
        invariant
            tree.wf(),
            h < tree.nodes@.len(),
            i <= n,
            n == cs@.len(),
            cs@ == tree.nodes@[h as int].children@,
            child_named(*tree, tree.nodes@[tree.root as int].children@, "metadata"@) == Some(
                h as int,
            ),
            table.wf(),
            metadata_fold(*tree, cs@.skip(i as int), table@) == metadata_fold(
                *tree,
                cs@,
                Map::<Seq<char>, Seq<char>>::empty(),
            ),
        decreases n - i,
    {
        proof {
            assert(cs@.skip(i as int)[0] == cs@[i as int]);
            assert(cs@.skip(i as int).drop_first() =~= cs@.skip(i as int + 1));
            assert(tree.wf_node(h as int));
        }
        let c = cs[i];
        if str_eq(tree.nodes[c].name.as_str(), "meta") {
            let k = match get_attr(tree, c, "name") {
                Ok(v) => v,
                Err(e) => {
                    return Err(e);
                },
            };
            let v = match get_attr(tree, c, "content") {
                Ok(v) => v,
                Err(e) => {
                    return Err(e);
                },
            };
            table.insert(k, v);
        } else {
            let k = tree.nodes[c].name.clone();
            let v = text_or_empty(tree, c);
            table.insert(k, v);
        }
        i = i + 1;
    }
    proof {
        assert(cs@.skip(n as int) =~= Seq::<usize>::empty());
    }
    Ok(table)
}

/// A resolved document: the archive it came from, the three views built
/// from its package file, the derived paths, and the navigation cursor.
/// Everything but the cursor is immutable after construction; the cursor
/// moves only through the navigation calls.
pub struct EpubDoc {
    /// The archive the resource bytes are read from. Private: reads go
    /// through the resource accessors.
    archive: Archive,
    /// The cursor: a position in `spine`, owned exclusively by this
    /// document; only the navigation calls move it.
    current: usize,
    /// The reading sequence: resource identifiers in reading order.
    pub spine: Vec<String>,
    /// The resource table: identifier to (location, media type).
    pub resources: ResTable,
    /// The metadata dictionary.
    pub metadata: StrMap,
    /// The location prefix of all resources: one directory level above the
    /// package file.
    pub root_base: String,
    /// The resolved path of the package file.
    pub root_file: String,
}

/// Whether two documents agree on everything but the cursor.
pub closed spec fn same_content(a: EpubDoc, b: EpubDoc) -> bool {
    &&& b.archive == a.archive
    &&& b.spine == a.spine
    &&& b.resources == a.resources
    &&& b.metadata == a.metadata
    &&& b.root_base == a.root_base
    &&& b.root_file == a.root_file
}

impl EpubDoc {
    /// The cursor position.
    pub closed spec fn cur(self) -> int {
        self.current as int
    }

    /// The number of reading positions.
    pub closed spec fn num_pages_spec(self) -> int {
        self.spine@.len() as int
    }

    /// The reading sequence as plain character sequences.
    pub closed spec fn spine_ids(self) -> Seq<Seq<char>> {
        self.spine@.map_values(|s: String| s@)
    }

    /// The mapping the resource table denotes.
    pub closed spec fn resources_map(self) -> Map<Seq<char>, (Seq<char>, Seq<char>)> {
        self.resources@
    }

    /// The resource entries in table order, for the path scan.
    pub closed spec fn resources_list(self) -> Seq<Resource> {
        self.resources.list@
    }

    /// The mapping the metadata dictionary denotes.
    pub closed spec fn metadata_map(self) -> Map<Seq<char>, Seq<char>> {
        self.metadata@
    }

    /// The archive this document reads from.
    pub closed spec fn archive_view(self) -> Archive {
        self.archive
    }

    /// The derived location prefix.
    pub closed spec fn root_base_spec(self) -> Seq<char> {
        self.root_base@
    }

    /// The resolved package-file path.
    pub closed spec fn root_file_spec(self) -> Seq<char> {
        self.root_file@
    }

    /// The cursor points into the spine whenever the spine is non-empty,
    /// and sits at zero otherwise; the two dictionaries are in shape.
    pub closed spec fn wf(self) -> bool {
        &&& self.resources.wf()
        &&& self.metadata.wf()
        &&& (self.spine@.len() == 0 ==> self.current == 0)
        &&& (self.spine@.len() > 0 ==> (self.current as int) < self.spine@.len())
    }

    /// Resolves a document over `archive`: reads the container descriptor
    /// at its fixed path, resolves the package-file path and the base
    /// prefix from it, parses the package file and builds the three views.
    /// Any failure aborts construction; no partial document is returned.
    pub fn new(archive: Archive) -> (r: Result<EpubDoc, DocError>)
        ensures
            r matches Ok(d) ==> d.wf() && d.cur() == 0 && d.archive_view() == archive
                && d.root_base_spec() == root_base_of(d.root_file_spec()),
            r matches Ok(d) ==> archive.lookup(d.root_file_spec()) is Some,
            archive.lookup("META-INF/container.xml"@) is None <==> (r matches Err(e) && (
            e.kind matches ErrorKind::ResourcePathNotFound(p) && p@
                == "META-INF/container.xml"@)),
    {
        let container = match archive.get_entry("META-INF/container.xml") {
            Ok(c) => c,
            Err(e) => {
                return Err(e);
            },
        };
        let root_file = match get_root_file(&container) {
            Ok(p) => p,
            Err(e) => {
                return Err(e);
            },
        };
        let root_base = derive_root_base(root_file.as_str());
        let pkg = match archive.get_entry(root_file.as_str()) {
            Ok(p) => p,
            Err(e) => {
                return Err(e);
            },
        };
        let tree = match parse_tree(pkg.as_slice()) {
            Ok(t) => t,
            Err(e) => {
                return Err(e);
            },
        };
        let resources = match manifest_pass(&tree, root_base.as_str()) {
            Ok(t) => t,
            Err(e) => {
                return Err(e);
            },
        };
        let spine = match spine_pass(&tree) {
            Ok(v) => v,
            Err(e) => {
                return Err(e);
            },
        };
        let metadata = match metadata_pass(&tree) {
            Ok(t) => t,
            Err(e) => {
                return Err(e);
            },
        };
        Ok(
            EpubDoc {
                archive,
                current: 0,
                spine,
                resources,
                metadata,
                root_base,
                root_file,
            },
        )
    }

    /// The identifier of the cover resource: the metadata value under
    /// `cover`, or `CoverNotFound`.
    pub fn get_cover_id(&self) -> (r: Result<String, DocError>)
        ensures
            self.metadata_map().contains_key("cover"@) ==> (r matches Ok(c) && c@
                == self.metadata_map()["cover"@]),
            !self.metadata_map().contains_key("cover"@) ==> (r matches Err(e) && e.kind == ErrorKind::CoverNotFound),
    {
        match self.metadata.get("cover") {
            Some(c) => Ok(c),
            None => Err(DocError { kind: ErrorKind::CoverNotFound }),
        }
    }

    /// The bytes of the cover resource: `get_cover_id`, then
    /// `get_resource`; either failure propagates.
    pub fn get_cover(&mut self) -> (r: Result<Vec<u8>, DocError>)
        ensures
            *final(self) == *old(self),
            !old(self).metadata_map().contains_key("cover"@) ==> (r matches Err(e) && e.kind == ErrorKind::CoverNotFound),
            old(self).metadata_map().contains_key("cover"@) ==> (
            if old(self).resources_map().contains_key(old(self).metadata_map()["cover"@]) {
                match old(self).archive_view().lookup(
                    old(self).resources_map()[old(self).metadata_map()["cover"@]].0,
                ) {
                    Some(d) => r matches Ok(b) && b@ == d,
                    None => r matches Err(e) && (e.kind matches ErrorKind::ResourcePathNotFound(p) && p@
                        == old(self).resources_map()[old(self).metadata_map()["cover"@]].0),
                }
            } else {
                r matches Err(e) && (e.kind matches ErrorKind::ResourceIdNotFound(s) && s@ == old(self).metadata_map()["cover"@])
            }),
    {
        let cover_id = match self.get_cover_id() {
            Ok(c) => c,
            Err(e) => {
                return Err(e);
            },
        };
        self.get_resource(cover_id.as_str())
    }

    /// The bytes the archive stores at `path`, or `ResourcePathNotFound`.
    pub fn get_resource_by_path(&mut self, path: &str) -> (r: Result<Vec<u8>, DocError>)
        ensures
            *final(self) == *old(self),
            match old(self).archive_view().lookup(path@) {
                Some(d) => r matches Ok(b) && b@ == d,
                None => r matches Err(e) && (e.kind matches ErrorKind::ResourcePathNotFound(p) && p@
                    == path@),
            },
    {
        self.archive.get_entry(path)
    }

    /// The bytes of the resource with identifier `id`:
    /// `ResourceIdNotFound` when the table does not hold it, else the
    /// archive lookup at its stored location.
    pub fn get_resource(&mut self, id: &str) -> (r: Result<Vec<u8>, DocError>)
        ensures
            *final(self) == *old(self),
            !old(self).resources_map().contains_key(id@) ==> (r matches Err(e) && (
            e.kind matches ErrorKind::ResourceIdNotFound(s) && s@ == id@)),
            old(self).resources_map().contains_key(id@) ==> (match old(self).archive_view().lookup(
                old(self).resources_map()[id@].0,
            ) {
                Some(d) => r matches Ok(b) && b@ == d,
                None => r matches Err(e) && (e.kind matches ErrorKind::ResourcePathNotFound(p) && p@
                    == old(self).resources_map()[id@].0),
            }),
    {
        let pm = match self.resources.get(id) {
            Some(pm) => pm,
            None => {
                return Err(DocError { kind: ErrorKind::ResourceIdNotFound(String::from_str(id)) });
            },
        };
        self.get_resource_by_path(pm.0.as_str())
    }

    /// The text the archive stores at `path`: `ResourcePathNotFound` when
    /// absent, `MalformedInput` when the bytes are not valid text.
    pub fn get_resource_str_by_path(&mut self, path: &str) -> (r: Result<String, DocError>)
        ensures
            *final(self) == *old(self),
            match old(self).archive_view().lookup(path@) {
                None => r matches Err(e) && (e.kind matches ErrorKind::ResourcePathNotFound(p) && p@
                    == path@),
                Some(d) => match r {
                    Ok(t) => vstd::utf8::valid_utf8(d) && t@ == vstd::utf8::decode_utf8(d),
                    Err(e) => !vstd::utf8::valid_utf8(d) && e.kind == ErrorKind::MalformedInput,
                },
            },
    {
        self.archive.get_entry_as_str(path)
    }

    /// The text of the resource with identifier `id`, as `get_resource`
    /// but decoded.
    pub fn get_resource_str(&mut self, id: &str) -> (r: Result<String, DocError>)
        ensures
            *final(self) == *old(self),
            !old(self).resources_map().contains_key(id@) ==> (r matches Err(e) && (
            e.kind matches ErrorKind::ResourceIdNotFound(s) && s@ == id@)),
            old(self).resources_map().contains_key(id@) ==> (match old(self).archive_view().lookup(
                old(self).resources_map()[id@].0,
            ) {
                None => r matches Err(e) && (e.kind matches ErrorKind::ResourcePathNotFound(p) && p@
                    == old(self).resources_map()[id@].0),
                Some(d) => match r {
                    Ok(t) => vstd::utf8::valid_utf8(d) && t@ == vstd::utf8::decode_utf8(d),
                    Err(e) => !vstd::utf8::valid_utf8(d) && e.kind == ErrorKind::MalformedInput,
                },
            }),
    {
        let pm = match self.resources.get(id) {
            Some(pm) => pm,
            None => {
                return Err(DocError { kind: ErrorKind::ResourceIdNotFound(String::from_str(id)) });
            },
        };
        self.get_resource_str_by_path(pm.0.as_str())
    }

    /// The media type stored for `id`, or `ResourceIdNotFound`.
    pub fn get_resource_mime(&self, id: &str) -> (r: Result<String, DocError>)
        ensures
            self.resources_map().contains_key(id@) ==> (r matches Ok(m) && m@
                == self.resources_map()[id@].1),
            !self.resources_map().contains_key(id@) ==> (r matches Err(e) && (
            e.kind matches ErrorKind::ResourceIdNotFound(s) && s@ == id@)),
    {
        match self.resources.get(id) {
            Some(pm) => Ok(pm.1),
            None => Err(DocError { kind: ErrorKind::ResourceIdNotFound(String::from_str(id)) }),
        }
    }

    /// The media type of the first resource stored at `path`, or
    /// `ResourcePathNotFound`: a linear scan over the table in its order.
    pub fn get_resource_mime_by_path(&self, path: &str) -> (r: Result<String, DocError>)
        ensures
            match r {
                Ok(m) => path_mime(self.resources_list(), path@) == Some(m@),
                Err(e) => path_mime(self.resources_list(), path@) is None && (
                e.kind matches ErrorKind::ResourcePathNotFound(p) && p@ == path@),
            },
    {
        match self.resources.mime_by_path(path) {
            Some(m) => Ok(m),
            None => Err(DocError { kind: ErrorKind::ResourcePathNotFound(String::from_str(path)) }),
        }
    }

    /// The identifier at the cursor, or `NavigationBroken` when the cursor
    /// points past the spine (an empty spine).
    pub fn get_current_id(&self) -> (r: Result<String, DocError>)
        ensures
            self.cur() < self.num_pages_spec() ==> (r matches Ok(id) && id@
                == self.spine_ids()[self.cur()]),
            self.cur() >= self.num_pages_spec() ==> (r matches Err(e) && e.kind == ErrorKind::NavigationBroken),
    {
        if self.current < self.spine.len() {
            let id = self.spine[self.current].clone();
            proof {
                assert(self.spine_ids()[self.cur()] == self.spine@[self.cur()]@);
            }
            Ok(id)
        } else {
            Err(DocError { kind: ErrorKind::NavigationBroken })
        }
    }

    /// The stored location of the resource at the cursor.
    pub fn get_current_path(&self) -> (r: Result<String, DocError>)
        ensures
            self.cur() >= self.num_pages_spec() ==> (r matches Err(e) && e.kind == ErrorKind::NavigationBroken),
            self.cur() < self.num_pages_spec() ==> (
            if self.resources_map().contains_key(self.spine_ids()[self.cur()]) {
                r matches Ok(p) && p@ == self.resources_map()[self.spine_ids()[self.cur()]].0
            } else {
                r matches Err(e) && (e.kind matches ErrorKind::ResourceIdNotFound(s) && s@
                    == self.spine_ids()[self.cur()])
            }),
    {
        let id = match self.get_current_id() {
            Ok(id) => id,
            Err(e) => {
                return Err(e);
            },
        };
        match self.resources.get(id.as_str()) {
            Some(pm) => Ok(pm.0),
            None => Err(DocError { kind: ErrorKind::ResourceIdNotFound(id) }),
        }
    }

    /// The media type of the resource at the cursor.
    pub fn get_current_mime(&self) -> (r: Result<String, DocError>)
        ensures
            self.cur() >= self.num_pages_spec() ==> (r matches Err(e) && e.kind == ErrorKind::NavigationBroken),
            self.cur() < self.num_pages_spec() ==> (
            if self.resources_map().contains_key(self.spine_ids()[self.cur()]) {
                r matches Ok(m) && m@ == self.resources_map()[self.spine_ids()[self.cur()]].1
            } else {
                r matches Err(e) && (e.kind matches ErrorKind::ResourceIdNotFound(s) && s@
                    == self.spine_ids()[self.cur()])
            }),
    {
        let id = match self.get_current_id() {
            Ok(id) => id,
            Err(e) => {
                return Err(e);
            },
        };
        self.get_resource_mime(id.as_str())
    }

    /// The bytes of the resource at the cursor.
    pub fn get_current(&mut self) -> (r: Result<Vec<u8>, DocError>)
        ensures
            *final(self) == *old(self),
            old(self).cur() >= old(self).num_pages_spec() ==> (r matches Err(e) && e.kind == ErrorKind::NavigationBroken),
            old(self).cur() < old(self).num_pages_spec() ==> (
            if old(self).resources_map().contains_key(old(self).spine_ids()[old(self).cur()]) {
                match old(self).archive_view().lookup(
                    old(self).resources_map()[old(self).spine_ids()[old(self).cur()]].0,
                ) {
                    Some(d) => r matches Ok(b) && b@ == d,
                    None => r matches Err(e) && (e.kind matches ErrorKind::ResourcePathNotFound(p) && p@
                        == old(self).resources_map()[old(self).spine_ids()[old(self).cur()]].0),
                }
            } else {
                r matches Err(e) && (e.kind matches ErrorKind::ResourceIdNotFound(s) && s@ == old(self).spine_ids()[old(self).cur()])
            }),
    {
        let id = match self.get_current_id() {
            Ok(id) => id,
            Err(e) => {
                return Err(e);
            },
        };
        self.get_resource(id.as_str())
    }

    /// The text of the resource at the cursor.
    pub fn get_current_str(&mut self) -> (r: Result<String, DocError>)
        ensures
            *final(self) == *old(self),
            old(self).cur() >= old(self).num_pages_spec() ==> (r matches Err(e) && e.kind == ErrorKind::NavigationBroken),
            old(self).cur() < old(self).num_pages_spec() ==> (
            if old(self).resources_map().contains_key(old(self).spine_ids()[old(self).cur()]) {
                match old(self).archive_view().lookup(
                    old(self).resources_map()[old(self).spine_ids()[old(self).cur()]].0,
                ) {
                    None => r matches Err(e) && (e.kind matches ErrorKind::ResourcePathNotFound(p)
                        && p@ == old(self).resources_map()[old(self).spine_ids()[old(self).cur()]].0),
                    Some(d) => match r {
                        Ok(t) => vstd::utf8::valid_utf8(d) && t@ == vstd::utf8::decode_utf8(d),
                        Err(e) => !vstd::utf8::valid_utf8(d) && e.kind == ErrorKind::MalformedInput,
                    },
                }
            } else {
                r matches Err(e) && (e.kind matches ErrorKind::ResourceIdNotFound(s) && s@ == old(
                    self,
                ).spine_ids()[old(self).cur()])
            }),
    {
        let id = match self.get_current_id() {
            Ok(id) => id,
            Err(e) => {
                return Err(e);
            },
        };
        self.get_resource_str(id.as_str())
    }

    /// Moves the cursor one position forward; at the last position it
    /// fails with `LastPage` and the cursor stays exactly where it was.
    pub fn go_next(&mut self) -> (r: Result<(), DocError>)
        requires
            old(self).wf(),
        ensures
            final(self).wf(),
            same_content(*old(self), *final(self)),
            old(self).cur() + 1 < old(self).num_pages_spec() ==> r is Ok && final(self).cur()
                == old(self).cur() + 1,
            old(self).cur() + 1 >= old(self).num_pages_spec() ==> (r matches Err(e) && e.kind == ErrorKind::LastPage
                && final(self).cur() == old(self).cur()),
    {
        let n = self.spine.len();
        if self.current + 1 >= n {
            return Err(DocError { kind: ErrorKind::LastPage });
        }
        self.current = self.current + 1;
        Ok(())
    }

    /// Moves the cursor one position back; at position zero it fails with
    /// `FirstPage` and the cursor stays exactly where it was.
    pub fn go_prev(&mut self) -> (r: Result<(), DocError>)
        requires
            old(self).wf(),
        ensures
            final(self).wf(),
            same_content(*old(self), *final(self)),
            old(self).cur() >= 1 ==> r is Ok && final(self).cur() == old(self).cur() - 1,
            old(self).cur() < 1 ==> (r matches Err(e) && e.kind == ErrorKind::FirstPage && final(self).cur() == old(self).cur()),
    {
        if self.current < 1 {
            return Err(DocError { kind: ErrorKind::FirstPage });
        }
        self.current = self.current - 1;
        Ok(())
    }

    /// The number of reading positions.
    pub fn get_num_pages(&self) -> (r: usize)
        ensures
            r == self.num_pages_spec(),
    {
        self.spine.len()
    }

    /// The cursor position, counted from zero.
    pub fn get_current_page(&self) -> (r: usize)
        ensures
            r == self.cur(),
    {
        self.current
    }

    /// Seeks the cursor to position `n`. Every `n` below the page count is
    /// accepted and becomes the cursor; any other `n` fails with
    /// `InvalidPageIndex(n)` and the cursor stays exactly where it was.
    pub fn set_current_page(&mut self, n: usize) -> (r: Result<(), DocError>)
        requires
            old(self).wf(),
        ensures
            final(self).wf(),
            same_content(*old(self), *final(self)),
            n < old(self).num_pages_spec() ==> r is Ok && final(self).cur() == n,
            n >= old(self).num_pages_spec() ==> (r matches Err(e) && e.kind == ErrorKind::InvalidPageIndex(n) && final(self).cur() == old(self).cur()),
    {
        if n >= self.spine.len() {
            return Err(DocError { kind: ErrorKind::InvalidPageIndex(n) });
        }
        self.current = n;
        Ok(())
    }
}

/// A successful `go_next` followed by `go_prev` restores the document
/// exactly: `d1` being the after-state of a successful `go_next` on `d0`,
/// `go_prev` cannot fail on `d1`, and its after-state `d2` is `d0` again.
pub proof fn lemma_next_then_prev_restores(d0: EpubDoc, d1: EpubDoc, d2: EpubDoc)
    requires
        d0.wf(),
        same_content(d0, d1),
        d0.cur() + 1 < d0.num_pages_spec(),
        d1.cur() == d0.cur() + 1,
        same_content(d1, d2),
        d2.cur() == d1.cur() - 1,
    ensures
        d1.cur() >= 1,
        d2 == d0,
{
    assert(d2.cur() == d0.cur());
}

/// When no child after position `j` carries the identifier `id`, the
/// manifest pass keeps whatever the accumulator holds for `id`.
proof fn lemma_manifest_preserves(
    tree: XmlTree,
    cs: Seq<usize>,
    base: Seq<char>,
    acc: Map<Seq<char>, (Seq<char>, Seq<char>)>,
    id: Seq<char>,
)
    requires
        forall|k: int| 0 <= k < cs.len() ==> attr_of(
            tree.nodes@[#[trigger] cs[k] as int].attrs@,
            "id"@,
        ) != Some(id),
    ensures
        match manifest_fold(tree, cs, base, acc) {
            Ok(m) => m.contains_key(id) == acc.contains_key(id) && (acc.contains_key(id)
                ==> m[id] == acc[id]),
            Err(_) => true,
        },
    decreases cs.len(),
{
    if cs.len() > 0 {
        let node = tree.nodes@[cs[0] as int];
        match attr_of(node.attrs@, "id"@) {
            None => {},
            Some(i0) => match attr_of(node.attrs@, "href"@) {
                None => {},
                Some(href) => match attr_of(node.attrs@, "media-type"@) {
                    None => {},
                    Some(mt) => {
                        assert(i0 != id);
                        assert forall|k: int| 0 <= k < cs.drop_first().len() implies attr_of(
                            tree.nodes@[#[trigger] cs.drop_first()[k] as int].attrs@,
                            "id"@,
                        ) != Some(id) by {
                            assert(cs.drop_first()[k] == cs[k + 1]);
                        }
                        lemma_manifest_preserves(
                            tree,
                            cs.drop_first(),
                            base,
                            acc.insert(i0, (base + href, mt)),
                            id,
                        );
                    },
                },
            },
        }
    }
}

/// Duplicate manifest identifiers: the last child carrying `id` decides
/// what the built table stores under `id` — its own location and media
/// type, earlier children notwithstanding.
pub proof fn lemma_manifest_later_wins(
    tree: XmlTree,
    cs: Seq<usize>,
    base: Seq<char>,
    acc: Map<Seq<char>, (Seq<char>, Seq<char>)>,
    j: int,
    id: Seq<char>,
    href: Seq<char>,
    mt: Seq<char>,
    m: Map<Seq<char>, (Seq<char>, Seq<char>)>,
)
    requires
        manifest_fold(tree, cs, base, acc) == Ok::<_, Seq<char>>(m),
        0 <= j < cs.len(),
        attr_of(tree.nodes@[cs[j] as int].attrs@, "id"@) == Some(id),
        attr_of(tree.nodes@[cs[j] as int].attrs@, "href"@) == Some(href),
        attr_of(tree.nodes@[cs[j] as int].attrs@, "media-type"@) == Some(mt),
        forall|k: int| j < k < cs.len() ==> attr_of(
            tree.nodes@[#[trigger] cs[k] as int].attrs@,
            "id"@,
        ) != Some(id),
    ensures
        m.contains_key(id),
        m[id] == (base + href, mt),
    decreases cs.len(),
{
    let node = tree.nodes@[cs[0] as int];
    let i0 = attr_of(node.attrs@, "id"@).unwrap();
    let h0 = attr_of(node.attrs@, "href"@).unwrap();
    let t0 = attr_of(node.attrs@, "media-type"@).unwrap();
    let acc2 = acc.insert(i0, (base + h0, t0));
    if j == 0 {
        assert forall|k: int| 0 <= k < cs.drop_first().len() implies attr_of(
            tree.nodes@[#[trigger] cs.drop_first()[k] as int].attrs@,
            "id"@,
        ) != Some(id) by {
            assert(cs.drop_first()[k] == cs[k + 1]);
        }
        lemma_manifest_preserves(tree, cs.drop_first(), base, acc2, id);
    } else {
        assert forall|k: int| j - 1 < k < cs.drop_first().len() implies attr_of(
            tree.nodes@[#[trigger] cs.drop_first()[k] as int].attrs@,
            "id"@,
        ) != Some(id) by {
            assert(cs.drop_first()[k] == cs[k + 1]);
        }
        assert(cs.drop_first()[j - 1] == cs[j]);
        lemma_manifest_later_wins(tree, cs.drop_first(), base, acc2, j - 1, id, href, mt, m);
    }
}

} // verus!
