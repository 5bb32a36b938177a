use vstd::prelude::*;

use crate::errors::{DocError, ErrorKind};
use crate::strutil::str_eq;

verus! {

/// One element of a parsed document: its local name, its attributes in
/// document order, its text content if any, and the arena handles of its
/// direct children, in document order.
pub struct XmlNode {
    pub name: String,
    pub attrs: Vec<(String, String)>,
    pub text: Option<String>,
    pub children: Vec<usize>,
}

/// A parsed document as an arena of elements addressed by handles.
/// Children are allocated before their parent, so every child handle is
/// below its parent's, and the root is the last allocation.
pub struct XmlTree {
    pub nodes: Vec<XmlNode>,
    pub root: usize,
}

/// Whether every child handle of the node at position `i` is below `i`.
pub open spec fn child_bounded(nodes: Seq<XmlNode>, i: int) -> bool {
    forall|j: int| 0 <= j < nodes[i].children@.len() ==> (nodes[i].children@[j] as int) < i
}

/// Whether every node's children precede it in the arena.
pub open spec fn arena_ok(nodes: Seq<XmlNode>) -> bool {
    forall|i: int| 0 <= i < nodes.len() ==> #[trigger] child_bounded(nodes, i)
}

impl XmlTree {
    pub open spec fn wf_node(self, i: int) -> bool {
        child_bounded(self.nodes@, i)
    }

    pub open spec fn wf(self) -> bool {
        &&& self.nodes@.len() > 0
        &&& self.root as int == self.nodes@.len() - 1
        &&& arena_ok(self.nodes@)
    }
}

/// The value of the first attribute named `name`, if any.
pub open spec fn attr_of(attrs: Seq<(String, String)>, name: Seq<char>) -> Option<Seq<char>>
    decreases attrs.len(),
{
    if attrs.len() == 0 {
        None
    } else if attrs[0].0@ == name {
        Some(attrs[0].1@)
    } else {
        attr_of(attrs.drop_first(), name)
    }
}

/// The handle of the first element named `name` in a preorder walk from
/// handle `h` (the element itself, then its children left to right).
/// Handles out of range, or not below their parent, are passed over.
pub open spec fn find_from(tree: XmlTree, h: int, name: Seq<char>) -> Option<int>
    decreases h, (tree.nodes@[h].children@.len() + 1) as int,
{
    if !(0 <= h < tree.nodes@.len()) {
        None
    } else if tree.nodes@[h].name@ == name {
        Some(h)
    } else {
        find_in_children(tree, tree.nodes@[h].children@, h, name)
    }
}

/// The first hit of `find_from` over the child handles `cs` of the element
/// at handle `bound`, left to right.
pub open spec fn find_in_children(tree: XmlTree, cs: Seq<usize>, bound: int, name: Seq<
    char,
>) -> Option<int>
    decreases bound, cs.len() as int,
{
    if cs.len() == 0 || bound < 0 {
        None
    } else {
        let c = cs[0] as int;
        let r = if c < bound {
            find_from(tree, c, name)
        } else {
            None
        };
        if r is Some {
            r
        } else {
            find_in_children(tree, cs.drop_first(), bound, name)
        }
    }
}

/// The handle of the first direct child in `cs` named `name`, if any.
pub open spec fn child_named(tree: XmlTree, cs: Seq<usize>, name: Seq<char>) -> Option<int>
    decreases cs.len(),
{
    if cs.len() == 0 {
        None
    } else if (cs[0] as int) < tree.nodes@.len() && tree.nodes@[cs[0] as int].name@ == name {
        Some(cs[0] as int)
    } else {
        child_named(tree, cs.drop_first(), name)
    }
}

/// Reads the attribute `name` of the element at handle `h`, or fails with
/// `AttributeMissing(name)`.
pub fn get_attr(tree: &XmlTree, h: usize, name: &str) -> (r: Result<String, DocError>)
    requires
        h < tree.nodes@.len(),
    ensures
        match r {
            Ok(v) => attr_of(tree.nodes@[h as int].attrs@, name@) == Some(v@),
            Err(e) => attr_of(tree.nodes@[h as int].attrs@, name@) is None && (
            e.kind matches ErrorKind::AttributeMissing(m) && m@ == name@),
        },
{
    let attrs = &tree.nodes[h].attrs;
    let n = attrs.len();
    let mut i: usize = 0;
    proof {
        assert(attrs@.skip(0) =~= attrs@);
    }
    while i < n
        invariant
            i <= n,
            n == attrs@.len(),
            h < tree.nodes@.len(),
            attrs@ == tree.nodes@[h as int].attrs@,
            attr_of(attrs@, name@) == attr_of(attrs@.skip(i as int), name@),
        decreases n - i,
    {
        proof {
            assert(attrs@.skip(i as int)[0] == attrs@[i as int]);
            assert(attrs@.skip(i as int).drop_first() =~= attrs@.skip(i as int + 1));
        }
        if str_eq(attrs[i].0.as_str(), name) {
            return Ok(attrs[i].1.clone());
        }
        i = i + 1;
    }
    proof {
        assert(attrs@.skip(n as int) =~= Seq::<(String, String)>::empty());
    }
    Err(DocError { kind: ErrorKind::AttributeMissing(String::from_str(name)) })
}

/// The text content of the element at handle `h`, or the empty string when
/// it has none.
pub fn text_or_empty(tree: &XmlTree, h: usize) -> (r: String)
    requires
        h < tree.nodes@.len(),
    ensures
        r@ == match tree.nodes@[h as int].text {
            Some(t) => t@,
            None => Seq::<char>::empty(),
        },
{
    match &tree.nodes[h].text {
        Some(t) => t.clone(),
        None => {
            let r = String::new();
            proof {
                assert(r@ =~= Seq::<char>::empty());
            }
            r
        },
    }
}

/// Walks the tree from handle `h` in document order and returns the first
/// element named `name`, per `find_from`.
fn find_rec(tree: &XmlTree, h: usize, name: &str) -> (r: Option<usize>)
    requires
        tree.wf(),
        h < tree.nodes@.len(),
    ensures
        match r {
            Some(x) => find_from(*tree, h as int, name@) == Some(x as int) && x < tree.nodes@.len(),
            None => find_from(*tree, h as int, name@) is None,
        },
    decreases h,
{
    if str_eq(tree.nodes[h].name.as_str(), name) {
        return Some(h);
    }
    let cs = &tree.nodes[h].children;
    let n = cs.len();
    let mut i: usize = 0;
    proof {
        assert(cs@.skip(0) =~= cs@);
    }
    while i < n
        invariant
            tree.wf(),
            h < tree.nodes@.len(),
            i <= n,
            n == cs@.len(),
            cs@ == tree.nodes@[h as int].children@,
            tree.nodes@[h as int].name@ != name@,
            find_in_children(*tree, cs@, h as int, name@) == find_in_children(
                *tree,
                cs@.skip(i as int),
                h as int,
                name@,
            ),
        decreases n - i,
    {
        proof {
            assert(cs@.skip(i as int)[0] == cs@[i as int]);
            assert(cs@.skip(i as int).drop_first() =~= cs@.skip(i as int + 1));
            assert(tree.wf_node(h as int));
        }
        let c = cs[i];
        proof {
            assert((c as int) < h as int);
        }
        let sub = find_rec(tree, c, name);
        match sub {
            Some(x) => {
                proof {
                    assert(find_in_children(*tree, cs@.skip(i as int), h as int, name@) == Some(
                        x as int,
                    ));
                }
                return Some(x);
            },
            None => {},
        }
        i = i + 1;
    }
    proof {
        assert(cs@.skip(n as int) =~= Seq::<usize>::empty());
    }
    None
}

/// Returns the first element named `name` reachable from the root in
/// document order, or fails with `ElementNotFound(name)`.
pub fn find(tree: &XmlTree, name: &str) -> (r: Result<usize, DocError>)
    requires
        tree.wf(),
    ensures
        match r {
            Ok(x) => find_from(*tree, tree.root as int, name@) == Some(x as int) && x
                < tree.nodes@.len(),
            Err(e) => find_from(*tree, tree.root as int, name@) is None && (
            e.kind matches ErrorKind::ElementNotFound(m) && m@ == name@),
        },
{
    match find_rec(tree, tree.root, name) {
        Some(x) => Ok(x),
        None => Err(DocError { kind: ErrorKind::ElementNotFound(String::from_str(name)) }),
    }
}

/// Returns the first direct child of the element at handle `h` named
/// `name`, or fails with `ElementNotFound(name)`.
pub fn find_child(tree: &XmlTree, h: usize, name: &str) -> (r: Result<usize, DocError>)
    requires
        tree.wf(),
        h < tree.nodes@.len(),
    ensures
        match r {
            Ok(x) => child_named(*tree, tree.nodes@[h as int].children@, name@) == Some(x as int)
                && x < tree.nodes@.len(),
            Err(e) => child_named(*tree, tree.nodes@[h as int].children@, name@) is None && (
            e.kind matches ErrorKind::ElementNotFound(m) && m@ == name@),
        },
{
    let cs = &tree.nodes[h].children;
    let n = cs.len();
    let mut i: usize = 0;
    proof {
        assert(cs@.skip(0) =~= cs@);
    }
    while i < n
        invariant
            tree.wf(),
            h < tree.nodes@.len(),
            i <= n,
            n == cs@.len(),
            cs@ == tree.nodes@[h as int].children@,
            child_named(*tree, cs@, name@) == child_named(*tree, cs@.skip(i as int), name@),
        decreases n - i,
    {
        proof {
            assert(cs@.skip(i as int)[0] == cs@[i as int]);
            assert(cs@.skip(i as int).drop_first() =~= cs@.skip(i as int + 1));
            assert(tree.wf_node(h as int));
        }
        let c = cs[i];
        if str_eq(tree.nodes[c].name.as_str(), name) {
            return Ok(c);
        }
        i = i + 1;
    }
    proof {
        assert(cs@.skip(n as int) =~= Seq::<usize>::empty());
    }
    Err(DocError { kind: ErrorKind::ElementNotFound(String::from_str(name)) })
}

} // verus!
