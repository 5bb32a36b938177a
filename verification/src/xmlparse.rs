use vstd::prelude::*;

use crate::errors::{DocError, ErrorKind};
use crate::xmltree::{XmlNode, XmlTree, arena_ok, child_bounded};

verus! {

/// One event of the markup stream, reduced to plain values: an element
/// opening (local name and attributes), an element closing, text content,
/// the end of the document, a parse failure, or an event of no interest
/// here (a declaration, a comment, inter-element whitespace).
pub enum RawEvent {
    ElemStart(String, Vec<(String, String)>),
    ElemEnd,
    Text(String),
    DocEnd,
    Fail,
    Skip,
}

/// A pull parser over a byte source. The outside reader type has a bound
/// Verus refuses to declare, so it sits opaque in a struct of this crate.
#[verifier::external_body]
struct EventSource<'a> {
    inner: xml::reader::EventReader<&'a [u8]>,
}

/// Relies on `xml::reader::EventReader::new`: wraps a byte source in a
/// pull parser. Nothing is promised of the still-unread stream.
#[verifier::external_body]
fn reader_new<'a>(bytes: &'a [u8]) -> EventSource<'a> {
    EventSource { inner: xml::reader::EventReader::new(bytes) }
}

/// Relies on `xml::reader::EventReader::next`: pulls the next event of the
/// stream. Each outside variant is mapped to one plain variant, element and
/// attribute names to their local names; nothing is promised of which
/// event comes, so callers must handle every variant.
#[verifier::external_body]
fn reader_next(r: &mut EventSource) -> RawEvent {
    match r.inner.next() {
        Ok(xml::reader::XmlEvent::StartElement { name, attributes, .. }) => RawEvent::ElemStart(
            name.local_name,
            attributes.into_iter().map(|a| (a.name.local_name, a.value)).collect(),
        ),
        Ok(xml::reader::XmlEvent::EndElement { .. }) => RawEvent::ElemEnd,
        Ok(xml::reader::XmlEvent::Characters(s)) => RawEvent::Text(s),
        Ok(xml::reader::XmlEvent::CData(s)) => RawEvent::Text(s),
        Ok(xml::reader::XmlEvent::EndDocument) => RawEvent::DocEnd,
        Ok(_) => RawEvent::Skip,
        Err(_) => RawEvent::Fail,
    }
}

/// Pulls events from the stream over `bytes` until the document ends or
/// the parser fails, or a generous bound on the event count is passed (no
/// event takes less than half a byte of input). The returned list always
/// ends with `DocEnd` or `Fail`.
pub fn read_events(bytes: &[u8]) -> (events: Vec<RawEvent>)
    ensures
        events@.len() > 0,
        (events@.last() matches RawEvent::DocEnd) || (events@.last() matches RawEvent::Fail),
        forall|j: int|
            0 <= j < events@.len() - 1 ==> !((#[trigger] events@[j]) matches RawEvent::DocEnd)
                && !(events@[j] matches RawEvent::Fail),
{
    let mut events: Vec<RawEvent> = Vec::new();
    let n = bytes.len();
    if n > (usize::MAX - 64) / 2 {
        events.push(RawEvent::Fail);
        return events;
    }
    let cap: usize = 2 * n + 64;
    let mut reader = reader_new(bytes);
    let mut i: usize = 0;
    while i < cap
        invariant
            forall|j: int|
                0 <= j < events@.len() ==> !((#[trigger] events@[j]) matches RawEvent::DocEnd)
                    && !(events@[j] matches RawEvent::Fail),
        decreases cap - i,
    {
        let ev = reader_next(&mut reader);
        match ev {
            RawEvent::DocEnd => {
                events.push(RawEvent::DocEnd);
                return events;
            },
            RawEvent::Fail => {
                events.push(RawEvent::Fail);
                return events;
            },
            other => {
                events.push(other);
            },
        }
        i = i + 1;
    }
    events.push(RawEvent::Fail);
    events
}

/// The mathematical shadow of an arena element: the same data as an
/// `XmlNode`, as plain sequences.
#[verifier::ext_equal]
pub struct NodeModel {
    pub name: Seq<char>,
    pub attrs: Seq<(Seq<char>, Seq<char>)>,
    pub text: Option<Seq<char>>,
    pub children: Seq<int>,
}

pub open spec fn pairs_model(attrs: Seq<(String, String)>) -> Seq<(Seq<char>, Seq<char>)> {
    attrs.map_values(|p: (String, String)| (p.0@, p.1@))
}

pub open spec fn node_model(n: XmlNode) -> NodeModel {
    NodeModel {
        name: n.name@,
        attrs: pairs_model(n.attrs@),
        text: match n.text {
            Some(t) => Some(t@),
            None => None,
        },
        children: n.children@.map_values(|c: usize| c as int),
    }
}

pub open spec fn nodes_model(s: Seq<XmlNode>) -> Seq<NodeModel> {
    s.map_values(|n: XmlNode| node_model(n))
}

/// What building a tree from the events yields, from a given stack of open
/// elements and arena of closed ones: an element start opens a frame; text
/// extends the top frame's text; an element end allocates the top frame
/// into the arena and records its handle in the parent frame; the document
/// end yields the arena when every element has closed and at least one
/// element exists; anything out of place (text or an element end outside
/// an element, a parser failure, a document that never ends) yields `None`.
pub open spec fn build_fold(
    events: Seq<RawEvent>,
    stack: Seq<NodeModel>,
    nodes: Seq<NodeModel>,
) -> Option<Seq<NodeModel>>
    decreases events.len(),
{
    if events.len() == 0 {
        None
    } else {
        match events[0] {
            RawEvent::ElemStart(name, attrs) => build_fold(
                events.drop_first(),
                stack.push(
                    NodeModel {
                        name: name@,
                        attrs: pairs_model(attrs@),
                        text: None,
                        children: Seq::empty(),
                    },
                ),
                nodes,
            ),
            RawEvent::Text(s) => if stack.len() == 0 {
                None
            } else {
                let top = stack.last();
                let t2 = match top.text {
                    Some(t) => t + s@,
                    None => s@,
                };
                build_fold(
                    events.drop_first(),
                    stack.update(
                        stack.len() - 1,
                        NodeModel {
                            name: top.name,
                            attrs: top.attrs,
                            text: Some(t2),
                            children: top.children,
                        },
                    ),
                    nodes,
                )
            },
            RawEvent::ElemEnd => if stack.len() == 0 {
                None
            } else {
                let node = stack.last();
                let h = nodes.len() as int;
                let stack2 = stack.drop_last();
                let nodes2 = nodes.push(node);
                if stack2.len() == 0 {
                    build_fold(events.drop_first(), stack2, nodes2)
                } else {
                    let p = stack2.last();
                    build_fold(
                        events.drop_first(),
                        stack2.update(
                            stack2.len() - 1,
                            NodeModel {
                                name: p.name,
                                attrs: p.attrs,
                                text: p.text,
                                children: p.children.push(h),
                            },
                        ),
                        nodes2,
                    )
                }
            },
            RawEvent::DocEnd => if stack.len() == 0 && nodes.len() > 0 {
                Some(nodes)
            } else {
                None
            },
            RawEvent::Fail => None,
            RawEvent::Skip => build_fold(events.drop_first(), stack, nodes),
        }
    }
}

/// What a whole event list builds, starting from nothing.
pub open spec fn built_of(events: Seq<RawEvent>) -> Option<Seq<NodeModel>> {
    build_fold(events, Seq::empty(), Seq::empty())
}

/// Copies a list of attribute pairs.
pub fn clone_pairs(v: &Vec<(String, String)>) -> (r: Vec<(String, String)>)
    ensures
        r@ == v@,
{
    let mut r: Vec<(String, String)> = Vec::new();
    let n = v.len();
    let mut i: usize = 0;
    while i < n
        invariant
            i <= n,
            n == v@.len(),
            r@ == v@.take(i as int),
        decreases n - i,
    {
        r.push((v[i].0.clone(), v[i].1.clone()));
        proof {
            assert(v@[i as int] == (v@[i as int].0, v@[i as int].1));
            assert(v@.take(i as int).push(v@[i as int]) =~= v@.take(i as int + 1));
        }
        i = i + 1;
    }
    proof {
        assert(v@.take(n as int) =~= v@);
    }
    r
}

/// Whether every child handle of every frame on the builder stack points
/// into the first `n` arena slots.
pub open spec fn frames_ok(stack: Seq<XmlNode>, n: int) -> bool {
    forall|k: int, b: int|
        0 <= k < stack.len() && 0 <= b < stack[k].children@.len() ==> (
        stack[k].children@[b] as int) < n
}

/// Builds the element arena from an event list, per `build_fold`: a frame
/// is opened per element start, filled with text and closed children, and
/// allocated on its end, so children always precede their parent in the
/// arena. Succeeds exactly when the events close a well-formed document,
/// and then returns a well-formed tree holding exactly what the fold
/// yields, with the root the last element closed.
pub fn build_tree(events: &Vec<RawEvent>) -> (r: Result<XmlTree, DocError>)
    ensures
        r is Ok <==> built_of(events@) is Some,
        r matches Ok(t) ==> built_of(events@) == Some(nodes_model(t.nodes@)) && t.wf(),
        r matches Err(e) ==> e.kind == ErrorKind::MalformedInput,
{
    let m = events.len();
    let mut stack: Vec<XmlNode> = Vec::new();
    let mut nodes: Vec<XmlNode> = Vec::new();
    let mut i: usize = 0;
    proof {
        assert(events@.skip(0) =~= events@);
        assert(nodes_model(stack@) =~~= Seq::<NodeModel>::empty());
        assert(nodes_model(nodes@) =~~= Seq::<NodeModel>::empty());
    }
    while i < m
        invariant
            i <= m,
            m == events@.len(),
            arena_ok(nodes@),
            frames_ok(stack@, nodes@.len() as int),
            build_fold(events@.skip(i as int), nodes_model(stack@), nodes_model(nodes@))
                == built_of(events@),
        decreases m - i,
    {
        proof {
            assert(events@.skip(i as int)[0] == events@[i as int]);
            assert(events@.skip(i as int).drop_first() =~= events@.skip(i as int + 1));
        }
        let ev = &events[i];
        match ev {
            RawEvent::ElemStart(name, attrs) => {
                let ghost pre_stack = stack@;
                let node = XmlNode {
                    name: name.clone(),
                    attrs: clone_pairs(attrs),
                    text: None,
                    children: Vec::new(),
                };
                proof {
                    assert(node_model(node) =~~= (NodeModel {
                        name: name@,
                        attrs: pairs_model(attrs@),
                        text: None,
                        children: Seq::empty(),
                    }));
                }
                stack.push(node);
                proof {
                    assert(nodes_model(stack@) =~~= nodes_model(pre_stack).push(
                        node_model(stack@.last()),
                    ));
                }
            },
            RawEvent::Text(s) => {
                if stack.len() == 0 {
                    return Err(DocError { kind: ErrorKind::MalformedInput });
                }
                let ghost pre_stack = stack@;
                let XmlNode { name, attrs, text, children } = stack.pop().unwrap();
                let t2 = match text {
                    Some(t) => t.concat(s.as_str()),
                    None => s.clone(),
                };
                let node = XmlNode { name, attrs, text: Some(t2), children };
                proof {
                    let top = nodes_model(pre_stack).last();
                    assert(top == node_model(pre_stack.last()));
                    assert(node_model(node) =~~= (NodeModel {
                        name: top.name,
                        attrs: top.attrs,
                        text: Some(
                            match top.text {
                                Some(t) => t + s@,
                                None => s@,
                            },
                        ),
                        children: top.children,
                    }));
                }
                stack.push(node);
                proof {
                    assert(nodes_model(stack@) =~~= nodes_model(pre_stack).update(
                        pre_stack.len() - 1,
                        node_model(stack@.last()),
                    ));
                }
            },
            RawEvent::ElemEnd => {
                if stack.len() == 0 {
                    return Err(DocError { kind: ErrorKind::MalformedInput });
                }
                let ghost pre_nodes = nodes@;
                let ghost pre_stack = stack@;
                let node = stack.pop().unwrap();
                let h = nodes.len();
                nodes.push(node);
                proof {
                    assert(pre_stack[pre_stack.len() - 1] == node);
                    assert forall|a: int| 0 <= a < nodes@.len() implies #[trigger] child_bounded(
                        nodes@,
                        a,
                    ) by {
                        if a < nodes@.len() - 1 {
                            assert(child_bounded(pre_nodes, a));
                            assert(nodes@[a] == pre_nodes[a]);
                        } else {
                            assert(nodes@[a] == node);
                        }
                    }
                    assert(nodes_model(nodes@) =~~= nodes_model(pre_nodes).push(
                        node_model(node),
                    ));
                    assert(node_model(node) == nodes_model(pre_stack).last());
                    assert(nodes_model(stack@) =~~= nodes_model(pre_stack).drop_last());
                }
                if stack.len() > 0 {
                    let ghost mid_stack = stack@;
                    let XmlNode { name, attrs, text, children } = stack.pop().unwrap();
                    let mut children = children;
                    children.push(h);
                    let parent = XmlNode { name, attrs, text, children };
                    proof {
                        let p = nodes_model(mid_stack).last();
                        assert(p == node_model(mid_stack.last()));
                        assert(node_model(parent) =~~= (NodeModel {
                            name: p.name,
                            attrs: p.attrs,
                            text: p.text,
                            children: p.children.push(h as int),
                        }));
                    }
                    stack.push(parent);
                    proof {
                        assert(nodes_model(stack@) =~~= nodes_model(mid_stack).update(
                            mid_stack.len() - 1,
                            node_model(stack@.last()),
                        ));
                    }
                }
            },
            RawEvent::DocEnd => {
                if stack.len() == 0 && nodes.len() > 0 {
                    let root = nodes.len() - 1;
                    return Ok(XmlTree { nodes, root });
                } else {
                    return Err(DocError { kind: ErrorKind::MalformedInput });
                }
            },
            RawEvent::Fail => {
                return Err(DocError { kind: ErrorKind::MalformedInput });
            },
            RawEvent::Skip => {},
        }
        i = i + 1;
    }
    Err(DocError { kind: ErrorKind::MalformedInput })
}

/// Parses markup bytes into an element tree, or fails with
/// `MalformedInput` when they do not hold a single well-formed document.
pub fn parse_tree(bytes: &[u8]) -> (r: Result<XmlTree, DocError>)
    ensures
        r matches Ok(t) ==> t.wf(),
        r matches Err(e) ==> e.kind == ErrorKind::MalformedInput,
{
    let events = read_events(bytes);
    build_tree(&events)
}

} // verus!
