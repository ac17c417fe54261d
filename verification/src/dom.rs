//! The document tree that a parse builds: an arena of nodes, addressed by
//! handles, with the mutations that tree construction needs.

use vstd::prelude::*;
use crate::element::{element_type_for, element_type_of, ElementTypeId};
use crate::msg::{DomError, PipelineId, SubpageId};
use crate::text::{chars_of, html_space, is_html_space, opt_chars, str_eq};

verus! {

/// Names a node of a document. Tree construction hands handles out and takes
/// them back unchanged.
#[derive(Clone, Copy, Debug, PartialEq, Eq, Structural)]
pub struct NodeHandle(pub usize);

/// How far a document departs from standards-mode rendering.
#[derive(Clone, Copy, Debug, PartialEq, Eq, Structural)]
pub enum QuirksMode {
    NoQuirks,
    LimitedQuirks,
    FullQuirks,
}

/// The sub-document that a frame element is bound to.
#[derive(Clone, Copy, Debug, PartialEq, Eq, Structural)]
pub struct IFrameSize {
    pub pipeline_id: PipelineId,
    pub subpage_id: SubpageId,
}

/// An attribute of an element.
#[derive(Clone, Debug, PartialEq, Eq)]
pub struct Attribute {
    pub name: String,
    pub value: String,
}

/// What an `Attribute` holds, as mathematical values.
pub struct AttributeView {
    pub name: Seq<char>,
    pub value: Seq<char>,
}

impl View for Attribute {
    type V = AttributeView;

    open spec fn view(&self) -> AttributeView {
        AttributeView { name: self.name@, value: self.value@ }
    }
}

/// What a list of attributes holds, as mathematical values.
pub open spec fn attribute_views(attrs: Seq<Attribute>) -> Seq<AttributeView> {
    attrs.map_values(|a: Attribute| a@)
}

/// The pending association of a frame element with its sub-document.
pub struct Frame {
    pub url: String,
    pub size: IFrameSize,
}

/// What a `Frame` holds, as mathematical values.
pub struct FrameView {
    pub url: Seq<char>,
    pub size: IFrameSize,
}

/// What a node is, and the data that belongs to its kind.
pub enum NodeData {
    Document,
    Doctype { name: String, public_id: String, system_id: String },
    Element {
        type_id: ElementTypeId,
        local_name: String,
        attrs: Vec<Attribute>,
        frame: Option<Frame>,
    },
    Text { data: String },
    Comment { data: String },
}

/// What a `NodeData` holds, as mathematical values.
pub enum NodeDataView {
    Document,
    Doctype { name: Seq<char>, public_id: Seq<char>, system_id: Seq<char> },
    Element {
        type_id: ElementTypeId,
        local_name: Seq<char>,
        attrs: Seq<AttributeView>,
        frame: Option<FrameView>,
    },
    Text { data: Seq<char> },
    Comment { data: Seq<char> },
}

impl View for NodeData {
    type V = NodeDataView;

    open spec fn view(&self) -> NodeDataView {
        match self {
            NodeData::Document => NodeDataView::Document,
            NodeData::Doctype { name, public_id, system_id } => NodeDataView::Doctype {
                name: name@,
                public_id: public_id@,
                system_id: system_id@,
            },
            NodeData::Element { type_id, local_name, attrs, frame } => NodeDataView::Element {
                type_id: *type_id,
                local_name: local_name@,
                attrs: attribute_views(attrs@),
                frame: match frame {
                    Some(f) => Some(FrameView { url: f.url@, size: f.size }),
                    None => None,
                },
            },
            NodeData::Text { data } => NodeDataView::Text { data: data@ },
            NodeData::Comment { data } => NodeDataView::Comment { data: data@ },
        }
    }
}

/// A node of the arena: its data and its place in the tree.
pub struct Node {
    pub data: NodeData,
    pub parent: Option<NodeHandle>,
    pub children: Vec<NodeHandle>,
}

/// What a `Node` holds, as mathematical values.
pub struct NodeView {
    pub data: NodeDataView,
    pub parent: Option<NodeHandle>,
    pub children: Seq<NodeHandle>,
}

impl View for Node {
    type V = NodeView;

    open spec fn view(&self) -> NodeView {
        NodeView { data: self.data@, parent: self.parent, children: self.children@ }
    }
}

/// What a `Document` holds, as mathematical values. Node `i` of the arena is
/// `nodes[i]`; node 0 is the document node.
pub struct DocumentView {
    pub nodes: Seq<NodeView>,
    pub quirks_mode: QuirksMode,
    pub encoding_name: Seq<char>,
}

impl DocumentView {
    /// The handle names a node of this document.
    pub open spec fn has(self, h: NodeHandle) -> bool {
        h.0 < self.nodes.len()
    }

    /// The node that a handle names.
    pub open spec fn node(self, h: NodeHandle) -> NodeView {
        self.nodes[h.0 as int]
    }

    /// The handle names an element.
    pub open spec fn is_element(self, h: NodeHandle) -> bool {
        self.has(h) && self.node(h).data is Element
    }

    /// The attributes of an element, in the order in which they were attached.
    pub open spec fn attrs(self, h: NodeHandle) -> Seq<AttributeView> {
        self.node(h).data->attrs
    }

    /// This document with one more node at the end of the arena, attached nowhere.
    pub open spec fn with_new_node(self, data: NodeDataView) -> DocumentView {
        DocumentView {
            nodes: self.nodes.push(NodeView { data, parent: None, children: Seq::empty() }),
            ..self
        }
    }

    /// This document with the data of one node replaced.
    pub open spec fn with_data(self, h: NodeHandle, data: NodeDataView) -> DocumentView {
        DocumentView {
            nodes: self.nodes.update(h.0 as int, NodeView { data, ..self.node(h) }),
            ..self
        }
    }
}

/// The index of the first attribute named `name`, or the number of
/// attributes if there is none.
pub open spec fn position_of(attrs: Seq<AttributeView>, name: Seq<char>) -> int
    decreases attrs.len(),
{
    if attrs.len() == 0 {
        0
    } else if attrs[0].name == name {
        0
    } else {
        1 + position_of(attrs.drop_first(), name)
    }
}

/// The value of the first attribute named `name`.
pub open spec fn attr_value(attrs: Seq<AttributeView>, name: Seq<char>) -> Option<Seq<char>> {
    let i = position_of(attrs, name);
    if i < attrs.len() {
        Some(attrs[i].value)
    } else {
        None
    }
}

/// The attributes after `name` was set to `value`: the first attribute of
/// that name takes the value, or a new attribute comes last.
pub open spec fn with_attr(attrs: Seq<AttributeView>, name: Seq<char>, value: Seq<char>) -> Seq<
    AttributeView,
> {
    let i = position_of(attrs, name);
    if i < attrs.len() {
        attrs.update(i, AttributeView { name, value })
    } else {
        attrs.push(AttributeView { name, value })
    }
}

/// `position_of` finds `i` exactly when no attribute before `i` has the
/// name and `i` is the end or has it.
pub proof fn lemma_position_of(attrs: Seq<AttributeView>, name: Seq<char>, i: int)
    requires
        0 <= i <= attrs.len(),
        forall|j: int| 0 <= j < i ==> (#[trigger] attrs[j]).name != name,
        i < attrs.len() ==> attrs[i].name == name,
    ensures
        position_of(attrs, name) == i,
    decreases attrs.len(),
{
    if attrs.len() > 0 && i > 0 {
        let rest = attrs.drop_first();
        assert(attrs[0].name != name);
        assert forall|j: int| 0 <= j < i - 1 implies (#[trigger] rest[j]).name != name by {
            assert(rest[j] == attrs[j + 1]);
        }
        lemma_position_of(rest, name, i - 1);
    }
}

/// A name that an attribute may have: not empty, and free of space
/// characters, `/`, `>`, `=` and the null character.
pub open spec fn is_attribute_name(name: Seq<char>) -> bool {
    &&& name.len() > 0
    &&& forall|k: int| 0 <= k < name.len() ==> !is_name_breaker(#[trigger] name[k])
}

/// A character that ends an attribute name in markup, so that no name holds it.
pub open spec fn is_name_breaker(c: char) -> bool {
    is_html_space(c) || c == '/' || c == '>' || c == '=' || c == '\0'
}

/// The characters of the text children of a node, child after child.
pub open spec fn text_of_children(d: DocumentView, children: Seq<NodeHandle>) -> Seq<char>
    decreases children.len(),
{
    if children.len() == 0 {
        Seq::empty()
    } else {
        let last = children.last();
        let head = text_of_children(d, children.drop_last());
        if d.has(last) && d.node(last).data is Text {
            head + d.node(last).data->Text_data
        } else {
            head
        }
    }
}

/// `path` climbs the tree: each handle after the first names the parent of
/// the one before it.
pub open spec fn is_chain(d: DocumentView, path: Seq<NodeHandle>) -> bool {
    &&& path.len() > 0
    &&& forall|k: int| 0 <= k < path.len() ==> d.has(#[trigger] path[k])
    &&& forall|k: int|
        0 <= k < path.len() - 1 ==> d.node(#[trigger] path[k]).parent == Some(path[k + 1])
}

/// `a` is `x` itself or one of the nodes above it.
pub open spec fn inclusive_ancestor(d: DocumentView, a: NodeHandle, x: NodeHandle) -> bool {
    exists|path: Seq<NodeHandle>|
        #[trigger] is_chain(d, path) && path[0] == x && path.last() == a
}

/// Along `rank`, every node stands above its parent: no node is its own ancestor.
pub open spec fn ranked(d: DocumentView, rank: Seq<nat>) -> bool {
    &&& rank.len() == d.nodes.len()
    &&& forall|i: int|
        0 <= i < d.nodes.len() ==> match (#[trigger] d.nodes[i]).parent {
            Some(p) => p.0 < d.nodes.len() && rank[p.0 as int] < rank[i],
            None => true,
        }
}

/// The shape that every document keeps: node 0 is the only document node
/// and the root; parents and children agree; no child is listed twice; only
/// the document node and elements have children; and the links form a forest.
pub open spec fn well_formed(d: DocumentView) -> bool {
    &&& 0 < d.nodes.len() <= usize::MAX
    &&& d.nodes[0].data is Document
    &&& d.nodes[0].parent is None
    &&& forall|i: int|
        0 < i < d.nodes.len() ==> !((#[trigger] d.nodes[i]).data is Document)
    &&& forall|i: int|
        0 <= i < d.nodes.len() ==> match (#[trigger] d.nodes[i]).parent {
            Some(p) => d.has(p) && d.node(p).children.contains(NodeHandle(i as usize)),
            None => true,
        }
    &&& forall|i: int, k: int|
        0 <= i < d.nodes.len() && 0 <= k < d.nodes[i].children.len() ==> {
            let c = #[trigger] d.nodes[i].children[k];
            d.has(c) && d.node(c).parent == Some(NodeHandle(i as usize))
        }
    &&& forall|i: int| 0 <= i < d.nodes.len() ==> (#[trigger] d.nodes[i]).children.no_duplicates()
    &&& forall|i: int|
        0 <= i < d.nodes.len() && (#[trigger] d.nodes[i]).children.len() > 0 ==> (d.nodes[i].data
            is Document || d.nodes[i].data is Element)
    &&& exists|rank: Seq<nat>| #[trigger] ranked(d, rank)
}

/// The list `s` without its element `x`.
pub open spec fn without(s: Seq<NodeHandle>, x: NodeHandle) -> Seq<NodeHandle> {
    s.remove(s.index_of(x))
}

/// Why `child` cannot become the last child of `parent`, if it cannot: a
/// handle names no node; the parent is neither the document node nor an
/// element, or the child is the document node; or the child is the parent
/// or stands above it.
pub open spec fn append_error(d: DocumentView, parent: NodeHandle, child: NodeHandle) -> Option<
    DomError,
> {
    if !d.has(parent) || !d.has(child) {
        Some(DomError::NotFound)
    } else if !(d.node(parent).data is Document || d.node(parent).data is Element) || d.node(
        child,
    ).data is Document {
        Some(DomError::HierarchyRequest)
    } else if inclusive_ancestor(d, child, parent) {
        Some(DomError::HierarchyRequest)
    } else {
        None
    }
}

/// The document after `child` left the list of children of its parent, if it has one.
pub open spec fn detached(d: DocumentView, child: NodeHandle) -> DocumentView {
    match d.node(child).parent {
        Some(q) => DocumentView {
            nodes: d.nodes.update(
                q.0 as int,
                NodeView { children: without(d.node(q).children, child), ..d.node(q) },
            ),
            ..d
        },
        None => d,
    }
}

/// The document after `child` became the last child of `parent`, leaving
/// the parent that it had.
pub open spec fn appended(d: DocumentView, parent: NodeHandle, child: NodeHandle) -> DocumentView {
    let e = detached(d, child);
    let moved = e.nodes.update(child.0 as int, NodeView { parent: Some(parent), ..e.node(child) });
    DocumentView {
        nodes: moved.update(
            parent.0 as int,
            NodeView {
                children: moved[parent.0 as int].children.push(child),
                ..moved[parent.0 as int]
            },
        ),
        ..d
    }
}

/// A node without children stands above no other node. This is what lets
/// a tree be built from the top: a new node can always go under a node
/// that is there, the parent being an element or the document node.
pub proof fn lemma_childless_is_no_ancestor(d: DocumentView, a: NodeHandle, x: NodeHandle)
    requires
        well_formed(d),
        d.has(a),
        d.node(a).children.len() == 0,
        a != x,
    ensures
        !inclusive_ancestor(d, a, x),
{
    if inclusive_ancestor(d, a, x) {
        let path = choose|path: Seq<NodeHandle>|
            #[trigger] is_chain(d, path) && path[0] == x && path.last() == a;
        let k = path.len() - 2;
        assert(d.has(path[k]));
        assert(d.node(path[k]).parent == Some(path[k + 1]));
        assert(d.nodes[path[k].0 as int].parent == Some(a));
        assert(d.node(a).children.contains(NodeHandle(path[k].0)));
    }
}

/// What is left of a list without duplicates when one element leaves.
proof fn lemma_without(s: Seq<NodeHandle>, x: NodeHandle, idx: int)
    requires
        s.no_duplicates(),
        0 <= idx < s.len(),
        s[idx] == x,
    ensures
        without(s, x) == s.remove(idx),
        without(s, x).len() == s.len() - 1,
        without(s, x).no_duplicates(),
        !without(s, x).contains(x),
        forall|y: NodeHandle| y != x && s.contains(y) ==> #[trigger] without(s, x).contains(y),
        forall|k: int| 0 <= k < without(s, x).len() ==> s.contains(#[trigger] without(s, x)[k]),
{
    let i = s.index_of(x);
    assert(0 <= i < s.len() && s[i] == x);
    assert(i == idx);
    let r = s.remove(idx);
    assert forall|y: NodeHandle| y != x && s.contains(y) implies #[trigger] r.contains(y) by {
        let j = choose|j: int| 0 <= j < s.len() && s[j] == y;
        if j < idx {
            assert(r[j] == y);
        } else {
            assert(r[j - 1] == y);
        }
    }
    assert forall|k: int| 0 <= k < r.len() implies s.contains(#[trigger] r[k]) by {
        if k < idx {
            assert(s[k] == r[k]);
        } else {
            assert(s[k + 1] == r[k]);
        }
    }
    assert(r.no_duplicates()) by {
        assert forall|a: int, b: int| 0 <= a < r.len() && 0 <= b < r.len() && a != b implies r[a]
            != r[b] by {
            let a2 = if a < idx { a } else { a + 1 };
            let b2 = if b < idx { b } else { b + 1 };
            assert(r[a] == s[a2] && r[b] == s[b2]);
        }
    }
    assert(!r.contains(x)) by {
        if r.contains(x) {
            let k = choose|k: int| 0 <= k < r.len() && r[k] == x;
            let k2 = if k < idx { k } else { k + 1 };
            assert(s[k2] == x);
        }
    }
}

/// Two climbs from one node agree as far as both go, and none goes past a
/// node without a parent.
proof fn lemma_chains_agree(d: DocumentView, full: Seq<NodeHandle>, other: Seq<NodeHandle>, k: int)
    requires
        is_chain(d, full),
        is_chain(d, other),
        full[0] == other[0],
        d.node(full.last()).parent is None,
        0 <= k < other.len(),
    ensures
        k < full.len(),
        other[k] == full[k],
    decreases k,
{
    if k > 0 {
        lemma_chains_agree(d, full, other, k - 1);
        assert(d.node(other[k - 1]).parent == Some(other[k]));
        if k - 1 == full.len() - 1 {
            assert(other[k - 1] == full.last());
        } else {
            assert(d.node(full[k - 1]).parent == Some(full[k]));
        }
    }
}

/// The ranks after `child` went under `parent`: the nodes on the climb from
/// the parent keep theirs, every other node rises above the parent.
spec fn lifted(rank: Seq<nat>, path: Seq<NodeHandle>, parent: NodeHandle) -> Seq<nat> {
    Seq::new(
        rank.len(),
        |i: int|
            if path.contains(NodeHandle(i as usize)) {
                rank[i]
            } else {
                rank[i] + rank[parent.0 as int] + 1
            },
    )
}

/// Appending a child that is not above its new parent keeps the shape of the document.
proof fn lemma_append_keeps_shape(
    d: DocumentView,
    rank: Seq<nat>,
    parent: NodeHandle,
    child: NodeHandle,
    path: Seq<NodeHandle>,
)
    requires
        well_formed(d),
        ranked(d, rank),
        d.has(parent),
        d.has(child),
        d.node(parent).data is Document || d.node(parent).data is Element,
        !(d.node(child).data is Document),
        is_chain(d, path),
        path[0] == parent,
        d.node(path.last()).parent is None,
        !path.contains(child),
    ensures
        well_formed(appended(d, parent, child)),
        ranked(appended(d, parent, child), lifted(rank, path, parent)),
{
    let a = appended(d, parent, child);
    let e = detached(d, child);
    let n = d.nodes.len();
    let new_rank = lifted(rank, path, parent);
    assert(path.contains(parent)) by {
        assert(path[0] == parent);
    }
    assert(child != parent);
    assert(child.0 != 0);
    assert(a.nodes.len() == n);
    // what the nodes look like afterwards
    let q = d.node(child).parent;
    if q is Some {
        let qh = q->0;
        assert(d.nodes[child.0 as int].parent == Some(qh));
        assert(d.has(qh) && d.node(qh).children.contains(child));
        let idx = choose|j: int|
            0 <= j < d.node(qh).children.len() && d.node(qh).children[j] == child;
        assert(d.nodes[qh.0 as int].children.no_duplicates());
        lemma_without(d.node(qh).children, child, idx);
        assert(rank[qh.0 as int] < rank[child.0 as int]);
        assert(qh != child);
    }
    assert forall|i: int| 0 <= i < n implies (#[trigger] a.nodes[i]).data == d.nodes[i].data by {}
    assert forall|i: int| 0 <= i < n && i != child.0 implies (#[trigger] a.nodes[i]).parent
        == d.nodes[i].parent by {}
    assert(a.nodes[child.0 as int].parent == Some(parent));
    assert forall|i: int| 0 <= i < n && i != parent.0 && Some(NodeHandle(i as usize)) != q implies (
    #[trigger] a.nodes[i]).children == d.nodes[i].children by {}
    assert(forall|i: int|
        0 <= i < n && i != parent.0 && Some(NodeHandle(i as usize)) != q ==> !(
        #[trigger] d.nodes[i]).children.contains(child)) by {
        assert forall|i: int|
            0 <= i < n && i != parent.0 && Some(NodeHandle(i as usize)) != q implies !(
        #[trigger] d.nodes[i]).children.contains(child) by {
            if d.nodes[i].children.contains(child) {
                let k = choose|k: int|
                    0 <= k < d.nodes[i].children.len() && d.nodes[i].children[k] == child;
                assert(d.node(d.nodes[i].children[k]).parent == Some(NodeHandle(i as usize)));
            }
        }
    }
    let before_push = e.node(parent).children;
    assert(a.nodes[parent.0 as int].children == before_push.push(child));
    assert(!before_push.contains(child)) by {
        if q != Some(parent) {
            assert(before_push == d.nodes[parent.0 as int].children);
            if before_push.contains(child) {
                let k = choose|k: int| 0 <= k < before_push.len() && before_push[k] == child;
                assert(d.node(d.nodes[parent.0 as int].children[k]).parent == Some(parent));
            }
        }
    }
    assert forall|k: int| 0 <= k < before_push.len() implies d.nodes[parent.0 as int].children.contains(
        #[trigger] before_push[k],
    ) by {
        if q != Some(parent) {
            assert(before_push == d.nodes[parent.0 as int].children);
        }
    }
    // children of every node name nodes whose parent it is
    assert forall|i: int, k: int| 0 <= i < n && 0 <= k < a.nodes[i].children.len() implies {
        let c = #[trigger] a.nodes[i].children[k];
        a.has(c) && a.node(c).parent == Some(NodeHandle(i as usize))
    } by {
        let c = a.nodes[i].children[k];
        let me = NodeHandle(i as usize);
        if i == parent.0 {
            if k == before_push.len() {
                assert(c == child);
            } else {
                assert(c == before_push[k]);
                assert(d.nodes[i].children.contains(c));
                let k0 = choose|k0: int|
                    0 <= k0 < d.nodes[i].children.len() && d.nodes[i].children[k0] == c;
                assert(d.node(d.nodes[i].children[k0]).parent == Some(me));
                assert(c != child);
            }
        } else if Some(me) == q {
            assert(a.nodes[i].children == without(d.nodes[i].children, child));
            assert(d.nodes[i].children.contains(c));
            let k0 = choose|k0: int|
                0 <= k0 < d.nodes[i].children.len() && d.nodes[i].children[k0] == c;
            assert(d.node(d.nodes[i].children[k0]).parent == Some(me));
            assert(a.nodes[i].children.contains(c));
            assert(c != child);
        } else {
            assert(d.node(d.nodes[i].children[k]).parent == Some(me));
            assert(d.nodes[i].children.contains(c));
            assert(c != child);
        }
    }
    // the parent of every node lists it
    assert forall|i: int| 0 <= i < n implies match (#[trigger] a.nodes[i]).parent {
        Some(p) => a.has(p) && a.node(p).children.contains(NodeHandle(i as usize)),
        None => true,
    } by {
        let me = NodeHandle(i as usize);
        if i == child.0 {
            assert(a.nodes[parent.0 as int].children[before_push.len() as int] == child);
        } else if a.nodes[i].parent is Some {
            let p = a.nodes[i].parent->0;
            assert(d.nodes[i].parent == Some(p));
            assert(d.has(p) && d.node(p).children.contains(me));
            if p == parent {
                if q == Some(parent) {
                    assert(before_push.contains(me));
                } else {
                    assert(before_push == d.nodes[parent.0 as int].children);
                }
                let k0 = choose|k0: int| 0 <= k0 < before_push.len() && before_push[k0] == me;
                assert(a.nodes[parent.0 as int].children[k0] == me);
            } else if Some(p) == q {
                assert(a.nodes[p.0 as int].children == without(
                    d.nodes[p.0 as int].children,
                    child,
                ));
                assert(without(d.nodes[p.0 as int].children, child).contains(me));
            } else {
                assert(a.nodes[p.0 as int].children == d.nodes[p.0 as int].children);
            }
        }
    }
    assert forall|i: int| 0 <= i < n implies (#[trigger] a.nodes[i]).children.no_duplicates() by {
        assert(d.nodes[i].children.no_duplicates());
        if i == parent.0 {
            assert(before_push.no_duplicates()) by {
                if q != Some(parent) {
                    assert(before_push == d.nodes[parent.0 as int].children);
                }
            }
            let after_push = before_push.push(child);
            assert forall|x: int, y: int|
                0 <= x < after_push.len() && 0 <= y < after_push.len() && x != y implies after_push[x]
                != after_push[y] by {
                if x == before_push.len() {
                    assert(before_push.contains(before_push[y]));
                } else if y == before_push.len() {
                    assert(before_push.contains(before_push[x]));
                }
            }
        }
    }
    assert forall|i: int| 0 <= i < n && (#[trigger] a.nodes[i]).children.len() > 0 implies (
    a.nodes[i].data is Document || a.nodes[i].data is Element) by {
        if i != parent.0 {
            assert(d.nodes[i].children.len() > 0);
        }
    }
    // ranks
    assert forall|i: int| 0 <= i < n implies match (#[trigger] a.nodes[i]).parent {
        Some(p) => p.0 < n && new_rank[p.0 as int] < new_rank[i],
        None => true,
    } by {
        let me = NodeHandle(i as usize);
        if i != child.0 && a.nodes[i].parent is Some {
            let p = a.nodes[i].parent->0;
            assert(d.nodes[i].parent == Some(p));
            assert(rank[p.0 as int] < rank[i]);
            if path.contains(me) {
                let k = choose|k: int| 0 <= k < path.len() && path[k] == me;
                if k == path.len() - 1 {
                    assert(path.last() == me);
                } else {
                    assert(d.node(path[k]).parent == Some(path[k + 1]));
                    assert(path[k + 1] == p);
                    assert(path.contains(p));
                }
            }
        }
    }
    assert(ranked(a, new_rank));
}

/// A change to the data of nodes that keeps every kind, parent and list of
/// children keeps the shape of the document.
proof fn lemma_same_links(a: DocumentView, b: DocumentView, rank: Seq<nat>)
    requires
        well_formed(a),
        ranked(a, rank),
        a.nodes.len() == b.nodes.len(),
        forall|i: int|
            0 <= i < a.nodes.len() ==> (#[trigger] b.nodes[i]).parent == a.nodes[i].parent
                && b.nodes[i].children == a.nodes[i].children && (b.nodes[i].data is Document
                <==> a.nodes[i].data is Document) && (b.nodes[i].data is Element
                <==> a.nodes[i].data is Element),
    ensures
        well_formed(b),
        ranked(b, rank),
{
    assert(ranked(b, rank));
    assert forall|i: int| 0 <= i < b.nodes.len() implies match (#[trigger] b.nodes[i]).parent {
        Some(p) => b.has(p) && b.node(p).children.contains(NodeHandle(i as usize)),
        None => true,
    } by {
        let _ = a.nodes[i];
    }
    assert forall|i: int, k: int|
        0 <= i < b.nodes.len() && 0 <= k < b.nodes[i].children.len() implies {
        let c = #[trigger] b.nodes[i].children[k];
        b.has(c) && b.node(c).parent == Some(NodeHandle(i as usize))
    } by {
        let c = a.nodes[i].children[k];
        assert(a.has(c) && a.node(c).parent == Some(NodeHandle(i as usize)));
    }
}

/// The shape of a document lies in its nodes alone.
proof fn lemma_same_nodes(a: DocumentView, b: DocumentView, rank: Seq<nat>)
    requires
        well_formed(a),
        ranked(a, rank),
        a.nodes == b.nodes,
    ensures
        well_formed(b),
        ranked(b, rank),
{
    assert(ranked(b, rank));
}

/// Why `name` cannot be set on node `h`, if it cannot.
pub open spec fn set_attribute_error(d: DocumentView, h: NodeHandle, name: Seq<char>) -> Option<
    DomError,
> {
    if !d.has(h) {
        Some(DomError::NotFound)
    } else if !(d.node(h).data is Element) {
        Some(DomError::InvalidNodeType)
    } else if !is_attribute_name(name) {
        Some(DomError::InvalidCharacter)
    } else {
        None
    }
}

/// The data of an element after `name` was set to `value` on it.
pub open spec fn data_with_attr(
    data: NodeDataView,
    name: Seq<char>,
    value: Seq<char>,
) -> NodeDataView {
    NodeDataView::Element {
        type_id: data->type_id,
        local_name: data->local_name,
        attrs: with_attr(data->attrs, name, value),
        frame: data->frame,
    }
}

/// Why node `h` cannot be bound to a sub-document, if it cannot.
pub open spec fn set_frame_error(d: DocumentView, h: NodeHandle) -> Option<DomError> {
    if !d.has(h) {
        Some(DomError::NotFound)
    } else if !(d.node(h).data is Element) || d.node(h).data->type_id
        != ElementTypeId::HTMLIFrameElement {
        Some(DomError::InvalidNodeType)
    } else {
        None
    }
}

/// The data of a frame element after it was bound to a sub-document.
pub open spec fn data_with_frame(
    data: NodeDataView,
    url: Seq<char>,
    size: IFrameSize,
) -> NodeDataView {
    NodeDataView::Element {
        type_id: data->type_id,
        local_name: data->local_name,
        attrs: data->attrs,
        frame: Some(FrameView { url, size }),
    }
}

/// Whether `c` is a character that no attribute name holds.
pub fn name_breaker(c: char) -> (r: bool)
    ensures
        r == is_name_breaker(c),
{
    html_space(c) || c == '/' || c == '>' || c == '=' || c == '\0'
}

/// Whether `name` is a name that an attribute may have.
pub fn valid_attribute_name(name: &str) -> (r: bool)
    ensures
        r == is_attribute_name(name@),
{
    let v = chars_of(name);
    if v.len() == 0 {
        return false;
    }
    let mut k: usize = 0;
    while k < v.len()
        invariant
            k <= v.len(),
            v@ == name@,
            forall|j: int| 0 <= j < k ==> !is_name_breaker(#[trigger] name@[j]),
        decreases v.len() - k,
    {
        if name_breaker(v[k]) {
            return false;
        }
        k = k + 1;
    }
    true
}

/// The index of the first attribute named `name`, or the number of attributes.
pub fn find_attribute(attrs: &Vec<Attribute>, name: &str) -> (i: usize)
    ensures
        i == position_of(attribute_views(attrs@), name@),
        i <= attrs.len(),
{
    let ghost views = attribute_views(attrs@);
    let mut i: usize = 0;
    while i < attrs.len()
        invariant
            i <= attrs.len(),
            views == attribute_views(attrs@),
            forall|j: int| 0 <= j < i ==> (#[trigger] views[j]).name != name@,
        decreases attrs.len() - i,
    {
        if str_eq(attrs[i].name.as_str(), name) {
            proof {
                lemma_position_of(views, name@, i as int);
            }
            return i;
        }
        i = i + 1;
    }
    proof {
        lemma_position_of(views, name@, i as int);
    }
    i
}

/// A document tree under construction.
pub struct Document {
    nodes: Vec<Node>,
    quirks_mode: QuirksMode,
    encoding_name: String,
    rank: Ghost<Seq<nat>>,
}

impl View for Document {
    type V = DocumentView;

    closed spec fn view(&self) -> DocumentView {
        DocumentView {
            nodes: self.nodes@.map_values(|n: Node| n@),
            quirks_mode: self.quirks_mode,
            encoding_name: self.encoding_name@,
        }
    }
}

impl Document {
    /// The document has the shape that `well_formed` describes.
    pub closed spec fn wf(&self) -> bool {
        well_formed(self@) && ranked(self@, self.rank@)
    }

    /// A document that is well formed has the shape of `well_formed`.
    pub proof fn lemma_wf(&self)
        requires
            self.wf(),
        ensures
            well_formed(self@),
    {
    }

    /// What an empty document holds: the document node alone, in no-quirks
    /// mode, with the encoding name `UTF-8`.
    pub open spec fn new_view() -> DocumentView {
        DocumentView {
            nodes: seq![
                NodeView { data: NodeDataView::Document, parent: None, children: Seq::empty() },
            ],
            quirks_mode: QuirksMode::NoQuirks,
            encoding_name: "UTF-8"@,
        }
    }

    /// An empty document.
    pub fn new() -> (d: Document)
        ensures
            d.wf(),
            d@ == Self::new_view(),
    {
        let mut nodes: Vec<Node> = Vec::new();
        nodes.push(Node { data: NodeData::Document, parent: None, children: Vec::new() });
        let ghost rank: Seq<nat> = Seq::empty().push(0nat);
        let d = Document {
            nodes,
            quirks_mode: QuirksMode::NoQuirks,
            encoding_name: String::from_str("UTF-8"),
            rank: Ghost(rank),
        };
        proof {
            assert(d@.nodes =~= seq![
                NodeView { data: NodeDataView::Document, parent: None, children: Seq::empty() },
            ]);
            assert(ranked(d@, d.rank@));
        }
        d
    }

    /// The handle of the document node.
    pub fn root(&self) -> (h: NodeHandle)
        ensures
            h == NodeHandle(0),
    {
        NodeHandle(0)
    }

    /// The number of nodes that were created in this document.
    pub fn len(&self) -> (n: usize)
        ensures
            n == self@.nodes.len(),
    {
        self.nodes.len()
    }

    /// Whether the handle names a node of this document.
    pub fn contains(&self, h: NodeHandle) -> (r: bool)
        ensures
            r == self@.has(h),
    {
        h.0 < self.nodes.len()
    }

    /// Puts a node with this data at the end of the arena, attached nowhere.
    fn push_node(&mut self, data: NodeData) -> (h: NodeHandle)
        requires
            old(self).wf(),
            !(data is Document),
        ensures
            final(self).wf(),
            h.0 == old(self)@.nodes.len(),
            final(self)@ == old(self)@.with_new_node(data@),
    {
        let h = NodeHandle(self.nodes.len());
        let ghost before = self@;
        let ghost old_rank = self.rank@;
        self.nodes.push(Node { data, parent: None, children: Vec::new() });
        self.rank = Ghost(old_rank.push(0nat));
        proof {
            let after = self@;
            assert(after.nodes =~= before.nodes.push(
                NodeView { data: data@, parent: None, children: Seq::empty() },
            ));
            assert forall|i: int| 0 <= i < before.nodes.len() implies after.nodes[i]
                == before.nodes[i] by {}
            assert(ranked(after, self.rank@));
            assert(after.nodes.len() == self.nodes.len());
            assert(well_formed(after));
        }
        h
    }

    /// Creates a text node that holds `data`.
    pub fn create_text(&mut self, data: &str) -> (h: NodeHandle)
        requires
            old(self).wf(),
        ensures
            final(self).wf(),
            h.0 == old(self)@.nodes.len(),
            final(self)@ == old(self)@.with_new_node(NodeDataView::Text { data: data@ }),
    {
        self.push_node(NodeData::Text { data: String::from_str(data) })
    }

    /// Creates a comment node that holds `data`.
    pub fn create_comment(&mut self, data: &str) -> (h: NodeHandle)
        requires
            old(self).wf(),
        ensures
            final(self).wf(),
            h.0 == old(self)@.nodes.len(),
            final(self)@ == old(self)@.with_new_node(NodeDataView::Comment { data: data@ }),
    {
        self.push_node(NodeData::Comment { data: String::from_str(data) })
    }

    /// Creates a document type node.
    pub fn create_doctype(&mut self, name: &str, public_id: &str, system_id: &str) -> (h:
        NodeHandle)
        requires
            old(self).wf(),
        ensures
            final(self).wf(),
            h.0 == old(self)@.nodes.len(),
            final(self)@ == old(self)@.with_new_node(
                NodeDataView::Doctype {
                    name: name@,
                    public_id: public_id@,
                    system_id: system_id@,
                },
            ),
    {
        self.push_node(
            NodeData::Doctype {
                name: String::from_str(name),
                public_id: String::from_str(public_id),
                system_id: String::from_str(system_id),
            },
        )
    }

    /// Records the quirks mode that the tree builder settled on.
    pub fn set_quirks_mode(&mut self, mode: QuirksMode)
        requires
            old(self).wf(),
        ensures
            final(self).wf(),
            final(self)@ == (DocumentView { quirks_mode: mode, ..old(self)@ }),
    {
        let ghost before = self@;
        self.quirks_mode = mode;
        proof {
            lemma_same_nodes(before, self@, self.rank@);
        }
    }

    /// Records the name of the encoding that the input turned out to have.
    pub fn set_encoding_name(&mut self, name: &str)
        requires
            old(self).wf(),
        ensures
            final(self).wf(),
            final(self)@ == (DocumentView { encoding_name: name@, ..old(self)@ }),
    {
        let ghost before = self@;
        self.encoding_name = String::from_str(name);
        proof {
            lemma_same_nodes(before, self@, self.rank@);
        }
    }

    /// Sets the attribute `name` of an element to `value`. The first
    /// attribute of that name takes the value; if there is none, a new
    /// attribute comes last. Nothing changes where the call fails.
    pub fn set_attribute(&mut self, element: NodeHandle, name: &str, value: &str) -> (r: Result<
        (),
        DomError,
    >)
        requires
            old(self).wf(),
        ensures
            final(self).wf(),
            match set_attribute_error(old(self)@, element, name@) {
                Some(e) => r == Err::<(), DomError>(e) && final(self)@ == old(self)@,
                None => r is Ok && final(self)@ == old(self)@.with_data(
                    element,
                    data_with_attr(old(self)@.node(element).data, name@, value@),
                ),
            },
    {
        if element.0 >= self.nodes.len() {
            return Err(DomError::NotFound);
        }
        let is_element = match &self.nodes[element.0].data {
            NodeData::Element { .. } => true,
            _ => false,
        };
        if !is_element {
            return Err(DomError::InvalidNodeType);
        }
        if !valid_attribute_name(name) {
            return Err(DomError::InvalidCharacter);
        }
        let ghost before = self@;
        match &mut self.nodes[element.0].data {
            NodeData::Element { attrs, .. } => {
                let ghost old_attrs = attrs@;
                let i = find_attribute(attrs, name);
                let attr = Attribute {
                    name: String::from_str(name),
                    value: String::from_str(value),
                };
                if i < attrs.len() {
                    attrs[i] = attr;
                } else {
                    attrs.push(attr);
                }
                assert(attribute_views(attrs@) =~= with_attr(
                    attribute_views(old_attrs),
                    name@,
                    value@,
                ));
            },
            _ => {},
        }
        proof {
            let after = self@;
            let expected = before.with_data(
                element,
                data_with_attr(before.node(element).data, name@, value@),
            );
            assert(after.nodes =~= expected.nodes);
            lemma_same_links(before, after, self.rank@);
        }
        Ok(())
    }

    /// The value of the attribute `name` of an element, if the handle names
    /// an element that has such an attribute.
    pub fn get_attribute(&self, element: NodeHandle, name: &str) -> (r: Option<String>)
        ensures
            opt_chars(r) == if self@.is_element(element) {
                attr_value(self@.attrs(element), name@)
            } else {
                None
            },
    {
        if element.0 >= self.nodes.len() {
            return None;
        }
        match &self.nodes[element.0].data {
            NodeData::Element { attrs, .. } => {
                let i = find_attribute(attrs, name);
                if i < attrs.len() {
                    Some(attrs[i].value.clone())
                } else {
                    None
                }
            },
            _ => None,
        }
    }

    /// The interface of an element, if the handle names an element.
    pub fn type_id(&self, node: NodeHandle) -> (r: Option<ElementTypeId>)
        ensures
            r == if self@.is_element(node) {
                Some(self@.node(node).data->type_id)
            } else {
                None
            },
    {
        if node.0 >= self.nodes.len() {
            return None;
        }
        match &self.nodes[node.0].data {
            NodeData::Element { type_id, .. } => Some(*type_id),
            _ => None,
        }
    }

    /// The tag name of an element, if the handle names an element.
    pub fn local_name(&self, node: NodeHandle) -> (r: Option<String>)
        ensures
            opt_chars(r) == if self@.is_element(node) {
                Some(self@.node(node).data->local_name)
            } else {
                None
            },
    {
        if node.0 >= self.nodes.len() {
            return None;
        }
        match &self.nodes[node.0].data {
            NodeData::Element { local_name, .. } => Some(local_name.clone()),
            _ => None,
        }
    }

    /// The character data of a text or comment node, if the handle names one.
    pub fn character_data(&self, node: NodeHandle) -> (r: Option<String>)
        ensures
            opt_chars(r) == if self@.has(node) {
                match self@.node(node).data {
                    NodeDataView::Text { data } => Some(data),
                    NodeDataView::Comment { data } => Some(data),
                    _ => None,
                }
            } else {
                None
            },
    {
        if node.0 >= self.nodes.len() {
            return None;
        }
        match &self.nodes[node.0].data {
            NodeData::Text { data } => Some(data.clone()),
            NodeData::Comment { data } => Some(data.clone()),
            _ => None,
        }
    }

    /// The parent of a node, if the handle names a node that has one.
    pub fn parent(&self, node: NodeHandle) -> (r: Option<NodeHandle>)
        ensures
            r == if self@.has(node) {
                self@.node(node).parent
            } else {
                None
            },
    {
        if node.0 >= self.nodes.len() {
            return None;
        }
        self.nodes[node.0].parent
    }

    /// The children of a node, first to last; none where the handle names no node.
    pub fn children(&self, node: NodeHandle) -> (r: Vec<NodeHandle>)
        ensures
            r@ == if self@.has(node) {
                self@.node(node).children
            } else {
                Seq::empty()
            },
    {
        let mut out: Vec<NodeHandle> = Vec::new();
        if node.0 >= self.nodes.len() {
            return out;
        }
        let kids = &self.nodes[node.0].children;
        let mut k: usize = 0;
        while k < kids.len()
            invariant
                k <= kids.len(),
                out@ == kids@.take(k as int),
            decreases kids.len() - k,
        {
            out.push(kids[k]);
            assert(kids@.take(k + 1) == kids@.take(k as int).push(kids@[k as int]));
            k = k + 1;
        }
        assert(kids@.take(k as int) == kids@);
        out
    }

    /// The sub-document that a frame element is bound to: its URL and
    /// identifiers, if the handle names an element that is bound.
    pub fn frame(&self, node: NodeHandle) -> (r: Option<(String, IFrameSize)>)
        ensures
            match r {
                Some((url, size)) => self@.is_element(node) && self@.node(node).data->frame
                    == Some(FrameView { url: url@, size }),
                None => !self@.is_element(node) || self@.node(node).data->frame is None,
            },
    {
        if node.0 >= self.nodes.len() {
            return None;
        }
        match &self.nodes[node.0].data {
            NodeData::Element { frame, .. } => match frame {
                Some(f) => Some((f.url.clone(), f.size)),
                None => None,
            },
            _ => None,
        }
    }

    /// Binds a frame element to the sub-document at `url`. Nothing changes
    /// where the call fails.
    pub fn set_frame(&mut self, element: NodeHandle, url: &str, size: IFrameSize) -> (r: Result<
        (),
        DomError,
    >)
        requires
            old(self).wf(),
        ensures
            final(self).wf(),
            match set_frame_error(old(self)@, element) {
                Some(e) => r == Err::<(), DomError>(e) && final(self)@ == old(self)@,
                None => r is Ok && final(self)@ == old(self)@.with_data(
                    element,
                    data_with_frame(old(self)@.node(element).data, url@, size),
                ),
            },
    {
        if element.0 >= self.nodes.len() {
            return Err(DomError::NotFound);
        }
        let is_frame = match &self.nodes[element.0].data {
            NodeData::Element { type_id, .. } => match type_id {
                ElementTypeId::HTMLIFrameElement => true,
                _ => false,
            },
            _ => false,
        };
        if !is_frame {
            return Err(DomError::InvalidNodeType);
        }
        let ghost before = self@;
        match &mut self.nodes[element.0].data {
            NodeData::Element { frame, .. } => {
                *frame = Some(Frame { url: String::from_str(url), size });
            },
            _ => {},
        }
        proof {
            let after = self@;
            let expected = before.with_data(
                element,
                data_with_frame(before.node(element).data, url@, size),
            );
            assert(after.nodes =~= expected.nodes);
            lemma_same_links(before, after, self.rank@);
        }
        Ok(())
    }

    /// The character data of the text children of a node, child after
    /// child; empty where the handle names no node.
    pub fn child_text(&self, node: NodeHandle) -> (r: String)
        requires
            self.wf(),
        ensures
            r@ == if self@.has(node) {
                text_of_children(self@, self@.node(node).children)
            } else {
                Seq::empty()
            },
    {
        let mut out = String::new();
        if node.0 >= self.nodes.len() {
            return out;
        }
        let kids = &self.nodes[node.0].children;
        let mut k: usize = 0;
        assert(text_of_children(self@, kids@.take(0)) == Seq::<char>::empty());
        while k < kids.len()
            invariant
                k <= kids.len(),
                out@ == text_of_children(self@, kids@.take(k as int)),
            decreases kids.len() - k,
        {
            let c = kids[k];
            proof {
                let next = kids@.take(k + 1);
                assert(next.drop_last() == kids@.take(k as int));
                assert(next.last() == c);
            }
            if c.0 < self.nodes.len() {
                match &self.nodes[c.0].data {
                    NodeData::Text { data } => {
                        out.append(data.as_str());
                    },
                    _ => {},
                }
            }
            k = k + 1;
        }
        assert(kids@.take(k as int) == kids@);
        out
    }

    /// Whether `a` is `x` or stands above it; where it does not, the climb
    /// from `x` to the top of its tree.
    fn climb(&self, a: NodeHandle, x: NodeHandle) -> (r: (bool, Ghost<Seq<NodeHandle>>))
        requires
            self.wf(),
            self@.has(a),
            self@.has(x),
        ensures
            r.0 == inclusive_ancestor(self@, a, x),
            !r.0 ==> is_chain(self@, r.1@) && r.1@[0] == x && self@.node(r.1@.last()).parent is None
                && !r.1@.contains(a),
    {
        let mut cur = x;
        let ghost mut path: Seq<NodeHandle> = Seq::empty().push(x);
        loop
            invariant
                self.wf(),
                self@.has(a),
                self@.has(cur),
                is_chain(self@, path),
                path[0] == x,
                path.last() == cur,
                forall|k: int| 0 <= k < path.len() - 1 ==> path[k] != a,
            decreases self.rank@[cur.0 as int],
        {
            if cur.0 == a.0 {
                return (true, Ghost(path));
            }
            match self.nodes[cur.0].parent {
                None => {
                    proof {
                        assert forall|other: Seq<NodeHandle>|
                            #[trigger] is_chain(self@, other) && other[0] == x implies other.last()
                            != a by {
                            lemma_chains_agree(self@, path, other, other.len() - 1);
                        }
                    }
                    return (false, Ghost(path));
                },
                Some(p) => {
                    proof {
                        assert(self@.nodes[cur.0 as int].parent == Some(p));
                        let longer = path.push(p);
                        assert forall|k: int| 0 <= k < longer.len() - 1 implies self@.node(
                            #[trigger] longer[k],
                        ).parent == Some(longer[k + 1]) by {
                            if k < path.len() - 1 {
                                assert(longer[k] == path[k]);
                                assert(longer[k + 1] == path[k + 1]);
                            }
                        }
                        path = longer;
                    }
                    cur = p;
                },
            }
        }
    }

    /// Makes `child` the last child of `parent`. A child that has a parent
    /// leaves it first. Nothing changes where the call fails.
    pub fn append_child(&mut self, parent: NodeHandle, child: NodeHandle) -> (r: Result<
        (),
        DomError,
    >)
        requires
            old(self).wf(),
        ensures
            final(self).wf(),
            match append_error(old(self)@, parent, child) {
                Some(e) => r == Err::<(), DomError>(e) && final(self)@ == old(self)@,
                None => r is Ok && final(self)@ == appended(old(self)@, parent, child),
            },
    {
        if parent.0 >= self.nodes.len() || child.0 >= self.nodes.len() {
            return Err(DomError::NotFound);
        }
        let parent_takes = match &self.nodes[parent.0].data {
            NodeData::Document => true,
            NodeData::Element { .. } => true,
            _ => false,
        };
        let child_is_document = match &self.nodes[child.0].data {
            NodeData::Document => true,
            _ => false,
        };
        if !parent_takes || child_is_document {
            return Err(DomError::HierarchyRequest);
        }
        let (above, Ghost(path)) = self.climb(child, parent);
        if above {
            return Err(DomError::HierarchyRequest);
        }
        let ghost before = self@;
        let ghost old_rank = self.rank@;
        match self.nodes[child.0].parent {
            Some(q) => {
                proof {
                    assert(before.nodes[child.0 as int].parent == Some(q));
                    assert(before.has(q) && before.node(q).children.contains(child));
                }
                let kids = &self.nodes[q.0].children;
                let mut idx: usize = 0;
                while idx < kids.len() && kids[idx].0 != child.0
                    invariant
                        idx <= kids.len(),
                        kids@.contains(child),
                        forall|j: int| 0 <= j < idx ==> kids@[j] != child,
                    decreases kids.len() - idx,
                {
                    idx = idx + 1;
                }
                proof {
                    assert(before.nodes[q.0 as int].children.no_duplicates());
                    lemma_without(kids@, child, idx as int);
                }
                self.nodes[q.0].children.remove(idx);
            },
            None => {},
        }
        proof {
            assert(self@.nodes =~= detached(before, child).nodes);
        }
        self.nodes[child.0].parent = Some(parent);
        self.nodes[parent.0].children.push(child);
        self.rank = Ghost(lifted(old_rank, path, parent));
        proof {
            assert(self@.nodes =~= appended(before, parent, child).nodes);
            lemma_append_keeps_shape(before, old_rank, parent, child, path);
        }
        Ok(())
    }

    /// The quirks mode of the document.
    pub fn quirks_mode(&self) -> (mode: QuirksMode)
        ensures
            mode == self@.quirks_mode,
    {
        self.quirks_mode
    }

    /// The name of the document's encoding.
    pub fn encoding_name(&self) -> (name: String)
        ensures
            name@ == self@.encoding_name,
    {
        self.encoding_name.clone()
    }
}

/// Creates the element for a tag name: an element of the interface that the
/// table gives for the name, without attributes, attached nowhere.
pub fn build_element_from_tag(tag: &str, document: &mut Document) -> (h: NodeHandle)
    requires
        old(document).wf(),
    ensures
        final(document).wf(),
        h.0 == old(document)@.nodes.len(),
        final(document)@ == old(document)@.with_new_node(
            NodeDataView::Element {
                type_id: element_type_of(tag@),
                local_name: tag@,
                attrs: Seq::empty(),
                frame: None,
            },
        ),
{
    let type_id = element_type_for(tag);
    let attrs: Vec<Attribute> = Vec::new();
    assert(attribute_views(attrs@) =~= Seq::empty());
    document.push_node(
        NodeData::Element { type_id, local_name: String::from_str(tag), attrs, frame: None },
    )
}

} // verus!
