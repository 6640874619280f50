//! The DOM arena: every node lives in one vector and a `NodeId` is an index
//! into it. Element, text and comment nodes refer to the HTML source buffer
//! by byte offsets (zero-copy).
#![verifier::loop_isolation(false)]

use vstd::prelude::*;


use vstd::utf8::{decode_utf8, valid_utf8};

use crate::text::{
    chars_eq, chars_of, decode_or_empty, eq_ignore_case, extend_chars, extend_str, is_whitespace,
    slice_chars, spec_is_whitespace, str_eq_ignore_case, string_from_chars, trim, trim_chars, utf8_to_str,
};
use crate::tokens::Attribute;

verus! {

// ─── Node identity ───────────────────────────────────────────────

/// The index of a node in the DOM arena.
#[derive(Debug, Clone, Copy, PartialEq, Eq, Hash, Structural)]
pub struct NodeId(pub u32);

impl NodeId {
    /// The index into the arena vector.
    pub fn index(self) -> (res: usize)
        ensures
            res == self.0,
    {
        self.0 as usize
    }
}

// ─── Nodes ───────────────────────────────────────────────────────

/// What a node is. Element, text and comment nodes hold byte ranges into the
/// HTML source: the tag name, the raw text, or the comment body.
#[derive(Debug)]
pub enum NodeKind {
    /// The root of the document; there is exactly one, at index 0.
    Document,
    /// An element; `tag_start..tag_end` is its tag name.
    Element { tag_start: u32, tag_end: u32 },
    /// Raw text between tags.
    Text { start: u32, end: u32 },
    /// A comment; the range is its body without `<!--` and `-->`.
    Comment { start: u32, end: u32 },
}

/// A DOM node: its kind, its parent (none for the document root), its
/// children in document order, and, for elements, its attributes as
/// `(name_start, name_end, value_start, value_end)` offsets.
#[derive(Debug)]
pub struct Node {
    pub kind: NodeKind,
    pub parent: Option<NodeId>,
    pub children: Vec<NodeId>,
    pub attributes: Vec<(u32, u32, u32, u32)>,
}

/// The DOM arena. `nodes[i]` is the node with `NodeId(i)`.
#[derive(Debug)]
pub struct Dom {
    pub nodes: Vec<Node>,
}

/// The attributes of a tag as offset tuples.
pub open spec fn attr_tuples(attrs: Seq<Attribute>) -> Seq<(u32, u32, u32, u32)> {
    attrs.map_values(|a: Attribute| (a.name_start, a.name_end, a.value_start, a.value_end))
}

/// What building the tree decides of a node: its kind, its parent and its
/// attributes. Its children follow from the parents of the other nodes.
pub type NodeInfo = (NodeKind, Option<NodeId>, Seq<(u32, u32, u32, u32)>);

/// The kind, parent and attributes of each node.
pub open spec fn node_infos(nodes: Seq<Node>) -> Seq<NodeInfo> {
    nodes.map_values(|n: Node| (n.kind, n.parent, n.attributes@))
}

impl Dom {
    /// The arena is a tree rooted at index 0: the root is the only
    /// `Document` node and has no parent; every other node's parent comes
    /// before it; the children of a node come after it, in increasing order,
    /// and are exactly the nodes that name it as their parent.
    pub open spec fn wf(&self) -> bool {
        let n = self.nodes@;
        &&& 1 <= n.len() <= u32::MAX
        &&& n[0].kind is Document
        &&& n[0].parent is None
        &&& forall|i: int| 0 < i < n.len() ==> !(#[trigger] n[i].kind is Document)
        &&& forall|i: int|
            0 < i < n.len() ==> (#[trigger] n[i].parent matches Some(p) && p.0 < i)
        &&& forall|i: int, k: int|
            0 <= i < n.len() && 0 <= k < n[i].children@.len() ==> i < (
            #[trigger] n[i].children@[k]).0 < n.len() && n[n[i].children@[k].0 as int].parent
                == Some(NodeId(i as u32))
        &&& forall|i: int, k: int, l: int|
            0 <= i < n.len() && 0 <= k < l < n[i].children@.len() ==> (
            #[trigger] n[i].children@[k]).0 < (#[trigger] n[i].children@[l]).0
        &&& forall|c: int|
            0 < c < n.len() ==> #[trigger] n[n[c].parent.unwrap().0 as int].children@.contains(
                NodeId(c as u32),
            )
    }

    /// A DOM holding only the document root, `NodeId(0)`.
    pub fn new() -> (res: Self)
        ensures
            res.wf(),
            res.nodes@.len() == 1,
            res.nodes@[0].kind is Document,
            res.nodes@[0].children@.len() == 0,
            res.nodes@[0].attributes@.len() == 0,
    {
        let root = Node {
            kind: NodeKind::Document,
            parent: None,
            children: Vec::new(),
            attributes: Vec::new(),
        };
        let mut nodes: Vec<Node> = Vec::new();
        nodes.push(root);
        Dom { nodes }
    }

    /// The node with the given id.
    pub fn get(&self, id: NodeId) -> (res: &Node)
        requires
            (id.0 as int) < self.nodes@.len(),
        ensures
            *res == self.nodes@[id.0 as int],
    {
        &self.nodes[id.index()]
    }

    /// The node with the given id, for modification.
    pub fn get_mut(&mut self, id: NodeId) -> (res: &mut Node)
        requires
            (id.0 as int) < old(self).nodes@.len(),
        ensures
            *res == old(self).nodes@[id.0 as int],
            final(self).nodes@ == old(self).nodes@.update(id.0 as int, *final(res)),
    {
        &mut self.nodes[id.index()]
    }

    /// The document root, always `NodeId(0)`.
    pub fn root(&self) -> (res: NodeId)
        ensures
            res == NodeId(0),
    {
        NodeId(0)
    }

    /// Append `node` to the arena as the last child of `parent`.
    fn attach(&mut self, parent: NodeId, node: Node) -> (res: NodeId)
        requires
            old(self).wf(),
            (parent.0 as int) < old(self).nodes@.len(),
            old(self).nodes@.len() < u32::MAX,
            node.parent == Some(parent),
            node.children@.len() == 0,
            !(node.kind is Document),
        ensures
            final(self).wf(),
            res.0 == old(self).nodes@.len(),
            final(self).nodes@.len() == old(self).nodes@.len() + 1,
            final(self).nodes@[res.0 as int] == node,
            node_infos(final(self).nodes@) == node_infos(old(self).nodes@).push(
                (node.kind, node.parent, node.attributes@),
            ),
            final(self).nodes@[parent.0 as int].children@ == old(self).nodes@[
                parent.0 as int
            ].children@.push(res),
            final(self).nodes@[parent.0 as int].kind == old(self).nodes@[parent.0 as int].kind,
            final(self).nodes@[parent.0 as int].parent == old(self).nodes@[
                parent.0 as int
            ].parent,
            final(self).nodes@[parent.0 as int].attributes == old(self).nodes@[
                parent.0 as int
            ].attributes,
            forall|i: int|
                0 <= i < old(self).nodes@.len() && i != parent.0 ==> #[trigger] final(self).nodes@[i] == old(self).nodes@[i],
    {
        let id = NodeId(self.nodes.len() as u32);
        let ghost old_nodes = self.nodes@;
        self.nodes.push(node);
        let pi = parent.index();
        self.nodes[pi].children.push(id);
        proof {
            let n = self.nodes@;
            assert forall|i: int| 0 <= i < n.len() && i != pi implies #[trigger] n[i] == old_nodes.push(
                node,
            )[i] by {}
            assert forall|i: int, k: int|
                0 <= i < n.len() && 0 <= k < n[i].children@.len() implies i < (
                #[trigger] n[i].children@[k]).0 < n.len() && n[n[i].children@[k].0 as int].parent
                    == Some(NodeId(i as u32)) by {
                if i == pi {
                    if k < old_nodes[i].children@.len() {
                        assert(n[i].children@[k] == old_nodes[i].children@[k]);
                    }
                }
            }
            assert forall|i: int, k: int, l: int|
                0 <= i < n.len() && 0 <= k < l < n[i].children@.len() implies (
                #[trigger] n[i].children@[k]).0 < (#[trigger] n[i].children@[l]).0 by {
                if i == pi {
                    assert(n[i].children@[k] == old_nodes[i].children@[k]);
                    if l < old_nodes[i].children@.len() {
                        assert(n[i].children@[l] == old_nodes[i].children@[l]);
                    }
                }
            }
            assert forall|c: int| 0 < c < n.len() implies #[trigger] n[n[c].parent.unwrap().0 as int].children@.contains(
                NodeId(c as u32),
            ) by {
                let q = n[c].parent.unwrap().0 as int;
                if c < old_nodes.len() {
                    assert(old_nodes[q].children@.contains(NodeId(c as u32)));
                    let k = choose|k: int|
                        0 <= k < old_nodes[q].children@.len() && old_nodes[q].children@[k]
                            == NodeId(c as u32);
                    if q == pi {
                        assert(n[q].children@[k] == NodeId(c as u32));
                    }
                } else {
                    assert(n[q].children@.last() == NodeId(c as u32));
                }
            }
            assert(node_infos(n) =~= node_infos(old_nodes).push(
                (node.kind, node.parent, node.attributes@),
            ));
        }
        id
    }

    /// Add an element as the last child of `parent`; `tag_start..tag_end` is
    /// its tag name and `attrs` its attributes. Returns the new node's id.
    pub fn add_element(&mut self, parent: NodeId, tag_start: u32, tag_end: u32, attrs: &[Attribute]) -> (res: NodeId)
        requires
            old(self).wf(),
            (parent.0 as int) < old(self).nodes@.len(),
            old(self).nodes@.len() < u32::MAX,
        ensures
            final(self).wf(),
            res.0 == old(self).nodes@.len(),
            final(self).nodes@.len() == old(self).nodes@.len() + 1,
            final(self).nodes@[res.0 as int].kind == (NodeKind::Element { tag_start, tag_end }),
            node_infos(final(self).nodes@) == node_infos(old(self).nodes@).push(
                (NodeKind::Element { tag_start, tag_end }, Some(parent), attr_tuples(attrs@)),
            ),
            final(self).nodes@[res.0 as int].parent == Some(parent),
            final(self).nodes@[res.0 as int].children@.len() == 0,
            final(self).nodes@[res.0 as int].attributes@ == attr_tuples(attrs@),
            final(self).nodes@[parent.0 as int].children@ == old(self).nodes@[
                parent.0 as int
            ].children@.push(res),
            forall|i: int|
                0 <= i < old(self).nodes@.len() && i != parent.0 ==> #[trigger] final(self).nodes@[i] == old(self).nodes@[i],
    {
        let mut attributes: Vec<(u32, u32, u32, u32)> = Vec::new();
        let mut i: usize = 0;
        while i < attrs.len()
            invariant
                i <= attrs@.len(),
                attributes@ == attr_tuples(attrs@.take(i as int)),
            decreases attrs@.len() - i,
        {
            let a = attrs[i];
            attributes.push((a.name_start, a.name_end, a.value_start, a.value_end));
            i += 1;
            assert(attributes@ =~= attr_tuples(attrs@.take(i as int)));
        }
        assert(attrs@.take(attrs@.len() as int) =~= attrs@);
        let node = Node {
            kind: NodeKind::Element { tag_start, tag_end },
            parent: Some(parent),
            children: Vec::new(),
            attributes,
        };
        self.attach(parent, node)
    }

    /// Add a text node (`start..end` in the source) as the last child of
    /// `parent`. Returns the new node's id.
    pub fn add_text(&mut self, parent: NodeId, start: u32, end: u32) -> (res: NodeId)
        requires
            old(self).wf(),
            (parent.0 as int) < old(self).nodes@.len(),
            old(self).nodes@.len() < u32::MAX,
        ensures
            final(self).wf(),
            res.0 == old(self).nodes@.len(),
            final(self).nodes@.len() == old(self).nodes@.len() + 1,
            final(self).nodes@[res.0 as int].kind == (NodeKind::Text { start, end }),
            node_infos(final(self).nodes@) == node_infos(old(self).nodes@).push(
                (NodeKind::Text { start, end }, Some(parent), Seq::<(u32, u32, u32, u32)>::empty()),
            ),
            final(self).nodes@[res.0 as int].parent == Some(parent),
            final(self).nodes@[res.0 as int].children@.len() == 0,
            final(self).nodes@[res.0 as int].attributes@.len() == 0,
            final(self).nodes@[parent.0 as int].children@ == old(self).nodes@[
                parent.0 as int
            ].children@.push(res),
            forall|i: int|
                0 <= i < old(self).nodes@.len() && i != parent.0 ==> #[trigger] final(self).nodes@[i] == old(self).nodes@[i],
    {
        let node = Node {
            kind: NodeKind::Text { start, end },
            parent: Some(parent),
            children: Vec::new(),
            attributes: Vec::new(),
        };
        self.attach(parent, node)
    }

    /// Add a comment node (`start..end` is its body) as the last child of
    /// `parent`. Returns the new node's id.
    pub fn add_comment(&mut self, parent: NodeId, start: u32, end: u32) -> (res: NodeId)
        requires
            old(self).wf(),
            (parent.0 as int) < old(self).nodes@.len(),
            old(self).nodes@.len() < u32::MAX,
        ensures
            final(self).wf(),
            res.0 == old(self).nodes@.len(),
            final(self).nodes@.len() == old(self).nodes@.len() + 1,
            final(self).nodes@[res.0 as int].kind == (NodeKind::Comment { start, end }),
            node_infos(final(self).nodes@) == node_infos(old(self).nodes@).push(
                (NodeKind::Comment { start, end }, Some(parent), Seq::<(u32, u32, u32, u32)>::empty()),
            ),
            final(self).nodes@[res.0 as int].parent == Some(parent),
            final(self).nodes@[res.0 as int].children@.len() == 0,
            final(self).nodes@[res.0 as int].attributes@.len() == 0,
            final(self).nodes@[parent.0 as int].children@ == old(self).nodes@[
                parent.0 as int
            ].children@.push(res),
            forall|i: int|
                0 <= i < old(self).nodes@.len() && i != parent.0 ==> #[trigger] final(self).nodes@[i] == old(self).nodes@[i],
    {
        let node = Node {
            kind: NodeKind::Comment { start, end },
            parent: Some(parent),
            children: Vec::new(),
            attributes: Vec::new(),
        };
        self.attach(parent, node)
    }
}

// ─── Tree printer ────────────────────────────────────────────────

/// `from_utf8(bytes)`, or `???` when the bytes are not valid UTF-8.
pub open spec fn lossy(bytes: Seq<u8>) -> Seq<char> {
    if valid_utf8(bytes) {
        decode_utf8(bytes)
    } else {
        "???"@
    }
}

/// The text of the source range `a..b` as the printer shows it.
pub open spec fn src_text(src: Seq<u8>, a: u32, b: u32) -> Seq<char> {
    lossy(src.subrange(a as int, b as int))
}

/// Two spaces per level of depth.
pub open spec fn indent(depth: nat) -> Seq<char> {
    Seq::new(2 * depth, |i: int| ' ')
}

/// An attribute as printed: `name`, or `name="value"` when it has a value
/// (a value range of `0..0` means none).
pub open spec fn attr_text(a: (u32, u32, u32, u32), src: Seq<u8>) -> Seq<char> {
    if a.2 == 0 && a.3 == 0 {
        src_text(src, a.0, a.1)
    } else {
        src_text(src, a.0, a.1) + "=\""@ + src_text(src, a.2, a.3) + "\""@
    }
}

/// The attributes as printed, separated by single spaces.
pub open spec fn attrs_text(attrs: Seq<(u32, u32, u32, u32)>, src: Seq<u8>) -> Seq<char>
    decreases attrs.len(),
{
    if attrs.len() == 0 {
        Seq::empty()
    } else if attrs.len() == 1 {
        attr_text(attrs[0], src)
    } else {
        attrs_text(attrs.drop_last(), src) + " "@ + attr_text(attrs.last(), src)
    }
}

/// The line printed for one node at the given depth; text that is only
/// whitespace prints nothing, other text and comments are trimmed.
pub open spec fn node_line(node: Node, src: Seq<u8>, depth: nat) -> Seq<char> {
    match node.kind {
        NodeKind::Document => indent(depth) + "Document\n"@,
        NodeKind::Element { tag_start, tag_end } => if node.attributes@.len() == 0 {
            indent(depth) + "Element <"@ + src_text(src, tag_start, tag_end) + ">\n"@
        } else {
            indent(depth) + "Element <"@ + src_text(src, tag_start, tag_end) + " "@ + attrs_text(
                node.attributes@,
                src,
            ) + ">\n"@
        },
        NodeKind::Text { start, end } => {
            let t = trim(src_text(src, start, end));
            if t.len() == 0 {
                Seq::empty()
            } else {
                indent(depth) + "Text \""@ + t + "\"\n"@
            }
        },
        NodeKind::Comment { start, end } => indent(depth) + "Comment \""@ + trim(
            src_text(src, start, end),
        ) + "\"\n"@,
    }
}

/// The printout of the subtree at `id`: its line, then each child's subtree
/// one level deeper, in order.
pub open spec fn fmt_node(n: Seq<Node>, id: int, src: Seq<u8>, depth: nat) -> Seq<char>
    decreases n.len() - id, 1int, 0int,
{
    if 0 <= id < n.len() {
        node_line(n[id], src, depth) + fmt_children(n, id, n[id].children@.len() as int, src, depth + 1)
    } else {
        Seq::empty()
    }
}

/// The printouts of the first `k` children of `id`, concatenated.
pub open spec fn fmt_children(n: Seq<Node>, id: int, k: int, src: Seq<u8>, depth: nat) -> Seq<char>
    decreases n.len() - id, 0int, k,
{
    if 0 <= id < n.len() && 0 < k <= n[id].children@.len() {
        let c = n[id].children@[k - 1].0 as int;
        fmt_children(n, id, k - 1, src, depth) + if id < c < n.len() {
            fmt_node(n, c, src, depth)
        } else {
            Seq::empty()
        }
    } else {
        Seq::empty()
    }
}

/// `a..b` is a valid range of a source of `len` bytes.
pub open spec fn range_ok(a: u32, b: u32, len: nat) -> bool {
    a <= b && b <= len
}

/// The ranges the printer reads from a node lie within the source: the tag
/// name and attributes of an element, the body of a text or comment node.
pub open spec fn node_ranges_ok(node: Node, len: nat) -> bool {
    match node.kind {
        NodeKind::Document => true,
        NodeKind::Element { tag_start, tag_end } => {
            &&& range_ok(tag_start, tag_end, len)
            &&& forall|k: int|
                0 <= k < node.attributes@.len() ==> {
                    let a = #[trigger] node.attributes@[k];
                    &&& range_ok(a.0, a.1, len)
                    &&& !(a.2 == 0 && a.3 == 0) ==> range_ok(a.2, a.3, len)
                }
        },
        NodeKind::Text { start, end } => range_ok(start, end, len),
        NodeKind::Comment { start, end } => range_ok(start, end, len),
    }
}

/// An attribute's name range, and its value range when it has one, lie
/// within a source of `len` bytes.
pub open spec fn attr_within(a: (u32, u32, u32, u32), len: nat) -> bool {
    range_ok(a.0, a.1, len) && (!(a.2 == 0 && a.3 == 0) ==> range_ok(a.2, a.3, len))
}

impl Dom {
    /// Whether every range the printer and the loader read lies within a
    /// source of `len` bytes.
    pub fn check_ranges(&self, len: usize) -> (res: bool)
        ensures
            res == self.ranges_within(len as nat),
    {
        let mut i: usize = 0;
        while i < self.nodes.len()
            invariant
                i <= self.nodes@.len(),
                forall|j: int| 0 <= j < i ==> node_ranges_ok(#[trigger] self.nodes@[j], len as nat),
            decreases self.nodes@.len() - i,
        {
            let node = &self.nodes[i];
            let ok = match &node.kind {
                NodeKind::Document => true,
                NodeKind::Element { tag_start, tag_end } => {
                    if !(*tag_start <= *tag_end && (*tag_end as usize) <= len) {
                        false
                    } else {
                        let mut k: usize = 0;
                        let mut good = true;
                        while k < node.attributes.len()
                            invariant
                                k <= node.attributes@.len(),
                                good ==> forall|m: int| 0 <= m < k ==> attr_within(#[trigger] node.attributes@[m], len as nat),
                                !good ==> exists|m: int|
                                    0 <= m < node.attributes@.len() && !attr_within(#[trigger] node.attributes@[m], len as nat),
                            decreases node.attributes@.len() - k,
                        {
                            let (ns, ne, vs, ve) = node.attributes[k];
                            let name_ok = ns <= ne && (ne as usize) <= len;
                            let value_ok = (vs == 0 && ve == 0) || (vs <= ve && (ve as usize) <= len);
                            if good && !(name_ok && value_ok) {
                                good = false;
                                assert(!attr_within(node.attributes@[k as int], len as nat));
                            }
                            k += 1;
                        }
                        good
                    }
                },
                NodeKind::Text { start, end } => *start <= *end && (*end as usize) <= len,
                NodeKind::Comment { start, end } => *start <= *end && (*end as usize) <= len,
            };
            if !ok {
                return false;
            }
            i += 1;
        }
        true
    }
}

// ─── Reading nodes ───────────────────────────────────────────────

/// The text of the source range `a..b`: its bytes as UTF-8, or nothing
/// when they are not valid UTF-8.
pub open spec fn text_of(src: Seq<u8>, a: u32, b: u32) -> Seq<char> {
    decode_or_empty(src.subrange(a as int, b as int))
}

/// The tag name of an element as the source writes it; other nodes have
/// none.
pub open spec fn node_tag(node: Node, src: Seq<u8>) -> Seq<char> {
    match node.kind {
        NodeKind::Element { tag_start, tag_end } => text_of(src, tag_start, tag_end),
        _ => Seq::empty(),
    }
}

/// The attribute ranges of `attrs` lie within a source of `len` bytes (a
/// value range of `0..0` means no value).
pub open spec fn attrs_within(attrs: Seq<(u32, u32, u32, u32)>, len: nat) -> bool {
    forall|k: int|
        0 <= k < attrs.len() ==> {
            let a = #[trigger] attrs[k];
            &&& range_ok(a.0, a.1, len)
            &&& !(a.2 == 0 && a.3 == 0) ==> range_ok(a.2, a.3, len)
        }
}

/// The value of the first attribute named `name`, ASCII case ignored; an
/// attribute written without a value has the empty value.
pub open spec fn attr_lookup(src: Seq<u8>, attrs: Seq<(u32, u32, u32, u32)>, name: Seq<char>) -> Option<
    Seq<char>,
>
    decreases attrs.len(),
{
    if attrs.len() == 0 {
        None
    } else if eq_ignore_case(text_of(src, attrs[0].0, attrs[0].1), name) {
        Some(text_of(src, attrs[0].2, attrs[0].3))
    } else {
        attr_lookup(src, attrs.drop_first(), name)
    }
}

/// `w` stands in `v` at position `i` as a whole word: whitespace or the
/// end of `v` on either side.
pub open spec fn word_at(v: Seq<char>, w: Seq<char>, i: int) -> bool {
    &&& 0 <= i
    &&& i + w.len() <= v.len()
    &&& v.subrange(i, i + w.len()) == w
    &&& i == 0 || spec_is_whitespace(v[i - 1])
    &&& i + w.len() == v.len() || spec_is_whitespace(v[i + w.len()])
}

/// `w` is one of the whitespace-separated words of `v`.
pub open spec fn has_word(v: Seq<char>, w: Seq<char>) -> bool {
    &&& w.len() > 0
    &&& forall|k: int| 0 <= k < w.len() ==> !spec_is_whitespace(#[trigger] w[k])
    &&& exists|i: int| word_at(v, w, i)
}

/// The source text of `a..b` as a string slice; empty when not UTF-8.
fn range_str<'a>(source: &'a [u8], a: u32, b: u32) -> (res: &'a str)
    requires
        a <= b <= source@.len(),
    ensures
        res@ == text_of(source@, a, b),
{
    match utf8_to_str(vstd::slice::slice_subrange(source, a as usize, b as usize)) {
        Some(t) => t,
        None => {
            proof {
                reveal_strlit("");
            }
            ""
        },
    }
}

/// Whether `w` is one of the whitespace-separated words of `v`.
pub fn has_word_exec(v: &str, w: &str) -> (res: bool)
    ensures
        res == has_word(v@, w@),
{
    let vc = chars_of(v);
    let wc = chars_of(w);
    let m = wc.len();
    if m == 0 {
        return false;
    }
    let mut k: usize = 0;
    while k < m
        invariant
            k <= m,
            m == wc@.len(),
            forall|j: int| 0 <= j < k ==> !spec_is_whitespace(#[trigger] wc@[j]),
        decreases m - k,
    {
        if is_whitespace(wc[k]) {
            return false;
        }
        k += 1;
    }
    if m > vc.len() {
        assert forall|i: int| !word_at(v@, w@, i) by {}
        return false;
    }
    let last = vc.len() - m;
    let mut i: usize = 0;
    while i <= last
        invariant
            m == wc@.len(),
            last + m == vc@.len(),
            vc@ == v@,
            wc@ == w@,
            forall|j: int| 0 <= j < i ==> !word_at(v@, w@, j),
        decreases last + 1 - i,
    {
        let before = i == 0 || is_whitespace(vc[i - 1]);
        let after = i == last || is_whitespace(vc[i + m]);
        if before && after {
            let piece = slice_chars(vc.as_slice(), i, i + m);
            if chars_eq(piece.as_slice(), wc.as_slice()) {
                assert(word_at(v@, w@, i as int));
                return true;
            }
        }
        i += 1;
    }
    assert forall|j: int| !word_at(v@, w@, j) by {
        if 0 <= j && j + w@.len() <= v@.len() {
            assert(j <= last);
        }
    }
    false
}

impl Node {
    /// The tag name of an element as the source writes it; empty for
    /// other nodes.
    pub fn tag_name<'a>(&self, source: &'a [u8]) -> (res: &'a str)
        requires
            node_ranges_ok(*self, source@.len()),
        ensures
            res@ == node_tag(*self, source@),
    {
        match &self.kind {
            NodeKind::Element { tag_start, tag_end } => range_str(source, *tag_start, *tag_end),
            _ => {
                proof {
                    reveal_strlit("");
                }
                ""
            },
        }
    }

    /// The value of the first attribute named `name`, ASCII case ignored.
    pub fn get_attribute<'a>(&self, name: &str, source: &'a [u8]) -> (res: Option<&'a str>)
        requires
            attrs_within(self.attributes@, source@.len()),
        ensures
            match res {
                Some(v) => attr_lookup(source@, self.attributes@, name@) == Some(v@),
                None => attr_lookup(source@, self.attributes@, name@) is None,
            },
    {
        let ghost attrs = self.attributes@;
        let mut i: usize = 0;
        assert(attrs.skip(0) =~= attrs);
        while i < self.attributes.len()
            invariant
                i <= attrs.len(),
                attrs == self.attributes@,
                attrs_within(attrs, source@.len()),
                attr_lookup(source@, attrs, name@) == attr_lookup(source@, attrs.skip(i as int), name@),
            decreases attrs.len() - i,
        {
            let (ns, ne, vs, ve) = self.attributes[i];
            assert(attrs.skip(i as int)[0] == attrs[i as int]);
            assert(attrs.skip(i as int).drop_first() =~= attrs.skip(i as int + 1));
            let attr_name = range_str(source, ns, ne);
            if str_eq_ignore_case(attr_name, name) {
                if vs == 0 && ve == 0 {
                    return Some(range_str(source, 0, 0));
                }
                return Some(range_str(source, vs, ve));
            }
            i += 1;
        }
        None
    }

    /// The element's `id`.
    pub fn get_id<'a>(&self, source: &'a [u8]) -> (res: Option<&'a str>)
        requires
            attrs_within(self.attributes@, source@.len()),
        ensures
            match res {
                Some(v) => attr_lookup(source@, self.attributes@, "id"@) == Some(v@),
                None => attr_lookup(source@, self.attributes@, "id"@) is None,
            },
    {
        self.get_attribute("id", source)
    }

    /// Whether `class_name` is one of the words of the element's `class`.
    pub fn has_class(&self, class_name: &str, source: &[u8]) -> (res: bool)
        requires
            attrs_within(self.attributes@, source@.len()),
        ensures
            res == match attr_lookup(source@, self.attributes@, "class"@) {
                Some(v) => has_word(v, class_name@),
                None => false,
            },
    {
        match self.get_attribute("class", source) {
            Some(v) => has_word_exec(v, class_name),
            None => false,
        }
    }
}

/// Append the printed text of the source range `a..b`.
fn push_src_text(out: &mut Vec<char>, source: &[u8], a: u32, b: u32)
    requires
        a <= b <= source@.len(),
    ensures
        final(out)@ == old(out)@ + src_text(source@, a, b),
{
    let bytes = vstd::slice::slice_subrange(source, a as usize, b as usize);
    match utf8_to_str(bytes) {
        Some(t) => extend_str(out, t),
        None => extend_str(out, "???"),
    }
}

/// The printed text of the source range `a..b`.
fn src_chars(source: &[u8], a: u32, b: u32) -> (res: Vec<char>)
    requires
        a <= b <= source@.len(),
    ensures
        res@ == src_text(source@, a, b),
{
    let bytes = vstd::slice::slice_subrange(source, a as usize, b as usize);
    match utf8_to_str(bytes) {
        Some(t) => chars_of(t),
        None => chars_of("???"),
    }
}

/// Append `2 * depth` spaces.
fn push_indent(out: &mut Vec<char>, depth: usize)
    ensures
        final(out)@ == old(out)@ + indent(depth as nat),
{
    let mut i: usize = 0;
    while i < depth
        invariant
            i <= depth,
            out@ == old(out)@ + indent(i as nat),
        decreases depth - i,
    {
        out.push(' ');
        out.push(' ');
        i += 1;
        assert(out@ =~= old(out)@ + indent(i as nat));
    }
}

impl Dom {
    /// Every range the printer reads lies within a source of `len` bytes.
    pub open spec fn ranges_within(&self, len: nat) -> bool {
        forall|i: int| 0 <= i < self.nodes@.len() ==> node_ranges_ok(#[trigger] self.nodes@[i], len)
    }

    /// Append the attributes of an element as printed.
    fn push_attrs(node: &Node, source: &[u8], out: &mut Vec<char>)
        requires
            forall|k: int|
                0 <= k < node.attributes@.len() ==> {
                    let a = #[trigger] node.attributes@[k];
                    &&& range_ok(a.0, a.1, source@.len())
                    &&& !(a.2 == 0 && a.3 == 0) ==> range_ok(a.2, a.3, source@.len())
                },
        ensures
            final(out)@ == old(out)@ + attrs_text(node.attributes@, source@),
    {
        let ghost attrs = node.attributes@;
        let mut k: usize = 0;
        while k < node.attributes.len()
            invariant
                k <= attrs.len(),
                attrs == node.attributes@,
                out@ == old(out)@ + attrs_text(attrs.take(k as int), source@),
            decreases attrs.len() - k,
        {
            let ghost before = out@;
            if k > 0 {
                extend_str(out, " ");
            }
            let (ns, ne, vs, ve) = node.attributes[k];
            push_src_text(out, source, ns, ne);
            if !(vs == 0 && ve == 0) {
                extend_str(out, "=\"");
                push_src_text(out, source, vs, ve);
                extend_str(out, "\"");
            }
            proof {
                let t = attrs.take(k as int + 1);
                assert(t.drop_last() =~= attrs.take(k as int));
                assert(t.last() == attrs[k as int]);
                if k == 0 {
                    assert(t.len() == 1);
                    assert(out@ =~= old(out)@ + attrs_text(t, source@));
                } else {
                    assert(out@ =~= old(out)@ + attrs_text(t, source@));
                }
            }
            k += 1;
        }
        assert(attrs.take(attrs.len() as int) =~= attrs);
    }

    /// Append the line printed for one node.
    fn push_line(node: &Node, source: &[u8], depth: usize, out: &mut Vec<char>)
        requires
            node_ranges_ok(*node, source@.len()),
        ensures
            final(out)@ == old(out)@ + node_line(*node, source@, depth as nat),
    {
        match &node.kind {
            NodeKind::Document => {
                push_indent(out, depth);
                extend_str(out, "Document\n");
            },
            NodeKind::Element { tag_start, tag_end } => {
                push_indent(out, depth);
                extend_str(out, "Element <");
                push_src_text(out, source, *tag_start, *tag_end);
                if node.attributes.len() > 0 {
                    extend_str(out, " ");
                    Self::push_attrs(node, source, out);
                }
                extend_str(out, ">\n");
            },
            NodeKind::Text { start, end } => {
                let text = src_chars(source, *start, *end);
                let t = trim_chars(text.as_slice());
                if t.len() > 0 {
                    push_indent(out, depth);
                    extend_str(out, "Text \"");
                    extend_chars(out, t.as_slice());
                    extend_str(out, "\"\n");
                }
            },
            NodeKind::Comment { start, end } => {
                let text = src_chars(source, *start, *end);
                let t = trim_chars(text.as_slice());
                push_indent(out, depth);
                extend_str(out, "Comment \"");
                extend_chars(out, t.as_slice());
                extend_str(out, "\"\n");
            },
        }
    }

    /// Append the printout of the subtree at `id`, `depth` levels deep.
    fn format_node(&self, id: NodeId, source: &[u8], depth: usize, out: &mut Vec<char>)
        requires
            self.wf(),
            self.ranges_within(source@.len()),
            (id.0 as int) < self.nodes@.len(),
            depth <= id.0,
        ensures
            final(out)@ == old(out)@ + fmt_node(self.nodes@, id.0 as int, source@, depth as nat),
        decreases self.nodes@.len() - id.0,
    {
        let node = self.get(id);
        assert(node_ranges_ok(self.nodes@[id.0 as int], source@.len()));
        Self::push_line(node, source, depth, out);
        let ghost n = self.nodes@;
        let ghost i = id.0 as int;
        let ghost base = out@;
        let mut k: usize = 0;
        while k < node.children.len()
            invariant
                k <= n[i].children@.len(),
                *node == n[i],
                out@ == base + fmt_children(n, i, k as int, source@, depth as nat + 1),
            decreases n[i].children@.len() - k,
        {
            let c = node.children[k];
            assert(i < n[i].children@[k as int].0 < n.len());
            self.format_node(c, source, depth + 1, out);
            k += 1;
            assert(out@ =~= base + fmt_children(n, i, k as int, source@, depth as nat + 1));
        }
    }

    /// The whole tree as text, one node per line, indented two spaces per
    /// level: `Document`, `Element <tag attrs>`, `Text "..."` (trimmed,
    /// omitted when blank) and `Comment "..."`; invalid UTF-8 shows as `???`.
    pub fn format_tree(&self, source: &[u8]) -> (res: String)
        requires
            self.wf(),
            self.ranges_within(source@.len()),
        ensures
            res@ == fmt_node(self.nodes@, 0, source@, 0),
    {
        let mut out: Vec<char> = Vec::new();
        self.format_node(self.root(), source, 0, &mut out);
        assert(out@ =~= fmt_node(self.nodes@, 0, source@, 0));
        string_from_chars(out.as_slice())
    }
}

} // verus!
