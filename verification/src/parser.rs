//! The tree builder: turns HTML tokens into DOM nodes. It keeps the stack of
//! open elements between calls, so a document can arrive in pieces.
//!
//! A start tag opens an element under the current parent (the top of the
//! stack) and, unless the element is void, pushes it; an end tag closes the
//! nearest open element with the same name, together with everything opened
//! after it, and is ignored when no such element is open; text, comments and
//! self-closing tags become children of the current parent.

use vstd::prelude::*;
use vstd::slice::slice_subrange;

use crate::dom::{attr_tuples, node_infos, Dom, NodeId, NodeInfo, NodeKind};
use crate::text::{chars_eq_ignore_case, eq_ignore_case, is_one_of, latin1, latin1_chars, lower, lower_chars};
use crate::tokens::{Token, TokenKind};

verus! {

// ─── Tag names ───────────────────────────────────────────────────

/// The elements that cannot have children and need no end tag.
pub open spec fn void_elements() -> Seq<Seq<char>> {
    seq![
        "area"@, "base"@, "br"@, "col"@, "embed"@, "hr"@, "img"@, "input"@, "link"@, "meta"@,
        "param"@, "source"@, "track"@, "wbr"@,
    ]
}

/// Whether a tag name, in any ASCII case, is a void element.
pub open spec fn is_void_name(name: Seq<u8>) -> bool {
    void_elements().contains(lower(latin1(name)))
}

/// Two tag names are equal up to ASCII case.
pub open spec fn names_match(a: Seq<u8>, b: Seq<u8>) -> bool {
    eq_ignore_case(latin1(a), latin1(b))
}

/// The HTML void elements, which never have content: `area`, `base`,
/// `br`, `col`, `embed`, `hr`, `img`, `input`, `link`, `meta`, `param`,
/// `source`, `track`, `wbr`, in any ASCII case.
pub open spec fn html_void_name(n: Seq<char>) -> bool {
    n == "area"@ || n == "base"@ || n == "br"@ || n == "col"@ || n == "embed"@ || n == "hr"@ || n == "img"@ || n == "input"@ || n == "link"@ || n == "meta"@ || n == "param"@ || n == "source"@ || n == "track"@ || n == "wbr"@
}

/// A start tag for a void element is never left open: it adds its element
/// as a child of the current node and leaves the open-element stack as it
/// was, so what follows it is not placed inside it. A start tag for any
/// other element is pushed on the stack.
pub proof fn lemma_void_start_tag_closes(st: ParseState, t: Token, source: Seq<u8>)
    requires
        t.kind == TokenKind::StartTag,
    ensures
        html_void_name(lower(latin1(source.subrange(t.start as int, t.end as int)))) ==> token_step(st, t, source).1
            == st.1,
        !html_void_name(lower(latin1(source.subrange(t.start as int, t.end as int)))) ==> token_step(st, t, source).1
            == st.1.push(NodeId(st.0.len() as u32)),
{
    let n = lower(latin1(source.subrange(t.start as int, t.end as int)));
    let v = void_elements();
    assert(v[0] == "area"@);
    assert(v[1] == "base"@);
    assert(v[2] == "br"@);
    assert(v[3] == "col"@);
    assert(v[4] == "embed"@);
    assert(v[5] == "hr"@);
    assert(v[6] == "img"@);
    assert(v[7] == "input"@);
    assert(v[8] == "link"@);
    assert(v[9] == "meta"@);
    assert(v[10] == "param"@);
    assert(v[11] == "source"@);
    assert(v[12] == "track"@);
    assert(v[13] == "wbr"@);
    if html_void_name(n) {
        assert(v.contains(n));
    } else {
        assert(!v.contains(n)) by {
            if v.contains(n) {
                let k = choose|k: int| 0 <= k < v.len() && v[k] == n;
                assert(0 <= k < 14);
            }
        }
    }
}

/// Whether `source[tag_start..tag_end]` names a void element.
fn is_void_element(source: &[u8], tag_start: u32, tag_end: u32) -> (res: bool)
    requires
        tag_start <= tag_end <= source@.len(),
    ensures
        res == is_void_name(source@.subrange(tag_start as int, tag_end as int)),
{
    let name = slice_subrange(source, tag_start as usize, tag_end as usize);
    let lowered = lower_chars(latin1_chars(name).as_slice());
    let names = vec![
        "area", "base", "br", "col", "embed", "hr", "img", "input", "link", "meta", "param",
        "source", "track", "wbr",
    ];
    assert(names@.map_values(|x: &str| x@) =~= void_elements());
    is_one_of(&lowered, &names)
}

/// ASCII case-insensitive comparison of two tag names.
fn tag_names_match(a: &[u8], b: &[u8]) -> (res: bool)
    ensures
        res == names_match(a@, b@),
{
    let ca = latin1_chars(a);
    let cb = latin1_chars(b);
    chars_eq_ignore_case(ca.as_slice(), cb.as_slice())
}

// ─── The model ───────────────────────────────────────────────────

/// What the tree builder works on: the kind, parent and attributes of each
/// DOM node, the stack of open elements, and the nodes marked dirty so far.
pub type ParseState = (Seq<NodeInfo>, Seq<NodeId>, Seq<NodeId>);

/// The stack suits the nodes: it is never empty, names only existing
/// nodes, and every element above the bottom has its tag name inside a
/// source of `len` bytes.
pub open spec fn stack_fits(stack: Seq<NodeId>, infos: Seq<NodeInfo>, len: nat) -> bool {
    &&& stack.len() >= 1
    &&& forall|j: int| 0 <= j < stack.len() ==> (#[trigger] stack[j]).0 < infos.len()
    &&& forall|j: int|
        1 <= j < stack.len() ==> match #[trigger] infos[stack[j].0 as int].0 {
            NodeKind::Element { tag_start, tag_end } => tag_start <= tag_end <= len,
            _ => true,
        }
}

/// The tag name of an element in `source`; none for other nodes.
pub open spec fn element_name(info: NodeInfo, source: Seq<u8>) -> Option<Seq<u8>> {
    match info.0 {
        NodeKind::Element { tag_start, tag_end } => Some(
            source.subrange(tag_start as int, tag_end as int),
        ),
        _ => None,
    }
}

/// The highest position below `i`, above the bottom of the stack, of an open
/// element named `name` (in any ASCII case).
pub open spec fn closing_index(
    infos: Seq<NodeInfo>,
    stack: Seq<NodeId>,
    name: Seq<u8>,
    source: Seq<u8>,
    i: int,
) -> Option<int>
    decreases i,
{
    if i <= 1 {
        None
    } else {
        match element_name(infos[stack[i - 1].0 as int], source) {
            Some(n) => if names_match(n, name) {
                Some(i - 1)
            } else {
                closing_index(infos, stack, name, source, i - 1)
            },
            None => closing_index(infos, stack, name, source, i - 1),
        }
    }
}

/// A new node of the given kind and attributes under the current parent.
pub open spec fn with_child(
    st: ParseState,
    kind: NodeKind,
    attrs: Seq<(u32, u32, u32, u32)>,
) -> Seq<NodeInfo> {
    st.0.push((kind, Some(st.1.last()), attrs))
}

/// What one token does. A new node's id is the number of nodes before it.
pub open spec fn token_step(st: ParseState, t: Token, source: Seq<u8>) -> ParseState {
    let (infos, stack, dirty) = st;
    let parent = stack.last();
    let id = NodeId(infos.len() as u32);
    let name = source.subrange(t.start as int, t.end as int);
    let element = NodeKind::Element { tag_start: t.start, tag_end: t.end };
    match t.kind {
        TokenKind::StartTag => {
            let grown = with_child(st, element, attr_tuples(t.attributes@));
            if is_void_name(name) {
                (grown, stack, dirty.push(id).push(parent))
            } else {
                (grown, stack.push(id), dirty.push(parent))
            }
        },
        TokenKind::EndTag => match closing_index(infos, stack, name, source, stack.len() as int) {
            Some(k) => (infos, stack.take(k), dirty + stack.skip(k)),
            None => st,
        },
        TokenKind::SelfClosingTag => (
            with_child(st, element, attr_tuples(t.attributes@)),
            stack,
            dirty.push(id).push(parent),
        ),
        TokenKind::Text => (
            with_child(st, NodeKind::Text { start: t.start, end: t.end }, Seq::empty()),
            stack,
            dirty.push(id).push(parent),
        ),
        TokenKind::Comment => (
            with_child(st, NodeKind::Comment { start: t.start, end: t.end }, Seq::empty()),
            stack,
            dirty.push(id).push(parent),
        ),
        _ => st,
    }
}

/// What a sequence of tokens does, up to the first end-of-input token.
pub open spec fn parse_tokens(st: ParseState, tokens: Seq<Token>, source: Seq<u8>) -> ParseState
    decreases tokens.len(),
{
    if tokens.len() == 0 || tokens[0].kind == TokenKind::Eof {
        st
    } else {
        parse_tokens(token_step(st, tokens[0], source), tokens.drop_first(), source)
    }
}

/// Every start and end tag before the end of input names a range inside a
/// source of `len` bytes.
pub open spec fn tokens_fit(tokens: Seq<Token>, len: nat) -> bool
    decreases tokens.len(),
{
    if tokens.len() == 0 || tokens[0].kind == TokenKind::Eof {
        true
    } else {
        &&& (tokens[0].kind == TokenKind::StartTag || tokens[0].kind == TokenKind::EndTag)
            ==> tokens[0].start <= tokens[0].end <= len
        &&& tokens_fit(tokens.drop_first(), len)
    }
}

// ─── The parser ──────────────────────────────────────────────────

/// The tree builder and its stack of open elements.
pub struct Parser {
    open_elements: Vec<NodeId>,
}

impl Default for Parser {
    fn default() -> (res: Self)
        ensures
            res.stack() == seq![NodeId(0)],
    {
        Self::new()
    }
}

impl Parser {
    /// The open elements, the document root at the bottom.
    pub closed spec fn stack(&self) -> Seq<NodeId> {
        self.open_elements@
    }

    /// A parser whose only open node is the document root.
    pub fn new() -> (res: Self)
        ensures
            res.stack() == seq![NodeId(0)],
    {
        Parser { open_elements: vec![NodeId(0)] }
    }

    /// Build the nodes for `tokens`, whose ranges refer to `source`, into
    /// `dom`, and return the ids of the nodes touched: each new node that is
    /// complete, the parent of each new node, and the elements that end tags
    /// close.
    pub fn push_tokens(&mut self, dom: &mut Dom, tokens: &[Token], source: &[u8]) -> (dirty: Vec<
        NodeId,
    >)
        requires
            old(dom).wf(),
            stack_fits(old(self).stack(), node_infos(old(dom).nodes@), source@.len()),
            tokens_fit(tokens@, source@.len()),
            old(dom).nodes@.len() + tokens@.len() < u32::MAX,
        ensures
            final(dom).wf(),
            stack_fits(final(self).stack(), node_infos(final(dom).nodes@), source@.len()),
            (node_infos(final(dom).nodes@), final(self).stack(), dirty@) == parse_tokens(
                (node_infos(old(dom).nodes@), old(self).stack(), Seq::empty()),
                tokens@,
                source@,
            ),
    {
        let ghost target = parse_tokens(
            (node_infos(dom.nodes@), self.open_elements@, Seq::empty()),
            tokens@,
            source@,
        );
        let mut dirty: Vec<NodeId> = Vec::new();
        let mut i: usize = 0;
        let mut done = false;
        assert(tokens@.skip(0) =~= tokens@);
        while i < tokens.len() && !done
            invariant
                i <= tokens@.len(),
                dom.wf(),
                stack_fits(self.open_elements@, node_infos(dom.nodes@), source@.len()),
                tokens_fit(tokens@.skip(i as int), source@.len()),
                dom.nodes@.len() + (tokens@.len() - i) < u32::MAX,
                done ==> i < tokens@.len() && tokens@[i as int].kind == TokenKind::Eof,
                parse_tokens(
                    (node_infos(dom.nodes@), self.open_elements@, dirty@),
                    tokens@.skip(i as int),
                    source@,
                ) == target,
            decreases tokens@.len() - i + (if done { 0int } else { 1int }),
        {
            let ghost rest = tokens@.skip(i as int);
            assert(rest[0] == tokens@[i as int]);
            assert(rest.drop_first() =~= tokens@.skip(i as int + 1));
            let token = &tokens[i];
            match token.kind {
                TokenKind::StartTag => self.handle_start_tag(dom, token, source, &mut dirty),
                TokenKind::EndTag => self.handle_end_tag(dom, token, source, &mut dirty),
                TokenKind::SelfClosingTag => self.handle_self_closing_tag(dom, token, source, &mut dirty),
                TokenKind::Text => self.handle_text(dom, token, source, &mut dirty),
                TokenKind::Comment => self.handle_comment(dom, token, source, &mut dirty),
                TokenKind::Doctype => {},
                TokenKind::Eof => {
                    done = true;
                },
            }
            if !done {
                i += 1;
            }
        }
        dirty
    }

    /// The current parent: the top of the stack.
    fn current_parent(&self) -> (res: NodeId)
        requires
            self.open_elements@.len() >= 1,
        ensures
            res == self.open_elements@.last(),
    {
        self.open_elements[self.open_elements.len() - 1]
    }

    fn handle_start_tag(
        &mut self,
        dom: &mut Dom,
        token: &Token,
        source: &[u8],
        dirty: &mut Vec<NodeId>,
    )
        requires
            old(dom).wf(),
            stack_fits(old(self).open_elements@, node_infos(old(dom).nodes@), source@.len()),
            token.kind == TokenKind::StartTag,
            token.start <= token.end <= source@.len(),
            old(dom).nodes@.len() + 1 < u32::MAX,
        ensures
            final(dom).wf(),
            final(dom).nodes@.len() == old(dom).nodes@.len() + 1,
            stack_fits(final(self).open_elements@, node_infos(final(dom).nodes@), source@.len()),
            (node_infos(final(dom).nodes@), final(self).open_elements@, final(dirty)@)
                == token_step(
                (node_infos(old(dom).nodes@), old(self).open_elements@, old(dirty)@),
                *token,
                source@,
            ),
    {
        let ghost infos0 = node_infos(dom.nodes@);
        let parent = self.current_parent();
        let node_id = dom.add_element(parent, token.start, token.end, token.attributes.as_slice());
        if !is_void_element(source, token.start, token.end) {
            self.open_elements.push(node_id);
        } else {
            dirty.push(node_id);
        }
        dirty.push(parent);
        proof {
            lemma_stack_fits_grow(old(self).open_elements@, infos0, node_infos(dom.nodes@).last(), source@.len());
        }
    }

    fn handle_end_tag(
        &mut self,
        dom: &mut Dom,
        token: &Token,
        source: &[u8],
        dirty: &mut Vec<NodeId>,
    )
        requires
            old(dom).wf(),
            stack_fits(old(self).open_elements@, node_infos(old(dom).nodes@), source@.len()),
            token.kind == TokenKind::EndTag,
            token.start <= token.end <= source@.len(),
        ensures
            *final(dom) == *old(dom),
            stack_fits(final(self).open_elements@, node_infos(final(dom).nodes@), source@.len()),
            (node_infos(final(dom).nodes@), final(self).open_elements@, final(dirty)@)
                == token_step(
                (node_infos(old(dom).nodes@), old(self).open_elements@, old(dirty)@),
                *token,
                source@,
            ),
    {
        let ghost infos = node_infos(dom.nodes@);
        let ghost stack = self.open_elements@;
        let end_name = slice_subrange(source, token.start as usize, token.end as usize);
        let mut match_index: Option<usize> = None;
        let mut i: usize = self.open_elements.len();
        while i > 1 && match_index.is_none()
            invariant
                1 <= i <= stack.len(),
                self.open_elements@ == stack,
                node_infos(dom.nodes@) == infos,
                stack_fits(stack, infos, source@.len()),
                end_name@ == source@.subrange(token.start as int, token.end as int),
                match match_index {
                    Some(k) => k < stack.len() && closing_index(
                        infos,
                        stack,
                        end_name@,
                        source@,
                        stack.len() as int,
                    ) == Some(k as int),
                    None => closing_index(infos, stack, end_name@, source@, stack.len() as int)
                        == closing_index(infos, stack, end_name@, source@, i as int),
                },
            decreases i + (if match_index is None { 1int } else { 0int }),
        {
            let id = self.open_elements[i - 1];
            let node = dom.get(id);
            assert(infos[id.0 as int].0 == node.kind);
            if let NodeKind::Element { tag_start, tag_end } = &node.kind {
                let open_name = slice_subrange(source, *tag_start as usize, *tag_end as usize);
                if tag_names_match(open_name, end_name) {
                    match_index = Some(i - 1);
                }
            }
            if match_index.is_none() {
                i -= 1;
            }
        }
        if let Some(idx) = match_index {
            proof {
                lemma_closing_index_range(infos, stack, end_name@, source@, stack.len() as int);
            }
            let ghost dirty0 = dirty@;
            let mut j: usize = idx;
            while j < self.open_elements.len()
                invariant
                    idx <= j <= stack.len(),
                    self.open_elements@ == stack,
                    dirty@ == dirty0 + stack.subrange(idx as int, j as int),
                decreases stack.len() - j,
            {
                dirty.push(self.open_elements[j]);
                j += 1;
                assert(dirty@ =~= dirty0 + stack.subrange(idx as int, j as int));
            }
            assert(stack.subrange(idx as int, stack.len() as int) =~= stack.skip(idx as int));
            self.open_elements.truncate(idx);
            assert(self.open_elements@ =~= stack.take(idx as int));
            assert forall|j: int| 1 <= j < idx implies match #[trigger] infos[self.open_elements@[j].0 as int].0 {
                NodeKind::Element { tag_start, tag_end } => tag_start <= tag_end <= source@.len(),
                _ => true,
            } by {
                assert(self.open_elements@[j] == stack[j]);
            }
        }
    }

    fn handle_self_closing_tag(
        &mut self,
        dom: &mut Dom,
        token: &Token,
        source: &[u8],
        dirty: &mut Vec<NodeId>,
    )
        requires
            old(dom).wf(),
            stack_fits(old(self).open_elements@, node_infos(old(dom).nodes@), source@.len()),
            token.kind == TokenKind::SelfClosingTag,
            old(dom).nodes@.len() + 1 < u32::MAX,
        ensures
            final(dom).wf(),
            final(dom).nodes@.len() == old(dom).nodes@.len() + 1,
            stack_fits(final(self).open_elements@, node_infos(final(dom).nodes@), source@.len()),
            (node_infos(final(dom).nodes@), final(self).open_elements@, final(dirty)@)
                == token_step(
                (node_infos(old(dom).nodes@), old(self).open_elements@, old(dirty)@),
                *token,
                source@,
            ),
    {
        let ghost infos0 = node_infos(dom.nodes@);
        let parent = self.current_parent();
        let node_id = dom.add_element(parent, token.start, token.end, token.attributes.as_slice());
        dirty.push(node_id);
        dirty.push(parent);
        proof {
            lemma_stack_fits_grow(self.open_elements@, infos0, node_infos(dom.nodes@).last(), source@.len());
        }
    }

    fn handle_text(&mut self, dom: &mut Dom, token: &Token, source: &[u8], dirty: &mut Vec<NodeId>)
        requires
            old(dom).wf(),
            stack_fits(old(self).open_elements@, node_infos(old(dom).nodes@), source@.len()),
            token.kind == TokenKind::Text,
            old(dom).nodes@.len() + 1 < u32::MAX,
        ensures
            final(dom).wf(),
            final(dom).nodes@.len() == old(dom).nodes@.len() + 1,
            stack_fits(final(self).open_elements@, node_infos(final(dom).nodes@), source@.len()),
            (node_infos(final(dom).nodes@), final(self).open_elements@, final(dirty)@)
                == token_step(
                (node_infos(old(dom).nodes@), old(self).open_elements@, old(dirty)@),
                *token,
                source@,
            ),
    {
        let ghost infos0 = node_infos(dom.nodes@);
        let parent = self.current_parent();
        let node_id = dom.add_text(parent, token.start, token.end);
        dirty.push(node_id);
        dirty.push(parent);
        proof {
            lemma_stack_fits_grow(self.open_elements@, infos0, node_infos(dom.nodes@).last(), source@.len());
        }
    }

    fn handle_comment(&mut self, dom: &mut Dom, token: &Token, source: &[u8], dirty: &mut Vec<NodeId>)
        requires
            old(dom).wf(),
            stack_fits(old(self).open_elements@, node_infos(old(dom).nodes@), source@.len()),
            token.kind == TokenKind::Comment,
            old(dom).nodes@.len() + 1 < u32::MAX,
        ensures
            final(dom).wf(),
            final(dom).nodes@.len() == old(dom).nodes@.len() + 1,
            stack_fits(final(self).open_elements@, node_infos(final(dom).nodes@), source@.len()),
            (node_infos(final(dom).nodes@), final(self).open_elements@, final(dirty)@)
                == token_step(
                (node_infos(old(dom).nodes@), old(self).open_elements@, old(dirty)@),
                *token,
                source@,
            ),
    {
        let ghost infos0 = node_infos(dom.nodes@);
        let parent = self.current_parent();
        let node_id = dom.add_comment(parent, token.start, token.end);
        dirty.push(node_id);
        dirty.push(parent);
        proof {
            lemma_stack_fits_grow(self.open_elements@, infos0, node_infos(dom.nodes@).last(), source@.len());
        }
    }
}

/// Law: no token closes the bottom of the stack. Whatever tokens arrive,
/// the stack stays non-empty and keeps its bottom element (the document
/// root, for a parser made by `new`).
pub proof fn lemma_bottom_stays(st: ParseState, tokens: Seq<Token>, source: Seq<u8>)
    requires
        st.1.len() >= 1,
    ensures
        parse_tokens(st, tokens, source).1.len() >= 1,
        parse_tokens(st, tokens, source).1[0] == st.1[0],
    decreases tokens.len(),
{
    if tokens.len() > 0 && tokens[0].kind != TokenKind::Eof {
        let t = tokens[0];
        let name = source.subrange(t.start as int, t.end as int);
        lemma_closing_index_range(st.0, st.1, name, source, st.1.len() as int);
        let next = token_step(st, t, source);
        assert(next.1.len() >= 1 && next.1[0] == st.1[0]);
        lemma_bottom_stays(next, tokens.drop_first(), source);
    }
}

/// An end tag closes an element above the bottom of the stack.
proof fn lemma_closing_index_range(
    infos: Seq<NodeInfo>,
    stack: Seq<NodeId>,
    name: Seq<u8>,
    source: Seq<u8>,
    i: int,
)
    ensures
        closing_index(infos, stack, name, source, i) matches Some(k) ==> 1 <= k < i,
    decreases i,
{
    if i > 1 {
        lemma_closing_index_range(infos, stack, name, source, i - 1);
    }
}

/// Adding a node keeps the stack suited to the nodes.
proof fn lemma_stack_fits_grow(stack: Seq<NodeId>, infos: Seq<NodeInfo>, info: NodeInfo, len: nat)
    requires
        stack_fits(stack, infos, len),
    ensures
        stack_fits(stack, infos.push(info), len),
{
    let grown = infos.push(info);
    assert forall|j: int| 1 <= j < stack.len() implies match #[trigger] grown[stack[j].0 as int].0 {
        NodeKind::Element { tag_start, tag_end } => tag_start <= tag_end <= len,
        _ => true,
    } by {
        assert(grown[stack[j].0 as int] == infos[stack[j].0 as int]);
    }
}

} // verus!
