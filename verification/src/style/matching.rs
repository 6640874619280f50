//! Selector matching against the DOM, and the index that files style
//! rules by their key selectors so that an element is only matched
//! against the rules that can apply to it.
#![verifier::loop_isolation(false)]

use vstd::prelude::*;

use crate::css_parser::{
    copy_compound, parts_view, rules_view, sels_view, selectors_view, steps_view, Combinator, RuleView,
    Selector, SelectorStep, SelectorView, SimpleSel, SimpleSelector, StepView, StyleRule,
};
use crate::dom::{attr_lookup, attrs_within, has_word, node_ranges_ok, node_tag, Dom, Node, NodeId, NodeKind};
use crate::text::{chars_eq, chars_of, lower, lower_chars, str_eq, to_ascii_lowercase};

verus! {

broadcast use vstd::seq_lib::group_seq_properties;

// ─── Selector matching ───────────────────────────────────────────

/// Node `x` exists and is an element.
pub open spec fn is_element(n: Seq<Node>, x: int) -> bool {
    0 <= x < n.len() && n[x].kind is Element
}

/// The parent of node `x`, if it has one.
pub open spec fn parent_of(n: Seq<Node>, x: int) -> Option<NodeId> {
    if 0 <= x < n.len() {
        n[x].parent
    } else {
        None
    }
}

/// The first position of node `x` among the first `k` of `kids`.
pub open spec fn position_in(kids: Seq<NodeId>, x: int, k: int) -> Option<int>
    decreases k,
{
    if k <= 0 {
        None
    } else {
        match position_in(kids, x, k - 1) {
            Some(i) => Some(i),
            None => if kids[k - 1].0 == x {
                Some(k - 1)
            } else {
                None
            },
        }
    }
}

/// The last element among the first `k` of `kids`.
pub open spec fn last_element_before(n: Seq<Node>, kids: Seq<NodeId>, k: int) -> Option<NodeId>
    decreases k,
{
    if k <= 0 {
        None
    } else if is_element(n, kids[k - 1].0 as int) {
        Some(kids[k - 1])
    } else {
        last_element_before(n, kids, k - 1)
    }
}

/// The first element among `kids` from position `k` on.
pub open spec fn first_element_from(n: Seq<Node>, kids: Seq<NodeId>, k: int) -> Option<NodeId>
    decreases kids.len() - k,
{
    if k < 0 || k >= kids.len() {
        None
    } else if is_element(n, kids[k].0 as int) {
        Some(kids[k])
    } else {
        first_element_from(n, kids, k + 1)
    }
}

/// The children of the parent of `x` (none when it has no parent).
pub open spec fn siblings(n: Seq<Node>, x: int) -> Option<Seq<NodeId>> {
    match parent_of(n, x) {
        Some(p) => if p.0 < n.len() {
            Some(n[p.0 as int].children@)
        } else {
            None
        },
        None => None,
    }
}

/// The element sibling just before `x`.
pub open spec fn prev_element_sibling(n: Seq<Node>, x: int) -> Option<NodeId> {
    match siblings(n, x) {
        Some(kids) => match position_in(kids, x, kids.len() as int) {
            Some(i) => last_element_before(n, kids, i),
            None => None,
        },
        None => None,
    }
}

/// `x` is the first element among its parent's children.
pub open spec fn is_first_child(n: Seq<Node>, x: int) -> bool {
    match siblings(n, x) {
        Some(kids) => first_element_from(n, kids, 0) == Some(NodeId(x as u32)),
        None => false,
    }
}

/// `x` is the last element among its parent's children.
pub open spec fn is_last_child(n: Seq<Node>, x: int) -> bool {
    match siblings(n, x) {
        Some(kids) => last_element_before(n, kids, kids.len() as int) == Some(NodeId(x as u32)),
        None => false,
    }
}

/// Whether element `x` matches one simple selector: its tag name in ASCII
/// lowercase, a word of its `class`, its `id`, anything, or the
/// pseudo-classes `first-child`, `last-child` and `root` (the `html`
/// element or a child of the document); other pseudo-classes never match.
pub open spec fn simple_matches(n: Seq<Node>, x: int, s: SimpleSel, src: Seq<u8>) -> bool {
    let tag = lower(node_tag(n[x], src));
    match s {
        SimpleSel::Tag(name) => tag == name,
        SimpleSel::Class(c) => match attr_lookup(src, n[x].attributes@, "class"@) {
            Some(v) => has_word(v, c),
            None => false,
        },
        SimpleSel::Id(i) => attr_lookup(src, n[x].attributes@, "id"@) == Some(i),
        SimpleSel::Universal => true,
        SimpleSel::PseudoClass(p) => if p == "first-child"@ {
            is_first_child(n, x)
        } else if p == "last-child"@ {
            is_last_child(n, x)
        } else if p == "root"@ {
            tag == "html"@ || parent_of(n, x) == Some(NodeId(0))
        } else {
            false
        },
    }
}

/// Node `x` is an element that matches every simple selector of `c`.
pub open spec fn compound_matches_spec(n: Seq<Node>, x: int, c: Seq<SimpleSel>, src: Seq<u8>) -> bool {
    is_element(n, x) && forall|j: int| 0 <= j < c.len() ==> simple_matches(n, x, #[trigger] c[j], src)
}

/// Node `x` matches steps `0..=k` of a selector, step `k` at `x` itself:
/// its compound matches `x`, and the steps before it match where its
/// combinator points (the parent, some ancestor, the element sibling just
/// before, or some earlier element sibling).
pub open spec fn step_matches(n: Seq<Node>, steps: Seq<StepView>, k: int, x: int, src: Seq<u8>) -> bool
    decreases k, x, 0int,
{
    if k < 0 || k >= steps.len() || x < 0 {
        false
    } else if !compound_matches_spec(n, x, steps[k].1, src) {
        false
    } else if k == 0 {
        true
    } else {
        match steps[k].0 {
            Combinator::Child => match parent_of(n, x) {
                Some(p) => if p.0 < x {
                    step_matches(n, steps, k - 1, p.0 as int, src)
                } else {
                    false
                },
                None => false,
            },
            Combinator::Descendant => ancestor_matches(n, steps, k - 1, x, src),
            Combinator::NextSibling => match prev_element_sibling(n, x) {
                Some(s) => if s.0 < x {
                    step_matches(n, steps, k - 1, s.0 as int, src)
                } else {
                    false
                },
                None => false,
            },
            Combinator::SubsequentSibling => earlier_sibling_matches(n, steps, k - 1, x, src),
        }
    }
}

/// Some proper ancestor of `x` matches steps `0..=k`.
pub open spec fn ancestor_matches(n: Seq<Node>, steps: Seq<StepView>, k: int, x: int, src: Seq<u8>) -> bool
    decreases k, x, 1int,
{
    if k < 0 || x < 0 {
        false
    } else {
        match parent_of(n, x) {
            Some(p) => if p.0 < x {
                step_matches(n, steps, k, p.0 as int, src) || ancestor_matches(n, steps, k, p.0 as int, src)
            } else {
                false
            },
            None => false,
        }
    }
}

/// Some element sibling before `x` matches steps `0..=k`.
pub open spec fn earlier_sibling_matches(n: Seq<Node>, steps: Seq<StepView>, k: int, x: int, src: Seq<u8>) -> bool
    decreases k, x, 1int,
{
    if k < 0 || x < 0 {
        false
    } else {
        match prev_element_sibling(n, x) {
            Some(s) => if s.0 < x {
                step_matches(n, steps, k, s.0 as int, src) || earlier_sibling_matches(n, steps, k, s.0 as int, src)
            } else {
                false
            },
            None => false,
        }
    }
}

/// The steps of a selector written only as parts: each part a step,
/// joined by descendant combinators.
pub open spec fn descendant_steps(parts: Seq<Seq<SimpleSel>>) -> Seq<StepView> {
    parts.map_values(|p: Seq<SimpleSel>| (Combinator::Descendant, p))
}

/// Whether node `x` matches a selector: its last step at `x`. A selector
/// with no steps falls back to its parts joined by descendant combinators;
/// one with neither matches nothing.
pub open spec fn spec_selector_matches(sel: (Seq<StepView>, Seq<Seq<SimpleSel>>), n: Seq<Node>, x: int, src: Seq<u8>) -> bool {
    if sel.0.len() > 0 {
        step_matches(n, sel.0, sel.0.len() - 1, x, src)
    } else if sel.1.len() == 0 {
        false
    } else {
        step_matches(n, descendant_steps(sel.1), sel.1.len() - 1, x, src)
    }
}

/// Once `x` is found among the first `a` children, it is found at the
/// same place among more of them.
proof fn lemma_position_stays(kids: Seq<NodeId>, x: int, a: int, b: int)
    requires
        0 <= a <= b,
        position_in(kids, x, a) is Some,
    ensures
        position_in(kids, x, b) == position_in(kids, x, a),
    decreases b - a,
{
    if b > a {
        lemma_position_stays(kids, x, a, b - 1);
    }
}

/// The element sibling just before `x` (see `prev_element_sibling`).
fn get_previous_element_sibling(node_id: NodeId, dom: &Dom) -> (res: Option<NodeId>)
    requires
        dom.wf(),
        (node_id.0 as int) < dom.nodes@.len(),
    ensures
        res == prev_element_sibling(dom.nodes@, node_id.0 as int),
        res matches Some(s) ==> s.0 < node_id.0,
{
    let ghost n = dom.nodes@;
    let ghost x = node_id.0 as int;
    let node = dom.get(node_id);
    let p = match node.parent {
        Some(p) => p,
        None => return None,
    };
    let parent = dom.get(p);
    let ghost kids = parent.children@;
    let len = parent.children.len();
    let mut i: usize = 0;
    let mut found: Option<usize> = None;
    while i < len
        invariant
            i <= len,
            len == kids.len(),
            kids == parent.children@,
            found is None,
            position_in(kids, x, i as int) is None,
        decreases len - i,
    {
        if parent.children[i].0 == node_id.0 {
            found = Some(i);
            break;
        }
        i += 1;
    }
    let idx = match found {
        Some(idx) => idx,
        None => return None,
    };
    proof {
        assert(position_in(kids, x, idx as int + 1) == Some(idx as int));
        lemma_position_stays(kids, x, idx as int + 1, kids.len() as int);
    }
    let mut j: usize = idx;
    while j > 0
        invariant
            j <= idx < kids.len(),
            kids == parent.children@,
            kids[idx as int].0 == node_id.0,
            last_element_before(n, kids, idx as int) == last_element_before(n, kids, j as int),
            dom.wf(),
            n == dom.nodes@,
        decreases j,
    {
        let c = parent.children[j - 1];
        assert(kids[j - 1].0 < n.len());
        if matches!(dom.get(c).kind, NodeKind::Element { .. }) {
            assert(kids[j - 1].0 < kids[idx as int].0);
            return Some(c);
        }
        j -= 1;
    }
    None
}

/// Whether `x` is the first element among its parent's children.
fn first_child_check(node_id: NodeId, dom: &Dom) -> (res: bool)
    requires
        dom.wf(),
        (node_id.0 as int) < dom.nodes@.len(),
    ensures
        res == is_first_child(dom.nodes@, node_id.0 as int),
{
    let ghost n = dom.nodes@;
    let p = match dom.get(node_id).parent {
        Some(p) => p,
        None => return false,
    };
    let parent = dom.get(p);
    let ghost kids = parent.children@;
    let mut j: usize = 0;
    while j < parent.children.len()
        invariant
            j <= kids.len(),
            kids == parent.children@,
            first_element_from(n, kids, 0) == first_element_from(n, kids, j as int),
            dom.wf(),
            n == dom.nodes@,
        decreases kids.len() - j,
    {
        let c = parent.children[j];
        if matches!(dom.get(c).kind, NodeKind::Element { .. }) {
            return c.0 == node_id.0;
        }
        j += 1;
    }
    false
}

/// Whether `x` is the last element among its parent's children.
fn last_child_check(node_id: NodeId, dom: &Dom) -> (res: bool)
    requires
        dom.wf(),
        (node_id.0 as int) < dom.nodes@.len(),
    ensures
        res == is_last_child(dom.nodes@, node_id.0 as int),
{
    let ghost n = dom.nodes@;
    let p = match dom.get(node_id).parent {
        Some(p) => p,
        None => return false,
    };
    let parent = dom.get(p);
    let ghost kids = parent.children@;
    let mut j: usize = parent.children.len();
    while j > 0
        invariant
            j <= kids.len(),
            kids == parent.children@,
            last_element_before(n, kids, kids.len() as int) == last_element_before(n, kids, j as int),
            dom.wf(),
            n == dom.nodes@,
        decreases j,
    {
        let c = parent.children[j - 1];
        if matches!(dom.get(c).kind, NodeKind::Element { .. }) {
            return c.0 == node_id.0;
        }
        j -= 1;
    }
    false
}

/// Whether element `x` matches one simple selector (see `simple_matches`).
fn simple_check(simple: &SimpleSelector, node_id: NodeId, tag: &Vec<char>, dom: &Dom, source: &[u8]) -> (res: bool)
    requires
        dom.wf(),
        dom.ranges_within(source@.len()),
        is_element(dom.nodes@, node_id.0 as int),
        tag@ == lower(node_tag(dom.nodes@[node_id.0 as int], source@)),
    ensures
        res == simple_matches(dom.nodes@, node_id.0 as int, simple@, source@),
{
    let node = dom.get(node_id);
    assert(node_ranges_ok(dom.nodes@[node_id.0 as int], source@.len()));
    match simple {
        SimpleSelector::Tag(name) => {
            let nc = chars_of(name.as_str());
            chars_eq(tag.as_slice(), nc.as_slice())
        },
        SimpleSelector::Class(c) => node.has_class(c.as_str(), source),
        SimpleSelector::Id(i) => match node.get_id(source) {
            Some(v) => {
                let a = chars_of(v);
                let b = chars_of(i.as_str());
                chars_eq(a.as_slice(), b.as_slice())
            },
            None => false,
        },
        SimpleSelector::Universal => true,
        SimpleSelector::PseudoClass(p) => {
            let pc = chars_of(p.as_str());
            let first = chars_of("first-child");
            let last = chars_of("last-child");
            let root = chars_of("root");
            if chars_eq(pc.as_slice(), first.as_slice()) {
                first_child_check(node_id, dom)
            } else if chars_eq(pc.as_slice(), last.as_slice()) {
                last_child_check(node_id, dom)
            } else if chars_eq(pc.as_slice(), root.as_slice()) {
                let html = chars_of("html");
                chars_eq(tag.as_slice(), html.as_slice()) || match node.parent {
                    Some(q) => q.0 == 0,
                    None => false,
                }
            } else {
                false
            }
        },
    }
}

/// Whether node `x` is an element matching every simple selector of a
/// compound selector.
fn compound_matches(compound: &[SimpleSelector], node_id: NodeId, dom: &Dom, source: &[u8]) -> (res: bool)
    requires
        dom.wf(),
        dom.ranges_within(source@.len()),
        (node_id.0 as int) < dom.nodes@.len(),
    ensures
        res == compound_matches_spec(dom.nodes@, node_id.0 as int, sels_view(compound@), source@),
{
    let ghost n = dom.nodes@;
    let ghost x = node_id.0 as int;
    let node = dom.get(node_id);
    if !matches!(node.kind, NodeKind::Element { .. }) {
        return false;
    }
    assert(node_ranges_ok(n[x], source@.len()));
    let tag = lower_chars(chars_of(node.tag_name(source)).as_slice());
    let mut j: usize = 0;
    while j < compound.len()
        invariant
            j <= compound@.len(),
            dom.wf(),
            dom.ranges_within(source@.len()),
            n == dom.nodes@,
            is_element(n, x),
            tag@ == lower(node_tag(n[x], source@)),
            forall|i: int| 0 <= i < j ==> simple_matches(n, x, #[trigger] sels_view(compound@)[i], source@),
        decreases compound@.len() - j,
    {
        if !simple_check(&compound[j], node_id, &tag, dom, source) {
            assert(sels_view(compound@)[j as int] == compound@[j as int]@);
            assert(!simple_matches(n, x, sels_view(compound@)[j as int], source@));
            return false;
        }
        j += 1;
    }
    true
}

/// Whether node `x` matches steps `0..=k` (see `step_matches`).
fn match_selector_from_step(steps: &[SelectorStep], k: usize, node_id: NodeId, dom: &Dom, source: &[u8]) -> (res: bool)
    requires
        dom.wf(),
        dom.ranges_within(source@.len()),
        (node_id.0 as int) < dom.nodes@.len(),
        k < steps@.len(),
    ensures
        res == step_matches(dom.nodes@, steps_view(steps@), k as int, node_id.0 as int, source@),
    decreases k,
{
    let ghost n = dom.nodes@;
    let ghost sv = steps_view(steps@);
    let ghost x = node_id.0 as int;
    assert(sv[k as int] == steps@[k as int]@);
    if !compound_matches(steps[k].compound.as_slice(), node_id, dom, source) {
        return false;
    }
    if k == 0 {
        return true;
    }
    match steps[k].combinator {
        Combinator::Child => match dom.get(node_id).parent {
            Some(p) => match_selector_from_step(steps, k - 1, p, dom, source),
            None => false,
        },
        Combinator::Descendant => {
            let mut cur = node_id;
            loop
                invariant
                    dom.wf(),
                    dom.ranges_within(source@.len()),
                    n == dom.nodes@,
                    sv == steps_view(steps@),
                    1 <= k < steps@.len(),
                    (cur.0 as int) < n.len(),
                    ancestor_matches(n, sv, k - 1, x, source@) == ancestor_matches(n, sv, k - 1, cur.0 as int, source@),
                    step_matches(n, sv, k as int, x, source@) == ancestor_matches(n, sv, k - 1, x, source@),
                decreases cur.0,
            {
                match dom.get(cur).parent {
                    Some(p) => {
                        if match_selector_from_step(steps, k - 1, p, dom, source) {
                            return true;
                        }
                        cur = p;
                    },
                    None => {
                        return false;
                    },
                }
            }
        },
        Combinator::NextSibling => match get_previous_element_sibling(node_id, dom) {
            Some(s) => match_selector_from_step(steps, k - 1, s, dom, source),
            None => false,
        },
        Combinator::SubsequentSibling => {
            let mut cur = node_id;
            loop
                invariant
                    dom.wf(),
                    dom.ranges_within(source@.len()),
                    n == dom.nodes@,
                    sv == steps_view(steps@),
                    1 <= k < steps@.len(),
                    (cur.0 as int) < n.len(),
                    earlier_sibling_matches(n, sv, k - 1, x, source@) == earlier_sibling_matches(n, sv, k - 1, cur.0 as int, source@),
                    step_matches(n, sv, k as int, x, source@) == earlier_sibling_matches(n, sv, k - 1, x, source@),
                decreases cur.0,
            {
                match get_previous_element_sibling(cur, dom) {
                    Some(s) => {
                        if match_selector_from_step(steps, k - 1, s, dom, source) {
                            return true;
                        }
                        cur = s;
                    },
                    None => {
                        return false;
                    },
                }
            }
        },
    }
}

/// Whether a selector matches node `node_id` (see `spec_selector_matches`).
pub fn selector_matches(selector: &Selector, node_id: NodeId, dom: &Dom, source: &[u8]) -> (res: bool)
    requires
        dom.wf(),
        dom.ranges_within(source@.len()),
        (node_id.0 as int) < dom.nodes@.len(),
    ensures
        res == spec_selector_matches(selector@, dom.nodes@, node_id.0 as int, source@),
{
    if selector.steps.len() > 0 {
        return match_selector_from_step(selector.steps.as_slice(), selector.steps.len() - 1, node_id, dom, source);
    }
    if selector.parts.len() == 0 {
        return false;
    }
    let ghost pv = parts_view(selector.parts@);
    let mut steps: Vec<SelectorStep> = Vec::new();
    let mut i: usize = 0;
    while i < selector.parts.len()
        invariant
            i <= selector.parts@.len(),
            pv == parts_view(selector.parts@),
            steps_view(steps@) == descendant_steps(pv.take(i as int)),
        decreases selector.parts@.len() - i,
    {
        let ghost prev = steps@;
        let compound = copy_compound(&selector.parts[i]);
        let step = SelectorStep { combinator: Combinator::Descendant, compound };
        assert(pv[i as int] == sels_view(selector.parts@[i as int]@));
        assert(step@ == (Combinator::Descendant, pv[i as int]));
        steps.push(step);
        assert(steps_view(steps@) =~= steps_view(prev).push(step@));
        assert(descendant_steps(pv.take(i as int + 1)) =~= descendant_steps(pv.take(i as int)).push(
            (Combinator::Descendant, pv[i as int]),
        ));
        i += 1;
    }
    assert(pv.take(i as int) =~= pv);
    match_selector_from_step(steps.as_slice(), steps.len() - 1, node_id, dom, source)
}

// ─── Rule index ──────────────────────────────────────────────────

/// What a rule is filed under: the id, class or tag of its key selector
/// (the compound of a selector's last step), or the universal bucket for a
/// selector with none of those.
#[derive(Debug, Clone, Copy, PartialEq, Eq, Structural)]
pub enum KeyKind {
    Universal,
    Id,
    Class,
    Tag,
}

/// An index key: a kind and a value in ASCII lowercase (empty for the
/// universal bucket).
pub type IndexKey = (KeyKind, Seq<char>);

/// The key a simple selector files a rule under: ids, classes and tags, in
/// ASCII lowercase; `*` and pseudo-classes file nothing.
pub open spec fn simple_key(s: SimpleSel) -> Option<IndexKey> {
    match s {
        SimpleSel::Id(v) => Some((KeyKind::Id, lower(v))),
        SimpleSel::Class(v) => Some((KeyKind::Class, lower(v))),
        SimpleSel::Tag(v) => Some((KeyKind::Tag, lower(v))),
        _ => None,
    }
}

/// The keys of a compound selector, in order.
pub open spec fn compound_keys(c: Seq<SimpleSel>) -> Seq<IndexKey>
    decreases c.len(),
{
    if c.len() == 0 {
        Seq::empty()
    } else {
        compound_keys(c.drop_last()) + match simple_key(c.last()) {
            Some(k) => seq![k],
            None => Seq::empty(),
        }
    }
}

/// The keys of a selector: those of its last step's compound; none when
/// it has no steps.
pub open spec fn selector_keys(sel: SelectorView) -> Seq<IndexKey> {
    if sel.0.len() > 0 {
        compound_keys(sel.0.last().1)
    } else {
        Seq::empty()
    }
}

/// The universal key.
pub open spec fn universal_key() -> IndexKey {
    (KeyKind::Universal, Seq::empty())
}

/// What one selector of rule `r` files: the rule under each of its keys,
/// or under the universal key when it has none.
pub open spec fn selector_entries(sel: SelectorView, r: usize) -> Seq<(IndexKey, usize)> {
    let ks = selector_keys(sel);
    if ks.len() == 0 {
        seq![(universal_key(), r)]
    } else {
        ks.map_values(|k: IndexKey| (k, r))
    }
}

/// What the selectors of rule `r` file, in order.
pub open spec fn rule_entries(sels: Seq<SelectorView>, r: usize) -> Seq<(IndexKey, usize)>
    decreases sels.len(),
{
    if sels.len() == 0 {
        Seq::empty()
    } else {
        rule_entries(sels.drop_last(), r) + selector_entries(sels.last(), r)
    }
}

/// What indexing a list of rules files, in order; rules are named by
/// their positions.
pub open spec fn index_entries(rules: Seq<RuleView>) -> Seq<(IndexKey, usize)>
    decreases rules.len(),
{
    if rules.len() == 0 {
        Seq::empty()
    } else {
        index_entries(rules.drop_last()) + rule_entries(rules.last().0, (rules.len() - 1) as usize)
    }
}

/// The rules filed under key `k`, in the order they were filed.
pub open spec fn bucket(e: Seq<(IndexKey, usize)>, k: IndexKey) -> Seq<usize>
    decreases e.len(),
{
    if e.len() == 0 {
        Seq::empty()
    } else {
        bucket(e.drop_last(), k) + if e.last().0 == k {
            seq![e.last().1]
        } else {
            Seq::empty()
        }
    }
}

/// The buckets of the given classes, one after another.
pub open spec fn class_stream(e: Seq<(IndexKey, usize)>, classes: Seq<Seq<char>>) -> Seq<usize>
    decreases classes.len(),
{
    if classes.len() == 0 {
        Seq::empty()
    } else {
        class_stream(e, classes.drop_last()) + bucket(e, (KeyKind::Class, lower(classes.last())))
    }
}

/// The candidate rules of an element before duplicates are dropped: its
/// id's bucket, its classes' buckets, its tag's bucket, then the
/// universal bucket, keys in ASCII lowercase.
pub open spec fn candidate_stream(
    e: Seq<(IndexKey, usize)>,
    tag: Seq<char>,
    classes: Seq<Seq<char>>,
    id: Option<Seq<char>>,
) -> Seq<usize> {
    (match id {
        Some(i) => bucket(e, (KeyKind::Id, lower(i))),
        None => Seq::empty(),
    }) + class_stream(e, classes) + bucket(e, (KeyKind::Tag, lower(tag))) + bucket(e, universal_key())
}

/// `s` with every repeat of an earlier element dropped.
pub open spec fn dedup(s: Seq<usize>) -> Seq<usize>
    decreases s.len(),
{
    if s.len() == 0 {
        Seq::empty()
    } else if s.drop_last().contains(s.last()) {
        dedup(s.drop_last())
    } else {
        dedup(s.drop_last()).push(s.last())
    }
}

/// A bucket of the index: its key and the rules filed under it.
#[derive(Debug)]
pub struct RuleBucket {
    pub kind: KeyKind,
    pub key: String,
    pub rules: Vec<usize>,
}

/// The rules filed under `k` in a list of buckets (none when no bucket
/// has that key).
pub open spec fn lookup(bs: Seq<RuleBucket>, k: IndexKey) -> Seq<usize>
    decreases bs.len(),
{
    if bs.len() == 0 {
        Seq::empty()
    } else if (bs.last().kind, bs.last().key@) == k {
        bs.last().rules@
    } else {
        lookup(bs.drop_last(), k)
    }
}

/// No two buckets share a key.
pub open spec fn keys_unique(bs: Seq<RuleBucket>) -> bool {
    forall|i: int, j: int|
        0 <= i < j < bs.len() ==> ((#[trigger] bs[i]).kind, bs[i].key@) != ((#[trigger] bs[j]).kind, bs[j].key@)
}

/// Style rules filed by their key selectors, so that an element is only
/// checked against the rules that can match it.
pub struct RuleIndex {
    buckets: Vec<RuleBucket>,
    rule_count: usize,
    filed: Ghost<Seq<(IndexKey, usize)>>,
}

proof fn lemma_lookup_absent(bs: Seq<RuleBucket>, k: IndexKey)
    requires
        forall|i: int| 0 <= i < bs.len() ==> ((#[trigger] bs[i]).kind, bs[i].key@) != k,
    ensures
        lookup(bs, k) == Seq::<usize>::empty(),
    decreases bs.len(),
{
    if bs.len() > 0 {
        lemma_lookup_absent(bs.drop_last(), k);
    }
}

proof fn lemma_lookup_at(bs: Seq<RuleBucket>, i: int)
    requires
        keys_unique(bs),
        0 <= i < bs.len(),
    ensures
        lookup(bs, (bs[i].kind, bs[i].key@)) == bs[i].rules@,
    decreases bs.len(),
{
    if i < bs.len() - 1 {
        assert(((bs[i]).kind, bs[i].key@) != ((bs[bs.len() - 1]).kind, bs[bs.len() - 1].key@));
        let t = bs.drop_last();
        assert(t[i] == bs[i]);
        assert(keys_unique(t)) by {
            assert forall|a: int, b: int| 0 <= a < b < t.len() implies ((#[trigger] t[a]).kind, t[a].key@)
                != ((#[trigger] t[b]).kind, t[b].key@) by {
                assert(t[a] == bs[a] && t[b] == bs[b]);
            }
        }
        lemma_lookup_at(t, i);
    }
}

proof fn lemma_lookup_update(bs: Seq<RuleBucket>, i: int, b: RuleBucket, k: IndexKey)
    requires
        keys_unique(bs),
        0 <= i < bs.len(),
        b.kind == bs[i].kind,
        b.key@ == bs[i].key@,
    ensures
        lookup(bs.update(i, b), k) == if k == (b.kind, b.key@) {
            b.rules@
        } else {
            lookup(bs, k)
        },
    decreases bs.len(),
{
    let u = bs.update(i, b);
    let last = bs.len() - 1;
    if i == last {
        assert(u.drop_last() =~= bs.drop_last());
    } else {
        assert(u.last() == bs.last());
        assert(u.drop_last() =~= bs.drop_last().update(i, b));
        let t = bs.drop_last();
        assert(t[i] == bs[i]);
        assert(keys_unique(t)) by {
            assert forall|a: int, c: int| 0 <= a < c < t.len() implies ((#[trigger] t[a]).kind, t[a].key@)
                != ((#[trigger] t[c]).kind, t[c].key@) by {
                assert(t[a] == bs[a] && t[c] == bs[c]);
            }
        }
        lemma_lookup_update(t, i, b, k);
        if k == (b.kind, b.key@) {
            assert(((bs[i]).kind, bs[i].key@) != ((bs[last]).kind, bs[last].key@));
        }
    }
}

proof fn lemma_bucket_bound(e: Seq<(IndexKey, usize)>, k: IndexKey, n: usize)
    requires
        forall|i: int| 0 <= i < e.len() ==> (#[trigger] e[i]).1 < n,
    ensures
        forall|j: int| 0 <= j < bucket(e, k).len() ==> #[trigger] bucket(e, k)[j] < n,
    decreases e.len(),
{
    if e.len() > 0 {
        let t = e.drop_last();
        assert forall|i: int| 0 <= i < t.len() implies (#[trigger] t[i]).1 < n by {
            assert(t[i] == e[i]);
        }
        lemma_bucket_bound(t, k, n);
        assert(e.last() == e[e.len() - 1]);
        let b = bucket(e, k);
        let a = bucket(t, k);
        assert forall|j: int| 0 <= j < b.len() implies #[trigger] b[j] < n by {
            if j < a.len() {
                assert(b[j] == a[j]);
            }
        }
    }
}

/// An element of `s` is kept by `dedup`, and `dedup` adds nothing.
proof fn lemma_dedup_contains(s: Seq<usize>, x: usize)
    ensures
        dedup(s).contains(x) == s.contains(x),
    decreases s.len(),
{
    if s.len() > 0 {
        let t = s.drop_last();
        lemma_dedup_contains(t, x);
        if s.contains(x) && !t.contains(x) {
            let w = choose|j: int| 0 <= j < s.len() && s[j] == x;
            if w < s.len() - 1 {
                assert(t[w] == x);
            }
        }
        if t.contains(x) {
            let w = choose|j: int| 0 <= j < t.len() && t[j] == x;
            assert(s[w] == x);
        }
        if !t.contains(s.last()) {
            assert(dedup(s) == dedup(t).push(s.last()));
            if dedup(s).contains(x) && x != s.last() {
                let w = choose|j: int| 0 <= j < dedup(s).len() && dedup(s)[j] == x;
                assert(dedup(t)[w] == x);
            }
            if x == s.last() {
                assert(dedup(s)[dedup(s).len() - 1] == x);
                assert(s[s.len() - 1] == x);
            }
            if dedup(t).contains(x) {
                let w = choose|j: int| 0 <= j < dedup(t).len() && dedup(t)[j] == x;
                assert(dedup(s)[w] == x);
            }
        } else if x == s.last() {
            assert(s[s.len() - 1] == x);
        }
    }
}

impl RuleIndex {
    /// What the index has filed, in order.
    pub closed spec fn entries(&self) -> Seq<(IndexKey, usize)> {
        self.filed@
    }

    /// How many rules were indexed; rules are named `0..count`.
    pub closed spec fn count(&self) -> nat {
        self.rule_count as nat
    }

    /// Every bucket holds exactly what was filed under its key; keys are
    /// unique and every filed rule is one of the indexed rules.
    pub closed spec fn wf(&self) -> bool {
        &&& keys_unique(self.buckets@)
        &&& forall|k: IndexKey| #[trigger] lookup(self.buckets@, k) == bucket(self.filed@, k)
        &&& forall|i: int| 0 <= i < self.filed@.len() ==> (#[trigger] self.filed@[i]).1 < self.rule_count
    }

    /// The position of the bucket with key `(kind, key)`.
    fn find_bucket(&self, kind: KeyKind, key: &str) -> (res: Option<usize>)
        ensures
            match res {
                Some(i) => i < self.buckets@.len() && self.buckets@[i as int].kind == kind
                    && self.buckets@[i as int].key@ == key@,
                None => forall|i: int|
                    0 <= i < self.buckets@.len() ==> ((#[trigger] self.buckets@[i]).kind, self.buckets@[i].key@)
                        != (kind, key@),
            },
    {
        let mut i: usize = 0;
        while i < self.buckets.len()
            invariant
                i <= self.buckets@.len(),
                forall|j: int|
                    0 <= j < i ==> ((#[trigger] self.buckets@[j]).kind, self.buckets@[j].key@) != (kind, key@),
            decreases self.buckets@.len() - i,
        {
            if self.buckets[i].kind == kind && str_eq(self.buckets[i].key.as_str(), key) {
                return Some(i);
            }
            i += 1;
        }
        None
    }

    /// File rule `r` under `(kind, key)`.
    fn file(&mut self, kind: KeyKind, key: String, r: usize)
        requires
            old(self).wf(),
            r < old(self).count(),
        ensures
            final(self).wf(),
            final(self).entries() == old(self).entries().push(((kind, key@), r)),
            final(self).count() == old(self).count(),
    {
        let ghost bs = self.buckets@;
        let ghost e = ((kind, key@), r);
        let ghost filed = self.filed@;
        match self.find_bucket(kind, key.as_str()) {
            Some(i) => {
                let mut rules: Vec<usize> = Vec::new();
                let mut j: usize = 0;
                while j < self.buckets[i].rules.len()
                    invariant
                        i < self.buckets@.len(),
                        j <= self.buckets@[i as int].rules@.len(),
                        rules@ == self.buckets@[i as int].rules@.take(j as int),
                    decreases self.buckets@[i as int].rules@.len() - j,
                {
                    rules.push(self.buckets[i].rules[j]);
                    j += 1;
                    assert(rules@ =~= self.buckets@[i as int].rules@.take(j as int));
                }
                assert(rules@ =~= bs[i as int].rules@);
                rules.push(r);
                let b = RuleBucket { kind, key, rules };
                proof {
                    lemma_lookup_at(bs, i as int);
                    assert forall|k: IndexKey| #[trigger] lookup(bs.update(i as int, b), k) == bucket(filed.push(e), k) by {
                        lemma_lookup_update(bs, i as int, b, k);
                        assert(filed.push(e).drop_last() =~= filed);
                    }
                    let u = bs.update(i as int, b);
                    assert forall|a: int, c: int| 0 <= a < c < u.len() implies ((#[trigger] u[a]).kind, u[a].key@)
                        != ((#[trigger] u[c]).kind, u[c].key@) by {
                        assert(bs[a] == bs[a] && bs[c] == bs[c]);
                        assert((u[a].kind, u[a].key@) == (bs[a].kind, bs[a].key@));
                        assert((u[c].kind, u[c].key@) == (bs[c].kind, bs[c].key@));
                    }
                }
                self.buckets.set(i, b);
            },
            None => {
                let mut rules: Vec<usize> = Vec::new();
                rules.push(r);
                let b = RuleBucket { kind, key, rules };
                proof {
                    lemma_lookup_absent(bs, (kind, key@));
                    let u = bs.push(b);
                    assert forall|k: IndexKey| #[trigger] lookup(u, k) == bucket(filed.push(e), k) by {
                        assert(u.drop_last() =~= bs);
                        assert(filed.push(e).drop_last() =~= filed);
                        assert(lookup(old(self).buckets@, k) == bucket(old(self).filed@, k));
                        if k == (kind, key@) {
                            assert(bucket(filed.push(e), k) =~= bucket(filed, k) + seq![r]);
                        } else {
                            assert(bucket(filed.push(e), k) =~= bucket(filed, k));
                        }
                    }
                    assert forall|a: int, c: int| 0 <= a < c < u.len() implies ((#[trigger] u[a]).kind, u[a].key@)
                        != ((#[trigger] u[c]).kind, u[c].key@) by {
                        assert(u[a] == bs[a]);
                        if c < bs.len() {
                            assert(u[c] == bs[c]);
                        }
                    }
                }
                self.buckets.push(b);
            },
        }
        self.filed = Ghost(filed.push(e));
        assert(self.buckets@.len() >= 0);
    }

    /// Index `rules` (named by position) by their key selectors.
    pub fn build(rules: &[StyleRule]) -> (res: RuleIndex)
        ensures
            res.wf(),
            res.count() == rules@.len(),
            res.entries() == index_entries(rules_view(rules@)),
    {
        let ghost rv = rules_view(rules@);
        let mut index = RuleIndex { buckets: Vec::new(), rule_count: rules.len(), filed: Ghost(Seq::empty()) };
        let mut r: usize = 0;
        assert(rv.take(0) =~= Seq::<RuleView>::empty());
        while r < rules.len()
            invariant
                index.wf(),
                index.count() == rules@.len(),
                r <= rules@.len(),
                rv == rules_view(rules@),
                index.entries() == index_entries(rv.take(r as int)),
            decreases rules@.len() - r,
        {
            let rule = &rules[r];
            let ghost sels = selectors_view(rule.selectors@);
            let ghost base = index_entries(rv.take(r as int));
            assert(rv[r as int] == rule@);
            assert(sels.take(0) =~= Seq::<SelectorView>::empty());
            assert(index.entries() =~= base + rule_entries(sels.take(0), r));
            let mut s: usize = 0;
            while s < rule.selectors.len()
                invariant
                    index.wf(),
                    index.count() == rules@.len(),
                    r < rules@.len(),
                    s <= sels.len(),
                    sels == selectors_view(rule.selectors@),
                    index.entries() == base + rule_entries(sels.take(s as int), r),
                decreases sels.len() - s,
            {
                let sel = &rule.selectors[s];
                let ghost before = index.entries();
                assert(sels[s as int] == sel@);
                assert(sels.take(s as int + 1).drop_last() =~= sels.take(s as int));
                let mut indexed = false;
                if sel.steps.len() > 0 {
                    let last = sel.steps.len() - 1;
                    let compound = &sel.steps[last].compound;
                    let ghost c = sels_view(compound@);
                    assert(steps_view(sel.steps@).last() == sel.steps@[last as int]@);
                    assert(selector_keys(sel@) == compound_keys(c));
                    let mut j: usize = 0;
                    assert(c.take(0) =~= Seq::<SimpleSel>::empty());
                    assert(before =~= before + compound_keys(c.take(0)).map_values(|k: IndexKey| (k, r)));
                    while j < compound.len()
                        invariant
                            index.wf(),
                            index.count() == rules@.len(),
                            r < rules@.len(),
                            j <= c.len(),
                            c == sels_view(compound@),
                            index.entries() == before + compound_keys(c.take(j as int)).map_values(
                                |k: IndexKey| (k, r),
                            ),
                            indexed == (compound_keys(c.take(j as int)).len() > 0),
                        decreases c.len() - j,
                    {
                        let ghost prev = compound_keys(c.take(j as int));
                        assert(c.take(j as int + 1).drop_last() =~= c.take(j as int));
                        assert(c[j as int] == compound@[j as int]@);
                        match &compound[j] {
                            SimpleSelector::Id(v) => {
                                self::RuleIndex::file_key(&mut index, KeyKind::Id, v.as_str(), r);
                                indexed = true;
                            },
                            SimpleSelector::Class(v) => {
                                self::RuleIndex::file_key(&mut index, KeyKind::Class, v.as_str(), r);
                                indexed = true;
                            },
                            SimpleSelector::Tag(v) => {
                                self::RuleIndex::file_key(&mut index, KeyKind::Tag, v.as_str(), r);
                                indexed = true;
                            },
                            _ => {},
                        }
                        j += 1;
                        assert(index.entries() =~= before + compound_keys(c.take(j as int)).map_values(
                            |k: IndexKey| (k, r),
                        ));
                    }
                    assert(c.take(j as int) =~= c);
                } else {
                    assert(selector_keys(sel@) =~= Seq::<IndexKey>::empty());
                    assert(index.entries() =~= before);
                }
                if !indexed {
                    let empty_key = String::new();
                    index.file(KeyKind::Universal, empty_key, r);
                    assert(index.entries() =~= before + selector_entries(sel@, r));
                } else {
                    assert(index.entries() =~= before + selector_entries(sel@, r));
                }
                s += 1;
                assert(index.entries() =~= base + rule_entries(sels.take(s as int), r));
            }
            assert(sels.take(s as int) =~= sels);
            assert(rv.take(r as int + 1).drop_last() =~= rv.take(r as int));
            r += 1;
        }
        assert(rv.take(r as int) =~= rv);
        index
    }

    /// File rule `r` under `kind` and `value` in ASCII lowercase.
    fn file_key(index: &mut RuleIndex, kind: KeyKind, value: &str, r: usize)
        requires
            old(index).wf(),
            r < old(index).count(),
        ensures
            final(index).wf(),
            final(index).entries() == old(index).entries().push(((kind, lower(value@)), r)),
            final(index).count() == old(index).count(),
    {
        let key = to_ascii_lowercase(value);
        index.file(kind, key, r);
    }

    /// Append the rules filed under `(kind, key)` to `out`.
    fn append_bucket(&self, out: &mut Vec<usize>, kind: KeyKind, key: &str)
        requires
            self.wf(),
        ensures
            final(out)@ == old(out)@ + bucket(self.entries(), (kind, key@)),
    {
        match self.find_bucket(kind, key) {
            Some(i) => {
                proof {
                    lemma_lookup_at(self.buckets@, i as int);
                    assert(lookup(self.buckets@, (kind, key@)) == bucket(self.filed@, (kind, key@)));
                }
                let ghost start = out@;
                let mut j: usize = 0;
                while j < self.buckets[i].rules.len()
                    invariant
                        i < self.buckets@.len(),
                        j <= self.buckets@[i as int].rules@.len(),
                        out@ == start + self.buckets@[i as int].rules@.take(j as int),
                    decreases self.buckets@[i as int].rules@.len() - j,
                {
                    out.push(self.buckets[i].rules[j]);
                    j += 1;
                    assert(out@ =~= start + self.buckets@[i as int].rules@.take(j as int));
                }
                assert(self.buckets@[i as int].rules@.take(j as int) =~= self.buckets@[i as int].rules@);
            },
            None => {
                proof {
                    lemma_lookup_absent(self.buckets@, (kind, key@));
                    assert(lookup(self.buckets@, (kind, key@)) == bucket(self.filed@, (kind, key@)));
                }
                assert(out@ =~= out@ + bucket(self.entries(), (kind, key@)));
            },
        }
    }

    /// The rules an element with this tag, these classes and this id may
    /// match: its id's bucket, its classes' buckets, its tag's bucket and
    /// the universal bucket, each rule once, first place kept.
    pub fn candidates(&self, tag: &str, classes: &[&str], id: Option<&str>) -> (res: Vec<usize>)
        requires
            self.wf(),
        ensures
            res@ == dedup(
                candidate_stream(
                    self.entries(),
                    tag@,
                    classes@.map_values(|c: &str| c@),
                    match id {
                        Some(i) => Some(i@),
                        None => None,
                    },
                ),
            ),
            forall|j: int| 0 <= j < res@.len() ==> #[trigger] res@[j] < self.count(),
    {
        let ghost e = self.entries();
        let ghost cv = classes@.map_values(|c: &str| c@);
        let mut stream: Vec<usize> = Vec::new();
        match id {
            Some(i) => {
                let k = to_ascii_lowercase(i);
                self.append_bucket(&mut stream, KeyKind::Id, k.as_str());
            },
            None => {},
        }
        let ghost head = stream@;
        let mut c: usize = 0;
        assert(cv.take(0) =~= Seq::<Seq<char>>::empty());
        assert(stream@ =~= head + class_stream(e, cv.take(0)));
        while c < classes.len()
            invariant
                self.wf(),
                e == self.entries(),
                c <= classes@.len(),
                cv == classes@.map_values(|c: &str| c@),
                stream@ == head + class_stream(e, cv.take(c as int)),
            decreases classes@.len() - c,
        {
            let k = to_ascii_lowercase(classes[c]);
            self.append_bucket(&mut stream, KeyKind::Class, k.as_str());
            assert(cv.take(c as int + 1).drop_last() =~= cv.take(c as int));
            assert(cv[c as int] == classes@[c as int]@);
            c += 1;
            assert(stream@ =~= head + class_stream(e, cv.take(c as int)));
        }
        assert(cv.take(c as int) =~= cv);
        let t = to_ascii_lowercase(tag);
        self.append_bucket(&mut stream, KeyKind::Tag, t.as_str());
        let u = String::new();
        self.append_bucket(&mut stream, KeyKind::Universal, u.as_str());
        let ghost id_part = match id {
            Some(i) => bucket(e, (KeyKind::Id, lower(i@))),
            None => Seq::<usize>::empty(),
        };
        assert(stream@ =~= candidate_stream(e, tag@, cv, match id {
            Some(i) => Some(i@),
            None => None,
        }));
        proof {
            lemma_stream_bound(e, tag@, cv, match id {
                Some(i) => Some(i@),
                None => None,
            }, self.rule_count);
        }
        dedup_exec(&stream, self.rule_count)
    }
}

proof fn lemma_class_stream_bound(e: Seq<(IndexKey, usize)>, classes: Seq<Seq<char>>, n: usize)
    requires
        forall|i: int| 0 <= i < e.len() ==> (#[trigger] e[i]).1 < n,
    ensures
        forall|j: int| 0 <= j < class_stream(e, classes).len() ==> #[trigger] class_stream(e, classes)[j] < n,
    decreases classes.len(),
{
    if classes.len() > 0 {
        lemma_class_stream_bound(e, classes.drop_last(), n);
        lemma_bucket_bound(e, (KeyKind::Class, lower(classes.last())), n);
        let a = class_stream(e, classes.drop_last());
        let b = bucket(e, (KeyKind::Class, lower(classes.last())));
        let all = class_stream(e, classes);
        assert forall|j: int| 0 <= j < all.len() implies #[trigger] all[j] < n by {
            if j < a.len() {
                assert(all[j] == a[j]);
            } else {
                assert(all[j] == b[j - a.len()]);
            }
        }
    }
}

proof fn lemma_stream_bound(
    e: Seq<(IndexKey, usize)>,
    tag: Seq<char>,
    classes: Seq<Seq<char>>,
    id: Option<Seq<char>>,
    n: usize,
)
    requires
        forall|i: int| 0 <= i < e.len() ==> (#[trigger] e[i]).1 < n,
    ensures
        forall|j: int|
            0 <= j < candidate_stream(e, tag, classes, id).len() ==> #[trigger] candidate_stream(e, tag, classes, id)[j]
                < n,
{
    lemma_class_stream_bound(e, classes, n);
    lemma_bucket_bound(e, (KeyKind::Tag, lower(tag)), n);
    lemma_bucket_bound(e, universal_key(), n);
    if let Some(i) = id {
        lemma_bucket_bound(e, (KeyKind::Id, lower(i)), n);
    }
}

/// `s` without repeats (see `dedup`); every element is below `n`.
fn dedup_exec(s: &Vec<usize>, n: usize) -> (res: Vec<usize>)
    requires
        forall|j: int| 0 <= j < s@.len() ==> #[trigger] s@[j] < n,
    ensures
        res@ == dedup(s@),
        forall|j: int| 0 <= j < res@.len() ==> #[trigger] res@[j] < n,
{
    let mut seen: Vec<bool> = Vec::new();
    let mut k: usize = 0;
    while k < n
        invariant
            k <= n,
            seen@.len() == k,
            forall|j: int| 0 <= j < k ==> !(#[trigger] seen@[j]),
        decreases n - k,
    {
        seen.push(false);
        k += 1;
    }
    let mut out: Vec<usize> = Vec::new();
    let mut i: usize = 0;
    assert(s@.take(0) =~= Seq::<usize>::empty());
    while i < s.len()
        invariant
            i <= s@.len(),
            seen@.len() == n,
            forall|j: int| 0 <= j < s@.len() ==> #[trigger] s@[j] < n,
            out@ == dedup(s@.take(i as int)),
            forall|x: int| 0 <= x < n ==> #[trigger] seen@[x] == s@.take(i as int).contains(x as usize),
            forall|j: int| 0 <= j < out@.len() ==> #[trigger] out@[j] < n,
        decreases s@.len() - i,
    {
        let x = s[i];
        let ghost pre = s@.take(i as int);
        let ghost next = s@.take(i as int + 1);
        assert(next.drop_last() =~= pre);
        assert(next.last() == x);
        if !seen[x] {
            out.push(x);
            seen.set(x, true);
        }
        proof {
            assert forall|y: int| 0 <= y < n implies #[trigger] seen@[y] == next.contains(y as usize) by {
                if pre.contains(y as usize) {
                    let w = choose|j: int| 0 <= j < pre.len() && pre[j] == y as usize;
                    assert(next[w] == y as usize);
                }
                if next.contains(y as usize) && y as usize != x {
                    let w = choose|j: int| 0 <= j < next.len() && next[j] == y as usize;
                    assert(w < pre.len());
                    assert(pre[w] == y as usize);
                }
                if y as usize == x {
                    assert(next[i as int] == x);
                }
            }
        }
        i += 1;
    }
    assert(s@.take(i as int) =~= s@);
    out
}

// ─── The index misses no matching rule ───────────────────────────

proof fn lemma_entry_in_bucket(e: Seq<(IndexKey, usize)>, i: int)
    requires
        0 <= i < e.len(),
    ensures
        bucket(e, e[i].0).contains(e[i].1),
    decreases e.len(),
{
    let k = e[i].0;
    if i == e.len() - 1 {
        let b = bucket(e, k);
        assert(b[b.len() - 1] == e[i].1);
    } else {
        let t = e.drop_last();
        assert(t[i] == e[i]);
        lemma_entry_in_bucket(t, i);
        let bt = bucket(t, k);
        let w = choose|j: int| 0 <= j < bt.len() && bt[j] == e[i].1;
        assert(bucket(e, k)[w] == e[i].1);
    }
}

proof fn lemma_rule_entries_contain(sels: Seq<SelectorView>, s: int, r: usize, m: int)
    requires
        0 <= s < sels.len(),
        0 <= m < selector_entries(sels[s], r).len(),
    ensures
        rule_entries(sels, r).contains(selector_entries(sels[s], r)[m]),
    decreases sels.len(),
{
    let x = selector_entries(sels[s], r)[m];
    let t = sels.drop_last();
    if s == sels.len() - 1 {
        let a = rule_entries(t, r);
        assert(rule_entries(sels, r)[a.len() + m] == x);
    } else {
        assert(t[s] == sels[s]);
        lemma_rule_entries_contain(t, s, r, m);
        let rt = rule_entries(t, r);
        let w = choose|j: int| 0 <= j < rt.len() && rt[j] == x;
        assert(rule_entries(sels, r)[w] == x);
    }
}

proof fn lemma_index_entries_contain(rules: Seq<RuleView>, r: int, x: (IndexKey, usize))
    requires
        0 <= r < rules.len(),
        rule_entries(rules[r].0, r as usize).contains(x),
    ensures
        index_entries(rules).contains(x),
    decreases rules.len(),
{
    let t = rules.drop_last();
    if r == rules.len() - 1 {
        let re = rule_entries(rules[r].0, r as usize);
        let w = choose|j: int| 0 <= j < re.len() && re[j] == x;
        assert(index_entries(rules)[index_entries(t).len() + w] == x);
    } else {
        assert(t[r] == rules[r]);
        lemma_index_entries_contain(t, r, x);
        let it = index_entries(t);
        let w = choose|j: int| 0 <= j < it.len() && it[j] == x;
        assert(index_entries(rules)[w] == x);
    }
}

proof fn lemma_keyed_simple_in_keys(c: Seq<SimpleSel>, j: int)
    requires
        0 <= j < c.len(),
        simple_key(c[j]) is Some,
    ensures
        compound_keys(c).contains(simple_key(c[j]).unwrap()),
    decreases c.len(),
{
    let t = c.drop_last();
    let k = simple_key(c[j]).unwrap();
    if j == c.len() - 1 {
        assert(compound_keys(c)[compound_keys(t).len() as int] == k);
    } else {
        assert(t[j] == c[j]);
        lemma_keyed_simple_in_keys(t, j);
        let kt = compound_keys(t);
        let w = choose|i: int| 0 <= i < kt.len() && kt[i] == k;
        assert(compound_keys(c)[w] == k);
    }
}

proof fn lemma_keys_come_from_simples(c: Seq<SimpleSel>)
    requires
        compound_keys(c).len() > 0,
    ensures
        exists|j: int| 0 <= j < c.len() && simple_key(#[trigger] c[j]) is Some,
    decreases c.len(),
{
    let t = c.drop_last();
    if simple_key(c.last()) is Some {
        assert(simple_key(c[c.len() - 1]) is Some);
    } else {
        assert(compound_keys(c) =~= compound_keys(t));
        lemma_keys_come_from_simples(t);
        let j = choose|j: int| 0 <= j < t.len() && simple_key(#[trigger] t[j]) is Some;
        assert(c[j] == t[j]);
    }
}

proof fn lemma_class_in_stream(e: Seq<(IndexKey, usize)>, classes: Seq<Seq<char>>, c: Seq<char>, r: usize)
    requires
        classes.contains(c),
        bucket(e, (KeyKind::Class, lower(c))).contains(r),
    ensures
        class_stream(e, classes).contains(r),
    decreases classes.len(),
{
    let t = classes.drop_last();
    let a = class_stream(e, t);
    if classes.last() == c {
        let b = bucket(e, (KeyKind::Class, lower(c)));
        let w = choose|j: int| 0 <= j < b.len() && b[j] == r;
        assert(class_stream(e, classes)[a.len() + w] == r);
    } else {
        let i = choose|i: int| 0 <= i < classes.len() && classes[i] == c;
        assert(i < classes.len() - 1);
        assert(t[i] == c);
        lemma_class_in_stream(e, t, c, r);
        let w = choose|j: int| 0 <= j < a.len() && a[j] == r;
        assert(class_stream(e, classes)[w] == r);
    }
}

proof fn lemma_lower_twice(s: Seq<char>)
    ensures
        lower(lower(s)) == lower(s),
{
    assert(lower(lower(s)) =~= lower(s));
}

/// The words of an element's `class` are all listed in `classes`.
pub open spec fn class_words_listed(n: Seq<Node>, x: int, src: Seq<u8>, classes: Seq<Seq<char>>) -> bool {
    match attr_lookup(src, n[x].attributes@, "class"@) {
        Some(v) => forall|c: Seq<char>| #[trigger] has_word(v, c) ==> classes.contains(c),
        None => true,
    }
}

/// The index misses no rule that can match: when a selector of rule `r`
/// matches element `x`, rule `r` is among the candidates that the index
/// of `rules` gives for `x`'s tag, its `id`, and any list of classes that
/// holds every word of its `class`.
pub proof fn lemma_matching_rule_is_candidate(
    rules: Seq<RuleView>,
    r: int,
    s: int,
    n: Seq<Node>,
    x: int,
    src: Seq<u8>,
    classes: Seq<Seq<char>>,
)
    requires
        0 <= r < rules.len(),
        rules.len() <= usize::MAX,
        0 <= s < rules[r].0.len(),
        spec_selector_matches(rules[r].0[s], n, x, src),
        0 <= x < n.len(),
        class_words_listed(n, x, src, classes),
    ensures
        dedup(
            candidate_stream(
                index_entries(rules),
                node_tag(n[x], src),
                classes,
                attr_lookup(src, n[x].attributes@, "id"@),
            ),
        ).contains(r as usize),
{
    let sel = rules[r].0[s];
    let e = index_entries(rules);
    let ru = r as usize;
    let tag = node_tag(n[x], src);
    let id = attr_lookup(src, n[x].attributes@, "id"@);
    let ents = selector_entries(sel, ru);
    let ks = selector_keys(sel);
    let id_part = match id {
        Some(i) => bucket(e, (KeyKind::Id, lower(i))),
        None => Seq::<usize>::empty(),
    };
    let cs = class_stream(e, classes);
    let tag_part = bucket(e, (KeyKind::Tag, lower(tag)));
    let uni = bucket(e, universal_key());
    let stream = candidate_stream(e, tag, classes, id);
    assert(stream == id_part + cs + tag_part + uni);
    if ks.len() == 0 {
        // Filed under the universal key, which comes last in the stream.
        assert(ents[0] == (universal_key(), ru));
        lemma_rule_entries_contain(rules[r].0, s, ru, 0);
        lemma_index_entries_contain(rules, r, (universal_key(), ru));
        let i = choose|i: int| 0 <= i < e.len() && e[i] == (universal_key(), ru);
        lemma_entry_in_bucket(e, i);
        let w = choose|j: int| 0 <= j < uni.len() && uni[j] == ru;
        assert(stream[id_part.len() + cs.len() + tag_part.len() + w] == ru);
    } else {
        let c = sel.0.last().1;
        lemma_keys_come_from_simples(c);
        let j = choose|j: int| 0 <= j < c.len() && simple_key(#[trigger] c[j]) is Some;
        let k = simple_key(c[j]).unwrap();
        // Filed under the key of a simple selector that matched at `x`.
        assert(step_matches(n, sel.0, sel.0.len() - 1, x, src));
        assert(sel.0[sel.0.len() - 1] == sel.0.last());
        assert(compound_matches_spec(n, x, c, src));
        assert(simple_matches(n, x, c[j], src));
        // The rule is filed under `k`.
        lemma_keyed_simple_in_keys(c, j);
        let m = choose|m: int| 0 <= m < ks.len() && ks[m] == k;
        assert(ents[m] == (k, ru));
        lemma_rule_entries_contain(rules[r].0, s, ru, m);
        lemma_index_entries_contain(rules, r, (k, ru));
        let i = choose|i: int| 0 <= i < e.len() && e[i] == (k, ru);
        lemma_entry_in_bucket(e, i);
        let b = bucket(e, k);
        let w = choose|q: int| 0 <= q < b.len() && b[q] == ru;
        match c[j] {
            SimpleSel::Id(v) => {
                assert(id == Some(v));
                assert(stream[w] == ru);
            },
            SimpleSel::Class(v) => {
                assert(has_word(attr_lookup(src, n[x].attributes@, "class"@).unwrap(), v));
                assert(classes.contains(v));
                lemma_class_in_stream(e, classes, v, ru);
                let q = choose|q: int| 0 <= q < cs.len() && cs[q] == ru;
                assert(stream[id_part.len() + q] == ru);
            },
            SimpleSel::Tag(v) => {
                lemma_lower_twice(tag);
                assert(k == (KeyKind::Tag, lower(tag)));
                assert(stream[id_part.len() + cs.len() + w] == ru);
            },
            _ => {},
        }
    }
    lemma_dedup_contains(stream, ru);
}

} // verus!
