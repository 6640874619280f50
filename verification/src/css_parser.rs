//! The CSS parser: turns the tokenizer's output into a stylesheet, a list
//! of style rules (selectors plus declarations) and `@media` blocks.
//!
//! Supported selectors: tags, classes, ids, `*`, pseudo-classes, compound
//! selectors, and the descendant, child (`>`), next-sibling (`+`) and
//! subsequent-sibling (`~`) combinators. Other at-rules are skipped.
//!
//! Every parsing step is described by a spec function over the token
//! sequence, the source bytes and a token position; `None` there means the
//! step cannot complete (a token's range lies outside the source, an id
//! selector whose text cannot drop its `#`, or a rule that never advances
//! the parser). The executable parser follows those functions exactly.
#![verifier::loop_isolation(false)]

use vstd::prelude::*;

use crate::css_tokenizer::{spec_tokenize, CssTokenizer};
use crate::css_tokens::{CssToken, CssTokenKind};
use crate::text::{
    chars_of, contains, contains_exec, decode_or_empty, extend_str, find, find_char, find_first,
    index_of, lead_ws_exec, lower, lower_chars, owned, slice_chars, str_eq, str_eq_ignore_case,
    eq_ignore_case, string_from_chars, to_ascii_lowercase, trim, trim_chars, trim_start,
    utf8_to_str,
};

verus! {

broadcast use vstd::seq_lib::group_seq_properties;

// ─── Data ────────────────────────────────────────────────────────

/// How a step of a selector relates to the step before it.
#[derive(Debug, Clone, Copy, PartialEq, Eq, Structural)]
pub enum Combinator {
    /// Whitespace: a descendant.
    Descendant,
    /// `>`: a child.
    Child,
    /// `+`: the next element sibling.
    NextSibling,
    /// `~`: any later element sibling.
    SubsequentSibling,
}

/// A declaration: a property and its value, e.g. `color: red`.
#[derive(Debug, Clone, PartialEq)]
pub struct Declaration {
    pub property: String,
    pub value: String,
}

/// A simple selector, the unit of selector matching.
#[derive(Debug, Clone, PartialEq)]
pub enum SimpleSelector {
    /// An element by tag name (lowercase), e.g. `div`.
    Tag(String),
    /// An element by class, e.g. `.main`.
    Class(String),
    /// An element by id, e.g. `#container`.
    Id(String),
    /// Any element: `*`.
    Universal,
    /// A state or structural position (lowercase), e.g. `:first-child`.
    PseudoClass(String),
}

/// What a simple selector holds, as characters.
pub enum SimpleSel {
    Tag(Seq<char>),
    Class(Seq<char>),
    Id(Seq<char>),
    Universal,
    PseudoClass(Seq<char>),
}

impl View for SimpleSelector {
    type V = SimpleSel;

    open spec fn view(&self) -> SimpleSel {
        match self {
            SimpleSelector::Tag(s) => SimpleSel::Tag(s@),
            SimpleSelector::Class(s) => SimpleSel::Class(s@),
            SimpleSelector::Id(s) => SimpleSel::Id(s@),
            SimpleSelector::Universal => SimpleSel::Universal,
            SimpleSelector::PseudoClass(s) => SimpleSel::PseudoClass(s@),
        }
    }
}

/// One step of a selector as characters: combinator and compound.
pub type StepView = (Combinator, Seq<SimpleSel>);

/// A selector as characters: its steps and its parts.
pub type SelectorView = (Seq<StepView>, Seq<Seq<SimpleSel>>);

/// A declaration as characters: property and value.
pub type DeclView = (Seq<char>, Seq<char>);

/// A style rule as characters: selectors, declarations and position.
pub type RuleView = (Seq<SelectorView>, Seq<DeclView>, nat);

/// A media block as characters: its bounds' text and its rules.
pub type MediaView = (Option<Seq<char>>, Option<Seq<char>>, Seq<RuleView>);

/// The views of a list of simple selectors.
pub open spec fn sels_view(v: Seq<SimpleSelector>) -> Seq<SimpleSel> {
    v.map_values(|x: SimpleSelector| x@)
}

/// One step of a selector: how it relates to the previous step, and the
/// compound selector the element must match.
#[derive(Debug, Clone, PartialEq)]
pub struct SelectorStep {
    pub combinator: Combinator,
    pub compound: Vec<SimpleSelector>,
}

impl View for SelectorStep {
    type V = StepView;

    open spec fn view(&self) -> StepView {
        (self.combinator, sels_view(self.compound@))
    }
}

/// A selector: its steps, and the compound selector of each step.
#[derive(Debug, Clone, PartialEq)]
pub struct Selector {
    pub steps: Vec<SelectorStep>,
    pub parts: Vec<Vec<SimpleSelector>>,
}

/// The views of the steps of a selector.
pub open spec fn steps_view(v: Seq<SelectorStep>) -> Seq<StepView> {
    v.map_values(|x: SelectorStep| x@)
}

/// The compound selectors of a list of steps.
pub open spec fn compounds_of(steps: Seq<StepView>) -> Seq<Seq<SimpleSel>> {
    steps.map_values(|x: StepView| x.1)
}

/// The views of a selector's parts.
pub open spec fn parts_view(v: Seq<Vec<SimpleSelector>>) -> Seq<Seq<SimpleSel>> {
    v.map_values(|p: Vec<SimpleSelector>| sels_view(p@))
}

impl View for Selector {
    type V = SelectorView;

    open spec fn view(&self) -> SelectorView {
        (steps_view(self.steps@), parts_view(self.parts@))
    }
}

/// The selector a list of steps makes: the steps, and their compounds as
/// its parts.
pub open spec fn selector_of(steps: Seq<StepView>) -> (
    Seq<StepView>,
    Seq<Seq<SimpleSel>>,
) {
    (steps, compounds_of(steps))
}

/// A copy of a simple selector.
fn copy_simple(x: &SimpleSelector) -> (res: SimpleSelector)
    ensures
        res@ == x@,
{
    match x {
        SimpleSelector::Tag(s) => SimpleSelector::Tag(owned(s.as_str())),
        SimpleSelector::Class(s) => SimpleSelector::Class(owned(s.as_str())),
        SimpleSelector::Id(s) => SimpleSelector::Id(owned(s.as_str())),
        SimpleSelector::Universal => SimpleSelector::Universal,
        SimpleSelector::PseudoClass(s) => SimpleSelector::PseudoClass(owned(s.as_str())),
    }
}

/// A copy of a compound selector.
pub(crate) fn copy_compound(v: &Vec<SimpleSelector>) -> (res: Vec<SimpleSelector>)
    ensures
        sels_view(res@) == sels_view(v@),
{
    let mut out: Vec<SimpleSelector> = Vec::new();
    let mut i: usize = 0;
    while i < v.len()
        invariant
            i <= v@.len(),
            sels_view(out@) == sels_view(v@.take(i as int)),
        decreases v@.len() - i,
    {
        let ghost prev = out@;
        let x = copy_simple(&v[i]);
        out.push(x);
        proof {
            let a = sels_view(out@);
            let b = sels_view(v@.take(i as int + 1));
            assert forall|j: int| 0 <= j < a.len() implies a[j] == b[j] by {
                if j < i {
                    assert(sels_view(prev)[j] == sels_view(v@.take(i as int))[j]);
                    assert(out@[j] == prev[j]);
                    assert(v@.take(i as int)[j] == v@[j]);
                }
            }
            assert(a =~= b);
        }
        i += 1;
        assert(sels_view(out@) =~= sels_view(v@.take(i as int)));
    }
    assert(v@.take(v@.len() as int) =~= v@);
    out
}

impl Selector {
    /// The selector made of `steps`; its parts are the steps' compounds.
    pub fn from_steps(steps: Vec<SelectorStep>) -> (res: Self)
        ensures
            res@ == selector_of(steps_view(steps@)),
    {
        let mut parts: Vec<Vec<SimpleSelector>> = Vec::new();
        let mut i: usize = 0;
        while i < steps.len()
            invariant
                i <= steps@.len(),
                parts_view(parts@) == compounds_of(steps_view(steps@.take(i as int))),
            decreases steps@.len() - i,
        {
            let ghost prev = parts@;
            let c = copy_compound(&steps[i].compound);
            parts.push(c);
            proof {
                let a = parts_view(parts@);
                let b = compounds_of(steps_view(steps@.take(i as int + 1)));
                assert forall|j: int| 0 <= j < a.len() implies a[j] == b[j] by {
                    if j < i {
                        assert(parts_view(prev)[j] == compounds_of(steps_view(steps@.take(i as int)))[j]);
                        assert(parts@[j] == prev[j]);
                        assert(steps@.take(i as int)[j] == steps@[j]);
                    }
                }
                assert(a =~= b);
            }
            i += 1;
        }
        assert(steps@.take(steps@.len() as int) =~= steps@);
        Selector { steps, parts }
    }
}

/// The views of a list of selectors.
pub open spec fn selectors_view(v: Seq<Selector>) -> Seq<SelectorView> {
    v.map_values(|x: Selector| x@)
}

/// The views of a list of declarations.
pub open spec fn decls_view(v: Seq<Declaration>) -> Seq<DeclView> {
    v.map_values(|d: Declaration| d@)
}

/// A style rule: selectors sharing a declaration block, and the rule's
/// position in the order the parser met rules.
#[derive(Debug, Clone)]
pub struct StyleRule {
    pub selectors: Vec<Selector>,
    pub declarations: Vec<Declaration>,
    pub position: usize,
}

impl View for Declaration {
    type V = DeclView;

    open spec fn view(&self) -> DeclView {
        (self.property@, self.value@)
    }
}

impl View for StyleRule {
    type V = RuleView;

    open spec fn view(&self) -> RuleView {
        (
            selectors_view(self.selectors@),
            decls_view(self.declarations@),
            self.position as nat,
        )
    }
}

/// A `@media` block: the decimal text of its `min-width` and `max-width`
/// bounds (in the form `f32` parsing accepts), and its rules.
#[derive(Debug, Clone)]
pub struct MediaRule {
    pub min_width: Option<String>,
    pub max_width: Option<String>,
    pub rules: Vec<StyleRule>,
}

/// The view of an optional string.
pub open spec fn opt_view(o: Option<String>) -> Option<Seq<char>> {
    match o {
        Some(x) => Some(x@),
        None => None,
    }
}

/// The views of a list of rules.
pub open spec fn rules_view(v: Seq<StyleRule>) -> Seq<RuleView> {
    v.map_values(|r: StyleRule| r@)
}

impl View for MediaRule {
    type V = MediaView;

    open spec fn view(&self) -> MediaView {
        (opt_view(self.min_width), opt_view(self.max_width), rules_view(self.rules@))
    }
}

/// The views of a list of media blocks.
pub open spec fn medias_view(v: Seq<MediaRule>) -> Seq<MediaView> {
    v.map_values(|m: MediaRule| m@)
}

/// A stylesheet: its top-level style rules and its `@media` blocks.
#[derive(Debug, Clone)]
pub struct Stylesheet {
    pub rules: Vec<StyleRule>,
    pub media_rules: Vec<MediaRule>,
}

impl View for Stylesheet {
    type V = (Seq<RuleView>, Seq<MediaView>);

    open spec fn view(&self) -> (Seq<RuleView>, Seq<MediaView>) {
        (rules_view(self.rules@), medias_view(self.media_rules@))
    }
}

// ─── The token stream, as the specification sees it ──────────────

/// The kind of the token at `p`; `Eof` past the end.
pub open spec fn kind_at(t: Seq<CssToken>, p: int) -> CssTokenKind {
    if 0 <= p < t.len() {
        t[p].kind
    } else {
        CssTokenKind::Eof
    }
}

/// Whether the parser at `p` has run out of tokens (or reached `Eof`).
pub open spec fn ended(t: Seq<CssToken>, p: int) -> bool {
    !(0 <= p < t.len()) || t[p].kind == CssTokenKind::Eof
}

/// The position after advancing from `p`, which stops at the end.
pub open spec fn adv(t: Seq<CssToken>, p: int) -> int {
    if p < t.len() {
        p + 1
    } else {
        p
    }
}

/// The token at `p` exists and its range lies within the source.
pub open spec fn slice_ok(t: Seq<CssToken>, s: Seq<u8>, p: int) -> bool {
    &&& 0 <= p < t.len()
    &&& t[p].start <= t[p].end
    &&& t[p].end <= s.len()
}

/// The text of the token at `p` (empty when it is not valid UTF-8).
pub open spec fn text_at(t: Seq<CssToken>, s: Seq<u8>, p: int) -> Seq<char> {
    decode_or_empty(s.subrange(t[p].start as int, t[p].end as int))
}

/// The first position at or after `p` that is not a whitespace token.
pub open spec fn skip_ws(t: Seq<CssToken>, p: int) -> int
    decreases t.len() - p,
{
    if 0 <= p < t.len() && t[p].kind == CssTokenKind::Whitespace {
        skip_ws(t, p + 1)
    } else {
        p
    }
}

pub proof fn lemma_skip_ws(t: Seq<CssToken>, p: int)
    requires
        0 <= p,
    ensures
        p <= skip_ws(t, p),
        p <= t.len() ==> skip_ws(t, p) <= t.len(),
        kind_at(t, skip_ws(t, p)) != CssTokenKind::Whitespace,
        ended(t, skip_ws(t, p)) == ended(t, p) || !ended(t, p),
    decreases t.len() - p,
{
    if 0 <= p < t.len() && t[p].kind == CssTokenKind::Whitespace {
        lemma_skip_ws(t, p + 1);
    }
}

/// Put `x` in front of the selectors a step produced.
pub open spec fn prepend(x: SimpleSel, r: Option<(Seq<SimpleSel>, int)>) -> Option<(Seq<SimpleSel>, int)> {
    match r {
        Some((v, q)) => Some((seq![x] + v, q)),
        None => None,
    }
}

/// The text of a hash token can lose its leading `#`: it is not empty and
/// starts with a one-byte character.
pub open spec fn hash_ok(x: Seq<char>) -> bool {
    x.len() >= 1 && (x[0] as u32) < 128
}

/// The simple selectors of the compound selector at `p`, and the position
/// after it.
pub open spec fn compound_at(t: Seq<CssToken>, s: Seq<u8>, p: int) -> Option<(Seq<SimpleSel>, int)>
    decreases t.len() - p,
{
    if !(0 <= p < t.len()) {
        Some((Seq::empty(), p))
    } else {
        match t[p].kind {
            CssTokenKind::Ident => if slice_ok(t, s, p) {
                prepend(SimpleSel::Tag(lower(text_at(t, s, p))), compound_at(t, s, p + 1))
            } else {
                None
            },
            CssTokenKind::Dot => if kind_at(t, p + 1) == CssTokenKind::Ident {
                if slice_ok(t, s, p + 1) {
                    prepend(SimpleSel::Class(text_at(t, s, p + 1)), compound_at(t, s, p + 2))
                } else {
                    None
                }
            } else {
                compound_at(t, s, p + 1)
            },
            CssTokenKind::Hash => if slice_ok(t, s, p) && hash_ok(text_at(t, s, p)) {
                prepend(SimpleSel::Id(text_at(t, s, p).drop_first()), compound_at(t, s, p + 1))
            } else {
                None
            },
            CssTokenKind::Delim => if !slice_ok(t, s, p) {
                None
            } else if text_at(t, s, p) == "*"@ {
                prepend(SimpleSel::Universal, compound_at(t, s, p + 1))
            } else {
                Some((Seq::empty(), p))
            },
            CssTokenKind::Colon => if kind_at(t, p + 1) == CssTokenKind::Ident {
                if slice_ok(t, s, p + 1) {
                    prepend(
                        SimpleSel::PseudoClass(lower(text_at(t, s, p + 1))),
                        compound_at(t, s, p + 2),
                    )
                } else {
                    None
                }
            } else {
                compound_at(t, s, p + 1)
            },
            _ => Some((Seq::empty(), p)),
        }
    }
}

/// The selectors `v` in front of what a step produced.
pub open spec fn with_prefix(v: Seq<SimpleSel>, r: Option<(Seq<SimpleSel>, int)>) -> Option<(Seq<SimpleSel>, int)> {
    match r {
        Some((w, q)) => Some((v + w, q)),
        None => None,
    }
}

proof fn lemma_with_prefix(v: Seq<SimpleSel>, x: SimpleSel, r: Option<(Seq<SimpleSel>, int)>)
    ensures
        with_prefix(v, prepend(x, r)) == with_prefix(v.push(x), r),
{
    match r {
        Some((w, q)) => {
            assert(v + (seq![x] + w) =~= v.push(x) + w);
        },
        None => {},
    }
}

proof fn lemma_with_prefix_empty(r: Option<(Seq<SimpleSel>, int)>)
    ensures
        with_prefix(Seq::empty(), r) == r,
{
    match r {
        Some((w, q)) => {
            assert(Seq::<SimpleSel>::empty() + w =~= w);
        },
        None => {},
    }
}

pub proof fn lemma_compound_progress(t: Seq<CssToken>, s: Seq<u8>, p: int)
    requires
        0 <= p <= t.len(),
        compound_at(t, s, p) is Some,
    ensures
        p <= compound_at(t, s, p).unwrap().1 <= t.len(),
        compound_at(t, s, p).unwrap().0.len() > 0 ==> p < compound_at(t, s, p).unwrap().1,
    decreases t.len() - p,
{
    if 0 <= p < t.len() {
        match t[p].kind {
            CssTokenKind::Ident => lemma_compound_progress(t, s, p + 1),
            CssTokenKind::Dot => if kind_at(t, p + 1) == CssTokenKind::Ident {
                lemma_compound_progress(t, s, p + 2);
            } else {
                lemma_compound_progress(t, s, p + 1);
            },
            CssTokenKind::Hash => lemma_compound_progress(t, s, p + 1),
            CssTokenKind::Delim => if text_at(t, s, p) == "*"@ {
                lemma_compound_progress(t, s, p + 1);
            },
            CssTokenKind::Colon => if kind_at(t, p + 1) == CssTokenKind::Ident {
                lemma_compound_progress(t, s, p + 2);
            } else {
                lemma_compound_progress(t, s, p + 1);
            },
            _ => {},
        }
    }
}

// ─── Selectors ───────────────────────────────────────────────────

/// A token that ends a selector: `{`, `,`, `}` or the end.
pub open spec fn ends_selector(k: CssTokenKind) -> bool {
    k == CssTokenKind::OpenBrace || k == CssTokenKind::Comma || k == CssTokenKind::CloseBrace || k
        == CssTokenKind::Eof
}

/// The combinator introduced at `p` and where the next compound starts:
/// `>`, `+` and `~` are consumed with the whitespace after them; anything
/// else is a descendant combinator and consumes nothing.
pub open spec fn combinator_at(t: Seq<CssToken>, s: Seq<u8>, p: int) -> Option<(Combinator, int)> {
    if kind_at(t, p) == CssTokenKind::Delim {
        if !slice_ok(t, s, p) {
            None
        } else if text_at(t, s, p) == ">"@ {
            Some((Combinator::Child, skip_ws(t, p + 1)))
        } else if text_at(t, s, p) == "+"@ {
            Some((Combinator::NextSibling, skip_ws(t, p + 1)))
        } else if text_at(t, s, p) == "~"@ {
            Some((Combinator::SubsequentSibling, skip_ws(t, p + 1)))
        } else {
            Some((Combinator::Descendant, p))
        }
    } else {
        Some((Combinator::Descendant, p))
    }
}

/// The steps of a selector that already has `steps`, continuing at `p`,
/// and the position where the selector ends.
pub open spec fn selector_rest(
    t: Seq<CssToken>,
    s: Seq<u8>,
    p: int,
    steps: Seq<StepView>,
) -> Option<(Seq<StepView>, int)>
    decreases t.len() - p,
{
    let p1 = skip_ws(t, p);
    if ends_selector(kind_at(t, p1)) {
        Some((steps, p1))
    } else {
        match combinator_at(t, s, p1) {
            None => None,
            Some((c, p2)) => match compound_at(t, s, p2) {
                None => None,
                Some((v, p3)) => if v.len() == 0 {
                    Some((steps, p3))
                } else if p < p3 <= t.len() {
                    selector_rest(t, s, p3, steps.push((c, v)))
                } else {
                    None
                },
            },
        }
    }
}

/// The selector at `p` (none when no compound selector starts there) and
/// the position after it.
pub open spec fn selector_at(t: Seq<CssToken>, s: Seq<u8>, p: int) -> Option<
    (Option<Seq<StepView>>, int),
> {
    match compound_at(t, s, p) {
        None => None,
        Some((v, q)) => if v.len() == 0 {
            Some((None, q))
        } else {
            match selector_rest(t, s, q, seq![(Combinator::Descendant, v)]) {
                None => None,
                Some((steps, r)) => Some((Some(steps), r)),
            }
        },
    }
}

/// The selectors after `acc` in a comma-separated list, from `p`.
pub open spec fn list_rest(
    t: Seq<CssToken>,
    s: Seq<u8>,
    p: int,
    acc: Seq<SelectorView>,
) -> Option<(Seq<SelectorView>, int)>
    decreases t.len() - p,
{
    let p1 = skip_ws(t, p);
    if kind_at(t, p1) == CssTokenKind::Comma {
        match selector_at(t, s, skip_ws(t, p1 + 1)) {
            None => None,
            Some((None, q)) => Some((acc, q)),
            Some((Some(steps), q)) => if p < q <= t.len() {
                list_rest(t, s, q, acc.push(selector_of(steps)))
            } else {
                None
            },
        }
    } else {
        Some((acc, p1))
    }
}

/// The comma-separated selector list at `p` and the position after it.
pub open spec fn selector_list_at(t: Seq<CssToken>, s: Seq<u8>, p: int) -> Option<
    (Seq<SelectorView>, int),
> {
    match selector_at(t, s, p) {
        None => None,
        Some((None, q)) => Some((Seq::empty(), q)),
        Some((Some(steps), q)) => list_rest(t, s, q, seq![selector_of(steps)]),
    }
}

pub proof fn lemma_selector_rest_progress(
    t: Seq<CssToken>,
    s: Seq<u8>,
    p: int,
    steps: Seq<StepView>,
)
    requires
        0 <= p <= t.len(),
        selector_rest(t, s, p, steps) is Some,
    ensures
        p <= selector_rest(t, s, p, steps).unwrap().1 <= t.len(),
    decreases t.len() - p,
{
    let p1 = skip_ws(t, p);
    lemma_skip_ws(t, p);
    if !ends_selector(kind_at(t, p1)) {
        let (c, p2) = combinator_at(t, s, p1).unwrap();
        if kind_at(t, p1) == CssTokenKind::Delim && p2 != p1 {
            lemma_skip_ws(t, p1 + 1);
        }
        lemma_compound_progress(t, s, p2);
        let (v, p3) = compound_at(t, s, p2).unwrap();
        if v.len() != 0 {
            lemma_selector_rest_progress(t, s, p3, steps.push((c, v)));
        }
    }
}

pub proof fn lemma_selector_progress(t: Seq<CssToken>, s: Seq<u8>, p: int)
    requires
        0 <= p <= t.len(),
        selector_at(t, s, p) is Some,
    ensures
        p <= selector_at(t, s, p).unwrap().1 <= t.len(),
        selector_at(t, s, p).unwrap().0 is Some ==> p < selector_at(t, s, p).unwrap().1,
{
    lemma_compound_progress(t, s, p);
    let (v, q) = compound_at(t, s, p).unwrap();
    if v.len() != 0 {
        lemma_selector_rest_progress(t, s, q, seq![(Combinator::Descendant, v)]);
    }
}

pub proof fn lemma_list_rest_progress(
    t: Seq<CssToken>,
    s: Seq<u8>,
    p: int,
    acc: Seq<SelectorView>,
)
    requires
        0 <= p <= t.len(),
        list_rest(t, s, p, acc) is Some,
    ensures
        p <= list_rest(t, s, p, acc).unwrap().1 <= t.len(),
    decreases t.len() - p,
{
    let p1 = skip_ws(t, p);
    lemma_skip_ws(t, p);
    if kind_at(t, p1) == CssTokenKind::Comma {
        lemma_skip_ws(t, p1 + 1);
        lemma_selector_progress(t, s, skip_ws(t, p1 + 1));
        let (r, q) = selector_at(t, s, skip_ws(t, p1 + 1)).unwrap();
        if r is Some {
            lemma_list_rest_progress(t, s, q, acc.push(selector_of(r.unwrap())));
        }
    }
}

pub proof fn lemma_selector_list_progress(t: Seq<CssToken>, s: Seq<u8>, p: int)
    requires
        0 <= p <= t.len(),
        selector_list_at(t, s, p) is Some,
    ensures
        p <= selector_list_at(t, s, p).unwrap().1 <= t.len(),
        selector_list_at(t, s, p).unwrap().0.len() > 0 ==> p < selector_list_at(t, s, p).unwrap().1,
{
    lemma_selector_progress(t, s, p);
    let (r, q) = selector_at(t, s, p).unwrap();
    if r is Some {
        lemma_list_rest_progress(t, s, q, seq![selector_of(r.unwrap())]);
    }
}

// ─── Declarations ────────────────────────────────────────────────

/// The parts of a declaration value from `p` to the next `;`, `}` or end:
/// the text of each token, and a single space for each run of whitespace
/// that follows some text.
pub open spec fn value_parts(t: Seq<CssToken>, s: Seq<u8>, p: int, parts: Seq<Seq<char>>) -> Option<
    (Seq<Seq<char>>, int),
>
    decreases t.len() - p,
{
    if ended(t, p) || kind_at(t, p) == CssTokenKind::Semicolon || kind_at(t, p)
        == CssTokenKind::CloseBrace {
        Some((parts, p))
    } else if t[p].kind == CssTokenKind::Whitespace {
        let q = skip_ws(t, p);
        if p < q <= t.len() {
            value_parts(t, s, q, if parts.len() > 0 { parts.push(" "@) } else { parts })
        } else {
            None
        }
    } else if slice_ok(t, s, p) {
        value_parts(t, s, p + 1, parts.push(text_at(t, s, p)))
    } else {
        None
    }
}

/// The parts without the single-space parts at the end.
pub open spec fn strip_spaces(parts: Seq<Seq<char>>) -> Seq<Seq<char>>
    decreases parts.len(),
{
    if parts.len() > 0 && parts.last() == " "@ {
        strip_spaces(parts.drop_last())
    } else {
        parts
    }
}

/// The parts joined together.
pub open spec fn concat(parts: Seq<Seq<char>>) -> Seq<char>
    decreases parts.len(),
{
    if parts.len() == 0 {
        Seq::empty()
    } else {
        concat(parts.drop_last()) + parts.last()
    }
}

/// The declaration at `p` (none when there is no property name, no colon
/// or an empty value) and the position after it and its `;`.
pub open spec fn declaration_at(t: Seq<CssToken>, s: Seq<u8>, p: int) -> Option<
    (Option<DeclView>, int),
> {
    if kind_at(t, p) != CssTokenKind::Ident {
        Some((None, p))
    } else if !slice_ok(t, s, p) {
        None
    } else {
        let property = lower(text_at(t, s, p));
        let p1 = skip_ws(t, p + 1);
        if kind_at(t, p1) != CssTokenKind::Colon {
            Some((None, p1))
        } else {
            match value_parts(t, s, skip_ws(t, p1 + 1), Seq::empty()) {
                None => None,
                Some((parts, q)) => {
                    let q2 = if kind_at(t, q) == CssTokenKind::Semicolon {
                        q + 1
                    } else {
                        q
                    };
                    let value = concat(strip_spaces(parts));
                    if value.len() == 0 {
                        Some((None, q2))
                    } else {
                        Some((Some((property, value)), q2))
                    }
                },
            }
        }
    }
}

/// The position of the next `;` or `}` at or after `p`, or the end.
pub open spec fn recover_from(t: Seq<CssToken>, p: int) -> int
    decreases t.len() - p,
{
    if !ended(t, p) && kind_at(t, p) != CssTokenKind::Semicolon && kind_at(t, p)
        != CssTokenKind::CloseBrace {
        recover_from(t, p + 1)
    } else {
        p
    }
}

/// The declarations after `acc` in a block, from `p` up to its `}` or the
/// end; a malformed declaration is skipped up to and including its `;`.
pub open spec fn declarations_from(
    t: Seq<CssToken>,
    s: Seq<u8>,
    p: int,
    acc: Seq<DeclView>,
) -> Option<(Seq<DeclView>, int)>
    decreases t.len() - p,
{
    let p1 = skip_ws(t, p);
    if kind_at(t, p1) == CssTokenKind::CloseBrace || ended(t, p1) {
        Some((acc, p1))
    } else {
        match declaration_at(t, s, p1) {
            None => None,
            Some((Some(d), q)) => if p < q <= t.len() {
                declarations_from(t, s, q, acc.push(d))
            } else {
                None
            },
            Some((None, q)) => {
                let r = recover_from(t, q);
                let r2 = if kind_at(t, r) == CssTokenKind::Semicolon {
                    r + 1
                } else {
                    r
                };
                if p < r2 <= t.len() {
                    declarations_from(t, s, r2, acc)
                } else {
                    None
                }
            },
        }
    }
}

pub proof fn lemma_value_parts_progress(t: Seq<CssToken>, s: Seq<u8>, p: int, parts: Seq<Seq<char>>)
    requires
        0 <= p <= t.len(),
        value_parts(t, s, p, parts) is Some,
    ensures
        p <= value_parts(t, s, p, parts).unwrap().1 <= t.len(),
    decreases t.len() - p,
{
    if !(ended(t, p) || kind_at(t, p) == CssTokenKind::Semicolon || kind_at(t, p)
        == CssTokenKind::CloseBrace) {
        if t[p].kind == CssTokenKind::Whitespace {
            let q = skip_ws(t, p);
            lemma_value_parts_progress(t, s, q, if parts.len() > 0 { parts.push(" "@) } else { parts });
        } else {
            lemma_value_parts_progress(t, s, p + 1, parts.push(text_at(t, s, p)));
        }
    }
}

pub proof fn lemma_recover_from(t: Seq<CssToken>, p: int)
    requires
        0 <= p <= t.len(),
    ensures
        p <= recover_from(t, p) <= t.len(),
        ended(t, p) || kind_at(t, p) == CssTokenKind::Semicolon || kind_at(t, p)
            == CssTokenKind::CloseBrace || p < recover_from(t, p),
        ended(t, recover_from(t, p)) || kind_at(t, recover_from(t, p)) == CssTokenKind::Semicolon
            || kind_at(t, recover_from(t, p)) == CssTokenKind::CloseBrace,
    decreases t.len() - p,
{
    if !ended(t, p) && kind_at(t, p) != CssTokenKind::Semicolon && kind_at(t, p)
        != CssTokenKind::CloseBrace {
        lemma_recover_from(t, p + 1);
    }
}

pub proof fn lemma_declaration_progress(t: Seq<CssToken>, s: Seq<u8>, p: int)
    requires
        0 <= p <= t.len(),
        declaration_at(t, s, p) is Some,
    ensures
        p <= declaration_at(t, s, p).unwrap().1 <= t.len(),
        kind_at(t, p) == CssTokenKind::Ident ==> p < declaration_at(t, s, p).unwrap().1,
{
    if kind_at(t, p) == CssTokenKind::Ident {
        lemma_skip_ws(t, p + 1);
        let p1 = skip_ws(t, p + 1);
        if kind_at(t, p1) == CssTokenKind::Colon {
            lemma_skip_ws(t, p1 + 1);
            lemma_value_parts_progress(t, s, skip_ws(t, p1 + 1), Seq::empty());
        }
    }
}

pub proof fn lemma_declarations_progress(
    t: Seq<CssToken>,
    s: Seq<u8>,
    p: int,
    acc: Seq<DeclView>,
)
    requires
        0 <= p <= t.len(),
        declarations_from(t, s, p, acc) is Some,
    ensures
        p <= declarations_from(t, s, p, acc).unwrap().1 <= t.len(),
    decreases t.len() - p,
{
    let p1 = skip_ws(t, p);
    lemma_skip_ws(t, p);
    if !(kind_at(t, p1) == CssTokenKind::CloseBrace || ended(t, p1)) {
        lemma_declaration_progress(t, s, p1);
        match declaration_at(t, s, p1).unwrap() {
            (Some(d), q) => lemma_declarations_progress(t, s, q, acc.push(d)),
            (None, q) => {
                lemma_recover_from(t, q);
                let r = recover_from(t, q);
                let r2 = if kind_at(t, r) == CssTokenKind::Semicolon {
                    r + 1
                } else {
                    r
                };
                lemma_declarations_progress(t, s, r2, acc);
            },
        }
    }
}

// ─── Rules, at-rules and the stylesheet ──────────────────────────

/// The position of the next `}` at or after `p`, or the end.
pub open spec fn close_from(t: Seq<CssToken>, p: int) -> int
    decreases t.len() - p,
{
    if !ended(t, p) && kind_at(t, p) != CssTokenKind::CloseBrace {
        close_from(t, p + 1)
    } else {
        p
    }
}

/// The position after the next `}` (or the end), to recover from a
/// malformed rule.
pub open spec fn skip_block(t: Seq<CssToken>, p: int) -> int {
    let r = close_from(t, p);
    if kind_at(t, r) == CssTokenKind::CloseBrace {
        r + 1
    } else {
        r
    }
}

/// The style rule at `p` numbered `next` (none when it has no selector or
/// no `{`), the position after it, and the next rule number.
pub open spec fn rule_at(t: Seq<CssToken>, s: Seq<u8>, p: int, next: nat) -> Option<
    (Option<RuleView>, int, nat),
> {
    match selector_list_at(t, s, p) {
        None => None,
        Some((sels, q)) => if sels.len() == 0 {
            Some((None, q, next))
        } else {
            let q1 = skip_ws(t, q);
            if kind_at(t, q1) != CssTokenKind::OpenBrace {
                Some((None, skip_block(t, q1), next))
            } else {
                match declarations_from(t, s, q1 + 1, Seq::empty()) {
                    None => None,
                    Some((decls, q2)) => {
                        let q3 = skip_ws(t, q2);
                        let q4 = if kind_at(t, q3) == CssTokenKind::CloseBrace {
                            q3 + 1
                        } else {
                            q3
                        };
                        Some((Some((sels, decls, next)), q4, next + 1))
                    },
                }
            }
        },
    }
}

/// Where an at-rule's body ends, from `p` with `depth` braces open: after
/// the `}` that closes the outermost brace, after a `;` outside any brace,
/// or at the end.
pub open spec fn at_rule_end(t: Seq<CssToken>, p: int, depth: nat) -> int
    decreases t.len() - p,
{
    if ended(t, p) {
        p
    } else {
        match t[p].kind {
            CssTokenKind::OpenBrace => at_rule_end(t, p + 1, depth + 1),
            CssTokenKind::CloseBrace => if depth <= 1 {
                p + 1
            } else {
                at_rule_end(t, p + 1, (depth - 1) as nat)
            },
            CssTokenKind::Semicolon => if depth == 0 {
                p + 1
            } else {
                at_rule_end(t, p + 1, depth)
            },
            _ => at_rule_end(t, p + 1, depth),
        }
    }
}

/// The text of a media header: the tokens from `p` up to `{` or the end.
pub open spec fn header_from(t: Seq<CssToken>, s: Seq<u8>, p: int, acc: Seq<char>) -> Option<
    (Seq<char>, int),
>
    decreases t.len() - p,
{
    if !ended(t, p) && kind_at(t, p) != CssTokenKind::OpenBrace {
        if slice_ok(t, s, p) {
            header_from(t, s, p + 1, acc + text_at(t, s, p))
        } else {
            None
        }
    } else {
        Some((acc, p))
    }
}

/// A media header this engine does not render for: print, speech,
/// handheld, projection or tv media, or a negated screen or all query.
pub open spec fn unsupported_media(header: Seq<char>) -> bool {
    let l = lower(trim(header));
    contains(l, "print"@) || contains(l, "speech"@) || contains(l, "handheld"@) || contains(
        l,
        "projection"@,
    ) || contains(l, "tv"@) || contains(l, "not screen"@) || contains(l, "not all"@)
}

/// A character of a decimal number: an ASCII digit or `.`.
pub open spec fn is_number_char(c: char) -> bool {
    ('0' <= c && c <= '9') || c == '.'
}

/// The length of the run of number characters at the start of `x`.
pub open spec fn number_run(x: Seq<char>) -> int
    decreases x.len(),
{
    if x.len() > 0 && is_number_char(x[0]) {
        1 + number_run(x.drop_first())
    } else {
        0
    }
}

/// The number of `.` in `x`.
pub open spec fn dots(x: Seq<char>) -> int
    decreases x.len(),
{
    if x.len() == 0 {
        0
    } else {
        dots(x.drop_last()) + if x.last() == '.' {
            1int
        } else {
            0int
        }
    }
}

/// A run of number characters that `f32` parsing accepts: at most one `.`
/// and at least one digit.
pub open spec fn decimal_ok(x: Seq<char>) -> bool {
    dots(x) <= 1 && x.len() > dots(x)
}

/// The bound named `name` in a media header: after the first occurrence
/// of `name`, the first `:`, then whitespace, the run of number characters
/// when it is a decimal number.
pub open spec fn width_text(header: Seq<char>, name: Seq<char>) -> Option<Seq<char>> {
    match find_first(header, name) {
        None => None,
        Some(i) => {
            let rest = header.subrange(i, header.len() as int);
            match index_of(rest, ':') {
                None => None,
                Some(j) => {
                    let after = trim_start(rest.subrange(j + 1, rest.len() as int));
                    let num = after.take(number_run(after));
                    if decimal_ok(num) {
                        Some(num)
                    } else {
                        None
                    }
                },
            }
        },
    }
}

/// The rules of a media block after `acc`, from `p` up to its `}` or the
/// end; a position where no rule parses is stepped over.
pub open spec fn media_rules_from(
    t: Seq<CssToken>,
    s: Seq<u8>,
    p: int,
    next: nat,
    acc: Seq<RuleView>,
) -> Option<(Seq<RuleView>, int, nat)>
    decreases t.len() - p,
{
    if ended(t, p) || kind_at(t, p) == CssTokenKind::CloseBrace {
        Some((acc, p, next))
    } else {
        let p1 = skip_ws(t, p);
        if kind_at(t, p1) == CssTokenKind::CloseBrace {
            Some((acc, p1, next))
        } else {
            match rule_at(t, s, p1, next) {
                None => None,
                Some((Some(r), q, n2)) => if p < q <= t.len() {
                    media_rules_from(t, s, q, n2, acc.push(r))
                } else {
                    None
                },
                Some((None, q, n2)) => {
                    let q2 = adv(t, q);
                    if p < q2 <= t.len() {
                        media_rules_from(t, s, q2, n2, acc)
                    } else {
                        None
                    }
                },
            }
        }
    }
}

/// The `@media` block whose keyword is at `p` (none when it has no block
/// or its media are unsupported), the position after it, and the next
/// rule number.
pub open spec fn media_at(t: Seq<CssToken>, s: Seq<u8>, p: int, next: nat) -> Option<
    (Option<MediaView>, int, nat),
> {
    match header_from(t, s, p + 1, Seq::empty()) {
        None => None,
        Some((header, q)) => if kind_at(t, q) == CssTokenKind::OpenBrace {
            match media_rules_from(t, s, q + 1, next, Seq::empty()) {
                None => None,
                Some((rules, r, n2)) => {
                    let r2 = if kind_at(t, r) == CssTokenKind::CloseBrace {
                        r + 1
                    } else {
                        r
                    };
                    if unsupported_media(header) {
                        Some((None, r2, n2))
                    } else {
                        Some(
                            (
                                Some(
                                    (
                                        width_text(header, "min-width"@),
                                        width_text(header, "max-width"@),
                                        rules,
                                    ),
                                ),
                                r2,
                                n2,
                            ),
                        )
                    }
                },
            }
        } else {
            Some((None, q, next))
        },
    }
}

/// The rules and media blocks of the stylesheet from `p`, after those
/// already parsed; `None` when parsing cannot complete, which includes a
/// position where no rule parses and nothing is consumed, where parsing
/// would repeat forever.
pub open spec fn sheet_from(
    t: Seq<CssToken>,
    s: Seq<u8>,
    p: int,
    next: nat,
    rules: Seq<RuleView>,
    medias: Seq<MediaView>,
) -> Option<(Seq<RuleView>, Seq<MediaView>)>
    decreases t.len() - p,
{
    if ended(t, p) {
        Some((rules, medias))
    } else {
        let p1 = skip_ws(t, p);
        if ended(t, p1) {
            Some((rules, medias))
        } else if t[p1].kind == CssTokenKind::AtKeyword {
            if !slice_ok(t, s, p1) {
                None
            } else if eq_ignore_case(text_at(t, s, p1), "@media"@) {
                match media_at(t, s, p1, next) {
                    None => None,
                    Some((m, q, n2)) => if p < q <= t.len() {
                        sheet_from(
                            t,
                            s,
                            q,
                            n2,
                            rules,
                            match m {
                                Some(x) => medias.push(x),
                                None => medias,
                            },
                        )
                    } else {
                        None
                    },
                }
            } else {
                let q = at_rule_end(t, p1 + 1, 0);
                if p < q <= t.len() {
                    sheet_from(t, s, q, next, rules, medias)
                } else {
                    None
                }
            }
        } else {
            match rule_at(t, s, p1, next) {
                None => None,
                Some((r, q, n2)) => if p < q <= t.len() {
                    sheet_from(
                        t,
                        s,
                        q,
                        n2,
                        match r {
                            Some(x) => rules.push(x),
                            None => rules,
                        },
                        medias,
                    )
                } else {
                    None
                },
            }
        }
    }
}

/// The stylesheet a token stream describes, when parsing completes.
pub open spec fn spec_parse(t: Seq<CssToken>, s: Seq<u8>) -> Option<(Seq<RuleView>, Seq<MediaView>)> {
    sheet_from(t, s, 0, 0, Seq::empty(), Seq::empty())
}

pub proof fn lemma_close_from(t: Seq<CssToken>, p: int)
    requires
        0 <= p <= t.len(),
    ensures
        p <= close_from(t, p) <= t.len(),
        kind_at(t, close_from(t, p)) == CssTokenKind::CloseBrace ==> close_from(t, p) < t.len(),
    decreases t.len() - p,
{
    if !ended(t, p) && kind_at(t, p) != CssTokenKind::CloseBrace {
        lemma_close_from(t, p + 1);
    }
}

pub proof fn lemma_rule_progress(t: Seq<CssToken>, s: Seq<u8>, p: int, next: nat)
    requires
        0 <= p <= t.len(),
        rule_at(t, s, p, next) is Some,
    ensures
        p <= rule_at(t, s, p, next).unwrap().1 <= t.len(),
        rule_at(t, s, p, next).unwrap().0 is Some ==> p < rule_at(t, s, p, next).unwrap().1
            && rule_at(t, s, p, next).unwrap().2 == next + 1,
        rule_at(t, s, p, next).unwrap().0 is None ==> rule_at(t, s, p, next).unwrap().2 == next,
{
    lemma_selector_list_progress(t, s, p);
    let (sels, q) = selector_list_at(t, s, p).unwrap();
    if sels.len() != 0 {
        lemma_skip_ws(t, q);
        let q1 = skip_ws(t, q);
        if kind_at(t, q1) != CssTokenKind::OpenBrace {
            lemma_close_from(t, q1);
        } else {
            lemma_declarations_progress(t, s, q1 + 1, Seq::empty());
            let (decls, q2) = declarations_from(t, s, q1 + 1, Seq::empty()).unwrap();
            lemma_skip_ws(t, q2);
        }
    }
}

pub proof fn lemma_at_rule_end(t: Seq<CssToken>, p: int, depth: nat)
    requires
        0 <= p <= t.len(),
    ensures
        p <= at_rule_end(t, p, depth) <= t.len(),
    decreases t.len() - p,
{
    if !ended(t, p) {
        match t[p].kind {
            CssTokenKind::OpenBrace => lemma_at_rule_end(t, p + 1, depth + 1),
            CssTokenKind::CloseBrace => if depth > 1 {
                lemma_at_rule_end(t, p + 1, (depth - 1) as nat);
            },
            CssTokenKind::Semicolon => if depth != 0 {
                lemma_at_rule_end(t, p + 1, depth);
            },
            _ => lemma_at_rule_end(t, p + 1, depth),
        }
    }
}

pub proof fn lemma_header_from(t: Seq<CssToken>, s: Seq<u8>, p: int, acc: Seq<char>)
    requires
        0 <= p <= t.len(),
        header_from(t, s, p, acc) is Some,
    ensures
        p <= header_from(t, s, p, acc).unwrap().1 <= t.len(),
    decreases t.len() - p,
{
    if !ended(t, p) && kind_at(t, p) != CssTokenKind::OpenBrace {
        lemma_header_from(t, s, p + 1, acc + text_at(t, s, p));
    }
}

pub proof fn lemma_media_rules_progress(
    t: Seq<CssToken>,
    s: Seq<u8>,
    p: int,
    next: nat,
    acc: Seq<RuleView>,
)
    requires
        0 <= p <= t.len(),
        next <= p,
        media_rules_from(t, s, p, next, acc) is Some,
    ensures
        p <= media_rules_from(t, s, p, next, acc).unwrap().1 <= t.len(),
        media_rules_from(t, s, p, next, acc).unwrap().2 <= media_rules_from(t, s, p, next, acc).unwrap().1,
        next <= media_rules_from(t, s, p, next, acc).unwrap().2,
    decreases t.len() - p,
{
    if !(ended(t, p) || kind_at(t, p) == CssTokenKind::CloseBrace) {
        lemma_skip_ws(t, p);
        let p1 = skip_ws(t, p);
        if kind_at(t, p1) != CssTokenKind::CloseBrace {
            lemma_rule_progress(t, s, p1, next);
            match rule_at(t, s, p1, next).unwrap() {
                (Some(r), q, n2) => lemma_media_rules_progress(t, s, q, n2, acc.push(r)),
                (None, q, n2) => lemma_media_rules_progress(t, s, adv(t, q), n2, acc),
            }
        }
    }
}

pub proof fn lemma_media_progress(t: Seq<CssToken>, s: Seq<u8>, p: int, next: nat)
    requires
        0 <= p < t.len(),
        next <= p,
        media_at(t, s, p, next) is Some,
    ensures
        p < media_at(t, s, p, next).unwrap().1 <= t.len(),
        next <= media_at(t, s, p, next).unwrap().2 <= media_at(t, s, p, next).unwrap().1,
{
    lemma_header_from(t, s, p + 1, Seq::empty());
    let (header, q) = header_from(t, s, p + 1, Seq::empty()).unwrap();
    if kind_at(t, q) == CssTokenKind::OpenBrace {
        lemma_media_rules_progress(t, s, q + 1, next, Seq::empty());
    }
}

// ─── Media header helpers ────────────────────────────────────────

proof fn lemma_number_run(x: Seq<char>, i: int)
    requires
        0 <= i <= x.len(),
        forall|j: int| 0 <= j < i ==> is_number_char(#[trigger] x[j]),
    ensures
        number_run(x) == i + number_run(x.skip(i)),
    decreases i,
{
    if i > 0 {
        assert(is_number_char(x[0]));
        lemma_number_run(x.drop_first(), i - 1);
        assert(x.drop_first().skip(i - 1) =~= x.skip(i));
    } else {
        assert(x.skip(0) =~= x);
    }
}

/// The length of the run of number characters at the start of `x`.
fn number_run_exec(x: &[char]) -> (res: usize)
    ensures
        res == number_run(x@),
        res <= x@.len(),
{
    let mut i: usize = 0;
    while i < x.len() && (('0' <= x[i] && x[i] <= '9') || x[i] == '.')
        invariant
            i <= x@.len(),
            forall|j: int| 0 <= j < i ==> is_number_char(#[trigger] x@[j]),
        decreases x@.len() - i,
    {
        i += 1;
    }
    proof {
        lemma_number_run(x@, i as int);
        let rest = x@.skip(i as int);
        if rest.len() > 0 {
            assert(rest[0] == x@[i as int]);
        }
    }
    i
}

/// Whether a run of number characters is a decimal `f32` parsing accepts.
fn decimal_ok_exec(x: &[char]) -> (res: bool)
    ensures
        res == decimal_ok(x@),
{
    let mut count: usize = 0;
    let mut i: usize = 0;
    while i < x.len()
        invariant
            i <= x@.len(),
            count == dots(x@.take(i as int)),
            count <= i,
        decreases x@.len() - i,
    {
        assert(x@.take(i as int + 1).drop_last() =~= x@.take(i as int));
        if x[i] == '.' {
            count += 1;
        }
        i += 1;
    }
    assert(x@.take(x@.len() as int) =~= x@);
    count <= 1 && x.len() > count
}

/// The text of the bound `name` in a media header.
#[verifier::rlimit(60)]
fn width_text_exec(header: &[char], name: &str) -> (res: Option<String>)
    ensures
        opt_view(res) == width_text(header@, name@),
{
    let pat = chars_of(name);
    match find(header, pat.as_slice()) {
        None => None,
        Some(i) => {
            let rest = slice_chars(header, i, header.len());
            match find_char(rest.as_slice(), ':') {
                None => None,
                Some(j) => {
                    let tail = slice_chars(rest.as_slice(), j + 1, rest.len());
                    let a = lead_ws_exec(tail.as_slice());
                    let after = slice_chars(tail.as_slice(), a, tail.len());
                    assert(after@ == trim_start(tail@));
                    let k = number_run_exec(after.as_slice());
                    let num = slice_chars(after.as_slice(), 0, k);
                    assert(num@ =~= after@.take(k as int));
                    if decimal_ok_exec(num.as_slice()) {
                        Some(string_from_chars(num.as_slice()))
                    } else {
                        None
                    }
                },
            }
        },
    }
}

/// Whether a media header names media this engine does not render for.
fn unsupported_media_exec(header: &[char]) -> (res: bool)
    ensures
        res == unsupported_media(header@),
{
    let trimmed = trim_chars(header);
    let l = lower_chars(trimmed.as_slice());
    let p0 = chars_of("print");
    let p1 = chars_of("speech");
    let p2 = chars_of("handheld");
    let p3 = chars_of("projection");
    let p4 = chars_of("tv");
    let p5 = chars_of("not screen");
    let p6 = chars_of("not all");
    contains_exec(l.as_slice(), p0.as_slice()) || contains_exec(l.as_slice(), p1.as_slice())
        || contains_exec(l.as_slice(), p2.as_slice()) || contains_exec(l.as_slice(), p3.as_slice())
        || contains_exec(l.as_slice(), p4.as_slice()) || contains_exec(l.as_slice(), p5.as_slice())
        || contains_exec(l.as_slice(), p6.as_slice())
}

// ─── The parser ──────────────────────────────────────────────────

/// A parser over a token stream and the source the tokens point into.
pub struct CssParser<'a> {
    tokens: &'a [CssToken],
    source: &'a [u8],
    pos: usize,
    next_position: usize,
}

impl<'a> CssParser<'a> {
    /// The tokens being parsed.
    pub closed spec fn tokens_view(&self) -> Seq<CssToken> {
        self.tokens@
    }

    /// The source the tokens point into.
    pub closed spec fn source_view(&self) -> Seq<u8> {
        self.source@
    }

    /// The position of the next token to read.
    pub closed spec fn pos_view(&self) -> int {
        self.pos as int
    }

    /// The position the next rule parsed will get.
    pub closed spec fn next_view(&self) -> nat {
        self.next_position as nat
    }

    /// The position lies within the tokens, and rule positions never run
    /// ahead of it.
    pub closed spec fn wf(&self) -> bool {
        &&& self.pos <= self.tokens@.len()
        &&& self.next_position <= self.pos
    }

    /// A parser at the first token.
    pub fn new(tokens: &'a [CssToken], source: &'a [u8]) -> (res: Self)
        ensures
            res.wf(),
            res.tokens_view() == tokens@,
            res.source_view() == source@,
            res.pos_view() == 0,
            res.next_view() == 0,
    {
        CssParser { tokens, source, pos: 0, next_position: 0 }
    }

    fn at_end(&self) -> (res: bool)
        requires
            self.wf(),
        ensures
            res == ended(self.tokens@, self.pos as int),
    {
        self.pos >= self.tokens.len() || self.tokens[self.pos].kind == CssTokenKind::Eof
    }

    fn current_kind(&self) -> (res: CssTokenKind)
        ensures
            res == kind_at(self.tokens@, self.pos as int),
    {
        if self.pos < self.tokens.len() {
            self.tokens[self.pos].kind
        } else {
            CssTokenKind::Eof
        }
    }

    fn current_slice(&self) -> (res: &'a str)
        requires
            slice_ok(self.tokens@, self.source@, self.pos as int),
        ensures
            res@ == text_at(self.tokens@, self.source@, self.pos as int),
    {
        let token = &self.tokens[self.pos];
        let bytes = vstd::slice::slice_subrange(self.source, token.start as usize, token.end as usize);
        match utf8_to_str(bytes) {
            Some(text) => text,
            None => {
                proof {
                    reveal_strlit("");
                }
                ""
            },
        }
    }

    fn advance(&mut self)
        requires
            old(self).wf(),
        ensures
            final(self).wf(),
            final(self).pos == adv(old(self).tokens@, old(self).pos as int),
            final(self).tokens == old(self).tokens,
            final(self).source == old(self).source,
            final(self).next_position == old(self).next_position,
    {
        if self.pos < self.tokens.len() {
            self.pos += 1;
        }
    }

    fn skip_whitespace(&mut self)
        requires
            old(self).wf(),
        ensures
            final(self).wf(),
            final(self).pos == skip_ws(old(self).tokens@, old(self).pos as int),
            final(self).tokens == old(self).tokens,
            final(self).source == old(self).source,
            final(self).next_position == old(self).next_position,
    {
        while self.pos < self.tokens.len() && self.tokens[self.pos].kind == CssTokenKind::Whitespace
            invariant
                self.wf(),
                self.tokens == old(self).tokens,
                self.source == old(self).source,
                self.next_position == old(self).next_position,
                skip_ws(self.tokens@, self.pos as int) == skip_ws(old(self).tokens@, old(self).pos as int),
            decreases self.tokens@.len() - self.pos,
        {
            self.pos += 1;
        }
    }

    /// Whether the current token exists and its range lies within the
    /// source, so that its text can be read.
    fn slice_ok_exec(&self) -> (res: bool)
        ensures
            res == slice_ok(self.tokens@, self.source@, self.pos as int),
    {
        if self.pos >= self.tokens.len() {
            return false;
        }
        let token = &self.tokens[self.pos];
        token.start <= token.end && (token.end as usize) <= self.source.len()
    }

    /// Parse the compound selector at the current position; `None` where
    /// the specification (`compound_at`) cannot complete.
    fn parse_compound_selector(&mut self) -> (res: Option<Vec<SimpleSelector>>)
        requires
            old(self).wf(),
        ensures
            final(self).wf(),
            final(self).tokens == old(self).tokens,
            final(self).source == old(self).source,
            final(self).next_position == old(self).next_position,
            compound_at(old(self).tokens@, old(self).source@, old(self).pos as int) == match res {
                Some(v) => Some((sels_view(v@), final(self).pos as int)),
                None => None::<(Seq<SimpleSel>, int)>,
            },
    {
        let ghost t = self.tokens@;
        let ghost s = self.source@;
        let ghost start = self.pos as int;
        let mut parts: Vec<SimpleSelector> = Vec::new();
        assert(with_prefix(sels_view(parts@), compound_at(t, s, start)) == compound_at(t, s, start)) by {
            lemma_with_prefix_empty(compound_at(t, s, start));
        }
        loop
            invariant
                self.wf(),
                self.tokens == old(self).tokens,
                self.source == old(self).source,
                self.next_position == old(self).next_position,
                t == self.tokens@,
                s == self.source@,
                compound_at(t, s, start) == with_prefix(sels_view(parts@), compound_at(t, s, self.pos as int)),
            decreases t.len() - self.pos,
        {
            let ghost prev = sels_view(parts@);
            let kind = self.current_kind();
            match kind {
                CssTokenKind::Ident => {
                    if !self.slice_ok_exec() {
                        return None;
                    }
                    let name = to_ascii_lowercase(self.current_slice());
                    let ghost p = self.pos as int;
                    parts.push(SimpleSelector::Tag(name));
                    self.advance();
                    proof {
                        lemma_with_prefix(prev, SimpleSel::Tag(name@), compound_at(t, s, p + 1));
                        assert(sels_view(parts@) =~= prev.push(SimpleSel::Tag(name@)));
                    }
                },
                CssTokenKind::Dot => {
                    self.advance();
                    if self.current_kind() == CssTokenKind::Ident {
                        if !self.slice_ok_exec() {
                            return None;
                        }
                        let name = owned(self.current_slice());
                        let ghost p = self.pos as int;
                        parts.push(SimpleSelector::Class(name));
                        self.advance();
                        proof {
                            lemma_with_prefix(prev, SimpleSel::Class(name@), compound_at(t, s, p + 1));
                            assert(sels_view(parts@) =~= prev.push(SimpleSel::Class(name@)));
                        }
                    }
                },
                CssTokenKind::Hash => {
                    if !self.slice_ok_exec() {
                        return None;
                    }
                    let text = chars_of(self.current_slice());
                    if !(text.len() >= 1 && (text[0] as u32) < 128) {
                        return None;
                    }
                    let rest = slice_chars(text.as_slice(), 1, text.len());
                    assert(rest@ =~= text@.drop_first());
                    let name = string_from_chars(rest.as_slice());
                    let ghost p = self.pos as int;
                    parts.push(SimpleSelector::Id(name));
                    self.advance();
                    proof {
                        lemma_with_prefix(prev, SimpleSel::Id(name@), compound_at(t, s, p + 1));
                        assert(sels_view(parts@) =~= prev.push(SimpleSel::Id(name@)));
                    }
                },
                CssTokenKind::Delim => {
                    if !self.slice_ok_exec() {
                        return None;
                    }
                    if str_eq(self.current_slice(), "*") {
                        let ghost p = self.pos as int;
                        parts.push(SimpleSelector::Universal);
                        self.advance();
                        proof {
                            lemma_with_prefix(prev, SimpleSel::Universal, compound_at(t, s, p + 1));
                            assert(sels_view(parts@) =~= prev.push(SimpleSel::Universal));
                        }
                    } else {
                        assert(sels_view(parts@) + Seq::<SimpleSel>::empty() =~= sels_view(parts@));
                        return Some(parts);
                    }
                },
                CssTokenKind::Colon => {
                    self.advance();
                    if self.current_kind() == CssTokenKind::Ident {
                        if !self.slice_ok_exec() {
                            return None;
                        }
                        let name = to_ascii_lowercase(self.current_slice());
                        let ghost p = self.pos as int;
                        parts.push(SimpleSelector::PseudoClass(name));
                        self.advance();
                        proof {
                            lemma_with_prefix(prev, SimpleSel::PseudoClass(name@), compound_at(t, s, p + 1));
                            assert(sels_view(parts@) =~= prev.push(SimpleSel::PseudoClass(name@)));
                        }
                    }
                },
                _ => {
                    assert(sels_view(parts@) + Seq::<SimpleSel>::empty() =~= sels_view(parts@));
                    return Some(parts);
                },
            }
        }
    }

    /// Parse one selector: a compound selector, then further compounds
    /// joined by combinators, up to `{`, `,`, `}` or the end; `Some(None)`
    /// when no compound selector starts here.
    fn parse_selector(&mut self) -> (res: Option<Option<Selector>>)
        requires
            old(self).wf(),
        ensures
            final(self).wf(),
            final(self).tokens == old(self).tokens,
            final(self).source == old(self).source,
            final(self).next_position == old(self).next_position,
            selector_at(old(self).tokens@, old(self).source@, old(self).pos as int) == match res {
                Some(Some(sel)) => Some((Some(sel@.0), final(self).pos as int)),
                Some(None) => Some((None::<Seq<StepView>>, final(self).pos as int)),
                None => None::<(Option<Seq<StepView>>, int)>,
            },
            res matches Some(Some(sel)) ==> sel@ == selector_of(sel@.0),
    {
        let ghost t = self.tokens@;
        let ghost s = self.source@;
        let ghost p0 = self.pos as int;
        let initial = match self.parse_compound_selector() {
            Some(v) => v,
            None => {
                return None;
            },
        };
        if initial.len() == 0 {
            return Some(None);
        }
        proof {
            lemma_compound_progress(t, s, p0);
        }
        let ghost q0 = self.pos as int;
        let ghost first = seq![(Combinator::Descendant, sels_view(initial@))];
        let ghost target = selector_rest(t, s, q0, first);
        let mut steps: Vec<SelectorStep> = Vec::new();
        steps.push(SelectorStep { combinator: Combinator::Descendant, compound: initial });
        assert(steps_view(steps@) =~= first);
        loop
            invariant
                self.wf(),
                self.tokens == old(self).tokens,
                self.source == old(self).source,
                self.next_position == old(self).next_position,
                t == self.tokens@,
                s == self.source@,
                selector_rest(t, s, self.pos as int, steps_view(steps@)) == target,
            decreases t.len() - self.pos,
        {
            let ghost p = self.pos as int;
            self.skip_whitespace();
            proof {
                lemma_skip_ws(t, p);
            }
            let kind = self.current_kind();
            if kind == CssTokenKind::OpenBrace || kind == CssTokenKind::Comma || kind
                == CssTokenKind::CloseBrace || kind == CssTokenKind::Eof {
                break;
            }
            let ghost p1 = self.pos as int;
            proof {
                lemma_skip_ws(t, p1 + 1);
            }
            let combinator = if kind == CssTokenKind::Delim {
                if !self.slice_ok_exec() {
                    return None;
                }
                let text = self.current_slice();
                if str_eq(text, ">") {
                    self.advance();
                    self.skip_whitespace();
                    Combinator::Child
                } else if str_eq(text, "+") {
                    self.advance();
                    self.skip_whitespace();
                    Combinator::NextSibling
                } else if str_eq(text, "~") {
                    self.advance();
                    self.skip_whitespace();
                    Combinator::SubsequentSibling
                } else {
                    Combinator::Descendant
                }
            } else {
                Combinator::Descendant
            };
            let ghost p2 = self.pos as int;
            let compound = match self.parse_compound_selector() {
                Some(v) => v,
                None => {
                    return None;
                },
            };
            if compound.len() == 0 {
                break;
            }
            proof {
                lemma_compound_progress(t, s, p2);
            }
            let ghost prev = steps_view(steps@);
            steps.push(SelectorStep { combinator, compound });
            assert(steps_view(steps@) =~= prev.push((combinator, sels_view(compound@))));
        }
        proof {
            lemma_selector_rest_progress(t, s, q0, first);
        }
        let sel = Selector::from_steps(steps);
        Some(Some(sel))
    }

    /// Parse a comma-separated list of selectors; empty when no selector
    /// starts at the current position.
    fn parse_selector_list(&mut self) -> (res: Option<Vec<Selector>>)
        requires
            old(self).wf(),
        ensures
            final(self).wf(),
            final(self).tokens == old(self).tokens,
            final(self).source == old(self).source,
            final(self).next_position == old(self).next_position,
            selector_list_at(old(self).tokens@, old(self).source@, old(self).pos as int) == match res {
                Some(v) => Some((selectors_view(v@), final(self).pos as int)),
                None => None::<(Seq<SelectorView>, int)>,
            },
    {
        let ghost t = self.tokens@;
        let ghost s = self.source@;
        let ghost p0 = self.pos as int;
        let mut selectors: Vec<Selector> = Vec::new();
        match self.parse_selector() {
            Some(Some(sel)) => selectors.push(sel),
            Some(None) => {
                assert(selectors_view(selectors@) =~= Seq::<SelectorView>::empty());
                return Some(selectors);
            },
            None => {
                return None;
            },
        }
        proof {
            lemma_selector_progress(t, s, p0);
        }
        let ghost target = selector_list_at(t, s, p0);
        assert(selectors_view(selectors@) =~= seq![selectors@[0]@]);
        loop
            invariant
                self.wf(),
                self.tokens == old(self).tokens,
                self.source == old(self).source,
                self.next_position == old(self).next_position,
                t == self.tokens@,
                s == self.source@,
                list_rest(t, s, self.pos as int, selectors_view(selectors@)) == target,
            decreases t.len() - self.pos,
        {
            let ghost p = self.pos as int;
            self.skip_whitespace();
            proof {
                lemma_skip_ws(t, p);
            }
            if self.current_kind() == CssTokenKind::Comma {
                self.advance();
                self.skip_whitespace();
                proof {
                    lemma_skip_ws(t, p + 1);
                    lemma_skip_ws(t, skip_ws(t, p) + 1);
                }
                let ghost p2 = self.pos as int;
                match self.parse_selector() {
                    Some(Some(sel)) => {
                        proof {
                            lemma_selector_progress(t, s, p2);
                        }
                        let ghost prev = selectors_view(selectors@);
                        selectors.push(sel);
                        assert(selectors_view(selectors@) =~= prev.push(sel@));
                    },
                    Some(None) => {
                        break;
                    },
                    None => {
                        return None;
                    },
                }
            } else {
                break;
            }
        }
        proof {
            lemma_list_rest_progress(t, s, p0, seq![selectors@[0]@]);
        }
        Some(selectors)
    }

    /// Parse one declaration, `property: value;`; `Some(None)` (with the
    /// position where parsing stopped) when there is no property name, no
    /// colon or an empty value.
    fn parse_declaration(&mut self) -> (res: Option<Option<Declaration>>)
        requires
            old(self).wf(),
        ensures
            final(self).wf(),
            final(self).tokens == old(self).tokens,
            final(self).source == old(self).source,
            final(self).next_position == old(self).next_position,
            declaration_at(old(self).tokens@, old(self).source@, old(self).pos as int) == match res {
                Some(Some(d)) => Some((Some(d@), final(self).pos as int)),
                Some(None) => Some((None::<DeclView>, final(self).pos as int)),
                None => None::<(Option<DeclView>, int)>,
            },
    {
        let ghost t = self.tokens@;
        let ghost s = self.source@;
        let ghost p0 = self.pos as int;
        if self.current_kind() != CssTokenKind::Ident {
            return Some(None);
        }
        if !self.slice_ok_exec() {
            return None;
        }
        let property = to_ascii_lowercase(self.current_slice());
        self.advance();
        self.skip_whitespace();
        if self.current_kind() != CssTokenKind::Colon {
            return Some(None);
        }
        self.advance();
        self.skip_whitespace();
        proof {
            lemma_skip_ws(t, p0 + 1);
            lemma_skip_ws(t, skip_ws(t, p0 + 1) + 1);
        }
        let ghost v0 = self.pos as int;
        let ghost target = value_parts(t, s, v0, Seq::empty());
        let mut parts: Vec<String> = Vec::new();
        while !self.at_end() && self.current_kind() != CssTokenKind::Semicolon && self.current_kind()
            != CssTokenKind::CloseBrace
            invariant
                self.wf(),
                self.tokens == old(self).tokens,
                self.source == old(self).source,
                self.next_position == old(self).next_position,
                t == self.tokens@,
                s == self.source@,
                value_parts(t, s, self.pos as int, parts@.map_values(|x: String| x@)) == target,
            decreases t.len() - self.pos,
        {
            let ghost prev = parts@.map_values(|x: String| x@);
            if self.current_kind() == CssTokenKind::Whitespace {
                if parts.len() > 0 {
                    parts.push(owned(" "));
                    assert(parts@.map_values(|x: String| x@) =~= prev.push(" "@));
                } else {
                    assert(parts@.map_values(|x: String| x@) =~= prev);
                }
                proof {
                    lemma_skip_ws(t, self.pos as int);
                    lemma_skip_ws(t, self.pos as int + 1);
                }
                self.skip_whitespace();
            } else {
                if !self.slice_ok_exec() {
                    return None;
                }
                let text = owned(self.current_slice());
                parts.push(text);
                assert(parts@.map_values(|x: String| x@) =~= prev.push(text@));
                self.advance();
            }
        }
        if self.current_kind() == CssTokenKind::Semicolon {
            self.advance();
        }
        let ghost all = parts@.map_values(|x: String| x@);
        let mut n: usize = parts.len();
        while n > 0 && str_eq(parts[n - 1].as_str(), " ")
            invariant
                n <= parts@.len(),
                all == parts@.map_values(|x: String| x@),
                strip_spaces(all) == strip_spaces(all.take(n as int)),
            decreases n,
        {
            assert(all.take(n as int).drop_last() =~= all.take(n as int - 1));
            n -= 1;
        }
        assert(strip_spaces(all.take(n as int)) == all.take(n as int));
        let mut value: Vec<char> = Vec::new();
        let mut i: usize = 0;
        while i < n
            invariant
                n <= parts@.len(),
                i <= n,
                all == parts@.map_values(|x: String| x@),
                value@ == concat(all.take(i as int)),
            decreases n - i,
        {
            extend_str(&mut value, parts[i].as_str());
            i += 1;
            assert(all.take(i as int).drop_last() =~= all.take(i as int - 1));
        }
        if value.len() == 0 {
            return Some(None);
        }
        Some(Some(Declaration { property, value: string_from_chars(value.as_slice()) }))
    }

    /// Parse the declarations of a block up to its `}` or the end, skipping
    /// malformed ones.
    fn parse_declarations(&mut self) -> (res: Option<Vec<Declaration>>)
        requires
            old(self).wf(),
        ensures
            final(self).wf(),
            final(self).tokens == old(self).tokens,
            final(self).source == old(self).source,
            final(self).next_position == old(self).next_position,
            declarations_from(old(self).tokens@, old(self).source@, old(self).pos as int, Seq::empty())
                == match res {
                Some(v) => Some((decls_view(v@), final(self).pos as int)),
                None => None::<(Seq<DeclView>, int)>,
            },
    {
        let ghost t = self.tokens@;
        let ghost s = self.source@;
        let ghost target = declarations_from(t, s, self.pos as int, Seq::empty());
        let mut declarations: Vec<Declaration> = Vec::new();
        assert(decls_view(declarations@) =~= Seq::<DeclView>::empty());
        loop
            invariant
                self.wf(),
                self.tokens == old(self).tokens,
                self.source == old(self).source,
                self.next_position == old(self).next_position,
                t == self.tokens@,
                s == self.source@,
                declarations_from(t, s, self.pos as int, decls_view(declarations@)) == target,
            decreases t.len() - self.pos,
        {
            let ghost p = self.pos as int;
            self.skip_whitespace();
            proof {
                lemma_skip_ws(t, p);
            }
            if self.current_kind() == CssTokenKind::CloseBrace || self.at_end() {
                break;
            }
            let ghost p1 = self.pos as int;
            match self.parse_declaration() {
                Some(Some(decl)) => {
                    proof {
                        lemma_declaration_progress(t, s, p1);
                    }
                    let ghost prev = decls_view(declarations@);
                    declarations.push(decl);
                    assert(decls_view(declarations@) =~= prev.push(decl@));
                },
                Some(None) => {
                    proof {
                        lemma_declaration_progress(t, s, p1);
                        lemma_recover_from(t, self.pos as int);
                    }
                    while !self.at_end() && self.current_kind() != CssTokenKind::Semicolon
                        && self.current_kind() != CssTokenKind::CloseBrace
                        invariant
                            self.wf(),
                            self.tokens == old(self).tokens,
                            self.source == old(self).source,
                            self.next_position == old(self).next_position,
                            t == self.tokens@,
                            recover_from(t, self.pos as int) == recover_from(
                                t,
                                declaration_at(t, s, p1).unwrap().1,
                            ),
                        decreases t.len() - self.pos,
                    {
                        self.advance();
                    }
                    if self.current_kind() == CssTokenKind::Semicolon {
                        self.advance();
                    }
                },
                None => {
                    return None;
                },
            }
        }
        Some(declarations)
    }

    /// Skip to just after the next `}` (or to the end).
    fn skip_to_close_brace(&mut self)
        requires
            old(self).wf(),
        ensures
            final(self).wf(),
            final(self).tokens == old(self).tokens,
            final(self).source == old(self).source,
            final(self).next_position == old(self).next_position,
            final(self).pos == skip_block(old(self).tokens@, old(self).pos as int),
    {
        let ghost t = self.tokens@;
        let ghost p0 = self.pos as int;
        while !self.at_end() && self.current_kind() != CssTokenKind::CloseBrace
            invariant
                self.wf(),
                self.tokens == old(self).tokens,
                self.source == old(self).source,
                self.next_position == old(self).next_position,
                t == self.tokens@,
                close_from(t, self.pos as int) == close_from(t, p0),
            decreases t.len() - self.pos,
        {
            self.advance();
        }
        if self.current_kind() == CssTokenKind::CloseBrace {
            self.advance();
        }
    }

    /// Skip an at-rule other than `@media`: its keyword, then tokens up to
    /// a `;` outside braces or the `}` closing its block.
    fn skip_at_rule(&mut self)
        requires
            old(self).wf(),
            (old(self).pos as int) < old(self).tokens@.len(),
        ensures
            final(self).wf(),
            final(self).tokens == old(self).tokens,
            final(self).source == old(self).source,
            final(self).next_position == old(self).next_position,
            final(self).pos == at_rule_end(old(self).tokens@, old(self).pos as int + 1, 0),
    {
        let ghost t = self.tokens@;
        let ghost target = at_rule_end(t, self.pos as int + 1, 0);
        self.advance();
        let mut depth: usize = 0;
        while !self.at_end()
            invariant
                self.wf(),
                self.tokens == old(self).tokens,
                self.source == old(self).source,
                self.next_position == old(self).next_position,
                t == self.tokens@,
                depth <= self.pos,
                at_rule_end(t, self.pos as int, depth as nat) == target,
            decreases t.len() - self.pos,
        {
            let kind = self.current_kind();
            if kind == CssTokenKind::OpenBrace {
                depth += 1;
                self.advance();
            } else if kind == CssTokenKind::CloseBrace {
                self.advance();
                if depth <= 1 {
                    break;
                }
                depth -= 1;
            } else if kind == CssTokenKind::Semicolon && depth == 0 {
                self.advance();
                break;
            } else {
                self.advance();
            }
        }
    }


    /// Parse one style rule, `selectors { declarations }`; `Some(None)`
    /// when there is no selector, or (after skipping past the next `}`) no
    /// `{`.
    fn parse_rule(&mut self) -> (res: Option<Option<StyleRule>>)
        requires
            old(self).wf(),
        ensures
            final(self).wf(),
            final(self).tokens == old(self).tokens,
            final(self).source == old(self).source,
            rule_at(old(self).tokens@, old(self).source@, old(self).pos as int, old(self).next_position as nat)
                == match res {
                Some(Some(r)) => Some((Some(r@), final(self).pos as int, final(self).next_position as nat)),
                Some(None) => Some((None::<RuleView>, final(self).pos as int, final(self).next_position as nat)),
                None => None::<(Option<RuleView>, int, nat)>,
            },
    {
        let ghost t = self.tokens@;
        let ghost s = self.source@;
        let ghost p0 = self.pos as int;
        let selectors = match self.parse_selector_list() {
            Some(v) => v,
            None => {
                return None;
            },
        };
        if selectors.len() == 0 {
            return Some(None);
        }
        proof {
            lemma_selector_list_progress(t, s, p0);
        }
        let ghost q = self.pos as int;
        self.skip_whitespace();
        proof {
            lemma_skip_ws(t, q);
        }
        if self.current_kind() != CssTokenKind::OpenBrace {
            self.skip_to_close_brace();
            return Some(None);
        }
        self.advance();
        let ghost d0 = self.pos as int;
        let declarations = match self.parse_declarations() {
            Some(v) => v,
            None => {
                return None;
            },
        };
        proof {
            lemma_declarations_progress(t, s, d0, Seq::empty());
        }
        let ghost q2 = self.pos as int;
        self.skip_whitespace();
        proof {
            lemma_skip_ws(t, q2);
        }
        if self.current_kind() == CssTokenKind::CloseBrace {
            self.advance();
        }
        let position = self.next_position;
        self.next_position += 1;
        Some(Some(StyleRule { selectors, declarations, position }))
    }

    /// Parse a `@media` block whose keyword is the current token;
    /// `Some(None)` when it has no block or its media are unsupported.
    #[verifier::rlimit(60)]
    fn parse_media_rule(&mut self) -> (res: Option<Option<MediaRule>>)
        requires
            old(self).wf(),
            (old(self).pos as int) < old(self).tokens@.len(),
        ensures
            final(self).wf(),
            final(self).tokens == old(self).tokens,
            final(self).source == old(self).source,
            media_at(old(self).tokens@, old(self).source@, old(self).pos as int, old(self).next_position as nat)
                == match res {
                Some(Some(m)) => Some((Some(m@), final(self).pos as int, final(self).next_position as nat)),
                Some(None) => Some((None::<MediaView>, final(self).pos as int, final(self).next_position as nat)),
                None => None::<(Option<MediaView>, int, nat)>,
            },
    {
        let ghost t = self.tokens@;
        let ghost s = self.source@;
        let ghost n0 = self.next_position as nat;
        self.advance();
        let ghost h0 = self.pos as int;
        let mut header: Vec<char> = Vec::new();
        while !self.at_end() && self.current_kind() != CssTokenKind::OpenBrace
            invariant
                self.wf(),
                self.tokens == old(self).tokens,
                self.source == old(self).source,
                self.next_position == old(self).next_position,
                t == self.tokens@,
                s == self.source@,
                header_from(t, s, self.pos as int, header@) == header_from(t, s, h0, Seq::empty()),
            decreases t.len() - self.pos,
        {
            if !self.slice_ok_exec() {
                return None;
            }
            extend_str(&mut header, self.current_slice());
            self.advance();
        }
        let unsupported = unsupported_media_exec(header.as_slice());
        let min_width = width_text_exec(header.as_slice(), "min-width");
        let max_width = width_text_exec(header.as_slice(), "max-width");
        if self.current_kind() != CssTokenKind::OpenBrace {
            return Some(None);
        }
        self.advance();
        let ghost r0 = self.pos as int;
        let ghost target = media_rules_from(t, s, r0, n0, Seq::empty());
        let mut rules: Vec<StyleRule> = Vec::new();
        assert(rules_view(rules@) =~= Seq::<RuleView>::empty());
        while !self.at_end() && self.current_kind() != CssTokenKind::CloseBrace
            invariant
                self.wf(),
                self.tokens == old(self).tokens,
                self.source == old(self).source,
                t == self.tokens@,
                s == self.source@,
                media_rules_from(t, s, self.pos as int, self.next_position as nat, rules_view(rules@))
                    == target,
            decreases t.len() - self.pos,
        {
            let ghost p = self.pos as int;
            self.skip_whitespace();
            proof {
                lemma_skip_ws(t, p);
            }
            if self.current_kind() == CssTokenKind::CloseBrace {
                break;
            }
            let ghost p1 = self.pos as int;
            let ghost n1 = self.next_position as nat;
            match self.parse_rule() {
                Some(Some(rule)) => {
                    proof {
                        lemma_rule_progress(t, s, p1, n1);
                    }
                    let ghost prev = rules_view(rules@);
                    rules.push(rule);
                    assert(rules_view(rules@) =~= prev.push(rule@));
                },
                Some(None) => {
                    proof {
                        lemma_rule_progress(t, s, p1, n1);
                    }
                    self.advance();
                },
                None => {
                    return None;
                },
            }
        }
        if self.current_kind() == CssTokenKind::CloseBrace {
            self.advance();
        }
        if unsupported {
            Some(None)
        } else {
            Some(Some(MediaRule { min_width, max_width, rules }))
        }
    }

    /// Parse the whole token stream from the current position into a
    /// stylesheet; `None` exactly where the specification (`sheet_from`)
    /// cannot complete, including a rule position where parsing would
    /// repeat forever.
    #[verifier::rlimit(60)]
    pub fn try_parse(&mut self) -> (res: Option<Stylesheet>)
        requires
            old(self).wf(),
        ensures
            final(self).wf(),
            final(self).tokens_view() == old(self).tokens_view(),
            final(self).source_view() == old(self).source_view(),
            sheet_from(
                old(self).tokens_view(),
                old(self).source_view(),
                old(self).pos_view(),
                old(self).next_view(),
                Seq::empty(),
                Seq::empty(),
            ) == match res {
                Some(sheet) => Some(sheet@),
                None => None::<(Seq<RuleView>, Seq<MediaView>)>,
            },
    {
        let ghost t = self.tokens@;
        let ghost s = self.source@;
        let ghost target = sheet_from(t, s, self.pos as int, self.next_position as nat, Seq::empty(), Seq::empty());
        let mut rules: Vec<StyleRule> = Vec::new();
        let mut media_rules: Vec<MediaRule> = Vec::new();
        assert(rules_view(rules@) =~= Seq::<RuleView>::empty());
        assert(medias_view(media_rules@) =~= Seq::<MediaView>::empty());
        while !self.at_end()
            invariant
                self.wf(),
                self.tokens == old(self).tokens,
                self.source == old(self).source,
                t == self.tokens@,
                s == self.source@,
                sheet_from(
                    t,
                    s,
                    self.pos as int,
                    self.next_position as nat,
                    rules_view(rules@),
                    medias_view(media_rules@),
                ) == target,
            decreases t.len() - self.pos,
        {
            let start_pos = self.pos;
            let ghost p = self.pos as int;
            self.skip_whitespace();
            proof {
                lemma_skip_ws(t, p);
            }
            if self.at_end() {
                break;
            }
            let ghost p1 = self.pos as int;
            let ghost n1 = self.next_position as nat;
            if self.current_kind() == CssTokenKind::AtKeyword {
                if !self.slice_ok_exec() {
                    return None;
                }
                if str_eq_ignore_case(self.current_slice(), "@media") {
                    match self.parse_media_rule() {
                        Some(found) => {
                            proof {
                                lemma_media_progress(t, s, p1, n1);
                            }
                            match found {
                                Some(m) => {
                                    let ghost prev = medias_view(media_rules@);
                                    media_rules.push(m);
                                    assert(medias_view(media_rules@) =~= prev.push(m@));
                                },
                                None => {},
                            }
                        },
                        None => {
                            return None;
                        },
                    }
                    continue;
                }
                proof {
                    lemma_at_rule_end(t, p1 + 1, 0);
                }
                self.skip_at_rule();
                continue;
            }
            match self.parse_rule() {
                Some(found) => {
                    if self.pos <= start_pos {
                        return None;
                    }
                    proof {
                        lemma_rule_progress(t, s, p1, n1);
                    }
                    match found {
                        Some(rule) => {
                            let ghost prev = rules_view(rules@);
                            rules.push(rule);
                            assert(rules_view(rules@) =~= prev.push(rule@));
                        },
                        None => {},
                    }
                },
                None => {
                    return None;
                },
            }
        }
        Some(Stylesheet { rules, media_rules })
    }

    /// Parse the whole token stream from the current position into a
    /// stylesheet, on a stream whose parsing completes.
    pub fn parse(&mut self) -> (res: Stylesheet)
        requires
            old(self).wf(),
            sheet_from(
                old(self).tokens_view(),
                old(self).source_view(),
                old(self).pos_view(),
                old(self).next_view(),
                Seq::empty(),
                Seq::empty(),
            ) is Some,
        ensures
            final(self).wf(),
            final(self).tokens_view() == old(self).tokens_view(),
            final(self).source_view() == old(self).source_view(),
            res@ == sheet_from(
                old(self).tokens_view(),
                old(self).source_view(),
                old(self).pos_view(),
                old(self).next_view(),
                Seq::empty(),
                Seq::empty(),
            ).unwrap(),
    {
        match self.try_parse() {
            Some(sheet) => sheet,
            None => {
                proof {
                    assert(false);
                }
                Stylesheet { rules: Vec::new(), media_rules: Vec::new() }
            },
        }
    }
}

impl Stylesheet {
    /// Tokenize and parse a CSS source in one step; `None` where parsing
    /// cannot complete.
    pub fn try_parse(source: &[u8]) -> (res: Option<Self>)
        ensures
            spec_parse(spec_tokenize(source@), source@) == match res {
                Some(sheet) => Some(sheet@),
                None => None::<(Seq<RuleView>, Seq<MediaView>)>,
            },
    {
        let mut tokenizer = CssTokenizer::new(source);
        let tokens = tokenizer.tokenize();
        assert(tokens@ =~= spec_tokenize(source@));
        let mut parser = CssParser::new(tokens.as_slice(), source);
        parser.try_parse()
    }

    /// Tokenize and parse a CSS source in one step, for a source whose
    /// parsing completes.
    pub fn parse(source: &[u8]) -> (res: Self)
        requires
            spec_parse(spec_tokenize(source@), source@) is Some,
        ensures
            res@ == spec_parse(spec_tokenize(source@), source@).unwrap(),
    {
        let mut tokenizer = CssTokenizer::new(source);
        let tokens = tokenizer.tokenize();
        assert(tokens@ =~= spec_tokenize(source@));
        let mut parser = CssParser::new(tokens.as_slice(), source);
        parser.parse()
    }
}

// ─── Display ─────────────────────────────────────────────────────

/// A simple selector written out: `tag`, `.class`, `#id`, `*`, `:pseudo`.
pub open spec fn simple_text(x: SimpleSel) -> Seq<char> {
    match x {
        SimpleSel::Tag(n) => n,
        SimpleSel::Class(n) => "."@ + n,
        SimpleSel::Id(n) => "#"@ + n,
        SimpleSel::Universal => "*"@,
        SimpleSel::PseudoClass(n) => ":"@ + n,
    }
}

/// A compound selector written out: its simple selectors run together.
pub open spec fn compound_text(c: Seq<SimpleSel>) -> Seq<char>
    decreases c.len(),
{
    if c.len() == 0 {
        Seq::empty()
    } else {
        compound_text(c.drop_last()) + simple_text(c.last())
    }
}

/// A selector's parts written out, separated by single spaces.
pub open spec fn selector_text(parts: Seq<Seq<SimpleSel>>) -> Seq<char>
    decreases parts.len(),
{
    if parts.len() == 0 {
        Seq::empty()
    } else if parts.len() == 1 {
        compound_text(parts[0])
    } else {
        selector_text(parts.drop_last()) + " "@ + compound_text(parts.last())
    }
}

/// Write a selector's parts out as CSS text, e.g. `div.main p:hover`.
pub fn format_selector(selector: &Selector) -> (res: String)
    ensures
        res@ == selector_text(selector@.1),
{
    let ghost parts = selector@.1;
    let mut out: Vec<char> = Vec::new();
    let mut i: usize = 0;
    while i < selector.parts.len()
        invariant
            i <= parts.len(),
            parts == parts_view(selector.parts@),
            out@ == selector_text(parts.take(i as int)),
        decreases parts.len() - i,
    {
        let ghost before = out@;
        if i > 0 {
            extend_str(&mut out, " ");
        }
        let compound = &selector.parts[i];
        let ghost c = sels_view(compound@);
        let ghost base = out@;
        let mut k: usize = 0;
        while k < compound.len()
            invariant
                k <= c.len(),
                c == sels_view(compound@),
                out@ == base + compound_text(c.take(k as int)),
            decreases c.len() - k,
        {
            let ghost mid = out@;
            match &compound[k] {
                SimpleSelector::Tag(n) => extend_str(&mut out, n.as_str()),
                SimpleSelector::Class(n) => {
                    extend_str(&mut out, ".");
                    extend_str(&mut out, n.as_str());
                },
                SimpleSelector::Id(n) => {
                    extend_str(&mut out, "#");
                    extend_str(&mut out, n.as_str());
                },
                SimpleSelector::Universal => extend_str(&mut out, "*"),
                SimpleSelector::PseudoClass(n) => {
                    extend_str(&mut out, ":");
                    extend_str(&mut out, n.as_str());
                },
            }
            assert(out@ =~= mid + simple_text(c[k as int]));
            assert(c.take(k as int + 1).drop_last() =~= c.take(k as int));
            k += 1;
            assert(out@ =~= base + compound_text(c.take(k as int)));
        }
        assert(c.take(c.len() as int) =~= c);
        assert(parts.take(i as int + 1).drop_last() =~= parts.take(i as int));
        assert(parts[i as int] == c);
        i += 1;
        assert(out@ =~= selector_text(parts.take(i as int)));
    }
    assert(parts.take(parts.len() as int) =~= parts);
    string_from_chars(out.as_slice())
}

} // verus!
