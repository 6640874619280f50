//! Style resolution pieces that work on parsed stylesheets: selector
//! specificity, cascade origins, the user-agent display defaults, and the
//! parsing of inline `style` attributes and `!important` values; selector
//! matching and the rule index in `matching`, the cascade in `cascade`.
#![verifier::loop_isolation(false)]

use vstd::prelude::*;

use vstd::string::StrSliceExecFns;

use crate::css_parser::{parts_view, sels_view, Selector, SimpleSel, SimpleSelector};
use crate::text::{
    chars_eq, chars_of, find_char, index_of, is_one_of, lemma_index_of, lead_ws_exec, lower, lower_chars, slice_chars,
    string_from_chars, trail_start_exec, trim, trim_chars, trim_start,
};

pub mod cascade;
pub mod matching;

verus! {

broadcast use vstd::seq_lib::group_seq_properties;

// ─── Specificity ─────────────────────────────────────────────────

/// How a simple selector counts toward specificity: (ids, classes and
/// pseudo-classes, tags); `*` counts for nothing.
pub open spec fn simple_weight(x: SimpleSel) -> (nat, nat, nat) {
    match x {
        SimpleSel::Id(_) => (1, 0, 0),
        SimpleSel::Class(_) => (0, 1, 0),
        SimpleSel::PseudoClass(_) => (0, 1, 0),
        SimpleSel::Tag(_) => (0, 0, 1),
        SimpleSel::Universal => (0, 0, 0),
    }
}

/// The summed weights of a compound selector.
pub open spec fn compound_weight(c: Seq<SimpleSel>) -> (nat, nat, nat)
    decreases c.len(),
{
    if c.len() == 0 {
        (0, 0, 0)
    } else {
        let a = compound_weight(c.drop_last());
        let b = simple_weight(c.last());
        (a.0 + b.0, a.1 + b.1, a.2 + b.2)
    }
}

/// The specificity of a selector's parts: the summed weights of all their
/// simple selectors, as (ids, classes, tags).
pub open spec fn specificity(parts: Seq<Seq<SimpleSel>>) -> (nat, nat, nat)
    decreases parts.len(),
{
    if parts.len() == 0 {
        (0, 0, 0)
    } else {
        let a = specificity(parts.drop_last());
        let b = compound_weight(parts.last());
        (a.0 + b.0, a.1 + b.1, a.2 + b.2)
    }
}

pub proof fn lemma_compound_weight_prefix(c: Seq<SimpleSel>, i: int)
    requires
        0 <= i <= c.len(),
    ensures
        compound_weight(c.take(i)).0 <= compound_weight(c).0,
        compound_weight(c.take(i)).1 <= compound_weight(c).1,
        compound_weight(c.take(i)).2 <= compound_weight(c).2,
    decreases c.len() - i,
{
    if i < c.len() {
        lemma_compound_weight_prefix(c, i + 1);
        assert(c.take(i + 1).drop_last() =~= c.take(i));
    } else {
        assert(c.take(i) =~= c);
    }
}

pub proof fn lemma_specificity_prefix(parts: Seq<Seq<SimpleSel>>, i: int)
    requires
        0 <= i <= parts.len(),
    ensures
        specificity(parts.take(i)).0 <= specificity(parts).0,
        specificity(parts.take(i)).1 <= specificity(parts).1,
        specificity(parts.take(i)).2 <= specificity(parts).2,
    decreases parts.len() - i,
{
    if i < parts.len() {
        lemma_specificity_prefix(parts, i + 1);
        assert(parts.take(i + 1).drop_last() =~= parts.take(i));
    } else {
        assert(parts.take(i) =~= parts);
    }
}

/// The specificity of a selector as `(ids, classes, tags)`, counted over
/// its parts: ids; classes and pseudo-classes; tags. `*` adds nothing.
pub fn compute_specificity(selector: &Selector) -> (res: (u32, u32, u32))
    requires
        specificity(selector@.1).0 <= u32::MAX,
        specificity(selector@.1).1 <= u32::MAX,
        specificity(selector@.1).2 <= u32::MAX,
    ensures
        (res.0 as nat, res.1 as nat, res.2 as nat) == specificity(selector@.1),
{
    let ghost all = selector@.1;
    let mut ids: u32 = 0;
    let mut classes: u32 = 0;
    let mut tags: u32 = 0;
    let mut i: usize = 0;
    while i < selector.parts.len()
        invariant
            i <= all.len(),
            all == parts_view(selector.parts@),
            (ids as nat, classes as nat, tags as nat) == specificity(all.take(i as int)),
        decreases all.len() - i,
    {
        let compound = &selector.parts[i];
        let ghost c = sels_view(compound@);
        proof {
            lemma_specificity_prefix(all, i as int + 1);
            assert(all.take(i as int + 1).drop_last() =~= all.take(i as int));
            assert(all.take(i as int + 1).last() == c);
        }
        let ghost base = (ids as nat, classes as nat, tags as nat);
        let mut k: usize = 0;
        while k < compound.len()
            invariant
                k <= c.len(),
                c == sels_view(compound@),
                ids as nat == base.0 + compound_weight(c.take(k as int)).0,
                classes as nat == base.1 + compound_weight(c.take(k as int)).1,
                tags as nat == base.2 + compound_weight(c.take(k as int)).2,
                base.0 + compound_weight(c).0 <= u32::MAX,
                base.1 + compound_weight(c).1 <= u32::MAX,
                base.2 + compound_weight(c).2 <= u32::MAX,
            decreases c.len() - k,
        {
            proof {
                lemma_compound_weight_prefix(c, k as int + 1);
                assert(c.take(k as int + 1).drop_last() =~= c.take(k as int));
            }
            match &compound[k] {
                SimpleSelector::Id(_) => ids += 1,
                SimpleSelector::Class(_) | SimpleSelector::PseudoClass(_) => classes += 1,
                SimpleSelector::Tag(_) => tags += 1,
                SimpleSelector::Universal => {},
            }
            k += 1;
        }
        assert(c.take(c.len() as int) =~= c);
        i += 1;
    }
    assert(all.take(all.len() as int) =~= all);
    (ids, classes, tags)
}

// ─── Cascade origins ─────────────────────────────────────────────

/// Where a declaration comes from; an inline `style` attribute ranks above
/// stylesheet rules.
#[derive(Debug, Clone, Copy, PartialEq, Eq, PartialOrd, Ord, Structural)]
pub enum Origin {
    /// A stylesheet rule.
    Author,
    /// An inline `style` attribute.
    Inline,
}

// ─── User-agent display defaults ─────────────────────────────────

/// The tags the user-agent stylesheet displays as blocks.
pub open spec fn block_tags() -> Seq<Seq<char>> {
    seq![
        "html"@, "body"@, "div"@, "p"@, "h1"@, "h2"@, "h3"@, "h4"@, "h5"@, "h6"@, "header"@,
        "footer"@, "section"@, "article"@, "nav"@, "main"@, "aside"@, "ul"@, "ol"@, "li"@, "dl"@,
        "dt"@, "dd"@, "blockquote"@, "pre"@, "figure"@, "figcaption"@, "details"@, "summary"@,
        "address"@, "fieldset"@, "legend"@, "table"@, "thead"@, "tbody"@, "tfoot"@, "tr"@,
        "caption"@, "form"@, "hr"@,
    ]
}

/// The tags the user-agent stylesheet displays as inline blocks.
pub open spec fn inline_block_tags() -> Seq<Seq<char>> {
    seq![
        "img"@, "input"@, "button"@, "select"@, "textarea"@, "video"@, "audio"@, "canvas"@,
        "iframe"@, "embed"@, "object"@,
    ]
}

/// The user-agent stylesheet displays the document structure, sections,
/// headings, paragraphs, lists, quotations, figures, tables, forms and rules
/// as blocks: each of these tags, in any ASCII case, is a default block tag.
pub proof fn lemma_standard_block_tags()
    ensures
        block_tags().contains("html"@),
        block_tags().contains("body"@),
        block_tags().contains("div"@),
        block_tags().contains("p"@),
        block_tags().contains("h1"@),
        block_tags().contains("h2"@),
        block_tags().contains("h3"@),
        block_tags().contains("h4"@),
        block_tags().contains("h5"@),
        block_tags().contains("h6"@),
        block_tags().contains("header"@),
        block_tags().contains("footer"@),
        block_tags().contains("section"@),
        block_tags().contains("article"@),
        block_tags().contains("nav"@),
        block_tags().contains("main"@),
        block_tags().contains("aside"@),
        block_tags().contains("ul"@),
        block_tags().contains("ol"@),
        block_tags().contains("li"@),
        block_tags().contains("dl"@),
        block_tags().contains("dt"@),
        block_tags().contains("dd"@),
        block_tags().contains("blockquote"@),
        block_tags().contains("pre"@),
        block_tags().contains("figure"@),
        block_tags().contains("figcaption"@),
        block_tags().contains("details"@),
        block_tags().contains("summary"@),
        block_tags().contains("address"@),
        block_tags().contains("fieldset"@),
        block_tags().contains("legend"@),
        block_tags().contains("table"@),
        block_tags().contains("thead"@),
        block_tags().contains("tbody"@),
        block_tags().contains("tfoot"@),
        block_tags().contains("tr"@),
        block_tags().contains("caption"@),
        block_tags().contains("form"@),
        block_tags().contains("hr"@),
{
    assert(block_tags()[0] == "html"@);
    assert(block_tags()[1] == "body"@);
    assert(block_tags()[2] == "div"@);
    assert(block_tags()[3] == "p"@);
    assert(block_tags()[4] == "h1"@);
    assert(block_tags()[5] == "h2"@);
    assert(block_tags()[6] == "h3"@);
    assert(block_tags()[7] == "h4"@);
    assert(block_tags()[8] == "h5"@);
    assert(block_tags()[9] == "h6"@);
    assert(block_tags()[10] == "header"@);
    assert(block_tags()[11] == "footer"@);
    assert(block_tags()[12] == "section"@);
    assert(block_tags()[13] == "article"@);
    assert(block_tags()[14] == "nav"@);
    assert(block_tags()[15] == "main"@);
    assert(block_tags()[16] == "aside"@);
    assert(block_tags()[17] == "ul"@);
    assert(block_tags()[18] == "ol"@);
    assert(block_tags()[19] == "li"@);
    assert(block_tags()[20] == "dl"@);
    assert(block_tags()[21] == "dt"@);
    assert(block_tags()[22] == "dd"@);
    assert(block_tags()[23] == "blockquote"@);
    assert(block_tags()[24] == "pre"@);
    assert(block_tags()[25] == "figure"@);
    assert(block_tags()[26] == "figcaption"@);
    assert(block_tags()[27] == "details"@);
    assert(block_tags()[28] == "summary"@);
    assert(block_tags()[29] == "address"@);
    assert(block_tags()[30] == "fieldset"@);
    assert(block_tags()[31] == "legend"@);
    assert(block_tags()[32] == "table"@);
    assert(block_tags()[33] == "thead"@);
    assert(block_tags()[34] == "tbody"@);
    assert(block_tags()[35] == "tfoot"@);
    assert(block_tags()[36] == "tr"@);
    assert(block_tags()[37] == "caption"@);
    assert(block_tags()[38] == "form"@);
    assert(block_tags()[39] == "hr"@);
}

/// The user-agent stylesheet displays images, form controls, media and
/// embedded content as inline blocks.
pub proof fn lemma_standard_inline_block_tags()
    ensures
        inline_block_tags().contains("img"@),
        inline_block_tags().contains("input"@),
        inline_block_tags().contains("button"@),
        inline_block_tags().contains("select"@),
        inline_block_tags().contains("textarea"@),
        inline_block_tags().contains("video"@),
        inline_block_tags().contains("audio"@),
        inline_block_tags().contains("canvas"@),
        inline_block_tags().contains("iframe"@),
        inline_block_tags().contains("embed"@),
        inline_block_tags().contains("object"@),
{
    assert(inline_block_tags()[0] == "img"@);
    assert(inline_block_tags()[1] == "input"@);
    assert(inline_block_tags()[2] == "button"@);
    assert(inline_block_tags()[3] == "select"@);
    assert(inline_block_tags()[4] == "textarea"@);
    assert(inline_block_tags()[5] == "video"@);
    assert(inline_block_tags()[6] == "audio"@);
    assert(inline_block_tags()[7] == "canvas"@);
    assert(inline_block_tags()[8] == "iframe"@);
    assert(inline_block_tags()[9] == "embed"@);
    assert(inline_block_tags()[10] == "object"@);
}

/// Whether a tag (in any ASCII case) is displayed as a block by default.
pub fn is_default_block_tag(tag: &str) -> (res: bool)
    ensures
        res == block_tags().contains(lower(tag@)),
{
    let names = vec![
        "html", "body", "div", "p", "h1", "h2", "h3", "h4", "h5", "h6", "header", "footer",
        "section", "article", "nav", "main", "aside", "ul", "ol", "li", "dl", "dt", "dd",
        "blockquote", "pre", "figure", "figcaption", "details", "summary", "address", "fieldset",
        "legend", "table", "thead", "tbody", "tfoot", "tr", "caption", "form", "hr",
    ];
    assert(names@.map_values(|x: &str| x@) =~= block_tags());
    let lowered = lower_chars(chars_of(tag).as_slice());
    is_one_of(&lowered, &names)
}

/// Whether a tag (in any ASCII case) is displayed as an inline block by
/// default.
pub fn is_default_inline_block_tag(tag: &str) -> (res: bool)
    ensures
        res == inline_block_tags().contains(lower(tag@)),
{
    let names = vec![
        "img", "input", "button", "select", "textarea", "video", "audio", "canvas", "iframe",
        "embed", "object",
    ];
    assert(names@.map_values(|x: &str| x@) =~= inline_block_tags());
    let lowered = lower_chars(chars_of(tag).as_slice());
    is_one_of(&lowered, &names)
}

// ─── `!important` ────────────────────────────────────────────────

/// Whether `s` ends with `p`.
pub open spec fn ends_with(s: Seq<char>, p: Seq<char>) -> bool {
    p.len() <= s.len() && s.skip(s.len() - p.len()) == p
}

/// A value without its `!important` annotation (also written with spaces
/// around the `!`), trimmed, and whether it had one.
pub open spec fn spec_strip_important(value: Seq<char>) -> (Seq<char>, bool) {
    let t = trim(value);
    if ends_with(t, "!important"@) {
        (trim(t.take(t.len() - 10)), true)
    } else if ends_with(t, "important"@) {
        let w = trim(t.take(t.len() - 9));
        if ends_with(w, "!"@) {
            (trim(w.take(w.len() - 1)), true)
        } else {
            (t, false)
        }
    } else {
        (t, false)
    }
}

fn ends_with_exec(s: &Vec<char>, p: &str) -> (res: bool)
    ensures
        res == ends_with(s@, p@),
{
    let pat = chars_of(p);
    if pat.len() > s.len() {
        return false;
    }
    let tail = slice_chars(s.as_slice(), s.len() - pat.len(), s.len());
    assert(tail@ =~= s@.skip(s@.len() - pat@.len()));
    chars_eq(tail.as_slice(), pat.as_slice())
}

/// Strip an `!important` annotation from a value: the trimmed value
/// without it, and whether it was there.
pub fn strip_important(value: &str) -> (res: (String, bool))
    ensures
        (res.0@, res.1) == spec_strip_important(value@),
{
    proof {
        reveal_strlit("!important");
        reveal_strlit("important");
        reveal_strlit("!");
    }
    let t = trim_chars(chars_of(value).as_slice());
    if ends_with_exec(&t, "!important") {
        let head = slice_chars(t.as_slice(), 0, t.len() - 10);
        assert(head@ =~= t@.take(t@.len() - 10));
        let out = trim_chars(head.as_slice());
        return (string_from_chars(out.as_slice()), true);
    }
    if ends_with_exec(&t, "important") {
        let head = slice_chars(t.as_slice(), 0, t.len() - 9);
        assert(head@ =~= t@.take(t@.len() - 9));
        let w = trim_chars(head.as_slice());
        if ends_with_exec(&w, "!") {
            let inner = slice_chars(w.as_slice(), 0, w.len() - 1);
            assert(inner@ =~= w@.take(w@.len() - 1));
            let out = trim_chars(inner.as_slice());
            return (string_from_chars(out.as_slice()), true);
        }
    }
    (string_from_chars(t.as_slice()), false)
}

// ─── Inline `style` attributes ───────────────────────────────────

/// The declaration in one `;`-separated piece of a `style` attribute:
/// `property: value`, the property trimmed and ASCII-lowercased, the value
/// trimmed; none when the piece is blank, has no `:`, or either side is
/// empty.
#[verifier::opaque]
pub open spec fn piece_decl(piece: Seq<char>) -> Option<(Seq<char>, Seq<char>)> {
    let d = trim(piece);
    if d.len() == 0 {
        None
    } else {
        match index_of(d, ':') {
            None => None,
            Some(i) => {
                let property = lower(trim(d.take(i)));
                let value = trim(d.skip(i + 1));
                if property.len() > 0 && value.len() > 0 {
                    Some((property, value))
                } else {
                    None
                }
            },
        }
    }
}

/// The declarations of a `style` attribute: those of its `;`-separated
/// pieces, in order.
pub open spec fn spec_inline_style(s: Seq<char>) -> Seq<(Seq<char>, Seq<char>)>
    decreases s.len(),
{
    proof {
        lemma_index_of(s, ';');
    }
    match index_of(s, ';') {
        Some(i) => piece_decls(s.take(i)) + spec_inline_style(s.skip(i + 1)),
        None => piece_decls(s),
    }
}

/// The declaration of one piece, as a sequence of at most one.
pub open spec fn piece_decls(piece: Seq<char>) -> Seq<(Seq<char>, Seq<char>)> {
    match piece_decl(piece) {
        Some(d) => seq![d],
        None => Seq::empty(),
    }
}

proof fn lemma_inline_style_step(s: Seq<char>)
    ensures
        match index_of(s, ';') {
            Some(i) => 0 <= i < s.len() && spec_inline_style(s) == piece_decls(s.take(i))
                + spec_inline_style(s.skip(i + 1)),
            None => spec_inline_style(s) == piece_decls(s),
        },
{
    lemma_index_of(s, ';');
}

/// The views of parsed inline declarations.
pub open spec fn pairs_view(v: Seq<(String, String)>) -> Seq<(Seq<char>, Seq<char>)> {
    v.map_values(|d: (String, String)| (d.0@, d.1@))
}

/// The declaration in one piece of a `style` attribute, if any.
fn piece_decl_exec(piece: &[char]) -> (res: Option<(String, String)>)
    ensures
        match res {
            Some((p, v)) => piece_decl(piece@) == Some((p@, v@)),
            None => piece_decl(piece@) is None,
        },
{
    reveal(piece_decl);
    let d = trim_chars(piece);
    if d.len() == 0 {
        return None;
    }
    match find_char(d.as_slice(), ':') {
        None => None,
        Some(i) => {
            let before = slice_chars(d.as_slice(), 0, i);
            assert(before@ =~= d@.take(i as int));
            let after = slice_chars(d.as_slice(), i + 1, d.len());
            assert(after@ =~= d@.skip(i + 1));
            let property = lower_chars(trim_chars(before.as_slice()).as_slice());
            let value = trim_chars(after.as_slice());
            if property.len() > 0 && value.len() > 0 {
                Some((string_from_chars(property.as_slice()), string_from_chars(value.as_slice())))
            } else {
                None
            }
        },
    }
}

/// The declarations of an inline `style` attribute value, split at `;`
/// (a `;` inside a value also splits it).
#[verifier::spinoff_prover]
#[verifier::rlimit(50)]
pub fn parse_inline_style(style_str: &str) -> (res: Vec<(String, String)>)
    ensures
        pairs_view(res@) == spec_inline_style(style_str@),
{
    let mut out: Vec<(String, String)> = Vec::new();
    let mut rest = chars_of(style_str);
    let ghost all = style_str@;
    assert(pairs_view(out@) + spec_inline_style(rest@) =~= spec_inline_style(all));
    loop
        invariant
            pairs_view(out@) + spec_inline_style(rest@) == spec_inline_style(all),
        decreases rest@.len(),
    {
        let ghost prev = pairs_view(out@);
        let ghost r = rest@;
        proof {
            lemma_inline_style_step(r);
        }
        let (piece, next) = split_first_piece(&rest);
        let decl = piece_decl_exec(piece.as_slice());
        match decl {
            Some(d) => {
                out.push(d);
            },
            None => {},
        }
        assert(pairs_view(out@) =~= prev + piece_decls(piece@));
        match next {
            Some(n) => {
                assert(pairs_view(out@) + spec_inline_style(n@) =~= prev + spec_inline_style(r));
                rest = n;
            },
            None => {
                return out;
            },
        }
    }
}

/// The text of `s` up to its first `;`, and the text after that `;` when
/// there is one.
fn split_first_piece(s: &Vec<char>) -> (res: (Vec<char>, Option<Vec<char>>))
    ensures
        match index_of(s@, ';') {
            Some(i) => res.0@ == s@.take(i) && (res.1 matches Some(n) && n@ == s@.skip(i + 1)),
            None => res.0@ == s@ && res.1 is None,
        },
{
    let n = s.len();
    match find_char(s.as_slice(), ';') {
        Some(k) => {
            let piece = slice_chars(s.as_slice(), 0, k);
            let next = slice_chars(s.as_slice(), k + 1, n);
            assert(piece@ =~= s@.take(k as int));
            assert(next@ =~= s@.skip(k + 1));
            (piece, Some(next))
        },
        None => {
            let piece = slice_chars(s.as_slice(), 0, s.len());
            assert(piece@ =~= s@);
            (piece, None)
        },
    }
}

// ─── `var()` arguments ───────────────────────────────────────────

/// The position of the first `,` outside parentheses, scanning from `i`
/// with `depth` parentheses open; a `)` without its `(` makes the depth
/// negative.
pub open spec fn top_level_comma(s: Seq<char>, i: int, depth: int) -> Option<int>
    decreases s.len() - i,
{
    if i < 0 || i >= s.len() {
        None
    } else if s[i] == '(' {
        top_level_comma(s, i + 1, depth + 1)
    } else if s[i] == ')' {
        top_level_comma(s, i + 1, depth - 1)
    } else if s[i] == ',' && depth == 0 {
        Some(i)
    } else {
        top_level_comma(s, i + 1, depth)
    }
}

/// The variable name and optional fallback of a `var()` call's contents:
/// split at the first top-level `,`, both sides trimmed.
pub open spec fn spec_split_var_args(inner: Seq<char>) -> (Seq<char>, Option<Seq<char>>) {
    match top_level_comma(inner, 0, 0) {
        Some(i) => (trim(inner.take(i)), Some(trim(inner.skip(i + 1)))),
        None => (trim(inner), None),
    }
}

/// Split the contents of a `var()` call into the variable name and the
/// fallback, if any, at the first `,` outside parentheses.
pub fn split_var_args(inner: &str) -> (res: (&str, Option<String>))
    requires
        inner@.len() <= i64::MAX,
    ensures
        (res.0@, match res.1 {
            Some(f) => Some(f@),
            None => None,
        }) == spec_split_var_args(inner@),
{
    let cs = chars_of(inner);
    let mut depth: i64 = 0;
    let mut i: usize = 0;
    let mut comma: Option<usize> = None;
    while i < cs.len()
        invariant
            cs@ == inner@,
            i <= cs@.len(),
            -(i as int) <= depth <= i,
            comma is None,
            top_level_comma(cs@, i as int, depth as int) == top_level_comma(cs@, 0, 0),
        decreases cs@.len() - i,
    {
        let c = cs[i];
        if c == '(' {
            depth += 1;
        } else if c == ')' {
            depth -= 1;
        } else if c == ',' && depth == 0 {
            comma = Some(i);
            break;
        }
        i += 1;
    }
    let end = match comma {
        Some(k) => k,
        None => cs.len(),
    };
    let prefix = slice_chars(cs.as_slice(), 0, end);
    let a = lead_ws_exec(prefix.as_slice());
    let rest = slice_chars(prefix.as_slice(), a, prefix.len());
    assert(rest@ == trim_start(prefix@));
    let b = trail_start_exec(rest.as_slice());
    let name = inner.substring_char(a, a + b);
    assert(name@ =~= trim(prefix@));
    match comma {
        Some(k) => {
            let after = slice_chars(cs.as_slice(), k + 1, cs.len());
            assert(after@ =~= cs@.skip(k + 1));
            let fallback = trim_chars(after.as_slice());
            assert(prefix@ =~= cs@.take(k as int));
            (name, Some(string_from_chars(fallback.as_slice())))
        },
        None => {
            assert(prefix@ =~= cs@);
            (name, None)
        },
    }
}

} // verus!
