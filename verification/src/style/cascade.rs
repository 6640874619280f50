//! The cascade: the declarations that apply to an element, ranked by
//! `!important`, origin, specificity and source order, and the winner for
//! each property.
#![verifier::loop_isolation(false)]

use vstd::prelude::*;

use crate::css_parser::{decls_view, rules_view, selectors_view, DeclView, RuleView, SelectorView, StyleRule};
use crate::dom::{attr_lookup, node_ranges_ok, node_tag, Dom, Node, NodeId, NodeKind};
use crate::style::matching::{candidate_stream, dedup, index_entries, is_element, selector_matches, spec_selector_matches, RuleIndex};
use crate::style::{
    compute_specificity, pairs_view, parse_inline_style, spec_inline_style, spec_strip_important, specificity,
    strip_important, Origin,
};
use crate::text::{chars_of, lower, owned, split_words, str_eq, string_from_chars, to_ascii_lowercase, words};

verus! {

// ─── Cascade ─────────────────────────────────────────────────────

/// A declaration that applies to an element, with what ranks it in the
/// cascade.
#[derive(Debug)]
pub struct MatchedDeclaration {
    pub property: String,
    pub value: String,
    pub specificity: (u32, u32, u32),
    pub source_order: usize,
    pub origin: Origin,
    pub important: bool,
}

/// The rank of an origin: stylesheet rules below inline styles.
pub open spec fn origin_rank(o: Origin) -> int {
    match o {
        Origin::Author => 0,
        Origin::Inline => 1,
    }
}

/// Declaration `a` ranks strictly below `b`: compared by `!important`
/// (normal below important), then origin, then specificity (ids, then
/// classes, then tags), then position in the source.
#[verifier::opaque]
pub open spec fn ranks_below(a: MatchedDeclaration, b: MatchedDeclaration) -> bool {
    if a.important != b.important {
        !a.important
    } else if a.origin != b.origin {
        origin_rank(a.origin) < origin_rank(b.origin)
    } else if a.specificity.0 != b.specificity.0 {
        a.specificity.0 < b.specificity.0
    } else if a.specificity.1 != b.specificity.1 {
        a.specificity.1 < b.specificity.1
    } else if a.specificity.2 != b.specificity.2 {
        a.specificity.2 < b.specificity.2
    } else {
        a.source_order < b.source_order
    }
}

/// `a` and `b` rank the same.
#[verifier::opaque]
pub open spec fn ranks_same(a: MatchedDeclaration, b: MatchedDeclaration) -> bool {
    &&& a.important == b.important
    &&& a.origin == b.origin
    &&& a.specificity == b.specificity
    &&& a.source_order == b.source_order
}

/// Declaration `i` wins the cascade for its property: every declaration of
/// that property ranks below it, or ranks the same and comes no later.
pub open spec fn wins(d: Seq<MatchedDeclaration>, i: int) -> bool {
    &&& 0 <= i < d.len()
    &&& forall|j: int|
        0 <= j < d.len() && (#[trigger] d[j]).property@ == d[i as int].property@ ==> ranks_below(d[j], d[i]) || (
        ranks_same(d[j], d[i]) && j <= i)
}

proof fn lemma_rank_order(a: MatchedDeclaration, b: MatchedDeclaration, c: MatchedDeclaration)
    ensures
        ranks_below(a, b) && ranks_below(b, c) ==> ranks_below(a, c),
        ranks_below(a, b) && ranks_same(b, c) ==> ranks_below(a, c),
        ranks_same(a, b) && ranks_below(b, c) ==> ranks_below(a, c),
        ranks_same(a, b) && ranks_same(b, c) ==> ranks_same(a, c),
        !ranks_below(a, b) ==> ranks_below(b, a) || ranks_same(a, b),
        ranks_below(a, b) ==> !ranks_same(a, b) && !ranks_below(b, a),
        ranks_same(a, a),
        ranks_same(a, b) ==> ranks_same(b, a),
{
    reveal(ranks_below);
    reveal(ranks_same);
}

fn ranks_below_exec(a: &MatchedDeclaration, b: &MatchedDeclaration) -> (res: bool)
    ensures
        res == ranks_below(*a, *b),
{
    proof {
        reveal(ranks_below);
    }
    let ra: u8 = match a.origin {
        Origin::Author => 0,
        Origin::Inline => 1,
    };
    let rb: u8 = match b.origin {
        Origin::Author => 0,
        Origin::Inline => 1,
    };
    if a.important != b.important {
        !a.important
    } else if ra != rb {
        ra < rb
    } else if a.specificity.0 != b.specificity.0 {
        a.specificity.0 < b.specificity.0
    } else if a.specificity.1 != b.specificity.1 {
        a.specificity.1 < b.specificity.1
    } else if a.specificity.2 != b.specificity.2 {
        a.specificity.2 < b.specificity.2
    } else {
        a.source_order < b.source_order
    }
}

/// The cascade's order: a declaration does not win when another of its
/// property is `!important` and it is not; or, with the same importance,
/// comes from an inline `style` while it comes from a stylesheet; or, with
/// the same importance and origin, has a higher specificity.
pub proof fn lemma_cascade_order(d: Seq<MatchedDeclaration>, i: int, j: int)
    requires
        0 <= i < d.len(),
        0 <= j < d.len(),
        d[i].property@ == d[j].property@,
        (d[j].important && !d[i].important) || (d[j].important == d[i].important && origin_rank(d[i].origin)
            < origin_rank(d[j].origin)) || (d[j].important == d[i].important && d[j].origin == d[i].origin
            && specificity_below(
            (d[i].specificity.0 as nat, d[i].specificity.1 as nat, d[i].specificity.2 as nat),
            (d[j].specificity.0 as nat, d[j].specificity.1 as nat, d[j].specificity.2 as nat),
        )),
    ensures
        !wins(d, i),
{
    reveal(ranks_below);
    reveal(ranks_same);
    assert(ranks_below(d[i], d[j]));
    lemma_rank_order(d[i], d[j], d[j]);
}

/// Between two declarations of one property with the same importance,
/// origin and specificity, the one later in the source wins: the earlier
/// one never wins the cascade, and the pair that `cascade_winners` gives
/// for the property is not the earlier one's unless the later one says the
/// same.
pub proof fn lemma_later_source_wins(d: Seq<MatchedDeclaration>, i: int, j: int)
    requires
        0 <= i < d.len(),
        0 <= j < d.len(),
        d[i].property@ == d[j].property@,
        d[i].important == d[j].important,
        d[i].origin == d[j].origin,
        d[i].specificity == d[j].specificity,
        d[i].source_order < d[j].source_order,
    ensures
        !wins(d, i),
        forall|w: int| wins(d, w) && d[w].property@ == d[i].property@ ==> w != i && !ranks_below(d[w], d[j]),
{
    reveal(ranks_below);
    reveal(ranks_same);
    assert(ranks_below(d[i], d[j]));
    lemma_rank_order(d[i], d[j], d[j]);
    assert forall|w: int| wins(d, w) && d[w].property@ == d[i].property@ implies w != i && !ranks_below(
        d[w],
        d[j],
    ) by {
        assert(d[j].property@ == d[w].property@);
        assert(ranks_below(d[j], d[w]) || (ranks_same(d[j], d[w]) && j <= w));
        lemma_rank_order(d[w], d[j], d[w]);
        lemma_rank_order(d[j], d[w], d[j]);
    }
}

/// A declaration with a lower specificity never wins over one of the same
/// property, importance and origin with a higher specificity, wherever the
/// two stand in the source.
pub proof fn lemma_higher_specificity_wins(d: Seq<MatchedDeclaration>, i: int, j: int)
    requires
        0 <= i < d.len(),
        0 <= j < d.len(),
        d[i].property@ == d[j].property@,
        d[i].important == d[j].important,
        d[i].origin == d[j].origin,
        specificity_below(
            (d[i].specificity.0 as nat, d[i].specificity.1 as nat, d[i].specificity.2 as nat),
            (d[j].specificity.0 as nat, d[j].specificity.1 as nat, d[j].specificity.2 as nat),
        ),
    ensures
        !wins(d, i),
{
    lemma_cascade_order(d, i, j);
}

/// Declaration `j` ranks no higher than declaration `w`: below it, or the
/// same and no later.
pub open spec fn rank_le(d: Seq<MatchedDeclaration>, j: int, w: int) -> bool {
    ranks_below(d[j], d[w]) || (ranks_same(d[j], d[w]) && j <= w)
}

/// The property of declaration `j` has a declaration in `ws`.
pub open spec fn covered(d: Seq<MatchedDeclaration>, ws: Seq<usize>, j: int) -> bool {
    exists|t: int| 0 <= t < ws.len() && d[ws[t] as int].property@ == d[j].property@
}

/// After the first `i` declarations, `ws` holds one declaration per
/// property seen, the one that wins among them.
pub open spec fn winners_so_far(d: Seq<MatchedDeclaration>, ws: Seq<usize>, i: int) -> bool {
    &&& forall|t: int| 0 <= t < ws.len() ==> (#[trigger] ws[t]) < i
    &&& forall|t: int, j: int|
        0 <= t < ws.len() && 0 <= j < i && d[j].property@ == d[ws[t] as int].property@ ==> #[trigger] rank_le(
            d,
            j,
            ws[t] as int,
        )
    &&& forall|j: int| 0 <= j < i ==> #[trigger] covered(d, ws, j)
    &&& forall|a: int, b: int|
        0 <= a < b < ws.len() ==> d[(#[trigger] ws[a]) as int].property@ != d[(#[trigger] ws[b]) as int].property@
}

/// Declaration `i` ranks no lower than the winner of its property: it
/// takes that winner's place.
proof fn lemma_new_winner(d: Seq<MatchedDeclaration>, ws: Seq<usize>, i: usize, t: int)
    requires
        0 <= i < d.len(),
        winners_so_far(d, ws, i as int),
        0 <= t < ws.len(),
        d[ws[t] as int].property@ == d[i as int].property@,
        !ranks_below(d[i as int], d[ws[t] as int]),
    ensures
        winners_so_far(d, ws.update(t, i), i + 1),
{
    let u = ws.update(t, i);
    let w = ws[t] as int;
    assert forall|q: int, j: int|
        0 <= q < u.len() && 0 <= j < i + 1 && (#[trigger] d[j]).property@ == d[#[trigger] u[q] as int].property@
            implies rank_le(d, j, u[q] as int) by {
        if q == t {
            assert(u[t] == i);
            if j < i {
                assert(rank_le(d, j, w));
                lemma_rank_order(d[j], d[w], d[i as int]);
                lemma_rank_order(d[i as int], d[w], d[w]);
            } else {
                lemma_rank_order(d[j], d[j], d[j]);
            }
        } else {
            assert(u[q] == ws[q]);
            if j == i {
                assert(d[ws[q] as int].property@ != d[ws[t] as int].property@);
            }
        }
    }
    assert forall|j: int| 0 <= j < i + 1 implies #[trigger] covered(d, u, j) by {
        if j == i {
            assert(d[u[t] as int].property@ == d[j].property@);
        } else {
            assert(covered(d, ws, j));
            let q = choose|q: int| 0 <= q < ws.len() && d[ws[q] as int].property@ == d[j].property@;
            if q == t {
                assert(d[u[t] as int].property@ == d[j].property@);
            } else {
                assert(u[q] == ws[q]);
                assert(d[u[q] as int].property@ == d[j].property@);
            }
        }
    }
    assert forall|a: int, b: int| 0 <= a < b < u.len() implies d[(#[trigger] u[a]) as int].property@ != d[(
    #[trigger] u[b]) as int].property@ by {
        assert(d[ws[a] as int].property@ != d[ws[b] as int].property@);
        if a == t {
            assert(u[b] == ws[b]);
        } else if b == t {
            assert(u[a] == ws[a]);
        } else {
            assert(u[a] == ws[a] && u[b] == ws[b]);
        }
    }
}

/// Declaration `i` ranks below the winner of its property, which stays.
proof fn lemma_winner_stays(d: Seq<MatchedDeclaration>, ws: Seq<usize>, i: usize, t: int)
    requires
        0 <= i < d.len(),
        winners_so_far(d, ws, i as int),
        0 <= t < ws.len(),
        d[ws[t] as int].property@ == d[i as int].property@,
        ranks_below(d[i as int], d[ws[t] as int]),
    ensures
        winners_so_far(d, ws, i + 1),
{
    assert forall|q: int, j: int|
        0 <= q < ws.len() && 0 <= j < i + 1 && (#[trigger] d[j]).property@ == d[#[trigger] ws[q] as int].property@
            implies rank_le(d, j, ws[q] as int) by {
        if j == i && q != t {
            assert(d[ws[q] as int].property@ != d[ws[t] as int].property@);
        }
    }
    assert forall|j: int| 0 <= j < i + 1 implies #[trigger] covered(d, ws, j) by {
        if j == i {
            assert(d[ws[t] as int].property@ == d[j].property@);
        }
    }
}

/// Declaration `i` is the first of its property: it becomes its winner.
proof fn lemma_first_of_property(d: Seq<MatchedDeclaration>, ws: Seq<usize>, i: usize)
    requires
        0 <= i < d.len(),
        winners_so_far(d, ws, i as int),
        forall|q: int| 0 <= q < ws.len() ==> d[(#[trigger] ws[q]) as int].property@ != d[i as int].property@,
    ensures
        winners_so_far(d, ws.push(i), i + 1),
{
    let u = ws.push(i);
    assert forall|q: int, j: int|
        0 <= q < u.len() && 0 <= j < i + 1 && (#[trigger] d[j]).property@ == d[#[trigger] u[q] as int].property@
            implies rank_le(d, j, u[q] as int) by {
        if q == ws.len() {
            if j < i {
                assert(covered(d, ws, j));
                let q2 = choose|q2: int| 0 <= q2 < ws.len() && d[ws[q2] as int].property@ == d[j].property@;
                assert(d[ws[q2] as int].property@ != d[i as int].property@);
            } else {
                lemma_rank_order(d[j], d[j], d[j]);
            }
        } else {
            assert(u[q] == ws[q]);
            if j == i {
                assert(d[ws[q] as int].property@ != d[i as int].property@);
            }
        }
    }
    assert forall|j: int| 0 <= j < i + 1 implies #[trigger] covered(d, u, j) by {
        if j == i {
            assert(u[ws.len() as int] == i);
            assert(d[u[ws.len() as int] as int].property@ == d[j].property@);
        } else {
            assert(covered(d, ws, j));
            let q = choose|q: int| 0 <= q < ws.len() && d[ws[q] as int].property@ == d[j].property@;
            assert(u[q] == ws[q]);
            assert(d[u[q] as int].property@ == d[j].property@);
        }
    }
    assert forall|a: int, b: int| 0 <= a < b < u.len() implies d[(#[trigger] u[a]) as int].property@ != d[(
    #[trigger] u[b]) as int].property@ by {
        assert(u[a] == ws[a]);
        if b < ws.len() {
            assert(u[b] == ws[b]);
        }
    }
}

/// The pair is a property and the value of the declaration that wins
/// the cascade for it.
pub open spec fn won_by(d: Seq<MatchedDeclaration>, pair: (String, String)) -> bool {
    exists|i: int| wins(d, i) && pair.0@ == d[i].property@ && pair.1@ == d[i].value@
}

/// Some pair is for property `p`.
pub open spec fn has_entry(pairs: Seq<(String, String)>, p: Seq<char>) -> bool {
    exists|k: int| 0 <= k < pairs.len() && pairs[k].0@ == p
}

/// The winner of each property: for every property declared, one
/// `(property, value)` pair, the value of the declaration that wins the
/// cascade (the highest ranked; among equals the last).
pub fn cascade_winners(decls: &[MatchedDeclaration]) -> (res: Vec<(String, String)>)
    ensures
        forall|k: int| 0 <= k < res@.len() ==> won_by(decls@, #[trigger] res@[k]),
        forall|i: int| 0 <= i < decls@.len() ==> has_entry(res@, (#[trigger] decls@[i]).property@),
        forall|a: int, b: int| 0 <= a < b < res@.len() ==> (#[trigger] res@[a]).0@ != (#[trigger] res@[b]).0@,
{
    let ghost d = decls@;
    let mut winners: Vec<usize> = Vec::new();
    let mut i: usize = 0;
    while i < decls.len()
        invariant
            i <= d.len(),
            d == decls@,
            winners_so_far(d, winners@, i as int),
        decreases d.len() - i,
    {
        let mut found: Option<usize> = None;
        let mut t: usize = 0;
        while t < winners.len()
            invariant
                t <= winners@.len(),
                i < d.len(),
                d == decls@,
                found is None,
                winners_so_far(d, winners@, i as int),
                forall|q: int| 0 <= q < t ==> d[(#[trigger] winners@[q]) as int].property@ != d[i as int].property@,
            decreases winners@.len() - t,
        {
            assert(winners@[t as int] < i);
            if str_eq(decls[winners[t]].property.as_str(), decls[i].property.as_str()) {
                found = Some(t);
                break;
            }
            t += 1;
        }
        match found {
            Some(t) => {
                let w = winners[t];
                assert(w < i);
                if !ranks_below_exec(&decls[i], &decls[w]) {
                    proof {
                        lemma_new_winner(d, winners@, i, t as int);
                    }
                    winners.set(t, i);
                } else {
                    proof {
                        lemma_winner_stays(d, winners@, i, t as int);
                    }
                }
            },
            None => {
                proof {
                    lemma_first_of_property(d, winners@, i);
                }
                winners.push(i);
            },
        }
        i += 1;
    }
    let mut out: Vec<(String, String)> = Vec::new();
    let mut k: usize = 0;
    while k < winners.len()
        invariant
            k <= winners@.len(),
            d == decls@,
            winners_so_far(d, winners@, d.len() as int),
            out@.len() == k,
            forall|t: int|
                0 <= t < k ==> (#[trigger] out@[t]).0@ == d[winners@[t] as int].property@ && out@[t].1@
                    == d[winners@[t] as int].value@,
        decreases winners@.len() - k,
    {
        let w = winners[k];
        assert(w < d.len());
        out.push((owned(decls[w].property.as_str()), owned(decls[w].value.as_str())));
        k += 1;
    }
    proof {
        assert forall|q: int| 0 <= q < out@.len() implies won_by(decls@, #[trigger] out@[q]) by {
            let w = winners@[q] as int;
            assert forall|j: int| 0 <= j < d.len() && (#[trigger] d[j]).property@ == d[w].property@ implies ranks_below(
                d[j],
                d[w],
            ) || (ranks_same(d[j], d[w]) && j <= w) by {
                assert(rank_le(d, j, w));
            }
            assert(wins(decls@, w));
        }
        assert forall|i: int| 0 <= i < decls@.len() implies has_entry(out@, (#[trigger] decls@[i]).property@) by {
            assert(covered(d, winners@, i));
            let q = choose|q: int| 0 <= q < winners@.len() && d[winners@[q] as int].property@ == d[i as int].property@;
            assert(out@[q].0@ == d[i as int].property@);
        }
        assert forall|a: int, b: int| 0 <= a < b < out@.len() implies (#[trigger] out@[a]).0@ != (
        #[trigger] out@[b]).0@ by {
            assert(d[winners@[a] as int].property@ != d[winners@[b] as int].property@);
        }
    }
    out
}

// ─── Collecting the declarations that apply ──────────────────────

/// What a matched declaration holds: property, value, specificity,
/// position in the source, origin and `!important`.
pub type DeclFacts = (Seq<char>, Seq<char>, (nat, nat, nat), int, Origin, bool);

/// The facts of a matched declaration.
pub open spec fn facts(m: MatchedDeclaration) -> DeclFacts {
    (
        m.property@,
        m.value@,
        (m.specificity.0 as nat, m.specificity.1 as nat, m.specificity.2 as nat),
        m.source_order as int,
        m.origin,
        m.important,
    )
}

/// Specificity `a` is below `b`: ids, then classes, then tags.
pub open spec fn specificity_below(a: (nat, nat, nat), b: (nat, nat, nat)) -> bool {
    a.0 < b.0 || (a.0 == b.0 && (a.1 < b.1 || (a.1 == b.1 && a.2 < b.2)))
}

/// The highest specificity among the selectors of `sels` that match node
/// `x`; none when none match.
pub open spec fn best_specificity(sels: Seq<SelectorView>, n: Seq<Node>, x: int, src: Seq<u8>) -> Option<
    (nat, nat, nat),
>
    decreases sels.len(),
{
    if sels.len() == 0 {
        None
    } else {
        let prev = best_specificity(sels.drop_last(), n, x, src);
        if spec_selector_matches(sels.last(), n, x, src) {
            let sp = specificity(sels.last().1);
            match prev {
                Some(p) => if specificity_below(p, sp) {
                    Some(sp)
                } else {
                    Some(p)
                },
                None => Some(sp),
            }
        } else {
            prev
        }
    }
}

/// A stylesheet declaration as matched: `!important` stripped, ranked by
/// specificity `sp` and position `pos`.
pub open spec fn author_facts(d: DeclView, sp: (nat, nat, nat), pos: int) -> DeclFacts {
    (d.0, spec_strip_important(d.1).0, sp, pos, Origin::Author, spec_strip_important(d.1).1)
}

/// An inline declaration as matched: `!important` stripped, ranked above
/// every stylesheet position.
pub open spec fn inline_facts(p: (Seq<char>, Seq<char>)) -> DeclFacts {
    (p.0, spec_strip_important(p.1).0, (0nat, 0nat, 0nat), usize::MAX as int, Origin::Inline, spec_strip_important(p.1).1)
}

/// The declarations a rule gives node `x`: when one of its selectors
/// matches, each declaration with its `!important` stripped, ranked by the
/// best matching specificity and the rule's position, as a stylesheet
/// declaration; otherwise none.
pub open spec fn rule_declarations(rule: RuleView, n: Seq<Node>, x: int, src: Seq<u8>) -> Seq<DeclFacts> {
    match best_specificity(rule.0, n, x, src) {
        Some(sp) => rule.1.map_values(|d: DeclView| author_facts(d, sp, rule.2 as int)),
        None => Seq::empty(),
    }
}

/// The declarations the rules at positions `cands` give node `x`, in order.
pub open spec fn candidate_declarations(rules: Seq<RuleView>, cands: Seq<usize>, n: Seq<Node>, x: int, src: Seq<u8>) -> Seq<
    DeclFacts,
>
    decreases cands.len(),
{
    if cands.len() == 0 {
        Seq::empty()
    } else {
        candidate_declarations(rules, cands.drop_last(), n, x, src) + rule_declarations(
            rules[cands.last() as int],
            n,
            x,
            src,
        )
    }
}

/// The declarations of node `x`'s `style` attribute, `!important`
/// stripped, ranked above every stylesheet position.
pub open spec fn inline_declarations(n: Seq<Node>, x: int, src: Seq<u8>) -> Seq<DeclFacts> {
    match attr_lookup(src, n[x].attributes@, "style"@) {
        Some(text) => spec_inline_style(text).map_values(|p: (Seq<char>, Seq<char>)| inline_facts(p)),
        None => Seq::empty(),
    }
}

/// The words of node `x`'s `class` attribute.
pub open spec fn class_words(n: Seq<Node>, x: int, src: Seq<u8>) -> Seq<Seq<char>> {
    match attr_lookup(src, n[x].attributes@, "class"@) {
        Some(v) => words(v),
        None => Seq::empty(),
    }
}

/// The rules the index of `rules` offers element `x`: by its tag in
/// ASCII lowercase, the words of its `class`, and its `id`.
pub open spec fn element_candidates(rules: Seq<RuleView>, n: Seq<Node>, x: int, src: Seq<u8>) -> Seq<usize> {
    dedup(
        candidate_stream(
            index_entries(rules),
            lower(node_tag(n[x], src)),
            class_words(n, x, src),
            attr_lookup(src, n[x].attributes@, "id"@),
        ),
    )
}

/// The declarations that apply to node `x`: for an element, those of its
/// candidate rules in order, then those of its `style` attribute; none for
/// other nodes.
pub open spec fn spec_collect(rules: Seq<RuleView>, n: Seq<Node>, x: int, src: Seq<u8>) -> Seq<DeclFacts> {
    if is_element(n, x) {
        candidate_declarations(rules, element_candidates(rules, n, x, src), n, x, src) + inline_declarations(
            n,
            x,
            src,
        )
    } else {
        Seq::empty()
    }
}

/// The specificities of all selectors of `rules` fit in `u32`.
pub open spec fn specificities_fit(rules: Seq<RuleView>) -> bool {
    forall|r: int, s: int|
        0 <= r < rules.len() && 0 <= s < rules[r].0.len() ==> {
            let sp = #[trigger] specificity(rules[r].0[s].1);
            sp.0 <= u32::MAX && sp.1 <= u32::MAX && sp.2 <= u32::MAX
        }
}

/// The best specificity among the selectors of `rule` that match (see
/// `best_specificity`).
fn best_rule_specificity(rule: &StyleRule, node_id: NodeId, dom: &Dom, source: &[u8]) -> (res: Option<(u32, u32, u32)>)
    requires
        dom.wf(),
        dom.ranges_within(source@.len()),
        (node_id.0 as int) < dom.nodes@.len(),
        forall|s: int|
            0 <= s < rule@.0.len() ==> {
                let sp = #[trigger] specificity(rule@.0[s].1);
                sp.0 <= u32::MAX && sp.1 <= u32::MAX && sp.2 <= u32::MAX
            },
    ensures
        match res {
            Some(t) => best_specificity(rule@.0, dom.nodes@, node_id.0 as int, source@) == Some(
                (t.0 as nat, t.1 as nat, t.2 as nat),
            ),
            None => best_specificity(rule@.0, dom.nodes@, node_id.0 as int, source@) is None,
        },
{
    let ghost sels = rule@.0;
    let ghost n = dom.nodes@;
    let ghost x = node_id.0 as int;
    let mut best: Option<(u32, u32, u32)> = None;
    let mut s: usize = 0;
    assert(sels.take(0) =~= Seq::<SelectorView>::empty());
    while s < rule.selectors.len()
        invariant
            s <= sels.len(),
            sels == rule@.0,
            sels == selectors_view(rule.selectors@),
            n == dom.nodes@,
            match best {
                Some(t) => best_specificity(sels.take(s as int), n, x, source@) == Some(
                    (t.0 as nat, t.1 as nat, t.2 as nat),
                ),
                None => best_specificity(sels.take(s as int), n, x, source@) is None,
            },
        decreases sels.len() - s,
    {
        let sel = &rule.selectors[s];
        assert(sels[s as int] == sel@);
        assert(sels.take(s as int + 1).drop_last() =~= sels.take(s as int));
        assert(sels.take(s as int + 1).last() == sel@);
        if selector_matches(sel, node_id, dom, source) {
            let sp = compute_specificity(sel);
            match best {
                Some(p) => {
                    if p.0 < sp.0 || (p.0 == sp.0 && (p.1 < sp.1 || (p.1 == sp.1 && p.2 < sp.2))) {
                        best = Some(sp);
                    }
                },
                None => {
                    best = Some(sp);
                },
            }
        }
        s += 1;
    }
    assert(sels.take(s as int) =~= sels);
    best
}

/// The declarations that apply to node `node_id` (see `spec_collect`):
/// an element's candidate rules from the index of `rules` are matched and
/// their declarations gathered in order, then those of its `style`
/// attribute.
pub fn collect_declarations(dom: &Dom, node_id: NodeId, index: &RuleIndex, rules: &[StyleRule], source: &[u8]) -> (res:
    Vec<MatchedDeclaration>)
    requires
        dom.wf(),
        dom.ranges_within(source@.len()),
        (node_id.0 as int) < dom.nodes@.len(),
        index.wf(),
        index.count() == rules@.len(),
        index.entries() == index_entries(rules_view(rules@)),
        specificities_fit(rules_view(rules@)),
    ensures
        res@.map_values(|m: MatchedDeclaration| facts(m)) == spec_collect(
            rules_view(rules@),
            dom.nodes@,
            node_id.0 as int,
            source@,
        ),
{
    let ghost n = dom.nodes@;
    let ghost x = node_id.0 as int;
    let ghost rv = rules_view(rules@);
    let mut out: Vec<MatchedDeclaration> = Vec::new();
    let node = dom.get(node_id);
    if !matches!(node.kind, NodeKind::Element { .. }) {
        assert(out@.map_values(|m: MatchedDeclaration| facts(m)) =~= Seq::<DeclFacts>::empty());
        return out;
    }
    assert(node_ranges_ok(n[x], source@.len()));
    // The element's tag, classes and id, for the index.
    let tag = to_ascii_lowercase(node.tag_name(source));
    let id = node.get_id(source);
    let class_attr = match node.get_attribute("class", source) {
        Some(v) => v,
        None => {
            proof {
                reveal_strlit("");
            }
            ""
        },
    };
    let parts = split_words(chars_of(class_attr).as_slice());
    let mut owned_words: Vec<String> = Vec::new();
    let mut k: usize = 0;
    while k < parts.len()
        invariant
            k <= parts@.len(),
            owned_words@.len() == k,
            forall|j: int| 0 <= j < k ==> (#[trigger] owned_words@[j])@ == parts@[j]@,
        decreases parts@.len() - k,
    {
        owned_words.push(string_from_chars(parts[k].as_slice()));
        k += 1;
    }
    let mut classes: Vec<&str> = Vec::new();
    let mut k: usize = 0;
    while k < owned_words.len()
        invariant
            k <= owned_words@.len(),
            classes@.len() == k,
            forall|j: int| 0 <= j < k ==> (#[trigger] classes@[j])@ == owned_words@[j]@,
        decreases owned_words@.len() - k,
    {
        classes.push(owned_words[k].as_str());
        k += 1;
    }
    assert(classes@.map_values(|c: &str| c@) =~= class_words(n, x, source@)) by {
        assert(parts@.map_values(|w: Vec<char>| w@) == words(class_attr@));
        assert(class_attr@ == match attr_lookup(source@, n[x].attributes@, "class"@) {
            Some(v) => v,
            None => Seq::<char>::empty(),
        });
    }
    let cands = index.candidates(tag.as_str(), classes.as_slice(), id);
    let ghost cs = cands@;
    assert(cs == element_candidates(rv, n, x, source@));
    // The candidate rules' declarations, in order.
    let mut c: usize = 0;
    assert(cs.take(0) =~= Seq::<usize>::empty());
    assert(out@.map_values(|m: MatchedDeclaration| facts(m)) =~= candidate_declarations(rv, cs.take(0), n, x, source@));
    while c < cands.len()
        invariant
            c <= cs.len(),
            cs == cands@,
            n == dom.nodes@,
            rv == rules_view(rules@),
            dom.wf(),
            dom.ranges_within(source@.len()),
            (node_id.0 as int) < n.len(),
            specificities_fit(rv),
            forall|j: int| 0 <= j < cs.len() ==> #[trigger] cs[j] < rules@.len(),
            out@.map_values(|m: MatchedDeclaration| facts(m)) == candidate_declarations(rv, cs.take(c as int), n, x, source@),
        decreases cs.len() - c,
    {
        let r = cands[c];
        let rule = &rules[r];
        assert(rv[r as int] == rule@);
        assert(cs.take(c as int + 1).drop_last() =~= cs.take(c as int));
        assert(cs.take(c as int + 1).last() == r);
        let ghost before = out@.map_values(|m: MatchedDeclaration| facts(m));
        assert forall|s: int| 0 <= s < rule@.0.len() implies {
            let sp = #[trigger] specificity(rule@.0[s].1);
            sp.0 <= u32::MAX && sp.1 <= u32::MAX && sp.2 <= u32::MAX
        } by {
            let _ = specificity(rv[r as int].0[s].1);
        }
        match best_rule_specificity(rule, node_id, dom, source) {
            Some(sp) => {
                let ghost spn = (sp.0 as nat, sp.1 as nat, sp.2 as nat);
                let ghost decls = decls_view(rule.declarations@);
                let mut d: usize = 0;
                while d < rule.declarations.len()
                    invariant
                        d <= decls.len(),
                        decls == decls_view(rule.declarations@),
                        out@.map_values(|m: MatchedDeclaration| facts(m)) == before + decls.take(d as int).map_values(
                            |dv: DeclView| author_facts(dv, spn, rule@.2 as int),
                        ),
                    decreases decls.len() - d,
                {
                    let decl = &rule.declarations[d];
                    assert(decls[d as int] == decl@);
                    let (clean, important) = strip_important(decl.value.as_str());
                    let m = MatchedDeclaration {
                        property: owned(decl.property.as_str()),
                        value: clean,
                        specificity: sp,
                        source_order: rule.position,
                        origin: Origin::Author,
                        important,
                    };
                    assert(facts(m) == author_facts(decls[d as int], spn, rule@.2 as int));
                    assert(decls.take(d as int + 1) =~= decls.take(d as int).push(decls[d as int]));
                    let ghost fm = facts(m);
                    let ghost prev = out@;
                    out.push(m);
                    assert(out@ =~= prev.push(m));
                    assert(out@.map_values(|m: MatchedDeclaration| facts(m)) =~= prev.map_values(
                        |m: MatchedDeclaration| facts(m),
                    ).push(fm));
                    assert(decls.take(d as int + 1).map_values(|dv: DeclView| author_facts(dv, spn, rule@.2 as int))
                        =~= decls.take(d as int).map_values(|dv: DeclView| author_facts(dv, spn, rule@.2 as int)).push(
                        fm,
                    ));
                    d += 1;
                    assert(out@.map_values(|m: MatchedDeclaration| facts(m)) =~= before + decls.take(d as int).map_values(
                        |dv: DeclView| author_facts(dv, spn, rule@.2 as int),
                    ));
                }
                assert(decls.take(d as int) =~= decls);
            },
            None => {},
        }
        c += 1;
        assert(out@.map_values(|m: MatchedDeclaration| facts(m)) =~= candidate_declarations(rv, cs.take(c as int), n, x, source@));
    }
    assert(cs.take(c as int) =~= cs);
    // The `style` attribute's declarations.
    let ghost head = out@.map_values(|m: MatchedDeclaration| facts(m));
    match node.get_attribute("style", source) {
        Some(text) => {
            let pairs = parse_inline_style(text);
            let ghost pv = pairs_view(pairs@);
            let mut p: usize = 0;
            while p < pairs.len()
                invariant
                    p <= pv.len(),
                    pv == pairs_view(pairs@),
                    out@.map_values(|m: MatchedDeclaration| facts(m)) == head + pv.take(p as int).map_values(
                        |q: (Seq<char>, Seq<char>)| inline_facts(q),
                    ),
                decreases pv.len() - p,
            {
                assert(pv[p as int] == (pairs@[p as int].0@, pairs@[p as int].1@));
                let (clean, important) = strip_important(pairs[p].1.as_str());
                let m = MatchedDeclaration {
                    property: owned(pairs[p].0.as_str()),
                    value: clean,
                    specificity: (0, 0, 0),
                    source_order: usize::MAX,
                    origin: Origin::Inline,
                    important,
                };
                assert(facts(m) == inline_facts(pv[p as int]));
                assert(pv.take(p as int + 1) =~= pv.take(p as int).push(pv[p as int]));
                let ghost fm = facts(m);
                let ghost prev = out@;
                out.push(m);
                assert(out@ =~= prev.push(m));
                assert(out@.map_values(|m: MatchedDeclaration| facts(m)) =~= prev.map_values(
                    |m: MatchedDeclaration| facts(m),
                ).push(fm));
                assert(pv.take(p as int + 1).map_values(|q: (Seq<char>, Seq<char>)| inline_facts(q)) =~= pv.take(
                    p as int,
                ).map_values(|q: (Seq<char>, Seq<char>)| inline_facts(q)).push(fm));
                p += 1;
                assert(out@.map_values(|m: MatchedDeclaration| facts(m)) =~= head + pv.take(p as int).map_values(
                    |q: (Seq<char>, Seq<char>)| inline_facts(q),
                ));
            }
            assert(pv.take(p as int) =~= pv);
        },
        None => {
            assert(out@.map_values(|m: MatchedDeclaration| facts(m)) =~= head + Seq::<DeclFacts>::empty());
        },
    }
    out
}

} // verus!
