use asteria::css_parser::{Selector, SimpleSelector, Stylesheet};
use asteria::dom::{has_word_exec, Dom, NodeId};
use asteria::paint::find_link_url;
use asteria::parser::Parser;
use asteria::style::cascade::{cascade_winners, collect_declarations, MatchedDeclaration};
use asteria::style::matching::{selector_matches, RuleIndex};
use asteria::style::Origin;
use asteria::tokens::{Attribute, Token, TokenKind};

/// The tokens of an HTML string, written down in order: each call finds
/// the next piece of markup after the previous one.
struct Tokens<'a> {
    src: &'a str,
    pos: usize,
    out: Vec<Token>,
}

impl<'a> Tokens<'a> {
    fn new(src: &'a str) -> Self {
        Tokens { src, pos: 0, out: Vec::new() }
    }

    fn find(&mut self, pat: &str) -> usize {
        let at = self.pos + self.src[self.pos..].find(pat).expect("markup not found");
        self.pos = at + pat.len();
        at
    }

    fn push(&mut self, kind: TokenKind, start: usize, end: usize, attributes: Vec<Attribute>) {
        self.out.push(Token { kind, start: start as u32, end: end as u32, attributes });
    }

    fn start(self, name: &str) -> Self {
        self.start_with(name, &[])
    }

    fn start_with(mut self, name: &str, attrs: &[(&str, &str)]) -> Self {
        let at = self.find(&format!("<{}", name)) + 1;
        let mut list = Vec::new();
        for (n, v) in attrs {
            let ns = self.find(n);
            self.find("=\"");
            let vs = self.find(v);
            list.push(Attribute {
                name_start: ns as u32,
                name_end: (ns + n.len()) as u32,
                value_start: vs as u32,
                value_end: (vs + v.len()) as u32,
            });
        }
        self.find(">");
        self.push(TokenKind::StartTag, at, at + name.len(), list);
        self
    }

    fn end(mut self, name: &str) -> Self {
        let at = self.find(&format!("</{}", name)) + 2;
        self.find(">");
        self.push(TokenKind::EndTag, at, at + name.len(), Vec::new());
        self
    }

    fn text(mut self, text: &str) -> Self {
        let at = self.find(text);
        self.push(TokenKind::Text, at, at + text.len(), Vec::new());
        self
    }

    fn finish(mut self) -> Vec<Token> {
        let end = self.src.len();
        self.push(TokenKind::Eof, end, end, Vec::new());
        self.out
    }
}

fn parse(html: &str, tokens: Vec<Token>) -> Dom {
    let mut dom = Dom::new();
    let mut parser = Parser::new();
    parser.push_tokens(&mut dom, &tokens, html.as_bytes());
    dom
}

fn selector(css: &str) -> Selector {
    let text = format!("{} {{ color: red; }}", css);
    let sheet = Stylesheet::try_parse(text.as_bytes()).expect("stylesheet");
    sheet.rules[0].selectors[0].clone()
}

const PAGE: &str =
    r#"<html><body><div class="main box" id="hero"><p>A</p><span>B</span><p>C</p></div></body></html>"#;

/// The page's DOM and its nodes: html, body, div, first p, span, last p,
/// and the text inside the first p.
fn page() -> (Dom, [NodeId; 7]) {
    let tokens = Tokens::new(PAGE)
        .start("html")
        .start("body")
        .start_with("div", &[("class", "main box"), ("id", "hero")])
        .start("p")
        .text("A")
        .end("p")
        .start("span")
        .text("B")
        .end("span")
        .start("p")
        .text("C")
        .end("p")
        .end("div")
        .end("body")
        .end("html")
        .finish();
    let dom = parse(PAGE, tokens);
    let html = dom.get(dom.root()).children[0];
    let body = dom.get(html).children[0];
    let div = dom.get(body).children[0];
    let kids = dom.get(div).children.clone();
    let text = dom.get(kids[0]).children[0];
    (dom, [html, body, div, kids[0], kids[1], kids[2], text])
}

fn matches(css: &str, dom: &Dom, node: NodeId) -> bool {
    selector_matches(&selector(css), node, dom, PAGE.as_bytes())
}

#[test]
fn simple_selectors_match_tag_class_and_id() {
    let (dom, [html, _, div, p1, _, _, text]) = page();
    assert!(matches("div", &dom, div));
    assert!(matches("DIV", &dom, div));
    assert!(!matches("div", &dom, p1));
    assert!(matches(".main", &dom, div));
    assert!(matches(".box", &dom, div));
    assert!(!matches(".mai", &dom, div));
    assert!(matches("#hero", &dom, div));
    assert!(!matches("#her", &dom, div));
    assert!(matches("div.main#hero", &dom, div));
    assert!(!matches("p.main", &dom, div));
    assert!(matches("*", &dom, p1));
    assert!(!matches("*", &dom, text));
    assert!(matches(":root", &dom, html));
    assert!(!matches("p:hover", &dom, p1));
}

#[test]
fn combinators_follow_ancestors_and_siblings() {
    let (dom, [_, _, _, p1, span, p2, _]) = page();
    assert!(matches("body p", &dom, p1));
    assert!(matches("html p", &dom, p2));
    assert!(matches("div > p", &dom, p1));
    assert!(!matches("body > p", &dom, p1));
    assert!(matches("p + span", &dom, span));
    assert!(!matches("p + p", &dom, p2));
    assert!(matches("span + p", &dom, p2));
    assert!(matches("p ~ p", &dom, p2));
    assert!(!matches("p ~ p", &dom, p1));
    assert!(matches("body div > p ~ p", &dom, p2));
}

#[test]
fn structural_pseudo_classes() {
    let (dom, [_, _, _, p1, span, p2, _]) = page();
    assert!(matches("p:first-child", &dom, p1));
    assert!(!matches("p:first-child", &dom, p2));
    assert!(matches("p:last-child", &dom, p2));
    assert!(!matches("span:last-child", &dom, span));
}

#[test]
fn selector_of_parts_only_joins_them_as_descendants() {
    let (dom, [_, _, div, p1, _, _, _]) = page();
    let sel = Selector {
        steps: Vec::new(),
        parts: vec![vec![SimpleSelector::Tag("div".into())], vec![SimpleSelector::Tag("p".into())]],
    };
    assert!(selector_matches(&sel, p1, &dom, PAGE.as_bytes()));
    assert!(!selector_matches(&sel, div, &dom, PAGE.as_bytes()));
    let empty = Selector { steps: Vec::new(), parts: Vec::new() };
    assert!(!selector_matches(&empty, p1, &dom, PAGE.as_bytes()));
}

#[test]
fn node_attributes_and_words() {
    let (dom, [_, _, div, p1, _, _, _]) = page();
    let src = PAGE.as_bytes();
    let node = dom.get(div);
    assert_eq!(node.tag_name(src), "div");
    assert_eq!(node.get_attribute("CLASS", src), Some("main box"));
    assert_eq!(node.get_id(src), Some("hero"));
    assert!(node.has_class("box", src));
    assert!(!node.has_class("main box", src));
    assert_eq!(dom.get(p1).get_attribute("class", src), None);
    assert!(has_word_exec("  a\tb  c ", "b"));
    assert!(!has_word_exec("abc", "b"));
    assert!(!has_word_exec("a b", ""));
}

#[test]
fn link_of_a_node_is_its_nearest_anchor() {
    let html = r#"<p><a href=" https://example.com/x ">go <b>here</b></a><a href="javascript:alert(1)">bad</a></p>"#;
    let tokens = Tokens::new(html)
        .start("p")
        .start_with("a", &[("href", " https://example.com/x ")])
        .text("go ")
        .start("b")
        .text("here")
        .end("b")
        .end("a")
        .start_with("a", &[("href", "javascript:alert(1)")])
        .text("bad")
        .end("a")
        .end("p")
        .finish();
    let dom = parse(html, tokens);
    let src = html.as_bytes();
    let p = dom.get(dom.root()).children[0];
    let a1 = dom.get(p).children[0];
    let b = dom.get(a1).children[1];
    let a2 = dom.get(p).children[1];
    let bad_text = dom.get(a2).children[0];
    assert_eq!(find_link_url(&dom, src, Some(b)), Some("https://example.com/x".to_string()));
    assert_eq!(find_link_url(&dom, src, Some(a1)), Some("https://example.com/x".to_string()));
    assert_eq!(find_link_url(&dom, src, Some(bad_text)), None);
    assert_eq!(find_link_url(&dom, src, Some(p)), None);
    assert_eq!(find_link_url(&dom, src, None), None);
}

const INDEXED: &str = "#hero { color: red; } .main { color: red; } div { color: red; } * { color: red; } \
p span, div.main { color: red; } :first-child { color: red; } .Main { color: red; }";

#[test]
fn rule_index_gives_candidates_by_id_class_tag_then_universal() {
    let sheet = Stylesheet::try_parse(INDEXED.as_bytes()).expect("stylesheet");
    assert_eq!(sheet.rules.len(), 7);
    let index = RuleIndex::build(&sheet.rules);
    assert_eq!(index.candidates("DIV", &["MAIN", "box"], Some("Hero")), vec![0, 1, 4, 6, 2, 3, 5]);
    assert_eq!(index.candidates("span", &[], None), vec![4, 3, 5]);
    assert_eq!(index.candidates("em", &["other"], Some("x")), vec![3, 5]);
}

#[test]
fn every_matching_rule_is_a_candidate() {
    let sheet = Stylesheet::try_parse(INDEXED.as_bytes()).expect("stylesheet");
    let index = RuleIndex::build(&sheet.rules);
    let (dom, [_, _, div, p1, span, p2, _]) = page();
    let src = PAGE.as_bytes();
    for node in [div, p1, span, p2] {
        let n = dom.get(node);
        let class_attr = n.get_attribute("class", src).unwrap_or("");
        let classes: Vec<&str> = class_attr.split_whitespace().collect();
        let found = index.candidates(n.tag_name(src), &classes, n.get_id(src));
        for (r, rule) in sheet.rules.iter().enumerate() {
            if rule.selectors.iter().any(|sel| selector_matches(sel, node, &dom, src)) {
                assert!(found.contains(&r), "rule {} matches but is not a candidate", r);
            }
        }
    }
}

fn decl(property: &str, value: &str, specificity: (u32, u32, u32), order: usize, origin: Origin, important: bool) -> MatchedDeclaration {
    MatchedDeclaration {
        property: property.to_string(),
        value: value.to_string(),
        specificity,
        source_order: order,
        origin,
        important,
    }
}

#[test]
fn cascade_picks_the_highest_ranked_declaration() {
    let decls = vec![
        decl("color", "red", (0, 0, 1), 0, Origin::Author, false),
        decl("color", "blue", (0, 1, 0), 1, Origin::Author, false),
        decl("margin", "1px", (1, 0, 0), 2, Origin::Author, false),
        decl("margin", "2px", (0, 0, 0), usize::MAX, Origin::Inline, false),
        decl("color", "green", (0, 0, 1), 3, Origin::Author, true),
        decl("font-size", "10px", (0, 0, 1), 4, Origin::Author, false),
        decl("font-size", "12px", (0, 0, 1), 4, Origin::Author, false),
    ];
    let won = cascade_winners(&decls);
    assert_eq!(
        won,
        vec![
            ("color".to_string(), "green".to_string()),
            ("margin".to_string(), "2px".to_string()),
            ("font-size".to_string(), "12px".to_string()),
        ]
    );
    assert!(cascade_winners(&[]).is_empty());
}

#[test]
fn declarations_of_an_element_come_from_matching_rules_then_its_style() {
    let css = "p { color: red; } div > p { color: blue !important; margin: 0; } span { color: green; }";
    let sheet = Stylesheet::try_parse(css.as_bytes()).expect("stylesheet");
    let index = RuleIndex::build(&sheet.rules);
    let html = r#"<div><p style="color: black; padding: 1px">A</p></div>"#;
    let tokens = Tokens::new(html)
        .start("div")
        .start_with("p", &[("style", "color: black; padding: 1px")])
        .text("A")
        .end("p")
        .end("div")
        .finish();
    let dom = parse(html, tokens);
    let div = dom.get(dom.root()).children[0];
    let p = dom.get(div).children[0];
    let found = collect_declarations(&dom, p, &index, &sheet.rules, html.as_bytes());
    let summary: Vec<(&str, &str, (u32, u32, u32), usize, Origin, bool)> = found
        .iter()
        .map(|m| (m.property.as_str(), m.value.as_str(), m.specificity, m.source_order, m.origin, m.important))
        .collect();
    assert_eq!(
        summary,
        vec![
            ("color", "red", (0, 0, 1), 0, Origin::Author, false),
            ("color", "blue", (0, 0, 2), 1, Origin::Author, true),
            ("margin", "0", (0, 0, 2), 1, Origin::Author, false),
            ("color", "black", (0, 0, 0), usize::MAX, Origin::Inline, false),
            ("padding", "1px", (0, 0, 0), usize::MAX, Origin::Inline, false),
        ]
    );
    let won = cascade_winners(&found);
    assert_eq!(won[0], ("color".to_string(), "blue".to_string()));
    let text = dom.get(p).children[0];
    assert!(collect_declarations(&dom, text, &index, &sheet.rules, html.as_bytes()).is_empty());
}
