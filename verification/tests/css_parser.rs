use asteria::css_parser::{format_selector, Combinator, CssParser, Selector, SelectorStep, SimpleSelector, Stylesheet};
use asteria::css_tokenizer::CssTokenizer;
use asteria::css_tokens::{CssToken, CssTokenKind};

#[test]
fn test_empty_stylesheet() {
    let stylesheet = Stylesheet::parse(b"");
    assert!(stylesheet.rules.is_empty());
}

#[test]
fn test_single_rule() {
    let stylesheet = Stylesheet::parse(b"h1 { color: red; }");

    assert_eq!(stylesheet.rules.len(), 1);

    let rule = &stylesheet.rules[0];
    assert_eq!(rule.selectors.len(), 1);
    assert_eq!(
        rule.selectors[0].parts,
        vec![vec![SimpleSelector::Tag("h1".to_string())]]
    );
    assert_eq!(rule.declarations.len(), 1);
    assert_eq!(rule.declarations[0].property, "color");
    assert_eq!(rule.declarations[0].value, "red");
}

#[test]
fn test_multiple_declarations() {
    let stylesheet = Stylesheet::parse(b"p { color: blue; font-size: 16px; margin: 10px; }");

    let rule = &stylesheet.rules[0];
    assert_eq!(rule.declarations.len(), 3);
    assert_eq!(rule.declarations[0].property, "color");
    assert_eq!(rule.declarations[0].value, "blue");
    assert_eq!(rule.declarations[1].property, "font-size");
    assert_eq!(rule.declarations[1].value, "16px");
    assert_eq!(rule.declarations[2].property, "margin");
    assert_eq!(rule.declarations[2].value, "10px");
}

#[test]
fn css_parser_test_multiple_rules() {
    let stylesheet = Stylesheet::parse(b"h1 { color: red; } p { color: blue; }");

    assert_eq!(stylesheet.rules.len(), 2);
    assert_eq!(stylesheet.rules[0].declarations[0].value, "red");
    assert_eq!(stylesheet.rules[1].declarations[0].value, "blue");
}

#[test]
fn test_class_selector() {
    let stylesheet = Stylesheet::parse(b".main { background: white; }");

    let sel = &stylesheet.rules[0].selectors[0];
    assert_eq!(
        sel.parts,
        vec![vec![SimpleSelector::Class("main".to_string())]]
    );
}

#[test]
fn test_id_selector() {
    let stylesheet = Stylesheet::parse(b"#container { width: 960px; }");

    let sel = &stylesheet.rules[0].selectors[0];
    assert_eq!(
        sel.parts,
        vec![vec![SimpleSelector::Id("container".to_string())]]
    );
}

#[test]
fn css_parser_test_universal_selector() {
    let stylesheet = Stylesheet::parse(b"* { margin: 0; }");

    let sel = &stylesheet.rules[0].selectors[0];
    assert_eq!(sel.parts, vec![vec![SimpleSelector::Universal]]);
}

#[test]
fn css_parser_test_compound_selector() {
    let stylesheet = Stylesheet::parse(b"div.main { color: red; }");

    let sel = &stylesheet.rules[0].selectors[0];
    assert_eq!(
        sel.parts,
        vec![vec![
            SimpleSelector::Tag("div".to_string()),
            SimpleSelector::Class("main".to_string()),
        ]]
    );
}

#[test]
fn css_parser_test_descendant_selector() {
    let stylesheet = Stylesheet::parse(b"div p { color: red; }");

    let sel = &stylesheet.rules[0].selectors[0];
    assert_eq!(sel.parts.len(), 2);
    assert_eq!(sel.parts[0], vec![SimpleSelector::Tag("div".to_string())]);
    assert_eq!(sel.parts[1], vec![SimpleSelector::Tag("p".to_string())]);
}

#[test]
fn test_grouped_selectors() {
    let stylesheet = Stylesheet::parse(b"h1, h2, h3 { color: red; }");

    let rule = &stylesheet.rules[0];
    assert_eq!(rule.selectors.len(), 3);
    assert_eq!(
        rule.selectors[0].parts,
        vec![vec![SimpleSelector::Tag("h1".to_string())]]
    );
    assert_eq!(
        rule.selectors[1].parts,
        vec![vec![SimpleSelector::Tag("h2".to_string())]]
    );
    assert_eq!(
        rule.selectors[2].parts,
        vec![vec![SimpleSelector::Tag("h3".to_string())]]
    );
}

#[test]
fn test_at_rule_skipped() {
    let stylesheet =
        Stylesheet::parse(b"@media screen { body { color: red; } } h1 { color: blue; }");

    assert_eq!(stylesheet.rules.len(), 1);
    assert_eq!(stylesheet.rules[0].declarations[0].value, "blue");
}

#[test]
fn test_comments_in_stylesheet() {
    let stylesheet = Stylesheet::parse(b"/* heading */ h1 { /* text color */ color: red; }");

    assert_eq!(stylesheet.rules.len(), 1);
    assert_eq!(stylesheet.rules[0].declarations[0].property, "color");
    assert_eq!(stylesheet.rules[0].declarations[0].value, "red");
}

#[test]
fn test_hash_color_value() {
    let stylesheet = Stylesheet::parse(b"h1 { color: #ff0000; }");

    assert_eq!(stylesheet.rules[0].declarations[0].value, "#ff0000");
}

#[test]
fn test_child_and_sibling_combinators() {
    let stylesheet = Stylesheet::parse(b"div > p + span ~ a { color: red; }");
    let sel = &stylesheet.rules[0].selectors[0];
    assert_eq!(sel.steps.len(), 4);
    assert_eq!(sel.steps[0].combinator, Combinator::Descendant);
    assert_eq!(sel.steps[1].combinator, Combinator::Child);
    assert_eq!(sel.steps[2].combinator, Combinator::NextSibling);
    assert_eq!(sel.steps[3].combinator, Combinator::SubsequentSibling);
}

#[test]
fn test_pseudo_classes() {
    let stylesheet = Stylesheet::parse(b"p:first-child:hover { color: green; }");
    let sel = &stylesheet.rules[0].selectors[0];
    assert_eq!(
        sel.parts[0],
        vec![
            SimpleSelector::Tag("p".to_string()),
            SimpleSelector::PseudoClass("first-child".to_string()),
            SimpleSelector::PseudoClass("hover".to_string()),
        ]
    );
}

fn bound(text: &Option<String>) -> Option<f32> {
    text.as_deref().map(|s| s.parse::<f32>().unwrap())
}

#[test]
fn test_media_rule_parsing() {
    let stylesheet = Stylesheet::parse(
        b"@media (min-width: 600px) and (max-width: 1200px) { h1 { color: purple; } }",
    );
    assert_eq!(stylesheet.media_rules.len(), 1);
    assert_eq!(bound(&stylesheet.media_rules[0].min_width), Some(600.0));
    assert_eq!(bound(&stylesheet.media_rules[0].max_width), Some(1200.0));
    assert_eq!(stylesheet.media_rules[0].rules.len(), 1);
}

#[test]
fn media_bounds_text_and_unsupported_media() {
    let sheet = Stylesheet::parse(b"@media (min-width: 12.5em) { p { color: red } }");
    assert_eq!(sheet.media_rules[0].min_width.as_deref(), Some("12.5"));
    assert_eq!(sheet.media_rules[0].max_width, None);
    let bad = Stylesheet::parse(b"@media (min-width: 1.2.3px) { p { color: red } }");
    assert_eq!(bad.media_rules[0].min_width, None);
    let print = Stylesheet::parse(b"@media PRINT { p { color: red } } a { color: blue }");
    assert!(print.media_rules.is_empty());
    assert_eq!(print.rules.len(), 1);
    assert_eq!(print.rules[0].position, 1);
}

#[test]
fn rule_positions_count_rules_in_order() {
    let sheet = Stylesheet::parse(b"a{x:1} @media screen { b{y:2} } c{z:3}");
    assert_eq!(sheet.rules.len(), 2);
    assert_eq!(sheet.rules[0].position, 0);
    assert_eq!(sheet.media_rules[0].rules[0].position, 1);
    assert_eq!(sheet.rules[1].position, 2);
}

#[test]
fn malformed_declarations_are_skipped() {
    let sheet = Stylesheet::parse(b"p { : bad; color red; font-family: Helvetica   Neue  ; margin: ; width: 5px }");
    let decls = &sheet.rules[0].declarations;
    // An empty value consumes its `;`, and recovery then skips the next
    // declaration up to the `}`.
    assert_eq!(decls.len(), 1);
    assert_eq!(decls[0].property, "font-family");
    assert_eq!(decls[0].value, "Helvetica Neue");
}

#[test]
fn other_at_rules_and_missing_braces_are_skipped() {
    let sheet = Stylesheet::parse(b"@import url(x.css); @font-face { a { b } } h1 oops } p { COLOR: Red }");
    assert_eq!(sheet.rules.len(), 1);
    assert_eq!(sheet.rules[0].declarations[0].property, "color");
    assert_eq!(sheet.rules[0].declarations[0].value, "Red");
}

#[test]
fn parser_over_explicit_tokens() {
    let source = b"DIV.x > #y";
    let mut tokenizer = CssTokenizer::new(source);
    let tokens = tokenizer.tokenize();
    let mut parser = CssParser::new(&tokens, source);
    let sheet = parser.parse();
    assert!(sheet.rules.is_empty());
}

#[test]
fn selector_from_steps_copies_compounds() {
    let steps = vec![
        SelectorStep { combinator: Combinator::Descendant, compound: vec![SimpleSelector::Tag("ul".into())] },
        SelectorStep { combinator: Combinator::Child, compound: vec![SimpleSelector::Universal] },
    ];
    let sel = Selector::from_steps(steps.clone());
    assert_eq!(sel.steps, steps);
    assert_eq!(sel.parts, vec![vec![SimpleSelector::Tag("ul".into())], vec![SimpleSelector::Universal]]);
}

#[test]
fn try_parse_reports_sources_that_never_finish() {
    assert!(Stylesheet::try_parse(b"}").is_none());
    assert!(Stylesheet::try_parse(b"h1 { color: red } 42 { }").is_none());
    let sheet = Stylesheet::try_parse(b"h1 { color: red }").unwrap();
    assert_eq!(sheet.rules.len(), 1);
    assert_eq!(sheet.rules[0].declarations[0].value, "red");
}

#[test]
fn try_parse_rejects_tokens_outside_the_source() {
    let source = b"a";
    let tokens = vec![
        CssToken { kind: CssTokenKind::Ident, start: 0, end: 9 },
        CssToken { kind: CssTokenKind::Eof, start: 1, end: 1 },
    ];
    let mut parser = CssParser::new(&tokens, source);
    assert!(parser.try_parse().is_none());
    let hash = b"#\xc3\xa9";
    let tokens = vec![
        CssToken { kind: CssTokenKind::Hash, start: 1, end: 3 },
        CssToken { kind: CssTokenKind::Eof, start: 3, end: 3 },
    ];
    let mut parser = CssParser::new(&tokens, hash);
    assert!(parser.try_parse().is_none());
}

#[test]
fn format_selector_writes_css_text() {
    let sheet = Stylesheet::parse(b"div.main > #hero:hover, * p { x: y }");
    assert_eq!(format_selector(&sheet.rules[0].selectors[0]), "div.main #hero:hover");
    assert_eq!(format_selector(&sheet.rules[0].selectors[1]), "* p");
}
