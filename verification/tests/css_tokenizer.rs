use asteria::css_tokenizer::CssTokenizer;
use asteria::css_tokens::{CssToken, CssTokenKind};

fn tokenize(css: &str) -> Vec<CssToken> {
    let mut tokenizer = CssTokenizer::new(css.as_bytes());
    tokenizer.tokenize()
}

fn slice<'a>(css: &'a str, token: &CssToken) -> &'a str {
    &css[token.start as usize..token.end as usize]
}

#[test]
fn test_empty_input() {
    let tokens = tokenize("");
    assert_eq!(tokens.len(), 1);
    assert_eq!(tokens[0].kind, CssTokenKind::Eof);
}

#[test]
fn test_simple_rule() {
    let css = "h1 { color: red; }";
    let tokens = tokenize(css);
    let significant: Vec<_> = tokens
        .iter()
        .filter(|t| t.kind != CssTokenKind::Whitespace && t.kind != CssTokenKind::Eof)
        .collect();
    assert_eq!(significant.len(), 7);
    assert_eq!(significant[0].kind, CssTokenKind::Ident);
    assert_eq!(slice(css, significant[0]), "h1");
    assert_eq!(significant[1].kind, CssTokenKind::OpenBrace);
    assert_eq!(significant[2].kind, CssTokenKind::Ident);
    assert_eq!(slice(css, significant[2]), "color");
    assert_eq!(significant[3].kind, CssTokenKind::Colon);
    assert_eq!(significant[4].kind, CssTokenKind::Ident);
    assert_eq!(slice(css, significant[4]), "red");
    assert_eq!(significant[5].kind, CssTokenKind::Semicolon);
    assert_eq!(significant[6].kind, CssTokenKind::CloseBrace);
}

#[test]
fn test_class_and_id_selectors() {
    let css = ".main #container { }";
    let tokens = tokenize(css);
    let significant: Vec<_> = tokens
        .iter()
        .filter(|t| t.kind != CssTokenKind::Whitespace && t.kind != CssTokenKind::Eof)
        .collect();
    assert_eq!(significant[0].kind, CssTokenKind::Dot);
    assert_eq!(significant[1].kind, CssTokenKind::Ident);
    assert_eq!(slice(css, significant[1]), "main");
    assert_eq!(significant[2].kind, CssTokenKind::Hash);
    assert_eq!(slice(css, significant[2]), "#container");
}

#[test]
fn test_numbers_and_dimensions() {
    let css = "font-size: 16px; margin: 1.5em; width: 50%;";
    let tokens = tokenize(css);
    let significant: Vec<_> = tokens
        .iter()
        .filter(|t| t.kind != CssTokenKind::Whitespace && t.kind != CssTokenKind::Eof)
        .collect();
    assert_eq!(significant[0].kind, CssTokenKind::Ident);
    assert_eq!(slice(css, significant[0]), "font-size");
    assert_eq!(significant[2].kind, CssTokenKind::Dimension);
    assert_eq!(slice(css, significant[2]), "16px");
    assert_eq!(significant[4].kind, CssTokenKind::Ident);
    assert_eq!(slice(css, significant[4]), "margin");
    assert_eq!(significant[6].kind, CssTokenKind::Dimension);
    assert_eq!(slice(css, significant[6]), "1.5em");
    assert_eq!(significant[8].kind, CssTokenKind::Ident);
    assert_eq!(slice(css, significant[8]), "width");
    assert_eq!(significant[10].kind, CssTokenKind::Percentage);
    assert_eq!(slice(css, significant[10]), "50%");
}

#[test]
fn test_string_tokens() {
    let css = r#"font-family: "Helvetica Neue";"#;
    let tokens = tokenize(css);
    let string_token = tokens
        .iter()
        .find(|t| t.kind == CssTokenKind::String)
        .expect("Expected a String token");
    assert_eq!(slice(css, string_token), "Helvetica Neue");
}

#[test]
fn test_comments_are_skipped() {
    let css = "/* this is a comment */ h1 { color: red; }";
    let tokens = tokenize(css);
    assert!(!tokens.iter().any(|t| slice(css, t).contains("comment")));
    let first_ident = tokens
        .iter()
        .find(|t| t.kind == CssTokenKind::Ident)
        .unwrap();
    assert_eq!(slice(css, first_ident), "h1");
}

#[test]
fn test_at_keyword() {
    let css = "@media screen { }";
    let tokens = tokenize(css);
    let at_token = tokens
        .iter()
        .find(|t| t.kind == CssTokenKind::AtKeyword)
        .expect("Expected an AtKeyword token");
    assert_eq!(slice(css, at_token), "@media");
}

#[test]
fn test_function_token() {
    let css = "color: rgb(255, 0, 0);";
    let tokens = tokenize(css);
    let func_token = tokens
        .iter()
        .find(|t| t.kind == CssTokenKind::Function)
        .expect("Expected a Function token");
    assert_eq!(slice(css, func_token), "rgb");
}

#[test]
fn css_tokenizer_test_universal_selector() {
    let css = "* { margin: 0; }";
    let tokens = tokenize(css);
    assert_eq!(tokens[0].kind, CssTokenKind::Delim);
    assert_eq!(slice(css, &tokens[0]), "*");
}

#[test]
fn css_tokenizer_test_compound_selector() {
    let css = "div.main { }";
    let tokens = tokenize(css);
    let significant: Vec<_> = tokens
        .iter()
        .filter(|t| t.kind != CssTokenKind::Whitespace && t.kind != CssTokenKind::Eof)
        .collect();
    assert_eq!(significant[0].kind, CssTokenKind::Ident);
    assert_eq!(slice(css, significant[0]), "div");
    assert_eq!(significant[1].kind, CssTokenKind::Dot);
    assert_eq!(significant[2].kind, CssTokenKind::Ident);
    assert_eq!(slice(css, significant[2]), "main");
}

#[test]
fn css_tokenizer_test_multiple_rules() {
    let css = "h1 { color: red; } p { color: blue; }";
    let tokens = tokenize(css);
    let open_braces = tokens
        .iter()
        .filter(|t| t.kind == CssTokenKind::OpenBrace)
        .count();
    let close_braces = tokens
        .iter()
        .filter(|t| t.kind == CssTokenKind::CloseBrace)
        .count();
    assert_eq!(open_braces, 2);
    assert_eq!(close_braces, 2);
}

#[test]
fn test_hash_color() {
    let css = "color: #ff0000;";
    let tokens = tokenize(css);
    let hash_token = tokens
        .iter()
        .find(|t| t.kind == CssTokenKind::Hash)
        .expect("Expected a Hash token");
    assert_eq!(slice(css, hash_token), "#ff0000");
}

#[test]
fn test_negative_number() {
    let css = "margin: -10px;";
    let tokens = tokenize(css);
    let dim_token = tokens
        .iter()
        .find(|t| t.kind == CssTokenKind::Dimension)
        .expect("Expected a Dimension token");
    assert_eq!(slice(css, dim_token), "-10px");
}

#[test]
fn test_whitespace_collapsed() {
    let css = "h1   \t  \n  { }";
    let tokens = tokenize(css);
    assert_eq!(tokens[0].kind, CssTokenKind::Ident);
    assert_eq!(tokens[1].kind, CssTokenKind::Whitespace);
    assert_eq!(tokens[2].kind, CssTokenKind::OpenBrace);
}

// ── Further cases ──────────────────────────────────────────────

#[test]
fn tokenizer_unterminated_string_runs_to_end() {
    let css = "a \"abc";
    let tokens = tokenize(css);
    let s = tokens.iter().find(|t| t.kind == CssTokenKind::String).unwrap();
    assert_eq!(slice(css, s), "abc");
    assert_eq!(tokens.last().unwrap().kind, CssTokenKind::Eof);
    assert_eq!(tokens.last().unwrap().start, 6);
}

#[test]
fn tokenizer_unterminated_comment_consumes_rest() {
    let tokens = tokenize("a /* never closed");
    assert_eq!(tokens.len(), 3);
    assert_eq!(tokens[0].kind, CssTokenKind::Ident);
    assert_eq!(tokens[1].kind, CssTokenKind::Whitespace);
    assert_eq!(tokens[2].kind, CssTokenKind::Eof);
    assert_eq!(tokens[2].start, 17);
}

#[test]
fn tokenizer_escaped_quote_inside_string() {
    let css = r#"'it\'s'"#;
    let tokens = tokenize(css);
    assert_eq!(tokens[0].kind, CssTokenKind::String);
    assert_eq!(slice(css, &tokens[0]), r#"it\'s"#);
}

#[test]
fn tokenizer_lone_minus_is_delim_and_number_percent() {
    let css = "- 7.5%";
    let tokens = tokenize(css);
    assert_eq!(tokens[0].kind, CssTokenKind::Delim);
    assert_eq!(tokens[2].kind, CssTokenKind::Percentage);
    assert_eq!(slice(css, &tokens[2]), "7.5%");
}

#[test]
fn tokenizer_trailing_dot_is_separate() {
    let css = "1.";
    let tokens = tokenize(css);
    assert_eq!(tokens[0].kind, CssTokenKind::Number);
    assert_eq!(slice(css, &tokens[0]), "1");
    assert_eq!(tokens[1].kind, CssTokenKind::Dot);
}

#[test]
fn tokenizer_second_call_gives_only_eof() {
    let css = b"p{}";
    let mut tokenizer = CssTokenizer::new(css);
    let first = tokenizer.tokenize();
    assert_eq!(first.len(), 4);
    let second = tokenizer.tokenize();
    assert_eq!(second.len(), 1);
    assert_eq!(second[0].kind, CssTokenKind::Eof);
    assert_eq!(second[0].start, 3);
}

#[test]
fn custom_property_name_is_one_identifier() {
    let tokens = tokenize("--x");
    let seen: Vec<(CssTokenKind, u32, u32)> = tokens.iter().map(|t| (t.kind, t.start, t.end)).collect();
    assert_eq!(seen, vec![(CssTokenKind::Ident, 0, 3), (CssTokenKind::Eof, 3, 3)]);
    let tokens = tokenize("-10px");
    assert_eq!(tokens[0].kind, CssTokenKind::Dimension);
    assert_eq!((tokens[0].start, tokens[0].end), (0, 5));
}
