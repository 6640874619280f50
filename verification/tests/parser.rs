use asteria::dom::{Dom, NodeId, NodeKind};
use asteria::parser::Parser;
use asteria::tokens::{Attribute, Token, TokenKind};

/// Writes down, in order, the tokens of an HTML string: each call finds
/// the next piece of markup after the previous one and records its range.
struct Tokens<'a> {
    src: &'a str,
    pos: usize,
    out: Vec<Token>,
}

impl<'a> Tokens<'a> {
    fn new(src: &'a str) -> Self {
        Tokens { src, pos: 0, out: Vec::new() }
    }

    fn find(&mut self, pat: &str) -> usize {
        let at = self.pos + self.src[self.pos..].find(pat).expect("markup not found");
        self.pos = at + pat.len();
        at
    }

    fn push(&mut self, kind: TokenKind, start: usize, end: usize, attributes: Vec<Attribute>) {
        self.out.push(Token { kind, start: start as u32, end: end as u32, attributes });
    }

    fn doctype(mut self) -> Self {
        let at = self.find("<!DOCTYPE");
        self.find(">");
        self.push(TokenKind::Doctype, at, at, Vec::new());
        self
    }

    fn start(mut self, name: &str) -> Self {
        let at = self.find(&format!("<{}", name)) + 1;
        self.find(">");
        self.push(TokenKind::StartTag, at, at + name.len(), Vec::new());
        self
    }

    fn start_with(mut self, name: &str, attrs: &[(&str, &str)]) -> Self {
        let at = self.find(&format!("<{}", name)) + 1;
        let mut list = Vec::new();
        for (n, v) in attrs {
            let ns = self.find(n);
            self.find("=\"");
            let vs = self.find(v);
            list.push(Attribute {
                name_start: ns as u32,
                name_end: (ns + n.len()) as u32,
                value_start: vs as u32,
                value_end: (vs + v.len()) as u32,
            });
        }
        self.find(">");
        self.push(TokenKind::StartTag, at, at + name.len(), list);
        self
    }

    fn self_closing(mut self, name: &str) -> Self {
        let at = self.find(&format!("<{}", name)) + 1;
        self.find("/>");
        self.push(TokenKind::SelfClosingTag, at, at + name.len(), Vec::new());
        self
    }

    fn end(mut self, name: &str) -> Self {
        let at = self.find(&format!("</{}", name)) + 2;
        self.find(">");
        self.push(TokenKind::EndTag, at, at + name.len(), Vec::new());
        self
    }

    fn text(mut self, text: &str) -> Self {
        let at = self.find(text);
        self.push(TokenKind::Text, at, at + text.len(), Vec::new());
        self
    }

    fn comment(mut self, body: &str) -> Self {
        self.find("<!--");
        let at = self.find(body);
        self.find("-->");
        self.push(TokenKind::Comment, at, at + body.len(), Vec::new());
        self
    }

    fn finish(mut self) -> Vec<Token> {
        let end = self.src.len();
        self.push(TokenKind::Eof, end, end, Vec::new());
        self.out
    }
}

fn parse(html: &str, tokens: Vec<Token>) -> (Dom, Vec<u8>) {
    let bytes = html.as_bytes().to_vec();
    let mut dom = Dom::new();
    let mut parser = Parser::new();
    parser.push_tokens(&mut dom, &tokens, &bytes);
    (dom, bytes)
}

fn tag_name<'a>(dom: &Dom, id: NodeId, source: &'a [u8]) -> &'a str {
    if let NodeKind::Element { tag_start, tag_end } = dom.get(id).kind {
        std::str::from_utf8(&source[tag_start as usize..tag_end as usize]).unwrap()
    } else {
        panic!("Expected Element node");
    }
}

fn text_content<'a>(dom: &Dom, id: NodeId, source: &'a [u8]) -> &'a str {
    if let NodeKind::Text { start, end } = dom.get(id).kind {
        std::str::from_utf8(&source[start as usize..end as usize]).unwrap()
    } else {
        panic!("Expected Text node");
    }
}

#[test]
fn test_simple_document() {
    let html = "<html><body></body></html>";
    let tokens = Tokens::new(html).start("html").start("body").end("body").end("html").finish();
    let (dom, source) = parse(html, tokens);

    let root = dom.root();
    assert_eq!(dom.get(root).children.len(), 1);
    let html = dom.get(root).children[0];
    assert_eq!(tag_name(&dom, html, &source), "html");
    assert_eq!(dom.get(html).children.len(), 1);
    let body = dom.get(html).children[0];
    assert_eq!(tag_name(&dom, body, &source), "body");
}

#[test]
fn test_text_content() {
    let html = "<p>Hello</p>";
    let tokens = Tokens::new(html).start("p").text("Hello").end("p").finish();
    let (dom, source) = parse(html, tokens);

    let root = dom.root();
    let p = dom.get(root).children[0];
    assert_eq!(tag_name(&dom, p, &source), "p");
    assert_eq!(dom.get(p).children.len(), 1);
    let text = dom.get(p).children[0];
    assert_eq!(text_content(&dom, text, &source), "Hello");
}

#[test]
fn test_nested_elements() {
    let html = "<div><p><span>Deep</span></p></div>";
    let tokens = Tokens::new(html)
        .start("div")
        .start("p")
        .start("span")
        .text("Deep")
        .end("span")
        .end("p")
        .end("div")
        .finish();
    let (dom, source) = parse(html, tokens);

    let root = dom.root();
    let div = dom.get(root).children[0];
    let p = dom.get(div).children[0];
    let span = dom.get(p).children[0];
    let text = dom.get(span).children[0];

    assert_eq!(tag_name(&dom, div, &source), "div");
    assert_eq!(tag_name(&dom, p, &source), "p");
    assert_eq!(tag_name(&dom, span, &source), "span");
    assert_eq!(text_content(&dom, text, &source), "Deep");
}

#[test]
fn test_self_closing_tag() {
    let html = "<div><br/><p>Text</p></div>";
    let tokens = Tokens::new(html)
        .start("div")
        .self_closing("br")
        .start("p")
        .text("Text")
        .end("p")
        .end("div")
        .finish();
    let (dom, source) = parse(html, tokens);

    let root = dom.root();
    let div = dom.get(root).children[0];
    assert_eq!(dom.get(div).children.len(), 2);
    assert_eq!(tag_name(&dom, dom.get(div).children[0], &source), "br");
    assert_eq!(tag_name(&dom, dom.get(div).children[1], &source), "p");
}

#[test]
fn test_void_element() {
    let html = "<div><br><p>Text</p></div>";
    let tokens = Tokens::new(html)
        .start("div")
        .start("br")
        .start("p")
        .text("Text")
        .end("p")
        .end("div")
        .finish();
    let (dom, source) = parse(html, tokens);

    let root = dom.root();
    let div = dom.get(root).children[0];
    assert_eq!(dom.get(div).children.len(), 2);
    assert_eq!(tag_name(&dom, dom.get(div).children[0], &source), "br");
    assert_eq!(tag_name(&dom, dom.get(div).children[1], &source), "p");
}

#[test]
fn test_attributes_preserved() {
    let html = r#"<div class="main" id="container"></div>"#;
    let tokens = Tokens::new(html)
        .start_with("div", &[("class", "main"), ("id", "container")])
        .end("div")
        .finish();
    let (dom, source) = parse(html, tokens);

    let root = dom.root();
    let div = dom.get(root).children[0];
    let attrs = &dom.get(div).attributes;
    assert_eq!(attrs.len(), 2);

    let (ns, ne, vs, ve) = attrs[0];
    assert_eq!(std::str::from_utf8(&source[ns as usize..ne as usize]).unwrap(), "class");
    assert_eq!(std::str::from_utf8(&source[vs as usize..ve as usize]).unwrap(), "main");

    let (ns, ne, vs, ve) = attrs[1];
    assert_eq!(std::str::from_utf8(&source[ns as usize..ne as usize]).unwrap(), "id");
    assert_eq!(std::str::from_utf8(&source[vs as usize..ve as usize]).unwrap(), "container");
}

#[test]
fn test_comment_node() {
    let html = "<div><!-- hello --></div>";
    let tokens = Tokens::new(html).start("div").comment(" hello ").end("div").finish();
    let (dom, source) = parse(html, tokens);

    let root = dom.root();
    let div = dom.get(root).children[0];
    assert_eq!(dom.get(div).children.len(), 1);
    let comment = dom.get(div).children[0];
    if let NodeKind::Comment { start, end } = dom.get(comment).kind {
        let text = std::str::from_utf8(&source[start as usize..end as usize]).unwrap();
        assert_eq!(text.trim(), "hello");
    } else {
        panic!("Expected Comment node");
    }
}

#[test]
fn test_mismatched_tags() {
    let html = "<div><p>Text</div>";
    let tokens = Tokens::new(html).start("div").start("p").text("Text").end("div").finish();
    let (dom, source) = parse(html, tokens);

    let root = dom.root();
    let div = dom.get(root).children[0];
    assert_eq!(tag_name(&dom, div, &source), "div");
    let p = dom.get(div).children[0];
    assert_eq!(tag_name(&dom, p, &source), "p");
    let text = dom.get(p).children[0];
    assert_eq!(text_content(&dom, text, &source), "Text");
}

#[test]
fn test_full_document() {
    let html = r#"<!DOCTYPE html>
<html>
<head>
    <title>Asteria Test</title>
</head>
<body>
    <h1 class="main">Hello, Asteria!</h1>
    <p>This is a <strong>test</strong> page.</p>
    <!-- This is a comment -->
    <br/>
    <div id="container">
        <span>Nested content</span>
    </div>
</body>
</html>"#;
    let tokens = Tokens::new(html)
        .doctype()
        .text("\n")
        .start("html")
        .text("\n")
        .start("head")
        .text("\n    ")
        .start("title")
        .text("Asteria Test")
        .end("title")
        .text("\n")
        .end("head")
        .text("\n")
        .start("body")
        .text("\n    ")
        .start_with("h1", &[("class", "main")])
        .text("Hello, Asteria!")
        .end("h1")
        .text("\n    ")
        .start("p")
        .text("This is a ")
        .start("strong")
        .text("test")
        .end("strong")
        .text(" page.")
        .end("p")
        .text("\n    ")
        .comment(" This is a comment ")
        .text("\n    ")
        .self_closing("br")
        .text("\n    ")
        .start_with("div", &[("id", "container")])
        .text("\n        ")
        .start("span")
        .text("Nested content")
        .end("span")
        .text("\n    ")
        .end("div")
        .text("\n")
        .end("body")
        .text("\n")
        .end("html")
        .finish();
    let (dom, source) = parse(html, tokens);

    let output = dom.format_tree(&source);

    assert!(output.contains("Document"));
    assert!(output.contains("Element <html>"));
    assert!(output.contains("Element <head>"));
    assert!(output.contains("Element <title>"));
    assert!(output.contains("Text \"Asteria Test\""));
    assert!(output.contains("Element <body>"));
    assert!(output.contains("Element <h1 class=\"main\">"));
    assert!(output.contains("Text \"Hello, Asteria!\""));
    assert!(output.contains("Element <strong>"));
    assert!(output.contains("Text \"test\""));
    assert!(output.contains("Comment \"This is a comment\""));
    assert!(output.contains("Element <br>"));
    assert!(output.contains("Element <div id=\"container\">"));
    assert!(output.contains("Element <span>"));
    assert!(output.contains("Text \"Nested content\""));
}

#[test]
fn test_print_tree_output() {
    let html = "<html><head><title>Hello</title></head><body><h1>World</h1></body></html>";
    let tokens = Tokens::new(html)
        .start("html")
        .start("head")
        .start("title")
        .text("Hello")
        .end("title")
        .end("head")
        .start("body")
        .start("h1")
        .text("World")
        .end("h1")
        .end("body")
        .end("html")
        .finish();
    let (dom, source) = parse(html, tokens);
    let output = dom.format_tree(&source);

    let expected = "\
Document
  Element <html>
    Element <head>
      Element <title>
        Text \"Hello\"
    Element <body>
      Element <h1>
        Text \"World\"
";
    assert_eq!(output, expected);
}

#[test]
fn test_multiple_void_elements() {
    let html = "<div><br><hr><img><input></div>";
    let tokens = Tokens::new(html)
        .start("div")
        .start("br")
        .start("hr")
        .start("img")
        .start("input")
        .end("div")
        .finish();
    let (dom, source) = parse(html, tokens);

    let root = dom.root();
    let div = dom.get(root).children[0];
    assert_eq!(dom.get(div).children.len(), 4);
    assert_eq!(tag_name(&dom, dom.get(div).children[0], &source), "br");
    assert_eq!(tag_name(&dom, dom.get(div).children[1], &source), "hr");
    assert_eq!(tag_name(&dom, dom.get(div).children[2], &source), "img");
    assert_eq!(tag_name(&dom, dom.get(div).children[3], &source), "input");
}

#[test]
fn test_deeply_nested() {
    let html = "<a><b><c><d><e>Deep</e></d></c></b></a>";
    let tokens = Tokens::new(html)
        .start("a")
        .start("b")
        .start("c")
        .start("d")
        .start("e")
        .text("Deep")
        .end("e")
        .end("d")
        .end("c")
        .end("b")
        .end("a")
        .finish();
    let (dom, source) = parse(html, tokens);

    let root = dom.root();
    let a = dom.get(root).children[0];
    let b = dom.get(a).children[0];
    let c = dom.get(b).children[0];
    let d = dom.get(c).children[0];
    let e = dom.get(d).children[0];
    let text = dom.get(e).children[0];

    assert_eq!(tag_name(&dom, a, &source), "a");
    assert_eq!(tag_name(&dom, e, &source), "e");
    assert_eq!(text_content(&dom, text, &source), "Deep");
}

#[test]
fn test_siblings_with_mixed_content() {
    let html = "<div><p>One</p>Between<p>Two</p></div>";
    let tokens = Tokens::new(html)
        .start("div")
        .start("p")
        .text("One")
        .end("p")
        .text("Between")
        .start("p")
        .text("Two")
        .end("p")
        .end("div")
        .finish();
    let (dom, source) = parse(html, tokens);

    let root = dom.root();
    let div = dom.get(root).children[0];
    assert_eq!(dom.get(div).children.len(), 3);
    assert_eq!(tag_name(&dom, dom.get(div).children[0], &source), "p");
    assert_eq!(text_content(&dom, dom.get(div).children[1], &source), "Between");
    assert_eq!(tag_name(&dom, dom.get(div).children[2], &source), "p");
}

#[test]
fn test_case_insensitive_end_tags() {
    let html = "<DIV><P>Text</p></div>";
    let tokens = Tokens::new(html)
        .start("DIV")
        .start("P")
        .text("Text")
        .end("p")
        .end("div")
        .finish();
    let (dom, source) = parse(html, tokens);

    let root = dom.root();
    let div = dom.get(root).children[0];
    assert_eq!(tag_name(&dom, div, &source), "DIV");
    let p = dom.get(div).children[0];
    assert_eq!(tag_name(&dom, p, &source), "P");
    assert_eq!(dom.get(root).children.len(), 1);
}

#[test]
fn test_orphan_end_tag_ignored() {
    let html = "<div>Hello</span></div>";
    let tokens = Tokens::new(html).start("div").text("Hello").end("span").end("div").finish();
    let (dom, source) = parse(html, tokens);

    let root = dom.root();
    let div = dom.get(root).children[0];
    assert_eq!(tag_name(&dom, div, &source), "div");
    assert_eq!(dom.get(div).children.len(), 1);
    assert_eq!(text_content(&dom, dom.get(div).children[0], &source), "Hello");
}

// ─── Further cases ───────────────────────────────────────────────

#[test]
fn parser_reports_dirty_nodes() {
    let html = "<div><br>x</div>";
    let tokens = Tokens::new(html).start("div").start("br").text("x").end("div").finish();
    let bytes = html.as_bytes().to_vec();
    let mut dom = Dom::new();
    let mut parser = Parser::new();
    let dirty = parser.push_tokens(&mut dom, &tokens, &bytes);
    // div opened (root dirty), br complete (br, div), text (text, div), </div> closes div.
    assert_eq!(
        dirty,
        vec![NodeId(0), NodeId(2), NodeId(1), NodeId(3), NodeId(1), NodeId(1)]
    );
}

#[test]
fn parser_keeps_open_elements_between_chunks() {
    let html = "<div><p>a</p></div>";
    let all = Tokens::new(html).start("div").start("p").text("a").end("p").end("div").finish();
    let bytes = html.as_bytes().to_vec();
    let mut dom = Dom::new();
    let mut parser = Parser::new();
    parser.push_tokens(&mut dom, &all[..2], &bytes);
    parser.push_tokens(&mut dom, &all[2..], &bytes);
    let div = dom.get(dom.root()).children[0];
    let p = dom.get(div).children[0];
    assert_eq!(tag_name(&dom, p, &bytes), "p");
    assert_eq!(text_content(&dom, dom.get(p).children[0], &bytes), "a");
}

#[test]
fn parser_stops_at_end_of_input() {
    let html = "<p>a</p>";
    let mut tokens = Tokens::new(html).start("p").finish();
    tokens.push(Token { kind: TokenKind::Text, start: 3, end: 4, attributes: Vec::new() });
    let (dom, _) = parse(html, tokens);
    assert_eq!(dom.nodes.len(), 2);
}

#[test]
fn parser_default_matches_new() {
    let html = "<i>";
    let tokens = Tokens::new(html).start("i").finish();
    let bytes = html.as_bytes().to_vec();
    let mut dom = Dom::new();
    let mut parser = Parser::default();
    parser.push_tokens(&mut dom, &tokens, &bytes);
    assert_eq!(dom.get(dom.root()).children.len(), 1);
}
