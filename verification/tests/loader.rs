use asteria::dom::Dom;
use asteria::parser::Parser;
use asteria::tokens::{Attribute, Token, TokenKind};
use asteria::loader::{
    discover_stylesheets, ReadStep, StylesheetSource,
    normalize_path_for, normalize_path_string, resolve_path, LoadError, Resource, ResourceCache,
    ResourceLoader, ResourceType,
};

#[test]
fn test_cache_empty() {
    let cache = ResourceCache::new();
    assert!(cache.is_empty());
    assert_eq!(cache.len(), 0);
    assert!(!cache.contains("anything"));
    assert!(cache.get("anything").is_none());
}

#[test]
fn test_cache_insert_and_get() {
    let mut cache = ResourceCache::new();
    let resource = Resource {
        url: "test.css".to_string(),
        resource_type: ResourceType::Css,
        bytes: b"body { color: red; }".to_vec(),
    };

    cache.insert(resource.clone());

    assert!(cache.contains("test.css"));
    assert_eq!(cache.len(), 1);

    let retrieved = cache.get("test.css").unwrap();
    assert_eq!(retrieved.url, "test.css");
    assert_eq!(retrieved.resource_type, ResourceType::Css);
    assert_eq!(retrieved.bytes, b"body { color: red; }");
}

#[test]
fn test_cache_miss() {
    let mut cache = ResourceCache::new();
    cache.insert(Resource {
        url: "a.css".to_string(),
        resource_type: ResourceType::Css,
        bytes: vec![],
    });

    assert!(cache.get("b.css").is_none());
    assert!(!cache.contains("b.css"));
}

#[test]
fn test_cache_overwrite() {
    let mut cache = ResourceCache::new();
    cache.insert(Resource {
        url: "x.css".to_string(),
        resource_type: ResourceType::Css,
        bytes: b"old".to_vec(),
    });
    cache.insert(Resource {
        url: "x.css".to_string(),
        resource_type: ResourceType::Css,
        bytes: b"new".to_vec(),
    });

    assert_eq!(cache.len(), 1);
    assert_eq!(cache.get("x.css").unwrap().bytes, b"new");
}

#[test]
fn test_cache_clear() {
    let mut cache = ResourceCache::new();
    cache.insert(Resource {
        url: "a.css".to_string(),
        resource_type: ResourceType::Css,
        bytes: vec![],
    });
    cache.insert(Resource {
        url: "b.css".to_string(),
        resource_type: ResourceType::Css,
        bytes: vec![],
    });

    assert_eq!(cache.len(), 2);
    cache.clear();
    assert!(cache.is_empty());
}

#[test]
fn test_load_error_display() {
    let err = LoadError::IoError {
        path: "test.html".to_string(),
        message: "file not found".to_string(),
    };
    let msg = err.message();
    assert!(msg.contains("test.html"));
    assert!(msg.contains("file not found"));
}

#[test]
fn load_error_message_is_exact() {
    let err = LoadError::IoError {
        path: "a.css".to_string(),
        message: "denied".to_string(),
    };
    assert_eq!(err.message(), "Failed to read 'a.css': denied");
}

#[test]
fn cached_html_string_is_retrievable() {
    let mut loader = ResourceLoader::new();
    let res = loader.cache_html_string("<p>Hello</p>", "<test>");
    assert_eq!(res.url, "<test>");
    assert_eq!(res.resource_type, ResourceType::Html);
    assert_eq!(res.bytes, b"<p>Hello</p>");
    assert!(loader.cache.contains("<test>"));
    assert_eq!(loader.cache.get("<test>").unwrap().bytes, b"<p>Hello</p>");
}

#[test]
fn test_resolve_relative_path() {
    let result = resolve_path("style.css", Some("/home/user/site"));
    assert_eq!(result, "/home/user/site/style.css");
}

#[test]
fn test_resolve_nested_relative_path() {
    let result = resolve_path("css/main.css", Some("/home/user/site"));
    assert_eq!(result, "/home/user/site/css/main.css");
}

#[test]
fn test_resolve_no_base_dir() {
    let result = resolve_path("style.css", None);
    assert_eq!(result, "style.css");
}

#[test]
fn test_normalize_backslashes() {
    assert_eq!(
        normalize_path_for("C:\\Users\\test\\file.css", true),
        "C:/Users/test/file.css"
    );
}

#[test]
fn test_normalize_strips_prefix() {
    assert_eq!(
        normalize_path_for("//?/C:/Users/test/file.css", true),
        "C:/Users/test/file.css"
    );
}

#[test]
fn normalize_keeps_paths_elsewhere() {
    assert_eq!(normalize_path_for("a\\b", false), "a\\b");
    assert_eq!(normalize_path_string("/srv/x.css"), "/srv/x.css");
    assert_eq!(resolve_path("/abs/x.css", Some("/base")), "/abs/x.css");
}

fn span(source: &str, needle: &str, from: usize) -> (u32, u32) {
    let at = source[from..].find(needle).unwrap() + from;
    (at as u32, (at + needle.len()) as u32)
}

#[test]
fn discovers_inline_and_linked_stylesheets_in_document_order() {
    let src = r#"<html><head><style>h1 { color: red; }</style><link rel="STYLESHEET" href="a.css"></head><body><style></style><link rel="icon" href="x.ico"><div><style>p{}</style></div></body></html>"#;
    let b = src.as_bytes();
    let mut dom = Dom::new();
    let root = dom.root();
    let (hs, he) = span(src, "html", 0);
    let html = dom.add_element(root, hs, he, &[]);
    let (s, e) = span(src, "head", 0);
    let head = dom.add_element(html, s, e, &[]);
    let (s, e) = span(src, "style", 0);
    let style1 = dom.add_element(head, s, e, &[]);
    let (s, e) = span(src, "h1 { color: red; }", 0);
    dom.add_text(style1, s, e);
    let (ls, le) = span(src, "link", 0);
    let (rn, rne) = span(src, "rel", 0);
    let (rv, rve) = span(src, "STYLESHEET", 0);
    let (hn, hne) = span(src, "href", 0);
    let (hv, hve) = span(src, "a.css", 0);
    dom.add_element(
        head,
        ls,
        le,
        &[
            Attribute { name_start: rn, name_end: rne, value_start: rv, value_end: rve },
            Attribute { name_start: hn, name_end: hne, value_start: hv, value_end: hve },
        ],
    );
    let (s, e) = span(src, "body", 0);
    let body = dom.add_element(html, s, e, &[]);
    let (s, e) = span(src, "style", he as usize + 40);
    dom.add_element(body, s, e, &[]);
    let (s, e) = span(src, "link", le as usize);
    let (r2, r2e) = span(src, "rel", e as usize);
    let (i2, i2e) = span(src, "icon", e as usize);
    dom.add_element(
        body,
        s,
        e,
        &[Attribute { name_start: r2, name_end: r2e, value_start: i2, value_end: i2e }],
    );
    let (s, e) = span(src, "div", 0);
    let div = dom.add_element(body, s, e, &[]);
    let (s, e) = span(src, "style", s as usize);
    let style3 = dom.add_element(div, s, e, &[]);
    let (s, e) = span(src, "p{}", 0);
    dom.add_text(style3, s, e);

    let found = discover_stylesheets(&dom, b);
    assert_eq!(
        found,
        vec![
            StylesheetSource::Inline {
                url: "<inline:0>".to_string(),
                css: b"h1 { color: red; }".to_vec()
            },
            StylesheetSource::Link { href: "a.css".to_string() },
            StylesheetSource::Inline { url: "<inline:1>".to_string(), css: b"p{}".to_vec() },
        ]
    );
}

#[test]
fn document_without_stylesheets_finds_nothing() {
    let src = "<p>Hello</p>";
    let mut dom = Dom::new();
    let root = dom.root();
    let p = dom.add_element(root, 1, 2, &[]);
    dom.add_text(p, 3, 8);
    assert!(discover_stylesheets(&dom, src.as_bytes()).is_empty());
}

/// The tokens of an HTML string, written down in order: each call finds
/// the next piece of markup after the previous one.
struct Tokens<'a> {
    src: &'a str,
    pos: usize,
    out: Vec<Token>,
}

impl<'a> Tokens<'a> {
    fn new(src: &'a str) -> Self {
        Tokens { src, pos: 0, out: Vec::new() }
    }

    fn find(&mut self, pat: &str) -> usize {
        let at = self.pos + self.src[self.pos..].find(pat).expect("markup not found");
        self.pos = at + pat.len();
        at
    }

    fn push(&mut self, kind: TokenKind, start: usize, end: usize, attributes: Vec<Attribute>) {
        self.out.push(Token { kind, start: start as u32, end: end as u32, attributes });
    }

    fn start(self, name: &str) -> Self {
        self.start_with(name, &[])
    }

    fn start_with(mut self, name: &str, attrs: &[(&str, &str)]) -> Self {
        let at = self.find(&format!("<{}", name)) + 1;
        let mut list = Vec::new();
        for (n, v) in attrs {
            let ns = self.find(n);
            self.find("=\"");
            let vs = self.find(v);
            list.push(Attribute {
                name_start: ns as u32,
                name_end: (ns + n.len()) as u32,
                value_start: vs as u32,
                value_end: (vs + v.len()) as u32,
            });
        }
        self.find(">");
        self.push(TokenKind::StartTag, at, at + name.len(), list);
        self
    }

    fn end(mut self, name: &str) -> Self {
        let at = self.find(&format!("</{}", name)) + 2;
        self.find(">");
        self.push(TokenKind::EndTag, at, at + name.len(), Vec::new());
        self
    }

    fn text(mut self, text: &str) -> Self {
        let at = self.find(text);
        self.push(TokenKind::Text, at, at + text.len(), Vec::new());
        self
    }

    fn finish(mut self) -> Vec<Token> {
        let end = self.src.len();
        self.push(TokenKind::Eof, end, end, Vec::new());
        self.out
    }
}

fn parse(html: &str, tokens: Vec<Token>) -> Dom {
    let mut dom = Dom::new();
    let mut parser = Parser::new();
    parser.push_tokens(&mut dom, &tokens, html.as_bytes());
    dom
}

/// The stylesheets of a document as the loader gathers them: inline
/// blocks as they are, linked files through the cache or a read, which
/// `read_file` stands in for.
fn gather(
    loader: &mut ResourceLoader,
    dom: &Dom,
    html: &[u8],
    read_file: &dyn Fn(&str) -> Result<Vec<u8>, String>,
) -> Vec<Resource> {
    gather_sources(loader, discover_stylesheets(dom, html), read_file)
}

fn gather_sources(
    loader: &mut ResourceLoader,
    sources: Vec<StylesheetSource>,
    read_file: &dyn Fn(&str) -> Result<Vec<u8>, String>,
) -> Vec<Resource> {
    let mut stylesheets = Vec::new();
    for source in sources {
        match source {
            StylesheetSource::Inline { url, css } => {
                stylesheets.push(Resource { url, resource_type: ResourceType::Css, bytes: css })
            }
            StylesheetSource::Link { href } => {
                let path = resolve_path(&href, None);
                let read = match loader.begin_read(&path) {
                    ReadStep::Cached(r) => Ok(r),
                    ReadStep::ReadFile(p) => {
                        let bytes = read_file(&p);
                        loader.finish_read(&p, ResourceType::Css, bytes)
                    }
                };
                if let Ok(r) = read {
                    stylesheets.push(r);
                }
            }
        }
    }
    stylesheets
}

fn no_files(path: &str) -> Result<Vec<u8>, String> {
    Err(format!("{}: No such file or directory", path))
}

#[test]
fn test_discover_inline_style_empty() {
    let html = "<html><body><p>Hello</p></body></html>";
    let tokens = Tokens::new(html)
        .start("html")
        .start("body")
        .start("p")
        .text("Hello")
        .end("p")
        .end("body")
        .end("html")
        .finish();
    let dom = parse(html, tokens);
    let mut loader = ResourceLoader::new();
    let stylesheets = gather(&mut loader, &dom, html.as_bytes(), &no_files);
    assert!(stylesheets.is_empty());
}

#[test]
fn test_discover_inline_style() {
    let html = "<html><head><style>body { margin: 0; }</style></head><body></body></html>";
    let tokens = Tokens::new(html)
        .start("html")
        .start("head")
        .start("style")
        .text("body { margin: 0; }")
        .end("style")
        .end("head")
        .start("body")
        .end("body")
        .end("html")
        .finish();
    let dom = parse(html, tokens);
    let mut loader = ResourceLoader::new();
    let stylesheets = gather(&mut loader, &dom, html.as_bytes(), &no_files);
    assert_eq!(stylesheets.len(), 1);
    let css = std::str::from_utf8(&stylesheets[0].bytes).unwrap();
    assert!(css.contains("margin: 0"));
}

#[test]
fn test_discover_link_stylesheet_no_file() {
    let html = r#"<html><head><link rel="stylesheet" href="missing.css"></head><body></body></html>"#;
    let tokens = Tokens::new(html)
        .start("html")
        .start("head")
        .start_with("link", &[("rel", "stylesheet"), ("href", "missing.css")])
        .end("head")
        .start("body")
        .end("body")
        .end("html")
        .finish();
    let dom = parse(html, tokens);
    let mut loader = ResourceLoader::new();
    let stylesheets = gather(&mut loader, &dom, html.as_bytes(), &no_files);
    assert!(stylesheets.is_empty());
}

#[test]
fn test_discover_link_not_stylesheet() {
    let html = r#"<html><head><link rel="icon" href="favicon.ico"></head><body></body></html>"#;
    let tokens = Tokens::new(html)
        .start("html")
        .start("head")
        .start_with("link", &[("rel", "icon"), ("href", "favicon.ico")])
        .end("head")
        .start("body")
        .end("body")
        .end("html")
        .finish();
    let dom = parse(html, tokens);
    let mut loader = ResourceLoader::new();
    let stylesheets = gather(&mut loader, &dom, html.as_bytes(), &no_files);
    assert!(stylesheets.is_empty());
}

#[test]
fn linked_stylesheet_is_read_once_then_cached() {
    let html = r#"<link rel="stylesheet" href="/site/a.css">"#;
    let tokens = Tokens::new(html)
        .start_with("link", &[("rel", "stylesheet"), ("href", "/site/a.css")])
        .finish();
    let dom = parse(html, tokens);
    let mut loader = ResourceLoader::new();
    let first = gather(&mut loader, &dom, html.as_bytes(), &|_| Ok(b"p { color: red; }".to_vec()));
    assert_eq!(first.len(), 1);
    assert_eq!(first[0].url, "/site/a.css");
    assert_eq!(first[0].bytes, b"p { color: red; }");
    assert!(loader.cache.contains("/site/a.css"));
    let again = gather(&mut loader, &dom, html.as_bytes(), &|_| panic!("read twice"));
    assert_eq!(again[0].bytes, b"p { color: red; }");
}

#[test]
fn failed_read_names_the_path() {
    let mut loader = ResourceLoader::new();
    match loader.finish_read("x.css", ResourceType::Css, Err("denied".to_string())) {
        Err(e) => assert_eq!(e.message(), "Failed to read 'x.css': denied"),
        Ok(_) => panic!("expected an error"),
    }
    assert!(loader.cache.is_empty());
}

/// An in-memory page loaded by the loader from its tokens, with its linked
/// stylesheets read (in-memory pages have no files to read).
fn load_html_string(loader: &mut ResourceLoader, html: &str, base_url: &str, tokens: Vec<Token>) -> (Resource, Vec<Resource>) {
    let page = loader.load_html_string(html, base_url, &tokens);
    let stylesheets = gather_sources(loader, page.stylesheets, &no_files);
    (page.html, stylesheets)
}

#[test]
fn test_load_html_string_no_css() {
    let html = "<p>Hello</p>";
    let tokens = Tokens::new(html).start("p").text("Hello").end("p").finish();
    let mut loader = ResourceLoader::new();
    let (page, stylesheets) = load_html_string(&mut loader, html, "<test>", tokens);
    assert_eq!(page.url, "<test>");
    assert_eq!(page.resource_type, ResourceType::Html);
    assert!(stylesheets.is_empty());
}

#[test]
fn test_load_html_string_with_inline_style() {
    let html = r#"<html><head><style>h1 { color: red; }</style></head><body><h1>Hello</h1></body></html>"#;
    let tokens = Tokens::new(html)
        .start("html")
        .start("head")
        .start("style")
        .text("h1 { color: red; }")
        .end("style")
        .end("head")
        .start("body")
        .start("h1")
        .text("Hello")
        .end("h1")
        .end("body")
        .end("html")
        .finish();
    let mut loader = ResourceLoader::new();
    let (_, stylesheets) = load_html_string(&mut loader, html, "<test>", tokens);
    assert_eq!(stylesheets.len(), 1);
    assert_eq!(stylesheets[0].url, "<inline:0>");
    assert_eq!(stylesheets[0].resource_type, ResourceType::Css);
    let css_text = std::str::from_utf8(&stylesheets[0].bytes).unwrap();
    assert!(css_text.contains("color: red"));
}

#[test]
fn test_load_html_string_multiple_style_blocks() {
    let html = r#"<html>
            <head>
                <style>h1 { color: red; }</style>
                <style>p { margin: 10px; }</style>
            </head>
            <body><h1>Hello</h1><p>World</p></body>
        </html>"#;
    let tokens = Tokens::new(html)
        .start("html")
        .start("head")
        .start("style")
        .text("h1 { color: red; }")
        .end("style")
        .start("style")
        .text("p { margin: 10px; }")
        .end("style")
        .end("head")
        .start("body")
        .start("h1")
        .text("Hello")
        .end("h1")
        .start("p")
        .text("World")
        .end("p")
        .end("body")
        .end("html")
        .finish();
    let mut loader = ResourceLoader::new();
    let (_, stylesheets) = load_html_string(&mut loader, html, "<test>", tokens);
    assert_eq!(stylesheets.len(), 2);
    assert_eq!(stylesheets[0].url, "<inline:0>");
    assert_eq!(stylesheets[1].url, "<inline:1>");
}

#[test]
fn test_load_html_string_caches_html() {
    let html = "<p>Hello</p>";
    let tokens = Tokens::new(html).start("p").text("Hello").end("p").finish();
    let mut loader = ResourceLoader::new();
    let _ = load_html_string(&mut loader, html, "<test>", tokens);
    assert!(loader.cache.contains("<test>"));
}

#[test]
fn test_load_file_not_found() {
    let mut loader = ResourceLoader::new();
    let path = "this_file_does_not_exist_12345.html";
    let result = match loader.begin_read(path) {
        ReadStep::Cached(r) => Ok(r),
        ReadStep::ReadFile(p) => {
            let read = no_files(&p);
            loader.finish_read(&p, ResourceType::Html, read)
        }
    };
    assert!(result.is_err());
}
