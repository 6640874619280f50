//! The resource layer: loaded resources, the in-memory resource cache, and
//! the discovery of a page's stylesheets (inline `<style>` blocks and
//! `<link rel="stylesheet">` references) in document order.
#![verifier::loop_isolation(false)]

use vstd::prelude::*;

use vstd::utf8::encode_utf8;

use crate::dom::{node_infos, text_of, Dom, Node, NodeId, NodeKind};
use crate::parser::{parse_tokens, tokens_fit, Parser};
use crate::tokens::Token;
use crate::text::{
    chars_eq_ignore_case, chars_of, decimal, decimal_exec, decode_or_empty, decode_or_empty_exec,
    eq_ignore_case, extend_chars, extend_str, owned, slice_chars, starts_with, starts_with_exec,
    str_eq, string_bytes, string_from_chars,
};

verus! {

// ─── Resources ───────────────────────────────────────────────────

/// What kind of resource a file is.
#[derive(Debug, Clone, Copy, PartialEq, Eq, Structural)]
pub enum ResourceType {
    Html,
    Css,
}

/// A loaded resource: where it came from (its cache key), its kind, and its
/// raw bytes.
#[derive(Debug, Clone)]
pub struct Resource {
    pub url: String,
    pub resource_type: ResourceType,
    pub bytes: Vec<u8>,
}

/// Everything needed to render a page: the HTML document and its
/// stylesheets in document order.
#[derive(Debug)]
pub struct PageResources {
    pub html: Resource,
    pub stylesheets: Vec<Resource>,
}

/// The observable content of a resource.
pub open spec fn res_view(r: Resource) -> (Seq<char>, ResourceType, Seq<u8>) {
    (r.url@, r.resource_type, r.bytes@)
}

fn copy_resource(r: &Resource) -> (res: Resource)
    ensures
        res_view(res) == res_view(*r),
{
    Resource { url: r.url.clone(), resource_type: r.resource_type, bytes: r.bytes.clone() }
}

// ─── Resource cache ──────────────────────────────────────────────

/// The position of the resource stored under `url`, if any.
pub open spec fn url_index(v: Seq<(Seq<char>, ResourceType, Seq<u8>)>, url: Seq<char>) -> Option<int> {
    if exists|i: int| 0 <= i < v.len() && v[i].0 == url {
        Some(choose|i: int| 0 <= i < v.len() && v[i].0 == url)
    } else {
        None
    }
}

/// No URL is stored twice.
pub open spec fn urls_distinct(v: Seq<(Seq<char>, ResourceType, Seq<u8>)>) -> bool {
    forall|i: int, j: int| 0 <= i < j < v.len() ==> v[i].0 != v[j].0
}

/// The cache after inserting `r`: it replaces the resource with the same
/// URL, or is added.
pub open spec fn cache_insert(v: Seq<(Seq<char>, ResourceType, Seq<u8>)>, r: (Seq<char>, ResourceType, Seq<u8>)) -> Seq<(Seq<char>, ResourceType, Seq<u8>)> {
    match url_index(v, r.0) {
        Some(i) => v.update(i, r),
        None => v.push(r),
    }
}

proof fn lemma_url_index(v: Seq<(Seq<char>, ResourceType, Seq<u8>)>, url: Seq<char>, i: int)
    requires
        urls_distinct(v),
        0 <= i < v.len(),
        v[i].0 == url,
    ensures
        url_index(v, url) == Some(i),
{
    let k = choose|k: int| 0 <= k < v.len() && v[k].0 == url;
    assert(0 <= k < v.len() && v[k].0 == url);
    if k < i {
        assert(v[k].0 != v[i].0);
    }
    if i < k {
        assert(v[i].0 != v[k].0);
    }
}

/// Reading a URL right after inserting a resource under it gives that
/// resource; other URLs keep what they had; URLs stay distinct.
pub proof fn lemma_cache_insert_then_get(
    v: Seq<(Seq<char>, ResourceType, Seq<u8>)>,
    r: (Seq<char>, ResourceType, Seq<u8>),
    other: Seq<char>,
)
    requires
        urls_distinct(v),
    ensures
        urls_distinct(cache_insert(v, r)),
        url_index(cache_insert(v, r), r.0) matches Some(i) && cache_insert(v, r)[i] == r,
        other != r.0 ==> (match url_index(v, other) {
            Some(j) => url_index(cache_insert(v, r), other) == Some(j) && cache_insert(v, r)[j]
                == v[j],
            None => url_index(cache_insert(v, r), other) is None,
        }),
{
    let w = cache_insert(v, r);
    match url_index(v, r.0) {
        Some(i) => {
            let k = choose|k: int| 0 <= k < v.len() && v[k].0 == r.0;
            assert(0 <= k < v.len() && v[k].0 == r.0);
            assert forall|a: int, b: int| 0 <= a < b < w.len() implies w[a].0 != w[b].0 by {
                if a == k {
                    assert(v[k].0 != v[b].0);
                }
                if b == k {
                    assert(v[a].0 != v[k].0);
                }
            }
            lemma_url_index(w, r.0, k);
            if other != r.0 {
                if let Some(j) = url_index(v, other) {
                    let jj = choose|jj: int| 0 <= jj < v.len() && v[jj].0 == other;
                    lemma_url_index(w, other, jj);
                } else {
                    if exists|j: int| 0 <= j < w.len() && w[j].0 == other {
                        let j = choose|j: int| 0 <= j < w.len() && w[j].0 == other;
                        assert(v[j].0 == other);
                    }
                }
            }
        },
        None => {
            assert forall|a: int, b: int| 0 <= a < b < w.len() implies w[a].0 != w[b].0 by {
                if b == v.len() {
                    assert(w[a] == v[a]);
                }
            }
            lemma_url_index(w, r.0, v.len() as int);
            if other != r.0 {
                if let Some(j) = url_index(v, other) {
                    let jj = choose|jj: int| 0 <= jj < v.len() && v[jj].0 == other;
                    assert(w[jj] == v[jj]);
                    lemma_url_index(w, other, jj);
                } else {
                    if exists|j: int| 0 <= j < w.len() && w[j].0 == other {
                        let j = choose|j: int| 0 <= j < w.len() && w[j].0 == other;
                        assert(w[j] == v[j]);
                    }
                }
            }
        },
    }
}

/// An in-memory cache of resources keyed by their URL string, so the same
/// file is never read twice in a session.
#[derive(Debug)]
pub struct ResourceCache {
    entries: Vec<Resource>,
}

impl View for ResourceCache {
    type V = Seq<(Seq<char>, ResourceType, Seq<u8>)>;

    closed spec fn view(&self) -> Seq<(Seq<char>, ResourceType, Seq<u8>)> {
        self.entries@.map_values(|r: Resource| res_view(r))
    }
}

impl ResourceCache {
    /// URLs are distinct.
    pub closed spec fn wf(&self) -> bool {
        urls_distinct(self@)
    }

    pub fn new() -> (res: Self)
        ensures
            res.wf(),
            res@ == Seq::<(Seq<char>, ResourceType, Seq<u8>)>::empty(),
    {
        let res = ResourceCache { entries: Vec::new() };
        assert(res@ =~= Seq::<(Seq<char>, ResourceType, Seq<u8>)>::empty());
        res
    }

    fn position(&self, url: &str) -> (res: Option<usize>)
        requires
            self.wf(),
        ensures
            match res {
                Some(i) => url_index(self@, url@) == Some(i as int) && i < self@.len(),
                None => url_index(self@, url@) is None,
            },
    {
        let mut i: usize = 0;
        while i < self.entries.len()
            invariant
                i <= self.entries@.len(),
                forall|j: int| 0 <= j < i ==> self@[j].0 != url@,
            decreases self.entries@.len() - i,
        {
            if str_eq(self.entries[i].url.as_str(), url) {
                proof {
                    lemma_url_index(self@, url@, i as int);
                }
                return Some(i);
            }
            i += 1;
        }
        None
    }

    /// Is a resource cached under this URL?
    pub fn contains(&self, url: &str) -> (res: bool)
        requires
            self.wf(),
        ensures
            res == (url_index(self@, url@) is Some),
    {
        self.position(url).is_some()
    }

    /// A copy of the resource cached under this URL.
    pub fn get(&self, url: &str) -> (res: Option<Resource>)
        requires
            self.wf(),
        ensures
            match url_index(self@, url@) {
                Some(i) => res matches Some(r) && res_view(r) == self@[i],
                None => res is None,
            },
    {
        match self.position(url) {
            Some(i) => Some(copy_resource(&self.entries[i])),
            None => None,
        }
    }

    /// Cache a resource under its URL, replacing any resource with that URL.
    pub fn insert(&mut self, resource: Resource)
        requires
            old(self).wf(),
        ensures
            final(self).wf(),
            final(self)@ == cache_insert(old(self)@, res_view(resource)),
    {
        proof {
            lemma_cache_insert_then_get(self@, res_view(resource), resource.url@);
        }
        let ghost r = res_view(resource);
        match self.position(resource.url.as_str()) {
            Some(i) => {
                self.entries.set(i, resource);
                assert(self@ =~= old(self)@.update(i as int, r));
            },
            None => {
                self.entries.push(resource);
                assert(self@ =~= old(self)@.push(r));
            },
        }
    }

    /// The number of cached resources.
    pub fn len(&self) -> (res: usize)
        ensures
            res == self@.len(),
    {
        self.entries.len()
    }

    /// Whether nothing is cached.
    pub fn is_empty(&self) -> (res: bool)
        ensures
            res == (self@.len() == 0),
    {
        self.entries.len() == 0
    }

    /// Drop every cached resource.
    pub fn clear(&mut self)
        ensures
            final(self).wf(),
            final(self)@ == Seq::<(Seq<char>, ResourceType, Seq<u8>)>::empty(),
    {
        self.entries.clear();
        assert(self@ =~= Seq::<(Seq<char>, ResourceType, Seq<u8>)>::empty());
    }
}

/// The resource loader: the cache of everything read so far.
pub struct ResourceLoader {
    pub cache: ResourceCache,
}

impl ResourceLoader {
    /// A loader with an empty cache.
    pub fn new() -> (res: Self)
        ensures
            res.cache.wf(),
            res.cache@ == Seq::<(Seq<char>, ResourceType, Seq<u8>)>::empty(),
    {
        ResourceLoader { cache: ResourceCache::new() }
    }

    /// Register an in-memory HTML document under `base_url` (the cache key;
    /// in-memory documents have no base directory) and return it as a
    /// resource.
    pub fn cache_html_string(&mut self, html: &str, base_url: &str) -> (res: Resource)
        requires
            old(self).cache.wf(),
        ensures
            final(self).cache.wf(),
            res_view(res) == (base_url@, ResourceType::Html, vstd::utf8::encode_utf8(html@)),
            final(self).cache@ == cache_insert(old(self).cache@, res_view(res)),
    {
        let bytes = html.as_bytes_vec();
        let resource = Resource { url: owned(base_url), resource_type: ResourceType::Html, bytes };
        self.cache.insert(copy_resource(&resource));
        resource
    }
}

/// The first step of reading a resource: the cache already holds it, or
/// the file at the path has to be read.
#[derive(Debug)]
pub enum ReadStep {
    /// The cached copy.
    Cached(Resource),
    /// The path of the file to read.
    ReadFile(String),
}

impl ResourceLoader {
    /// Start reading the resource at `path`: a resource cached under that
    /// path is handed back as it is, so no file is read twice; otherwise
    /// the file has to be read.
    pub fn begin_read(&self, path: &str) -> (res: ReadStep)
        requires
            self.cache.wf(),
        ensures
            match url_index(self.cache@, path@) {
                Some(i) => res matches ReadStep::Cached(r) && res_view(r) == self.cache@[i],
                None => res matches ReadStep::ReadFile(p) && p@ == path@,
            },
    {
        match self.cache.get(path) {
            Some(r) => ReadStep::Cached(r),
            None => ReadStep::ReadFile(owned(path)),
        }
    }

    /// Finish reading the file at `path` with what was read: its bytes, or
    /// the text of the error. Bytes become a resource of `resource_type`
    /// under `path`, which is cached and returned; an error becomes an
    /// `IoError` naming the path, and the cache is left as it was.
    pub fn finish_read(
        &mut self,
        path: &str,
        resource_type: ResourceType,
        read: Result<Vec<u8>, String>,
    ) -> (res: Result<Resource, LoadError>)
        requires
            old(self).cache.wf(),
        ensures
            final(self).cache.wf(),
            match read {
                Ok(bytes) => res matches Ok(r) && res_view(r) == (path@, resource_type, bytes@)
                    && final(self).cache@ == cache_insert(old(self).cache@, res_view(r)),
                Err(text) => res matches Err(LoadError::IoError { path: p, message: m }) && p@
                    == path@ && m@ == text@ && final(self).cache@ == old(self).cache@,
            },
    {
        match read {
            Ok(bytes) => {
                let resource = Resource { url: owned(path), resource_type, bytes };
                self.cache.insert(copy_resource(&resource));
                Ok(resource)
            },
            Err(text) => Err(LoadError::IoError { path: owned(path), message: text }),
        }
    }
}

// ─── Paths ───────────────────────────────────────────────────────

/// A relative path with neither root nor prefix on any platform: not
/// empty, not starting with `/` or `\`, and without `:`.
pub open spec fn plain_relative(p: Seq<char>) -> bool {
    p.len() > 0 && p[0] != '/' && p[0] != '\\' && !p.contains(':')
}

/// A base directory that joining only extends: not empty, not starting
/// with `\` (no verbatim or device prefix), not ending with `:` or `\`.
pub open spec fn plain_base(b: Seq<char>) -> bool {
    b.len() > 0 && b[0] != '\\' && b.last() != ':' && b.last() != '\\'
}

/// `b` joined to `p` with separator `c`: none is added when `b` already
/// ends with `/`, a separator on every platform.
pub open spec fn joined_with(b: Seq<char>, c: char, p: Seq<char>) -> Seq<char> {
    if b.len() > 0 && b.last() == '/' {
        b + p
    } else {
        b + seq![c] + p
    }
}

/// `std::path::MAIN_SEPARATOR`: the platform's separator, `/` or `\`.
#[verifier::external_body]
fn main_separator() -> (res: char)
    ensures
        res == '/' || res == '\\',
{
    std::path::MAIN_SEPARATOR
}

/// `Path::is_absolute`: a path with neither root nor prefix is relative on
/// every platform.
#[verifier::external_body]
fn path_is_absolute(path: &str) -> (res: bool)
    ensures
        plain_relative(path@) ==> !res,
{
    std::path::Path::new(path).is_absolute()
}

/// `Path::join` as a string: a relative path without root or prefix
/// extends a plain base directory, after the platform's separator when the
/// base does not already end with `/`. The separator is `/` or `\`; which
/// one is the platform's.
#[verifier::external_body]
fn path_join(base: &str, path: &str) -> (res: String)
    ensures
        plain_relative(path@) && plain_base(base@) ==> res@ == joined_with(base@, '/', path@) || res@
            == joined_with(base@, '\\', path@),
{
    std::path::Path::new(base).join(path).to_string_lossy().into_owned()
}

/// A path as the loader writes it: on Windows, backslashes become slashes
/// and an extended-length prefix `//?/` is dropped; elsewhere unchanged.
pub open spec fn spec_normalize_path(path: Seq<char>, windows: bool) -> Seq<char> {
    if windows {
        let n = path.map_values(|c: char| if c == '\\' { '/' } else { c });
        if starts_with(n, "//?/"@) {
            n.skip(4)
        } else {
            n
        }
    } else {
        path
    }
}

/// Normalize a path by the rules of Windows (`windows`) or of other
/// platforms.
pub fn normalize_path_for(path: &str, windows: bool) -> (res: String)
    ensures
        res@ == spec_normalize_path(path@, windows),
{
    if !windows {
        return owned(path);
    }
    let cs = chars_of(path);
    let mut n: Vec<char> = Vec::new();
    let mut i: usize = 0;
    while i < cs.len()
        invariant
            i <= cs@.len(),
            n@ == cs@.take(i as int).map_values(|c: char| if c == '\\' { '/' } else { c }),
        decreases cs@.len() - i,
    {
        let c = cs[i];
        n.push(if c == '\\' { '/' } else { c });
        i += 1;
        assert(n@ =~= cs@.take(i as int).map_values(|c: char| if c == '\\' { '/' } else { c }));
    }
    assert(cs@.take(cs@.len() as int) =~= cs@);
    let prefix = chars_of("//?/");
    if starts_with_exec(n.as_slice(), prefix.as_slice()) {
        proof {
            reveal_strlit("//?/");
        }
        let rest = slice_chars(n.as_slice(), 4, n.len());
        assert(rest@ =~= n@.skip(4));
        string_from_chars(rest.as_slice())
    } else {
        string_from_chars(n.as_slice())
    }
}

/// Normalize a path by the rules of the platform the code runs on.
pub fn normalize_path_string(path: &str) -> (res: String)
    ensures
        res@ == spec_normalize_path(path@, false) || res@ == spec_normalize_path(path@, true),
{
    normalize_path_for(path, main_separator() == '\\')
}

/// `r` is `b` joined to `p` and normalized, by the rules of one of the
/// platforms.
pub open spec fn resolved_from(r: Seq<char>, b: Seq<char>, p: Seq<char>) -> bool {
    ||| r == spec_normalize_path(joined_with(b, '/', p), false)
    ||| r == spec_normalize_path(joined_with(b, '/', p), true)
    ||| r == spec_normalize_path(joined_with(b, '\\', p), false)
    ||| r == spec_normalize_path(joined_with(b, '\\', p), true)
}

/// Resolve a possibly relative path against a base directory: an absolute
/// path is kept, a relative one is joined to the base directory; both are
/// then normalized. Without a base directory a relative path is returned
/// as it is.
pub fn resolve_path(href: &str, base_dir: Option<&str>) -> (res: String)
    ensures
        base_dir is None ==> res@ == href@ || res@ == spec_normalize_path(href@, true),
        plain_relative(href@) ==> match base_dir {
            Some(b) => plain_base(b@) ==> resolved_from(res@, b@, href@),
            None => res@ == href@,
        },
{
    if path_is_absolute(href) {
        return normalize_path_string(href);
    }
    match base_dir {
        Some(base) => {
            let joined = path_join(base, href);
            normalize_path_string(joined.as_str())
        },
        None => owned(href),
    }
}

// ─── Stylesheet discovery ────────────────────────────────────────

/// A stylesheet found in a document: an inline `<style>` block, named
/// `<inline:N>` by its place among the inline blocks, with its CSS as
/// bytes; or the `href` of a `<link rel="stylesheet">`, for the caller to
/// resolve and read.
#[derive(Debug, Clone, PartialEq, Eq)]
pub enum StylesheetSource {
    Inline { url: String, css: Vec<u8> },
    Link { href: String },
}

/// A found stylesheet as characters and bytes.
pub enum SourceView {
    Inline(Seq<char>, Seq<u8>),
    Link(Seq<char>),
}

impl View for StylesheetSource {
    type V = SourceView;

    open spec fn view(&self) -> SourceView {
        match self {
            StylesheetSource::Inline { url, css } => SourceView::Inline(url@, css@),
            StylesheetSource::Link { href } => SourceView::Link(href@),
        }
    }
}

/// The views of a list of found stylesheets.
pub open spec fn sources_view(v: Seq<StylesheetSource>) -> Seq<SourceView> {
    v.map_values(|x: StylesheetSource| x@)
}

/// What one stylesheet node contributes: inline CSS text, or an `href`.
pub enum Found {
    Css(Seq<char>),
    Href(Seq<char>),
}


/// The text of the text nodes among `kids`, concatenated.
pub open spec fn style_text(n: Seq<Node>, src: Seq<u8>, kids: Seq<NodeId>) -> Seq<char>
    decreases kids.len(),
{
    if kids.len() == 0 {
        Seq::empty()
    } else {
        let c = kids.last().0 as int;
        style_text(n, src, kids.drop_last()) + if 0 <= c < n.len() {
            match n[c].kind {
                NodeKind::Text { start, end } => text_of(src, start, end),
                _ => Seq::empty(),
            }
        } else {
            Seq::empty()
        }
    }
}

/// Reading a `<link>`'s attributes in order: whether one says
/// `rel="stylesheet"` (any case), and the last non-empty `href`; an
/// attribute whose value range starts or ends at 0 has no value.
pub open spec fn link_info(src: Seq<u8>, attrs: Seq<(u32, u32, u32, u32)>) -> (bool, Option<Seq<char>>)
    decreases attrs.len(),
{
    if attrs.len() == 0 {
        (false, None)
    } else {
        let prev = link_info(src, attrs.drop_last());
        let a = attrs.last();
        let name = text_of(src, a.0, a.1);
        let has_value = a.2 != 0 && a.3 != 0;
        let value = text_of(src, a.2, a.3);
        (
            prev.0 || (eq_ignore_case(name, "rel"@) && has_value && eq_ignore_case(value, "stylesheet"@)),
            if eq_ignore_case(name, "href"@) && has_value && value.len() > 0 {
                Some(value)
            } else {
                prev.1
            },
        )
    }
}

/// How a node takes part in discovery: `None` when it is not a stylesheet
/// node, so its children are searched; otherwise what it contributes, if
/// anything, and its children are not searched. A `<style>` element
/// contributes its text when not empty; a `<link>` whose `rel` is
/// `stylesheet` contributes its `href` when it has one.
pub open spec fn node_find(node: Node, n: Seq<Node>, src: Seq<u8>) -> Option<Option<Found>> {
    match node.kind {
        NodeKind::Element { tag_start, tag_end } => {
            let tag = text_of(src, tag_start, tag_end);
            if eq_ignore_case(tag, "style"@) {
                let css = style_text(n, src, node.children@);
                Some(
                    if css.len() > 0 {
                        Some(Found::Css(css))
                    } else {
                        None
                    },
                )
            } else if eq_ignore_case(tag, "link"@) && link_info(src, node.attributes@).0 {
                Some(
                    match link_info(src, node.attributes@).1 {
                        Some(h) => Some(Found::Href(h)),
                        None => None,
                    },
                )
            } else {
                None
            }
        },
        _ => None,
    }
}

/// What discovery finds in the subtree at `id`, in document order.
pub open spec fn found_in(n: Seq<Node>, id: int, src: Seq<u8>) -> Seq<Found>
    decreases n.len() - id, 1int, 0int,
{
    if 0 <= id < n.len() {
        match node_find(n[id], n, src) {
            Some(Some(f)) => seq![f],
            Some(None) => Seq::empty(),
            None => found_in_children(n, id, n[id].children@.len() as int, src),
        }
    } else {
        Seq::empty()
    }
}

/// What discovery finds in the subtrees of the first `k` children of `id`.
pub open spec fn found_in_children(n: Seq<Node>, id: int, k: int, src: Seq<u8>) -> Seq<Found>
    decreases n.len() - id, 0int, k,
{
    if 0 <= id < n.len() && 0 < k <= n[id].children@.len() {
        let c = n[id].children@[k - 1].0 as int;
        found_in_children(n, id, k - 1, src) + if id < c < n.len() {
            found_in(n, c, src)
        } else {
            Seq::empty()
        }
    } else {
        Seq::empty()
    }
}

/// The number of inline blocks among `items`.
pub open spec fn inline_count(items: Seq<Found>) -> nat
    decreases items.len(),
{
    if items.len() == 0 {
        0
    } else {
        inline_count(items.drop_last()) + if items.last() is Css {
            1nat
        } else {
            0nat
        }
    }
}

/// The found stylesheets with the inline blocks named `<inline:0>`,
/// `<inline:1>`, ... in order and their CSS encoded as UTF-8.
pub open spec fn numbered(items: Seq<Found>) -> Seq<SourceView>
    decreases items.len(),
{
    if items.len() == 0 {
        Seq::empty()
    } else {
        let prev = items.drop_last();
        numbered(prev).push(
            match items.last() {
                Found::Css(css) => SourceView::Inline(
                    "<inline:"@ + decimal(inline_count(prev)) + ">"@,
                    encode_utf8(css),
                ),
                Found::Href(h) => SourceView::Link(h),
            },
        )
    }
}

/// The stylesheets of a document, in document order.
pub open spec fn spec_discover(n: Seq<Node>, src: Seq<u8>) -> Seq<SourceView> {
    numbered(found_in(n, 0, src))
}

// Termination and bookkeeping of the work-list walk.

/// The number of nodes in the subtree at `id`.
pub open spec fn tree_size(n: Seq<Node>, id: int) -> nat
    decreases n.len() - id, 1int, 0int,
{
    if 0 <= id < n.len() {
        1 + kids_size(n, id, n[id].children@.len() as int)
    } else {
        0
    }
}

/// The number of nodes in the subtrees of the first `k` children of `id`.
pub open spec fn kids_size(n: Seq<Node>, id: int, k: int) -> nat
    decreases n.len() - id, 0int, k,
{
    if 0 <= id < n.len() && 0 < k <= n[id].children@.len() {
        let c = n[id].children@[k - 1].0 as int;
        kids_size(n, id, k - 1) + if id < c < n.len() {
            tree_size(n, c)
        } else {
            0
        }
    } else {
        0
    }
}

/// The nodes in the subtrees of a list of pending nodes.
pub open spec fn pending_size(n: Seq<Node>, p: Seq<NodeId>) -> nat
    decreases p.len(),
{
    if p.len() == 0 {
        0
    } else {
        pending_size(n, p.drop_last()) + tree_size(n, p.last().0 as int)
    }
}

/// What discovery finds in a list of pending subtrees, in order.
pub open spec fn forest(n: Seq<Node>, p: Seq<NodeId>, src: Seq<u8>) -> Seq<Found>
    decreases p.len(),
{
    if p.len() == 0 {
        Seq::empty()
    } else {
        forest(n, p.drop_last(), src) + found_in(n, p.last().0 as int, src)
    }
}

proof fn lemma_forest_append(n: Seq<Node>, a: Seq<NodeId>, b: Seq<NodeId>, src: Seq<u8>)
    ensures
        forest(n, a + b, src) == forest(n, a, src) + forest(n, b, src),
        pending_size(n, a + b) == pending_size(n, a) + pending_size(n, b),
    decreases b.len(),
{
    if b.len() == 0 {
        assert(a + b =~= a);
    } else {
        lemma_forest_append(n, a, b.drop_last(), src);
        assert((a + b).drop_last() =~= a + b.drop_last());
    }
}

proof fn lemma_forest_single(n: Seq<Node>, x: NodeId, src: Seq<u8>)
    ensures
        forest(n, seq![x], src) == found_in(n, x.0 as int, src),
        pending_size(n, seq![x]) == tree_size(n, x.0 as int),
{
    let s = seq![x];
    assert(s.drop_last() =~= Seq::<NodeId>::empty());
    assert(s.last() == x);
    assert(forest(n, Seq::<NodeId>::empty(), src) == Seq::<Found>::empty());
    assert(pending_size(n, Seq::<NodeId>::empty()) == 0);
    assert(forest(n, s, src) =~= found_in(n, x.0 as int, src));
}

proof fn lemma_children_forest(n: Seq<Node>, id: int, k: int, src: Seq<u8>)
    requires
        0 <= id < n.len(),
        0 <= k <= n[id].children@.len(),
        forall|j: int| 0 <= j < n[id].children@.len() ==> id < (#[trigger] n[id].children@[j]).0 < n.len(),
    ensures
        found_in_children(n, id, k, src) == forest(n, n[id].children@.take(k), src),
        kids_size(n, id, k) == pending_size(n, n[id].children@.take(k)),
    decreases k,
{
    if k > 0 {
        lemma_children_forest(n, id, k - 1, src);
        assert(n[id].children@.take(k).drop_last() =~= n[id].children@.take(k - 1));
    }
}

/// What one node contributes, as the walk computes it.
enum FoundItem {
    Css(Vec<char>),
    Href(Vec<char>),
}

impl View for FoundItem {
    type V = Found;

    closed spec fn view(&self) -> Found {
        match self {
            FoundItem::Css(c) => Found::Css(c@),
            FoundItem::Href(h) => Found::Href(h@),
        }
    }
}

/// The text of the source range `a..b` (empty when not valid UTF-8).
fn text_chars(source: &[u8], a: u32, b: u32) -> (res: Vec<char>)
    requires
        a <= b <= source@.len(),
    ensures
        res@ == text_of(source@, a, b),
{
    decode_or_empty_exec(vstd::slice::slice_subrange(source, a as usize, b as usize))
}

/// Whether `a` equals the literal `lit`, ignoring ASCII case.
fn is_named(a: &Vec<char>, lit: &str) -> (res: bool)
    ensures
        res == eq_ignore_case(a@, lit@),
{
    let b = chars_of(lit);
    chars_eq_ignore_case(a.as_slice(), b.as_slice())
}

/// What the node `id` contributes to discovery (see `node_find`).
fn find_at(dom: &Dom, source: &[u8], id: NodeId) -> (res: Option<Option<FoundItem>>)
    requires
        dom.wf(),
        dom.ranges_within(source@.len()),
        (id.0 as int) < dom.nodes@.len(),
    ensures
        node_find(dom.nodes@[id.0 as int], dom.nodes@, source@) == match res {
            Some(Some(f)) => Some(Some(f@)),
            Some(None) => Some(None::<Found>),
            None => None::<Option<Found>>,
        },
{
    let ghost n = dom.nodes@;
    let node = dom.get(id);
    assert(crate::dom::node_ranges_ok(n[id.0 as int], source@.len()));
    match &node.kind {
        NodeKind::Element { tag_start, tag_end } => {
            let tag = text_chars(source, *tag_start, *tag_end);
            if is_named(&tag, "style") {
                let mut css: Vec<char> = Vec::new();
                let mut k: usize = 0;
                while k < node.children.len()
                    invariant
                        *node == n[id.0 as int],
                        k <= node.children@.len(),
                        css@ == style_text(n, source@, node.children@.take(k as int)),
                    decreases node.children@.len() - k,
                {
                    let c = node.children[k];
                    assert(node.children@.take(k as int + 1).drop_last() =~= node.children@.take(k as int));
                    let child = dom.get(c);
                    assert(crate::dom::node_ranges_ok(n[c.0 as int], source@.len()));
                    match &child.kind {
                        NodeKind::Text { start, end } => {
                            let t = text_chars(source, *start, *end);
                            extend_chars(&mut css, t.as_slice());
                        },
                        _ => {},
                    }
                    k += 1;
                }
                assert(node.children@.take(node.children@.len() as int) =~= node.children@);
                if css.len() > 0 {
                    return Some(Some(FoundItem::Css(css)));
                }
                return Some(None);
            }
            if is_named(&tag, "link") {
                let mut is_stylesheet = false;
                let mut href: Option<Vec<char>> = None;
                let mut k: usize = 0;
                while k < node.attributes.len()
                    invariant
                        *node == n[id.0 as int],
                        k <= node.attributes@.len(),
                        (is_stylesheet, match href {
                            Some(h) => Some(h@),
                            None => None::<Seq<char>>,
                        }) == link_info(source@, node.attributes@.take(k as int)),
                    decreases node.attributes@.len() - k,
                {
                    let (ns, ne, vs, ve) = node.attributes[k];
                    assert(node.attributes@.take(k as int + 1).drop_last() =~= node.attributes@.take(k as int));
                    let name = text_chars(source, ns, ne);
                    if is_named(&name, "rel") && vs != 0 && ve != 0 {
                        let value = text_chars(source, vs, ve);
                        if is_named(&value, "stylesheet") {
                            is_stylesheet = true;
                        }
                    }
                    if is_named(&name, "href") && vs != 0 && ve != 0 {
                        let value = text_chars(source, vs, ve);
                        if value.len() > 0 {
                            href = Some(value);
                        }
                    }
                    k += 1;
                }
                assert(node.attributes@.take(node.attributes@.len() as int) =~= node.attributes@);
                if is_stylesheet {
                    return match href {
                        Some(h) => Some(Some(FoundItem::Href(h))),
                        None => Some(None),
                    };
                }
            }
            None
        },
        _ => None,
    }
}

/// Walk a parsed document for its stylesheets, in document order: the
/// text of each `<style>` element (named `<inline:N>`) and the `href` of
/// each `<link rel="stylesheet">`. The children of those elements are not
/// searched. The walk uses an explicit work list, so deep documents need
/// no deep recursion.
pub fn discover_stylesheets(dom: &Dom, source: &[u8]) -> (res: Vec<StylesheetSource>)
    requires
        dom.wf(),
        dom.ranges_within(source@.len()),
    ensures
        sources_view(res@) == spec_discover(dom.nodes@, source@),
{
    let ghost n = dom.nodes@;
    let ghost src = source@;
    let mut items: Vec<FoundItem> = Vec::new();
    let mut worklist: Vec<NodeId> = Vec::new();
    worklist.push(dom.root());
    let ghost mut pending: Seq<NodeId> = seq![NodeId(0)];
    proof {
        lemma_forest_single(n, NodeId(0), src);
        assert(items@.map_values(|f: FoundItem| f@) =~= Seq::<Found>::empty());
    }
    while worklist.len() > 0
        invariant
            dom.wf(),
            dom.ranges_within(src.len()),
            n == dom.nodes@,
            src == source@,
            pending.len() == worklist@.len(),
            forall|i: int| 0 <= i < pending.len() ==> #[trigger] pending[i] == worklist@[worklist@.len() - 1 - i],
            forall|i: int| 0 <= i < pending.len() ==> (#[trigger] pending[i]).0 < n.len(),
            items@.map_values(|f: FoundItem| f@) + forest(n, pending, src) == found_in(n, 0, src),
        decreases pending_size(n, pending),
    {
        let node_id = worklist.pop().unwrap();
        let ghost rest = pending.drop_first();
        let ghost x = node_id.0 as int;
        proof {
            assert(pending[0] == node_id);
            assert(pending =~= seq![node_id] + rest);
            lemma_forest_append(n, seq![node_id], rest, src);
            lemma_forest_single(n, node_id, src);
        }
        let ghost before = items@.map_values(|f: FoundItem| f@);
        match find_at(dom, source, node_id) {
            Some(found) => {
                match found {
                    Some(item) => {
                        items.push(item);
                        assert(items@.map_values(|f: FoundItem| f@) =~= before + seq![item@]);
                    },
                    None => {
                        assert(items@.map_values(|f: FoundItem| f@) =~= before + Seq::<Found>::empty());
                    },
                }
                proof {
                    pending = rest;
                }
            },
            None => {
                let node = dom.get(node_id);
                let ghost kids = node.children@;
                proof {
                    assert forall|j: int| 0 <= j < kids.len() implies x < (#[trigger] kids[j]).0 < n.len() by {}
                    lemma_children_forest(n, x, kids.len() as int, src);
                    assert(kids.take(kids.len() as int) =~= kids);
                }
                let mut k: usize = node.children.len();
                proof {
                    pending = rest;
                    assert(kids.skip(k as int) + rest =~= rest);
                }
                while k > 0
                    invariant
                        k <= kids.len(),
                        kids == node.children@,
                        pending == kids.skip(k as int) + rest,
                        pending.len() == worklist@.len(),
                        forall|i: int| 0 <= i < pending.len() ==> #[trigger] pending[i] == worklist@[worklist@.len() - 1 - i],
                        forall|i: int| 0 <= i < pending.len() ==> (#[trigger] pending[i]).0 < n.len(),
                    decreases k,
                {
                    let child = node.children[k - 1];
                    worklist.push(child);
                    proof {
                        let old_pending = pending;
                        pending = seq![child] + old_pending;
                        assert(kids.skip(k - 1) =~= seq![child] + kids.skip(k as int));
                        assert(pending =~= kids.skip(k - 1) + rest);
                    }
                    k -= 1;
                }
                proof {
                    assert(kids.skip(0) =~= kids);
                    lemma_forest_append(n, kids, rest, src);
                }
            },
        }
    }
    // Number the inline blocks.
    let ghost all = items@.map_values(|f: FoundItem| f@);
    assert(all =~= found_in(n, 0, src)) by {
        assert(pending.len() == 0);
    }
    let mut out: Vec<StylesheetSource> = Vec::new();
    let mut counter: usize = 0;
    let mut i: usize = 0;
    while i < items.len()
        invariant
            i <= items@.len(),
            all == items@.map_values(|f: FoundItem| f@),
            counter as nat == inline_count(all.take(i as int)),
            counter <= i,
            sources_view(out@) == numbered(all.take(i as int)),
        decreases items@.len() - i,
    {
        assert(all.take(i as int + 1).drop_last() =~= all.take(i as int));
        let ghost prev = sources_view(out@);
        match &items[i] {
            FoundItem::Css(css) => {
                let mut url: Vec<char> = Vec::new();
                extend_str(&mut url, "<inline:");
                let digits = decimal_exec(counter as u128);
                extend_chars(&mut url, digits.as_slice());
                extend_str(&mut url, ">");
                let text = string_from_chars(css.as_slice());
                let entry = StylesheetSource::Inline {
                    url: string_from_chars(url.as_slice()),
                    css: string_bytes(&text),
                };
                out.push(entry);
                assert(sources_view(out@) =~= prev.push(entry@));
                counter += 1;
            },
            FoundItem::Href(h) => {
                let entry = StylesheetSource::Link { href: string_from_chars(h.as_slice()) };
                out.push(entry);
                assert(sources_view(out@) =~= prev.push(entry@));
            },
        }
        i += 1;
    }
    assert(all.take(all.len() as int) =~= all);
    out
}

// ─── In-memory pages ─────────────────────────────────────────────

/// A page loaded from memory: its HTML resource, the tree built from it,
/// and the stylesheets found in the tree.
#[derive(Debug)]
pub struct LoadedPage {
    pub html: Resource,
    pub dom: Dom,
    pub stylesheets: Vec<StylesheetSource>,
}

impl ResourceLoader {
    /// Load an HTML document held in memory, given its tokens: cache it
    /// under `base_url`, build its tree, and find its stylesheets. A tree
    /// with a range beyond the document (tokens that do not belong to it)
    /// yields no stylesheets. Linked stylesheets are for the caller to read
    /// (see `begin_read`); in-memory documents have no base directory.
    pub fn load_html_string(&mut self, html: &str, base_url: &str, tokens: &[Token]) -> (res: LoadedPage)
        requires
            old(self).cache.wf(),
            tokens_fit(tokens@, encode_utf8(html@).len()),
            1 + tokens@.len() < u32::MAX,
        ensures
            final(self).cache.wf(),
            res_view(res.html) == (base_url@, ResourceType::Html, encode_utf8(html@)),
            final(self).cache@ == cache_insert(old(self).cache@, res_view(res.html)),
            res.dom.wf(),
            node_infos(res.dom.nodes@) == parse_tokens(
                (seq![(NodeKind::Document, None, Seq::empty())], seq![NodeId(0)], Seq::empty()),
                tokens@,
                encode_utf8(html@),
            ).0,
            res.dom.ranges_within(encode_utf8(html@).len()) ==> sources_view(res.stylesheets@)
                == spec_discover(res.dom.nodes@, encode_utf8(html@)),
            !res.dom.ranges_within(encode_utf8(html@).len()) ==> res.stylesheets@.len() == 0,
    {
        let resource = self.cache_html_string(html, base_url);
        let mut dom = Dom::new();
        assert(dom.nodes@[0].attributes@ =~= Seq::<(u32, u32, u32, u32)>::empty());
        assert(node_infos(dom.nodes@)[0] == (NodeKind::Document, None::<NodeId>, Seq::<(u32, u32, u32, u32)>::empty()));
        assert(node_infos(dom.nodes@) =~= seq![(NodeKind::Document, None, Seq::<(u32, u32, u32, u32)>::empty())]);
        let mut parser = Parser::new();
        let _ = parser.push_tokens(&mut dom, tokens, resource.bytes.as_slice());
        let stylesheets = if dom.check_ranges(resource.bytes.len()) {
            discover_stylesheets(&dom, resource.bytes.as_slice())
        } else {
            Vec::new()
        };
        LoadedPage { html: resource, dom, stylesheets }
    }
}

// ─── Errors ──────────────────────────────────────────────────────

/// Errors that can occur while loading resources.
#[derive(Debug)]
pub enum LoadError {
    /// A file could not be read.
    IoError { path: String, message: String },
}

impl LoadError {
    /// The error's display text.
    pub fn message(&self) -> (res: String)
        ensures
            match *self {
                LoadError::IoError { path, message } => res@ == "Failed to read '"@ + path@
                    + "': "@ + message@,
            },
    {
        match self {
            LoadError::IoError { path, message } => {
                let mut out: Vec<char> = Vec::new();
                extend_str(&mut out, "Failed to read '");
                extend_str(&mut out, path.as_str());
                extend_str(&mut out, "': ");
                extend_str(&mut out, message.as_str());
                string_from_chars(out.as_slice())
            },
        }
    }
}

} // verus!
