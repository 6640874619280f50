//! URL parsing and HTTP/1.1 message handling for the HTTP client.
#![verifier::loop_isolation(false)]

use vstd::prelude::*;
use vstd::utf8::{decode_utf8, encode_utf8, valid_utf8};

use crate::net::tcp::NetworkError;
use crate::text::{
    chars_eq, chars_of, decimal, decimal_exec, extend_chars, extend_str, find, find_char,
    find_first, index_of, last_index_of, occurs_at, owned, parse_u16, parse_u16_exec, rfind_char,
    slice_chars, starts_with, starts_with_exec, string_bytes, string_from_chars, to_lowercase,
    unicode_lowercase, utf8_to_str,
};

verus! {


// ─── URL parsing ─────────────────────────────────────────────────

/// A parsed `http://host[:port][/path]` URL.
#[derive(Debug, Clone, PartialEq)]
pub struct Url {
    pub scheme: String,
    pub host: String,
    pub port: u16,
    pub path: String,
    pub raw: String,
}

/// The host-and-port part of a URL and its path: everything before the
/// first `/` after the scheme, and the rest (`/` when there is none).
pub open spec fn split_path(rest: Seq<char>) -> (Seq<char>, Seq<char>) {
    match index_of(rest, '/') {
        Some(j) => (rest.take(j), rest.skip(j)),
        None => (rest, "/"@),
    }
}

/// Splitting `host[:port]`: the host and the port (80 when absent), or the
/// reason it is rejected.
pub open spec fn spec_host_and_port(hp: Seq<char>) -> Result<(Seq<char>, u16), Seq<char>> {
    match index_of(hp, ':') {
        Some(c) => {
            if c == 0 {
                Err("Empty host"@)
            } else {
                match parse_u16(hp.skip(c + 1)) {
                    Some(p) => Ok((hp.take(c), p)),
                    None => Err("Invalid port number"@),
                }
            }
        },
        None => Ok((hp, 80u16)),
    }
}

/// Parsing what follows `://`: host, port and path.
pub open spec fn spec_after_scheme(rest: Seq<char>) -> Result<(Seq<char>, u16, Seq<char>), Seq<char>> {
    if rest.len() == 0 {
        Err("Empty host"@)
    } else {
        let hp = split_path(rest).0;
        if hp.len() == 0 {
            Err("Empty host"@)
        } else {
            match spec_host_and_port(hp) {
                Ok((h, p)) => Ok((h, p, split_path(rest).1)),
                Err(m) => Err(m),
            }
        }
    }
}

/// Parsing a URL: the scheme, host, port and path, or the reason it is
/// rejected. Only `http` is accepted; the port defaults to 80 and the path
/// to `/`.
pub open spec fn spec_url_parse(s: Seq<char>) -> Result<(Seq<char>, Seq<char>, u16, Seq<char>), Seq<char>> {
    match find_first(s, "://"@) {
        None => Err("Missing scheme (expected 'http://')"@),
        Some(i) => {
            let scheme = s.take(i);
            if scheme != "http"@ {
                if scheme == "https"@ {
                    Err("HTTPS is not supported yet"@)
                } else {
                    Err("Unsupported scheme: "@ + scheme)
                }
            } else {
                match spec_after_scheme(s.skip(i + 3)) {
                    Ok((h, p, path)) => Ok((scheme, h, p, path)),
                    Err(m) => Err(m),
                }
            }
        },
    }
}

/// `res` is what parsing `s` yields: the parsed URL, or an `InvalidUrl`
/// error carrying the reason.
pub open spec fn parse_result(res: Result<Url, NetworkError>, s: Seq<char>) -> bool {
    match spec_url_parse(s) {
        Ok((scheme, host, port, path)) => res matches Ok(u) && u.scheme@ == scheme && u.host@
            == host && u.port == port && u.path@ == path && u.raw@ == s,
        Err(m) => res matches Err(NetworkError::InvalidUrl(r)) && r@ == m,
    }
}

/// `host:port`.
pub open spec fn spec_host_port(host: Seq<char>, port: u16) -> Seq<char> {
    host + ":"@ + decimal(port as nat)
}

fn invalid_url(reason: &str) -> (res: Result<Url, NetworkError>)
    ensures
        res matches Err(NetworkError::InvalidUrl(r)) && r@ == reason@,
{
    Err(NetworkError::InvalidUrl(owned(reason)))
}

/// The host, port and path following `://`, or the reason they are rejected.
fn parse_after_scheme(rest: &[char]) -> (res: Result<(Vec<char>, u16, Vec<char>), &'static str>)
    ensures
        match spec_after_scheme(rest@) {
            Ok((h, p, path)) => res matches Ok((rh, rp, rpath)) && rh@ == h && rp == p && rpath@
                == path,
            Err(m) => res matches Err(e) && e@ == m,
        },
{
    if rest.len() == 0 {
        return Err("Empty host");
    }
    let n = rest.len();
    let (host_port, path) = match find_char(rest, '/') {
        Some(j) => (slice_chars(rest, 0, j), slice_chars(rest, j, n)),
        None => (slice_chars(rest, 0, n), chars_of("/")),
    };
    assert(host_port@ =~= split_path(rest@).0);
    assert(path@ =~= split_path(rest@).1);
    if host_port.len() == 0 {
        return Err("Empty host");
    }
    match parse_host_and_port(host_port.as_slice()) {
        Ok((h, p)) => Ok((h, p, path)),
        Err(m) => Err(m),
    }
}

/// Split `host[:port]`.
fn parse_host_and_port(hp: &[char]) -> (res: Result<(Vec<char>, u16), &'static str>)
    ensures
        match spec_host_and_port(hp@) {
            Ok((h, p)) => res matches Ok((rh, rp)) && rh@ == h && rp == p,
            Err(m) => res matches Err(e) && e@ == m,
        },
{
    let n = hp.len();
    match find_char(hp, ':') {
        Some(c) => {
            if c == 0 {
                return Err("Empty host");
            }
            let h = slice_chars(hp, 0, c);
            let p_str = slice_chars(hp, c + 1, n);
            assert(p_str@ =~= hp@.skip(c + 1));
            assert(h@ =~= hp@.take(c as int));
            match parse_u16_exec(p_str.as_slice()) {
                Some(p) => Ok((h, p)),
                None => Err("Invalid port number"),
            }
        },
        None => {
            let h = slice_chars(hp, 0, n);
            assert(h@ =~= hp@);
            Ok((h, 80u16))
        },
    }
}

impl Url {
    /// Parse `http://host`, `http://host:port`, `http://host/path` or
    /// `http://host:port/path`; the port defaults to 80 and the path to `/`.
    #[verifier::rlimit(40)]
    pub fn parse(url: &str) -> (res: Result<Url, NetworkError>)
        ensures
            parse_result(res, url@),
    {
        let s = chars_of(url);
        let sep = chars_of("://");
        proof {
            reveal_strlit("://");
        }
        assert(sep@.len() == 3);
        let scheme_end = match find(s.as_slice(), sep.as_slice()) {
            Some(i) => i,
            None => {
                return invalid_url("Missing scheme (expected 'http://')");
            },
        };
        assert(occurs_at(s@, sep@, scheme_end as int));
        let scheme = slice_chars(s.as_slice(), 0, scheme_end);
        assert(scheme@ =~= s@.take(scheme_end as int));
        let http = chars_of("http");
        if !chars_eq(scheme.as_slice(), http.as_slice()) {
            let https = chars_of("https");
            if chars_eq(scheme.as_slice(), https.as_slice()) {
                return invalid_url("HTTPS is not supported yet");
            }
            let mut msg = chars_of("Unsupported scheme: ");
            extend_chars(&mut msg, scheme.as_slice());
            return Err(NetworkError::InvalidUrl(string_from_chars(msg.as_slice())));
        }
        let n = s.len();
        let rest = slice_chars(s.as_slice(), scheme_end + 3, n);
        assert(rest@ =~= s@.skip(scheme_end + 3));
        match parse_after_scheme(rest.as_slice()) {
            Ok((host, port, path)) => Ok(
                Url {
                    scheme: string_from_chars(scheme.as_slice()),
                    host: string_from_chars(host.as_slice()),
                    port,
                    path: string_from_chars(path.as_slice()),
                    raw: owned(url),
                },
            ),
            Err(m) => invalid_url(m),
        }
    }

    /// The host and port as `host:port`.
    pub fn host_port(&self) -> (res: String)
        ensures
            res@ == spec_host_port(self.host@, self.port),
    {
        let mut out = chars_of(self.host.as_str());
        extend_str(&mut out, ":");
        let d = decimal_exec(self.port as u128);
        extend_chars(&mut out, d.as_slice());
        assert(out@ =~= spec_host_port(self.host@, self.port));
        string_from_chars(out.as_slice())
    }
}

// ─── Requests ────────────────────────────────────────────────────

/// An HTTP method.
#[derive(Debug, Clone, PartialEq)]
pub enum HttpMethod {
    Get,
}

impl HttpMethod {
    /// The method's name on the wire.
    pub fn as_str(&self) -> (res: &'static str)
        ensures
            res@ == "GET"@,
    {
        match self {
            HttpMethod::Get => "GET",
        }
    }
}

/// An outgoing HTTP request.
#[derive(Debug, Clone)]
pub struct HttpRequest {
    pub method: HttpMethod,
    pub url: Url,
    pub headers: Vec<(String, String)>,
}

/// The views of a list of header pairs.
pub open spec fn header_views(hs: Seq<(String, String)>) -> Seq<(Seq<char>, Seq<char>)> {
    hs.map_values(|h: (String, String)| (h.0@, h.1@))
}

/// The header lines `name: value\r\n`, in order.
pub open spec fn header_lines(hs: Seq<(Seq<char>, Seq<char>)>) -> Seq<char>
    decreases hs.len(),
{
    if hs.len() == 0 {
        Seq::empty()
    } else {
        header_lines(hs.drop_last()) + hs.last().0 + ": "@ + hs.last().1 + "\r\n"@
    }
}

/// Does some header's name, lowercased, equal `lname`?
pub open spec fn has_header(hs: Seq<(Seq<char>, Seq<char>)>, lname: Seq<char>) -> bool {
    exists|i: int| 0 <= i < hs.len() && unicode_lowercase(#[trigger] hs[i].0) == lname
}

/// The line `text` when `present` is false, nothing otherwise.
pub open spec fn default_line(present: bool, text: Seq<char>) -> Seq<char> {
    if present {
        Seq::empty()
    } else {
        text
    }
}

/// The HTTP/1.1 request text: the request line, the given headers, then
/// `Host`, `Connection`, `User-Agent` and `Accept` defaults for those not
/// given (names compared after lowercasing), and the blank line.
pub open spec fn spec_request_text(path: Seq<char>, host: Seq<char>, port: u16, hs: Seq<(Seq<char>, Seq<char>)>) -> Seq<char> {
    let host_value = if port == 80 { host } else { spec_host_port(host, port) };
    "GET"@ + " "@ + path + " HTTP/1.1\r\n"@ + header_lines(hs) + default_line(
        has_header(hs, "host"@),
        "Host: "@ + host_value + "\r\n"@,
    ) + default_line(has_header(hs, "connection"@), "Connection: keep-alive\r\n"@)
        + default_line(has_header(hs, "user-agent"@), "User-Agent: Asteria/0.1\r\n"@)
        + default_line(has_header(hs, "accept"@), "Accept: text/html,text/css,*/*\r\n"@)
        + "\r\n"@
}

proof fn lemma_has_header_step(hs: Seq<(Seq<char>, Seq<char>)>, i: int, name: Seq<char>)
    requires
        0 <= i < hs.len(),
    ensures
        has_header(hs.take(i + 1), name) == (has_header(hs.take(i), name) || unicode_lowercase(
            hs[i].0,
        ) == name),
{
    let t = hs.take(i + 1);
    let u = hs.take(i);
    if has_header(t, name) {
        let j = choose|j: int| 0 <= j < t.len() && unicode_lowercase(#[trigger] t[j].0) == name;
        if j < i {
            assert(u[j] == t[j]);
        }
    }
    if has_header(u, name) {
        let j = choose|j: int| 0 <= j < u.len() && unicode_lowercase(#[trigger] u[j].0) == name;
        assert(t[j] == u[j]);
    }
    if unicode_lowercase(hs[i].0) == name {
        assert(t[i] == hs[i]);
    }
}

fn lowered_is(k: &String, name: &str) -> (res: bool)
    ensures
        res == (unicode_lowercase(k@) == name@),
{
    let lk = to_lowercase(k.as_str());
    let a = chars_of(lk.as_str());
    let b = chars_of(name);
    chars_eq(a.as_slice(), b.as_slice())
}

impl HttpRequest {
    /// The request in HTTP/1.1 wire format, UTF-8 encoded.
    pub fn to_request_bytes(&self) -> (res: Vec<u8>)
        ensures
            res@ == encode_utf8(
                spec_request_text(
                    self.url.path@,
                    self.url.host@,
                    self.url.port,
                    header_views(self.headers@),
                ),
            ),
    {
        let ghost hs = header_views(self.headers@);
        let mut req: Vec<char> = Vec::new();
        extend_str(&mut req, self.method.as_str());
        extend_str(&mut req, " ");
        extend_str(&mut req, self.url.path.as_str());
        extend_str(&mut req, " HTTP/1.1\r\n");
        let mut has_host = false;
        let mut has_connection = false;
        let mut has_user_agent = false;
        let mut has_accept = false;
        let ghost prefix = "GET"@ + " "@ + self.url.path@ + " HTTP/1.1\r\n"@;
        assert(req@ =~= prefix + header_lines(hs.take(0)));
        let mut i: usize = 0;
        while i < self.headers.len()
            invariant
                i <= self.headers@.len(),
                hs == header_views(self.headers@),
                req@ == prefix + header_lines(hs.take(i as int)),
                has_host == has_header(hs.take(i as int), "host"@),
                has_connection == has_header(hs.take(i as int), "connection"@),
                has_user_agent == has_header(hs.take(i as int), "user-agent"@),
                has_accept == has_header(hs.take(i as int), "accept"@),
            decreases self.headers@.len() - i,
        {
            let k = &self.headers[i].0;
            let v = &self.headers[i].1;
            extend_str(&mut req, k.as_str());
            extend_str(&mut req, ": ");
            extend_str(&mut req, v.as_str());
            extend_str(&mut req, "\r\n");
            let ghost t = hs.take(i + 1);
            assert(t.drop_last() =~= hs.take(i as int));
            assert(t.last() == (k@, v@));
            let lh = lowered_is(k, "host");
            let lc = lowered_is(k, "connection");
            let lu = lowered_is(k, "user-agent");
            let la = lowered_is(k, "accept");
            proof {
                lemma_has_header_step(hs, i as int, "host"@);
                lemma_has_header_step(hs, i as int, "connection"@);
                lemma_has_header_step(hs, i as int, "user-agent"@);
                lemma_has_header_step(hs, i as int, "accept"@);
            }
            if lh {
                has_host = true;
            }
            if lc {
                has_connection = true;
            }
            if lu {
                has_user_agent = true;
            }
            if la {
                has_accept = true;
            }
            i += 1;
            assert(req@ =~= prefix + header_lines(hs.take(i as int)));
        }
        assert(hs.take(i as int) =~= hs);
        if !has_host {
            extend_str(&mut req, "Host: ");
            if self.url.port == 80 {
                extend_str(&mut req, self.url.host.as_str());
            } else {
                let hp = self.url.host_port();
                extend_str(&mut req, hp.as_str());
            }
            extend_str(&mut req, "\r\n");
        }
        if !has_connection {
            extend_str(&mut req, "Connection: keep-alive\r\n");
        }
        if !has_user_agent {
            extend_str(&mut req, "User-Agent: Asteria/0.1\r\n");
        }
        if !has_accept {
            extend_str(&mut req, "Accept: text/html,text/css,*/*\r\n");
        }
        extend_str(&mut req, "\r\n");
        assert(req@ =~= spec_request_text(self.url.path@, self.url.host@, self.url.port, hs));
        let text = string_from_chars(req.as_slice());
        string_bytes(&text)
    }
}

// ─── Responses ───────────────────────────────────────────────────

/// An incoming HTTP response.
#[derive(Debug, Clone)]
pub struct HttpResponse {
    pub status_code: u16,
    pub status_text: String,
    pub headers: Vec<(String, String)>,
    pub body: Vec<u8>,
    pub url: String,
}

/// The first header whose lowercased name equals the lowercased `name`.
pub open spec fn header_index(hs: Seq<(Seq<char>, Seq<char>)>, name: Seq<char>) -> Option<int> {
    if exists|i: int| 0 <= i < hs.len() && unicode_lowercase(hs[i].0) == unicode_lowercase(name) {
        Some(
            choose|i: int|
                0 <= i < hs.len() && unicode_lowercase(hs[i].0) == unicode_lowercase(name) && forall|
                    j: int,
                | 0 <= j < i ==> unicode_lowercase(#[trigger] hs[j].0) != unicode_lowercase(name),
        )
    } else {
        None
    }
}

/// The value of the first header named `name`, compared case-insensitively.
pub open spec fn spec_header(hs: Seq<(Seq<char>, Seq<char>)>, name: Seq<char>) -> Option<Seq<char>> {
    match header_index(hs, name) {
        Some(i) => Some(hs[i].1),
        None => None,
    }
}

/// A redirect status: 301, 302, 303, 307 or 308.
pub open spec fn spec_is_redirect(code: u16) -> bool {
    code == 301 || code == 302 || code == 303 || code == 307 || code == 308
}

/// The redirect statuses are exactly 301 (moved permanently), 302
/// (found), 303 (see other), 307 (temporary redirect) and 308 (permanent
/// redirect): every other status, 304 and 300 among them, is final.
pub proof fn lemma_redirect_statuses(code: u16)
    ensures
        spec_is_redirect(code) <==> (code == 301u16 || code == 302u16 || code == 303u16 || code == 307u16
            || code == 308u16),
        spec_is_redirect(301),
        spec_is_redirect(302),
        spec_is_redirect(303),
        spec_is_redirect(307),
        spec_is_redirect(308),
        !spec_is_redirect(300),
        !spec_is_redirect(304),
        !spec_is_redirect(200),
{
}

impl HttpResponse {
    /// The value of the first header with this name, ignoring case.
    pub fn header(&self, name: &str) -> (res: Option<&str>)
        ensures
            match spec_header(header_views(self.headers@), name@) {
                Some(v) => res matches Some(r) && r@ == v,
                None => res is None,
            },
    {
        let ghost hs = header_views(self.headers@);
        let name_lower = to_lowercase(name);
        let nl = chars_of(name_lower.as_str());
        let mut i: usize = 0;
        while i < self.headers.len()
            invariant
                i <= self.headers@.len(),
                hs == header_views(self.headers@),
                nl@ == unicode_lowercase(name@),
                forall|j: int| 0 <= j < i ==> unicode_lowercase(#[trigger] hs[j].0) != unicode_lowercase(name@),
            decreases self.headers@.len() - i,
        {
            let kl = to_lowercase(self.headers[i].0.as_str());
            let kc = chars_of(kl.as_str());
            if chars_eq(kc.as_slice(), nl.as_slice()) {
                proof {
                    assert(hs[i as int].0 == self.headers@[i as int].0@);
                    let k = choose|k: int|
                        0 <= k < hs.len() && unicode_lowercase(hs[k].0) == unicode_lowercase(name@)
                            && forall|j: int|
                            0 <= j < k ==> unicode_lowercase(#[trigger] hs[j].0) != unicode_lowercase(name@);
                    if k < i {
                        assert(unicode_lowercase(hs[k].0) != unicode_lowercase(name@));
                    }
                    if i < k {
                        assert(unicode_lowercase(hs[i as int].0) != unicode_lowercase(name@));
                    }
                }
                return Some(self.headers[i].1.as_str());
            }
            proof {
                assert(hs[i as int].0 == self.headers@[i as int].0@);
            }
            i += 1;
        }
        None
    }

    /// The `Content-Type` header.
    pub fn content_type(&self) -> (res: Option<&str>)
        ensures
            match spec_header(header_views(self.headers@), "Content-Type"@) {
                Some(v) => res matches Some(r) && r@ == v,
                None => res is None,
            },
    {
        self.header("Content-Type")
    }

    /// Is the status a redirect (301, 302, 303, 307, 308)?
    pub fn is_redirect(&self) -> (res: bool)
        ensures
            res == spec_is_redirect(self.status_code),
    {
        let c = self.status_code;
        c == 301 || c == 302 || c == 303 || c == 307 || c == 308
    }

    /// The `Location` header.
    pub fn redirect_location(&self) -> (res: Option<&str>)
        ensures
            match spec_header(header_views(self.headers@), "Location"@) {
                Some(v) => res matches Some(r) && r@ == v,
                None => res is None,
            },
    {
        self.header("Location")
    }

    /// Is the status a success (200–299)?
    pub fn is_success(&self) -> (res: bool)
        ensures
            res == (200 <= self.status_code < 300),
    {
        200 <= self.status_code && self.status_code < 300
    }

    /// The body as text, when it is valid UTF-8.
    pub fn body_as_str(&self) -> (res: Option<&str>)
        ensures
            res is Some <==> valid_utf8(self.body@),
            res matches Some(t) ==> t@ == decode_utf8(self.body@),
    {
        utf8_to_str(self.body.as_slice())
    }
}

// ─── Redirects ───────────────────────────────────────────────────

/// The URL text a redirect leads to: an absolute `http://` or `https://`
/// location as is; a location starting with `/` on the same scheme, host
/// and port; anything else relative to the directory of the current path.
pub open spec fn spec_redirect_target(scheme: Seq<char>, host: Seq<char>, port: u16, path: Seq<char>, loc: Seq<char>) -> Seq<char> {
    if starts_with(loc, "http://"@) || starts_with(loc, "https://"@) {
        loc
    } else if starts_with(loc, "/"@) {
        scheme + "://"@ + spec_host_port(host, port) + loc
    } else {
        let base = match last_index_of(path, '/') {
            Some(k) => path.take(k + 1),
            None => "/"@,
        };
        scheme + "://"@ + spec_host_port(host, port) + base + loc
    }
}

/// Resolve a redirect `location` against the current URL.
pub fn resolve_redirect(current_url: &Url, location: &str) -> (res: Result<Url, NetworkError>)
    ensures
        parse_result(
            res,
            spec_redirect_target(
                current_url.scheme@,
                current_url.host@,
                current_url.port,
                current_url.path@,
                location@,
            ),
        ),
{
    let loc = chars_of(location);
    let p_http = chars_of("http://");
    let p_https = chars_of("https://");
    let p_slash = chars_of("/");
    if starts_with_exec(loc.as_slice(), p_http.as_slice()) || starts_with_exec(
        loc.as_slice(),
        p_https.as_slice(),
    ) {
        Url::parse(location)
    } else if starts_with_exec(loc.as_slice(), p_slash.as_slice()) {
        let mut s = chars_of(current_url.scheme.as_str());
        extend_str(&mut s, "://");
        let hp = current_url.host_port();
        extend_str(&mut s, hp.as_str());
        extend_chars(&mut s, loc.as_slice());
        let text = string_from_chars(s.as_slice());
        Url::parse(text.as_str())
    } else {
        let path = chars_of(current_url.path.as_str());
        let n = path.len();
        let base = match rfind_char(path.as_slice(), '/') {
            Some(k) => slice_chars(path.as_slice(), 0, k + 1),
            None => chars_of("/"),
        };
        let mut s = chars_of(current_url.scheme.as_str());
        extend_str(&mut s, "://");
        let hp = current_url.host_port();
        extend_str(&mut s, hp.as_str());
        extend_chars(&mut s, base.as_slice());
        extend_chars(&mut s, loc.as_slice());
        let text = string_from_chars(s.as_slice());
        Url::parse(text.as_str())
    }
}

} // verus!
