//! Reading an HTTP/1.1 response, decision by decision: when the header
//! block is complete, what its status line and header fields say, how the
//! body is framed, what a chunk-size line gives, and whether to follow a
//! redirect. Reading bytes from the connection is left to the caller.
#![verifier::loop_isolation(false)]

use vstd::prelude::*;
use vstd::utf8::{decode_utf8, valid_utf8};

use crate::net::http::{
    header_views, resolve_redirect, spec_header, spec_is_redirect, spec_redirect_target,
    spec_url_parse, HttpResponse, Url,
};
use crate::net::tcp::NetworkError;
use crate::text::{
    chars_eq, chars_of, contains, contains_exec, find, find_char, find_first, index_of, latin1,
    latin1_chars,
    lemma_find_first_some, lemma_index_of, owned, parse_hex_usize, parse_hex_usize_exec,
    parse_u16, parse_u16_exec, parse_usize, parse_usize_exec, slice_chars, string_from_chars,
    to_lowercase, trim, trim_chars, unicode_lowercase,
};

verus! {

broadcast use vstd::seq_lib::group_seq_properties;

// ─── The header block ────────────────────────────────────────────

/// The most header bytes a response may send: 1 MiB.
pub const MAX_HEADER_BYTES: usize = 1048576;

/// Where reading a header block stands after each byte.
#[derive(Debug, Clone, Copy, PartialEq, Eq, Structural)]
pub enum HeaderBlock {
    /// The block ends with an empty line (`\r\n\r\n`).
    Complete,
    /// The block has grown past the size limit.
    TooLarge,
    /// More bytes are needed.
    Incomplete,
}

/// `b` ends with the bytes `p`.
pub open spec fn ends_with_bytes(b: Seq<u8>, p: Seq<u8>) -> bool {
    p.len() <= b.len() && b.skip(b.len() - p.len()) == p
}

/// The state of a header block read so far: complete once it ends with
/// `\r\n\r\n`, too large once longer than `MAX_HEADER_BYTES`.
pub open spec fn spec_header_block_status(buf: Seq<u8>) -> HeaderBlock {
    if ends_with_bytes(buf, seq![13u8, 10u8, 13u8, 10u8]) {
        HeaderBlock::Complete
    } else if buf.len() > MAX_HEADER_BYTES {
        HeaderBlock::TooLarge
    } else {
        HeaderBlock::Incomplete
    }
}

/// Whether the bytes end with `p`.
fn ends_with_bytes_exec(b: &[u8], p: &[u8]) -> (res: bool)
    ensures
        res == ends_with_bytes(b@, p@),
{
    let n = b.len();
    let m = p.len();
    if m > n {
        return false;
    }
    let mut k: usize = 0;
    while k < m
        invariant
            m <= n,
            n == b@.len(),
            m == p@.len(),
            k <= m,
            forall|j: int| 0 <= j < k ==> b@[n - m + j] == p@[j],
        decreases m - k,
    {
        if b[n - m + k] != p[k] {
            assert(b@.skip(n - m)[k as int] != p@[k as int]);
            return false;
        }
        k += 1;
    }
    assert(b@.skip(n - m) =~= p@);
    true
}

/// Where reading a header block stands.
pub fn header_block_status(buf: &[u8]) -> (res: HeaderBlock)
    ensures
        res == spec_header_block_status(buf@),
{
    let end = vec![13u8, 10u8, 13u8, 10u8];
    assert(end@ =~= seq![13u8, 10u8, 13u8, 10u8]);
    if ends_with_bytes_exec(buf, end.as_slice()) {
        HeaderBlock::Complete
    } else if buf.len() > MAX_HEADER_BYTES {
        HeaderBlock::TooLarge
    } else {
        HeaderBlock::Incomplete
    }
}

// ─── The lossy text of the header block ──────────────────────────

/// The text `String::from_utf8_lossy` makes of bytes.
pub uninterp spec fn utf8_lossy(bytes: Seq<u8>) -> Seq<char>;

/// `String::from_utf8_lossy`: valid UTF-8 is decoded as it is; each
/// invalid sequence becomes U+FFFD, by rules not restated here.
#[verifier::external_body]
fn lossy_text(bytes: &[u8]) -> (res: String)
    ensures
        res@ == utf8_lossy(bytes@),
        valid_utf8(bytes@) ==> res@ == decode_utf8(bytes@),
{
    String::from_utf8_lossy(bytes).into_owned()
}

// ─── The status line and header fields ───────────────────────────

/// The first line of `s` (up to its first `\r\n`) and the text after that
/// `\r\n`, if there is one.
#[verifier::opaque]
pub open spec fn first_line(s: Seq<char>) -> (Seq<char>, Option<Seq<char>>) {
    match find_first(s, "\r\n"@) {
        Some(i) => (s.take(i), Some(s.skip(i + 2))),
        None => (s, None),
    }
}

pub proof fn lemma_first_line(s: Seq<char>)
    ensures
        match first_line(s) {
            (line, Some(rest)) => rest.len() < s.len() && line.len() < s.len(),
            (line, None) => line == s,
        },
{
    reveal(first_line);
    reveal_strlit("\r\n");
    lemma_find_first_some(s, "\r\n"@);
}

/// The header fields in the lines of `s`, up to the first empty line: a
/// line with a `:` gives its trimmed name and value; other lines are
/// skipped.
#[verifier::opaque]
pub open spec fn header_fields(s: Seq<char>) -> Seq<(Seq<char>, Seq<char>)>
    decreases s.len(),
{
    proof {
        lemma_first_line(s);
    }
    let (line, rest) = first_line(s);
    if line.len() == 0 {
        Seq::empty()
    } else {
        match rest {
            Some(r) => line_field(line) + header_fields(r),
            None => line_field(line),
        }
    }
}

proof fn lemma_header_fields_step(s: Seq<char>)
    ensures
        ({
            let (line, rest) = first_line(s);
            header_fields(s) == if line.len() == 0 {
                Seq::<(Seq<char>, Seq<char>)>::empty()
            } else {
                match rest {
                    Some(r) => line_field(line) + header_fields(r),
                    None => line_field(line),
                }
            }
        }),
{
    reveal(header_fields);
}

/// The header field of one line, as a sequence of at most one: its trimmed
/// name and value when it has a `:`.
pub open spec fn line_field(line: Seq<char>) -> Seq<(Seq<char>, Seq<char>)> {
    match index_of(line, ':') {
        Some(i) => seq![(trim(line.take(i)), trim(line.skip(i + 1)))],
        None => Seq::empty(),
    }
}

/// The header field of one line, if it has one.
fn parse_line_field(line: &Vec<char>) -> (res: Option<(String, String)>)
    ensures
        match res {
            Some(f) => line_field(line@) == seq![(f.0@, f.1@)],
            None => line_field(line@) == Seq::<(Seq<char>, Seq<char>)>::empty(),
        },
{
    let n = line.len();
    match find_char(line.as_slice(), ':') {
        Some(i) => {
            let name = slice_chars(line.as_slice(), 0, i);
            let value = slice_chars(line.as_slice(), i + 1, n);
            assert(name@ =~= line@.take(i as int));
            assert(value@ =~= line@.skip(i + 1));
            let name = trim_chars(name.as_slice());
            let value = trim_chars(value.as_slice());
            Some((string_from_chars(name.as_slice()), string_from_chars(value.as_slice())))
        },
        None => None,
    }
}

/// A status line `version code reason`: the code and the reason (empty
/// when absent); an error when there is no space or the code is not a
/// `u16`.
pub open spec fn spec_status_line(line: Seq<char>) -> Result<(u16, Seq<char>), Seq<char>> {
    match index_of(line, ' ') {
        None => Err("Invalid status line"@),
        Some(i) => {
            let rest = line.skip(i + 1);
            let (code, text) = match index_of(rest, ' ') {
                Some(j) => (rest.take(j), rest.skip(j + 1)),
                None => (rest, Seq::empty()),
            };
            match parse_u16(code) {
                Some(c) => Ok((c, text)),
                None => Err("Invalid status code"@),
            }
        },
    }
}

/// The head of a response: status code, reason text and header fields.
#[derive(Debug, Clone)]
pub struct ResponseHead {
    pub status_code: u16,
    pub status_text: String,
    pub headers: Vec<(String, String)>,
}

/// The head a header block describes, from its lossily decoded text.
pub open spec fn spec_response_head(text: Seq<char>) -> Result<
    (u16, Seq<char>, Seq<(Seq<char>, Seq<char>)>),
    Seq<char>,
> {
    let (status, rest) = first_line(text);
    match spec_status_line(status) {
        Err(e) => Err(e),
        Ok((code, reason)) => Ok(
            (
                code,
                reason,
                match rest {
                    Some(r) => header_fields(r),
                    None => Seq::empty(),
                },
            ),
        ),
    }
}

/// The first line of a character sequence and what follows it.
fn split_first_line(s: &Vec<char>) -> (res: (Vec<char>, Option<Vec<char>>))
    ensures
        (res.0@, match res.1 {
            Some(r) => Some(r@),
            None => None,
        }) == first_line(s@),
{
    proof {
        reveal(first_line);
        reveal_strlit("\r\n");
    }
    let crlf = chars_of("\r\n");
    let n = s.len();
    match find(s.as_slice(), crlf.as_slice()) {
        Some(i) => {
            let line = slice_chars(s.as_slice(), 0, i);
            let rest = slice_chars(s.as_slice(), i + 2, n);
            assert(line@ =~= s@.take(i as int));
            assert(rest@ =~= s@.skip(i + 2));
            (line, Some(rest))
        },
        None => {
            let line = slice_chars(s.as_slice(), 0, n);
            assert(line@ =~= s@);
            (line, None)
        },
    }
}

/// The views of a list of header fields.
pub open spec fn fields_view(v: Seq<(String, String)>) -> Seq<(Seq<char>, Seq<char>)> {
    v.map_values(|h: (String, String)| (h.0@, h.1@))
}

/// The header fields of the lines of `s`.
fn parse_header_fields(s: &Vec<char>) -> (res: Vec<(String, String)>)
    ensures
        fields_view(res@) == header_fields(s@),
{
    let mut out: Vec<(String, String)> = Vec::new();
    let mut rest: Vec<char> = slice_chars(s.as_slice(), 0, s.len());
    assert(rest@ =~= s@);
    assert(fields_view(out@) + header_fields(rest@) =~= header_fields(s@));
    loop
        invariant
            fields_view(out@) + header_fields(rest@) == header_fields(s@),
        decreases rest@.len(),
    {
        let ghost prev = fields_view(out@);
        let ghost r = rest@;
        proof {
            lemma_first_line(r);
            lemma_header_fields_step(r);
        }
        let (line, next) = split_first_line(&rest);
        if line.len() == 0 {
            assert(fields_view(out@) =~= fields_view(out@) + header_fields(r));
            return out;
        }
        match parse_line_field(&line) {
            Some(f) => {
                out.push(f);
            },
            None => {},
        }
        assert(fields_view(out@) =~= prev + line_field(line@));
        match next {
            Some(n) => {
                assert(fields_view(out@) + header_fields(n@) =~= prev + header_fields(r));
                rest = n;
            },
            None => {
                assert(fields_view(out@) =~= prev + header_fields(r));
                return out;
            },
        }
    }
}

/// The code and reason of a status line.
fn parse_status_line(line: &Vec<char>) -> (res: Result<(u16, String), NetworkError>)
    ensures
        match spec_status_line(line@) {
            Ok((c, t)) => res matches Ok((rc, rt)) && rc == c && rt@ == t,
            Err(e) => res matches Err(NetworkError::Other(m)) && m@ == e,
        },
{
    let n = line.len();
    match find_char(line.as_slice(), ' ') {
        None => Err(NetworkError::Other(owned("Invalid status line"))),
        Some(i) => {
            let rest = slice_chars(line.as_slice(), i + 1, n);
            assert(rest@ =~= line@.skip(i + 1));
            let (code, text) = match find_char(rest.as_slice(), ' ') {
                Some(j) => {
                    let code = slice_chars(rest.as_slice(), 0, j);
                    let text = slice_chars(rest.as_slice(), j + 1, rest.len());
                    assert(code@ =~= rest@.take(j as int));
                    assert(text@ =~= rest@.skip(j + 1));
                    (code, text)
                },
                None => (rest, Vec::new()),
            };
            match parse_u16_exec(code.as_slice()) {
                Some(c) => Ok((c, string_from_chars(text.as_slice()))),
                None => Err(NetworkError::Other(owned("Invalid status code"))),
            }
        },
    }
}

/// Parse a complete header block: the status line, then the header fields
/// up to the first empty line. The bytes are decoded lossily.
pub fn parse_response_head(header_bytes: &[u8]) -> (res: Result<ResponseHead, NetworkError>)
    ensures
        match spec_response_head(utf8_lossy(header_bytes@)) {
            Ok((c, t, hs)) => res matches Ok(head) && head.status_code == c && head.status_text@ == t
                && fields_view(head.headers@) == hs,
            Err(e) => res matches Err(NetworkError::Other(m)) && m@ == e,
        },
{
    let text = lossy_text(header_bytes);
    let chars = chars_of(text.as_str());
    let (status, rest) = split_first_line(&chars);
    let (status_code, status_text) = match parse_status_line(&status) {
        Ok(parsed) => parsed,
        Err(e) => {
            return Err(e);
        },
    };
    let headers = match rest {
        Some(r) => parse_header_fields(&r),
        None => {
            let empty: Vec<(String, String)> = Vec::new();
            assert(fields_view(empty@) =~= Seq::<(Seq<char>, Seq<char>)>::empty());
            empty
        },
    };
    Ok(ResponseHead { status_code, status_text, headers })
}

// ─── Body framing ────────────────────────────────────────────────

/// How a response body is delimited.
#[derive(Debug, Clone, Copy, PartialEq, Eq, Structural)]
pub enum BodyFraming {
    /// `Transfer-Encoding: chunked`.
    Chunked,
    /// `Content-Length` bytes.
    Length(usize),
    /// Everything until the connection closes.
    UntilClose,
}

/// Some header is named `transfer-encoding` and its value contains
/// `chunked`, both after Unicode lowercasing.
pub open spec fn has_chunked(hs: Seq<(Seq<char>, Seq<char>)>) -> bool {
    exists|k: int|
        0 <= k < hs.len() && unicode_lowercase(#[trigger] hs[k].0) == "transfer-encoding"@ && contains(
            unicode_lowercase(hs[k].1),
            "chunked"@,
        )
}

/// The value of the first header named `content-length` (after Unicode
/// lowercasing) as a `usize`: `None` without such a header, `Some(None)`
/// when its value does not parse.
pub open spec fn content_length_from(hs: Seq<(Seq<char>, Seq<char>)>) -> Option<Option<usize>>
    decreases hs.len(),
{
    if hs.len() == 0 {
        None
    } else if unicode_lowercase(hs[0].0) == "content-length"@ {
        Some(parse_usize(hs[0].1))
    } else {
        content_length_from(hs.drop_first())
    }
}

/// How the body of a response with these headers is framed: chunked when
/// announced, else a valid content length, else until the connection
/// closes.
pub open spec fn spec_body_framing(hs: Seq<(Seq<char>, Seq<char>)>) -> BodyFraming {
    if has_chunked(hs) {
        BodyFraming::Chunked
    } else {
        match content_length_from(hs) {
            Some(Some(n)) => BodyFraming::Length(n),
            _ => BodyFraming::UntilClose,
        }
    }
}

/// Whether the lowercase of `s` equals the literal `lit`.
fn lowercase_is(s: &String, lit: &str) -> (res: bool)
    ensures
        res == (unicode_lowercase(s@) == lit@),
{
    let l = to_lowercase(s.as_str());
    let a = chars_of(l.as_str());
    let b = chars_of(lit);
    chars_eq(a.as_slice(), b.as_slice())
}

/// Decide how a response body is framed from its header fields.
pub fn body_framing(headers: &Vec<(String, String)>) -> (res: BodyFraming)
    ensures
        res == spec_body_framing(fields_view(headers@)),
{
    let ghost hs = fields_view(headers@);
    let mut i: usize = 0;
    while i < headers.len()
        invariant
            i <= headers@.len(),
            hs == fields_view(headers@),
            forall|k: int|
                0 <= k < i ==> !(unicode_lowercase(#[trigger] hs[k].0) == "transfer-encoding"@
                    && contains(unicode_lowercase(hs[k].1), "chunked"@)),
        decreases headers@.len() - i,
    {
        if lowercase_is(&headers[i].0, "transfer-encoding") {
            let v = to_lowercase(headers[i].1.as_str());
            let vc = chars_of(v.as_str());
            let pat = chars_of("chunked");
            if contains_exec(vc.as_slice(), pat.as_slice()) {
                assert(hs[i as int].0 == headers@[i as int].0@);
                return BodyFraming::Chunked;
            }
        }
        assert(hs[i as int] == (headers@[i as int].0@, headers@[i as int].1@));
        i += 1;
    }
    let mut j: usize = 0;
    while j < headers.len()
        invariant
            j <= headers@.len(),
            hs == fields_view(headers@),
            !has_chunked(hs),
            content_length_from(hs.skip(j as int)) == content_length_from(hs),
        decreases headers@.len() - j,
    {
        assert(hs.skip(j as int)[0] == (headers@[j as int].0@, headers@[j as int].1@));
        if lowercase_is(&headers[j].0, "content-length") {
            let v = chars_of(headers[j].1.as_str());
            return match parse_usize_exec(v.as_slice()) {
                Some(n) => BodyFraming::Length(n),
                None => BodyFraming::UntilClose,
            };
        }
        assert(hs.skip(j as int).drop_first() =~= hs.skip(j as int + 1));
        j += 1;
    }
    assert(hs.skip(j as int) =~= Seq::<(Seq<char>, Seq<char>)>::empty());
    BodyFraming::UntilClose
}

// ─── Chunked bodies ──────────────────────────────────────────────

/// A chunk-size line is complete once it ends with `\r\n`.
pub fn chunk_line_complete(line: &[u8]) -> (res: bool)
    ensures
        res == ends_with_bytes(line@, seq![13u8, 10u8]),
{
    let end = vec![13u8, 10u8];
    assert(end@ =~= seq![13u8, 10u8]);
    ends_with_bytes_exec(line, end.as_slice())
}

/// The size a chunk-size line gives: its bytes as characters, trimmed, as
/// a hexadecimal `usize`.
pub open spec fn spec_chunk_size(line: Seq<u8>) -> Option<usize> {
    parse_hex_usize(trim(latin1(line)))
}

/// The size a chunk-size line gives; an error when it is not hexadecimal.
pub fn parse_chunk_size(line: &[u8]) -> (res: Result<usize, NetworkError>)
    ensures
        match spec_chunk_size(line@) {
            Some(n) => res == Ok::<usize, NetworkError>(n),
            None => res matches Err(NetworkError::Other(m)) && m@ == "Invalid chunk size format"@,
        },
{
    let cs = latin1_chars(line);
    let hex = trim_chars(cs.as_slice());
    match parse_hex_usize_exec(hex.as_slice()) {
        Some(n) => Ok(n),
        None => Err(NetworkError::Other(owned("Invalid chunk size format"))),
    }
}

// ─── Redirects ───────────────────────────────────────────────────

/// What to do after a response: hand it back, or request another URL.
#[derive(Debug, Clone)]
pub enum RedirectStep {
    Done,
    Follow(Url),
}

/// `res` follows the redirect to the URL text `target`: the URL it
/// parses to, or the error parsing gives.
pub open spec fn follow_result(res: Result<RedirectStep, NetworkError>, target: Seq<char>) -> bool {
    match spec_url_parse(target) {
        Ok((scheme, host, port, path)) => res matches Ok(RedirectStep::Follow(u)) && u.scheme@
            == scheme && u.host@ == host && u.port == port && u.path@ == path && u.raw@ == target,
        Err(m) => res matches Err(NetworkError::InvalidUrl(r)) && r@ == m,
    }
}

/// Decide whether to follow a response's redirect: a redirect status with
/// a `Location` header is followed (resolved against the current URL)
/// unless `redirects` already reached `max_redirects`, which is an error;
/// anything else ends the exchange.
pub fn next_redirect(response: &HttpResponse, current: &Url, redirects: usize, max_redirects: usize) -> (res: Result<RedirectStep, NetworkError>)
    ensures
        !spec_is_redirect(response.status_code) ==> res matches Ok(RedirectStep::Done),
        spec_is_redirect(response.status_code) && redirects >= max_redirects ==> (res matches Err(
            NetworkError::Other(m),
        ) && m@ == "Too many redirects"@),
        spec_is_redirect(response.status_code) && redirects < max_redirects ==> match spec_header(
            header_views(response.headers@),
            "Location"@,
        ) {
            None => res matches Ok(RedirectStep::Done),
            Some(loc) => follow_result(
                res,
                spec_redirect_target(current.scheme@, current.host@, current.port, current.path@, loc),
            ),
        },
{
    if !response.is_redirect() {
        return Ok(RedirectStep::Done);
    }
    if redirects >= max_redirects {
        return Err(NetworkError::Other(owned("Too many redirects")));
    }
    match response.redirect_location() {
        Some(location) => match resolve_redirect(current, location) {
            Ok(url) => Ok(RedirectStep::Follow(url)),
            Err(e) => Err(e),
        },
        None => Ok(RedirectStep::Done),
    }
}

} // verus!
