//! TLS server names: a domain as typed, with stray schemes, paths, ports
//! and trailing dots removed, checked and converted by rustls.

use vstd::prelude::*;

use std::sync::Arc;

use rustls::pki_types::ServerName;
use rustls::ClientConfig;

use crate::net::tcp::NetworkError;
use crate::text::{
    chars_of, extend_chars, extend_str, find_char, index_of, lemma_index_of, slice_chars,
    string_from_chars, trim, trim_chars,
};

verus! {

#[verifier::external_type_specification]
#[verifier::external_body]
pub struct ExServerName<'a>(ServerName<'a>);

#[verifier::external_type_specification]
#[verifier::external_body]
pub struct ExClientConfig(ClientConfig);

/// Whether rustls accepts the text as a server name: a DNS name it
/// validates, or else an IP address it parses.
pub uninterp spec fn server_name_valid(name: Seq<char>) -> bool;

/// `ServerName::try_from(String)` (rustls-pki-types): a server name when
/// the text is a valid DNS name or an IP address, else its error, whose
/// text is `invalid dns name`. Which texts are valid is left to the name
/// `server_name_valid`.
#[verifier::external_body]
fn server_name_try_from(name: String) -> (res: Result<ServerName<'static>, String>)
    ensures
        res is Ok <==> server_name_valid(name@),
        res matches Err(e) ==> e@ == "invalid dns name"@,
{
    match ServerName::try_from(name) {
        Ok(n) => Ok(n),
        Err(e) => Err(e.to_string()),
    }
}

// ─── Cleaning a domain ───────────────────────────────────────────

/// `s` with every leading repetition of `p` removed (`trim_start_matches`).
pub open spec fn strip_prefixes(s: Seq<char>, p: Seq<char>) -> Seq<char>
    decreases s.len(),
{
    if p.len() > 0 && p.len() <= s.len() && s.take(p.len() as int) == p {
        strip_prefixes(s.skip(p.len() as int), p)
    } else {
        s
    }
}

/// `s` up to the first `c` (the first piece of `split(c)`).
pub open spec fn before(s: Seq<char>, c: char) -> Seq<char> {
    match index_of(s, c) {
        Some(i) => s.take(i),
        None => s,
    }
}

/// `s` with every trailing `c` removed (`trim_end_matches`).
pub open spec fn strip_trailing(s: Seq<char>, c: char) -> Seq<char>
    decreases s.len(),
{
    if s.len() > 0 && s.last() == c {
        strip_trailing(s.drop_last(), c)
    } else {
        s
    }
}

/// The server name a domain stands for: trimmed, without leading
/// `https://` then `http://`, cut at the first `/` and then at the first
/// `:`, and without trailing dots.
pub open spec fn spec_clean_server_name(domain: Seq<char>) -> Seq<char> {
    let t = strip_prefixes(strip_prefixes(trim(domain), "https://"@), "http://"@);
    strip_trailing(before(before(t, '/'), ':'), '.')
}

/// Whether `s` starts with `p` at position `at`.
fn starts_at(s: &[char], at: usize, p: &[char]) -> (res: bool)
    requires
        at <= s@.len(),
    ensures
        res == (p@.len() <= s@.len() - at && s@.subrange(at as int, at + p@.len()) == p@),
{
    let n = s.len();
    if p.len() > n - at {
        return false;
    }
    let mut i: usize = 0;
    while i < p.len()
        invariant
            n == s@.len(),
            at <= s@.len(),
            i <= p@.len(),
            p@.len() <= s@.len() - at,
            forall|j: int| 0 <= j < i ==> s@[at + j] == p@[j],
        decreases p@.len() - i,
    {
        if s[at + i] != p[i] {
            assert(s@.subrange(at as int, at + p@.len())[i as int] != p@[i as int]);
            return false;
        }
        i += 1;
    }
    assert(s@.subrange(at as int, at + p@.len()) =~= p@);
    true
}

/// `strip_prefixes` on a character slice.
fn strip_prefixes_exec(s: &[char], p: &str) -> (res: Vec<char>)
    requires
        p@.len() > 0,
    ensures
        res@ == strip_prefixes(s@, p@),
{
    let pat = chars_of(p);
    let mut at: usize = 0;
    assert(s@.skip(0) =~= s@);
    let n = s.len();
    while starts_at(s, at, pat.as_slice())
        invariant
            n == s@.len(),
            at <= s@.len(),
            pat@ == p@,
            pat@.len() > 0,
            strip_prefixes(s@.skip(at as int), p@) == strip_prefixes(s@, p@),
        decreases s@.len() - at,
    {
        proof {
            let rest = s@.skip(at as int);
            assert(rest.take(p@.len() as int) =~= s@.subrange(at as int, at + p@.len()));
            assert(rest.skip(p@.len() as int) =~= s@.skip(at + p@.len()));
        }
        assert(at + pat@.len() <= s@.len());
        at = at + pat.len();
    }
    proof {
        let rest = s@.skip(at as int);
        if p@.len() <= rest.len() {
            assert(rest.take(p@.len() as int) =~= s@.subrange(at as int, at + p@.len()));
        }
    }
    slice_chars(s, at, s.len())
}

/// `before` on a character slice.
fn before_exec(s: &[char], c: char) -> (res: Vec<char>)
    ensures
        res@ == before(s@, c),
{
    match find_char(s, c) {
        Some(i) => slice_chars(s, 0, i),
        None => slice_chars(s, 0, s.len()),
    }
}

/// `strip_trailing` on a character slice.
fn strip_trailing_exec(s: &[char], c: char) -> (res: Vec<char>)
    ensures
        res@ == strip_trailing(s@, c),
{
    let mut end: usize = s.len();
    assert(s@.take(s@.len() as int) =~= s@);
    while end > 0 && s[end - 1] == c
        invariant
            end <= s@.len(),
            strip_trailing(s@.take(end as int), c) == strip_trailing(s@, c),
        decreases end,
    {
        assert(s@.take(end as int).drop_last() =~= s@.take(end - 1));
        end -= 1;
    }
    slice_chars(s, 0, end)
}

/// Clean a domain into the text of a server name (see
/// `spec_clean_server_name`).
pub fn clean_server_name(domain: &str) -> (res: Vec<char>)
    ensures
        res@ == spec_clean_server_name(domain@),
{
    proof {
        reveal_strlit("https://");
        reveal_strlit("http://");
    }
    let cs = chars_of(domain);
    let t = trim_chars(cs.as_slice());
    let a = strip_prefixes_exec(t.as_slice(), "https://");
    let b = strip_prefixes_exec(a.as_slice(), "http://");
    let c = before_exec(b.as_slice(), '/');
    let d = before_exec(c.as_slice(), ':');
    strip_trailing_exec(d.as_slice(), '.')
}

/// The message for a server name rustls refuses.
pub open spec fn invalid_name_message(clean: Seq<char>, err: Seq<char>) -> Seq<char> {
    "Invalid TLS server name '"@ + clean + "': "@ + err
}

/// A TLS connector: the client configuration (root certificates, session
/// resumption) that connections are made with.
#[derive(Clone)]
pub struct TlsConnector {
    config: Arc<ClientConfig>,
}

impl TlsConnector {
    /// A connector that makes connections with `config`.
    pub fn from_config(config: Arc<ClientConfig>) -> (res: Self)
        ensures
            *res.config() == *config,
    {
        TlsConnector { config }
    }

    /// The client configuration.
    pub closed spec fn config(&self) -> &Arc<ClientConfig> {
        &self.config
    }

    /// The client configuration, to make a connection with.
    pub fn client_config(&self) -> (res: &Arc<ClientConfig>)
        ensures
            *res == *self.config(),
    {
        &self.config
    }

    /// The server name for a domain: the cleaned domain (see
    /// `spec_clean_server_name`) as rustls reads it. An empty name, or one
    /// rustls refuses, is a TLS error.
    pub fn parse_server_name(domain: &str) -> (res: Result<ServerName<'static>, NetworkError>)
        ensures
            spec_clean_server_name(domain@).len() == 0 ==> (res matches Err(NetworkError::TlsError(m))
                && m@ == "Domain name is empty"@),
            spec_clean_server_name(domain@).len() > 0 ==> (res is Ok <==> server_name_valid(
                spec_clean_server_name(domain@),
            )),
            spec_clean_server_name(domain@).len() > 0 && !server_name_valid(
                spec_clean_server_name(domain@),
            ) ==> (res matches Err(NetworkError::TlsError(m)) && m@ == invalid_name_message(
                spec_clean_server_name(domain@),
                "invalid dns name"@,
            )),
    {
        let clean = clean_server_name(domain);
        if clean.len() == 0 {
            return Err(NetworkError::TlsError(string_from_chars(chars_of("Domain name is empty").as_slice())));
        }
        match server_name_try_from(string_from_chars(clean.as_slice())) {
            Ok(name) => Ok(name),
            Err(e) => {
                let mut msg: Vec<char> = Vec::new();
                extend_str(&mut msg, "Invalid TLS server name '");
                extend_chars(&mut msg, clean.as_slice());
                extend_str(&mut msg, "': ");
                extend_str(&mut msg, e.as_str());
                Err(NetworkError::TlsError(string_from_chars(msg.as_slice())))
            },
        }
    }
}

} // verus!
