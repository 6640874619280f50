//! The error type shared by the networking layer, and the bookkeeping of
//! the connection pool: which pooled connection to reuse, which to drop as
//! dead or idle, and which to evict when the pool is full. The connections
//! themselves, their liveness and the clock (milliseconds) belong to the
//! caller.
#![verifier::loop_isolation(false)]

use std::io;
use std::time::Duration;

use vstd::prelude::*;

use vstd::slice::slice_to_vec;

use crate::text::{decimal, decimal_exec, extend_chars, extend_str, str_eq, string_from_chars};

verus! {

#[verifier::external_type_specification]
#[verifier::external_body]
pub struct ExIoError(io::Error);

/// `io::Error`'s `Display` text. What it says depends on the operating
/// system's error messages; nothing is stated of it.
#[verifier::external_body]
fn io_error_text(e: &io::Error) -> (res: String) {
    e.to_string()
}

/// `Duration::as_millis`: the whole milliseconds of the duration. The
/// contract does not relate the number to the duration, whose fields Verus
/// does not see.
#[verifier::external_body]
fn duration_millis(d: &Duration) -> (res: u128) {
    d.as_millis()
}

/// Networking errors.
#[derive(Debug)]
pub enum NetworkError {
    /// Failed to resolve DNS.
    DnsError(String),
    /// Connection to the host failed.
    ConnectionFailed { addr: String, message: String },
    /// Connection attempt timed out.
    ConnectionTimeout { addr: String, timeout: Duration },
    /// Reading from the connection timed out.
    ReadTimeout { message: String },
    /// Writing to the connection failed.
    WriteError { message: String },
    /// The URL is invalid.
    InvalidUrl(String),
    /// HTTP protocol error.
    HttpError { status: u16, message: String },
    /// Too many redirects.
    TooManyRedirects { url: String, max: usize },
    /// An I/O error.
    IoError(io::Error),
    /// An I/O error described by a message.
    Io(String),
    /// Any other protocol violation or malformed data.
    Other(String),
    /// TLS connection error.
    TlsError(String),
}

impl From<io::Error> for NetworkError {
    fn from(error: io::Error) -> (res: Self) {
        NetworkError::IoError(error)
    }
}

impl vstd::std_specs::convert::FromSpecImpl<io::Error> for NetworkError {
    open spec fn obeys_from_spec() -> bool {
        true
    }

    open spec fn from_spec(v: io::Error) -> NetworkError {
        NetworkError::IoError(v)
    }
}

/// The display text of the variants whose text is fully determined by
/// their fields: a fixed prefix followed by the fields.
pub open spec fn spec_message(e: NetworkError) -> Option<Seq<char>> {
    match e {
        NetworkError::DnsError(m) => Some("DNS resolution failed: "@ + m@),
        NetworkError::ConnectionFailed { addr, message } => Some(
            "Connection to "@ + addr@ + " failed: "@ + message@,
        ),
        NetworkError::ReadTimeout { message } => Some("Read timeout: "@ + message@),
        NetworkError::WriteError { message } => Some("Write error: "@ + message@),
        NetworkError::InvalidUrl(r) => Some("Invalid URL: "@ + r@),
        NetworkError::HttpError { status, message } => Some(
            "HTTP Error "@ + decimal(status as nat) + ": "@ + message@,
        ),
        NetworkError::TooManyRedirects { url, max } => Some(
            "Too many redirects (max "@ + decimal(max as nat) + ") for URL: "@ + url@,
        ),
        NetworkError::Io(m) => Some("I/O error: "@ + m@),
        NetworkError::Other(m) => Some("Network error: "@ + m@),
        NetworkError::TlsError(m) => Some("TLS error: "@ + m@),
        _ => None,
    }
}

impl NetworkError {
    /// The error's display text.
    pub fn message(&self) -> (res: String)
        ensures
            spec_message(*self) matches Some(m) ==> res@ == m,
            self matches NetworkError::ConnectionTimeout { addr, .. } ==> exists|ms: nat|
                res@ == "Connection to "@ + addr@ + " timed out after "@ + decimal(ms) + "ms"@,
            self matches NetworkError::IoError(_) ==> exists|text: Seq<char>| res@ == "I/O Error: "@ + text,
    {
        let mut out: Vec<char> = Vec::new();
        match self {
            NetworkError::DnsError(msg) => {
                extend_str(&mut out, "DNS resolution failed: ");
                extend_str(&mut out, msg.as_str());
            },
            NetworkError::ConnectionFailed { addr, message } => {
                extend_str(&mut out, "Connection to ");
                extend_str(&mut out, addr.as_str());
                extend_str(&mut out, " failed: ");
                extend_str(&mut out, message.as_str());
            },
            NetworkError::ConnectionTimeout { addr, timeout } => {
                extend_str(&mut out, "Connection to ");
                extend_str(&mut out, addr.as_str());
                extend_str(&mut out, " timed out after ");
                let millis = duration_millis(timeout);
                let ms = decimal_exec(millis);
                extend_chars(&mut out, ms.as_slice());
                extend_str(&mut out, "ms");
                assert(out@ =~= "Connection to "@ + addr@ + " timed out after "@ + decimal(millis as nat) + "ms"@);
            },
            NetworkError::ReadTimeout { message } => {
                extend_str(&mut out, "Read timeout: ");
                extend_str(&mut out, message.as_str());
            },
            NetworkError::WriteError { message } => {
                extend_str(&mut out, "Write error: ");
                extend_str(&mut out, message.as_str());
            },
            NetworkError::InvalidUrl(reason) => {
                extend_str(&mut out, "Invalid URL: ");
                extend_str(&mut out, reason.as_str());
            },
            NetworkError::HttpError { status, message } => {
                extend_str(&mut out, "HTTP Error ");
                let d = decimal_exec(*status as u128);
                extend_chars(&mut out, d.as_slice());
                extend_str(&mut out, ": ");
                extend_str(&mut out, message.as_str());
            },
            NetworkError::TooManyRedirects { url, max } => {
                extend_str(&mut out, "Too many redirects (max ");
                let d = decimal_exec(*max as u128);
                extend_chars(&mut out, d.as_slice());
                extend_str(&mut out, ") for URL: ");
                extend_str(&mut out, url.as_str());
            },
            NetworkError::IoError(err) => {
                extend_str(&mut out, "I/O Error: ");
                let t = io_error_text(err);
                extend_str(&mut out, t.as_str());
                assert(out@ =~= "I/O Error: "@ + t@);
            },
            NetworkError::Io(msg) => {
                extend_str(&mut out, "I/O error: ");
                extend_str(&mut out, msg.as_str());
            },
            NetworkError::Other(msg) => {
                extend_str(&mut out, "Network error: ");
                extend_str(&mut out, msg.as_str());
            },
            NetworkError::TlsError(msg) => {
                extend_str(&mut out, "TLS error: ");
                extend_str(&mut out, msg.as_str());
            },
        }
        string_from_chars(out.as_slice())
    }
}

// ─── The connection pool ─────────────────────────────────────────

/// A pooled connection, its key (`host:port` or `ip:port`) and when it
/// was last used.
#[derive(Debug)]
pub struct PooledConnection<C> {
    pub key: String,
    pub connection: C,
    pub last_used_at: u64,
}

/// Open connections, one per key, with the timeouts they were made with
/// (milliseconds) and a cap on how many are kept (0: no cap).
pub struct ConnectionPool<C> {
    pub connections: Vec<PooledConnection<C>>,
    pub connect_timeout_ms: u64,
    pub read_timeout_ms: u64,
    pub idle_timeout_ms: u64,
    pub max_total_connections: usize,
}

/// A connection may be reused: it is alive and has been idle no longer
/// than the idle timeout (no time passes on a clock that went backwards).
pub open spec fn fresh<C>(e: PooledConnection<C>, alive: bool, now: u64, idle: u64) -> bool {
    alive && (now <= e.last_used_at || now - e.last_used_at <= idle)
}

/// The connections that `keep` marks, in order.
pub open spec fn kept<C>(s: Seq<PooledConnection<C>>, keep: Seq<bool>) -> Seq<PooledConnection<C>>
    decreases s.len(),
{
    if s.len() == 0 {
        Seq::empty()
    } else {
        kept(s.drop_last(), keep.take(s.len() - 1)) + if keep[s.len() - 1] {
            seq![s.last()]
        } else {
            Seq::empty()
        }
    }
}

/// The position of the least recently used connection, the first of
/// several used equally long ago.
pub open spec fn oldest<C>(s: Seq<PooledConnection<C>>) -> int
    decreases s.len(),
{
    if s.len() <= 1 {
        0
    } else {
        let k = oldest(s.drop_last());
        if s.last().last_used_at < s[k].last_used_at {
            s.len() - 1
        } else {
            k
        }
    }
}

/// The connections after evicting the least recently used ones until
/// fewer than `max` remain (no eviction when `max` is 0).
pub open spec fn capped<C>(s: Seq<PooledConnection<C>>, max: usize) -> Seq<PooledConnection<C>>
    decreases s.len(),
{
    if max == 0 || s.len() < max || s.len() == 0 {
        s
    } else {
        proof {
            lemma_oldest_in_range(s);
        }
        capped(s.remove(oldest(s)), max)
    }
}

/// Whether each connection may be reused at `now`, given which are alive.
pub open spec fn fresh_flags<C>(s: Seq<PooledConnection<C>>, alive: Seq<bool>, now: u64, idle: u64) -> Seq<bool> {
    Seq::new(s.len(), |i: int| fresh(s[i], alive[i], now, idle))
}

/// The connections after adding `e`: it replaces the one with its key, or
/// comes after the others.
pub open spec fn added<C>(s: Seq<PooledConnection<C>>, e: PooledConnection<C>) -> Seq<PooledConnection<C>> {
    if exists|i: int| 0 <= i < s.len() && s[i].key@ == e.key@ {
        s.update(choose|i: int| 0 <= i < s.len() && s[i].key@ == e.key@, e)
    } else {
        s.push(e)
    }
}

/// No two connections share a key.
pub open spec fn keys_distinct<C>(s: Seq<PooledConnection<C>>) -> bool {
    forall|i: int, j: int| 0 <= i < j < s.len() ==> (#[trigger] s[i]).key@ != (#[trigger] s[j]).key@
}

/// What is added under a key is what the pool then holds under that key:
/// keys stay distinct, the new connection is among them, it is the only
/// one with its key, and it counts as fresh when alive at the time it was
/// added.
pub proof fn lemma_added_is_found<C>(s: Seq<PooledConnection<C>>, e: PooledConnection<C>, idle: u64)
    requires
        keys_distinct(s),
    ensures
        keys_distinct(added(s, e)),
        exists|i: int| 0 <= i < added(s, e).len() && added(s, e)[i] == e,
        forall|i: int|
            0 <= i < added(s, e).len() && (#[trigger] added(s, e)[i]).key@ == e.key@ ==> added(s, e)[i]
                == e,
        fresh(e, true, e.last_used_at, idle),
{
    let t = added(s, e);
    if exists|i: int| 0 <= i < s.len() && s[i].key@ == e.key@ {
        let w = choose|i: int| 0 <= i < s.len() && s[i].key@ == e.key@;
        assert(t[w] == e);
        assert forall|a: int, b: int| 0 <= a < b < t.len() implies (#[trigger] t[a]).key@ != (
        #[trigger] t[b]).key@ by {
            assert(t[a].key@ == s[a].key@ && t[b].key@ == s[b].key@);
        }
        assert forall|i: int| 0 <= i < t.len() && (#[trigger] t[i]).key@ == e.key@ implies t[i] == e by {
            if i != w {
                assert(s[i].key@ == s[w].key@);
            }
        }
    } else {
        assert(t[s.len() as int] == e);
        assert forall|a: int, b: int| 0 <= a < b < t.len() implies (#[trigger] t[a]).key@ != (
        #[trigger] t[b]).key@ by {
            assert(t[a] == s[a]);
            if b < s.len() {
                assert(t[b] == s[b]);
            }
        }
        assert forall|i: int| 0 <= i < t.len() && (#[trigger] t[i]).key@ == e.key@ implies t[i] == e by {
            if i < s.len() {
                assert(t[i] == s[i]);
            }
        }
    }
}

/// The least recently used connection is one of them, used no later than
/// any other and strictly earlier than those before it.
pub proof fn lemma_oldest_in_range<C>(s: Seq<PooledConnection<C>>)
    requires
        s.len() > 0,
    ensures
        0 <= oldest(s) < s.len(),
        forall|j: int| 0 <= j < s.len() ==> s[oldest(s)].last_used_at <= #[trigger] s[j].last_used_at,
        forall|j: int| 0 <= j < oldest(s) ==> s[oldest(s)].last_used_at < #[trigger] s[j].last_used_at,
    decreases s.len(),
{
    if s.len() > 1 {
        let t = s.drop_last();
        lemma_oldest_in_range(t);
        assert forall|j: int| 0 <= j < t.len() implies t[j] == s[j] by {}
    }
}

proof fn lemma_kept_distinct<C>(s: Seq<PooledConnection<C>>, keep: Seq<bool>)
    requires
        keys_distinct(s),
        keep.len() == s.len(),
    ensures
        keys_distinct(kept(s, keep)),
        kept(s, keep).len() <= s.len(),
        forall|i: int| 0 <= i < kept(s, keep).len() ==> s.contains(#[trigger] kept(s, keep)[i]),
    decreases s.len(),
{
    if s.len() > 0 {
        let t = s.drop_last();
        assert forall|a: int, b: int| 0 <= a < b < t.len() implies (#[trigger] t[a]).key@ != (
        #[trigger] t[b]).key@ by {
            assert(t[a] == s[a] && t[b] == s[b]);
        }
        lemma_kept_distinct(t, keep.take(s.len() - 1));
        let r = kept(t, keep.take(s.len() - 1));
        let out = kept(s, keep);
        assert forall|i: int| 0 <= i < out.len() implies s.contains(#[trigger] out[i]) by {
            if i < r.len() {
                assert(out[i] == r[i]);
                assert(t.contains(r[i]));
                let w = choose|w: int| 0 <= w < t.len() && t[w] == r[i];
                assert(s[w] == t[w]);
            } else {
                assert(out[i] == s.last());
                assert(s[s.len() - 1] == s.last());
            }
        }
        if keep[s.len() - 1] {
            assert forall|a: int, b: int| 0 <= a < b < out.len() implies (#[trigger] out[a]).key@ != (
            #[trigger] out[b]).key@ by {
                if b == out.len() - 1 {
                    assert(out[a] == r[a]);
                    assert(t.contains(r[a]));
                    let w = choose|w: int| 0 <= w < t.len() && t[w] == r[a];
                    assert(s[w] == t[w]);
                    assert(s[w].key@ != s[s.len() - 1].key@);
                } else {
                    assert(out[a] == r[a] && out[b] == r[b]);
                }
            }
        } else {
            assert(out =~= r);
        }
    }
}

proof fn lemma_remove_distinct<C>(s: Seq<PooledConnection<C>>, k: int)
    requires
        keys_distinct(s),
        0 <= k < s.len(),
    ensures
        keys_distinct(s.remove(k)),
{
    let t = s.remove(k);
    assert forall|a: int, b: int| 0 <= a < b < t.len() implies (#[trigger] t[a]).key@ != (
    #[trigger] t[b]).key@ by {
        let a2 = if a < k { a } else { a + 1 };
        let b2 = if b < k { b } else { b + 1 };
        assert(t[a] == s[a2] && t[b] == s[b2]);
    }
}

impl<C> ConnectionPool<C> {
    /// The pooled connections.
    pub open spec fn entries(&self) -> Seq<PooledConnection<C>> {
        self.connections@
    }

    /// One connection per key.
    pub open spec fn wf(&self) -> bool {
        keys_distinct(self.connections@)
    }

    /// 10 s to connect, 30 s to read, 60 s idle, at most 32 connections.
    pub fn new() -> (res: Self)
        ensures
            res.wf(),
            res.entries().len() == 0,
            res.connect_timeout_ms == 10_000,
            res.read_timeout_ms == 30_000,
            res.idle_timeout_ms == 60_000,
            res.max_total_connections == 32,
    {
        Self::with_timeouts_and_limits(10_000, 30_000, 60_000, 32)
    }

    /// Custom connect and read timeouts; 60 s idle, at most 32 connections.
    pub fn with_timeouts(connect_ms: u64, read_ms: u64) -> (res: Self)
        ensures
            res.wf(),
            res.entries().len() == 0,
            res.connect_timeout_ms == connect_ms,
            res.read_timeout_ms == read_ms,
            res.idle_timeout_ms == 60_000,
            res.max_total_connections == 32,
    {
        Self::with_timeouts_and_limits(connect_ms, read_ms, 60_000, 32)
    }

    /// Custom timeouts and cap (0: no cap).
    pub fn with_timeouts_and_limits(connect_ms: u64, read_ms: u64, idle_ms: u64, max_total: usize) -> (res: Self)
        ensures
            res.wf(),
            res.entries().len() == 0,
            res.connect_timeout_ms == connect_ms,
            res.read_timeout_ms == read_ms,
            res.idle_timeout_ms == idle_ms,
            res.max_total_connections == max_total,
    {
        ConnectionPool {
            connections: Vec::new(),
            connect_timeout_ms: connect_ms,
            read_timeout_ms: read_ms,
            idle_timeout_ms: idle_ms,
            max_total_connections: max_total,
        }
    }

    /// The number of pooled connections.
    pub fn pool_size(&self) -> (res: usize)
        ensures
            res == self.entries().len(),
    {
        self.connections.len()
    }

    /// Keep the connections `keep` marks; returns how many were dropped.
    fn retain(&mut self, keep: &Vec<bool>) -> (res: usize)
        requires
            old(self).wf(),
            keep@.len() == old(self).entries().len(),
        ensures
            final(self).wf(),
            final(self).entries() == kept(old(self).entries(), keep@),
            res == old(self).entries().len() - final(self).entries().len(),
            final(self).connect_timeout_ms == old(self).connect_timeout_ms,
            final(self).read_timeout_ms == old(self).read_timeout_ms,
            final(self).idle_timeout_ms == old(self).idle_timeout_ms,
            final(self).max_total_connections == old(self).max_total_connections,
    {
        let ghost s = self.connections@;
        let n = keep.len();
        let mut rest: Vec<PooledConnection<C>> = Vec::new();
        std::mem::swap(&mut rest, &mut self.connections);
        let mut out: Vec<PooledConnection<C>> = Vec::new();
        let mut i: usize = 0;
        assert(s.skip(0) =~= s);
        while rest.len() > 0
            invariant
                i <= s.len(),
                keep@.len() == s.len(),
                rest@ == s.skip(i as int),
                out@ == kept(s.take(i as int), keep@.take(i as int)),
            decreases rest@.len(),
        {
            let e = rest.remove(0);
            assert(s.take(i as int + 1).drop_last() =~= s.take(i as int));
            assert(keep@.take(i as int + 1).take(i as int) =~= keep@.take(i as int));
            assert(rest@ =~= s.skip(i as int + 1));
            if keep[i] {
                out.push(e);
            }
            i += 1;
            assert(out@ =~= kept(s.take(i as int), keep@.take(i as int)));
        }
        assert(s.take(i as int) =~= s);
        assert(keep@.take(i as int) =~= keep@);
        proof {
            lemma_kept_distinct(s, keep@);
        }
        let dropped = n - out.len();
        self.connections = out;
        dropped
    }

    /// Drop the connections that are dead (`alive` says which live) or
    /// have been idle longer than the idle timeout at `now`; returns how
    /// many were dropped.
    pub fn prune_idle(&mut self, alive: &[bool], now: u64) -> (res: usize)
        requires
            old(self).wf(),
            alive@.len() == old(self).entries().len(),
        ensures
            final(self).wf(),
            final(self).entries() == kept(
                old(self).entries(),
                fresh_flags(old(self).entries(), alive@, now, old(self).idle_timeout_ms),
            ),
            res == old(self).entries().len() - final(self).entries().len(),
            final(self).connect_timeout_ms == old(self).connect_timeout_ms,
            final(self).read_timeout_ms == old(self).read_timeout_ms,
            final(self).idle_timeout_ms == old(self).idle_timeout_ms,
            final(self).max_total_connections == old(self).max_total_connections,
    {
        let ghost s = self.connections@;
        let mut keep: Vec<bool> = Vec::new();
        let mut i: usize = 0;
        while i < self.connections.len()
            invariant
                i <= s.len(),
                s == self.connections@,
                alive@.len() == s.len(),
                keep@ == fresh_flags(s, alive@, now, self.idle_timeout_ms).take(i as int),
            decreases s.len() - i,
        {
            let last = self.connections[i].last_used_at;
            keep.push(alive[i] && (now <= last || now - last <= self.idle_timeout_ms));
            i += 1;
            assert(keep@ =~= fresh_flags(s, alive@, now, self.idle_timeout_ms).take(i as int));
        }
        assert(keep@ =~= fresh_flags(s, alive@, now, self.idle_timeout_ms));
        self.retain(&keep)
    }

    /// Drop the connections that are dead; returns how many.
    pub fn prune_dead(&mut self, alive: &[bool]) -> (res: usize)
        requires
            old(self).wf(),
            alive@.len() == old(self).entries().len(),
        ensures
            final(self).wf(),
            final(self).entries() == kept(old(self).entries(), alive@),
            res == old(self).entries().len() - final(self).entries().len(),
            final(self).connect_timeout_ms == old(self).connect_timeout_ms,
            final(self).read_timeout_ms == old(self).read_timeout_ms,
            final(self).idle_timeout_ms == old(self).idle_timeout_ms,
            final(self).max_total_connections == old(self).max_total_connections,
    {
        let keep = slice_to_vec(alive);
        self.retain(&keep)
    }

    /// The position of the least recently used connection (see `oldest`).
    fn oldest_position(&self) -> (res: usize)
        requires
            self.entries().len() > 0,
        ensures
            res == oldest(self.entries()),
    {
        let ghost s = self.connections@;
        let mut best: usize = 0;
        let mut i: usize = 1;
        assert(s.take(1).len() == 1);
        while i < self.connections.len()
            invariant
                1 <= i <= s.len(),
                s == self.connections@,
                best == oldest(s.take(i as int)),
                best < i,
            decreases s.len() - i,
        {
            assert(s.take(i as int + 1).drop_last() =~= s.take(i as int));
            if self.connections[i].last_used_at < self.connections[best].last_used_at {
                best = i;
            }
            i += 1;
        }
        assert(s.take(i as int) =~= s);
        best
    }

    /// Evict least recently used connections until fewer than the cap
    /// remain (see `capped`).
    pub fn ensure_capacity(&mut self)
        requires
            old(self).wf(),
        ensures
            final(self).wf(),
            final(self).entries() == capped(old(self).entries(), old(self).max_total_connections),
            final(self).connect_timeout_ms == old(self).connect_timeout_ms,
            final(self).read_timeout_ms == old(self).read_timeout_ms,
            final(self).idle_timeout_ms == old(self).idle_timeout_ms,
            final(self).max_total_connections == old(self).max_total_connections,
    {
        if self.max_total_connections == 0 {
            return;
        }
        while self.connections.len() >= self.max_total_connections && self.connections.len() > 0
            invariant
                self.wf(),
                self.max_total_connections == old(self).max_total_connections,
                self.connect_timeout_ms == old(self).connect_timeout_ms,
                self.read_timeout_ms == old(self).read_timeout_ms,
                self.idle_timeout_ms == old(self).idle_timeout_ms,
                self.max_total_connections > 0,
                capped(self.entries(), self.max_total_connections) == capped(
                    old(self).entries(),
                    old(self).max_total_connections,
                ),
            decreases self.connections@.len(),
        {
            let k = self.oldest_position();
            proof {
                lemma_oldest_in_range(self.connections@);
                lemma_remove_distinct(self.connections@, k as int);
            }
            self.connections.remove(k);
        }
    }

    /// The position of the connection with key `key`.
    fn find(&self, key: &str) -> (res: Option<usize>)
        ensures
            match res {
                Some(i) => i < self.entries().len() && self.entries()[i as int].key@ == key@,
                None => forall|i: int| 0 <= i < self.entries().len() ==> self.entries()[i].key@ != key@,
            },
    {
        let mut i: usize = 0;
        while i < self.connections.len()
            invariant
                i <= self.connections@.len(),
                forall|j: int| 0 <= j < i ==> self.connections@[j].key@ != key@,
            decreases self.connections@.len() - i,
        {
            if str_eq(self.connections[i].key.as_str(), key) {
                return Some(i);
            }
            i += 1;
        }
        None
    }

    /// Add a connection under `key`, used at `now`: it replaces the one with
    /// that key, or comes after the others. Returns its position.
    pub fn add(&mut self, key: String, connection: C, now: u64) -> (res: usize)
        requires
            old(self).wf(),
        ensures
            final(self).wf(),
            final(self).entries() == added(
                old(self).entries(),
                PooledConnection { key, connection, last_used_at: now },
            ),
            res < final(self).entries().len(),
            final(self).entries()[res as int].key@ == key@,
            final(self).connect_timeout_ms == old(self).connect_timeout_ms,
            final(self).read_timeout_ms == old(self).read_timeout_ms,
            final(self).idle_timeout_ms == old(self).idle_timeout_ms,
            final(self).max_total_connections == old(self).max_total_connections,
    {
        let ghost s = self.connections@;
        let ghost e = PooledConnection { key, connection, last_used_at: now };
        match self.find(key.as_str()) {
            Some(i) => {
                self.connections.set(i, PooledConnection { key, connection, last_used_at: now });
                proof {
                    let w = choose|w: int| 0 <= w < s.len() && s[w].key@ == e.key@;
                    if w != i {
                        assert(s[w].key@ == s[i as int].key@);
                    }
                    let t = self.connections@;
                    assert(s[i as int].key@ == e.key@);
                    assert forall|a: int, b: int| 0 <= a < b < t.len() implies (#[trigger] t[a]).key@
                        != (#[trigger] t[b]).key@ by {
                        assert(t[a].key@ == s[a].key@ && t[b].key@ == s[b].key@);
                    }
                }
                i
            },
            None => {
                self.connections.push(PooledConnection { key, connection, last_used_at: now });
                proof {
                    let t = self.connections@;
                    assert forall|a: int, b: int| 0 <= a < b < t.len() implies (#[trigger] t[a]).key@
                        != (#[trigger] t[b]).key@ by {
                        assert(t[a] == s[a]);
                        if b < s.len() {
                            assert(t[b] == s[b]);
                        } else {
                            assert(old(self).entries()[a].key@ != key@);
                        }
                    }
                }
                self.connections.len() - 1
            },
        }
    }

    /// Bring in a connection made outside the pool (a TLS stream, say):
    /// drop the dead and idle ones (`alive` says which live), evict down
    /// below the cap, then add it under `key`, used at `now`. Returns its
    /// position.
    pub fn insert(&mut self, key: String, connection: C, alive: &[bool], now: u64) -> (res: usize)
        requires
            old(self).wf(),
            alive@.len() == old(self).entries().len(),
        ensures
            final(self).wf(),
            final(self).entries() == added(
                capped(
                    kept(
                        old(self).entries(),
                        fresh_flags(old(self).entries(), alive@, now, old(self).idle_timeout_ms),
                    ),
                    old(self).max_total_connections,
                ),
                PooledConnection { key, connection, last_used_at: now },
            ),
            res < final(self).entries().len(),
            final(self).entries()[res as int].key@ == key@,
            final(self).connect_timeout_ms == old(self).connect_timeout_ms,
            final(self).read_timeout_ms == old(self).read_timeout_ms,
            final(self).idle_timeout_ms == old(self).idle_timeout_ms,
            final(self).max_total_connections == old(self).max_total_connections,
    {
        self.prune_idle(alive, now);
        self.ensure_capacity();
        self.add(key, connection, now)
    }

    /// The pooled connection under `key` when it is alive (as `alive`
    /// says) and not idle too long at `now`: it is marked used at `now` and
    /// its position returned. A stale one is dropped.
    pub fn get(&mut self, key: &str, alive: bool, now: u64) -> (res: Option<usize>)
        requires
            old(self).wf(),
        ensures
            final(self).wf(),
            final(self).connect_timeout_ms == old(self).connect_timeout_ms,
            final(self).read_timeout_ms == old(self).read_timeout_ms,
            final(self).idle_timeout_ms == old(self).idle_timeout_ms,
            final(self).max_total_connections == old(self).max_total_connections,
            (forall|i: int| 0 <= i < old(self).entries().len() ==> old(self).entries()[i].key@ != key@)
                ==> res is None && final(self).entries() == old(self).entries(),
            forall|i: int|
                0 <= i < old(self).entries().len() && old(self).entries()[i].key@ == key@ ==> if fresh(
                    old(self).entries()[i],
                    alive,
                    now,
                    old(self).idle_timeout_ms,
                ) {
                    res == Some(i as usize) && final(self).entries() == old(self).entries().update(
                        i,
                        PooledConnection { last_used_at: now, ..old(self).entries()[i] },
                    )
                } else {
                    res is None && final(self).entries() == old(self).entries().remove(i)
                },
    {
        match self.find(key) {
            Some(i) => {
                let last = self.connections[i].last_used_at;
                if alive && (now <= last || now - last <= self.idle_timeout_ms) {
                    self.connections[i].last_used_at = now;
                    proof {
                        let s = old(self).connections@;
                        let t = self.connections@;
                        assert forall|a: int, b: int| 0 <= a < b < t.len() implies (
                        #[trigger] t[a]).key@ != (#[trigger] t[b]).key@ by {
                            assert(t[a].key == s[a].key && t[b].key == s[b].key);
                        }
                        assert forall|j: int| 0 <= j < s.len() && s[j].key@ == key@ implies j == i by {
                            if j != i {
                                assert(s[j].key@ == s[i as int].key@);
                            }
                        }
                    }
                    Some(i)
                } else {
                    proof {
                        let s = old(self).connections@;
                        lemma_remove_distinct(s, i as int);
                        assert forall|j: int| 0 <= j < s.len() && s[j].key@ == key@ implies j == i by {
                            if j != i {
                                assert(s[j].key@ == s[i as int].key@);
                            }
                        }
                    }
                    self.connections.remove(i);
                    None
                }
            },
            None => None,
        }
    }

    /// The connection at position `i`, to use.
    pub fn connection_mut(&mut self, i: usize) -> (res: &mut C)
        requires
            i < old(self).entries().len(),
        ensures
            *res == old(self).entries()[i as int].connection,
            final(self).entries() == old(self).entries().update(
                i as int,
                PooledConnection { connection: *final(res), ..old(self).entries()[i as int] },
            ),
            final(self).connect_timeout_ms == old(self).connect_timeout_ms,
            final(self).read_timeout_ms == old(self).read_timeout_ms,
            final(self).idle_timeout_ms == old(self).idle_timeout_ms,
            final(self).max_total_connections == old(self).max_total_connections,
    {
        &mut self.connections[i].connection
    }

    /// Drop the connection under `key`, if any.
    pub fn disconnect(&mut self, key: &str)
        requires
            old(self).wf(),
        ensures
            final(self).wf(),
            (forall|i: int| 0 <= i < old(self).entries().len() ==> old(self).entries()[i].key@ != key@)
                ==> final(self).entries() == old(self).entries(),
            forall|i: int|
                0 <= i < old(self).entries().len() && old(self).entries()[i].key@ == key@ ==> final(self).entries() == old(self).entries().remove(i),
            final(self).max_total_connections == old(self).max_total_connections,
    {
        if let Some(i) = self.find(key) {
            proof {
                let s = old(self).connections@;
                lemma_remove_distinct(s, i as int);
                assert forall|j: int| 0 <= j < s.len() && s[j].key@ == key@ implies j == i by {
                    if j != i {
                        assert(s[j].key@ == s[i as int].key@);
                    }
                }
            }
            self.connections.remove(i);
        }
    }

    /// Drop every connection.
    pub fn close_all(&mut self)
        ensures
            final(self).wf(),
            final(self).entries().len() == 0,
            final(self).max_total_connections == old(self).max_total_connections,
    {
        self.connections.clear();
    }
}

} // verus!
