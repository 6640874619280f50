//! The caching DNS resolver: which host names are valid and which are
//! local, which addresses are private or loopback, when a resolution must
//! be refused as a DNS rebinding attempt, and the cache of resolutions and
//! pinned hosts. The system lookup and the clock belong to the caller: the
//! resolver says when a lookup is needed and takes its result and the time
//! (in milliseconds on the caller's clock) as arguments.
#![verifier::loop_isolation(false)]

use vstd::prelude::*;

use vstd::slice::slice_to_vec;

use crate::text::{chars_eq, chars_of, contains, contains_exec, lower, lower_chars, owned, str_eq};

verus! {

/// Does `s` end with `suffix`?
pub open spec fn ends_with(s: Seq<char>, suffix: Seq<char>) -> bool {
    suffix.len() <= s.len() && s.skip(s.len() - suffix.len()) == suffix
}

fn ends_with_exec(s: &[char], suffix: &str) -> (res: bool)
    ensures
        res == ends_with(s@, suffix@),
{
    let suf = chars_of(suffix);
    if suf.len() > s.len() {
        return false;
    }
    let n = s.len();
    let start = n - suf.len();
    let mut i: usize = 0;
    while i < suf.len()
        invariant
            n == s@.len(),
            start + suf@.len() == s@.len(),
            suf@ == suffix@,
            i <= suf@.len(),
            forall|j: int| 0 <= j < i ==> s@[start + j] == suf@[j],
        decreases suf@.len() - i,
    {
        if s[start + i] != suf[i] {
            assert(s@.skip(start as int)[i as int] != suf@[i as int]);
            return false;
        }
        i += 1;
    }
    assert(s@.skip(start as int) =~= suf@);
    true
}

/// A host name that is local by nature: `localhost`, a name under
/// `.localhost`, `.local` or `.internal`, or a loopback address, compared
/// case-insensitively.
pub open spec fn spec_is_local_hostname(h: Seq<char>) -> bool {
    let l = lower(h);
    l == "localhost"@ || ends_with(l, ".localhost"@) || ends_with(l, ".local"@) || ends_with(
        l,
        ".internal"@,
    ) || l == "127.0.0.1"@ || l == "::1"@
}

/// Is the host name intrinsically local?
pub fn is_local_hostname(hostname: &str) -> (res: bool)
    ensures
        res == spec_is_local_hostname(hostname@),
{
    let cs = chars_of(hostname);
    let lo = lower_chars(cs.as_slice());
    let localhost = chars_of("localhost");
    let loop4 = chars_of("127.0.0.1");
    let loop6 = chars_of("::1");
    chars_eq(lo.as_slice(), localhost.as_slice()) || ends_with_exec(lo.as_slice(), ".localhost")
        || ends_with_exec(lo.as_slice(), ".local") || ends_with_exec(lo.as_slice(), ".internal")
        || chars_eq(lo.as_slice(), loop4.as_slice()) || chars_eq(lo.as_slice(), loop6.as_slice())
}

// ─── Addresses ───────────────────────────────────────────────────

/// An IP address: the four octets of an IPv4 address or the eight 16-bit
/// segments of an IPv6 address.
#[derive(Debug, Clone, Copy, PartialEq, Eq, Structural)]
pub enum IpAddress {
    V4(u8, u8, u8, u8),
    V6(u16, u16, u16, u16, u16, u16, u16, u16),
}

/// An address in loopback, private, link-local, broadcast or unspecified
/// space: for IPv4 `127.0.0.0/8`, `10.0.0.0/8`, `172.16.0.0/12`,
/// `192.168.0.0/16`, `169.254.0.0/16`, `255.255.255.255` or `0.0.0.0`; for
/// IPv6 `::1`, `::`, unique-local `fc00::/7` or link-local `fe80::/10`.
pub open spec fn spec_is_private_or_loopback(ip: IpAddress) -> bool {
    match ip {
        IpAddress::V4(a, b, c, d) => {
            ||| a == 127
            ||| a == 10
            ||| (a == 172 && 16 <= b <= 31)
            ||| (a == 192 && b == 168)
            ||| (a == 169 && b == 254)
            ||| (a == 255 && b == 255 && c == 255 && d == 255)
            ||| (a == 0 && b == 0 && c == 0 && d == 0)
        },
        IpAddress::V6(s0, s1, s2, s3, s4, s5, s6, s7) => {
            let zero_prefix = s0 == 0 && s1 == 0 && s2 == 0 && s3 == 0 && s4 == 0 && s5 == 0 && s6
                == 0;
            ||| (zero_prefix && s7 == 1)
            ||| (zero_prefix && s7 == 0)
            ||| s0 & 0xfe00 == 0xfc00
            ||| s0 & 0xffc0 == 0xfe80
        },
    }
}

/// Is the address loopback, private or otherwise not publicly routable?
pub fn is_private_or_loopback_ip(ip: &IpAddress) -> (res: bool)
    ensures
        res == spec_is_private_or_loopback(*ip),
{
    match *ip {
        IpAddress::V4(a, b, c, d) => a == 127 || a == 10 || (a == 172 && 16 <= b && b <= 31) || (a
            == 192 && b == 168) || (a == 169 && b == 254) || (a == 255 && b == 255 && c == 255 && d
            == 255) || (a == 0 && b == 0 && c == 0 && d == 0),
        IpAddress::V6(s0, s1, s2, s3, s4, s5, s6, s7) => {
            let zero_prefix = s0 == 0 && s1 == 0 && s2 == 0 && s3 == 0 && s4 == 0 && s5 == 0 && s6
                == 0;
            (zero_prefix && s7 == 1) || (zero_prefix && s7 == 0) || s0 & 0xfe00 == 0xfc00 || s0
                & 0xffc0 == 0xfe80
        },
    }
}

// ─── Host names ──────────────────────────────────────────────────

/// A host name the resolver accepts: not empty, and not a URL (no `://`).
pub open spec fn spec_valid_hostname(h: Seq<char>) -> bool {
    h.len() > 0 && !contains(h, "://"@)
}

/// Whether the resolver accepts a host name.
pub fn validate_hostname(hostname: &str) -> (res: bool)
    ensures
        res == spec_valid_hostname(hostname@),
{
    let cs = chars_of(hostname);
    if cs.len() == 0 {
        return false;
    }
    let pat = chars_of("://");
    !contains_exec(cs.as_slice(), pat.as_slice())
}

// ─── Resolution results ──────────────────────────────────────────

/// The addresses with repeats removed, first occurrences kept in order.
pub open spec fn dedup(ips: Seq<IpAddress>) -> Seq<IpAddress>
    decreases ips.len(),
{
    if ips.len() == 0 {
        Seq::empty()
    } else {
        let prev = dedup(ips.drop_last());
        if prev.contains(ips.last()) {
            prev
        } else {
            prev.push(ips.last())
        }
    }
}

/// Collect resolved addresses without repeats, in the order first seen.
pub fn dedup_addresses(ips: &[IpAddress]) -> (res: Vec<IpAddress>)
    ensures
        res@ == dedup(ips@),
{
    let mut out: Vec<IpAddress> = Vec::new();
    let mut i: usize = 0;
    while i < ips.len()
        invariant
            i <= ips@.len(),
            out@ == dedup(ips@.take(i as int)),
        decreases ips@.len() - i,
    {
        let ip = ips[i];
        assert(ips@.take(i as int + 1).drop_last() =~= ips@.take(i as int));
        let mut seen = false;
        let mut k: usize = 0;
        while k < out.len()
            invariant
                k <= out@.len(),
                seen == exists|j: int| 0 <= j < k && out@[j] == ip,
            decreases out@.len() - k,
        {
            if out[k] == ip {
                seen = true;
            }
            k += 1;
        }
        if !seen {
            out.push(ip);
        }
        i += 1;
    }
    assert(ips@.take(ips@.len() as int) =~= ips@);
    out
}

/// The first address a resolution must be refused for: with rebinding
/// protection on and a host name that is not local, the first private or
/// loopback address.
pub open spec fn spec_rebinding_violation(protection: bool, hostname: Seq<char>, ips: Seq<IpAddress>) -> Option<int> {
    if protection && !spec_is_local_hostname(hostname) && exists|i: int|
        0 <= i < ips.len() && spec_is_private_or_loopback(ips[i]) {
        Some(
            choose|i: int|
                0 <= i < ips.len() && spec_is_private_or_loopback(ips[i]) && forall|j: int|
                    0 <= j < i ==> !spec_is_private_or_loopback(#[trigger] ips[j]),
        )
    } else {
        None
    }
}

/// Check a resolution for a DNS rebinding attempt: the position of the
/// first address that must be refused, if any.
pub fn rebinding_violation(protection: bool, hostname: &str, ips: &[IpAddress]) -> (res: Option<usize>)
    ensures
        match res {
            Some(i) => i < ips@.len() && spec_rebinding_violation(protection, hostname@, ips@) == Some(
                i as int,
            ),
            None => spec_rebinding_violation(protection, hostname@, ips@) is None,
        },
{
    if !protection || is_local_hostname(hostname) {
        return None;
    }
    let mut i: usize = 0;
    while i < ips.len()
        invariant
            protection,
            !spec_is_local_hostname(hostname@),
            i <= ips@.len(),
            forall|j: int| 0 <= j < i ==> !spec_is_private_or_loopback(#[trigger] ips@[j]),
        decreases ips@.len() - i,
    {
        if is_private_or_loopback_ip(&ips[i]) {
            proof {
                let k = choose|k: int|
                    0 <= k < ips@.len() && spec_is_private_or_loopback(ips@[k]) && forall|j: int|
                        0 <= j < k ==> !spec_is_private_or_loopback(#[trigger] ips@[j]);
                if k < i {
                    assert(!spec_is_private_or_loopback(ips@[k]));
                }
                if i < k {
                    assert(!spec_is_private_or_loopback(ips@[i as int]));
                }
            }
            return Some(i);
        }
        i += 1;
    }
    None
}

// ─── The resolver ────────────────────────────────────────────────

/// A resolution: the host name, its addresses, when it was made and how
/// long it stays valid (both in milliseconds).
#[derive(Debug, Clone)]
pub struct DnsEntry {
    pub hostname: String,
    pub ip_addresses: Vec<IpAddress>,
    pub resolved_at: u64,
    pub ttl: u64,
}

/// The contents of a resolution.
pub type EntryView = (Seq<char>, Seq<IpAddress>, u64, u64);

/// The contents of a resolution.
pub open spec fn entry_view(e: DnsEntry) -> EntryView {
    (e.hostname@, e.ip_addresses@, e.resolved_at, e.ttl)
}

/// A resolution has expired when more than its time to live has passed
/// since it was made (no time passes on a clock that went backwards).
pub open spec fn expired(e: EntryView, now: u64) -> bool {
    now > e.2 && now - e.2 > e.3
}

impl DnsEntry {
    /// Whether the entry has expired at time `now`.
    pub fn is_expired(&self, now: u64) -> (res: bool)
        ensures
            res == expired(entry_view(*self), now),
    {
        now > self.resolved_at && now - self.resolved_at > self.ttl
    }
}

/// A copy of a resolution.
fn copy_entry(e: &DnsEntry) -> (res: DnsEntry)
    ensures
        entry_view(res) == entry_view(*e),
{
    DnsEntry {
        hostname: owned(e.hostname.as_str()),
        ip_addresses: slice_to_vec(e.ip_addresses.as_slice()),
        resolved_at: e.resolved_at,
        ttl: e.ttl,
    }
}

/// Why a resolution failed.
#[derive(Debug, Clone)]
pub enum DnsError {
    /// The lookup failed, or found no address.
    ResolutionFailed { hostname: String, message: String },
    /// The host name is empty or holds a scheme.
    InvalidHostname { hostname: String },
    /// A name that is not local resolved to a private or loopback address.
    RebindingDetected { hostname: String, attempted_ip: IpAddress },
}

/// What `resolve` decides: an answer, or a system lookup to make and hand
/// to `finish_lookup`.
#[derive(Debug)]
pub enum ResolveStep {
    Done(Result<DnsEntry, DnsError>),
    Lookup,
}

/// The answers `resolve` gives, by their contents.
pub enum Answer {
    Entry(EntryView),
    Invalid(Seq<char>),
    Lookup,
}

/// What a step says, by its contents. Errors other than an invalid host
/// name are never decided without a lookup.
pub open spec fn answer_of(step: ResolveStep) -> Option<Answer> {
    match step {
        ResolveStep::Done(Ok(e)) => Some(Answer::Entry(entry_view(e))),
        ResolveStep::Done(Err(DnsError::InvalidHostname { hostname })) => Some(
            Answer::Invalid(hostname@),
        ),
        ResolveStep::Lookup => Some(Answer::Lookup),
        _ => None,
    }
}

/// A pinned host: a name and the addresses it is held to.
#[derive(Debug, Clone)]
pub struct PinnedHost {
    pub hostname: String,
    pub ip_addresses: Vec<IpAddress>,
}

/// The position of the first resolution for `h`.
pub open spec fn entry_position(s: Seq<EntryView>, h: Seq<char>) -> Option<int>
    decreases s.len(),
{
    if s.len() == 0 {
        None
    } else {
        match entry_position(s.drop_last(), h) {
            Some(i) => Some(i),
            None => if s.last().0 == h {
                Some(s.len() - 1)
            } else {
                None
            },
        }
    }
}

/// The cached resolution for `h`.
pub open spec fn cached(s: Seq<EntryView>, h: Seq<char>) -> Option<EntryView> {
    match entry_position(s, h) {
        Some(i) => Some(s[i]),
        None => None,
    }
}

/// The pinned names, each with its addresses, in the shape of resolutions.
pub open spec fn pin_keys(p: Seq<(Seq<char>, Seq<IpAddress>)>) -> Seq<EntryView> {
    p.map_values(|x: (Seq<char>, Seq<IpAddress>)| (x.0, x.1, 0u64, 0u64))
}

/// The addresses `h` is pinned to.
pub open spec fn pinned(p: Seq<(Seq<char>, Seq<IpAddress>)>, h: Seq<char>) -> Option<Seq<IpAddress>> {
    match entry_position(pin_keys(p), h) {
        Some(i) => Some(p[i].1),
        None => None,
    }
}

/// The number of resolutions expired at `now`.
pub open spec fn expired_count(s: Seq<EntryView>, now: u64) -> nat
    decreases s.len(),
{
    if s.len() == 0 {
        0
    } else {
        expired_count(s.drop_last(), now) + if expired(s.last(), now) {
            1nat
        } else {
            0nat
        }
    }
}

/// The first position of `h` in a prefix is its first position overall.
proof fn lemma_position_prefix(s: Seq<EntryView>, h: Seq<char>, k: int)
    requires
        0 <= k <= s.len(),
        entry_position(s.take(k), h) is Some,
    ensures
        entry_position(s, h) == entry_position(s.take(k), h),
    decreases s.len(),
{
    if k < s.len() {
        assert(s.drop_last().take(k) =~= s.take(k));
        lemma_position_prefix(s.drop_last(), h, k);
    } else {
        assert(s.take(k) =~= s);
    }
}

/// A name found at a position is the name there, and none before it.
proof fn lemma_position_found(s: Seq<EntryView>, h: Seq<char>)
    ensures
        match entry_position(s, h) {
            Some(i) => 0 <= i < s.len() && s[i].0 == h && forall|j: int| 0 <= j < i ==> s[j].0 != h,
            None => forall|j: int| 0 <= j < s.len() ==> s[j].0 != h,
        },
    decreases s.len(),
{
    if s.len() > 0 {
        let t = s.drop_last();
        lemma_position_found(t, h);
        assert forall|j: int| 0 <= j < t.len() implies t[j] == s[j] by {}
    }
}

/// With distinct names, the name at position `i` is found there.
proof fn lemma_position_at(s: Seq<EntryView>, i: int)
    requires
        0 <= i < s.len(),
        names_distinct(s),
    ensures
        entry_position(s, s[i].0) == Some(i),
{
    lemma_position_found(s, s[i].0);
    match entry_position(s, s[i].0) {
        Some(k) => {
            if k != i {
                assert(s[k].0 == s[i].0);
            }
        },
        None => {},
    }
}

/// No two resolutions are for the same name.
pub open spec fn names_distinct(s: Seq<EntryView>) -> bool {
    forall|i: int, j: int| 0 <= i < j < s.len() ==> (#[trigger] s[i]).0 != (#[trigger] s[j]).0
}

/// The resolutions after storing `e`: it replaces the one for its name, or
/// comes after the others.
pub open spec fn cache_insert(s: Seq<EntryView>, e: EntryView) -> Seq<EntryView> {
    match entry_position(s, e.0) {
        Some(i) => s.update(i, e),
        None => s.push(e),
    }
}

/// A caching resolver with pinned hosts and DNS rebinding protection.
#[derive(Debug, Clone)]
pub struct DnsResolver {
    cache: Vec<DnsEntry>,
    pinned_hosts: Vec<PinnedHost>,
    default_ttl: u64,
    rebinding_protection: bool,
}

/// The resolver's answer to `resolve(h)` at time `now`: an invalid name is
/// refused; a pinned name gets its pinned addresses, made now; a cached,
/// unexpired resolution is given back; otherwise a lookup is needed.
pub open spec fn spec_resolve(
    cache: Seq<EntryView>,
    pins: Seq<(Seq<char>, Seq<IpAddress>)>,
    ttl: u64,
    h: Seq<char>,
    now: u64,
) -> Answer {
    if !spec_valid_hostname(h) {
        Answer::Invalid(h)
    } else {
        match pinned(pins, h) {
            Some(ips) => Answer::Entry((h, ips, now, ttl)),
            None => match cached(cache, h) {
                Some(e) => if expired(e, now) {
                    Answer::Lookup
                } else {
                    Answer::Entry(e)
                },
                None => Answer::Lookup,
            },
        }
    }
}

impl DnsResolver {
    /// The cached resolutions.
    pub closed spec fn entries(&self) -> Seq<EntryView> {
        self.cache@.map_values(|e: DnsEntry| entry_view(e))
    }

    /// The pinned hosts and their addresses.
    pub closed spec fn pins(&self) -> Seq<(Seq<char>, Seq<IpAddress>)> {
        self.pinned_hosts@.map_values(|p: PinnedHost| (p.hostname@, p.ip_addresses@))
    }

    /// The time to live given to new resolutions.
    pub closed spec fn ttl(&self) -> u64 {
        self.default_ttl
    }

    /// Whether rebinding protection is on.
    pub closed spec fn protection(&self) -> bool {
        self.rebinding_protection
    }

    /// Each name is cached at most once and pinned at most once.
    pub closed spec fn wf(&self) -> bool {
        &&& names_distinct(self.entries())
        &&& names_distinct(pin_keys(self.pins()))
    }

    /// A resolver with nothing cached or pinned, a time to live of five
    /// minutes and rebinding protection on.
    pub fn new() -> (res: Self)
        ensures
            res.wf(),
            res.entries() == Seq::<EntryView>::empty(),
            res.pins() == Seq::<(Seq<char>, Seq<IpAddress>)>::empty(),
            res.ttl() == 300_000,
            res.protection(),
    {
        Self::with_ttl(300_000)
    }

    /// A resolver with nothing cached or pinned, the given time to live (in
    /// milliseconds) and rebinding protection on.
    pub fn with_ttl(ttl: u64) -> (res: Self)
        ensures
            res.wf(),
            res.entries() == Seq::<EntryView>::empty(),
            res.pins() == Seq::<(Seq<char>, Seq<IpAddress>)>::empty(),
            res.ttl() == ttl,
            res.protection(),
    {
        let res = DnsResolver {
            cache: Vec::new(),
            pinned_hosts: Vec::new(),
            default_ttl: ttl,
            rebinding_protection: true,
        };
        assert(res.entries() =~= Seq::<EntryView>::empty());
        assert(res.pins() =~= Seq::<(Seq<char>, Seq<IpAddress>)>::empty());
        res
    }

    /// Turn rebinding protection on or off.
    pub fn set_rebinding_protection(&mut self, enabled: bool)
        ensures
            final(self).wf() == old(self).wf(),
            final(self).protection() == enabled,
            final(self).entries() == old(self).entries(),
            final(self).pins() == old(self).pins(),
            final(self).ttl() == old(self).ttl(),
    {
        self.rebinding_protection = enabled;
    }

    /// The position of the cached resolution for `hostname`.
    fn find_cached(&self, hostname: &str) -> (res: Option<usize>)
        ensures
            match res {
                Some(i) => i < self.cache@.len() && entry_position(self.entries(), hostname@) == Some(
                    i as int,
                ),
                None => entry_position(self.entries(), hostname@) is None,
            },
    {
        let ghost s = self.entries();
        let mut i: usize = 0;
        while i < self.cache.len()
            invariant
                i <= s.len(),
                s == self.entries(),
                s.len() == self.cache@.len(),
                entry_position(s.take(i as int), hostname@) is None,
            decreases s.len() - i,
        {
            assert(s.take(i as int + 1).drop_last() =~= s.take(i as int));
            if str_eq(self.cache[i].hostname.as_str(), hostname) {
                assert(s[i as int].0 == hostname@);
                assert(entry_position(s.take(i as int + 1), hostname@) == Some(i as int));
                proof {
                    lemma_position_prefix(s, hostname@, i as int + 1);
                }
                return Some(i);
            }
            i += 1;
        }
        assert(s.take(i as int) =~= s);
        None
    }

    /// The position of the pinned host `hostname`.
    fn find_pinned(&self, hostname: &str) -> (res: Option<usize>)
        ensures
            match res {
                Some(i) => i < self.pinned_hosts@.len() && entry_position(pin_keys(self.pins()), hostname@)
                    == Some(i as int),
                None => entry_position(pin_keys(self.pins()), hostname@) is None,
            },
    {
        let ghost p = self.pins();
        let ghost s = pin_keys(p);
        let mut i: usize = 0;
        while i < self.pinned_hosts.len()
            invariant
                i <= s.len(),
                p == self.pins(),
                s == pin_keys(p),
                p.len() == self.pinned_hosts@.len(),
                entry_position(s.take(i as int), hostname@) is None,
            decreases s.len() - i,
        {
            assert(s.take(i as int + 1).drop_last() =~= s.take(i as int));
            if str_eq(self.pinned_hosts[i].hostname.as_str(), hostname) {
                assert(s[i as int].0 == hostname@);
                assert(entry_position(s.take(i as int + 1), hostname@) == Some(i as int));
                proof {
                    lemma_position_prefix(s, hostname@, i as int + 1);
                }
                return Some(i);
            }
            i += 1;
        }
        assert(s.take(i as int) =~= s);
        None
    }

    /// Pin `hostname` to `ip_addresses`, replacing an earlier pin.
    pub fn pin_host(&mut self, hostname: &str, ip_addresses: Vec<IpAddress>)
        requires
            old(self).wf(),
        ensures
            final(self).wf(),
            forall|h: Seq<char>|
                #[trigger] pinned(final(self).pins(), h) == if h == hostname@ {
                    Some(ip_addresses@)
                } else {
                    pinned(old(self).pins(), h)
                },
            final(self).entries() == old(self).entries(),
            final(self).ttl() == old(self).ttl(),
            final(self).protection() == old(self).protection(),
    {
        let ghost before = self.pins();
        let entry = PinnedHost { hostname: owned(hostname), ip_addresses };
        match self.find_pinned(hostname) {
            Some(i) => {
                proof {
                    lemma_position_found(pin_keys(before), hostname@);
                }
                self.pinned_hosts.set(i, entry);
                proof {
                    let after = self.pins();
                    assert(after =~= before.update(i as int, (hostname@, ip_addresses@)));
                    lemma_pins_update(before, i as int, ip_addresses@);
                }
            },
            None => {
                self.pinned_hosts.push(entry);
                proof {
                    let after = self.pins();
                    assert(after =~= before.push((hostname@, ip_addresses@)));
                    lemma_pins_push(before, hostname@, ip_addresses@);
                }
            },
        }
    }

    /// Whether `hostname` is pinned.
    pub fn is_pinned(&self, hostname: &str) -> (res: bool)
        ensures
            res == pinned(self.pins(), hostname@) is Some,
    {
        self.find_pinned(hostname).is_some()
    }

    /// Remove the pin of `hostname`, if any.
    pub fn unpin_host(&mut self, hostname: &str)
        requires
            old(self).wf(),
        ensures
            final(self).wf(),
            forall|h: Seq<char>|
                #[trigger] pinned(final(self).pins(), h) == if h == hostname@ {
                    None
                } else {
                    pinned(old(self).pins(), h)
                },
            final(self).entries() == old(self).entries(),
            final(self).ttl() == old(self).ttl(),
            final(self).protection() == old(self).protection(),
    {
        let ghost before = self.pins();
        match self.find_pinned(hostname) {
            Some(i) => {
                proof {
                    lemma_position_found(pin_keys(before), hostname@);
                }
                self.pinned_hosts.remove(i);
                proof {
                    assert(self.pins() =~= before.remove(i as int));
                    lemma_pins_remove(before, i as int);
                }
            },
            None => {
                proof {
                    lemma_position_found(pin_keys(before), hostname@);
                }
            },
        }
    }

    /// Forget every cached resolution and every pin.
    pub fn clear_cache(&mut self)
        ensures
            final(self).wf(),
            final(self).entries() == Seq::<EntryView>::empty(),
            final(self).pins() == Seq::<(Seq<char>, Seq<IpAddress>)>::empty(),
            final(self).ttl() == old(self).ttl(),
            final(self).protection() == old(self).protection(),
    {
        self.cache.clear();
        self.pinned_hosts.clear();
        assert(self.entries() =~= Seq::<EntryView>::empty());
        assert(self.pins() =~= Seq::<(Seq<char>, Seq<IpAddress>)>::empty());
    }

    /// The number of cached resolutions and how many of them have expired
    /// at `now`.
    pub fn cache_stats(&self, now: u64) -> (res: (usize, usize))
        ensures
            res.0 == self.entries().len(),
            res.1 == expired_count(self.entries(), now),
    {
        let ghost s = self.entries();
        let mut expired_n: usize = 0;
        let mut i: usize = 0;
        while i < self.cache.len()
            invariant
                i <= s.len(),
                s == self.entries(),
                s.len() == self.cache@.len(),
                expired_n == expired_count(s.take(i as int), now),
                expired_n <= i,
            decreases s.len() - i,
        {
            assert(s.take(i as int + 1).drop_last() =~= s.take(i as int));
            if self.cache[i].is_expired(now) {
                expired_n += 1;
            }
            i += 1;
        }
        assert(s.take(i as int) =~= s);
        (self.cache.len(), expired_n)
    }

    /// Answer `resolve(hostname)` at time `now`, or say that a system lookup
    /// is needed (see `spec_resolve`).
    pub fn resolve(&self, hostname: &str, now: u64) -> (res: ResolveStep)
        ensures
            answer_of(res) == Some(spec_resolve(self.entries(), self.pins(), self.ttl(), hostname@, now)),
    {
        if !validate_hostname(hostname) {
            return ResolveStep::Done(Err(DnsError::InvalidHostname { hostname: owned(hostname) }));
        }
        if let Some(i) = self.find_pinned(hostname) {
            return ResolveStep::Done(Ok(self.pinned_entry(i, hostname, now)));
        }
        match self.find_cached(hostname) {
            Some(i) => {
                if self.cache[i].is_expired(now) {
                    ResolveStep::Lookup
                } else {
                    ResolveStep::Done(Ok(copy_entry(&self.cache[i])))
                }
            },
            None => ResolveStep::Lookup,
        }
    }

    /// Answer `resolve_fresh(hostname)` at time `now`: like `resolve`, but a
    /// name that is valid and not pinned always needs a lookup.
    pub fn resolve_fresh(&self, hostname: &str, now: u64) -> (res: ResolveStep)
        ensures
            answer_of(res) == Some(
                if !spec_valid_hostname(hostname@) {
                    Answer::Invalid(hostname@)
                } else {
                    match pinned(self.pins(), hostname@) {
                        Some(ips) => Answer::Entry((hostname@, ips, now, self.ttl())),
                        None => Answer::Lookup,
                    }
                },
            ),
    {
        if !validate_hostname(hostname) {
            return ResolveStep::Done(Err(DnsError::InvalidHostname { hostname: owned(hostname) }));
        }
        if let Some(i) = self.find_pinned(hostname) {
            return ResolveStep::Done(Ok(self.pinned_entry(i, hostname, now)));
        }
        ResolveStep::Lookup
    }

    /// The resolution a pinned host gets at `now`.
    fn pinned_entry(&self, i: usize, hostname: &str, now: u64) -> (res: DnsEntry)
        requires
            i < self.pins().len(),
        ensures
            entry_view(res) == (hostname@, self.pins()[i as int].1, now, self.ttl()),
    {
        DnsEntry {
            hostname: owned(hostname),
            ip_addresses: slice_to_vec(self.pinned_hosts[i].ip_addresses.as_slice()),
            resolved_at: now,
            ttl: self.default_ttl,
        }
    }

    /// Take the result of the system lookup for `hostname`, made at `now`
    /// (its addresses, or its error message). Repeated addresses are
    /// dropped; no address, or with protection on a name that is not local
    /// resolving to a private or loopback address, is an error and caches
    /// nothing. Otherwise the resolution is cached, replacing any earlier
    /// one for the name, and returned.
    pub fn finish_lookup(
        &mut self,
        hostname: &str,
        lookup: Result<Vec<IpAddress>, String>,
        now: u64,
    ) -> (res: Result<DnsEntry, DnsError>)
        requires
            old(self).wf(),
        ensures
            final(self).wf(),
            final(self).pins() == old(self).pins(),
            final(self).ttl() == old(self).ttl(),
            final(self).protection() == old(self).protection(),
            match lookup {
                Err(m) => res matches Err(DnsError::ResolutionFailed { hostname: h, message })
                    && h@ == hostname@ && message@ == m@ && final(self).entries() == old(self).entries(),
                Ok(addrs) => {
                    let ips = dedup(addrs@);
                    if ips.len() == 0 {
                        &&& res matches Err(DnsError::ResolutionFailed { hostname: h, message })
                        &&& h@ == hostname@
                        &&& message@ == "No IP addresses found"@
                        &&& final(self).entries() == old(self).entries()
                    } else {
                        match spec_rebinding_violation(old(self).protection(), hostname@, ips) {
                            Some(k) => {
                                &&& res matches Err(
                                    DnsError::RebindingDetected { hostname: h, attempted_ip },
                                )
                                &&& h@ == hostname@
                                &&& attempted_ip == ips[k]
                                &&& final(self).entries() == old(self).entries()
                            },
                            None => {
                                &&& res matches Ok(e)
                                &&& entry_view(e) == (hostname@, ips, now, old(self).ttl())
                                &&& final(self).entries() == cache_insert(
                                    old(self).entries(),
                                    entry_view(e),
                                )
                            },
                        }
                    }
                },
            },
    {
        let addrs = match lookup {
            Ok(a) => a,
            Err(m) => {
                return Err(DnsError::ResolutionFailed { hostname: owned(hostname), message: m });
            },
        };
        let ip_addresses = dedup_addresses(addrs.as_slice());
        if ip_addresses.len() == 0 {
            return Err(
                DnsError::ResolutionFailed {
                    hostname: owned(hostname),
                    message: owned("No IP addresses found"),
                },
            );
        }
        if let Some(k) = rebinding_violation(self.rebinding_protection, hostname, ip_addresses.as_slice()) {
            return Err(
                DnsError::RebindingDetected { hostname: owned(hostname), attempted_ip: ip_addresses[k] },
            );
        }
        let entry = DnsEntry {
            hostname: owned(hostname),
            ip_addresses,
            resolved_at: now,
            ttl: self.default_ttl,
        };
        let stored = copy_entry(&entry);
        let ghost before = self.entries();
        match self.find_cached(hostname) {
            Some(i) => {
                self.cache.set(i, stored);
                proof {
                    assert(self.entries() =~= before.update(i as int, entry_view(entry)));
                    lemma_position_found(before, hostname@);
                    assert forall|a: int, b: int| 0 <= a < b < self.entries().len() implies (
                    #[trigger] self.entries()[a]).0 != (#[trigger] self.entries()[b]).0 by {
                        if a != i && b != i {
                            assert(before[a].0 != before[b].0);
                        } else if a == i {
                            assert(before[b].0 != before[a].0);
                        } else {
                            assert(before[a].0 != before[b].0);
                        }
                    }
                }
            },
            None => {
                self.cache.push(stored);
                proof {
                    assert(self.entries() =~= before.push(entry_view(entry)));
                    lemma_position_found(before, hostname@);
                }
            },
        }
        Ok(entry)
    }
}

/// Storing a resolution makes it the one cached for its name.
proof fn lemma_cache_insert_found(s: Seq<EntryView>, e: EntryView)
    ensures
        cached(cache_insert(s, e), e.0) == Some(e),
{
    lemma_position_found(s, e.0);
    let t = cache_insert(s, e);
    match entry_position(s, e.0) {
        Some(i) => {
            lemma_position_found(t, e.0);
            match entry_position(t, e.0) {
                Some(k) => {
                    if k < i {
                        assert(t[k] == s[k]);
                    } else if i < k {
                        assert(t[i].0 == e.0);
                    }
                },
                None => {
                    assert(t[i].0 == e.0);
                },
            }
        },
        None => {
            assert(t.drop_last() =~= s);
        },
    }
}

/// Law: a successful lookup is what the resolver answers for that name
/// afterwards, until it expires, when the name is valid and not pinned.
pub proof fn lemma_lookup_then_resolve(
    cache: Seq<EntryView>,
    pins: Seq<(Seq<char>, Seq<IpAddress>)>,
    ttl: u64,
    e: EntryView,
    now: u64,
)
    requires
        spec_valid_hostname(e.0),
        pinned(pins, e.0) is None,
        !expired(e, now),
    ensures
        spec_resolve(cache_insert(cache, e), pins, ttl, e.0, now) == Answer::Entry(e),
{
    lemma_cache_insert_found(cache, e);
}

/// Law: a pinned name is answered with its pinned addresses, made now,
/// whatever is cached for it.
pub proof fn lemma_pin_wins(
    cache: Seq<EntryView>,
    pins: Seq<(Seq<char>, Seq<IpAddress>)>,
    ttl: u64,
    h: Seq<char>,
    ips: Seq<IpAddress>,
    now: u64,
)
    requires
        spec_valid_hostname(h),
        pinned(pins, h) == Some(ips),
    ensures
        spec_resolve(cache, pins, ttl, h, now) == Answer::Entry((h, ips, now, ttl)),
{
}

/// Replacing the addresses of a pinned name.
proof fn lemma_pins_update(p: Seq<(Seq<char>, Seq<IpAddress>)>, i: int, ips: Seq<IpAddress>)
    requires
        0 <= i < p.len(),
        names_distinct(pin_keys(p)),
    ensures
        names_distinct(
            pin_keys(p.update(i, (p[i].0, ips))),
        ),
        forall|h: Seq<char>|
            #[trigger] pinned(p.update(i, (p[i].0, ips)), h) == if h == p[i].0 {
                Some(ips)
            } else {
                pinned(p, h)
            },
{
    let q = p.update(i, (p[i].0, ips));
    let s = pin_keys(p);
    let t = pin_keys(q);
    assert forall|a: int| 0 <= a < t.len() implies #[trigger] t[a].0 == s[a].0 by {}
    assert forall|h: Seq<char>| #[trigger] pinned(q, h) == if h == p[i].0 {
        Some(ips)
    } else {
        pinned(p, h)
    } by {
        lemma_position_found(s, h);
        lemma_position_found(t, h);
        match (entry_position(s, h), entry_position(t, h)) {
            (Some(a), Some(b)) => {
                if a < b {
                    assert(t[a].0 == h);
                } else if b < a {
                    assert(s[b].0 == h);
                }
            },
            (Some(a), None) => {
                assert(t[a].0 == h);
            },
            (None, Some(b)) => {
                assert(s[b].0 == h);
            },
            (None, None) => {},
        }
        if h == p[i].0 {
            lemma_position_at(s, i);
        }
    }
}

/// Pinning a new name after the others.
proof fn lemma_pins_push(p: Seq<(Seq<char>, Seq<IpAddress>)>, h0: Seq<char>, ips: Seq<IpAddress>)
    requires
        names_distinct(pin_keys(p)),
        pinned(p, h0) is None,
    ensures
        names_distinct(
            pin_keys(p.push((h0, ips))),
        ),
        forall|h: Seq<char>|
            #[trigger] pinned(p.push((h0, ips)), h) == if h == h0 {
                Some(ips)
            } else {
                pinned(p, h)
            },
{
    let q = p.push((h0, ips));
    let s = pin_keys(p);
    let t = pin_keys(q);
    assert(t.drop_last() =~= s);
    lemma_position_found(s, h0);
    assert forall|a: int, b: int| 0 <= a < b < t.len() implies (#[trigger] t[a]).0 != (
    #[trigger] t[b]).0 by {
        if b == t.len() - 1 {
            assert(t[a] == s[a]);
        } else {
            assert(t[a] == s[a]);
            assert(t[b] == s[b]);
        }
    }
    assert forall|h: Seq<char>| #[trigger] pinned(q, h) == if h == h0 {
        Some(ips)
    } else {
        pinned(p, h)
    } by {
        assert(t.drop_last() =~= s);
        lemma_position_found(s, h);
        match entry_position(s, h) {
            Some(a) => {
                assert(t[a] == s[a]);
                assert(q[a] == p[a]);
            },
            None => {},
        }
    }
}

/// Removing a pinned name.
proof fn lemma_pins_remove(p: Seq<(Seq<char>, Seq<IpAddress>)>, i: int)
    requires
        0 <= i < p.len(),
        names_distinct(pin_keys(p)),
    ensures
        names_distinct(
            pin_keys(p.remove(i)),
        ),
        forall|h: Seq<char>|
            #[trigger] pinned(p.remove(i), h) == if h == p[i].0 {
                None
            } else {
                pinned(p, h)
            },
{
    let q = p.remove(i);
    let s = pin_keys(p);
    let t = pin_keys(q);
    assert forall|a: int| 0 <= a < t.len() implies #[trigger] t[a] == s[if a < i {
        a
    } else {
        a + 1
    }] by {}
    assert forall|a: int, b: int| 0 <= a < b < t.len() implies (#[trigger] t[a]).0 != (
    #[trigger] t[b]).0 by {
        let a2 = if a < i { a } else { a + 1 };
        let b2 = if b < i { b } else { b + 1 };
        assert(t[a] == s[a2]);
        assert(t[b] == s[b2]);
    }
    assert forall|h: Seq<char>| #[trigger] pinned(q, h) == if h == p[i].0 {
        None
    } else {
        pinned(p, h)
    } by {
        lemma_position_found(s, h);
        lemma_position_found(t, h);
        match entry_position(t, h) {
            Some(b) => {
                let b2 = if b < i { b } else { b + 1 };
                assert(t[b] == s[b2]);
                if h == p[i].0 {
                    assert(s[i].0 == s[b2].0);
                }
                match entry_position(s, h) {
                    Some(a) => {
                        if a < b2 {
                            let a1 = if a < i { a } else { a - 1 };
                            if a != i {
                                assert(t[a1] == s[a]);
                            }
                        } else if b2 < a {
                            assert(s[b2].0 == h);
                        }
                    },
                    None => {},
                }
            },
            None => {
                match entry_position(s, h) {
                    Some(a) => {
                        if a != i {
                            let a1 = if a < i { a } else { a - 1 };
                            assert(t[a1] == s[a]);
                        }
                    },
                    None => {},
                }
            },
        }
    }
}

} // verus!
