//! Access control for the RPC compute port: IPv4 allowlists (addresses and
//! CIDR ranges), shared-secret admission with expiry, and the combined
//! per-connection decision.

use vstd::prelude::*;
use vstd::string::{StrSliceExecFns, StringSliceAdditionalSpecFns};
use vstd::slice::slice_to_vec;
use crate::crypto::{hmac_sha256, hmac_sha256_of};
use crate::text::{trim, trimmed};
use crate::number::{all_digits, decimal_value, parse_u32, parse_u32_spec};

verus! {

/// How long a successful handshake admits a source address, in ms.
pub const RPC_ADMISSION_TTL_MS: u64 = 30_000;

/// Offset from the advertised RPC port to the authentication port.
pub const RPC_AUTH_PORT_OFFSET: u16 = 2000;

/// Offset from the advertised RPC port to the loopback-only server port.
pub const RPC_INTERNAL_PORT_OFFSET: u16 = 1000;

/// Nonce length of the authentication handshake.
pub const RPC_NONCE_LEN: usize = 16;

/// MAC length of the authentication handshake (HMAC-SHA256 output).
pub const RPC_MAC_LEN: usize = 32;

/// Source address of a connection.
#[derive(Clone, Copy, Debug, PartialEq, Eq, Structural)]
pub enum IpAddress {
    /// IPv4 address as a big-endian 32-bit number (`a.b.c.d` is
    /// `a << 24 | b << 16 | c << 8 | d`).
    V4(u32),
    /// IPv6 address as a 128-bit number.
    V6(u128),
}

/// `HMAC-SHA256(secret, nonce)` for the authentication handshake.
pub fn compute_hmac(secret: &str, nonce: &[u8]) -> (mac: Vec<u8>)
    ensures
        mac@ == hmac_sha256_of(secret.spec_bytes(), nonce@)@,
        mac@.len() == RPC_MAC_LEN,
{
    let tag = hmac_sha256(secret.as_bytes(), nonce);
    slice_to_vec(tag.as_slice())
}

/// An admission granted to expire at `expiry` is still valid at `now`.
pub fn admission_is_valid(expiry: u64, now: u64) -> (b: bool)
    ensures
        b == (now < expiry),
{
    now < expiry
}

/// Gate for one inbound proxied connection: the address must pass the
/// allowlist, and, when admission is required, must hold an admission.
pub fn connection_allowed(ip_ok: bool, require_admission: bool, admitted: bool) -> (b: bool)
    ensures
        b == (ip_ok && (!require_admission || admitted)),
{
    ip_ok && (!require_admission || admitted)
}

/// Whether a handshake response proves the secret: it equals
/// `HMAC-SHA256(secret, nonce)`.
pub fn handshake_matches(secret: &str, nonce: &[u8], response: &[u8]) -> (b: bool)
    ensures
        b == (response@ == hmac_sha256_of(secret.spec_bytes(), nonce@)@),
{
    let expected = compute_hmac(secret, nonce);
    if expected.len() != response.len() {
        return false;
    }
    let mut i: usize = 0;
    while i < expected.len()
        invariant
            expected@ == hmac_sha256_of(secret.spec_bytes(), nonce@)@,
            expected@.len() == response@.len(),
            i <= expected@.len(),
            forall|j: int| 0 <= j < i ==> expected@[j] == response@[j],
        decreases expected@.len() - i,
    {
        if expected[i] != response[i] {
            proof {
                assert(expected@[i as int] != response@[i as int]);
                assert(expected@ != response@);
            }
            return false;
        }
        i += 1;
    }
    proof {
        assert(expected@ =~= response@);
    }
    true
}

/// The port of a node's RPC auth-handshake listener: its RPC port plus
/// the auth offset, saturating at the largest port.
pub open spec fn auth_port_for(rpc_port: u16) -> u16 {
    if rpc_port + RPC_AUTH_PORT_OFFSET > u16::MAX { u16::MAX } else { (rpc_port + RPC_AUTH_PORT_OFFSET) as u16 }
}

/// The port of a node's RPC auth-handshake listener.
pub fn auth_port(rpc_port: u16) -> (p: u16)
    ensures
        p == auth_port_for(rpc_port),
{
    rpc_port.saturating_add(RPC_AUTH_PORT_OFFSET)
}

/// Where a contributing node runs its RPC server.
#[derive(Clone, Debug)]
pub struct ContributorPlan {
    /// Whether an allowlist proxy fronts the server on the advertised
    /// address.
    pub use_proxy: bool,
    /// Host the server binds.
    pub spawn_host: String,
    /// Port the server binds.
    pub spawn_port: u16,
}

/// Plan the RPC server of a contributing node: with neither an allowlist
/// nor a shared secret it binds the advertised `bind_host:port` itself;
/// otherwise it binds loopback at `port` plus the internal offset
/// (saturating), behind a proxy on the advertised address.
pub fn contributor_plan(bind_host: &str, port: u16, allowed_peers: &[String], shared_secret: &str) -> (p: ContributorPlan)
    ensures
        p.use_proxy == (allowed_peers@.len() > 0 || shared_secret@.len() > 0),
        !p.use_proxy ==> p.spawn_host@ == bind_host@ && p.spawn_port == port,
        p.use_proxy ==> p.spawn_host@ == "127.0.0.1"@ && p.spawn_port == (if port + RPC_INTERNAL_PORT_OFFSET
            > u16::MAX { u16::MAX as int } else { port + RPC_INTERNAL_PORT_OFFSET }),
{
    let use_proxy = allowed_peers.len() > 0 || !shared_secret.is_empty();
    if use_proxy {
        ContributorPlan { use_proxy, spawn_host: "127.0.0.1".to_owned(), spawn_port: port.saturating_add(RPC_INTERNAL_PORT_OFFSET) }
    } else {
        ContributorPlan { use_proxy, spawn_host: bind_host.to_owned(), spawn_port: port }
    }
}

// ---------------------------------------------------------------------
// Admission registry
// ---------------------------------------------------------------------

/// The grants still live at `now`: those whose expiry is later than `now`.
pub open spec fn live_grants(m: Map<IpAddress, u64>, now: u64) -> Map<IpAddress, u64> {
    Map::new(|k: IpAddress| m.contains_key(k) && now < m[k], |k: IpAddress| m[k])
}

/// The map an association list of grants stands for (later entries win,
/// though each source appears once in a well-formed registry).
pub open spec fn grants_map(s: Seq<(IpAddress, u64)>) -> Map<IpAddress, u64>
    decreases s.len(),
{
    if s.len() == 0 {
        Map::empty()
    } else {
        grants_map(s.drop_last()).insert(s.last().0, s.last().1)
    }
}

/// Each source appears at most once.
pub open spec fn unique_sources(s: Seq<(IpAddress, u64)>) -> bool {
    forall|i: int, j: int| 0 <= i < j < s.len() ==> #[trigger] s[i].0 != #[trigger] s[j].0
}

/// A grant is live at `now` while `now` is before its expiry.
pub open spec fn is_live(now: u64) -> spec_fn((IpAddress, u64)) -> bool {
    |e: (IpAddress, u64)| now < e.1
}

proof fn lemma_grants_map_absent(s: Seq<(IpAddress, u64)>, k: IpAddress)
    requires
        forall|i: int| 0 <= i < s.len() ==> #[trigger] s[i].0 != k,
    ensures
        !grants_map(s).contains_key(k),
    decreases s.len(),
{
    if s.len() > 0 {
        lemma_grants_map_absent(s.drop_last(), k);
    }
}

proof fn lemma_grants_map_present(s: Seq<(IpAddress, u64)>, i: int)
    requires
        0 <= i < s.len(),
    ensures
        grants_map(s).contains_key(s[i].0),
    decreases s.len(),
{
    if i < s.len() - 1 {
        lemma_grants_map_present(s.drop_last(), i);
    }
}

proof fn lemma_grants_map_update(s: Seq<(IpAddress, u64)>, i: int, v: u64)
    requires
        unique_sources(s),
        0 <= i < s.len(),
    ensures
        grants_map(s.update(i, (s[i].0, v))) == grants_map(s).insert(s[i].0, v),
    decreases s.len(),
{
    let k = s[i].0;
    let t = s.update(i, (k, v));
    if i == s.len() - 1 {
        assert(t.drop_last() =~= s.drop_last());
        assert(grants_map(t) =~= grants_map(s).insert(k, v));
    } else {
        assert(t.drop_last() =~= s.drop_last().update(i, (k, v)));
        lemma_grants_map_update(s.drop_last(), i, v);
        assert(s.last().0 != k);
        assert(grants_map(t) =~= grants_map(s).insert(k, v));
    }
}

proof fn lemma_filter_keys(s: Seq<(IpAddress, u64)>, now: u64)
    requires
        unique_sources(s),
    ensures
        unique_sources(s.filter(is_live(now))),
        grants_map(s.filter(is_live(now))) == live_grants(grants_map(s), now),
    decreases s.len(),
{
    reveal(Seq::filter);
    let f = s.filter(is_live(now));
    if s.len() == 0 {
        assert(f =~= Seq::<(IpAddress, u64)>::empty());
        assert(live_grants(grants_map(s), now) =~= Map::<IpAddress, u64>::empty());
    } else {
        let d = s.drop_last();
        let e = s.last();
        assert(unique_sources(d));
        lemma_filter_keys(d, now);
        let fd = d.filter(is_live(now));
        assert forall|i: int| 0 <= i < d.len() implies #[trigger] d[i].0 != e.0 by {
            assert(s[i].0 != s[s.len() - 1].0);
        }
        lemma_grants_map_absent(d, e.0);
        lemma_filter_avoids(d, now, e.0);
        if now < e.1 {
            assert(f == fd.push(e));
            assert(f.drop_last() =~= fd);
            assert forall|a: int, c: int| 0 <= a < c < f.len() implies #[trigger] f[a].0 != #[trigger] f[c].0 by {
                if c == f.len() - 1 {
                    assert(f[a] == fd[a]);
                }
            }
            assert(grants_map(f) =~= live_grants(grants_map(s), now));
        } else {
            assert(f == fd);
            assert(grants_map(f) =~= live_grants(grants_map(s), now));
        }
    }
}

proof fn lemma_filter_avoids(s: Seq<(IpAddress, u64)>, now: u64, k: IpAddress)
    requires
        forall|i: int| 0 <= i < s.len() ==> #[trigger] s[i].0 != k,
    ensures
        forall|j: int| 0 <= j < s.filter(is_live(now)).len() ==> #[trigger] s.filter(is_live(now))[j].0 != k,
    decreases s.len(),
{
    reveal(Seq::filter);
    if s.len() > 0 {
        let d = s.drop_last();
        assert forall|i: int| 0 <= i < d.len() implies #[trigger] d[i].0 != k by {
            assert(s[i].0 != k);
        }
        lemma_filter_avoids(d, now, k);
        assert(s[s.len() - 1].0 != k);
    }
}

/// Sources admitted by a successful handshake, each with the instant (ms)
/// at which its admission lapses.
pub struct AdmissionRegistry {
    grants: Vec<(IpAddress, u64)>,
}

impl View for AdmissionRegistry {
    type V = Map<IpAddress, u64>;

    closed spec fn view(&self) -> Map<IpAddress, u64> {
        grants_map(self.grants@)
    }
}

impl AdmissionRegistry {
    /// Each source appears once.
    pub closed spec fn wf(&self) -> bool {
        unique_sources(self.grants@)
    }

    /// An empty registry.
    pub fn new() -> (r: AdmissionRegistry)
        ensures
            r.wf(),
            r@ == Map::<IpAddress, u64>::empty(),
    {
        AdmissionRegistry { grants: Vec::new() }
    }

    /// Index of `ip`'s grant, if any.
    fn find(&self, ip: IpAddress) -> (r: Option<usize>)
        ensures
            r matches Some(i) ==> i < self.grants@.len() && self.grants@[i as int].0 == ip,
            r is None ==> forall|i: int| 0 <= i < self.grants@.len() ==> #[trigger] self.grants@[i].0 != ip,
    {
        let mut i: usize = 0;
        while i < self.grants.len()
            invariant
                i <= self.grants@.len(),
                forall|j: int| 0 <= j < i ==> #[trigger] self.grants@[j].0 != ip,
            decreases self.grants@.len() - i,
        {
            if self.grants[i].0 == ip {
                return Some(i);
            }
            i += 1;
        }
        None
    }

    /// Grant `ip` an admission for `RPC_ADMISSION_TTL_MS` from `now_ms`,
    /// replacing any earlier grant.
    pub fn grant(&mut self, ip: IpAddress, now_ms: u64)
        requires
            old(self).wf(),
            now_ms + RPC_ADMISSION_TTL_MS <= u64::MAX,
        ensures
            final(self).wf(),
            final(self)@ == old(self)@.insert(ip, (now_ms + RPC_ADMISSION_TTL_MS) as u64),
    {
        let expiry = now_ms + RPC_ADMISSION_TTL_MS;
        let ghost g = self.grants@;
        match self.find(ip) {
            Some(i) => {
                self.grants.set(i, (ip, expiry));
                proof {
                    lemma_grants_map_update(g, i as int, expiry);
                    assert(self.grants@ == g.update(i as int, (g[i as int].0, expiry)));
                    assert forall|a: int, c: int| 0 <= a < c < self.grants@.len() implies
                        #[trigger] self.grants@[a].0 != #[trigger] self.grants@[c].0 by {
                        assert(g[a].0 != g[c].0);
                    }
                }
            },
            None => {
                self.grants.push((ip, expiry));
                proof {
                    assert(self.grants@.drop_last() =~= g);
                    assert forall|a: int, c: int| 0 <= a < c < self.grants@.len() implies
                        #[trigger] self.grants@[a].0 != #[trigger] self.grants@[c].0 by {
                        if c == g.len() {
                            assert(g[a].0 != ip);
                        } else {
                            assert(g[a].0 != g[c].0);
                        }
                    }
                }
            },
        }
    }

    /// Whether `ip` holds an admission still live at `now_ms`. Lapsed grants
    /// are dropped first.
    pub fn is_admitted(&mut self, ip: IpAddress, now_ms: u64) -> (b: bool)
        requires
            old(self).wf(),
        ensures
            final(self).wf(),
            final(self)@ == live_grants(old(self)@, now_ms),
            b == live_grants(old(self)@, now_ms).contains_key(ip),
    {
        let ghost g = self.grants@;
        let mut kept: Vec<(IpAddress, u64)> = Vec::new();
        let mut i: usize = 0;
        while i < self.grants.len()
            invariant
                i <= g.len(),
                self.grants@ == g,
                kept@ == g.subrange(0, i as int).filter(is_live(now_ms)),
            decreases g.len() - i,
        {
            let entry = self.grants[i];
            proof {
                reveal(Seq::filter);
                assert(g.subrange(0, i + 1).drop_last() =~= g.subrange(0, i as int));
            }
            if admission_is_valid(entry.1, now_ms) {
                kept.push(entry);
            }
            i += 1;
        }
        proof {
            assert(g.subrange(0, g.len() as int) =~= g);
            lemma_filter_keys(g, now_ms);
        }
        self.grants = kept;
        match self.find(ip) {
            Some(j) => {
                proof {
                    lemma_grants_map_present(self.grants@, j as int);
                }
                true
            },
            None => {
                proof {
                    lemma_grants_map_absent(self.grants@, ip);
                }
                false
            },
        }
    }
}

/// An admission granted at `t_admit` holds at `t_check` exactly while
/// `t_check` is before the grant lapses, whatever else the registry held.
pub proof fn lemma_admission_lapses(m: Map<IpAddress, u64>, ip: IpAddress, t_admit: u64, t_check: u64)
    requires
        t_admit + RPC_ADMISSION_TTL_MS <= u64::MAX,
    ensures
        live_grants(m.insert(ip, (t_admit + RPC_ADMISSION_TTL_MS) as u64), t_check).contains_key(ip)
            <==> t_check < t_admit + RPC_ADMISSION_TTL_MS,
{
}

// ---------------------------------------------------------------------
// Number and address parsing
// ---------------------------------------------------------------------

/// Index of the first `'.'` at or after `i`, or the length when none.
pub open spec fn dot_from(s: Seq<char>, i: int) -> int
    decreases s.len() - i,
{
    if i < 0 || i >= s.len() {
        s.len() as int
    } else if s[i] == '.' {
        i
    } else {
        dot_from(s, i + 1)
    }
}

/// A dotted-quad octet as `Ipv4Addr::from_str` accepts it: one to three
/// digits, no leading zero unless it is the single digit `0`, value at most
/// 255.
pub open spec fn octet_value(s: Seq<char>) -> Option<nat> {
    if 1 <= s.len() <= 3 && all_digits(s) && (s.len() > 1 ==> s[0] != '0') && decimal_value(s) <= 255 {
        Some(decimal_value(s))
    } else {
        None
    }
}

/// How `Ipv4Addr::from_str` reads a string: four valid octets separated by
/// exactly three dots, as a big-endian number.
pub open spec fn parse_ipv4_spec(s: Seq<char>) -> Option<u32> {
    let d1 = dot_from(s, 0);
    let d2 = dot_from(s, d1 + 1);
    let d3 = dot_from(s, d2 + 1);
    if d1 < s.len() && d2 < s.len() && d3 < s.len() && dot_from(s, d3 + 1) == s.len() {
        match (
            octet_value(s.subrange(0, d1)),
            octet_value(s.subrange(d1 + 1, d2)),
            octet_value(s.subrange(d2 + 1, d3)),
            octet_value(s.subrange(d3 + 1, s.len() as int)),
        ) {
            (Some(a), Some(b), Some(c), Some(d)) => Some((a * 16777216 + b * 65536 + c * 256 + d) as u32),
            _ => None,
        }
    } else {
        None
    }
}

/// Find the first `'.'` at or after `i`.
fn find_dot(s: &str, n: usize, i: usize) -> (r: usize)
    requires
        n == s@.len(),
        i <= n,
    ensures
        r == dot_from(s@, i as int),
        i <= r <= n,
    decreases n - i,
{
    if i >= n {
        n
    } else if s.get_char(i) == '.' {
        i
    } else {
        find_dot(s, n, i + 1)
    }
}

/// Value of the octet `s[from..to]`, or `None`.
fn parse_octet(s: &str, n: usize, from: usize, to: usize) -> (r: Option<u32>)
    requires
        n == s@.len(),
        from <= to <= n,
    ensures
        r matches Some(v) ==> octet_value(s@.subrange(from as int, to as int)) == Some(v as nat),
        r is None ==> octet_value(s@.subrange(from as int, to as int)) is None,
{
    let ghost part = s@.subrange(from as int, to as int);
    if to == from || to - from > 3 {
        return None;
    }
    if to - from > 1 && s.get_char(from) == '0' {
        return None;
    }
    let mut v: u32 = 0;
    let mut i: usize = from;
    while i < to
        invariant
            from <= i <= to,
            to - from <= 3,
            to <= n,
            n == s@.len(),
            part == s@.subrange(from as int, to as int),
            all_digits(s@.subrange(from as int, i as int)),
            v == decimal_value(s@.subrange(from as int, i as int)),
            v < 1000,
            i - from <= 3,
            v < (if i == from { 1int } else if i == from + 1 { 10int } else if i == from + 2 { 100int } else { 1000int }),
        decreases to - i,
    {
        let c = s.get_char(i);
        if !('0' <= c && c <= '9') {
            proof {
                assert(part[i - from] == c);
            }
            return None;
        }
        proof {
            let p = s@.subrange(from as int, i + 1);
            assert(p.drop_last() =~= s@.subrange(from as int, i as int));
            assert(p.last() == c);
        }
        v = v * 10 + (c as u32 - 48);
        i += 1;
    }
    proof {
        assert(s@.subrange(from as int, to as int) =~= part);
    }
    if v > 255 {
        return None;
    }
    Some(v)
}

/// Parse a dotted-quad IPv4 address as `Ipv4Addr::from_str` does.
pub fn parse_ipv4(s: &str) -> (r: Option<u32>)
    ensures
        r == parse_ipv4_spec(s@),
{
    let n = s.unicode_len();
    let d1 = find_dot(s, n, 0);
    if d1 >= n {
        return None;
    }
    let d2 = find_dot(s, n, d1 + 1);
    if d2 >= n {
        return None;
    }
    let d3 = find_dot(s, n, d2 + 1);
    if d3 >= n {
        return None;
    }
    if find_dot(s, n, d3 + 1) != n {
        return None;
    }
    let a = match parse_octet(s, n, 0, d1) {
        Some(v) => v,
        None => {
            return None;
        },
    };
    let b = match parse_octet(s, n, d1 + 1, d2) {
        Some(v) => v,
        None => {
            return None;
        },
    };
    let c = match parse_octet(s, n, d2 + 1, d3) {
        Some(v) => v,
        None => {
            return None;
        },
    };
    let d = match parse_octet(s, n, d3 + 1, n) {
        Some(v) => v,
        None => {
            return None;
        },
    };
    Some(a * 16777216 + b * 65536 + c * 256 + d)
}

// ---------------------------------------------------------------------
// Allowlist matching
// ---------------------------------------------------------------------

/// Index of the first `'/'` in `s`, if any.
pub open spec fn first_slash(s: Seq<char>) -> Option<int> {
    if exists|i: int| 0 <= i < s.len() && s[i] == '/' {
        Some(choose|i: int| 0 <= i < s.len() && s[i] == '/' && forall|j: int| 0 <= j < i ==> s[j] != '/')
    } else {
        None
    }
}

/// Network mask of a CIDR prefix length (0 to 32).
pub open spec fn prefix_mask(prefix: u32) -> u32 {
    if prefix == 0 {
        0
    } else {
        u32::MAX << ((32 - prefix) as u32)
    }
}

/// Whether a trimmed allowlist entry `e` admits the IPv4 address `ip`: an
/// exact address equal to `ip`, or `network/prefix` with a prefix of at most
/// 32 whose masked network equals the masked address. Malformed entries
/// admit nothing.
pub open spec fn entry_admits(e: Seq<char>, ip: u32) -> bool {
    match first_slash(e) {
        None => parse_ipv4_spec(e) == Some(ip),
        Some(k) => match (parse_ipv4_spec(e.subrange(0, k)), parse_u32_spec(e.subrange(k + 1, e.len() as int))) {
            (Some(net), Some(prefix)) => prefix <= 32 && (net & prefix_mask(prefix)) == (ip & prefix_mask(prefix)),
            _ => false,
        },
    }
}

/// Index of the first `'/'`, or the length.
fn find_slash(s: &str) -> (r: Option<usize>)
    ensures
        r == (match first_slash(s@) {
            Some(k) => Some(k as usize),
            None => None::<usize>,
        }),
        r matches Some(k) ==> k < s@.len() && first_slash(s@) == Some(k as int),
{
    let n = s.unicode_len();
    let mut i: usize = 0;
    while i < n
        invariant
            i <= n,
            n == s@.len(),
            forall|j: int| 0 <= j < i ==> s@[j] != '/',
        decreases n - i,
    {
        if s.get_char(i) == '/' {
            proof {
                let w = choose|k: int| 0 <= k < s@.len() && s@[k] == '/' && forall|j: int| 0 <= j < k ==> s@[j] != '/';
                if w < i {
                    assert(s@[w] != '/');
                }
                if w > i {
                    assert(s@[i as int] != '/');
                }
                assert(w == i);
            }
            return Some(i);
        }
        i += 1;
    }
    None
}

fn mask_of(prefix: u32) -> (m: u32)
    requires
        prefix <= 32,
    ensures
        m == prefix_mask(prefix),
{
    if prefix == 0 {
        0
    } else {
        u32::MAX << (32 - prefix)
    }
}

/// Whether the CIDR entry `e`, split at its first `'/'` (index `k`), admits
/// `ip`.
fn cidr_admits(e: &str, k: usize, ip: u32) -> (b: bool)
    requires
        first_slash(e@) == Some(k as int),
        k < e@.len(),
    ensures
        b == entry_admits(e@, ip),
{
    let n = e.unicode_len();
    let network_str = e.substring_char(0, k);
    let prefix_str = e.substring_char(k + 1, n);
    let network = parse_ipv4(network_str);
    let prefix = parse_u32(prefix_str);
    match (network, prefix) {
        (Some(network), Some(prefix)) => {
            if prefix > 32 {
                return false;
            }
            let mask = mask_of(prefix);
            (network & mask) == (ip & mask)
        },
        _ => false,
    }
}

/// Whether one allowlist entry (surrounding white space ignored) admits
/// `ip`.
pub fn ipv4_entry_matches(entry: &str, ip: u32) -> (b: bool)
    ensures
        b == entry_admits(trimmed(entry@), ip),
{
    let e = trim(entry);
    match find_slash(e) {
        None => match parse_ipv4(e) {
            Some(addr) => addr == ip,
            None => false,
        },
        Some(k) => cidr_admits(e, k, ip),
    }
}

/// Whether `ip` may connect under `allowlist`: an empty allowlist admits
/// everyone; otherwise only IPv4 addresses admitted by some entry.
pub open spec fn ip_allowed_spec(ip: IpAddress, allowlist: Seq<String>) -> bool {
    allowlist.len() == 0 || match ip {
        IpAddress::V4(v4) => exists|i: int|
            0 <= i < allowlist.len() && entry_admits(trimmed(#[trigger] allowlist[i]@), v4),
        IpAddress::V6(_) => false,
    }
}

/// Check `ip` against the allowlist.
pub fn ip_allowed(ip: &IpAddress, allowlist: &[String]) -> (b: bool)
    ensures
        b == ip_allowed_spec(*ip, allowlist@),
{
    if allowlist.len() == 0 {
        return true;
    }
    let v4 = match ip {
        IpAddress::V4(v) => *v,
        IpAddress::V6(_) => {
            return false;
        },
    };
    let mut i: usize = 0;
    while i < allowlist.len()
        invariant
            i <= allowlist@.len(),
            *ip == IpAddress::V4(v4),
            forall|j: int| 0 <= j < i ==> !entry_admits(trimmed(#[trigger] allowlist@[j]@), v4),
        decreases allowlist@.len() - i,
    {
        if ipv4_entry_matches(allowlist[i].as_str(), v4) {
            proof {
                assert(entry_admits(trimmed(allowlist@[i as int]@), v4));
            }
            return true;
        }
        i += 1;
    }
    false
}

/// A `/32` range admits exactly its own address.
pub proof fn lemma_prefix_32_is_exact(net: u32, ip: u32)
    ensures
        ((net & prefix_mask(32)) == (ip & prefix_mask(32))) == (net == ip),
{
    assert(u32::MAX << 0u32 == u32::MAX) by (bit_vector);
    assert((net & u32::MAX) == net && (ip & u32::MAX) == ip) by (bit_vector);
}

/// A `/0` range admits every address.
pub proof fn lemma_prefix_0_admits_all(net: u32, ip: u32)
    ensures
        (net & prefix_mask(0)) == (ip & prefix_mask(0)),
{
    assert((net & 0u32) == 0u32 && (ip & 0u32) == 0u32) by (bit_vector);
}

/// An empty allowlist admits every source, IPv4 or IPv6.
pub proof fn lemma_empty_allowlist_admits_all(ip: IpAddress)
    ensures
        ip_allowed_spec(ip, Seq::<String>::empty()),
{
}

/// An IPv6 source is refused by any non-empty allowlist.
pub proof fn lemma_ipv6_refused(v6: u128, allowlist: Seq<String>)
    requires
        allowlist.len() > 0,
    ensures
        !ip_allowed_spec(IpAddress::V6(v6), allowlist),
{
}

} // verus!
