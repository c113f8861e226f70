use vstd::prelude::*;
use crate::parse::{parse_bounded, parse_max};
use crate::request::{first_index, find_char, lemma_first_index};
use crate::text::{push_str, push_dec};
use crate::webhook::{Notification, NotificationCategory, NotificationLevel};

verus! {

/// An IP address: IPv4 as its 32 bits, IPv6 as its 128 bits.
#[derive(Debug, Clone, Copy, PartialEq, Eq, Structural)]
pub enum IpAddress {
    V4(u32),
    V6(u128),
}

/// A transport endpoint.
#[derive(Debug, Clone, Copy, PartialEq, Eq, Structural)]
pub struct SocketAddress {
    pub ip: IpAddress,
    pub port: u16,
}

/// A resolved upstream peer and its weight.
#[derive(Debug, Clone, Copy, PartialEq, Eq, Structural)]
pub struct Backend {
    pub addr: SocketAddress,
    pub weight: usize,
}

/// A parsed upstream entry: host, port text, weight.
pub type Addr = (String, String, usize);

/// The ordering key of a backend: IPv4 before IPv6, then address, port and
/// weight.
pub open spec fn backend_key(b: Backend) -> (int, int, int, int) {
    match b.addr.ip {
        IpAddress::V4(v) => (0, v as int, b.addr.port as int, b.weight as int),
        IpAddress::V6(v) => (1, v as int, b.addr.port as int, b.weight as int),
    }
}

pub open spec fn key_lt(a: (int, int, int, int), b: (int, int, int, int)) -> bool {
    a.0 < b.0 || (a.0 == b.0 && (a.1 < b.1 || (a.1 == b.1 && (a.2 < b.2 || (a.2 == b.2 && a.3 < b.3)))))
}

pub open spec fn backend_lt(a: Backend, b: Backend) -> bool {
    key_lt(backend_key(a), backend_key(b))
}

/// Strictly increasing by address: ordered and without repeats.
pub open spec fn sorted_set(s: Seq<Backend>) -> bool {
    forall|i: int, j: int| 0 <= i < j < s.len() ==> backend_lt(#[trigger] s[i], #[trigger] s[j])
}

fn less(a: &Backend, b: &Backend) -> (r: bool)
    ensures
        r == backend_lt(*a, *b),
{
    let (ka, va): (u8, u128) = match a.addr.ip {
        IpAddress::V4(v) => (0, v as u128),
        IpAddress::V6(v) => (1, v),
    };
    let (kb, vb): (u8, u128) = match b.addr.ip {
        IpAddress::V4(v) => (0, v as u128),
        IpAddress::V6(v) => (1, v),
    };
    ka < kb || (ka == kb && (va < vb || (va == vb && (a.addr.port < b.addr.port || (a.addr.port
        == b.addr.port && a.weight < b.weight)))))
}

proof fn lemma_key_eq(a: Backend, b: Backend)
    requires
        !backend_lt(a, b),
        !backend_lt(b, a),
    ensures
        a == b,
{
    match (a.addr.ip, b.addr.ip) {
        (IpAddress::V4(x), IpAddress::V4(y)) => {},
        (IpAddress::V6(x), IpAddress::V6(y)) => {},
        _ => {},
    }
}

/// Adds `b` to an ordered backend set, keeping it ordered.
pub fn insert_backend(set: &mut Vec<Backend>, b: Backend)
    requires
        sorted_set(old(set)@),
    ensures
        sorted_set(final(set)@),
        forall|x: Backend| final(set)@.contains(x) <==> (old(set)@.contains(x) || x == b),
{
    let mut i: usize = 0;
    while i < set.len() && less(&set[i], &b)
        invariant
            i <= set@.len(),
            sorted_set(set@),
            set@ == old(set)@,
            forall|k: int| 0 <= k < i ==> backend_lt(#[trigger] set@[k], b),
        decreases set@.len() - i,
    {
        i = i + 1;
    }
    if i < set.len() && !less(&b, &set[i]) {
        proof {
            lemma_key_eq(set@[i as int], b);
        }
        return;
    }
    set.insert(i, b);
    proof {
        let s = set@;
        assert forall|p: int, q: int| 0 <= p < q < s.len() implies backend_lt(#[trigger] s[p], #[trigger] s[q]) by {
            if q < i {
                assert(s[p] == old(set)@[p] && s[q] == old(set)@[q]);
            } else if q == i {
                assert(s[p] == old(set)@[p]);
            } else if p == i {
                assert(s[q] == old(set)@[q - 1]);
                if q - 1 > i {
                    assert(backend_lt(old(set)@[i as int], old(set)@[q - 1]));
                }
            } else if p < i {
                assert(s[p] == old(set)@[p] && s[q] == old(set)@[q - 1]);
            } else {
                assert(s[p] == old(set)@[p - 1] && s[q] == old(set)@[q - 1]);
            }
        }
        assert forall|x: Backend| s.contains(x) <==> (old(set)@.contains(x) || x == b) by {
            if s.contains(x) {
                let k = choose|k: int| 0 <= k < s.len() && s[k] == x;
                if k < i {
                    assert(old(set)@[k] == x);
                } else if k > i {
                    assert(old(set)@[k - 1] == x);
                }
            }
            if old(set)@.contains(x) {
                let k = choose|k: int| 0 <= k < old(set)@.len() && old(set)@[k] == x;
                if k < i {
                    assert(s[k] == x);
                } else {
                    assert(s[k + 1] == x);
                }
            }
            if x == b {
                assert(s[i as int] == x);
            }
        }
    }
}

/// The parts of an upstream entry `host[:port][ weight]`.
pub open spec fn addr_spec(s: Seq<char>, tls: bool) -> (Seq<char>, Seq<char>, int) {
    let sp = first_index(s, ' ');
    let host_port = s.subrange(0, sp);
    let weight = if sp < s.len() {
        match parse_bounded(s.subrange(sp + 1, s.len() as int), usize::MAX as nat) {
            Some(w) => w as int,
            None => 1,
        }
    } else {
        1
    };
    let c = first_index(host_port, ':');
    if c < host_port.len() {
        (host_port.subrange(0, c), host_port.subrange(c + 1, host_port.len() as int), weight)
    } else {
        (host_port, if tls { "443"@ } else { "80"@ }, weight)
    }
}

/// Reads an upstream entry: a missing port is 443 with TLS, else 80; a
/// missing or unreadable weight is 1.
pub fn parse_addr(s: &str, tls: bool) -> (r: Addr)
    ensures
        r.0@ == addr_spec(s@, tls).0,
        r.1@ == addr_spec(s@, tls).1,
        r.2 as int == addr_spec(s@, tls).2,
{
    let n = s.unicode_len();
    let sp = find_char(s, ' ', 0);
    proof {
        lemma_first_index(s@, ' ', sp as int);
    }
    let host_port = s.substring_char(0, sp);
    let weight: usize = if sp < n {
        match parse_max(s.substring_char(sp + 1, n), usize::MAX as u64) {
            Some(w) => w as usize,
            None => 1,
        }
    } else {
        1
    };
    let hn = host_port.unicode_len();
    let c = find_char(host_port, ':', 0);
    proof {
        lemma_first_index(host_port@, ':', c as int);
    }
    if c < hn {
        (host_port.substring_char(0, c).to_string(), host_port.substring_char(c + 1, hn).to_string(), weight)
    } else {
        let port = if tls {
            String::from_str("443")
        } else {
            String::from_str("80")
        };
        (host_port.to_string(), port, weight)
    }
}

/// Reads each upstream entry.
pub fn format_addrs(addrs: &[String], tls: bool) -> (r: Vec<Addr>)
    ensures
        r@.len() == addrs@.len(),
        forall|i: int| 0 <= i < addrs@.len() ==> {
            &&& (#[trigger] r@[i]).0@ == addr_spec(addrs@[i]@, tls).0
            &&& r@[i].1@ == addr_spec(addrs@[i]@, tls).1
            &&& r@[i].2 as int == addr_spec(addrs@[i]@, tls).2
        },
{
    let mut r: Vec<Addr> = Vec::new();
    let mut i: usize = 0;
    while i < addrs.len()
        invariant
            i <= addrs@.len(),
            r@.len() == i,
            forall|k: int| 0 <= k < i ==> {
                &&& (#[trigger] r@[k]).0@ == addr_spec(addrs@[k]@, tls).0
                &&& r@[k].1@ == addr_spec(addrs@[k]@, tls).1
                &&& r@[k].2 as int == addr_spec(addrs@[k]@, tls).2
            },
        decreases addrs@.len() - i,
    {
        r.push(parse_addr(addrs[i].as_str(), tls));
        i = i + 1;
    }
    r
}

/// Errors of discovery.
#[derive(Debug)]
pub enum DiscoveryError {
    /// Fewer lookups than hosts.
    Invalid { message: String },
    /// An address with no usable port.
    Io { message: String },
    /// A lookup failed.
    Resolve { message: String },
}

pub open spec fn is_v4(ip: IpAddress) -> bool {
    ip is V4
}

pub open spec fn kept(ip: IpAddress, ipv4_only: bool) -> bool {
    !ipv4_only || is_v4(ip)
}

/// The port of an entry, when its port text is a port number.
pub open spec fn port_of(s: Seq<char>) -> Option<u16> {
    match parse_bounded(s, u16::MAX as nat) {
        Some(p) => Some(p as u16),
        None => None,
    }
}

/// The backends that one host's looked-up addresses give, in order.
pub open spec fn ip_backends(ips: Seq<IpAddress>, port: u16, weight: usize, ipv4_only: bool) -> Seq<Backend>
    decreases ips.len(),
{
    if ips.len() == 0 {
        Seq::empty()
    } else {
        let rest = ip_backends(ips.drop_last(), port, weight, ipv4_only);
        if kept(ips.last(), ipv4_only) {
            rest.push(Backend { addr: SocketAddress { ip: ips.last(), port }, weight })
        } else {
            rest
        }
    }
}

/// The backends of all hosts, each with the addresses looked up for it.
pub open spec fn hosts_backends(hosts: Seq<Addr>, lookups: Seq<Vec<IpAddress>>, ipv4_only: bool) -> Seq<Backend>
    decreases hosts.len(),
{
    if hosts.len() == 0 {
        Seq::empty()
    } else {
        let i = hosts.len() - 1;
        hosts_backends(hosts.drop_last(), lookups, ipv4_only) + ip_backends(
            lookups[i]@,
            port_of(hosts[i].1@)->Some_0,
            hosts[i].2,
            ipv4_only,
        )
    }
}

/// Whether an address of `ips` is kept.
pub open spec fn any_kept(ips: Seq<IpAddress>, ipv4_only: bool) -> bool {
    exists|k: int| 0 <= k < ips.len() && kept(#[trigger] ips[k], ipv4_only)
}

/// Whether a host with kept addresses has no port number.
pub open spec fn bad_port(hosts: Seq<Addr>, lookups: Seq<Vec<IpAddress>>, ipv4_only: bool) -> bool {
    exists|i: int| 0 <= i < hosts.len() && port_of(#[trigger] hosts[i].1@) is None && any_kept(lookups[i]@, ipv4_only)
}

proof fn lemma_push_contains(s: Seq<Backend>, x: Backend, y: Backend)
    ensures
        s.push(x).contains(y) <==> (s.contains(y) || y == x),
{
    if s.contains(y) {
        let k = choose|k: int| 0 <= k < s.len() && s[k] == y;
        assert(s.push(x)[k] == y);
    }
    if y == x {
        assert(s.push(x)[s.len() as int] == y);
    }
    if s.push(x).contains(y) {
        let k = choose|k: int| 0 <= k < s.len() + 1 && s.push(x)[k] == y;
        if k < s.len() {
            assert(s[k] == y);
        }
    }
}

proof fn lemma_concat_contains(a: Seq<Backend>, b: Seq<Backend>, y: Backend)
    ensures
        (a + b).contains(y) <==> (a.contains(y) || b.contains(y)),
{
    if a.contains(y) {
        let k = choose|k: int| 0 <= k < a.len() && a[k] == y;
        assert((a + b)[k] == y);
    }
    if b.contains(y) {
        let k = choose|k: int| 0 <= k < b.len() && b[k] == y;
        assert((a + b)[a.len() + k] == y);
    }
    if (a + b).contains(y) {
        let k = choose|k: int| 0 <= k < a.len() + b.len() && (a + b)[k] == y;
        if k < a.len() {
            assert(a[k] == y);
        } else {
            assert(b[k - a.len()] == y);
        }
    }
}

/// DNS discovery: hosts are looked up on every run.
pub struct Dns {
    pub ipv4_only: bool,
    pub hosts: Vec<Addr>,
}

impl Dns {
    pub fn new(addrs: &[String], tls: bool, ipv4_only: bool) -> (r: Result<Dns, DiscoveryError>)
        ensures
            r is Ok,
            r->Ok_0.ipv4_only == ipv4_only,
            r->Ok_0.hosts@.len() == addrs@.len(),
            forall|i: int| 0 <= i < addrs@.len() ==> {
                &&& (#[trigger] r->Ok_0.hosts@[i]).0@ == addr_spec(addrs@[i]@, tls).0
                &&& r->Ok_0.hosts@[i].1@ == addr_spec(addrs@[i]@, tls).1
                &&& r->Ok_0.hosts@[i].2 as int == addr_spec(addrs@[i]@, tls).2
            },
    {
        let hosts = format_addrs(addrs, tls);
        Ok(Dns { hosts, ipv4_only })
    }

    /// The backend set from the answers of the lookups, one list of
    /// addresses per host in order: each kept address (only IPv4 ones when
    /// so configured) with its host's port and weight, ordered by address.
    pub fn backends_of(&self, lookups: &Vec<Vec<IpAddress>>) -> (r: Result<Vec<Backend>, DiscoveryError>)
        ensures
            lookups@.len() < self.hosts@.len() ==> r is Err && r->Err_0 is Invalid,
            lookups@.len() >= self.hosts@.len() ==> (r is Err <==> bad_port(self.hosts@, lookups@, self.ipv4_only)),
            r is Err && lookups@.len() >= self.hosts@.len() ==> r->Err_0 is Io,
            r is Ok ==> sorted_set(r->Ok_0@),
            r is Ok ==> forall|b: Backend| r->Ok_0@.contains(b) <==> hosts_backends(self.hosts@, lookups@, self.ipv4_only).contains(b),
    {
        if lookups.len() < self.hosts.len() {
            return Err(DiscoveryError::Invalid { message: String::from_str("lookup ip fail") });
        }
        let mut set: Vec<Backend> = Vec::new();
        let mut i: usize = 0;
        while i < self.hosts.len()
            invariant
                i <= self.hosts@.len() <= lookups@.len(),
                sorted_set(set@),
                !bad_port(self.hosts@.subrange(0, i as int), lookups@, self.ipv4_only),
                forall|b: Backend| set@.contains(b) <==> hosts_backends(self.hosts@.subrange(0, i as int), lookups@, self.ipv4_only).contains(b),
            decreases self.hosts@.len() - i,
        {
            let host = &self.hosts[i];
            let ips = &lookups[i];
            let port = parse_max(host.1.as_str(), u16::MAX as u64);
            let ghost port_v: u16 = port_of(host.1@)->Some_0;
            let ghost before = set@;
            let mut k: usize = 0;
            while k < ips.len()
                invariant
                    i < self.hosts@.len() <= lookups@.len(),
                    *ips == lookups@[i as int],
                    *host == self.hosts@[i as int],
                    port is Some ==> port->Some_0 as u16 == port_v,
                    port is Some <==> port_of(host.1@) is Some,
                    port_v == port_of(host.1@)->Some_0,
                    k <= ips@.len(),
                    sorted_set(set@),
                    port is None ==> !any_kept(ips@.subrange(0, k as int), self.ipv4_only),
                    forall|b: Backend| #[trigger] set@.contains(b) <==> (before.contains(b) || ip_backends(ips@.subrange(0, k as int), port_v, host.2, self.ipv4_only).contains(b)),
                decreases ips@.len() - k,
            {
                let ip = ips[k];
                let keep = match ip {
                    IpAddress::V4(_) => true,
                    IpAddress::V6(_) => !self.ipv4_only,
                };
                let ghost pre = ips@.subrange(0, k as int);
                let ghost next = ips@.subrange(0, k + 1);
                assert(next.drop_last() =~= pre);
                assert(next.last() == ip);
                if keep {
                    match port {
                        Some(p) => {
                            let b = Backend { addr: SocketAddress { ip, port: p as u16 }, weight: host.2 };
                            let ghost s0 = set@;
                            assert(forall|y: Backend| #[trigger] s0.contains(y) <==> (before.contains(y) || ip_backends(pre, port_v, host.2, self.ipv4_only).contains(y)));
                            insert_backend(&mut set, b);
                            proof {
                                assert(kept(next.last(), self.ipv4_only));
                                assert(ip_backends(next, port_v, host.2, self.ipv4_only) == ip_backends(pre, port_v, host.2, self.ipv4_only).push(b));
                                assert forall|y: Backend| set@.contains(y) <==> (before.contains(y) || ip_backends(next, port_v, host.2, self.ipv4_only).contains(y)) by {
                                    lemma_push_contains(ip_backends(pre, port_v, host.2, self.ipv4_only), b, y);
                                    assert(set@.contains(y) <==> (s0.contains(y) || y == b));
                                    assert(s0.contains(y) <==> (before.contains(y) || ip_backends(pre, port_v, host.2, self.ipv4_only).contains(y)));
                                }
                            }
                        },
                        None => {
                            proof {
                                assert(kept(ips@[k as int], self.ipv4_only));
                                assert(any_kept(lookups@[i as int]@, self.ipv4_only));
                                assert(self.hosts@[i as int] == *host);
                                assert(bad_port(self.hosts@, lookups@, self.ipv4_only));
                            }
                            let mut message = host.0.clone();
                            push_str(&mut message, " to socket addr fail");
                            return Err(DiscoveryError::Io { message });
                        },
                    }
                } else {
                    assert(ip_backends(next, port_v, host.2, self.ipv4_only) == ip_backends(pre, port_v, host.2, self.ipv4_only));
                }
                proof {
                    if port is None {
                        assert forall|m: int| 0 <= m < next.len() implies !kept(#[trigger] next[m], self.ipv4_only) by {
                            if m < k {
                                assert(next[m] == pre[m]);
                            }
                        }
                    }
                }
                k = k + 1;
            }
            proof {
                assert(ips@.subrange(0, ips@.len() as int) =~= ips@);
                let hs = self.hosts@.subrange(0, i + 1);
                assert(hs.drop_last() =~= self.hosts@.subrange(0, i as int));
                assert(hs[i as int] == *host);
                let ib = ip_backends(lookups@[i as int]@, port_v, host.2, self.ipv4_only);
                assert(hosts_backends(hs, lookups@, self.ipv4_only) == hosts_backends(self.hosts@.subrange(0, i as int), lookups@, self.ipv4_only) + ib);
                assert forall|y: Backend| set@.contains(y) <==> hosts_backends(hs, lookups@, self.ipv4_only).contains(y) by {
                    lemma_concat_contains(hosts_backends(self.hosts@.subrange(0, i as int), lookups@, self.ipv4_only), ib, y);
                }
                if bad_port(hs, lookups@, self.ipv4_only) {
                    let j = choose|j: int| 0 <= j < hs.len() && port_of(#[trigger] hs[j].1@) is None && any_kept(lookups@[j]@, self.ipv4_only);
                    if j < i {
                        assert(self.hosts@.subrange(0, i as int)[j] == hs[j]);
                        assert(port_of(self.hosts@.subrange(0, i as int)[j].1@) is None);
                        assert(bad_port(self.hosts@.subrange(0, i as int), lookups@, self.ipv4_only));
                        assert(false);
                    } else {
                        assert(hs[j] == *host);
                        assert(port is None);
                        assert(!any_kept(ips@.subrange(0, ips@.len() as int), self.ipv4_only));
                        assert(!any_kept(lookups@[i as int]@, self.ipv4_only));
                        assert(false);
                    }
                }
            }
            i = i + 1;
        }
        assert(self.hosts@.subrange(0, self.hosts@.len() as int) =~= self.hosts@);
        Ok(set)
    }
}

/// A DNS discovery of `addrs`, resolved again on every run.
pub fn new_dns_discover_backends(addrs: &[String], tls: bool, ipv4_only: bool) -> (r: Result<Dns, DiscoveryError>)
    ensures
        r is Ok,
        r->Ok_0.ipv4_only == ipv4_only,
        r->Ok_0.hosts@.len() == addrs@.len(),
        forall|i: int| 0 <= i < addrs@.len() ==> {
            &&& (#[trigger] r->Ok_0.hosts@[i]).0@ == addr_spec(addrs@[i]@, tls).0
            &&& r->Ok_0.hosts@[i].1@ == addr_spec(addrs@[i]@, tls).1
            &&& r->Ok_0.hosts@[i].2 as int == addr_spec(addrs@[i]@, tls).2
        },
{
    Dns::new(addrs, tls, ipv4_only)
}

/// The outcome of one discovery run for the caller: the new backend set, or
/// on failure none (the caller keeps its previous set) and a warning for the
/// webhook.
pub fn discover_outcome(hosts: &Vec<Addr>, result: Result<Vec<Backend>, DiscoveryError>) -> (r: (Option<Vec<Backend>>, Option<Notification>))
    ensures
        result is Ok ==> r.0 == Some(result->Ok_0) && r.1 is None,
        result is Err ==> r.0 is None && r.1 is Some && r.1->Some_0.level == NotificationLevel::Warn
            && r.1->Some_0.category == NotificationCategory::ServiceDiscoverFail,
{
    match result {
        Ok(set) => (Some(set), None),
        Err(e) => {
            let mut msg = String::from_str("[");
            let mut i: usize = 0;
            while i < hosts.len()
                invariant
                    i <= hosts@.len(),
                decreases hosts@.len() - i,
            {
                if i > 0 {
                    push_str(&mut msg, ", ");
                }
                push_str(&mut msg, hosts[i].0.as_str());
                push_str(&mut msg, ":");
                push_str(&mut msg, hosts[i].1.as_str());
                push_str(&mut msg, " ");
                push_dec(&mut msg, hosts[i].2 as u64);
                i = i + 1;
            }
            push_str(&mut msg, "], error: ");
            let text = match &e {
                DiscoveryError::Invalid { message } => message,
                DiscoveryError::Io { message } => message,
                DiscoveryError::Resolve { message } => message,
            };
            push_str(&mut msg, text.as_str());
            (None, Some(Notification { level: NotificationLevel::Warn, category: NotificationCategory::ServiceDiscoverFail, msg }))
        },
    }
}

} // verus!

verus! {

/// The backends that one entry's resolved addresses give, in order.
pub open spec fn socket_backends(addrs: Seq<SocketAddress>, weight: usize, ipv4_only: bool) -> Seq<Backend>
    decreases addrs.len(),
{
    if addrs.len() == 0 {
        Seq::empty()
    } else {
        let rest = socket_backends(addrs.drop_last(), weight, ipv4_only);
        if kept(addrs.last().ip, ipv4_only) {
            rest.push(Backend { addr: addrs.last(), weight })
        } else {
            rest
        }
    }
}

/// The backends of all entries, each with the addresses resolved for it.
pub open spec fn static_all(hosts: Seq<Addr>, resolved: Seq<Vec<SocketAddress>>, ipv4_only: bool) -> Seq<Backend>
    decreases hosts.len(),
{
    if hosts.len() == 0 {
        Seq::empty()
    } else {
        let i = hosts.len() - 1;
        static_all(hosts.drop_last(), resolved, ipv4_only) + socket_backends(resolved[i]@, hosts[i].2, ipv4_only)
    }
}

/// The backend set of a static discovery, from the addresses each entry
/// resolved to (in order): every kept address with its entry's weight,
/// ordered by address.
pub fn static_backends(hosts: &Vec<Addr>, resolved: &Vec<Vec<SocketAddress>>, ipv4_only: bool) -> (r: Result<Vec<Backend>, DiscoveryError>)
    ensures
        r is Err <==> resolved@.len() < hosts@.len(),
        r is Err ==> r->Err_0 is Invalid,
        r is Ok ==> sorted_set(r->Ok_0@),
        r is Ok ==> forall|b: Backend| r->Ok_0@.contains(b) <==> static_all(hosts@, resolved@, ipv4_only).contains(b),
{
    if resolved.len() < hosts.len() {
        return Err(DiscoveryError::Invalid { message: String::from_str("resolve addr fail") });
    }
    let mut set: Vec<Backend> = Vec::new();
    let mut i: usize = 0;
    while i < hosts.len()
        invariant
            i <= hosts@.len() <= resolved@.len(),
            sorted_set(set@),
            forall|b: Backend| #[trigger] set@.contains(b) <==> static_all(hosts@.subrange(0, i as int), resolved@, ipv4_only).contains(b),
        decreases hosts@.len() - i,
    {
        let addrs = &resolved[i];
        let weight = hosts[i].2;
        let ghost before = set@;
        let mut k: usize = 0;
        while k < addrs.len()
            invariant
                i < hosts@.len() <= resolved@.len(),
                *addrs == resolved@[i as int],
                weight == hosts@[i as int].2,
                k <= addrs@.len(),
                sorted_set(set@),
                forall|b: Backend| #[trigger] set@.contains(b) <==> (before.contains(b) || socket_backends(addrs@.subrange(0, k as int), weight, ipv4_only).contains(b)),
            decreases addrs@.len() - k,
        {
            let a = addrs[k];
            let keep = match a.ip {
                IpAddress::V4(_) => true,
                IpAddress::V6(_) => !ipv4_only,
            };
            let ghost pre = addrs@.subrange(0, k as int);
            let ghost next = addrs@.subrange(0, k + 1);
            assert(next.drop_last() =~= pre);
            assert(next.last() == a);
            if keep {
                let b = Backend { addr: a, weight };
                let ghost s0 = set@;
                assert(forall|y: Backend| #[trigger] s0.contains(y) <==> (before.contains(y) || socket_backends(pre, weight, ipv4_only).contains(y)));
                insert_backend(&mut set, b);
                proof {
                    assert(socket_backends(next, weight, ipv4_only) == socket_backends(pre, weight, ipv4_only).push(b));
                    assert forall|y: Backend| set@.contains(y) <==> (before.contains(y) || socket_backends(next, weight, ipv4_only).contains(y)) by {
                        lemma_push_contains(socket_backends(pre, weight, ipv4_only), b, y);
                    }
                }
            } else {
                assert(socket_backends(next, weight, ipv4_only) == socket_backends(pre, weight, ipv4_only));
            }
            k = k + 1;
        }
        proof {
            assert(addrs@.subrange(0, addrs@.len() as int) =~= addrs@);
            let hs = hosts@.subrange(0, i + 1);
            assert(hs.drop_last() =~= hosts@.subrange(0, i as int));
            let sb = socket_backends(resolved@[i as int]@, weight, ipv4_only);
            assert(static_all(hs, resolved@, ipv4_only) == static_all(hosts@.subrange(0, i as int), resolved@, ipv4_only) + sb);
            assert forall|y: Backend| set@.contains(y) <==> static_all(hs, resolved@, ipv4_only).contains(y) by {
                lemma_concat_contains(static_all(hosts@.subrange(0, i as int), resolved@, ipv4_only), sb, y);
            }
        }
        i = i + 1;
    }
    assert(hosts@.subrange(0, hosts@.len() as int) =~= hosts@);
    Ok(set)
}

} // verus!
