use vstd::prelude::*;
use crate::discovery::{Addr, addr_spec, format_addrs};
use crate::request::{same_name, eq_ignore_case, first_index, find_char, lemma_first_index, keys_equal};
use crate::text::push_str;
use regex::Regex;

verus! {

/// Whether `p` compiles as a regular expression.
pub uninterp spec fn regex_compiles(p: Seq<char>) -> bool;

/// Whether the regular expression `p` matches somewhere in `text`.
pub uninterp spec fn regex_matches(p: Seq<char>, text: Seq<char>) -> bool;

/// `text` with the first match of `p` replaced by `rep`, where `$name`
/// and `$1` in `rep` stand for the match's groups.
pub uninterp spec fn regex_replaced(p: Seq<char>, text: Seq<char>, rep: Seq<char>) -> Seq<char>;

/// Relies on `Regex::new`: whether the pattern compiles.
#[verifier::external_body]
fn regex_valid(p: &str) -> (r: bool)
    ensures
        r == regex_compiles(p@),
{
    Regex::new(p).is_ok()
}

/// Relies on `Regex::is_match`, after `Regex::new` on a pattern that compiles.
#[verifier::external_body]
fn regex_is_match(p: &str, text: &str) -> (r: bool)
    requires
        regex_compiles(p@),
    ensures
        r == regex_matches(p@, text@),
{
    Regex::new(p).unwrap().is_match(text)
}

/// Relies on `Regex::replace`, after `Regex::new` on a pattern that compiles.
#[verifier::external_body]
fn regex_replace(p: &str, text: &str, rep: &str) -> (r: String)
    requires
        regex_compiles(p@),
    ensures
        r@ == regex_replaced(p@, text@, rep@),
{
    Regex::new(p).unwrap().replace(text, rep).to_string()
}

/// How a location selects paths.
pub enum PathSelector {
    /// Paths that start with the text; the empty text takes every path.
    Prefix(String),
    /// Exactly this path (configured as `=path`).
    Exact(String),
    /// Paths a regular expression matches (configured as `~pattern`).
    Regex(String),
}

/// How an upstream picks a backend for a request.
#[derive(Debug, Clone, Copy, PartialEq, Eq, Structural)]
pub enum Policy {
    /// Rotation biased by weight.
    RoundRobin,
    /// A hash of a request key, stable when backends change.
    Consistent,
    /// Weighted random choice.
    Random,
}

/// Configuration of an upstream.
pub struct UpstreamConf {
    pub addrs: Vec<String>,
    pub policy: Policy,
    /// `dns` for discovery on every refresh; anything else resolves once.
    pub discovery: Option<String>,
    pub sni: Option<String>,
    pub ipv4_only: bool,
}

/// Configuration of a location.
pub struct LocationConf {
    pub upstream: String,
    pub path: Option<String>,
    pub host: Option<String>,
    /// `Name: value` headers added to the request to the upstream.
    pub proxy_headers: Option<Vec<String>>,
    /// `Name: value` headers added to the response.
    pub headers: Option<Vec<String>>,
    /// `pattern replacement`: the path is rewritten by a regular expression.
    pub rewrite: Option<String>,
    pub weight: Option<u16>,
    pub proxy_plugins: Option<Vec<String>>,
}

pub open spec fn strs(v: Seq<String>) -> Seq<Seq<char>> {
    v.map_values(|t: String| t@)
}

pub open spec fn opt_str(o: Option<String>) -> Option<Seq<char>> {
    match o {
        Some(t) => Some(t@),
        None => None,
    }
}

pub open spec fn opt_strs(o: Option<Vec<String>>) -> Option<Seq<Seq<char>>> {
    match o {
        Some(v) => Some(strs(v@)),
        None => None,
    }
}

/// A copy of a list of strings.
pub fn copy_strings(v: &Vec<String>) -> (r: Vec<String>)
    ensures
        strs(r@) == strs(v@),
{
    let mut r: Vec<String> = Vec::new();
    let mut i: usize = 0;
    while i < v.len()
        invariant
            i <= v@.len(),
            strs(r@) == strs(v@.subrange(0, i as int)),
        decreases v@.len() - i,
    {
        let ghost before = r@;
        r.push(v[i].clone());
        assert(strs(r@) =~= strs(before).push(v@[i as int]@));
        i = i + 1;
        assert(strs(v@.subrange(0, i as int)) =~= strs(v@.subrange(0, i - 1)).push(v@[i - 1]@));
    }
    assert(v@.subrange(0, v@.len() as int) =~= v@);
    r
}

pub fn copy_opt_string(o: &Option<String>) -> (r: Option<String>)
    ensures
        opt_str(r) == opt_str(*o),
{
    match o {
        Some(t) => Some(t.clone()),
        None => None,
    }
}

pub fn copy_opt_strings(o: &Option<Vec<String>>) -> (r: Option<Vec<String>>)
    ensures
        opt_strs(r) == opt_strs(*o),
{
    match o {
        Some(v) => Some(copy_strings(v)),
        None => None,
    }
}

/// The value of an upstream configuration.
pub open spec fn upstream_conf_view(c: UpstreamConf) -> (Seq<Seq<char>>, Policy, Option<Seq<char>>, Option<Seq<char>>, bool) {
    (strs(c.addrs@), c.policy, opt_str(c.discovery), opt_str(c.sni), c.ipv4_only)
}

/// The value of a location configuration.
pub open spec fn location_conf_view(c: LocationConf) -> (Seq<char>, Option<Seq<char>>, Option<Seq<char>>, Option<Seq<Seq<char>>>, Option<Seq<Seq<char>>>, Option<Seq<char>>, Option<u16>, Option<Seq<Seq<char>>>) {
    (c.upstream@, opt_str(c.path), opt_str(c.host), opt_strs(c.proxy_headers), opt_strs(c.headers), opt_str(c.rewrite), c.weight, opt_strs(c.proxy_plugins))
}

impl Clone for UpstreamConf {
    fn clone(&self) -> (r: Self)
        ensures
            upstream_conf_view(r) == upstream_conf_view(*self),
    {
        UpstreamConf {
            addrs: copy_strings(&self.addrs),
            policy: self.policy,
            discovery: copy_opt_string(&self.discovery),
            sni: copy_opt_string(&self.sni),
            ipv4_only: self.ipv4_only,
        }
    }
}

impl Clone for LocationConf {
    fn clone(&self) -> (r: Self)
        ensures
            location_conf_view(r) == location_conf_view(*self),
    {
        LocationConf {
            upstream: self.upstream.clone(),
            path: copy_opt_string(&self.path),
            host: copy_opt_string(&self.host),
            proxy_headers: copy_opt_strings(&self.proxy_headers),
            headers: copy_opt_strings(&self.headers),
            rewrite: copy_opt_string(&self.rewrite),
            weight: self.weight,
            proxy_plugins: copy_opt_strings(&self.proxy_plugins),
        }
    }
}

/// A named pool of backends: its entries, and how they are found.
pub struct Upstream {
    pub name: String,
    pub policy: Policy,
    pub hosts: Vec<Addr>,
    pub tls: bool,
    pub sni: String,
    pub dns: bool,
    pub ipv4_only: bool,
}

/// Errors of building the routing table.
#[derive(Debug)]
pub enum RouteError {
    Invalid { message: String },
}

impl Upstream {
    /// An upstream from its configuration: TLS when an SNI is set; a
    /// configuration without addresses is refused.
    pub fn new(name: &str, conf: &UpstreamConf) -> (r: Result<Upstream, RouteError>)
        ensures
            r is Ok <==> conf.addrs@.len() > 0,
            r is Ok ==> r->Ok_0.name@ == name@ && r->Ok_0.policy == conf.policy && r->Ok_0.tls == (conf.sni is Some)
                && r->Ok_0.ipv4_only == conf.ipv4_only && r->Ok_0.hosts@.len() == conf.addrs@.len()
                && (forall|i: int| 0 <= i < conf.addrs@.len() ==> (#[trigger] r->Ok_0.hosts@[i]).0@ == addr_spec(conf.addrs@[i]@, conf.sni is Some).0
                    && r->Ok_0.hosts@[i].1@ == addr_spec(conf.addrs@[i]@, conf.sni is Some).1
                    && r->Ok_0.hosts@[i].2 as int == addr_spec(conf.addrs@[i]@, conf.sni is Some).2),
    {
        if conf.addrs.len() == 0 {
            let mut message = String::from_str("Upstream addrs is empty, name:");
            push_str(&mut message, name);
            return Err(RouteError::Invalid { message });
        }
        let tls = conf.sni.is_some();
        let sni = match &conf.sni {
            Some(s) => s.clone(),
            None => String::new(),
        };
        let dns = match &conf.discovery {
            Some(d) => keys_equal(d.as_str(), "dns"),
            None => false,
        };
        Ok(Upstream {
            name: name.to_string(),
            policy: conf.policy,
            hosts: format_addrs(conf.addrs.as_slice(), tls),
            tls,
            sni,
            dns,
            ipv4_only: conf.ipv4_only,
        })
    }
}

/// A routing rule: which requests it takes, where they go, what it adds.
pub struct Location {
    pub name: String,
    pub upstream_name: String,
    /// The index of its upstream in the server's list.
    pub upstream: usize,
    pub host: String,
    pub path: PathSelector,
    /// Pattern and replacement of the path rewrite.
    pub rewrite: Option<(String, String)>,
    pub proxy_add_headers: Vec<(String, String)>,
    pub add_headers: Vec<(String, String)>,
    pub weight: u16,
    pub plugins: Vec<String>,
}

/// Whether `s` ends with `suffix`, ignoring ASCII case.
pub open spec fn ends_with_ci(s: Seq<char>, suffix: Seq<char>) -> bool {
    suffix.len() <= s.len() && same_name(s.subrange(s.len() - suffix.len(), s.len() as int), suffix)
}

/// Host matching: an empty pattern takes any host, `*suffix` hosts that end
/// with the suffix, anything else that host, all ignoring ASCII case.
pub open spec fn host_matches(pattern: Seq<char>, host: Seq<char>) -> bool {
    if pattern.len() == 0 {
        true
    } else if pattern[0] == '*' {
        ends_with_ci(host, pattern.subrange(1, pattern.len() as int))
    } else {
        same_name(pattern, host)
    }
}

pub open spec fn path_matches(sel: PathSelector, path: Seq<char>) -> bool {
    match sel {
        PathSelector::Prefix(p) => p@.len() <= path.len() && path.subrange(0, p@.len() as int) == p@,
        PathSelector::Exact(p) => p@ == path,
        PathSelector::Regex(p) => regex_matches(p@, path),
    }
}

/// The well-formedness of a location: its regular expressions compile.
pub open spec fn location_wf(l: Location) -> bool {
    &&& (l.path is Regex ==> regex_compiles(l.path->Regex_0@))
    &&& (l.rewrite is Some ==> regex_compiles(l.rewrite->Some_0.0@))
}

/// Whether a location takes a request for `host` and `path`.
pub open spec fn location_matches(l: Location, host: Seq<char>, path: Seq<char>) -> bool {
    host_matches(l.host@, host) && path_matches(l.path, path)
}

/// The two sides of `s` around its first `c`, or all of `s` and nothing.
pub open spec fn split_first(s: Seq<char>, c: char) -> (Seq<char>, Option<Seq<char>>) {
    let i = first_index(s, c);
    if i < s.len() {
        (s.subrange(0, i), Some(s.subrange(i + 1, s.len() as int)))
    } else {
        (s, None)
    }
}

fn split_at_char(s: &str, c: char) -> (r: (String, Option<String>))
    ensures
        r.0@ == split_first(s@, c).0,
        r.1 is Some <==> split_first(s@, c).1 is Some,
        r.1 is Some ==> r.1->Some_0@ == split_first(s@, c).1->Some_0,
{
    let n = s.unicode_len();
    let i = find_char(s, c, 0);
    proof {
        lemma_first_index(s@, c, i as int);
    }
    if i < n {
        (s.substring_char(0, i).to_string(), Some(s.substring_char(i + 1, n).to_string()))
    } else {
        (s.to_string(), None)
    }
}

/// `s` without leading and trailing spaces.
pub open spec fn trim_spaces(s: Seq<char>) -> Seq<char>
    decreases s.len(),
{
    if s.len() > 0 && s[0] == ' ' {
        trim_spaces(s.subrange(1, s.len() as int))
    } else if s.len() > 0 && s.last() == ' ' {
        trim_spaces(s.drop_last())
    } else {
        s
    }
}

fn trim(s: &str) -> (r: String)
    ensures
        r@ == trim_spaces(s@),
{
    let n = s.unicode_len();
    let mut a: usize = 0;
    let mut b: usize = n;
    assert(s@.subrange(0, n as int) =~= s@);
    while a < b && (s.get_char(a) == ' ' || s.get_char(b - 1) == ' ')
        invariant
            n == s@.len(),
            a <= b <= n,
            trim_spaces(s@) == trim_spaces(s@.subrange(a as int, b as int)),
        decreases b - a,
    {
        let ghost t = s@.subrange(a as int, b as int);
        if s.get_char(a) == ' ' {
            assert(t.subrange(1, t.len() as int) =~= s@.subrange(a + 1, b as int));
            a = a + 1;
        } else {
            assert(t.drop_last() =~= s@.subrange(a as int, b - 1));
            b = b - 1;
        }
    }
    if a == 0 && b == n {
        assert(s@.subrange(0, n as int) =~= s@);
    }
    s.substring_char(a, b).to_string()
}

/// A `Name: value` header line as a pair, both sides trimmed; a line
/// without `:` is no header.
pub open spec fn header_pair(line: Seq<char>) -> Option<(Seq<char>, Seq<char>)> {
    match split_first(line, ':').1 {
        Some(v) => Some((trim_spaces(split_first(line, ':').0), trim_spaces(v))),
        None => None,
    }
}

/// The header pairs of the lines that are headers, in order.
pub open spec fn header_pairs(lines: Seq<String>) -> Seq<(Seq<char>, Seq<char>)>
    decreases lines.len(),
{
    if lines.len() == 0 {
        Seq::empty()
    } else {
        let rest = header_pairs(lines.drop_last());
        match header_pair(lines.last()@) {
            Some(p) => rest.push(p),
            None => rest,
        }
    }
}

pub open spec fn pairs_view(v: Seq<(String, String)>) -> Seq<(Seq<char>, Seq<char>)> {
    v.map_values(|p: (String, String)| (p.0@, p.1@))
}

/// Reads `Name: value` header lines; lines without `:` are skipped.
pub fn convert_headers(lines: &Option<Vec<String>>) -> (r: Vec<(String, String)>)
    ensures
        pairs_view(r@) == match lines {
            Some(l) => header_pairs(l@),
            None => Seq::empty(),
        },
{
    let mut r: Vec<(String, String)> = Vec::new();
    match lines {
        Some(l) => {
            let mut i: usize = 0;
            while i < l.len()
                invariant
                    i <= l@.len(),
                    pairs_view(r@) == header_pairs(l@.subrange(0, i as int)),
                decreases l@.len() - i,
            {
                let (k, v) = split_at_char(l[i].as_str(), ':');
                let ghost prev = r@;
                assert(l@.subrange(0, i + 1).drop_last() =~= l@.subrange(0, i as int));
                match v {
                    Some(v) => {
                        r.push((trim(k.as_str()), trim(v.as_str())));
                        assert(pairs_view(r@) =~= pairs_view(prev).push((r@.last().0@, r@.last().1@)));
                    },
                    None => {},
                }
                i = i + 1;
            }
            assert(l@.subrange(0, l@.len() as int) =~= l@);
        },
        None => {
            assert(pairs_view(r@) =~= Seq::empty());
        },
    }
    r
}

/// The path selector a `path` setting gives.
pub open spec fn selector_of(path: Seq<char>) -> (bool, Seq<char>, int) {
    if path.len() > 0 && path[0] == '=' {
        (true, path.subrange(1, path.len() as int), 1)
    } else if path.len() > 0 && path[0] == '~' {
        (true, path.subrange(1, path.len() as int), 2)
    } else {
        (false, path, 0)
    }
}

pub open spec fn selector_model(sel: PathSelector) -> (int, Seq<char>) {
    match sel {
        PathSelector::Prefix(p) => (0, p@),
        PathSelector::Exact(p) => (1, p@),
        PathSelector::Regex(p) => (2, p@),
    }
}

/// The first upstream named `name`.
pub open spec fn upstream_index(ups: Seq<Upstream>, name: Seq<char>) -> Option<int> {
    if exists|i: int| 0 <= i < ups.len() && #[trigger] ups[i].name@ == name {
        Some(choose|i: int| 0 <= i < ups.len() && #[trigger] ups[i].name@ == name)
    } else {
        None
    }
}

/// Whether a location configuration can be built against `ups`: its
/// upstream is there and its regular expressions compile.
pub open spec fn location_conf_ok(conf: LocationConf, ups: Seq<Upstream>) -> bool {
    &&& (exists|i: int| 0 <= i < ups.len() && #[trigger] ups[i].name@ == conf.upstream@)
    &&& (match conf.path {
        Some(p) => selector_of(p@).2 == 2 ==> regex_compiles(selector_of(p@).1),
        None => true,
    })
    &&& (match conf.rewrite {
        Some(rw) => regex_compiles(split_first(rw@, ' ').0),
        None => true,
    })
}

/// What a location built from `conf` holds: the same upstream, host,
/// weight, headers, path selector and rewrite, and compiling expressions.
pub open spec fn built_from(l: Location, conf: LocationConf, name: Seq<char>, upstreams: Seq<Upstream>) -> bool {
    &&& location_wf(l)
    &&& l.upstream < upstreams.len() && upstreams[l.upstream as int].name@ == conf.upstream@
    &&& l.upstream_name@ == conf.upstream@ && l.name@ == name
    &&& l.host@ == match conf.host {
        Some(h) => h@,
        None => Seq::<char>::empty(),
    }
    &&& l.weight == match conf.weight {
        Some(w) => w,
        None => 0u16,
    }
    &&& pairs_view(l.proxy_add_headers@) == match conf.proxy_headers {
        Some(hs) => header_pairs(hs@),
        None => Seq::empty(),
    }
    &&& pairs_view(l.add_headers@) == match conf.headers {
        Some(hs) => header_pairs(hs@),
        None => Seq::empty(),
    }
    &&& selector_model(l.path) == match conf.path {
        Some(p) => (selector_of(p@).2, selector_of(p@).1),
        None => (0, Seq::<char>::empty()),
    }
    &&& (l.rewrite is Some <==> conf.rewrite is Some)
    &&& (conf.rewrite is Some ==> l.rewrite->Some_0.0@ == split_first(conf.rewrite->Some_0@, ' ').0
        && l.rewrite->Some_0.1@ == match split_first(conf.rewrite->Some_0@, ' ').1 {
            Some(v) => v,
            None => Seq::<char>::empty(),
        })
}

impl Location {
    /// A location from its configuration. Its upstream must be one of
    /// `upstreams`, and its regular expressions must compile.
    pub fn new(name: &str, conf: &LocationConf, upstreams: &Vec<Upstream>) -> (r: Result<Location, RouteError>)
        ensures
            r is Ok ==> built_from(r->Ok_0, *conf, name@, upstreams@),
            r is Ok <==> location_conf_ok(*conf, upstreams@),
    {
        let up = find_upstream(upstreams, conf.upstream.as_str());
        if up == upstreams.len() {
            let mut message = String::from_str("upstream(");
            push_str(&mut message, conf.upstream.as_str());
            push_str(&mut message, ") is not found");
            return Err(RouteError::Invalid { message });
        }
        let path = match &conf.path {
            Some(p) => {
                let n = p.as_str().unicode_len();
                if n > 0 && p.as_str().get_char(0) == '=' {
                    PathSelector::Exact(p.as_str().substring_char(1, n).to_string())
                } else if n > 0 && p.as_str().get_char(0) == '~' {
                    let re = p.as_str().substring_char(1, n).to_string();
                    if !regex_valid(re.as_str()) {
                        let mut message = String::from_str("invalid path regex: ");
                        push_str(&mut message, re.as_str());
                        return Err(RouteError::Invalid { message });
                    }
                    PathSelector::Regex(re)
                } else {
                    PathSelector::Prefix(p.clone())
                }
            },
            None => PathSelector::Prefix(String::new()),
        };
        let rewrite = match &conf.rewrite {
            Some(rw) => {
                let (pattern, rep) = split_at_char(rw.as_str(), ' ');
                if !regex_valid(pattern.as_str()) {
                    let mut message = String::from_str("invalid rewrite regex: ");
                    push_str(&mut message, pattern.as_str());
                    return Err(RouteError::Invalid { message });
                }
                let rep = match rep {
                    Some(v) => v,
                    None => String::new(),
                };
                Some((pattern, rep))
            },
            None => None,
        };
        let host = match &conf.host {
            Some(h) => h.clone(),
            None => String::new(),
        };
        let plugins = match &conf.proxy_plugins {
            Some(p) => p.clone(),
            None => Vec::new(),
        };
        Ok(Location {
            name: name.to_string(),
            upstream_name: conf.upstream.clone(),
            upstream: up,
            host,
            path,
            rewrite,
            proxy_add_headers: convert_headers(&conf.proxy_headers),
            add_headers: convert_headers(&conf.headers),
            weight: match conf.weight {
                Some(w) => w,
                None => 0,
            },
            plugins,
        })
    }

    /// Whether the location takes a request for `host` and `path`.
    pub fn matched(&self, host: &str, path: &str) -> (r: bool)
        requires
            location_wf(*self),
        ensures
            r == location_matches(*self, host@, path@),
    {
        match_host(self.host.as_str(), host) && match_path(&self.path, path)
    }

    /// The rewritten path, when the location rewrites.
    pub fn rewrite(&self, path: &str) -> (r: Option<String>)
        requires
            location_wf(*self),
        ensures
            r is Some <==> self.rewrite is Some,
            r is Some ==> r->Some_0@ == regex_replaced(self.rewrite->Some_0.0@, path@, self.rewrite->Some_0.1@),
    {
        match &self.rewrite {
            Some((pattern, rep)) => Some(regex_replace(pattern.as_str(), path, rep.as_str())),
            None => None,
        }
    }
}

/// The index of the first upstream named `name`, or the count.
fn find_upstream(upstreams: &Vec<Upstream>, name: &str) -> (r: usize)
    ensures
        r <= upstreams@.len(),
        r < upstreams@.len() ==> upstreams@[r as int].name@ == name@,
        r == upstreams@.len() ==> forall|k: int| 0 <= k < upstreams@.len() ==> #[trigger] upstreams@[k].name@ != name@,
{
    let mut i: usize = 0;
    while i < upstreams.len()
        invariant
            i <= upstreams@.len(),
            forall|k: int| 0 <= k < i ==> #[trigger] upstreams@[k].name@ != name@,
        decreases upstreams@.len() - i,
    {
        if keys_equal(upstreams[i].name.as_str(), name) {
            return i;
        }
        i = i + 1;
    }
    i
}

fn match_host(pattern: &str, host: &str) -> (r: bool)
    ensures
        r == host_matches(pattern@, host@),
{
    let n = pattern.unicode_len();
    if n == 0 {
        return true;
    }
    if pattern.get_char(0) == '*' {
        let suffix = pattern.substring_char(1, n);
        let hn = host.unicode_len();
        let sn = suffix.unicode_len();
        if sn > hn {
            return false;
        }
        return eq_ignore_case(host.substring_char(hn - sn, hn), suffix);
    }
    eq_ignore_case(pattern, host)
}

fn match_path(sel: &PathSelector, path: &str) -> (r: bool)
    requires
        sel is Regex ==> regex_compiles(sel->Regex_0@),
    ensures
        r == path_matches(*sel, path@),
{
    match sel {
        PathSelector::Prefix(p) => {
            let pn = p.as_str().unicode_len();
            if pn > path.unicode_len() {
                return false;
            }
            keys_equal(path.substring_char(0, pn), p.as_str())
        },
        PathSelector::Exact(p) => keys_equal(p.as_str(), path),
        PathSelector::Regex(p) => regex_is_match(p.as_str(), path),
    }
}

} // verus!
