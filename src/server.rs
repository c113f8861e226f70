use vstd::prelude::*;
use crate::filters::{OwaspCrsPlugin, WirefilterPlugin, all_parse, any_matches, owasp_page, wirefilter_page};
use crate::limit::{Limiter, limit_conf, substring, char_substring};
use crate::location::{built_from, Policy, pairs_view, Location, LocationConf, Upstream, UpstreamConf, RouteError, location_wf, location_matches, location_conf_ok};
use crate::plugin::{PluginConf, PluginStep, HttpResponse, request_step, step_of, conf_str};
use crate::request::{RequestInfo, header_value, get_req_header_value, keys_equal};
use crate::state::State;
use crate::text::{push_str, replace, replace_all};
use bytesize::ByteSize;

verus! {

/// Bytes in a megabyte, for the memory statistic.
pub const MEGABYTE: usize = 1048576;

/// The version written into error pages.
pub const PKG_VERSION: &'static str = "0.1.0";

/// The error page used when none is configured.
pub const ERROR_TEMPLATE: &'static str = "<!DOCTYPE html><html><head><meta charset=\"utf-8\"/><title>Pingap</title></head><body><p>{{content}}</p><p>Pingap/{{version}}</p></body></html>";

/// Errors of building a server.
#[derive(Debug)]
pub enum Error {
    Common { category: String, message: String },
}

/// Configuration of a request plugin.
#[derive(Clone)]
pub enum ProxyPluginConf {
    /// An inflight limit, `"<prefix><key> <max>"`.
    Limit { value: String, step: PluginStep },
    OwaspCrs(PluginConf),
    Wirefilter(PluginConf),
}

/// A request plugin.
pub enum ProxyPlugin {
    Limit(Limiter),
    OwaspCrs(OwaspCrsPlugin),
    Wirefilter(WirefilterPlugin),
}

pub open spec fn plugin_wf(p: ProxyPlugin) -> bool {
    match p {
        ProxyPlugin::Wirefilter(w) => all_parse(w.restriction_expression_list@),
        _ => true,
    }
}

/// Whether a plugin configuration builds.
pub open spec fn plugin_conf_ok(c: ProxyPluginConf) -> bool {
    match c {
        ProxyPluginConf::Limit { value, step } => limit_conf(value@) is Parsed && request_step(step),
        ProxyPluginConf::OwaspCrs(p) => request_step(step_of(conf_str(p.values@, "step"@))),
        ProxyPluginConf::Wirefilter(p) => crate::filters::first_bad_expression(crate::plugin::conf_list(p.values@, "restriction_expression_list"@)) is None
            && request_step(step_of(conf_str(p.values@, "step"@))),
    }
}

/// Configuration of a server.
pub struct ServerConf {
    pub name: String,
    pub addr: String,
    pub admin: bool,
    pub stats_path: Option<String>,
    pub admin_path: Option<String>,
    pub access_log: Option<String>,
    pub authorization: Option<String>,
    pub upstreams: Vec<(String, UpstreamConf)>,
    pub locations: Vec<(String, LocationConf)>,
    pub proxy_plugins: Vec<(String, ProxyPluginConf)>,
    pub tls_cert: Option<Vec<u8>>,
    pub tls_key: Option<Vec<u8>>,
    pub threads: Option<usize>,
    pub error_template: String,
}

impl ServerConf {
    /// Every configuration is accepted as it stands.
    pub fn validate(&self) -> (r: Result<(), Error>)
        ensures
            r is Ok,
    {
        Ok(())
    }
}

/// The request counters of a server: requests accepted so far, and
/// requests in flight. Both wrap around as the atomics they stand for do.
pub struct Counters {
    pub accepted: u64,
    pub processing: i32,
}

pub open spec fn wrap_inc_u64(x: u64) -> u64 {
    if x == u64::MAX { 0 } else { (x + 1) as u64 }
}

pub open spec fn wrap_inc_i32(x: i32) -> i32 {
    if x == i32::MAX { i32::MIN } else { (x + 1) as i32 }
}

pub open spec fn wrap_dec_i32(x: i32) -> i32 {
    if x == i32::MIN { i32::MAX } else { (x - 1) as i32 }
}

/// The counters after a request arrives.
pub open spec fn after_accept(c: (u64, i32)) -> (u64, i32) {
    (wrap_inc_u64(c.0), wrap_inc_i32(c.1))
}

/// The counters after a request is logged.
pub open spec fn after_complete(c: (u64, i32)) -> (u64, i32) {
    (c.0, wrap_dec_i32(c.1))
}

/// The counters after a run of arrivals (`true`) and completions (`false`).
pub open spec fn after_events(c: (u64, i32), events: Seq<bool>) -> (u64, i32)
    decreases events.len(),
{
    if events.len() == 0 {
        c
    } else {
        let prev = after_events(c, events.drop_last());
        if events.last() {
            after_accept(prev)
        } else {
            after_complete(prev)
        }
    }
}

pub open spec fn count_of(events: Seq<bool>, v: bool) -> int
    decreases events.len(),
{
    if events.len() == 0 {
        0
    } else {
        count_of(events.drop_last(), v) + if events.last() == v { 1int } else { 0int }
    }
}

impl Counters {
    pub open spec fn model(&self) -> (u64, i32) {
        (self.accepted, self.processing)
    }

    pub fn new() -> (r: Counters)
        ensures
            r.model() == (0u64, 0i32),
    {
        Counters { accepted: 0, processing: 0 }
    }

    /// A request arrived; returns the number in flight before it.
    pub fn on_accept(&mut self) -> (r: i32)
        ensures
            r == old(self).processing,
            final(self).model() == after_accept(old(self).model()),
    {
        let before = self.processing;
        self.processing = if self.processing == i32::MAX { i32::MIN } else { self.processing + 1 };
        self.accepted = if self.accepted == u64::MAX { 0 } else { self.accepted + 1 };
        before
    }

    /// A request was logged.
    pub fn on_complete(&mut self)
        ensures
            final(self).model() == after_complete(old(self).model()),
    {
        self.processing = if self.processing == i32::MIN { i32::MAX } else { self.processing - 1 };
    }
}

/// While no counter wraps, the requests in flight are those before, plus
/// the arrivals, minus the completions; the accepted count grows by the
/// arrivals.
pub proof fn lemma_counters_balance(c: (u64, i32), events: Seq<bool>)
    requires
        forall|k: int| 0 <= k <= events.len() ==> i32::MIN < c.1 + count_of(#[trigger] events.subrange(0, k), true) - count_of(events.subrange(0, k), false) < i32::MAX,
        c.0 + count_of(events, true) < u64::MAX,
    ensures
        after_events(c, events).1 == c.1 + count_of(events, true) - count_of(events, false),
        after_events(c, events).0 == c.0 + count_of(events, true),
    decreases events.len(),
{
    if events.len() > 0 {
        let prev = events.drop_last();
        assert forall|k: int| 0 <= k <= prev.len() implies i32::MIN < c.1 + count_of(#[trigger] prev.subrange(0, k), true) - count_of(prev.subrange(0, k), false) < i32::MAX by {
            assert(prev.subrange(0, k) =~= events.subrange(0, k));
        }
        lemma_count_le(prev, events);
        lemma_counters_balance(c, prev);
        assert(events.subrange(0, events.len() as int) =~= events);
        assert(events.subrange(0, prev.len() as int) =~= prev);
    }
}

proof fn lemma_count_le(prev: Seq<bool>, events: Seq<bool>)
    requires
        events.len() > 0,
        prev == events.drop_last(),
    ensures
        count_of(prev, true) <= count_of(events, true),
{
}

/// Where a request goes after the request phase.
pub enum RequestAction {
    /// Answer with the server's statistics.
    Stats,
    /// Answer 401 with `WWW-Authenticate: Basic`.
    Unauthorized,
    /// Hand the request to the admin console, with its target changed when
    /// it came under the admin path.
    Admin { uri: Option<String> },
    /// End the request with an error status and message.
    Fail { status: u16, message: String },
    /// A plugin answered.
    Respond(HttpResponse),
    /// Proxy through the location, with the target rewritten when it says so.
    Proxy { location_index: usize, uri: Option<String> },
}

/// What the plugin chain decided.
pub enum PluginOutcome {
    Continue,
    Respond(HttpResponse),
    Fail { status: u16, message: String },
}

/// Where an error came from.
#[derive(Debug, Clone, Copy, PartialEq, Eq, Structural)]
pub enum ErrorSource {
    Upstream,
    Downstream,
    Internal,
    Unset,
}

/// What kind of error it was.
#[derive(Debug, Clone, Copy, PartialEq, Eq, Structural)]
pub enum ErrorKind {
    /// An explicit HTTP status, from a plugin or the routing.
    HttpStatus(u16),
    ReadError,
    WriteError,
    ConnectionClosed,
    ConnectRefused,
    Other,
}

/// An error that ended a request.
pub struct ProxyError {
    pub kind: ErrorKind,
    pub source: ErrorSource,
    pub message: String,
}

/// The status a request failed with.
pub open spec fn error_status(kind: ErrorKind, source: ErrorSource) -> u16 {
    match kind {
        ErrorKind::HttpStatus(code) => code,
        _ => match source {
            ErrorSource::Upstream => 502,
            ErrorSource::Downstream => match kind {
                ErrorKind::WriteError | ErrorKind::ReadError => 500,
                ErrorKind::ConnectionClosed => 499,
                _ => 400,
            },
            ErrorSource::Internal | ErrorSource::Unset => 500,
        },
    }
}

/// The status for an error: the explicit one, else by where it came from.
pub fn error_code(kind: ErrorKind, source: ErrorSource) -> (r: u16)
    ensures
        r == error_status(kind, source),
{
    match kind {
        ErrorKind::HttpStatus(code) => code,
        _ => match source {
            ErrorSource::Upstream => 502,
            ErrorSource::Downstream => match kind {
                ErrorKind::WriteError | ErrorKind::ReadError => 500,
                ErrorKind::ConnectionClosed => 499,
                _ => 400,
            },
            ErrorSource::Internal | ErrorSource::Unset => 500,
        },
    }
}

/// The error page: the template with `{{version}}` and `{{content}}` filled.
pub open spec fn error_page(template: Seq<char>, content: Seq<char>) -> Seq<char> {
    replace_all(replace_all(template, "{{version}}"@, PKG_VERSION@), "{{content}}"@, content)
}

/// What the server reports at its statistics path.
pub struct ServerStats {
    pub processing: i32,
    pub accepted: u64,
    pub hostname: String,
    pub physical_mem_mb: usize,
    pub physical_mem: String,
}

/// The size that `bytesize` writes for `n` bytes in binary units.
pub uninterp spec fn human_size(n: u64) -> Seq<char>;

/// Relies on `ByteSize::to_string_as(true)`: the size in binary units (KiB, MiB, ...).
#[verifier::external_body]
fn human_bytes(n: u64) -> (r: String)
    ensures
        r@ == human_size(n),
{
    ByteSize(n).to_string_as(true)
}

/// The first location that takes the request, in order.
pub open spec fn first_location(locs: Seq<Location>, host: Seq<char>, path: Seq<char>) -> Option<int> {
    if exists|i: int| 0 <= i < locs.len() && location_matches(#[trigger] locs[i], host, path) {
        Some(choose|i: int| 0 <= i < locs.len() && location_matches(#[trigger] locs[i], host, path)
            && forall|k: int| 0 <= k < i ==> !location_matches(#[trigger] locs[k], host, path))
    } else {
        None
    }
}

/// Whether an upstream configuration is named by a location.
pub open spec fn upstream_used(name: Seq<char>, locs: Seq<(String, LocationConf)>) -> bool {
    exists|j: int| 0 <= j < locs.len() && #[trigger] locs[j].1.upstream@ == name
}

/// The used upstreams of `ups`, in order.
pub open spec fn used_upstreams(ups: Seq<(String, UpstreamConf)>, locs: Seq<(String, LocationConf)>) -> Seq<Seq<char>>
    decreases ups.len(),
{
    if ups.len() == 0 {
        Seq::empty()
    } else {
        let rest = used_upstreams(ups.drop_last(), locs);
        if upstream_used(ups.last().0@, locs) {
            rest.push(ups.last().0@)
        } else {
            rest
        }
    }
}

/// Whether every used upstream has addresses.
pub open spec fn upstreams_ok(ups: Seq<(String, UpstreamConf)>, locs: Seq<(String, LocationConf)>) -> bool {
    forall|i: int| 0 <= i < ups.len() && upstream_used(#[trigger] ups[i].0@, locs) ==> ups[i].1.addrs@.len() > 0
}

pub open spec fn upstream_names(ups: Seq<Upstream>) -> Seq<Seq<char>> {
    ups.map_values(|u: Upstream| u.name@)
}

/// The server: its routing table, plugins, counters and settings.
pub struct Server {
    pub admin: bool,
    pub addr: String,
    pub counters: Counters,
    pub upstreams: Vec<Upstream>,
    pub locations: Vec<Location>,
    pub plugins: Vec<(String, ProxyPlugin)>,
    pub log_format: Option<String>,
    pub authorization: Option<String>,
    pub error_template: String,
    pub stats_path: Option<String>,
    pub admin_path: Option<String>,
    pub threads: Option<usize>,
    pub tls_cert: Option<Vec<u8>>,
    pub tls_key: Option<Vec<u8>>,
}

/// The names of the upstreams that the locations use.
fn used_names(locs: &Vec<(String, LocationConf)>, name: &str) -> (r: bool)
    ensures
        r == upstream_used(name@, locs@),
{
    let mut j: usize = 0;
    while j < locs.len()
        invariant
            j <= locs@.len(),
            forall|k: int| 0 <= k < j ==> #[trigger] locs@[k].1.upstream@ != name@,
        decreases locs@.len() - j,
    {
        if keys_equal(locs[j].1.upstream.as_str(), name) {
            return true;
        }
        j = j + 1;
    }
    false
}

fn common_error(category: &str, e: RouteError) -> (r: Error)
    ensures
        r->Common_category@ == category@,
{
    match e {
        RouteError::Invalid { message } => Error::Common { category: category.to_string(), message },
    }
}

/// Builds the upstreams that the locations use, in order.
fn build_upstreams(ups: &Vec<(String, UpstreamConf)>, locs: &Vec<(String, LocationConf)>) -> (r: Result<Vec<Upstream>, Error>)
    ensures
        r is Ok <==> upstreams_ok(ups@, locs@),
        r is Ok ==> upstream_names(r->Ok_0@) == used_upstreams(ups@, locs@),
        r is Err ==> r->Err_0->Common_category@ == "upstream"@,
{
    let mut r: Vec<Upstream> = Vec::new();
    let mut i: usize = 0;
    while i < ups.len()
        invariant
            i <= ups@.len(),
            upstreams_ok(ups@.subrange(0, i as int), locs@),
            upstream_names(r@) == used_upstreams(ups@.subrange(0, i as int), locs@),
        decreases ups@.len() - i,
    {
        let ghost pre = ups@.subrange(0, i as int);
        let ghost next = ups@.subrange(0, i + 1);
        assert(next.drop_last() =~= pre);
        assert(next.last() == ups@[i as int]);
        if used_names(locs, ups[i].0.as_str()) {
            match Upstream::new(ups[i].0.as_str(), &ups[i].1) {
                Ok(up) => {
                    let ghost prev = r@;
                    r.push(up);
                    assert(upstream_names(r@) =~= upstream_names(prev).push(up.name@));
                },
                Err(e) => {
                    assert(!upstreams_ok(ups@, locs@));
                    return Err(common_error("upstream", e));
                },
            }
        }
        assert forall|k: int| 0 <= k < next.len() && upstream_used(#[trigger] next[k].0@, locs@) implies next[k].1.addrs@.len() > 0 by {
            if k < i {
                assert(next[k] == pre[k]);
            }
        }
        i = i + 1;
    }
    assert(ups@.subrange(0, ups@.len() as int) =~= ups@);
    Ok(r)
}

/// Whether every location builds against `ups`.
pub open spec fn locations_ok(locs: Seq<(String, LocationConf)>, ups: Seq<Upstream>) -> bool {
    forall|j: int| 0 <= j < locs.len() ==> location_conf_ok(#[trigger] locs[j].1, ups)
}

fn build_locations(locs: &Vec<(String, LocationConf)>, ups: &Vec<Upstream>) -> (r: Result<Vec<Location>, Error>)
    ensures
        r is Ok <==> locations_ok(locs@, ups@),
        r is Ok ==> r->Ok_0@.len() == locs@.len() && forall|j: int| 0 <= j < locs@.len() ==> built_from(#[trigger] r->Ok_0@[j], locs@[j].1, locs@[j].0@, ups@),
        r is Err ==> r->Err_0->Common_category@ == "location"@,
{
    let mut r: Vec<Location> = Vec::new();
    let mut j: usize = 0;
    while j < locs.len()
        invariant
            j <= locs@.len(),
            r@.len() == j,
            forall|k: int| 0 <= k < j ==> location_conf_ok(#[trigger] locs@[k].1, ups@),
            forall|k: int| 0 <= k < j ==> built_from(#[trigger] r@[k], locs@[k].1, locs@[k].0@, ups@),
        decreases locs@.len() - j,
    {
        match Location::new(locs[j].0.as_str(), &locs[j].1, ups) {
            Ok(l) => {
                r.push(l);
            },
            Err(e) => {
                return Err(common_error("location", e));
            },
        }
        j = j + 1;
    }
    Ok(r)
}

/// Whether every plugin configuration builds.
pub open spec fn plugins_ok(ps: Seq<(String, ProxyPluginConf)>) -> bool {
    forall|i: int| 0 <= i < ps.len() ==> plugin_conf_ok(#[trigger] ps[i].1)
}

fn build_plugins(ps: &Vec<(String, ProxyPluginConf)>) -> (r: Result<Vec<(String, ProxyPlugin)>, Error>)
    ensures
        r is Ok <==> plugins_ok(ps@),
        r is Ok ==> r->Ok_0@.len() == ps@.len() && forall|i: int| 0 <= i < ps@.len() ==> plugin_wf(#[trigger] r->Ok_0@[i].1)
            && r->Ok_0@[i].0@ == ps@[i].0@,
        r is Err ==> r->Err_0->Common_category@ == "plugin"@,
{
    let mut r: Vec<(String, ProxyPlugin)> = Vec::new();
    let mut i: usize = 0;
    while i < ps.len()
        invariant
            i <= ps@.len(),
            r@.len() == i,
            forall|k: int| 0 <= k < i ==> plugin_conf_ok(#[trigger] ps@[k].1),
            forall|k: int| 0 <= k < i ==> plugin_wf(#[trigger] r@[k].1) && r@[k].0@ == ps@[k].0@,
        decreases ps@.len() - i,
    {
        let built: Option<ProxyPlugin> = match &ps[i].1 {
            ProxyPluginConf::Limit { value, step } => match Limiter::new(value.as_str(), *step) {
                Ok(l) => Some(ProxyPlugin::Limit(l)),
                Err(_) => None,
            },
            ProxyPluginConf::OwaspCrs(p) => match OwaspCrsPlugin::new(p) {
                Ok(o) => Some(ProxyPlugin::OwaspCrs(o)),
                Err(_) => None,
            },
            ProxyPluginConf::Wirefilter(p) => match WirefilterPlugin::new(p) {
                Ok(w) => Some(ProxyPlugin::Wirefilter(w)),
                Err(_) => None,
            },
        };
        match built {
            Some(p) => {
                r.push((ps[i].0.clone(), p));
            },
            None => {
                let mut message = String::from_str("invalid plugin: ");
                push_str(&mut message, ps[i].0.as_str());
                return Err(Error::Common { category: String::from_str("plugin"), message });
            },
        }
        i = i + 1;
    }
    Ok(r)
}

} // verus!

verus! {

/// The well-formedness of a server: its locations' expressions compile,
/// their upstreams exist, and its filter plugins' expressions parse.
pub open spec fn server_wf(s: Server) -> bool {
    &&& forall|j: int| 0 <= j < s.locations@.len() ==> location_wf(#[trigger] s.locations@[j]) && s.locations@[j].upstream < s.upstreams@.len()
    &&& forall|i: int| 0 <= i < s.plugins@.len() ==> plugin_wf(#[trigger] s.plugins@[i].1)
}

/// Whether a request may use the admin console: always without a
/// configured token, else only with `Authorization: Basic <token>`.
pub open spec fn auth_ok(authorization: Option<String>, headers: Seq<(String, String)>) -> bool {
    match authorization {
        None => true,
        Some(a) => header_value(headers, "Authorization"@) == Some("Basic "@ + a@),
    }
}

/// Whether `s` starts with `p`.
pub open spec fn starts_with(s: Seq<char>, p: Seq<char>) -> bool {
    p.len() <= s.len() && s.subrange(0, p.len() as int) == p
}

/// `path`, then `?` and the query when there is one.
pub open spec fn with_query(path: Seq<char>, query: Option<String>) -> Seq<char> {
    match query {
        Some(q) => path + "?"@ + q@,
        None => path,
    }
}

fn push_query(s: &mut String, query: &Option<String>)
    ensures
        final(s)@ == with_query(old(s)@, *query),
{
    match query {
        Some(q) => {
            push_str(s, "?");
            push_str(s, q.as_str());
        },
        None => {},
    }
}

fn prefix_of(s: &str, p: &str) -> (r: bool)
    ensures
        r == starts_with(s@, p@),
{
    let n = p.unicode_len();
    if n > s.unicode_len() {
        return false;
    }
    keys_equal(s.substring_char(0, n), p)
}

/// The kind of answer the request phase gives before the plugins run.
pub enum Route {
    Stats,
    Admin,
    Unauthorized,
    AdminPath,
    NotFound,
    Location(int),
}

/// The answer of the request phase, before the plugins run.
pub open spec fn route_of(s: Server, req: RequestInfo) -> Route {
    if s.stats_path is Some && s.stats_path->Some_0@ == req.path@ {
        Route::Stats
    } else if s.admin {
        if auth_ok(s.authorization, req.headers@) {
            Route::Admin
        } else {
            Route::Unauthorized
        }
    } else if s.admin_path is Some && starts_with(req.path@, s.admin_path->Some_0@) {
        if auth_ok(s.authorization, req.headers@) {
            Route::AdminPath
        } else {
            Route::Unauthorized
        }
    } else {
        match first_location(s.locations@, req.host@, req.path@) {
            Some(i) => Route::Location(i),
            None => Route::NotFound,
        }
    }
}

pub open spec fn not_found_message(req: RequestInfo) -> Seq<char> {
    "Location not found, host:"@ + req.host@ + " path:"@ + req.path@
}

/// The index of the first plugin named `name`, or the count.
pub open spec fn plugin_index(plugins: Seq<(String, ProxyPlugin)>, name: Seq<char>) -> int
    decreases plugins.len(),
{
    if plugins.len() == 0 {
        0
    } else if plugins[0].0@ == name {
        0
    } else {
        1 + plugin_index(plugins.subrange(1, plugins.len() as int), name)
    }
}

/// The plugin a name of a chain stands for: the first of that name.
pub open spec fn named_plugin(plugins: Seq<(String, ProxyPlugin)>, name: Seq<char>) -> Option<ProxyPlugin> {
    let i = plugin_index(plugins, name);
    if 0 <= i < plugins.len() {
        Some(plugins[i].1)
    } else {
        None
    }
}

/// Whether a plugin answers the request itself in `step`: a filter of that
/// step that refuses it.
pub open spec fn responds(p: ProxyPlugin, step: PluginStep, req: RequestInfo) -> bool {
    match p {
        ProxyPlugin::OwaspCrs(o) => o.plugin_step == step,
        ProxyPlugin::Wirefilter(w) => w.plugin_step == step && any_matches(w.restriction_expression_list@, req),
        ProxyPlugin::Limit(_) => false,
    }
}

/// Whether a plugin is a limit that counts the request in `step`.
pub open spec fn limits(p: ProxyPlugin, step: PluginStep) -> bool {
    match p {
        ProxyPlugin::Limit(l) => l.proxy_step == step,
        _ => false,
    }
}

/// The status and body a responding filter answers with.
pub open spec fn response_of(p: ProxyPlugin, req: RequestInfo) -> (u16, Seq<char>) {
    match p {
        ProxyPlugin::OwaspCrs(o) => (o.forbidden_resp.status, owasp_page(req)),
        ProxyPlugin::Wirefilter(w) => (w.forbidden_resp.status, wirefilter_page(req)),
        ProxyPlugin::Limit(_) => (0, Seq::empty()),
    }
}

/// Whether the plugin at position `k` of location `li`'s chain responds.
pub open spec fn chain_responds(s: Server, li: int, k: int, step: PluginStep, req: RequestInfo) -> bool {
    match named_plugin(s.plugins@, s.locations@[li].plugins@[k]@) {
        Some(p) => responds(p, step, req),
        None => false,
    }
}

/// Whether the plugin at position `k` of location `li`'s chain is a limit
/// of this step.
pub open spec fn chain_limits(s: Server, li: int, k: int, step: PluginStep) -> bool {
    match named_plugin(s.plugins@, s.locations@[li].plugins@[k]@) {
        Some(p) => limits(p, step),
        None => false,
    }
}

/// The answer of the plugin at position `k` of location `li`'s chain.
pub open spec fn chain_response(s: Server, li: int, k: int, req: RequestInfo) -> (u16, Seq<char>) {
    match named_plugin(s.plugins@, s.locations@[li].plugins@[k]@) {
        Some(p) => response_of(p, req),
        None => (0, Seq::empty()),
    }
}

/// Whether no plugin of the chain answers or counts the request in `step`.
pub open spec fn chain_passes(s: Server, li: int, step: PluginStep, req: RequestInfo) -> bool {
    forall|k: int| 0 <= k < s.locations@[li].plugins@.len() ==> !#[trigger] chain_responds(s, li, k, step, req) && !chain_limits(s, li, k, step)
}

/// The index of the first plugin named `name`, or the count.
fn find_plugin(plugins: &Vec<(String, ProxyPlugin)>, name: &str) -> (r: usize)
    ensures
        r as int == plugin_index(plugins@, name@),
        r <= plugins@.len(),
{
    let mut i: usize = 0;
    assert(plugins@.subrange(0, plugins@.len() as int) =~= plugins@);
    while i < plugins.len()
        invariant
            i <= plugins@.len(),
            plugin_index(plugins@, name@) == i + plugin_index(plugins@.subrange(i as int, plugins@.len() as int), name@),
        decreases plugins@.len() - i,
    {
        let ghost t = plugins@.subrange(i as int, plugins@.len() as int);
        assert(t[0] == plugins@[i as int]);
        if keys_equal(plugins[i].0.as_str(), name) {
            return i;
        }
        assert(t.subrange(1, t.len() as int) =~= plugins@.subrange(i + 1, plugins@.len() as int));
        i = i + 1;
    }
    i
}

impl Server {
    /// A server from its configuration: the upstreams that its locations
    /// use, its locations in the configured order, and its plugins. It fails
    /// when a used upstream has no address, a location cannot be built, or a
    /// plugin configuration is malformed.
    pub fn new(conf: ServerConf) -> (r: Result<Server, Error>)
        ensures
            r is Ok <==> upstreams_ok(conf.upstreams@, conf.locations@) && plugins_ok(conf.proxy_plugins@)
                && locations_ok_by_name(conf.locations@, used_upstreams(conf.upstreams@, conf.locations@)),
            r is Ok ==> server_wf(r->Ok_0) && r->Ok_0.counters.model() == (0u64, 0i32)
                && r->Ok_0.locations@.len() == conf.locations@.len()
                && upstream_names(r->Ok_0.upstreams@) == used_upstreams(conf.upstreams@, conf.locations@)
                && r->Ok_0.admin == conf.admin && r->Ok_0.stats_path == conf.stats_path
                && r->Ok_0.admin_path == conf.admin_path && r->Ok_0.authorization == conf.authorization
                && r->Ok_0.error_template == conf.error_template
                && r->Ok_0.addr == conf.addr && r->Ok_0.threads == conf.threads
                && r->Ok_0.tls_cert == conf.tls_cert && r->Ok_0.tls_key == conf.tls_key
                && r->Ok_0.log_format == conf.access_log
                && forall|j: int| 0 <= j < conf.locations@.len() ==> built_from(#[trigger] r->Ok_0.locations@[j], conf.locations@[j].1, conf.locations@[j].0@, r->Ok_0.upstreams@),
            !upstreams_ok(conf.upstreams@, conf.locations@) ==> r is Err && r->Err_0->Common_category@ == "upstream"@,
            upstreams_ok(conf.upstreams@, conf.locations@) && !locations_ok_by_name(conf.locations@, used_upstreams(conf.upstreams@, conf.locations@))
                ==> r is Err && r->Err_0->Common_category@ == "location"@,
            upstreams_ok(conf.upstreams@, conf.locations@) && locations_ok_by_name(conf.locations@, used_upstreams(conf.upstreams@, conf.locations@))
                && !plugins_ok(conf.proxy_plugins@) ==> r is Err && r->Err_0->Common_category@ == "plugin"@,
    {
        let upstreams = match build_upstreams(&conf.upstreams, &conf.locations) {
            Ok(u) => u,
            Err(e) => {
                return Err(e);
            },
        };
        proof {
            lemma_locations_ok_by_name(conf.locations@, upstreams@, used_upstreams(conf.upstreams@, conf.locations@));
        }
        let locations = match build_locations(&conf.locations, &upstreams) {
            Ok(l) => l,
            Err(e) => {
                return Err(e);
            },
        };
        let plugins = match build_plugins(&conf.proxy_plugins) {
            Ok(p) => p,
            Err(e) => {
                return Err(e);
            },
        };
        Ok(Server {
            admin: conf.admin,
            addr: conf.addr,
            counters: Counters::new(),
            upstreams,
            locations,
            plugins,
            log_format: conf.access_log,
            authorization: conf.authorization,
            error_template: conf.error_template,
            stats_path: conf.stats_path,
            admin_path: conf.admin_path,
            threads: conf.threads,
            tls_cert: conf.tls_cert,
            tls_key: conf.tls_key,
        })
    }

    /// Whether the request may use the admin console.
    pub fn auth_validate(&self, headers: &Vec<(String, String)>) -> (r: bool)
        ensures
            r == auth_ok(self.authorization, headers@),
    {
        match &self.authorization {
            Some(a) => {
                let mut expected = String::from_str("Basic ");
                push_str(&mut expected, a.as_str());
                match get_req_header_value(headers, "Authorization") {
                    Some(v) => keys_equal(v.as_str(), expected.as_str()),
                    None => false,
                }
            },
            None => true,
        }
    }

    /// The index of the first location that takes the request.
    pub fn find_location(&self, host: &str, path: &str) -> (r: Option<usize>)
        requires
            server_wf(*self),
        ensures
            r is Some <==> first_location(self.locations@, host@, path@) is Some,
            r is Some ==> r->Some_0 as int == first_location(self.locations@, host@, path@)->Some_0,
            r is Some ==> r->Some_0 < self.locations@.len(),
    {
        let mut i: usize = 0;
        while i < self.locations.len()
            invariant
                i <= self.locations@.len(),
                server_wf(*self),
                forall|k: int| 0 <= k < i ==> !location_matches(#[trigger] self.locations@[k], host@, path@),
            decreases self.locations@.len() - i,
        {
            if self.locations[i].matched(host, path) {
                proof {
                    let locs = self.locations@;
                    let j = choose|j: int| 0 <= j < locs.len() && location_matches(#[trigger] locs[j], host@, path@)
                        && forall|k: int| 0 <= k < j ==> !location_matches(#[trigger] locs[k], host@, path@);
                    assert(0 <= i < locs.len() && location_matches(locs[i as int], host@, path@)
                        && forall|k: int| 0 <= k < i ==> !location_matches(#[trigger] locs[k], host@, path@));
                    if j < i {
                    } else if j > i {
                        assert(!location_matches(locs[i as int], host@, path@));
                    }
                }
                return Some(i);
            }
            i = i + 1;
        }
        None
    }

    /// Runs the plugins of a location for `step`, in order: a limit that
    /// refuses ends the request with its status, a filter that answers ends
    /// it with its response. Names without a plugin are skipped.
    pub fn exec_plugins(&self, location_index: usize, step: PluginStep, req: &RequestInfo, ctx: &mut State) -> (r: PluginOutcome)
        requires
            server_wf(*self),
            location_index < self.locations@.len(),
        ensures
            r is Continue ==> forall|k: int| 0 <= k < self.locations@[location_index as int].plugins@.len()
                ==> !#[trigger] chain_responds(*self, location_index as int, k, step, *req),
            chain_passes(*self, location_index as int, step, *req) ==> r is Continue,
            r is Respond ==> exists|k: int| 0 <= k < self.locations@[location_index as int].plugins@.len()
                && #[trigger] chain_responds(*self, location_index as int, k, step, *req)
                && (r->Respond_0.status, r->Respond_0.body@) == chain_response(*self, location_index as int, k, *req)
                && forall|j: int| 0 <= j < k ==> !#[trigger] chain_responds(*self, location_index as int, j, step, *req),
            forall|k: int| 0 <= k < self.locations@[location_index as int].plugins@.len()
                && #[trigger] chain_responds(*self, location_index as int, k, step, *req)
                && (forall|j: int| 0 <= j < k ==> !#[trigger] chain_responds(*self, location_index as int, j, step, *req)
                    && !chain_limits(*self, location_index as int, j, step))
                ==> r is Respond && (r->Respond_0.status, r->Respond_0.body@) == chain_response(*self, location_index as int, k, *req),
            r is Fail ==> r->Fail_status == 429 && exists|k: int| 0 <= k < self.locations@[location_index as int].plugins@.len()
                && #[trigger] chain_limits(*self, location_index as int, k, step)
                && forall|j: int| 0 <= j < k ==> !#[trigger] chain_responds(*self, location_index as int, j, step, *req),
            final(ctx).location_index == old(ctx).location_index,
            final(ctx).processing == old(ctx).processing,
            final(ctx).status == old(ctx).status,
    {
        let ghost li = location_index as int;
        let names = &self.locations[location_index].plugins;
        let mut i: usize = 0;
        while i < names.len()
            invariant
                i <= names@.len(),
                location_index < self.locations@.len(),
                li == location_index as int,
                *names == self.locations@[li].plugins,
                server_wf(*self),
                forall|j: int| 0 <= j < i ==> !#[trigger] chain_responds(*self, li, j, step, *req),
                ctx.location_index == old(ctx).location_index,
                ctx.processing == old(ctx).processing,
                ctx.status == old(ctx).status,
            decreases names@.len() - i,
        {
            let k = find_plugin(&self.plugins, names[i].as_str());
            if k < self.plugins.len() {
                assert(plugin_wf(self.plugins@[k as int].1));
                assert(named_plugin(self.plugins@, names@[i as int]@) == Some(self.plugins@[k as int].1));
                match &self.plugins[k].1 {
                    ProxyPlugin::Limit(l) => {
                        if l.step() == step {
                            match l.handle(req, ctx) {
                                Ok(_) => {},
                                Err((status, message)) => {
                                    assert(chain_limits(*self, li, i as int, step));
                                    assert(!chain_responds(*self, li, i as int, step, *req));
                                    assert(forall|q: int| 0 <= q < names@.len() && #[trigger] chain_responds(*self, li, q, step, *req)
                                        && (forall|j: int| 0 <= j < q ==> !#[trigger] chain_responds(*self, li, j, step, *req) && !chain_limits(*self, li, j, step))
                                        ==> false) by {
                                        assert forall|q: int| 0 <= q < names@.len() && #[trigger] chain_responds(*self, li, q, step, *req)
                                            && (forall|j: int| 0 <= j < q ==> !#[trigger] chain_responds(*self, li, j, step, *req) && !chain_limits(*self, li, j, step))
                                            implies false by {
                                            if q > i {
                                                assert(!chain_responds(*self, li, i as int, step, *req) && !chain_limits(*self, li, i as int, step));
                                            }
                                        }
                                    }
                                    return PluginOutcome::Fail { status, message };
                                },
                            }
                        }
                    },
                    ProxyPlugin::OwaspCrs(o) => {
                        if let Some(resp) = o.handle_request(step, req) {
                            assert(chain_responds(*self, li, i as int, step, *req));
                            assert forall|q: int| 0 <= q < names@.len() && #[trigger] chain_responds(*self, li, q, step, *req)
                                && (forall|j: int| 0 <= j < q ==> !#[trigger] chain_responds(*self, li, j, step, *req) && !chain_limits(*self, li, j, step))
                                implies q == i by {
                                if q > i {
                                    assert(!chain_responds(*self, li, i as int, step, *req));
                                }
                            }
                            return PluginOutcome::Respond(resp);
                        }
                    },
                    ProxyPlugin::Wirefilter(w) => {
                        if let Some(resp) = w.handle_request(step, req) {
                            assert(chain_responds(*self, li, i as int, step, *req));
                            assert forall|q: int| 0 <= q < names@.len() && #[trigger] chain_responds(*self, li, q, step, *req)
                                && (forall|j: int| 0 <= j < q ==> !#[trigger] chain_responds(*self, li, j, step, *req) && !chain_limits(*self, li, j, step))
                                implies q == i by {
                                if q > i {
                                    assert(!chain_responds(*self, li, i as int, step, *req));
                                }
                            }
                            return PluginOutcome::Respond(resp);
                        }
                    },
                }
            } else {
                assert(named_plugin(self.plugins@, names@[i as int]@) is None);
            }
            assert(!chain_responds(*self, li, i as int, step, *req));
            i = i + 1;
        }
        PluginOutcome::Continue
    }

    /// The request phase: counts the request, then serves the statistics,
    /// the admin console, or finds the location (rewriting the target when
    /// it says so) and runs its request plugins.
    pub fn request_filter(&mut self, req: &RequestInfo, ctx: &mut State) -> (r: RequestAction)
        requires
            server_wf(*old(self)),
        ensures
            server_wf(*final(self)),
            final(self).counters.model() == after_accept(old(self).counters.model()),
            final(self).locations == old(self).locations,
            final(ctx).processing == old(self).counters.processing,
            route_of(*old(self), *req) is Stats <==> r is Stats,
            route_of(*old(self), *req) is Unauthorized <==> r is Unauthorized,
            route_of(*old(self), *req) is Admin ==> r is Admin && r->Admin_uri is None,
            route_of(*old(self), *req) is AdminPath ==> r is Admin && r->Admin_uri is Some
                && r->Admin_uri->Some_0@ == with_query(char_substring(req.path@, old(self).admin_path->Some_0@.len() as int, req.path@.len() as int), req.query),
            route_of(*old(self), *req) is NotFound <==> (r is Fail && r->Fail_status == 500),
            route_of(*old(self), *req) is NotFound ==> r->Fail_message@ == not_found_message(*req),
            r is Stats ==> final(ctx).status == Some(200u16),
            !(r is Stats) ==> final(ctx).status == old(ctx).status,
            !(r is Proxy) ==> final(ctx).location_index == old(ctx).location_index,
            route_of(*old(self), *req) is Location && chain_passes(*old(self), route_of(*old(self), *req)->Location_0, PluginStep::Request, *req) ==> r is Proxy,
            r is Respond ==> route_of(*old(self), *req) is Location && exists|k: int| 0 <= k < (*old(self)).locations@[route_of(*old(self), *req)->Location_0].plugins@.len()
                && #[trigger] chain_responds(*old(self), route_of(*old(self), *req)->Location_0, k, PluginStep::Request, *req)
                && (r->Respond_0.status, r->Respond_0.body@) == chain_response(*old(self), route_of(*old(self), *req)->Location_0, k, *req)
                && forall|j: int| 0 <= j < k ==> !#[trigger] chain_responds(*old(self), route_of(*old(self), *req)->Location_0, j, PluginStep::Request, *req),
            r is Fail && r->Fail_status == 429 ==> route_of(*old(self), *req) is Location && exists|k: int| 0 <= k < (*old(self)).locations@[route_of(*old(self), *req)->Location_0].plugins@.len()
                && #[trigger] chain_limits(*old(self), route_of(*old(self), *req)->Location_0, k, PluginStep::Request),
            r is Proxy ==> route_of(*old(self), *req) is Location && r->Proxy_location_index as int == route_of(*old(self), *req)->Location_0
                && final(ctx).location_index == Some(r->Proxy_location_index),
            r is Proxy ==> (r->Proxy_uri is Some <==> old(self).locations@[r->Proxy_location_index as int].rewrite is Some),
            r is Fail ==> r->Fail_status == 500 || r->Fail_status == 429,
            r is Proxy && r->Proxy_uri is Some ==> r->Proxy_uri->Some_0@ == with_query(
                crate::location::regex_replaced(old(self).locations@[r->Proxy_location_index as int].rewrite->Some_0.0@, req.path@,
                    old(self).locations@[r->Proxy_location_index as int].rewrite->Some_0.1@), req.query),
    {
        let r = self.decide(req, ctx);
        ctx.processing = self.counters.on_accept();
        r
    }

    /// The decisions of the request phase after the request is counted.
    #[verifier::rlimit(50)]
    fn decide(&self, req: &RequestInfo, ctx: &mut State) -> (r: RequestAction)
        requires
            server_wf(*self),
        ensures
            final(ctx).processing == old(ctx).processing,
            route_of(*self, *req) is Stats <==> r is Stats,
            route_of(*self, *req) is Unauthorized <==> r is Unauthorized,
            route_of(*self, *req) is Admin ==> r is Admin && r->Admin_uri is None,
            route_of(*self, *req) is AdminPath ==> r is Admin && r->Admin_uri is Some
                && r->Admin_uri->Some_0@ == with_query(char_substring(req.path@, self.admin_path->Some_0@.len() as int, req.path@.len() as int), req.query),
            route_of(*self, *req) is NotFound <==> (r is Fail && r->Fail_status == 500),
            route_of(*self, *req) is NotFound ==> r->Fail_message@ == not_found_message(*req),
            r is Stats ==> final(ctx).status == Some(200u16),
            !(r is Stats) ==> final(ctx).status == old(ctx).status,
            !(r is Proxy) ==> final(ctx).location_index == old(ctx).location_index,
            route_of(*self, *req) is Location && chain_passes(*self, route_of(*self, *req)->Location_0, PluginStep::Request, *req) ==> r is Proxy,
            r is Respond ==> route_of(*self, *req) is Location && exists|k: int| 0 <= k < (*self).locations@[route_of(*self, *req)->Location_0].plugins@.len()
                && #[trigger] chain_responds(*self, route_of(*self, *req)->Location_0, k, PluginStep::Request, *req)
                && (r->Respond_0.status, r->Respond_0.body@) == chain_response(*self, route_of(*self, *req)->Location_0, k, *req)
                && forall|j: int| 0 <= j < k ==> !#[trigger] chain_responds(*self, route_of(*self, *req)->Location_0, j, PluginStep::Request, *req),
            r is Fail && r->Fail_status == 429 ==> route_of(*self, *req) is Location && exists|k: int| 0 <= k < (*self).locations@[route_of(*self, *req)->Location_0].plugins@.len()
                && #[trigger] chain_limits(*self, route_of(*self, *req)->Location_0, k, PluginStep::Request),
            r is Proxy ==> route_of(*self, *req) is Location && r->Proxy_location_index as int == route_of(*self, *req)->Location_0
                && final(ctx).location_index == Some(r->Proxy_location_index),
            r is Proxy ==> (r->Proxy_uri is Some <==> self.locations@[r->Proxy_location_index as int].rewrite is Some),
            r is Fail ==> r->Fail_status == 500 || r->Fail_status == 429,
            r is Proxy && r->Proxy_uri is Some ==> r->Proxy_uri->Some_0@ == with_query(
                crate::location::regex_replaced(self.locations@[r->Proxy_location_index as int].rewrite->Some_0.0@, req.path@,
                    self.locations@[r->Proxy_location_index as int].rewrite->Some_0.1@), req.query),
    {
        if let Some(sp) = &self.stats_path {
            if keys_equal(sp.as_str(), req.path.as_str()) {
                ctx.status = Some(200);
                return RequestAction::Stats;
            }
        }
        if self.admin {
            if !self.auth_validate(&req.headers) {
                return RequestAction::Unauthorized;
            }
            return RequestAction::Admin { uri: None };
        }
        if let Some(ap) = &self.admin_path {
            if prefix_of(req.path.as_str(), ap.as_str()) {
                if !self.auth_validate(&req.headers) {
                    return RequestAction::Unauthorized;
                }
                let mut uri = substring(req.path.as_str(), ap.as_str().unicode_len(), req.path.as_str().unicode_len());
                push_query(&mut uri, &req.query);
                return RequestAction::Admin { uri: Some(uri) };
            }
        }
        let idx = match self.find_location(req.host.as_str(), req.path.as_str()) {
            Some(i) => i,
            None => {
                let mut message = String::from_str("Location not found, host:");
                push_str(&mut message, req.host.as_str());
                push_str(&mut message, " path:");
                push_str(&mut message, req.path.as_str());
                return RequestAction::Fail { status: 500, message };
            },
        };
        let uri = match self.locations[idx].rewrite(req.path.as_str()) {
            Some(p) => {
                let mut p = p;
                push_query(&mut p, &req.query);
                Some(p)
            },
            None => None,
        };
        match self.exec_plugins(idx, PluginStep::Request, req, ctx) {
            PluginOutcome::Continue => {},
            PluginOutcome::Respond(resp) => {
                assert(route_of(*self, *req)->Location_0 == idx as int);
                return RequestAction::Respond(resp);
            },
            PluginOutcome::Fail { status, message } => {
                assert(route_of(*self, *req)->Location_0 == idx as int);
                return RequestAction::Fail { status, message };
            },
        }
        ctx.location_index = Some(idx);
        RequestAction::Proxy { location_index: idx, uri }
    }

    /// The answer when the location's upstream has no backend to offer.
    pub fn no_upstream(&self, location_index: usize) -> (r: (u16, String))
        requires
            location_index < self.locations@.len(),
        ensures
            r.0 == 503,
            r.1@ == "No available upstream("@ + self.locations@[location_index as int].upstream_name@ + ")"@,
    {
        let mut m = String::from_str("No available upstream(");
        push_str(&mut m, self.locations[location_index].upstream_name.as_str());
        push_str(&mut m, ")");
        (503, m)
    }

    /// Records the connection to the upstream.
    pub fn connected_to_upstream(&self, ctx: &mut State, reused: bool, address: String)
        ensures
            final(ctx).reused == reused,
            final(ctx).upstream_address@ == address@,
            final(ctx).location_index == old(ctx).location_index,
            final(ctx).status == old(ctx).status,
    {
        ctx.reused = reused;
        ctx.upstream_address = address;
    }

    /// The headers to set on the request to the upstream: the client address
    /// appended to `X-Forwarded-For`, then the location's request headers.
    pub fn upstream_request_headers(&self, req: &RequestInfo, ctx: &State) -> (r: Vec<(String, String)>)
        ensures
            pairs_view(r@) == forwarded_pair(*req) + location_headers(self.locations@, ctx.location_index, true),
    {
        let mut r: Vec<(String, String)> = Vec::new();
        if let Some(addr) = &req.remote_ip {
            let prev = get_req_header_value(&req.headers, "X-Forwarded-For");
            assert((match prev {
                Some(p) => Some(p@),
                None => None,
            }) == header_value(req.headers@, "X-Forwarded-For"@));
            r.push((String::from_str("X-Forwarded-For"), forwarded_value(&prev, addr.as_str())));
        }
        assert(pairs_view(r@) =~= forwarded_pair(*req));
        append_location_headers(&mut r, &self.locations, ctx.location_index, true);
        r
    }

    /// Takes the upstream's status when none is recorded yet, and returns
    /// the headers the location adds to the response.
    pub fn upstream_response_filter(&self, ctx: &mut State, status: u16) -> (r: Vec<(String, String)>)
        ensures
            final(ctx).status == if old(ctx).status is None { Some(status) } else { old(ctx).status },
            final(ctx).location_index == old(ctx).location_index,
            pairs_view(r@) == location_headers(self.locations@, old(ctx).location_index, false),
    {
        if ctx.status.is_none() {
            ctx.status = Some(status);
        }
        let mut r: Vec<(String, String)> = Vec::new();
        append_location_headers(&mut r, &self.locations, ctx.location_index, false);
        assert(pairs_view(r@) =~= location_headers(self.locations@, old(ctx).location_index, false));
        r
    }

    /// Counts a chunk of the response body; the count stops at its maximum.
    pub fn upstream_response_body_filter(&self, ctx: &mut State, chunk_len: usize)
        ensures
            final(ctx).response_body_size as int == if old(ctx).response_body_size + chunk_len > usize::MAX {
                usize::MAX as int
            } else {
                old(ctx).response_body_size + chunk_len
            },
            final(ctx).status == old(ctx).status,
    {
        ctx.response_body_size = ctx.response_body_size.saturating_add(chunk_len);
    }

    /// The error response for a failed request: its status, and the error
    /// page with the version and the message filled in.
    pub fn fail_to_proxy(&self, e: &ProxyError, ctx: &mut State) -> (r: (u16, String))
        ensures
            r.0 == error_status(e.kind, e.source),
            r.1@ == error_page(self.error_template@, e.message@),
            final(ctx).status == Some(r.0),
            final(ctx).response_body_size == vstd::utf8::encode_utf8(r.1@).len() as usize,
    {
        let code = error_code(e.kind, e.source);
        proof {
            reveal_strlit("{{version}}");
            reveal_strlit("{{content}}");
        }
        let page = replace(self.error_template.as_str(), "{{version}}", PKG_VERSION);
        let body = replace(page.as_str(), "{{content}}", e.message.as_str());
        ctx.status = Some(code);
        ctx.response_body_size = body.as_str().len();
        (code, body)
    }

    /// The request is done: it no longer counts as in flight, and its
    /// status is the written one when none was recorded.
    pub fn logging(&mut self, ctx: &mut State, written_status: Option<u16>)
        ensures
            final(self).counters.model() == after_complete(old(self).counters.model()),
            final(self).locations == old(self).locations,
            final(self).upstreams == old(self).upstreams,
            final(self).plugins == old(self).plugins,
            final(ctx).status == if old(ctx).status is None { written_status } else { old(ctx).status },
    {
        self.counters.on_complete();
        if ctx.status.is_none() {
            ctx.status = written_status;
        }
    }

    /// The statistics of the server, with the host name and the resident
    /// memory in bytes that the caller measured.
    pub fn stats(&self, hostname: String, physical_mem: usize) -> (r: ServerStats)
        ensures
            r.accepted == self.counters.accepted,
            r.processing == self.counters.processing,
            r.hostname@ == hostname@,
            r.physical_mem_mb == physical_mem / MEGABYTE,
            r.physical_mem@ == human_size(physical_mem as u64),
    {
        ServerStats {
            processing: self.counters.processing,
            accepted: self.counters.accepted,
            hostname,
            physical_mem_mb: physical_mem / MEGABYTE,
            physical_mem: human_bytes(physical_mem as u64),
        }
    }
}

/// The `X-Forwarded-For` pair set on the upstream request, when the
/// client's address is known.
pub open spec fn forwarded_pair(req: RequestInfo) -> Seq<(Seq<char>, Seq<char>)> {
    match req.remote_ip {
        Some(ip) => seq![("X-Forwarded-For"@, forwarded_for(header_value(req.headers@, "X-Forwarded-For"@), ip@))],
        None => Seq::empty(),
    }
}

/// The headers a location adds: to the upstream request (`proxy`), or to
/// the response; none without a valid location.
pub open spec fn location_headers(locs: Seq<Location>, index: Option<usize>, proxy: bool) -> Seq<(Seq<char>, Seq<char>)> {
    match index {
        Some(i) => if i < locs.len() {
            if proxy {
                pairs_view(locs[i as int].proxy_add_headers@)
            } else {
                pairs_view(locs[i as int].add_headers@)
            }
        } else {
            Seq::empty()
        },
        None => Seq::empty(),
    }
}

fn append_location_headers(r: &mut Vec<(String, String)>, locs: &Vec<Location>, index: Option<usize>, proxy: bool)
    ensures
        pairs_view(final(r)@) == pairs_view(old(r)@) + location_headers(locs@, index, proxy),
{
    let ghost start = pairs_view(r@);
    if let Some(i) = index {
        if i < locs.len() {
            let hs = if proxy {
                &locs[i].proxy_add_headers
            } else {
                &locs[i].add_headers
            };
            let mut k: usize = 0;
            while k < hs.len()
                invariant
                    k <= hs@.len(),
                    pairs_view(r@) == start + pairs_view(hs@.subrange(0, k as int)),
                decreases hs@.len() - k,
            {
                let ghost before_r = r@;
                r.push((hs[k].0.clone(), hs[k].1.clone()));
                assert(pairs_view(r@) =~= pairs_view(before_r).push((hs@[k as int].0@, hs@[k as int].1@)));
                k = k + 1;
                assert(pairs_view(hs@.subrange(0, k as int)) =~= pairs_view(hs@.subrange(0, k - 1)).push((hs@[k - 1].0@, hs@[k - 1].1@)));
                assert(pairs_view(r@) =~= start + pairs_view(hs@.subrange(0, k as int)));
            }
            assert(hs@.subrange(0, hs@.len() as int) =~= hs@);
            return;
        }
    }
    assert(pairs_view(r@) =~= start + location_headers(locs@, index, proxy));
}

/// `X-Forwarded-For` with the client appended: `prev, client`, or the
/// client alone.
pub open spec fn forwarded_for(prev: Option<Seq<char>>, client: Seq<char>) -> Seq<char> {
    match prev {
        Some(p) => p + ", "@ + client,
        None => client,
    }
}

fn forwarded_value(prev: &Option<String>, client: &str) -> (r: String)
    ensures
        r@ == forwarded_for(match prev {
            Some(p) => Some(p@),
            None => None,
        }, client@),
{
    match prev {
        Some(p) => {
            let mut v = p.clone();
            push_str(&mut v, ", ");
            push_str(&mut v, client);
            v
        },
        None => client.to_string(),
    }
}

/// Every location names one of the upstreams listed in `names`.
pub open spec fn locations_ok_by_name(locs: Seq<(String, LocationConf)>, names: Seq<Seq<char>>) -> bool {
    forall|j: int| 0 <= j < locs.len() ==> {
        &&& names.contains(#[trigger] locs[j].1.upstream@)
        &&& (match locs[j].1.path {
            Some(p) => crate::location::selector_of(p@).2 == 2 ==> crate::location::regex_compiles(crate::location::selector_of(p@).1),
            None => true,
        })
        &&& (match locs[j].1.rewrite {
            Some(rw) => crate::location::regex_compiles(crate::location::split_first(rw@, ' ').0),
            None => true,
        })
    }
}

proof fn lemma_location_ok_by_name(c: LocationConf, ups: Seq<Upstream>, names: Seq<Seq<char>>)
    requires
        upstream_names(ups) == names,
    ensures
        location_conf_ok(c, ups) <==> (names.contains(c.upstream@) && (match c.path {
            Some(p) => crate::location::selector_of(p@).2 == 2 ==> crate::location::regex_compiles(crate::location::selector_of(p@).1),
            None => true,
        }) && (match c.rewrite {
            Some(rw) => crate::location::regex_compiles(crate::location::split_first(rw@, ' ').0),
            None => true,
        })),
{
    let n = c.upstream@;
    if exists|i: int| 0 <= i < ups.len() && #[trigger] ups[i].name@ == n {
        let i = choose|i: int| 0 <= i < ups.len() && #[trigger] ups[i].name@ == n;
        assert(names[i] == ups[i].name@);
    }
    if names.contains(n) {
        let i = choose|i: int| 0 <= i < names.len() && names[i] == n;
        assert(ups[i].name@ == names[i]);
    }
}

proof fn lemma_locations_ok_by_name(locs: Seq<(String, LocationConf)>, ups: Seq<Upstream>, names: Seq<Seq<char>>)
    requires
        upstream_names(ups) == names,
    ensures
        locations_ok(locs, ups) <==> locations_ok_by_name(locs, names),
{
    if locations_ok(locs, ups) {
        assert forall|j: int| 0 <= j < locs.len() implies names.contains(#[trigger] locs[j].1.upstream@) && (match locs[j].1.path {
            Some(p) => crate::location::selector_of(p@).2 == 2 ==> crate::location::regex_compiles(crate::location::selector_of(p@).1),
            None => true,
        }) && (match locs[j].1.rewrite {
            Some(rw) => crate::location::regex_compiles(crate::location::split_first(rw@, ' ').0),
            None => true,
        }) by {
            assert(location_conf_ok(locs[j].1, ups));
            lemma_location_ok_by_name(locs[j].1, ups, names);
        }
    }
    if locations_ok_by_name(locs, names) {
        assert forall|j: int| 0 <= j < locs.len() implies location_conf_ok(#[trigger] locs[j].1, ups) by {
            assert(names.contains(locs[j].1.upstream@));
            lemma_location_ok_by_name(locs[j].1, ups, names);
        }
    }
}

} // verus!

verus! {

/// Whether an upstream's policy keeps state that a background task refreshes.
pub open spec fn refreshes(p: Policy) -> bool {
    p == Policy::RoundRobin || p == Policy::Consistent
}

/// The names of the background refresh tasks: `BG <upstream>` for each
/// location, in order, whose upstream's policy keeps state.
pub open spec fn background_names(locs: Seq<Location>, ups: Seq<Upstream>) -> Seq<Seq<char>>
    decreases locs.len(),
{
    if locs.len() == 0 {
        Seq::empty()
    } else {
        let rest = background_names(locs.drop_last(), ups);
        let u = locs.last().upstream as int;
        if 0 <= u < ups.len() && refreshes(ups[u].policy) {
            rest.push("BG "@ + ups[u].name@)
        } else {
            rest
        }
    }
}

/// What serving a server takes: its listener (TLS with HTTP/2 when it has
/// a certificate, else TCP), its worker threads, and its background tasks.
pub struct ServicePlan {
    pub addr: String,
    pub tls: bool,
    pub http2: bool,
    pub threads: Option<usize>,
    pub tls_cert: Option<Vec<u8>>,
    pub tls_key: Option<Vec<u8>>,
    pub background: Vec<String>,
}

fn copy_bytes(v: &Option<Vec<u8>>) -> (r: Option<Vec<u8>>)
    ensures
        crate::settings::opt_bytes(r) == crate::settings::opt_bytes(*v),
{
    match v {
        Some(b) => {
            let mut c: Vec<u8> = Vec::new();
            crate::bytes_util::extend_from(&mut c, b.as_slice());
            Some(c)
        },
        None => None,
    }
}

impl Server {
    /// The plan for serving this server.
    pub fn service_plan(&self) -> (r: ServicePlan)
        requires
            server_wf(*self),
        ensures
            r.addr@ == self.addr@,
            r.tls == (self.tls_cert is Some),
            r.http2 == r.tls,
            r.threads == self.threads,
            crate::settings::opt_bytes(r.tls_cert) == crate::settings::opt_bytes(self.tls_cert),
            crate::settings::opt_bytes(r.tls_key) == crate::settings::opt_bytes(self.tls_key),
            r.background@.map_values(|n: String| n@) == background_names(self.locations@, self.upstreams@),
    {
        let mut background: Vec<String> = Vec::new();
        let mut i: usize = 0;
        while i < self.locations.len()
            invariant
                i <= self.locations@.len(),
                server_wf(*self),
                background@.map_values(|n: String| n@) == background_names(self.locations@.subrange(0, i as int), self.upstreams@),
            decreases self.locations@.len() - i,
        {
            let ghost pre = self.locations@.subrange(0, i as int);
            assert(self.locations@.subrange(0, i + 1).drop_last() =~= pre);
            let u = self.locations[i].upstream;
            let ghost before = background@;
            if u < self.upstreams.len() && (self.upstreams[u].policy == Policy::RoundRobin || self.upstreams[u].policy == Policy::Consistent) {
                let mut name = String::from_str("BG ");
                push_str(&mut name, self.upstreams[u].name.as_str());
                background.push(name);
                assert(background@.map_values(|n: String| n@) =~= before.map_values(|n: String| n@).push("BG "@ + self.upstreams@[u as int].name@));
            } else {
                assert(background@.map_values(|n: String| n@) =~= before.map_values(|n: String| n@));
            }
            i = i + 1;
        }
        assert(self.locations@.subrange(0, self.locations@.len() as int) =~= self.locations@);
        ServicePlan {
            addr: self.addr.clone(),
            tls: self.tls_cert.is_some(),
            http2: self.tls_cert.is_some(),
            threads: self.threads,
            tls_cert: copy_bytes(&self.tls_cert),
            tls_key: copy_bytes(&self.tls_key),
            background,
        }
    }
}

} // verus!
