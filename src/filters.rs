use vstd::prelude::*;
use crate::discovery::IpAddress;
use crate::plugin::{PluginConf, PluginStep, PluginCategory, PluginError, HttpResponse, conf_str, conf_list, step_of, request_step, get_step_conf, get_str_conf, get_str_slice_conf, category_name};
use crate::request::{RequestInfo, header_value, get_req_header_value};
use crate::text::{push_str, push_dec, dec};
use wirefilter::{ExecutionContext, LhsValue, Scheme, Type};

verus! {

/// The body of the default forbidden response.
pub const DEFAULT_FORBIDDEN_MESSAGE: &'static str = "Ha ha ha... Request is forbidden";

/// Status of a forbidden response.
pub const FORBIDDEN: u16 = 403;

/// One numbered line of the header listing: `k. name = value<br>`.
pub open spec fn header_line(h: (String, String), k: nat) -> Seq<char> {
    dec(k) + ". "@ + h.0@ + " = "@ + h.1@ + "<br>"@
}

/// The headers listed one per line, numbered from 1.
pub open spec fn header_lines(hs: Seq<(String, String)>) -> Seq<char>
    decreases hs.len(),
{
    if hs.len() == 0 {
        Seq::empty()
    } else {
        header_lines(hs.drop_last()) + header_line(hs.last(), hs.len())
    }
}

/// The uri and the headers of a request, as HTML lines.
pub open spec fn request_listing(req: RequestInfo) -> Seq<char> {
    "0. uri = "@ + req.uri@ + "<br>"@ + header_lines(req.headers@)
}

fn push_listing(m: &mut String, req: &RequestInfo)
    ensures
        final(m)@ == old(m)@ + request_listing(*req),
{
    push_str(m, "0. uri = ");
    push_str(m, req.uri.as_str());
    push_str(m, "<br>");
    let ghost base = m@;
    let mut i: usize = 0;
    while i < req.headers.len()
        invariant
            i <= req.headers@.len(),
            m@ == base + header_lines(req.headers@.subrange(0, i as int)),
        decreases req.headers@.len() - i,
    {
        let ghost prev = m@;
        push_dec(m, (i + 1) as u64);
        push_str(m, ". ");
        push_str(m, req.headers[i].0.as_str());
        push_str(m, " = ");
        push_str(m, req.headers[i].1.as_str());
        push_str(m, "<br>");
        let ghost hs = req.headers@.subrange(0, i + 1);
        assert(hs.drop_last() =~= req.headers@.subrange(0, i as int));
        assert(m@ =~= prev + header_line(req.headers@[i as int], (i + 1) as nat));
        i = i + 1;
    }
    assert(req.headers@.subrange(0, req.headers@.len() as int) =~= req.headers@);
    assert(m@ =~= old(m)@ + request_listing(*req));
}

/// The page the OWASP plugin answers with.
pub open spec fn owasp_page(req: RequestInfo) -> Seq<char> {
    "<html><head></head><body><h1>Rezquest Headers</h1>"@ + request_listing(req) + "</body></html>"@
}

/// The page the expression filter answers with.
pub open spec fn wirefilter_page(req: RequestInfo) -> Seq<char> {
    "<html><head><title>Wire</title></head><body><h1>Request forbidden - false</h1>"@ + request_listing(req) + "</body></html>"@
}

/// The forbidden message of a configuration: its `message`, or the default.
pub open spec fn forbidden_message(conf: PluginConf) -> Seq<char> {
    let m = conf_str(conf.values@, "message"@);
    if m.len() == 0 {
        DEFAULT_FORBIDDEN_MESSAGE@
    } else {
        m
    }
}

fn message_conf(conf: &PluginConf) -> (r: String)
    ensures
        r@ == forbidden_message(*conf),
{
    let m = get_str_conf(conf, "message");
    if m.as_str().unicode_len() == 0 {
        String::from_str(DEFAULT_FORBIDDEN_MESSAGE)
    } else {
        m
    }
}

/// A web application firewall that refuses every request of its step and
/// answers with a page listing the request.
pub struct OwaspCrsPlugin {
    pub plugin_step: PluginStep,
    pub forbidden_resp: HttpResponse,
}

impl OwaspCrsPlugin {
    /// Reads the step (which must be the request or the proxy-upstream step)
    /// and the forbidden message.
    pub fn new(params: &PluginConf) -> (r: Result<OwaspCrsPlugin, PluginError>)
        ensures
            r is Ok <==> request_step(step_of(conf_str(params.values@, "step"@))),
            r is Ok ==> r->Ok_0.plugin_step == step_of(conf_str(params.values@, "step"@))
                && r->Ok_0.forbidden_resp.status == FORBIDDEN && r->Ok_0.forbidden_resp.body@ == forbidden_message(*params),
            r is Err ==> r->Err_0->Invalid_category@ == category_name(PluginCategory::OwaspCrsPlugin),
    {
        let step = get_step_conf(params);
        let message = message_conf(params);
        if step != PluginStep::Request && step != PluginStep::ProxyUpstream {
            return Err(PluginError::Invalid {
                category: String::from_str(PluginCategory::OwaspCrsPlugin.as_str()),
                message: String::from_str("Owasp crs plugin should be executed at request or proxy upstream step"),
            });
        }
        Ok(OwaspCrsPlugin {
            plugin_step: step,
            forbidden_resp: HttpResponse { status: FORBIDDEN, body: message, headers: Vec::new() },
        })
    }

    pub fn step(&self) -> (r: PluginStep)
        ensures
            r == self.plugin_step,
    {
        self.plugin_step
    }

    pub fn category(&self) -> (r: PluginCategory)
        ensures
            r == PluginCategory::OwaspCrsPlugin,
    {
        PluginCategory::OwaspCrsPlugin
    }

    /// In its own step, refuses the request with a page that lists it.
    pub fn handle_request(&self, step: PluginStep, req: &RequestInfo) -> (r: Option<HttpResponse>)
        ensures
            step != self.plugin_step ==> r is None,
            step == self.plugin_step ==> r is Some && r->Some_0.status == self.forbidden_resp.status
                && r->Some_0.body@ == owasp_page(*req),
    {
        if step != self.plugin_step {
            return None;
        }
        let mut m = String::from_str("<html><head></head><body><h1>Rezquest Headers</h1>");
        push_listing(&mut m, req);
        push_str(&mut m, "</body></html>");
        Some(HttpResponse { status: self.forbidden_resp.status, body: m, headers: Vec::new() })
    }
}

#[verifier::external_type_specification]
#[verifier::external_body]
pub struct ExScheme(Scheme);

/// Relies on wirefilter's `Scheme::add_field`: builds the request scheme,
/// whose fields are fixed; no field is named twice, so every call succeeds.
#[verifier::external_body]
fn request_scheme() -> Scheme {
    let mut s = Scheme::new();
    for name in BYTES_FIELDS.iter() {
        let _ = s.add_field(name.to_string(), Type::Bytes);
    }
    let _ = s.add_field("ip.src".to_string(), Type::Ip);
    let _ = s.add_field("ip.geoip.asnum".to_string(), Type::Int);
    let _ = s.add_field("ssl".to_string(), Type::Bool);
    s
}

/// The text fields of the request scheme, in the order their values are given.
pub const BYTES_FIELDS: [&'static str; 11] = [
    "http.cookie",
    "http.host",
    "http.referer",
    "http.request.full_uri",
    "http.request.method",
    "http.request.uri",
    "http.request.uri.path",
    "http.request.uri.query",
    "http.user_agent",
    "http.x_forwarded_for",
    "ip.geoip.country",
];

/// What parsing an expression against the request scheme reports: nothing
/// when it parses, else the parser's message.
pub uninterp spec fn expression_error(expr: Seq<char>) -> Option<Seq<char>>;

/// Whether a parsed expression matches a request with these field values:
/// the text fields in the order of `BYTES_FIELDS`, the client address as
/// its bytes, the AS number and whether the request used TLS.
pub uninterp spec fn expression_matches(expr: Seq<char>, texts: Seq<Seq<char>>, ip: Seq<u8>, asnum: i32, ssl: bool) -> bool;

/// Relies on wirefilter's `Scheme::parse` and the parse error's text.
#[verifier::external_body]
fn parse_expression(expr: &str) -> (r: Option<String>)
    ensures
        r is None <==> expression_error(expr@) is None,
        r is Some ==> r->Some_0@ == expression_error(expr@)->Some_0,
{
    match request_scheme().parse(expr) {
        Ok(_) => None,
        Err(e) => Some(e.to_string()),
    }
}

/// Relies on wirefilter's `FilterAst::compile` and `Filter::execute`, with
/// every field of the scheme given a value, so execution cannot fail.
#[verifier::external_body]
fn run_expression(expr: &str, texts: &Vec<String>, ip: &Vec<u8>, asnum: i32, ssl: bool) -> (r: bool)
    requires
        expression_error(expr@) is None,
        texts@.len() == 11,
        ip@.len() == 4 || ip@.len() == 16,
    ensures
        r == expression_matches(expr@, texts@.map_values(|t: String| t@), ip@, asnum, ssl),
{
    let scheme = request_scheme();
    let filter = scheme.parse(expr).unwrap().compile();
    let mut ctx = ExecutionContext::new(&scheme);
    for (name, value) in BYTES_FIELDS.iter().zip(texts.iter()) {
        ctx.set_field_value(name, value.as_str()).ok();
    }
    let addr = match <[u8; 4]>::try_from(ip.as_slice()) {
        Ok(v4) => LhsValue::Ip(v4.into()),
        Err(_) => LhsValue::Ip(<[u8; 16]>::try_from(ip.as_slice()).unwrap().into()),
    };
    ctx.set_field_value("ip.src", addr).ok();
    ctx.set_field_value("ip.geoip.asnum", asnum).ok();
    ctx.set_field_value("ssl", ssl).ok();
    filter.execute(&ctx).unwrap_or(false)
}



/// The first expression of `exps` that does not parse, with its message.
pub open spec fn first_bad_expression(exps: Seq<String>) -> Option<Seq<char>>
    decreases exps.len(),
{
    if exps.len() == 0 {
        None
    } else {
        match expression_error(exps[0]@) {
            Some(m) => Some(m),
            None => first_bad_expression(exps.subrange(1, exps.len() as int)),
        }
    }
}

/// A request filter that refuses requests matched by any of its
/// Wireshark-style expressions.
pub struct WirefilterPlugin {
    pub plugin_step: PluginStep,
    pub restriction_expression_list: Vec<String>,
    pub forbidden_resp: HttpResponse,
}

pub open spec fn all_parse(exps: Seq<String>) -> bool {
    forall|i: int| 0 <= i < exps.len() ==> expression_error(#[trigger] exps[i]@) is None
}

proof fn lemma_first_bad(exps: Seq<String>, i: int)
    requires
        0 <= i <= exps.len(),
        forall|k: int| 0 <= k < i ==> expression_error(#[trigger] exps[k]@) is None,
    ensures
        first_bad_expression(exps) == first_bad_expression(exps.subrange(i, exps.len() as int)),
    decreases i,
{
    if i > 0 {
        let t = exps.subrange(1, exps.len() as int);
        assert(expression_error(exps[0]@) is None);
        assert forall|k: int| 0 <= k < i - 1 implies expression_error(#[trigger] t[k]@) is None by {
            assert(t[k] == exps[k + 1]);
        }
        lemma_first_bad(t, i - 1);
        assert(t.subrange(i - 1, t.len() as int) =~= exps.subrange(i, exps.len() as int));
    } else {
        assert(exps.subrange(0, exps.len() as int) =~= exps);
    }
}

/// The values a request gives the text fields of the scheme.
pub open spec fn header_text(req: RequestInfo, name: Seq<char>) -> Seq<char> {
    match header_value(req.headers@, name) {
        Some(v) => v,
        None => Seq::<char>::empty(),
    }
}

/// The values a request gives the text fields of the scheme.
pub open spec fn request_texts(req: RequestInfo) -> Seq<Seq<char>> {
    seq![
        header_text(req, "Cookie"@),
        req.host@,
        header_text(req, "Referer"@),
        req.uri@,
        req.method@,
        req.uri@,
        req.path@,
        match req.query {
            Some(q) => q@,
            None => Seq::<char>::empty(),
        },
        header_text(req, "User-Agent"@),
        header_text(req, "X-Forwarded-For"@),
        Seq::<char>::empty(),
    ]
}

/// The bytes of an address: four for IPv4, sixteen for IPv6.
pub open spec fn ip_bytes(ip: IpAddress) -> Seq<u8> {
    match ip {
        IpAddress::V4(v) => seq![(v >> 24u32) as u8, (v >> 16u32) as u8, (v >> 8u32) as u8, v as u8],
        IpAddress::V6(v) => Seq::new(16, |i: int| (v >> ((15 - i) * 8) as u128) as u8),
    }
}

/// The client address the filter sees: the peer, or 0.0.0.0 when unknown.
pub open spec fn filter_ip(req: RequestInfo) -> Seq<u8> {
    match req.client_addr {
        Some(a) => ip_bytes(a),
        None => ip_bytes(IpAddress::V4(0)),
    }
}

/// Whether any expression matches the request.
pub open spec fn any_matches(exps: Seq<String>, req: RequestInfo) -> bool {
    exists|i: int| 0 <= i < exps.len() && #[trigger] expression_matches(exps[i]@, request_texts(req), filter_ip(req), 0, req.tls)
}

fn header_or_empty(req: &RequestInfo, name: &str) -> (r: String)
    ensures
        r@ == header_text(*req, name@),
{
    match get_req_header_value(&req.headers, name) {
        Some(v) => v,
        None => String::new(),
    }
}

fn texts_of(req: &RequestInfo) -> (r: Vec<String>)
    ensures
        r@.map_values(|t: String| t@) == request_texts(*req),
        r@.len() == 11,
{
    let mut r: Vec<String> = Vec::new();
    r.push(header_or_empty(req, "Cookie"));
    r.push(req.host.clone());
    r.push(header_or_empty(req, "Referer"));
    r.push(req.uri.clone());
    r.push(req.method.clone());
    r.push(req.uri.clone());
    r.push(req.path.clone());
    r.push(match &req.query {
        Some(q) => q.clone(),
        None => String::new(),
    });
    r.push(header_or_empty(req, "User-Agent"));
    r.push(header_or_empty(req, "X-Forwarded-For"));
    r.push(String::new());
    let ghost t = request_texts(*req);
    assert(r@[0]@ == t[0] && r@[1]@ == t[1] && r@[2]@ == t[2] && r@[3]@ == t[3]);
    assert(r@[4]@ == t[4] && r@[5]@ == t[5] && r@[6]@ == t[6] && r@[7]@ == t[7]);
    assert(r@[8]@ == t[8] && r@[9]@ == t[9] && r@[10]@ == t[10]);
    assert(r@.map_values(|t: String| t@) =~= request_texts(*req));
    r
}

fn ip_vec(ip: IpAddress) -> (r: Vec<u8>)
    ensures
        r@ == ip_bytes(ip),
{
    match ip {
        IpAddress::V4(v) => {
            let r = vec![(v >> 24u32) as u8, (v >> 16u32) as u8, (v >> 8u32) as u8, v as u8];
            assert(r@ =~= ip_bytes(ip));
            r
        },
        IpAddress::V6(v) => {
            let mut r: Vec<u8> = Vec::new();
            let mut i: u32 = 0;
            while i < 16
                invariant
                    i <= 16,
                    r@.len() == i,
                    forall|k: int| 0 <= k < i ==> r@[k] == (v >> ((15 - k) * 8) as u128) as u8,
                decreases 16 - i,
            {
                r.push((v >> (((15 - i) * 8) as u128)) as u8);
                i = i + 1;
            }
            assert(r@ =~= ip_bytes(ip));
            r
        },
    }
}

impl WirefilterPlugin {
    /// Reads the step (which must be the request or the proxy-upstream
    /// step), the forbidden message and the expressions, each of which must
    /// parse.
    pub fn new(params: &PluginConf) -> (r: Result<WirefilterPlugin, PluginError>)
        ensures
            r is Ok <==> (first_bad_expression(conf_list(params.values@, "restriction_expression_list"@)) is None
                && request_step(step_of(conf_str(params.values@, "step"@)))),
            r is Ok ==> r->Ok_0.plugin_step == step_of(conf_str(params.values@, "step"@))
                && r->Ok_0.forbidden_resp.status == FORBIDDEN && r->Ok_0.forbidden_resp.body@ == forbidden_message(*params)
                && all_parse(r->Ok_0.restriction_expression_list@)
                && r->Ok_0.restriction_expression_list@.map_values(|e: String| e@) == conf_list(params.values@, "restriction_expression_list"@).map_values(|e: String| e@),
            r is Err ==> r->Err_0->Invalid_category@ == category_name(PluginCategory::WirefilterPlugin),
            first_bad_expression(conf_list(params.values@, "restriction_expression_list"@)) is Some ==> r is Err
                && r->Err_0->Invalid_message@ == first_bad_expression(conf_list(params.values@, "restriction_expression_list"@))->Some_0,
    {
        let step = get_step_conf(params);
        let exps = get_str_slice_conf(params, "restriction_expression_list");
        let ghost listed = conf_list(params.values@, "restriction_expression_list"@);
        assert(exps@.map_values(|e: String| e@) =~= listed.map_values(|e: String| e@));
        let mut i: usize = 0;
        while i < exps.len()
            invariant
                i <= exps@.len(),
                exps@.len() == listed.len(),
                listed == conf_list(params.values@, "restriction_expression_list"@),
                forall|k: int| 0 <= k < exps@.len() ==> (#[trigger] exps@[k])@ == listed[k]@,
                forall|k: int| 0 <= k < i ==> expression_error(#[trigger] exps@[k]@) is None,
            decreases exps@.len() - i,
        {
            match parse_expression(exps[i].as_str()) {
                Some(message) => {
                    proof {
                        assert forall|k: int| 0 <= k < i implies expression_error(#[trigger] listed[k]@) is None by {
                            assert(exps@[k]@ == listed[k]@);
                        }
                        lemma_first_bad(listed, i as int);
                        let t = listed.subrange(i as int, listed.len() as int);
                        assert(t[0] == listed[i as int]);
                        assert(t.len() > 0);
                        assert(expression_error(t[0]@) == Some(message@));
                        assert(first_bad_expression(t) == Some(message@));
                        assert(first_bad_expression(listed) == Some(message@));
                    }
                    return Err(PluginError::Invalid {
                        category: String::from_str(PluginCategory::WirefilterPlugin.as_str()),
                        message,
                    });
                },
                None => {},
            }
            i = i + 1;
        }
        proof {
            assert forall|k: int| 0 <= k < listed.len() implies expression_error(#[trigger] listed[k]@) is None by {
                assert(exps@[k]@ == listed[k]@);
            }
            lemma_first_bad(listed, listed.len() as int);
        }
        let message = message_conf(params);
        if step != PluginStep::Request && step != PluginStep::ProxyUpstream {
            return Err(PluginError::Invalid {
                category: String::from_str(PluginCategory::WirefilterPlugin.as_str()),
                message: String::from_str("Wirefilter plugin should be executed at request or proxy upstream step"),
            });
        }
        Ok(WirefilterPlugin {
            plugin_step: step,
            restriction_expression_list: exps,
            forbidden_resp: HttpResponse { status: FORBIDDEN, body: message, headers: Vec::new() },
        })
    }

    pub fn step(&self) -> (r: PluginStep)
        ensures
            r == self.plugin_step,
    {
        self.plugin_step
    }

    pub fn category(&self) -> (r: PluginCategory)
        ensures
            r == PluginCategory::WirefilterPlugin,
    {
        PluginCategory::WirefilterPlugin
    }

    /// Whether any expression matches `req`.
    pub fn matches(&self, req: &RequestInfo) -> (r: bool)
        requires
            all_parse(self.restriction_expression_list@),
        ensures
            r == any_matches(self.restriction_expression_list@, *req),
    {
        let texts = texts_of(req);
        let ip = match req.client_addr {
            Some(a) => ip_vec(a),
            None => ip_vec(IpAddress::V4(0)),
        };
        let exps = &self.restriction_expression_list;
        let mut i: usize = 0;
        while i < exps.len()
            invariant
                i <= exps@.len(),
                *exps == self.restriction_expression_list,
                all_parse(exps@),
                texts@.map_values(|t: String| t@) == request_texts(*req),
                texts@.len() == 11,
                ip@ == filter_ip(*req),
                ip@.len() == 4 || ip@.len() == 16,
                forall|k: int| 0 <= k < i ==> !expression_matches(#[trigger] exps@[k]@, request_texts(*req), filter_ip(*req), 0, req.tls),
            decreases exps@.len() - i,
        {
            assert(expression_error(exps@[i as int]@) is None);
            if run_expression(exps[i].as_str(), &texts, &ip, 0, req.tls) {
                assert(expression_matches(exps@[i as int]@, request_texts(*req), filter_ip(*req), 0, req.tls));
                assert(any_matches(self.restriction_expression_list@, *req));
                return true;
            }
            i = i + 1;
        }
        false
    }

    /// In its own step, refuses a request that an expression matches, with
    /// a page that lists the request.
    pub fn handle_request(&self, step: PluginStep, req: &RequestInfo) -> (r: Option<HttpResponse>)
        requires
            all_parse(self.restriction_expression_list@),
        ensures
            step != self.plugin_step ==> r is None,
            step == self.plugin_step ==> (r is Some <==> any_matches(self.restriction_expression_list@, *req)),
            r is Some ==> r->Some_0.status == self.forbidden_resp.status
                && r->Some_0.body@ == wirefilter_page(*req),
    {
        if step != self.plugin_step {
            return None;
        }
        if !self.matches(req) {
            return None;
        }
        let mut m = String::from_str("<html><head><title>Wire</title></head><body><h1>Request forbidden - false</h1>");
        push_listing(&mut m, req);
        push_str(&mut m, "</body></html>");
        Some(HttpResponse { status: self.forbidden_resp.status, body: m, headers: Vec::new() })
    }
}

} // verus!
