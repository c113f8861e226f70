use vstd::prelude::*;
use crate::parse::{parse_bounded, parse_max};
use crate::plugin::{PluginStep, PluginCategory, request_step};
use crate::request::{RequestInfo, client_ip, cookie_value, header_value, query_value, first_index, find_char, lemma_first_index, get_client_ip, get_cookie_value, get_query_value, get_req_header_value};
use crate::state::State;
use crate::text::dec_signed;
use pingora_limits::inflight::{Guard, Inflight};
use substring::Substring;

verus! {

#[verifier::external_type_specification]
#[verifier::external_body]
pub struct ExInflight(Inflight);

/// Relies on `Inflight::new`, an empty estimator of concurrent counts.
#[verifier::external_body]
fn inflight_new() -> Inflight {
    Inflight::new()
}

/// Relies on `Inflight::incr`: adds one for `key` and returns the estimated
/// count with the guard that takes it back when dropped. The estimate comes
/// from a randomly seeded sketch, so nothing is promised of it.
#[verifier::external_body]
fn inflight_incr(f: &Inflight, key: String) -> (Guard, isize) {
    f.incr(key, 1)
}

/// The characters of `s` from index `start` up to `end`, as the `substring`
/// crate cuts them: indices past the end stop at the end.
pub open spec fn char_substring(s: Seq<char>, start: int, end: int) -> Seq<char> {
    if end <= start {
        Seq::empty()
    } else {
        let a = if start < s.len() { start } else { s.len() as int };
        let b = if end < s.len() { end } else { s.len() as int };
        s.subrange(a, b)
    }
}

/// Relies on `Substring::substring`: the characters from `start` to `end`,
/// both clamped to the length.
#[verifier::external_body]
pub fn substring(s: &str, start: usize, end: usize) -> (r: String)
    ensures
        r@ == char_substring(s@, start as int, end as int),
{
    s.substring(start, end).to_string()
}

/// Which part of a request a limit counts by.
#[derive(Debug, Clone, Copy, PartialEq, Eq, Structural)]
pub enum LimitTag {
    Ip,
    RequestHeader,
    Cookie,
    Query,
}

/// Errors of the limit plugin.
#[derive(Debug)]
pub enum LimitError {
    /// The configuration is malformed; the message holds the part at fault.
    Invalid { message: String },
    /// The maximum is not a number.
    ParseInt { text: String },
    /// More requests are in flight than allowed.
    Exceed { max: i64, value: i64 },
}

pub open spec fn tag_of(c: char) -> LimitTag {
    if c == '~' {
        LimitTag::Cookie
    } else if c == '>' {
        LimitTag::RequestHeader
    } else if c == '?' {
        LimitTag::Query
    } else {
        LimitTag::Ip
    }
}

/// The result of reading a limit configuration `"<prefix><key> <max>"`.
pub enum LimitConf {
    Parsed { tag: LimitTag, value: Seq<char>, max: nat },
    NoSpace,
    BadMax { max_text: Seq<char> },
    ShortKey { key: Seq<char> },
}

/// A key shorter than two bytes in UTF-8: empty, or one ASCII character.
pub open spec fn short_key(key: Seq<char>) -> bool {
    key.len() == 0 || (key.len() == 1 && (key[0] as u32) < 0x80)
}

pub open spec fn limit_conf(s: Seq<char>) -> LimitConf {
    let i = first_index(s, ' ');
    if i >= s.len() {
        LimitConf::NoSpace
    } else {
        let key = s.subrange(0, i);
        let max_text = s.subrange(i + 1, s.len() as int);
        match parse_bounded(max_text, u32::MAX as nat) {
            None => LimitConf::BadMax { max_text },
            Some(max) => if short_key(key) {
                LimitConf::ShortKey { key }
            } else {
                LimitConf::Parsed { tag: tag_of(key[0]), value: key.subrange(1, key.len() as int), max }
            },
        }
    }
}

/// A limit on concurrent requests per cookie, header, query value or client IP.
pub struct Limiter {
    pub tag: LimitTag,
    pub max: i64,
    pub value: String,
    pub inflight: Inflight,
    pub proxy_step: PluginStep,
}

/// The decision on a request whose count, once added, is `value`.
pub open spec fn limit_ok(value: int, max: int) -> bool {
    value <= max
}

/// Refuses a request whose count exceeds the maximum.
pub fn check_limit(value: i64, max: i64) -> (r: Result<(), LimitError>)
    ensures
        r is Ok <==> limit_ok(value as int, max as int),
        r is Err ==> r->Err_0 == (LimitError::Exceed { max, value }),
{
    if value > max {
        Err(LimitError::Exceed { max, value })
    } else {
        Ok(())
    }
}

/// The value a limit counts by for `req`.
pub open spec fn limit_key(tag: LimitTag, name: Seq<char>, req: RequestInfo) -> Seq<char> {
    let v = match tag {
        LimitTag::Query => query_value(req.query, name),
        LimitTag::RequestHeader => header_value(req.headers@, name),
        LimitTag::Cookie => cookie_value(req.headers@, name),
        LimitTag::Ip => Some(client_ip(req)),
    };
    match v {
        Some(k) => k,
        None => Seq::empty(),
    }
}

impl Limiter {
    /// Reads `"<prefix><key> <max>"`: prefix `~` counts by a cookie, `>` by a
    /// request header, `?` by a query parameter, anything else by client IP.
    /// The limit runs in the request or the proxy-upstream step only.
    pub fn new(value: &str, proxy_step: PluginStep) -> (r: Result<Limiter, LimitError>)
        ensures
            match limit_conf(value@) {
                LimitConf::Parsed { tag, value: name, max } => if request_step(proxy_step) {
                    r is Ok && r->Ok_0.tag == tag && r->Ok_0.value@ == name && r->Ok_0.max == max && r->Ok_0.proxy_step == proxy_step
                } else {
                    r is Err && r->Err_0 is Invalid
                },
                LimitConf::NoSpace => r is Err && r->Err_0 is Invalid && r->Err_0->Invalid_message@ == value@,
                LimitConf::BadMax { max_text } => r is Err && r->Err_0 is ParseInt && r->Err_0->ParseInt_text@ == max_text,
                LimitConf::ShortKey { key } => r is Err && r->Err_0 is Invalid && r->Err_0->Invalid_message@ == key,
            },
    {
        let n = value.unicode_len();
        let i = find_char(value, ' ', 0);
        proof {
            lemma_first_index(value@, ' ', i as int);
        }
        if i == n {
            return Err(LimitError::Invalid { message: value.to_string() });
        }
        let key = value.substring_char(0, i);
        let max_text = value.substring_char(i + 1, n);
        let max = match parse_max(max_text, u32::MAX as u64) {
            Some(m) => m,
            None => {
                return Err(LimitError::ParseInt { text: max_text.to_string() });
            },
        };
        let kn = key.unicode_len();
        if kn == 0 || (kn == 1 && (key.get_char(0) as u32) < 0x80) {
            return Err(LimitError::Invalid { message: key.to_string() });
        }
        if proxy_step != PluginStep::Request && proxy_step != PluginStep::ProxyUpstream {
            return Err(LimitError::Invalid {
                message: String::from_str("Limit plugin should be executed at request or proxy upstream step"),
            });
        }
        let ch = key.get_char(0);
        let tag = if ch == '~' {
            LimitTag::Cookie
        } else if ch == '>' {
            LimitTag::RequestHeader
        } else if ch == '?' {
            LimitTag::Query
        } else {
            LimitTag::Ip
        };
        Ok(Limiter { tag, proxy_step, max: max as i64, value: substring(key, 1, kn), inflight: inflight_new() })
    }

    /// Counts `req` against the limit. A request without the value the limit
    /// counts by passes uncounted. Else the count for its value goes up; over
    /// the maximum the request is refused (and the count given back), else
    /// the guard that gives it back is kept in `ctx`. Counting by IP also
    /// records the client IP in `ctx`.
    pub fn incr(&self, req: &RequestInfo, ctx: &mut State) -> (r: Result<(), LimitError>)
        ensures
            limit_key(self.tag, self.value@, *req).len() == 0 ==> r is Ok && final(ctx).guard == old(ctx).guard,
            r is Ok && limit_key(self.tag, self.value@, *req).len() > 0 ==> final(ctx).guard is Some,
            r is Err ==> r->Err_0 is Exceed && r->Err_0->Exceed_max == self.max && !limit_ok(
                r->Err_0->Exceed_value as int,
                self.max as int,
            ) && final(ctx).guard == old(ctx).guard,
            self.tag == LimitTag::Ip ==> final(ctx).client_ip is Some && final(ctx).client_ip->Some_0@ == client_ip(*req),
            self.tag != LimitTag::Ip ==> final(ctx).client_ip == old(ctx).client_ip,
            final(ctx).location_index == old(ctx).location_index,
            final(ctx).status == old(ctx).status,
            final(ctx).processing == old(ctx).processing,
    {
        let key = match self.tag {
            LimitTag::Query => match get_query_value(&req.query, self.value.as_str()) {
                Some(v) => v,
                None => String::new(),
            },
            LimitTag::RequestHeader => match get_req_header_value(&req.headers, self.value.as_str()) {
                Some(v) => v,
                None => String::new(),
            },
            LimitTag::Cookie => match get_cookie_value(&req.headers, self.value.as_str()) {
                Some(v) => v,
                None => String::new(),
            },
            LimitTag::Ip => {
                let ip = get_client_ip(req);
                ctx.client_ip = Some(ip.clone());
                ip
            },
        };
        if key.as_str().unicode_len() == 0 {
            return Ok(());
        }
        let (guard, value) = inflight_incr(&self.inflight, key);
        match check_limit(value as i64, self.max) {
            Ok(()) => {
                ctx.guard = Some(guard);
                Ok(())
            },
            Err(e) => Err(e),
        }
    }

    pub fn step(&self) -> (r: PluginStep)
        ensures
            r == self.proxy_step,
    {
        self.proxy_step
    }

    pub fn category(&self) -> (r: PluginCategory)
        ensures
            r == PluginCategory::Limit,
    {
        PluginCategory::Limit
    }

    /// Runs the limit as a plugin: a refused request ends with status 429
    /// and the error's text.
    pub fn handle(&self, req: &RequestInfo, ctx: &mut State) -> (r: Result<bool, (u16, String)>)
        ensures
            r is Ok ==> !r->Ok_0,
            r is Err ==> r->Err_0.0 == 429,
            limit_key(self.tag, self.value@, *req).len() == 0 ==> r is Ok && final(ctx).guard == old(ctx).guard,
            r is Ok && limit_key(self.tag, self.value@, *req).len() > 0 ==> final(ctx).guard is Some,
            r is Err ==> final(ctx).guard == old(ctx).guard,
            self.tag == LimitTag::Ip ==> final(ctx).client_ip is Some && final(ctx).client_ip->Some_0@ == client_ip(*req),
            self.tag != LimitTag::Ip ==> final(ctx).client_ip == old(ctx).client_ip,
            final(ctx).location_index == old(ctx).location_index,
            final(ctx).status == old(ctx).status,
            final(ctx).processing == old(ctx).processing,
    {
        match self.incr(req, ctx) {
            Ok(()) => Ok(false),
            Err(e) => Err((429, e.message())),
        }
    }
}

impl LimitError {
    /// The error as text.
    pub fn message(&self) -> (r: String)
        ensures
            self is Exceed ==> r@ == "Exceed limit("@ + dec_signed(self->Exceed_value as int) + "/"@ + dec_signed(
                self->Exceed_max as int,
            ) + ")"@,
    {
        match self {
            LimitError::Invalid { message } => {
                let mut m = String::from_str("Invalid error ");
                crate::text::push_str(&mut m, message.as_str());
                m
            },
            LimitError::ParseInt { text } => {
                let mut m = String::from_str("Parse int error ");
                crate::text::push_str(&mut m, text.as_str());
                m
            },
            LimitError::Exceed { max, value } => {
                let mut m = String::from_str("Exceed limit(");
                crate::text::push_dec_signed(&mut m, *value);
                crate::text::push_str(&mut m, "/");
                crate::text::push_dec_signed(&mut m, *max);
                crate::text::push_str(&mut m, ")");
                m
            },
        }
    }
}

} // verus!

verus! {

/// Counting exactly, a limit of `max` admits each of `max` concurrent
/// requests with the same value, and refuses the next one.
pub proof fn lemma_limit_admits_max(max: int)
    requires
        max >= 0,
    ensures
        forall|k: int| 1 <= k <= max ==> #[trigger] limit_ok(k, max),
        !limit_ok(max + 1, max),
{
}

} // verus!
