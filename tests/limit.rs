use pingap_core::limit::{LimitError, LimitTag, Limiter};
use pingap_core::plugin::PluginStep;
use pingap_core::request::RequestInfo;
use pingap_core::state::State;

fn new_request() -> RequestInfo {
    let headers = vec![
        ("Host", "github.com"),
        ("Referer", "https://github.com/"),
        ("User-Agent", "pingap/0.1.1"),
        ("Cookie", "deviceId=abc"),
        ("Accept", "application/json"),
        ("X-Uuid", "138q71"),
        ("X-Forwarded-For", "1.1.1.1, 192.168.1.2"),
    ];
    RequestInfo {
        method: "GET".to_string(),
        uri: "/vicanso/pingap?key=1".to_string(),
        path: "/vicanso/pingap".to_string(),
        query: Some("key=1".to_string()),
        host: "github.com".to_string(),
        headers: headers.into_iter().map(|(k, v)| (k.to_string(), v.to_string())).collect(),
        remote_ip: Some("10.0.0.1".to_string()),
        client_addr: None,
        tls: false,
    }
}

#[test]
fn test_new_cookie_limiter() {
    let limiter = Limiter::new("~deviceId 10", PluginStep::Request).unwrap();
    assert_eq!(LimitTag::Cookie, limiter.tag);
    let mut ctx = State::default();
    let req = new_request();
    limiter.incr(&req, &mut ctx).unwrap();
    assert_eq!(true, ctx.guard.is_some());
}

#[test]
fn test_new_req_header_limiter() {
    let limiter = Limiter::new(">X-Uuid 10", PluginStep::Request).unwrap();
    assert_eq!(LimitTag::RequestHeader, limiter.tag);
    let mut ctx = State::default();
    let req = new_request();
    limiter.incr(&req, &mut ctx).unwrap();
    assert_eq!(true, ctx.guard.is_some());
}

#[test]
fn test_new_query_limiter() {
    let limiter = Limiter::new("?key 10", PluginStep::Request).unwrap();
    assert_eq!(LimitTag::Query, limiter.tag);
    let mut ctx = State::default();
    let req = new_request();
    limiter.incr(&req, &mut ctx).unwrap();
    assert_eq!(true, ctx.guard.is_some());
}

#[test]
fn test_new_ip_limiter() {
    let limiter = Limiter::new("ip 10", PluginStep::Request).unwrap();
    assert_eq!(LimitTag::Ip, limiter.tag);
    let mut ctx = State::default();
    let req = new_request();
    limiter.incr(&req, &mut ctx).unwrap();
    assert_eq!(true, ctx.guard.is_some());
    assert_eq!(Some("1.1.1.1".to_string()), ctx.client_ip);
}

#[test]
fn limiter_reads_its_config() {
    let limiter = Limiter::new("~deviceId 10", PluginStep::ProxyUpstream).unwrap();
    assert_eq!("deviceId", limiter.value);
    assert_eq!(10, limiter.max);
    assert_eq!(PluginStep::ProxyUpstream, limiter.step());
}

#[test]
fn limiter_config_errors() {
    match Limiter::new("~deviceId", PluginStep::Request) {
        Err(LimitError::Invalid { message }) => assert_eq!("~deviceId", message),
        _ => panic!("a config without a space must fail"),
    }
    match Limiter::new("~deviceId ten", PluginStep::Request) {
        Err(LimitError::ParseInt { text }) => assert_eq!("ten", text),
        _ => panic!("a max that is no number must fail"),
    }
    match Limiter::new("~ 10", PluginStep::Request) {
        Err(LimitError::Invalid { message }) => assert_eq!("~", message),
        _ => panic!("a one-byte key must fail"),
    }
}

#[test]
fn cookie_limit_refuses_the_eleventh() {
    let limiter = Limiter::new("~deviceId 10", PluginStep::Request).unwrap();
    let req = new_request();
    let mut held = vec![];
    for _ in 0..10 {
        let mut ctx = State::default();
        limiter.incr(&req, &mut ctx).unwrap();
        held.push(ctx);
    }
    let mut ctx = State::default();
    match limiter.incr(&req, &mut ctx) {
        Err(LimitError::Exceed { max, value }) => {
            assert_eq!(10, max);
            assert_eq!(11, value);
        },
        _ => panic!("the eleventh request must be refused"),
    }
    assert_eq!(true, ctx.guard.is_none());
    assert_eq!(Err((429, "Exceed limit(11/10)".to_string())), limiter.handle(&req, &mut State::default()));
    // the first ten complete: their guards give the count back
    drop(held);
    let mut ctx = State::default();
    limiter.incr(&req, &mut ctx).unwrap();
    assert_eq!(1, ctx.guard.as_ref().unwrap().get());
}

#[test]
fn ip_limit_admits_max() {
    let limiter = Limiter::new("ip 3", PluginStep::Request).unwrap();
    let req = new_request();
    let mut held = vec![];
    for _ in 0..3 {
        let mut ctx = State::default();
        assert_eq!(Ok(false), limiter.handle(&req, &mut ctx));
        held.push(ctx);
    }
    let mut ctx = State::default();
    assert_eq!(429, limiter.handle(&req, &mut ctx).unwrap_err().0);
}

#[test]
fn missing_value_is_not_counted() {
    let limiter = Limiter::new("~session 1", PluginStep::Request).unwrap();
    let req = new_request();
    for _ in 0..3 {
        let mut ctx = State::default();
        limiter.incr(&req, &mut ctx).unwrap();
        assert_eq!(true, ctx.guard.is_none());
    }
}
