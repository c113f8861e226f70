use pingap_core::filters::{OwaspCrsPlugin, WirefilterPlugin};
use pingap_core::location::{LocationConf, Policy, UpstreamConf};
use pingap_core::plugin::{ConfValue, PluginConf, PluginError, PluginStep};
use pingap_core::request::RequestInfo;
use pingap_core::server::{
    error_code, ErrorKind, ErrorSource, ProxyError, ProxyPluginConf, RequestAction, Server, ServerConf,
};
use pingap_core::state::State;

fn request(host: &str, path: &str, query: Option<&str>, headers: Vec<(&str, &str)>) -> RequestInfo {
    let uri = match query {
        Some(q) => format!("{path}?{q}"),
        None => path.to_string(),
    };
    RequestInfo {
        method: "GET".to_string(),
        uri,
        path: path.to_string(),
        query: query.map(|q| q.to_string()),
        host: host.to_string(),
        headers: headers.into_iter().map(|(k, v)| (k.to_string(), v.to_string())).collect(),
        remote_ip: Some("10.0.0.1".to_string()),
        client_addr: None,
        tls: false,
    }
}

fn location(upstream: &str, path: Option<&str>, host: Option<&str>, rewrite: Option<&str>) -> LocationConf {
    LocationConf {
        upstream: upstream.to_string(),
        path: path.map(|p| p.to_string()),
        host: host.map(|h| h.to_string()),
        proxy_headers: Some(vec!["X-Service: pingap".to_string(), "broken".to_string()]),
        headers: Some(vec!["X-Response-Id : 1 ".to_string()]),
        rewrite: rewrite.map(|r| r.to_string()),
        weight: None,
        proxy_plugins: None,
    }
}

fn server_conf(locations: Vec<(String, LocationConf)>) -> ServerConf {
    ServerConf {
        name: "test".to_string(),
        addr: "127.0.0.1:6188".to_string(),
        admin: false,
        stats_path: Some("/stats".to_string()),
        admin_path: Some("/pingap".to_string()),
        access_log: None,
        authorization: Some("dG9rZW4=".to_string()),
        upstreams: vec![
            (
                "charts".to_string(),
                UpstreamConf {
                    addrs: vec!["127.0.0.1:5000".to_string()],
                    policy: Policy::RoundRobin,
                    discovery: None,
                    sni: None,
                    ipv4_only: false,
                },
            ),
            (
                "unused".to_string(),
                UpstreamConf { addrs: vec![], policy: Policy::Random, discovery: None, sni: None, ipv4_only: false },
            ),
        ],
        locations,
        proxy_plugins: vec![],
        tls_cert: None,
        tls_key: None,
        threads: None,
        error_template: "<p>{{content}}</p><i>{{version}}</i>".to_string(),
    }
}

fn server() -> Server {
    Server::new(server_conf(vec![
        ("api".to_string(), location("charts", Some("/api"), Some("*.example.com"), Some("^/api/(?P<rest>.+) /$rest"))),
        ("exact".to_string(), location("charts", Some("=/ping"), None, None)),
        ("regex".to_string(), location("charts", Some("~^/v\\d+/"), None, None)),
    ]))
    .unwrap()
}

#[test]
fn server_uses_only_used_upstreams() {
    let s = server();
    assert_eq!(1, s.upstreams.len());
    assert_eq!("charts", s.upstreams[0].name);
    assert_eq!(3, s.locations.len());
    assert_eq!(vec![("X-Service".to_string(), "pingap".to_string())], s.locations[0].proxy_add_headers);
    assert_eq!(vec![("X-Response-Id".to_string(), "1".to_string())], s.locations[0].add_headers);
}

#[test]
fn server_refuses_unknown_upstream_and_bad_regex() {
    let conf = server_conf(vec![("x".to_string(), location("nowhere", None, None, None))]);
    assert!(Server::new(conf).is_err());
    let conf = server_conf(vec![("x".to_string(), location("charts", Some("~(["), None, None))]);
    assert!(Server::new(conf).is_err());
    let conf = server_conf(vec![("x".to_string(), location("unused", None, None, None))]);
    assert!(Server::new(conf).is_err());
}

#[test]
fn routes_by_host_and_path() {
    let mut s = server();
    let mut ctx = State::default();
    match s.request_filter(&request("www.Example.com", "/api/users", Some("id=1"), vec![]), &mut ctx) {
        RequestAction::Proxy { location_index, uri } => {
            assert_eq!(0, location_index);
            assert_eq!(Some("/users?id=1".to_string()), uri);
        },
        _ => panic!("the api location takes it"),
    }
    assert_eq!(Some(0), ctx.location_index);
    let mut ctx = State::default();
    match s.request_filter(&request("other.org", "/ping", None, vec![]), &mut ctx) {
        RequestAction::Proxy { location_index, uri } => {
            assert_eq!(1, location_index);
            assert_eq!(None, uri);
        },
        _ => panic!("the exact location takes it"),
    }
    let mut ctx = State::default();
    match s.request_filter(&request("other.org", "/v2/items", None, vec![]), &mut ctx) {
        RequestAction::Proxy { location_index, .. } => assert_eq!(2, location_index),
        _ => panic!("the regex location takes it"),
    }
    let mut ctx = State::default();
    match s.request_filter(&request("other.org", "/pingx", None, vec![]), &mut ctx) {
        RequestAction::Fail { status, message } => {
            assert_eq!(500, status);
            assert_eq!("Location not found, host:other.org path:/pingx", message);
        },
        _ => panic!("no location takes it"),
    }
    assert_eq!(4, s.counters.accepted);
    assert_eq!(4, s.counters.processing);
    assert_eq!(3, ctx.processing);
}

#[test]
fn stats_and_admin() {
    let mut s = server();
    let mut ctx = State::default();
    assert!(matches!(s.request_filter(&request("h", "/stats", None, vec![]), &mut ctx), RequestAction::Stats));
    assert_eq!(Some(200), ctx.status);
    let mut ctx = State::default();
    assert!(matches!(
        s.request_filter(&request("h", "/pingap/api", None, vec![]), &mut ctx),
        RequestAction::Unauthorized
    ));
    let req = request("h", "/pingap/api/configs", Some("a=1"), vec![("Authorization", "Basic dG9rZW4=")]);
    match s.request_filter(&req, &mut ctx) {
        RequestAction::Admin { uri } => assert_eq!(Some("/api/configs?a=1".to_string()), uri),
        _ => panic!("authorized admin request"),
    }
    let stats = s.stats("host".to_string(), 3 * 1024 * 1024);
    assert_eq!(3, stats.accepted);
    assert_eq!(3, stats.physical_mem_mb);
    assert_eq!("3.0 MiB", stats.physical_mem);
}

#[test]
fn counters_balance_after_logging() {
    let mut s = server();
    for _ in 0..3 {
        let mut ctx = State::default();
        s.request_filter(&request("h", "/ping", None, vec![]), &mut ctx);
    }
    let mut ctx = State::default();
    s.logging(&mut ctx, Some(200));
    s.logging(&mut ctx, Some(404));
    assert_eq!(Some(200), ctx.status);
    assert_eq!(3, s.counters.accepted);
    assert_eq!(1, s.counters.processing);
}

#[test]
fn error_mapping() {
    assert_eq!(429, error_code(ErrorKind::HttpStatus(429), ErrorSource::Internal));
    assert_eq!(502, error_code(ErrorKind::ConnectRefused, ErrorSource::Upstream));
    assert_eq!(499, error_code(ErrorKind::ConnectionClosed, ErrorSource::Downstream));
    assert_eq!(500, error_code(ErrorKind::WriteError, ErrorSource::Downstream));
    assert_eq!(500, error_code(ErrorKind::ReadError, ErrorSource::Downstream));
    assert_eq!(400, error_code(ErrorKind::Other, ErrorSource::Downstream));
    assert_eq!(500, error_code(ErrorKind::Other, ErrorSource::Unset));
}

#[test]
fn plugin_failure_page() {
    let s = server();
    let mut ctx = State::default();
    let e = ProxyError { kind: ErrorKind::HttpStatus(429), source: ErrorSource::Internal, message: "x".to_string() };
    let (code, body) = s.fail_to_proxy(&e, &mut ctx);
    assert_eq!(429, code);
    assert_eq!("<p>x</p><i>0.1.0</i>", body);
    assert_eq!(Some(429), ctx.status);
    assert_eq!(body.len(), ctx.response_body_size);
}

#[test]
fn upstream_headers_and_status() {
    let s = server();
    let mut ctx = State::default();
    ctx.location_index = Some(0);
    let req = request("h", "/api", None, vec![("X-Forwarded-For", "1.1.1.1")]);
    let headers = s.upstream_request_headers(&req, &ctx);
    assert_eq!(("X-Forwarded-For".to_string(), "1.1.1.1, 10.0.0.1".to_string()), headers[0]);
    assert_eq!(("X-Service".to_string(), "pingap".to_string()), headers[1]);
    let added = s.upstream_response_filter(&mut ctx, 201);
    s.upstream_response_filter(&mut ctx, 500);
    assert_eq!(Some(201), ctx.status);
    assert_eq!(vec![("X-Response-Id".to_string(), "1".to_string())], added);
    let mut none = State::default();
    assert_eq!(0, s.upstream_response_filter(&mut none, 200).len());
    s.upstream_response_body_filter(&mut ctx, 10);
    s.upstream_response_body_filter(&mut ctx, 5);
    assert_eq!(15, ctx.response_body_size);
    assert_eq!((503, "No available upstream(charts)".to_string()), s.no_upstream(0));
}

fn conf(values: Vec<(&str, ConfValue)>) -> PluginConf {
    PluginConf { values: values.into_iter().map(|(k, v)| (k.to_string(), v)).collect() }
}

#[test]
fn owasp_plugin_lists_request() {
    let p = OwaspCrsPlugin::new(&conf(vec![])).unwrap();
    assert_eq!(PluginStep::Request, p.step());
    assert_eq!("Ha ha ha... Request is forbidden", p.forbidden_resp.body);
    let req = request("h", "/a", None, vec![("Host", "h")]);
    assert!(p.handle_request(PluginStep::ProxyUpstream, &req).is_none());
    let resp = p.handle_request(PluginStep::Request, &req).unwrap();
    assert_eq!(403, resp.status);
    assert_eq!(
        "<html><head></head><body><h1>Rezquest Headers</h1>0. uri = /a<br>1. Host = h<br></body></html>",
        resp.body
    );
    let bad = OwaspCrsPlugin::new(&conf(vec![("step", ConfValue::Str("upstream_response".to_string()))]));
    assert!(matches!(bad, Err(PluginError::Invalid { .. })));
}

#[test]
fn wirefilter_plugin_filters() {
    let exps = vec!["http.request.method == \"POST\"".to_string(), "http.user_agent contains \"bot\"".to_string()];
    let p = WirefilterPlugin::new(&conf(vec![
        ("restriction_expression_list", ConfValue::List(exps)),
        ("message", ConfValue::Str("no".to_string())),
    ]))
    .unwrap();
    assert_eq!("no", p.forbidden_resp.body);
    let ok = request("h", "/a", None, vec![("User-Agent", "curl")]);
    assert!(p.handle_request(PluginStep::Request, &ok).is_none());
    let bot = request("h", "/a", None, vec![("User-Agent", "somebot/1")]);
    let resp = p.handle_request(PluginStep::Request, &bot).unwrap();
    assert_eq!(403, resp.status);
    assert!(resp.body.contains("Request forbidden - false"));
    let bad = WirefilterPlugin::new(&conf(vec![(
        "restriction_expression_list",
        ConfValue::List(vec!["http.host ==".to_string()]),
    )]));
    match bad {
        Err(PluginError::Invalid { category, .. }) => assert_eq!("wirefilter_plugin", category),
        _ => panic!("an expression that does not parse must fail"),
    }
}

#[test]
fn limit_plugin_in_chain() {
    let mut conf = server_conf(vec![]);
    let mut lo = location("charts", None, None, None);
    lo.proxy_plugins = Some(vec!["limit".to_string(), "missing".to_string()]);
    conf.locations = vec![("all".to_string(), lo)];
    conf.proxy_plugins = vec![(
        "limit".to_string(),
        ProxyPluginConf::Limit { value: "ip 1".to_string(), step: PluginStep::Request },
    )];
    let mut s = Server::new(conf).unwrap();
    let mut first = State::default();
    assert!(matches!(s.request_filter(&request("h", "/", None, vec![]), &mut first), RequestAction::Proxy { .. }));
    let mut second = State::default();
    match s.request_filter(&request("h", "/", None, vec![]), &mut second) {
        RequestAction::Fail { status, .. } => assert_eq!(429, status),
        _ => panic!("the second concurrent request is refused"),
    }
}

#[test]
fn admin_server_checks_authorization() {
    let mut conf = server_conf(vec![("x".to_string(), location("charts", None, None, None))]);
    conf.admin = true;
    let mut s = Server::new(conf).unwrap();
    let mut ctx = State::default();
    assert!(matches!(s.request_filter(&request("h", "/", None, vec![]), &mut ctx), RequestAction::Unauthorized));
    let req = request("h", "/", None, vec![("Authorization", "Basic dG9rZW4=")]);
    assert!(matches!(s.request_filter(&req, &mut ctx), RequestAction::Admin { uri: None }));
}

#[test]
fn service_plan_lists_background_tasks() {
    let s = server();
    let plan = s.service_plan();
    assert_eq!("127.0.0.1:6188", plan.addr);
    assert_eq!(false, plan.tls);
    assert_eq!(false, plan.http2);
    assert_eq!(vec!["BG charts".to_string(), "BG charts".to_string(), "BG charts".to_string()], plan.background);
    let mut conf = server_conf(vec![("x".to_string(), location("charts", None, None, None))]);
    conf.upstreams[0].1.policy = Policy::Random;
    conf.tls_cert = Some(b"cert".to_vec());
    conf.threads = Some(4);
    let plan = Server::new(conf).unwrap().service_plan();
    assert_eq!(true, plan.tls);
    assert_eq!(true, plan.http2);
    assert_eq!(Some(4), plan.threads);
    assert_eq!(Some(b"cert".to_vec()), plan.tls_cert);
    assert!(plan.background.is_empty());
}

#[test]
fn owasp_in_chain_responds() {
    let mut conf = server_conf(vec![]);
    let mut lo = location("charts", None, None, None);
    lo.proxy_plugins = Some(vec!["waf".to_string()]);
    conf.locations = vec![("all".to_string(), lo)];
    conf.proxy_plugins = vec![("waf".to_string(), ProxyPluginConf::OwaspCrs(conf_of(vec![])))];
    let mut s = Server::new(conf).unwrap();
    let mut ctx = State::default();
    match s.request_filter(&request("h", "/", None, vec![]), &mut ctx) {
        RequestAction::Respond(resp) => assert_eq!(403, resp.status),
        _ => panic!("the filter answers"),
    }
    assert_eq!(None, ctx.location_index);
}

fn conf_of(values: Vec<(&str, ConfValue)>) -> PluginConf {
    conf(values)
}
