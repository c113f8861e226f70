use pingap_core::location::{LocationConf, Policy, UpstreamConf};
use pingap_core::server::ERROR_TEMPLATE;
use pingap_core::settings::{server_confs, weight_order, PingapConf, ServerItemConf};

fn location(upstream: &str, weight: Option<u16>) -> LocationConf {
    LocationConf {
        upstream: upstream.to_string(),
        path: None,
        host: None,
        proxy_headers: None,
        headers: None,
        rewrite: None,
        weight,
        proxy_plugins: None,
    }
}

fn upstream() -> UpstreamConf {
    UpstreamConf {
        addrs: vec!["127.0.0.1:5000".to_string()],
        policy: Policy::RoundRobin,
        discovery: None,
        sni: None,
        ipv4_only: false,
    }
}

fn item(locations: Option<Vec<&str>>, tls_cert: Option<&str>) -> ServerItemConf {
    ServerItemConf {
        addr: "0.0.0.0:80".to_string(),
        locations: locations.map(|l| l.into_iter().map(|s| s.to_string()).collect()),
        tls_cert: tls_cert.map(|s| s.to_string()),
        tls_key: None,
        authorization: Some("dG9rZW4=".to_string()),
        stats_path: Some("/stats".to_string()),
        admin_path: None,
        access_log: None,
        threads: Some(2),
    }
}

#[test]
fn weight_order_is_stable() {
    assert_eq!(vec![1, 3, 0, 2], weight_order(&vec![1, 5, 1, 5]));
    assert_eq!(Vec::<usize>::new(), weight_order(&vec![]));
}

#[test]
fn conversion_filters_sorts_and_decodes() {
    let conf = PingapConf {
        upstreams: vec![("a".to_string(), upstream()), ("b".to_string(), upstream()), ("c".to_string(), upstream())],
        locations: vec![
            ("light".to_string(), location("a", Some(1))),
            ("heavy".to_string(), location("b", Some(9))),
            ("other".to_string(), location("c", None)),
        ],
        servers: vec![
            ("web".to_string(), item(Some(vec!["light", "heavy"]), Some("SGVsbG8="))),
            ("none".to_string(), item(None, Some("not base64!"))),
        ],
        proxy_plugins: vec![],
        error_template: String::new(),
    };
    let servers = server_confs(&conf);
    assert_eq!(2, servers.len());
    let web = &servers[0];
    assert_eq!("web", web.name);
    let names: Vec<&str> = web.locations.iter().map(|(n, _)| n.as_str()).collect();
    assert_eq!(vec!["heavy", "light"], names);
    let ups: Vec<&str> = web.upstreams.iter().map(|(n, _)| n.as_str()).collect();
    assert_eq!(vec!["a", "b"], ups);
    assert_eq!(Some(b"Hello".to_vec()), web.tls_cert);
    assert_eq!(None, web.tls_key);
    assert_eq!(ERROR_TEMPLATE, web.error_template);
    assert_eq!(Some(2), web.threads);
    assert_eq!(Some("dG9rZW4=".to_string()), web.authorization);
    assert_eq!(Some("/stats".to_string()), web.stats_path);
    assert_eq!(Some(9), web.locations[0].1.weight);
    let none = &servers[1];
    assert_eq!(0, none.locations.len());
    assert_eq!(Some(vec![]), none.tls_cert);
}
