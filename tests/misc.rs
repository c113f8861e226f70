use pingap_core::config::{join_config_files, resolve_path, FileStorage};
use pingap_core::discovery::{discover_outcome, format_addrs, Backend, DiscoveryError, Dns, IpAddress, SocketAddress};
use pingap_core::parse::parse_max;
use pingap_core::request::{get_cookie_value, get_query_value, get_req_header_value};
use pingap_core::text::{push_dec, push_dec_signed, replace};
use pingap_core::validity::{new_tls_validity_service, validity_check, CertificateInfo};
use pingap_core::webhook::{NotificationCategory, NotificationLevel};

fn cert() -> CertificateInfo {
    CertificateInfo { not_after: 2651852800, not_before: 2651852800, issuer: "pingap".to_string() }
}

#[test]
fn test_validity_check() {
    let now = 1718000000;
    let result = validity_check(&[("Pingap".to_string(), cert())], 7 * 24 * 3600, now);
    assert_eq!("Pingap cert is not valid, issuer: pingap, valid date: 2651852800", result.unwrap_err());

    let result = validity_check(&[("Pingap".to_string(), cert())], 7 * 24 * 3600, now);
    assert_eq!("Pingap cert is not valid, issuer: pingap, valid date: 2651852800", result.unwrap_err());
}

#[test]
fn test_validity_service() {
    let service = new_tls_validity_service(vec![("Pingap".to_string(), cert())]);
    assert_eq!("Tls validity checker", service.name);
    assert_eq!(24 * 3600, service.interval_secs);
    assert_eq!(7 * 24 * 3600, service.checker.time_offset);
    let n = service.checker.run(1718000000).unwrap();
    assert_eq!(NotificationLevel::Warn, n.level);
    assert_eq!(NotificationCategory::TlsValidity, n.category);
    let valid = new_tls_validity_service(vec![(
        "Pingap".to_string(),
        CertificateInfo { not_after: 2651852800, not_before: 0, issuer: "".to_string() },
    )]);
    assert!(valid.checker.run(1718000000).is_none());
}

#[test]
fn validity_expiry_first() {
    let c = CertificateInfo { not_after: 1000, not_before: 0, issuer: "ca".to_string() };
    let ok = CertificateInfo { not_after: i64::MAX, not_before: 0, issuer: "ca".to_string() };
    let r = validity_check(&[("ok".to_string(), ok), ("a".to_string(), c)], 100, 2651852800);
    assert_eq!("a cert will be expired, issuer: ca, expired date: 1000", r.unwrap_err());
    assert_eq!(Ok(()), validity_check(&[], 100, 0));
}

#[test]
fn test_dns_discover() {
    let dns = Dns::new(&["github.com".to_string()], true, true).unwrap();
    assert_eq!(("github.com".to_string(), "443".to_string(), 1), dns.hosts[0]);
    let lookups = vec![vec![IpAddress::V4(0x8c52_7904), IpAddress::V6(1), IpAddress::V4(0x8c52_7903)]];
    let backends = dns.backends_of(&lookups).unwrap();
    assert_eq!(
        vec![
            Backend { addr: SocketAddress { ip: IpAddress::V4(0x8c52_7903), port: 443 }, weight: 1 },
            Backend { addr: SocketAddress { ip: IpAddress::V4(0x8c52_7904), port: 443 }, weight: 1 },
        ],
        backends
    );
    assert!(matches!(dns.backends_of(&vec![]), Err(DiscoveryError::Invalid { .. })));
}

#[test]
fn discovery_failure_warns() {
    let dns = Dns::new(&["github.com".to_string()], false, false).unwrap();
    let (set, note) = discover_outcome(&dns.hosts, Err(DiscoveryError::Resolve { message: "timeout".to_string() }));
    assert!(set.is_none());
    let note = note.unwrap();
    assert_eq!(NotificationLevel::Warn, note.level);
    assert_eq!(NotificationCategory::ServiceDiscoverFail, note.category);
    assert_eq!("[github.com:80 1], error: timeout", note.msg);
    let (set, note) = discover_outcome(&dns.hosts, Ok(vec![]));
    assert_eq!(Some(vec![]), set);
    assert!(note.is_none());
}

#[test]
fn address_grammar() {
    let addrs = format_addrs(&["a.com:8080 10".to_string(), "b.com".to_string(), "c.com x".to_string()], false);
    assert_eq!(("a.com".to_string(), "8080".to_string(), 10), addrs[0]);
    assert_eq!(("b.com".to_string(), "80".to_string(), 1), addrs[1]);
    assert_eq!(("c.com".to_string(), "80".to_string(), 1), addrs[2]);
    let dns = Dns::new(&["bad:port".to_string()], false, false).unwrap();
    assert!(matches!(dns.backends_of(&vec![vec![IpAddress::V4(1)]]), Err(DiscoveryError::Io { .. })));
    let v4 = Dns::new(&["bad:port".to_string()], false, true).unwrap();
    assert_eq!(Ok(vec![]), v4.backends_of(&vec![vec![IpAddress::V6(1)]]).map_err(|_| ()));
}

#[test]
fn request_values() {
    let headers = vec![
        ("cookie".to_string(), "a=1; deviceId=abc; b=".to_string()),
        ("X-Uuid".to_string(), "138q71".to_string()),
    ];
    assert_eq!(Some("abc".to_string()), get_cookie_value(&headers, "deviceId"));
    assert_eq!(Some("".to_string()), get_cookie_value(&headers, "b"));
    assert_eq!(None, get_cookie_value(&headers, "c"));
    assert_eq!(Some("138q71".to_string()), get_req_header_value(&headers, "x-uuid"));
    assert_eq!(Some("2".to_string()), get_query_value(&Some("a=1&key=2".to_string()), "key"));
    assert_eq!(None, get_query_value(&None, "key"));
}

#[test]
fn numbers_and_text() {
    assert_eq!(Some(10), parse_max("10", 100));
    assert_eq!(Some(7), parse_max("+7", 100));
    assert_eq!(None, parse_max("101", 100));
    assert_eq!(None, parse_max("", 100));
    assert_eq!(None, parse_max("+", 100));
    assert_eq!(None, parse_max("1a", 100));
    assert_eq!(Some(u64::MAX), parse_max("18446744073709551615", u64::MAX));
    assert_eq!(None, parse_max("18446744073709551616", u64::MAX));
    let mut s = String::new();
    push_dec(&mut s, 0);
    push_dec_signed(&mut s, -42);
    assert_eq!("0-42", s);
    assert_eq!("a-b-", replace("a{}b{}", "{}", "-"));
    assert_eq!("aaa", replace("aaa", "aa", "aa"));
}

#[test]
fn config_storage() {
    assert!(FileStorage::new("", None).is_err());
    assert_eq!("/home/u/conf", FileStorage::new("~/conf", Some("/home/u".to_string())).unwrap().path);
    assert_eq!("~/conf", resolve_path("~/conf", None));
    assert_eq!(b"a\nb\n".to_vec(), join_config_files(&vec![b"a".to_vec(), b"b".to_vec()]));
}
