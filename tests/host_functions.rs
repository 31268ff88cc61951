use pacparser::hostfns::{
    dns_domain_is, first_ipv4, host_from, is_in_net, is_plain_host_name, local_host_or_domain_is,
    plain_host_from, prefix_len, request_host, ResolvedAddr,
};
use pacparser::types::Error;

fn ip(a: u32, b: u32, c: u32, d: u32) -> u32 {
    (a << 24) | (b << 16) | (c << 8) | d
}

#[test]
fn plain_host_names() {
    assert!(is_plain_host_name("www"));
    assert!(!is_plain_host_name("www.example.com"));
    assert!(is_plain_host_name("http://www"));
    assert!(!is_plain_host_name("http://www.mozilla.org"));
}

#[test]
fn plain_host_from_each_parse_outcome() {
    assert!(plain_host_from("www", &Err(true)));
    assert!(!plain_host_from("a.b", &Err(true)));
    assert!(!plain_host_from("www", &Err(false)));
    assert!(plain_host_from("http://x", &Ok(Some("x".to_string()))));
    assert!(!plain_host_from("http://x.y", &Ok(Some("x.y".to_string()))));
    assert!(!plain_host_from("data:x", &Ok(None)));
}

#[test]
fn domain_suffix() {
    assert!(dns_domain_is("www.example.com", "example.com"));
    assert!(!dns_domain_is("example.com", "www.example.com"));
    assert!(dns_domain_is("intranet.domain.com", "intranet.domain.com"));
    assert!(dns_domain_is("abc", ""));
}

#[test]
fn host_or_domain_prefix() {
    assert!(local_host_or_domain_is("www", "www.example.com"));
    assert!(local_host_or_domain_is("www.mozilla.org", "www.mozilla.org"));
    assert!(!local_host_or_domain_is("www.example.com", "www"));
    assert!(!local_host_or_domain_is("ftp", "www.example.com"));
}

#[test]
fn mask_prefix_lengths() {
    assert_eq!(prefix_len(ip(255, 0, 0, 0)), 8);
    assert_eq!(prefix_len(ip(255, 255, 255, 255)), 32);
    assert_eq!(prefix_len(0), 0);
    assert_eq!(prefix_len(ip(255, 0, 255, 0)), 16);
}

#[test]
fn network_membership() {
    assert!(is_in_net(ip(127, 0, 0, 1), ip(127, 0, 0, 0), ip(255, 0, 0, 0)));
    assert!(!is_in_net(ip(128, 0, 0, 1), ip(127, 0, 0, 0), ip(255, 0, 0, 0)));
    assert!(is_in_net(ip(192, 168, 4, 2), ip(192, 168, 0, 0), ip(255, 255, 0, 0)));
    assert!(!is_in_net(ip(192, 169, 4, 2), ip(192, 168, 0, 0), ip(255, 255, 0, 0)));
    assert!(is_in_net(ip(10, 1, 2, 3), ip(10, 1, 2, 3), ip(255, 255, 255, 255)));
    assert!(!is_in_net(ip(10, 1, 2, 4), ip(10, 1, 2, 3), ip(255, 255, 255, 255)));
    assert!(is_in_net(ip(8, 8, 8, 8), ip(127, 0, 0, 0), 0));
    // a non-contiguous mask counts its bits: 255.0.255.0 acts as a /16
    assert!(is_in_net(ip(10, 20, 9, 9), ip(10, 20, 0, 0), ip(255, 0, 255, 0)));
    assert!(!is_in_net(ip(10, 21, 9, 9), ip(10, 20, 0, 0), ip(255, 0, 255, 0)));
}

#[test]
fn resolve_picks_first_ipv4() {
    let addrs = vec![ResolvedAddr::V6(1), ResolvedAddr::V4(ip(127, 0, 0, 1)), ResolvedAddr::V4(7)];
    assert_eq!(first_ipv4(&addrs).unwrap(), ip(127, 0, 0, 1));
}

#[test]
fn resolve_ipv6_only_fails() {
    assert!(matches!(first_ipv4(&vec![ResolvedAddr::V6(1)]), Err(Error::JsError(_))));
    assert!(matches!(first_ipv4(&vec![]), Err(Error::JsError(_))));
}

#[test]
fn request_hosts() {
    assert_eq!(request_host("http://localhost").unwrap(), "localhost");
    assert_eq!(request_host("ftp://thing.please/x").unwrap(), "thing.please");
    assert!(matches!(request_host("data:text/plain,hi"), Err(Error::NoHost)));
    assert!(matches!(request_host("relative/path"), Err(Error::NoHost)));
    assert!(matches!(host_from(&Err(true)), Err(Error::NoHost)));
    assert!(matches!(host_from(&Ok(None)), Err(Error::NoHost)));
    assert_eq!(host_from(&Ok(Some("h".to_string()))).unwrap(), "h");
}
