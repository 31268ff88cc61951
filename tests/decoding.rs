use pacparser::decode::decode;
use pacparser::types::{Error, ProxyEntry, ProxyType};

fn proxied(ty: ProxyType, host: &str, port: &str) -> ProxyEntry {
    ProxyEntry::Proxied { ty, host: host.to_string(), port: port.to_string() }
}

fn malformed_reason(text: &str) -> String {
    match decode(text) {
        Err(Error::MalformedProxyEntry(m)) => m,
        other => panic!("expected a malformed entry, got {:?}", other),
    }
}

#[test]
fn decode_direct_alone() {
    assert_eq!(decode("DIRECT").unwrap(), vec![ProxyEntry::Direct]);
}

#[test]
fn decode_proxy_then_direct() {
    assert_eq!(
        decode("PROXY 1.2.3.4:80; DIRECT").unwrap(),
        vec![proxied(ProxyType::Proxy, "1.2.3.4", "80"), ProxyEntry::Direct]
    );
}

#[test]
fn decode_direct_with_trailing_text_fails() {
    assert_eq!(malformed_reason("DIRECT extra"), "DIRECT with trailing content");
    assert_eq!(malformed_reason("DIRECTx"), "DIRECT with trailing content");
}

#[test]
fn decode_unknown_type_fails() {
    assert_eq!(malformed_reason("BOGUS 1:1"), "No type matched");
}

#[test]
fn decode_socks_versions_are_specific() {
    assert_eq!(decode("SOCKS5 h:1").unwrap(), vec![proxied(ProxyType::Socks5, "h", "1")]);
    assert_eq!(decode("SOCKS4 h:1").unwrap(), vec![proxied(ProxyType::Socks4, "h", "1")]);
    assert_eq!(decode("SOCKS h:1").unwrap(), vec![proxied(ProxyType::Socks, "h", "1")]);
}

#[test]
fn decode_https_is_specific() {
    assert_eq!(decode("HTTPS h:443").unwrap(), vec![proxied(ProxyType::Https, "h", "443")]);
    assert_eq!(decode("HTTP h:80").unwrap(), vec![proxied(ProxyType::Http, "h", "80")]);
}

#[test]
fn decode_missing_colon_fails() {
    assert_eq!(malformed_reason("PROXY example.com"), "No colon in entry");
}

#[test]
fn decode_trims_segments_and_keeps_order() {
    assert_eq!(
        decode("  DIRECT ;\tSOCKS gw:1080 ;PROXY a:1;PROXY a:1").unwrap(),
        vec![
            ProxyEntry::Direct,
            proxied(ProxyType::Socks, "gw", "1080"),
            proxied(ProxyType::Proxy, "a", "1"),
            proxied(ProxyType::Proxy, "a", "1"),
        ]
    );
}

#[test]
fn decode_host_and_port_pass_through() {
    assert_eq!(decode("PROXY h :x:y").unwrap(), vec![proxied(ProxyType::Proxy, "h ", "x:y")]);
    assert_eq!(decode("PROXYhost:").unwrap(), vec![proxied(ProxyType::Proxy, "host", "")]);
}

#[test]
fn decode_empty_segment_fails_whole_input() {
    assert_eq!(malformed_reason("PROXY a:1;"), "No type matched");
    assert_eq!(malformed_reason(""), "No type matched");
    assert_eq!(malformed_reason("PROXY a:1; BOGUS; DIRECT"), "No type matched");
}

#[test]
fn proxy_type_from_str() {
    assert_eq!("SOCKS4".parse::<ProxyType>().unwrap(), ProxyType::Socks4);
    assert_eq!("HTTPS".parse::<ProxyType>().unwrap(), ProxyType::Https);
    assert_eq!("PROXY".parse::<ProxyType>().unwrap(), ProxyType::Proxy);
    match "SOCKS6".parse::<ProxyType>() {
        Err(Error::MalformedProxyEntry(m)) => assert_eq!(m, "Unknown type `SOCKS6`"),
        other => panic!("unexpected {:?}", other),
    }
    assert!(ProxyType::from_name("proxy").is_err());
}
