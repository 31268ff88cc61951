use pacparser::script::{driver_source, proxies_from_return, ScriptValue};
use pacparser::types::{Error, ProxyEntry, ProxyType};
use pacparser::wildcard::WildcardCache;

#[test]
fn driver_wraps_script() {
    assert_eq!(
        driver_source("function FindProxyForURL(url, host) { return \"DIRECT\"; } "),
        "function pac(__url, __host) { function FindProxyForURL(url, host) { return \"DIRECT\"; } ; return FindProxyForURL(__url, __host); }"
    );
}

#[test]
fn script_text_is_decoded() {
    let r = proxies_from_return(&ScriptValue::Text("PROXY 127.0.0.1:8118; DIRECT".to_string()));
    assert_eq!(
        r.unwrap(),
        vec![
            ProxyEntry::Proxied {
                ty: ProxyType::Proxy,
                host: "127.0.0.1".into(),
                port: "8118".into(),
            },
            ProxyEntry::Direct
        ]
    );
}

#[test]
fn script_non_string_is_refused() {
    assert!(matches!(proxies_from_return(&ScriptValue::Other), Err(Error::InvalidPacReturn)));
}

#[test]
fn wildcard_repeat_uses_one_entry() {
    let mut cache = WildcardCache::new();
    let p = "(.*.abcdom.com|abcdom.com)";
    assert_eq!(cache.matches("foo.abcdom.com", p).unwrap(), true);
    assert_eq!(cache.len(), 1);
    assert_eq!(cache.matches("foo.abcdom.com", p).unwrap(), true);
    assert_eq!(cache.len(), 1);
    assert_eq!(cache.matches("abcdom.com", p).unwrap(), true);
    assert_eq!(cache.matches("abcdom.org", p).unwrap(), false);
    assert_eq!(cache.len(), 1);
}

#[test]
fn wildcard_is_anchored() {
    let mut cache = WildcardCache::new();
    assert_eq!(cache.matches("www.example.com", "example").unwrap(), false);
    assert_eq!(cache.matches("example", "example").unwrap(), true);
    assert_eq!(cache.matches("www.example.com", ".*example.*").unwrap(), true);
    assert_eq!(cache.matches("abcdom.com", "(.*.adcdom.com|abcdom.com)").unwrap(), true);
    assert_eq!(cache.len(), 3);
}

#[test]
fn wildcard_bad_pattern_is_an_error_and_not_cached() {
    let mut cache = WildcardCache::new();
    assert!(matches!(cache.matches("x", "(unclosed"), Err(Error::JsError(_))));
    assert_eq!(cache.len(), 0);
}
