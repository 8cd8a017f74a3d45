use tyr_rust::httpie::{parse_kv, parse_url, KV};

#[test]
fn parse_url_works() {
    assert!(parse_url("abc").is_err());
    assert!(parse_url("http://abc.xyz").is_ok());
    assert!(parse_url("https://httpbin.org/post").is_ok());
    assert_eq!(
        parse_url("https://httpbin.org/post").unwrap(),
        "https://httpbin.org/post"
    );
}

#[test]
fn parse_kv_works() {
    assert!(parse_kv("a").is_err());
    assert!(parse_kv("a=").is_ok());
    assert_eq!(
        parse_kv("a=1").unwrap(),
        KV {
            k: "a".into(),
            v: "1".to_string(),
        }
    );
    assert_eq!(
        parse_kv("a=").unwrap(),
        KV {
            k: "a".into(),
            v: "".to_owned(),
        }
    );
}

#[test]
fn parse_kv_stops_at_second_equals() {
    assert_eq!(parse_kv("a=b=c").unwrap(), KV { k: "a".into(), v: "b".into() });
    assert_eq!(parse_kv("=x").unwrap(), KV { k: "".into(), v: "x".into() });
    let e = parse_kv("abc").unwrap_err();
    assert_eq!(e.message(), "Failed to parse abc");
    let kv: KV = "k=v".parse().unwrap();
    assert_eq!(kv, KV { k: "k".into(), v: "v".into() });
}

#[test]
fn bad_url_carries_the_parsers_reason() {
    let e = parse_url("abc").unwrap_err();
    assert_eq!(e.input, "abc");
    assert_eq!(e.reason, "relative URL without a base");
    let e = parse_url("http://").unwrap_err();
    assert_eq!(e.reason, "empty host");
}
