use urlparse::raw_url::Url;

#[test]
fn test_parse_host() {
    let actual = Url::new("http://example.com".to_string()).parse().unwrap();
    assert_eq!(actual.host, "example.com".to_string());
}

#[test]
fn test_normal() {
    let actual = Url::new("http://example.com:8080".to_string()).parse().unwrap();
    assert_eq!(actual.port, "8080".to_string());
}

#[test]
fn test_default_port() {
    let actual = Url::new("http://example.com".to_string()).parse().unwrap();
    assert_eq!(actual.port, "80".to_string());
}

#[test]
fn url_test_normal() {
    let actual = Url::new("http://example.com:8080/path/to/resource".to_string()).parse().unwrap();
    assert_eq!(actual.path, "/path/to/resource".to_string());
}

#[test]
fn test_normal_search_part() {
    let actual = Url::new("http://example.com:8080/path/to/resource?A=1&B=2".to_string())
        .parse()
        .unwrap();
    assert_eq!(actual.search_part, "?A=1&B=2".to_string());
}

#[test]
fn parse_fills_every_field() {
    let mut u = Url::new("http://example.com:8080/a/b?k=v".to_string());
    let r = u.parse().unwrap();
    assert_eq!(u, r);
    assert_eq!(u.url, "http://example.com:8080/a/b?k=v");
    assert_eq!(u.host, "example.com");
    assert_eq!(u.port, "8080");
    assert_eq!(u.path, "/a/b");
    assert_eq!(u.search_part, "?k=v");
}

#[test]
fn parse_failure_reports_text_and_leaves_value_untouched() {
    let mut u = Url::new("ftp://example.com".to_string());
    let e = u.parse().unwrap_err();
    assert_eq!(e, "unsupported scheme: ftp");
    assert_eq!(u.host, "");
    assert_eq!(u.port, "");
    assert_eq!(u.path, "");
    assert_eq!(u.search_part, "");

    let mut v = Url::new("example.com".to_string());
    assert_eq!(v.parse().unwrap_err(), "missing scheme separator");
    let mut w = Url::new("http://h:99999".to_string());
    assert_eq!(w.parse().unwrap_err(), "invalid port: 99999");
    let mut x = Url::new("http://".to_string());
    assert_eq!(x.parse().unwrap_err(), "missing host");
}

#[test]
fn raw_extractors() {
    assert_eq!(Url::extract_host("http://h:0080/a?q=1").unwrap(), "h");
    assert_eq!(Url::extract_port("http://h:0080/").unwrap(), "0080");
    assert_eq!(Url::extract_path("http://h/a/b?q=1").unwrap(), "/a/b");
    assert_eq!(Url::extract_search_part("http://h/a?q=1&r=2").unwrap(), "?q=1&r=2");
    assert_eq!(Url::extract_search_part("http://h/a").unwrap(), "");
    assert_eq!(Url::extract_path("http://h").unwrap(), "/");
    assert!(Url::extract_port("http://h:x/").is_err());
}
