use urlparse::http_client::HttpClient;
use urlparse::url::{Host, Port, Schema, Url, UrlError};

#[test]
fn normal() {
    let actual = Url::new("http://example.com:8080/path/to/resource?q1=A&q2=B".to_string());
    assert_eq!(actual.schema, Schema::Http);
    assert_eq!(actual.host, Host("example.com".to_string()));
    assert_eq!(actual.port, Port(8080));
}

#[test]
fn default_port() {
    let u = Url::parse("http://example.com").unwrap();
    assert_eq!(u.host, Host("example.com".to_string()));
    assert_eq!(u.port, Port(80));
    assert_eq!(u.path, "/");
    assert!(u.query_strings.is_empty());
}

#[test]
fn default_path() {
    let u = Url::parse("http://example.com:8080").unwrap();
    assert_eq!(u.port, Port(8080));
    assert_eq!(u.path, "/");
}

#[test]
fn path_and_query() {
    let u = Url::parse("http://example.com:8080/path/to/resource?q1=A&q2=B").unwrap();
    assert_eq!(u.host, Host("example.com".to_string()));
    assert_eq!(u.port, Port(8080));
    assert_eq!(u.path, "/path/to/resource");
    assert_eq!(
        u.query_strings,
        vec![
            ("q1".to_string(), "A".to_string()),
            ("q2".to_string(), "B".to_string()),
        ]
    );
}

#[test]
fn missing_separator() {
    let e = Url::parse("example.com/path").unwrap_err();
    assert!(matches!(e, UrlError::MissingSchemeSeparator));
}

#[test]
fn unsupported_scheme() {
    let e = Url::parse("ftp://example.com").unwrap_err();
    match e {
        UrlError::UnsupportedScheme(t) => assert_eq!(t, "ftp"),
        other => panic!("wrong error: {:?}", other),
    }
}

#[test]
fn invalid_port() {
    let e = Url::parse("http://example.com:notaport/").unwrap_err();
    match e {
        UrlError::InvalidPort(t) => assert_eq!(t, "notaport"),
        other => panic!("wrong error: {:?}", other),
    }
}

#[test]
fn missing_host() {
    assert!(matches!(Url::parse("http:///x").unwrap_err(), UrlError::MissingHost));
    assert!(matches!(Url::parse("http://:80/").unwrap_err(), UrlError::MissingHost));
    assert!(matches!(Url::parse("http://").unwrap_err(), UrlError::MissingHost));
}

#[test]
fn arbitrary_inputs_terminate() {
    let inputs = [
        "",
        "://",
        ":////??",
        "a://b",
        "http",
        "http:/x",
        "http://h:999999999999",
        "?&=&&==",
        "http://h/p?&&a&b=c=d&",
        "http://h:0/",
        "http://h?not/a/path",
    ];
    for i in inputs {
        let _ = Url::parse(i);
    }
    assert!(Url::parse("http://h:65535/").is_ok());
    assert!(matches!(
        Url::parse("http://h:65536/").unwrap_err(),
        UrlError::InvalidPort(_)
    ));
}

#[test]
fn empty_scheme_is_unsupported() {
    match Url::parse("://host").unwrap_err() {
        UrlError::UnsupportedScheme(t) => assert_eq!(t, ""),
        other => panic!("wrong error: {:?}", other),
    }
}

#[test]
fn round_trip_canonical() {
    let u = Url::parse("http://example.com:8080/path/to/resource?q1=A&q2=B").unwrap();
    let s = u.canonical_string();
    assert_eq!(s, "http://example.com:8080/path/to/resource?q1=A&q2=B");
    let v = Url::parse(&s).unwrap();
    assert_eq!(u, v);

    let w = Url::parse("http://example.com").unwrap();
    assert_eq!(w.canonical_string(), "http://example.com:80/");
    let w2 = Url::parse(&w.canonical_string()).unwrap();
    assert_eq!(w, w2);

    let x = Url::parse("http://h:0080/a?k&k=2").unwrap();
    let x2 = Url::parse(&x.canonical_string()).unwrap();
    assert_eq!(x, x2);
}

#[test]
fn query_policies() {
    let u = Url::parse("http://h/p?a&b=1&&c=x=y&b=2").unwrap();
    assert_eq!(
        u.query_strings,
        vec![
            ("a".to_string(), "".to_string()),
            ("b".to_string(), "1".to_string()),
            ("c".to_string(), "x=y".to_string()),
            ("b".to_string(), "2".to_string()),
        ]
    );
}

#[test]
fn port_is_digits_only() {
    assert!(matches!(
        Url::parse("http://h:+80/").unwrap_err(),
        UrlError::InvalidPort(t) if t == "+80"
    ));
    assert!(matches!(
        Url::parse("http://h:/").unwrap_err(),
        UrlError::InvalidPort(t) if t == ""
    ));
    assert_eq!(Url::parse("http://h:0080/").unwrap().port, Port(80));
}

#[test]
fn only_first_separator_counts() {
    let u = Url::parse("http://h/a://b").unwrap();
    assert_eq!(u.host, Host("h".to_string()));
    assert_eq!(u.path, "/a://b");
}

#[test]
fn second_colon_belongs_to_port_text() {
    match Url::parse("http://h:80:81/").unwrap_err() {
        UrlError::InvalidPort(t) => assert_eq!(t, "80:81"),
        other => panic!("wrong error: {:?}", other),
    }
}

#[test]
fn extract_components() {
    assert_eq!(Url::extract_schema("http://h/").unwrap(), Schema::Http);
    assert_eq!(Url::extract_host("http://h:1/x").unwrap(), Host("h".to_string()));
    assert_eq!(Url::extract_port("http://h/x").unwrap(), Port(80));
    assert!(Url::extract_host("h/x").is_err());
}

#[test]
fn error_messages() {
    assert_eq!(Url::parse("x").unwrap_err().message(), "missing scheme separator");
    assert_eq!(Url::parse("ftp://x").unwrap_err().message(), "unsupported scheme: ftp");
    assert_eq!(Url::parse("http:///").unwrap_err().message(), "missing host");
    assert_eq!(Url::parse("http://h:x/").unwrap_err().message(), "invalid port: x");
}

#[test]
fn http_client_handle() {
    assert_eq!(HttpClient::new(), HttpClient::new());
}
