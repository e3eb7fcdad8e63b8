use minttp::decimal::IntErrorKind;
use minttp::error::Error;
use minttp::url::{encode, Url};

#[test]
fn test1() {
    let url = "protocol://example.com:123/path?key=val"
        .parse::<Url>()
        .unwrap();
    assert_eq!(
        url,
        Url {
            protocol: "protocol".to_string(),
            host: "example.com".to_string(),
            port: 123,
            path: "/path".to_string(),
            query: Some("key=val".to_string()),
            fullpath: "/path?key=val".to_string()
        }
    );
}

#[test]
fn test2() {
    let url = "example.com/path".parse::<Url>().unwrap();
    assert_eq!(
        url,
        Url {
            protocol: "http".to_string(),
            host: "example.com".to_string(),
            port: 80,
            path: "/path".to_string(),
            query: None,
            fullpath: "/path".to_string()
        }
    );
}

#[test]
fn url_round_trip_on_a_full_text() {
    let text = "protocol://example.com:123/path?key=val";
    assert_eq!(Url::from_str(text).unwrap().to_string(), text);
    let text = "https://h:443/";
    assert_eq!(Url::from_str(text).unwrap().to_string(), text);
    let text = "s://:0/a/b?c?d";
    assert_eq!(Url::from_str(text).unwrap().to_string(), text);
}

#[test]
fn url_format_writes_the_default_port() {
    assert_eq!(Url::from_str("example.com/path").unwrap().to_string(), "http://example.com:80/path");
    assert_eq!(Url::from_str("https://example.com").unwrap().to_string(), "https://example.com:443/");
}

#[test]
fn url_default_port_follows_the_scheme() {
    assert_eq!(Url::from_str("https://example.com/x").unwrap().port, 443);
    assert_eq!(Url::from_str("http://example.com/x").unwrap().port, 80);
    assert_eq!(Url::from_str("httpsx://example.com/x").unwrap().port, 80);
    assert_eq!(Url::from_str("ftp://example.com").unwrap().port, 80);
    assert_eq!(Url::from_str("example.com").unwrap().port, 80);
}

#[test]
fn url_without_path_has_root_path() {
    let url = Url::from_str("example.com").unwrap();
    assert_eq!(url.host, "example.com");
    assert_eq!(url.path, "/");
    assert_eq!(url.query, None);
    assert_eq!(url.fullpath, "/");
    let url = Url::from_str("a://example.com:8080").unwrap();
    assert_eq!(url.host, "example.com");
    assert_eq!(url.port, 8080);
    assert_eq!(url.fullpath, "/");
}

#[test]
fn url_host_is_trimmed_of_the_path_when_no_port_is_given() {
    let url = Url::from_str("https://example.com/a/b?x=1&y=2").unwrap();
    assert_eq!(url.host, "example.com");
    assert_eq!(url.path, "/a/b");
    assert_eq!(url.query, Some("x=1&y=2".to_string()));
    assert_eq!(url.fullpath, "/a/b?x=1&y=2");
}

#[test]
fn url_empty_host_and_unknown_scheme_are_accepted() {
    let url = Url::from_str("").unwrap();
    assert_eq!(url.protocol, "http");
    assert_eq!(url.host, "");
    assert_eq!(url.port, 80);
    assert_eq!(url.fullpath, "/");
    let url = Url::from_str("gopher://:70/x").unwrap();
    assert_eq!(url.protocol, "gopher");
    assert_eq!(url.host, "");
    assert_eq!(url.port, 70);
}

#[test]
fn url_is_not_percent_decoded() {
    let url = Url::from_str("example.com/a%20b?c=%3F").unwrap();
    assert_eq!(url.path, "/a%20b");
    assert_eq!(url.query, Some("c=%3F".to_string()));
}

#[test]
fn url_non_ascii_text_is_kept() {
    let url = Url::from_str("é://bücher.example:81/päth?ü=1").unwrap();
    assert_eq!(url.protocol, "é");
    assert_eq!(url.host, "bücher.example");
    assert_eq!(url.port, 81);
    assert_eq!(url.path, "/päth");
    assert_eq!(url.query, Some("ü=1".to_string()));
    assert_eq!(url.to_string(), "é://bücher.example:81/päth?ü=1");
}

#[test]
fn url_bad_port_is_an_integer_error() {
    assert_eq!(
        Url::from_str("example.com:x/path"),
        Err(Error::ParseIntError(IntErrorKind::InvalidDigit))
    );
    assert_eq!(Url::from_str("example.com:/path"), Err(Error::ParseIntError(IntErrorKind::Empty)));
    assert_eq!(
        Url::from_str("example.com:65536"),
        Err(Error::ParseIntError(IntErrorKind::PosOverflow))
    );
    assert_eq!(
        Url::from_str("example.com/path:foo"),
        Err(Error::ParseIntError(IntErrorKind::InvalidDigit))
    );
    assert_eq!(Url::from_str("example.com:65535").unwrap().port, 65535);
    assert_eq!(Url::from_str("example.com:+080/").unwrap().port, 80);
}

#[test]
fn encode_passes_letters_and_escapes_the_rest() {
    assert_eq!(encode("abcXYZ"), "abcXYZ");
    assert_eq!(encode("a b"), "a%20b");
    assert_eq!(encode("0-9"), "%30%2D%39");
    assert_eq!(encode("/?&="), "%2F%3F%26%3D");
    assert_eq!(encode(""), "");
    assert_eq!(encode("é"), "%C3%A9");
    assert_eq!(encode("@[`{"), "%40%5B%60%7B");
}

#[test]
fn encode_writes_two_digits_for_small_bytes() {
    assert_eq!(encode("\n"), "%0A");
    assert_eq!(encode("\u{0}\t"), "%00%09");
}

#[test]
fn url_from_parts_fills_in_scheme_port_and_root() {
    let url = Url::from_parts(None, "example.com", None, "", None);
    assert_eq!(
        url,
        Url {
            protocol: "http".to_string(),
            host: "example.com".to_string(),
            port: 80,
            path: "/".to_string(),
            query: None,
            fullpath: "/".to_string()
        }
    );
    let url = Url::from_parts(Some("https"), "example.com", None, "/a/b", Some("k=v"));
    assert_eq!(
        url,
        Url {
            protocol: "https".to_string(),
            host: "example.com".to_string(),
            port: 443,
            path: "/a/b".to_string(),
            query: Some("k=v".to_string()),
            fullpath: "/a/b?k=v".to_string()
        }
    );
    let url = Url::from_parts(Some("https"), "h", Some(8443), "x", Some(""));
    assert_eq!(url.port, 8443);
    assert_eq!(url.path, "/x");
    assert_eq!(url.query, Some("".to_string()));
    assert_eq!(url.fullpath, "/x?");
    assert_eq!(Url::from_parts(Some("ftp"), "h", None, "*", None).port, 80);
}

#[test]
fn url_from_parts_agrees_with_parsing() {
    let parsed = Url::from_str("https://example.com:8443/a/b?k=v").unwrap();
    let built = Url::from_parts(Some("https"), "example.com", Some(8443), "/a/b", Some("k=v"));
    assert_eq!(parsed, built);
}

#[test]
fn is_https_is_exact() {
    assert!(minttp::url::is_https("https"));
    for other in ["", "http", "HTTPS", "https ", "httpss", "xhttps", "httpz"] {
        assert!(!minttp::url::is_https(other), "{:?}", other);
    }
}
