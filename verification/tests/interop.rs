use minttp::error::ConvertError;
use minttp::interop::Version;
use minttp::response::Response;

fn plain() -> Response {
    Response::new(b"HTTP/1.1 200 OK\r\n\r\n").unwrap()
}

fn with_header(name: &str, value: &[u8]) -> Response {
    let mut r = plain();
    r.headers.insert(name.to_string(), value.to_vec());
    r
}

fn is_name_byte(b: u8) -> bool {
    b.is_ascii_alphanumeric() || b"!#$%&'*+-.^_`|~".contains(&b)
}

#[test]
fn try_into_hands_every_part_on() {
    let r = Response::new(
        b"HTTP/1.1 404 Not Found\r\nContent-Type: text/plain\r\nX-A: 1\r\n\r\nhello",
    )
    .unwrap();
    let (head, body) = r.try_into().unwrap();
    let out = http::Response::from_parts(head, body);
    assert_eq!(out.status(), http::StatusCode::NOT_FOUND);
    assert_eq!(out.version(), http::Version::HTTP_11);
    assert_eq!(out.headers().len(), 2);
    assert_eq!(out.headers().get("content-type").unwrap().as_bytes(), b"text/plain");
    assert_eq!(out.headers().get("x-a").unwrap().as_bytes(), b"1");
    let names: Vec<&str> = out.headers().keys().map(|k| k.as_str()).collect();
    assert_eq!(names, ["content-type", "x-a"]);
    assert_eq!(out.extensions().get::<String>(), Some(&"Not".to_string()));
    assert_eq!(out.body(), b"hello");
}

#[test]
fn try_into_maps_the_version_text() {
    let cases = [
        ("HTTP/0.9", http::Version::HTTP_09, Version::Http09),
        ("HTTP/1.0", http::Version::HTTP_10, Version::Http10),
        ("HTTP/1.1", http::Version::HTTP_11, Version::Http11),
        ("HTTP/2.0", http::Version::HTTP_2, Version::H2),
        ("HTTP/3.0", http::Version::HTTP_10, Version::Http10),
        ("HTTP/2", http::Version::HTTP_10, Version::Http10),
        ("http/1.1", http::Version::HTTP_10, Version::Http10),
        ("x", http::Version::HTTP_10, Version::Http10),
    ];
    for (text, want, own) in cases {
        let mut r = plain();
        r.http_version = text.to_string();
        assert_eq!(r.version(), own, "{}", text);
        let (head, _) = r.try_into().unwrap();
        assert_eq!(head.version, want, "{}", text);
    }
}

#[test]
fn try_into_accepts_the_status_codes_from_100_to_999() {
    let mut c = 0u32;
    while c <= 65535 {
        let mut r = plain();
        r.status = c as u16;
        match r.try_into() {
            Ok((head, _)) => {
                assert!((100..=999).contains(&c), "{}", c);
                assert_eq!(head.status.as_u16() as u32, c);
            }
            Err(e) => {
                assert!(!(100..=999).contains(&c), "{}", c);
                assert_eq!(e, ConvertError::StatusCode);
            }
        }
        c += 1;
    }
}

#[test]
fn try_into_accepts_the_name_bytes() {
    for b in 0u8..128 {
        let name = (b as char).to_string();
        match with_header(&name, b"v").try_into() {
            Ok((head, _)) => {
                assert!(is_name_byte(b), "{}", b);
                assert_eq!(head.headers.len(), 1);
            }
            Err(e) => {
                assert!(!is_name_byte(b), "{}", b);
                assert_eq!(e, ConvertError::HeaderName);
            }
        }
    }
    for c in ['\u{80}', 'é', '\u{FF}', '\u{3000}'] {
        assert_eq!(
            with_header(&c.to_string(), b"v").try_into().err(),
            Some(ConvertError::HeaderName)
        );
    }
}

#[test]
fn try_into_accepts_names_of_1_to_65535_bytes() {
    assert_eq!(with_header("", b"v").try_into().err(), Some(ConvertError::HeaderName));
    for n in [1usize, 2, 63, 64, 65, 66, 1000, 65534, 65535] {
        assert!(with_header(&"a".repeat(n), b"v").try_into().is_ok(), "{}", n);
    }
    for n in [65536usize, 65537, 100000] {
        assert_eq!(
            with_header(&"a".repeat(n), b"v").try_into().err(),
            Some(ConvertError::HeaderName),
            "{}",
            n
        );
    }
    for n in [2usize, 64, 65, 1000] {
        let mut name = "a".repeat(n - 1);
        name.push(' ');
        assert_eq!(
            with_header(&name, b"v").try_into().err(),
            Some(ConvertError::HeaderName),
            "{}",
            n
        );
    }
}

#[test]
fn try_into_accepts_the_value_bytes() {
    for b in 0u8..=255 {
        let ok = (b >= 32 && b != 127) || b == 9;
        match with_header("n", &[b'a', b, b'z']).try_into() {
            Ok((head, _)) => {
                assert!(ok, "{}", b);
                assert_eq!(head.headers.get("n").unwrap().as_bytes(), &[b'a', b, b'z']);
            }
            Err(e) => {
                assert!(!ok, "{}", b);
                assert_eq!(e, ConvertError::HeaderValue);
            }
        }
    }
    assert!(with_header("n", b"").try_into().is_ok());
}

#[test]
fn try_into_reports_the_first_obstacle() {
    let mut r = with_header("bad name", b"\x01");
    r.status = 99;
    assert_eq!(r.try_into().err(), Some(ConvertError::StatusCode));
    assert_eq!(with_header("bad name", b"\x01").try_into().err(), Some(ConvertError::HeaderName));
    let mut r = with_header("good", b"\x01");
    r.headers.insert("bad name".to_string(), b"v".to_vec());
    assert_eq!(r.try_into().err(), Some(ConvertError::HeaderValue));
    let mut r = with_header("good", b"v");
    r.headers.insert("bad name".to_string(), b"\x01".to_vec());
    assert_eq!(r.try_into().err(), Some(ConvertError::HeaderName));
}

#[test]
fn try_into_keeps_both_values_of_names_that_differ_in_case() {
    let mut r = with_header("X-A", b"1");
    r.headers.insert("x-a".to_string(), b"2".to_vec());
    let (head, _) = r.try_into().unwrap();
    let all: Vec<&[u8]> = head.headers.get_all("x-a").iter().map(|v| v.as_bytes()).collect();
    assert_eq!(all, [&b"1"[..], &b"2"[..]]);
}

#[test]
fn try_into_fails_where_the_header_map_is_full() {
    let mut r = plain();
    let mut n = 0u32;
    while n < 24576 {
        r.headers.insert(format!("h{}", n), Vec::new());
        n += 1;
    }
    let (head, _) = Response {
        http_version: r.http_version.clone(),
        status: r.status,
        description: r.description.clone(),
        headers: r.headers.clone(),
        body: Vec::new(),
    }
    .try_into()
    .unwrap();
    assert_eq!(head.headers.len(), 24576);
    r.headers.insert("one-more".to_string(), Vec::new());
    assert_eq!(r.try_into().err(), Some(ConvertError::MaxSizeReached));
}

#[test]
fn try_into_lowers_names_of_every_length() {
    for n in [1usize, 12, 64, 65, 200, 65535] {
        let name = "Ab-Z9_".repeat(n / 6 + 1)[..n].to_string();
        let (head, _) = with_header(&name, b"V").try_into().unwrap();
        let got: Vec<(Vec<u8>, Vec<u8>)> = head
            .headers
            .iter()
            .map(|(k, v)| (k.as_str().as_bytes().to_vec(), v.as_bytes().to_vec()))
            .collect();
        assert_eq!(got, vec![(name.to_ascii_lowercase().into_bytes(), b"V".to_vec())], "{}", n);
    }
    let (head, _) = with_header("Content-Length", b"0").try_into().unwrap();
    assert_eq!(head.headers.get(http::header::CONTENT_LENGTH).unwrap().as_bytes(), b"0");
}

#[test]
fn try_into_hands_each_field_on_once() {
    let mut r = plain();
    r.status = 503;
    r.description = "Busy".to_string();
    r.http_version = "HTTP/1.0".to_string();
    r.headers.insert("B".to_string(), b"2".to_vec());
    r.headers.insert("a".to_string(), b"1".to_vec());
    r.headers.insert("A".to_string(), b"3".to_vec());
    r.headers.insert("b".to_string(), b"2".to_vec());
    let (head, body) = r.try_into().unwrap();
    assert_eq!(body, b"");
    assert_eq!(head.status.as_u16(), 503);
    assert_eq!(head.version, http::Version::HTTP_10);
    assert_eq!(head.extensions.get::<String>(), Some(&"Busy".to_string()));
    let mut got: Vec<(String, Vec<u8>)> = head
        .headers
        .iter()
        .map(|(k, v)| (k.as_str().to_string(), v.as_bytes().to_vec()))
        .collect();
    got.sort();
    assert_eq!(
        got,
        vec![
            ("a".to_string(), b"1".to_vec()),
            ("a".to_string(), b"3".to_vec()),
            ("b".to_string(), b"2".to_vec()),
            ("b".to_string(), b"2".to_vec()),
        ]
    );
}

#[test]
fn try_into_hands_on_as_many_fields_as_are_sure() {
    assert_eq!(minttp::interop::SURE_FIELDS, 6554);
    let mut r = plain();
    let mut n = 0usize;
    while n < minttp::interop::SURE_FIELDS {
        r.headers.insert(format!("name-{}", n), format!("{}", n).into_bytes());
        n += 1;
    }
    let (head, _) = r.try_into().unwrap();
    assert_eq!(head.headers.len(), minttp::interop::SURE_FIELDS);
    assert_eq!(head.headers.get("name-6553").unwrap().as_bytes(), b"6553");
}
