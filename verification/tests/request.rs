use minttp::headers::Headers;
use minttp::consts::{CONNECT, DELETE, GET, HEAD, PATCH, POST, PUT, TRACE};
use minttp::{DIYRequest, Request};
use minttp::url::Url;

#[test]
fn encode_writes_request_line_headers_and_blank_line() {
    let mut headers = Headers::new();
    headers.insert("Host".to_string(), b"example.com".to_vec());
    let req = DIYRequest {
        ssl: false,
        host: "example.com",
        port: 80,
        method: "GET",
        path: "/",
        http_version: "1.1",
        headers: &headers,
        body: None,
    };
    assert_eq!(req.encode(), b"GET / HTTP/1.1\r\nHost:example.com\r\n\r\n");
}

#[test]
fn encode_without_headers() {
    let headers = Headers::new();
    let req = DIYRequest {
        ssl: true,
        host: "h",
        port: 443,
        method: "HEAD",
        path: "/x?y",
        http_version: "1.0",
        headers: &headers,
        body: None,
    };
    assert_eq!(req.encode(), b"HEAD /x?y HTTP/1.0\r\n\r\n");
}

#[test]
fn encode_writes_headers_in_order_and_raw() {
    let mut headers = Headers::new();
    headers.insert("B".to_string(), b" spaced ".to_vec());
    headers.insert("A".to_string(), vec![0xFF, 0x00]);
    headers.insert("Ü".to_string(), b"".to_vec());
    let req = DIYRequest {
        ssl: false,
        host: "h",
        port: 80,
        method: "GET",
        path: "/",
        http_version: "1.1",
        headers: &headers,
        body: None,
    };
    let mut want = b"GET / HTTP/1.1\r\nB: spaced \r\nA:\xFF\x00\r\n".to_vec();
    want.extend_from_slice("Ü:\r\n\r\n".as_bytes());
    assert_eq!(req.encode(), want);
}

#[test]
fn encode_writes_the_body_and_a_line_break() {
    let mut headers = Headers::new();
    headers.insert("Content-Length".to_string(), b"3".to_vec());
    let req = DIYRequest {
        ssl: false,
        host: "h",
        port: 80,
        method: "POST",
        path: "/p",
        http_version: "1.1",
        headers: &headers,
        body: Some(b"a\nb"),
    };
    assert_eq!(req.encode(), b"POST /p HTTP/1.1\r\nContent-Length:3\r\n\r\na\nb\r\n");
    let req = DIYRequest { body: Some(b""), ..req };
    assert_eq!(req.encode(), b"POST /p HTTP/1.1\r\nContent-Length:3\r\n\r\n\r\n");
}

#[test]
fn encode_adds_no_header_of_its_own() {
    let headers = Headers::new();
    let req = DIYRequest {
        ssl: false,
        host: "example.com",
        port: 8080,
        method: "PUT",
        path: "/",
        http_version: "1.1",
        headers: &headers,
        body: Some(b"x"),
    };
    assert_eq!(req.encode(), b"PUT / HTTP/1.1\r\n\r\nx\r\n");
}

#[test]
fn method_names() {
    assert_eq!(
        [GET, HEAD, POST, PUT, DELETE, CONNECT, TRACE, PATCH],
        ["GET", "HEAD", "POST", "PUT", "DELETE", "CONNECT", "TRACE", "PATCH"]
    );
}

#[test]
fn request_new_is_a_get_without_headers_and_body() {
    let url = Url::from_str("example.com/path").unwrap();
    let req = Request::new(url.clone());
    assert_eq!(req.url, url);
    assert_eq!(req.method, "GET");
    assert_eq!(req.headers.len(), 0);
    assert_eq!(req.body, None);
}

#[test]
fn request_builders_set_one_part_each() {
    let a = Url::from_str("a.example/1").unwrap();
    let b = Url::from_str("https://b.example/2").unwrap();
    let req = Request::new(a.clone()).method(POST);
    assert_eq!(req.method, "POST");
    assert_eq!(req.url, a);
    let req = req.url(b.clone());
    assert_eq!(req.url, b);
    assert_eq!(req.method, "POST");
    let req = req.header("X", b"1").header("Y", b"2").header("X", b"3");
    assert_eq!(req.headers.len(), 2);
    assert_eq!(req.headers.get("X"), Some(&b"3"[..]));
    assert_eq!(req.headers.get("Y"), Some(&b"2"[..]));
    assert_eq!(req.body, None);
    let req = req.body(b"data".to_vec());
    assert_eq!(req.body, Some(b"data".to_vec()));
    assert_eq!(req.headers.len(), 2);
    assert_eq!(req.url, b);
    assert!(req.is_secure());
    assert!(!Request::new(a).is_secure());
}

#[test]
fn request_wire_headers_add_the_defaults() {
    let url = Url::from_str("example.com:8080/path").unwrap();
    let req = Request::new(url).header("Accept", b"*/*");
    let h = req.wire_headers();
    assert_eq!(h.len(), 3);
    assert_eq!(h.name(0), "Accept");
    assert_eq!(h.name(1), "Host");
    assert_eq!(h.value(1), b"example.com");
    assert_eq!(h.name(2), "Connection");
    assert_eq!(h.value(2), b"close");
    let h = req.body(vec![0; 1234]).wire_headers();
    assert_eq!(h.len(), 4);
    assert_eq!(h.name(3), "Content-Length");
    assert_eq!(h.value(3), b"1234");
}

#[test]
fn request_defaults_replace_the_callers_fields() {
    let url = Url::from_str("example.com").unwrap();
    let req = Request::new(url)
        .header("Host", b"other")
        .header("Content-Length", b"99")
        .header("Connection", b"keep-alive")
        .body(Vec::new());
    let h = req.wire_headers();
    assert_eq!(h.len(), 3);
    assert_eq!(h.get("Host"), Some(&b"example.com"[..]));
    assert_eq!(h.get("Content-Length"), Some(&b"0"[..]));
    assert_eq!(h.get("Connection"), Some(&b"close"[..]));
}

#[test]
fn request_encode_writes_the_full_path_and_the_defaults() {
    let url = Url::from_str("example.com/path?key=val").unwrap();
    assert_eq!(
        Request::new(url.clone()).encode(),
        b"GET /path?key=val HTTP/1.1\r\nHost:example.com\r\nConnection:close\r\n\r\n"
    );
    assert_eq!(
        Request::new(url).method(POST).body(b"hi".to_vec()).encode(),
        &b"POST /path?key=val HTTP/1.1\r\nHost:example.com\r\nConnection:close\r\nContent-Length:2\r\n\r\nhi\r\n"[..]
    );
}

#[test]
fn default_headers_for_a_body_of_no_bytes() {
    let mut given = Headers::new();
    given.insert("Test".to_string(), b"Hello World".to_vec());
    let h = minttp::request::default_headers(&given, "", Some(0));
    assert_eq!(h.len(), 4);
    assert_eq!(h.get("Test"), Some(&b"Hello World"[..]));
    assert_eq!(h.get("Host"), Some(&b""[..]));
    assert_eq!(h.get("Connection"), Some(&b"close"[..]));
    assert_eq!(h.get("Content-Length"), Some(&b"0"[..]));
    let h = minttp::request::default_headers(&given, "h", None);
    assert_eq!(h.len(), 3);
    assert_eq!(h.get("Content-Length"), None);
    assert_eq!(given.len(), 1);
}

#[test]
fn requests_compare_by_their_parts() {
    let url = Url::from_str("example.com").unwrap();
    let a = Request::new(url.clone()).header("A", b"1").header("B", b"2");
    let b = Request::new(url.clone()).header("B", b"2").header("A", b"1");
    assert_eq!(a, b);
    assert_eq!(a, a.clone());
    assert_ne!(a, b.clone().method(POST));
    assert_ne!(a, b.clone().body(Vec::new()));
    assert_ne!(a, b.header("A", b"2"));
}
