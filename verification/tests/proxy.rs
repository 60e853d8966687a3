use cow::headers::Header;
use cow::proxy::{
    create_proxy_request, create_response, forward_text, forward_uri, try_create_proxy_request,
    ProxyRequest,
};
use cow::response::proxy_failure_response;

fn header(name: &str, value: &str) -> Header {
    Header { name: name.to_string(), value: value.as_bytes().to_vec() }
}

fn pairs(headers: &[Header]) -> Vec<(String, String)> {
    headers
        .iter()
        .map(|h| (h.name.clone(), String::from_utf8(h.value.clone()).unwrap()))
        .collect()
}

fn owned(list: &[(&str, &str)]) -> Vec<(String, String)> {
    list.iter().map(|(k, v)| (k.to_string(), v.to_string())).collect()
}

#[test]
fn forward_text_keeps_the_query() {
    assert_eq!(
        forward_text("http://127.0.0.1:8000", "/api/v1/users", Some("page=2&size=10")),
        "http://127.0.0.1:8000/api/v1/users?page=2&size=10"
    );
}

#[test]
fn forward_text_without_query() {
    assert_eq!(forward_text("http://127.0.0.1:8000", "/", None), "http://127.0.0.1:8000/");
}

#[test]
fn forward_text_with_empty_query_keeps_the_question_mark() {
    assert_eq!(forward_text("http://up", "/x", Some("")), "http://up/x?");
}

#[test]
fn forward_uri_is_parsed() {
    let u = forward_uri("http://127.0.0.1:8000", "/a/b", Some("q=1"));
    assert_eq!(u.text, "http://127.0.0.1:8000/a/b?q=1");
    assert_eq!(u.uri.host(), Some("127.0.0.1"));
    assert_eq!(u.uri.port_part().map(|p| p.as_u16()), Some(8000));
    assert_eq!(u.uri.path(), "/a/b");
    assert_eq!(u.uri.query(), Some("q=1"));
    assert_eq!(u.uri, u.text.parse::<http::Uri>().unwrap());
}

#[test]
fn an_unparsable_upstream_uri_is_refused() {
    let request = ProxyRequest { path: "/x".to_string(), query: None, headers: Vec::new() };
    assert!(try_create_proxy_request("127.0.0.1", "not a uri", request).is_none());
}

#[test]
fn a_parsable_upstream_uri_is_forwarded() {
    let request = ProxyRequest { path: "/x".to_string(), query: None, headers: Vec::new() };
    let out = try_create_proxy_request("127.0.0.1", "http://10.0.0.2:9000", request).unwrap();
    assert_eq!(out.uri_text, "http://10.0.0.2:9000/x");
    assert_eq!(out.uri.path(), "/x");
    assert_eq!(pairs(&out.headers), owned(&[("x-forwarded-for", "127.0.0.1")]));
}

#[test]
fn proxy_request_starts_the_forwarded_for_list() {
    let request = ProxyRequest {
        path: "/api/v1/items".to_string(),
        query: None,
        headers: vec![header("host", "localhost:3000"), header("connection", "keep-alive")],
    };
    let out = create_proxy_request("127.0.0.1", "http://127.0.0.1:8000", request);
    assert_eq!(out.uri_text, "http://127.0.0.1:8000/api/v1/items");
    assert_eq!(
        pairs(&out.headers),
        owned(&[("host", "localhost:3000"), ("x-forwarded-for", "127.0.0.1")])
    );
}

#[test]
fn proxy_request_extends_the_forwarded_for_list() {
    let request = ProxyRequest {
        path: "/search".to_string(),
        query: Some("q=cow".to_string()),
        headers: vec![
            header("x-forwarded-for", "10.0.0.7"),
            header("accept", "*/*"),
            header("transfer-encoding", "chunked"),
        ],
    };
    let out = create_proxy_request("127.0.0.1", "http://127.0.0.1:8000", request);
    assert_eq!(out.uri_text, "http://127.0.0.1:8000/search?q=cow");
    assert_eq!(out.uri.query(), Some("q=cow"));
    assert_eq!(out.uri, "http://127.0.0.1:8000/search?q=cow".parse::<http::Uri>().unwrap());
    assert_eq!(
        pairs(&out.headers),
        owned(&[("x-forwarded-for", "10.0.0.7, 127.0.0.1"), ("accept", "*/*")])
    );
}

#[test]
fn proxy_request_extends_the_first_forwarded_for_value() {
    let request = ProxyRequest {
        path: "/".to_string(),
        query: None,
        headers: vec![
            header("accept", "*/*"),
            header("x-forwarded-for", "1.1.1.1"),
            header("x-forwarded-for", "2.2.2.2"),
            header("cookie", "a=1"),
        ],
    };
    let out = create_proxy_request("::1", "http://up", request);
    assert_eq!(
        pairs(&out.headers),
        owned(&[("accept", "*/*"), ("x-forwarded-for", "1.1.1.1, ::1"), ("cookie", "a=1")])
    );
}

#[test]
fn upstream_answer_loses_its_hop_headers() {
    let headers = vec![
        header("content-type", "text/plain"),
        header("Keep-Alive", "timeout=5"),
        header("Connection", "keep-alive"),
        header("content-length", "2"),
    ];
    let out = create_response(&headers);
    assert_eq!(pairs(&out), owned(&[("content-type", "text/plain"), ("content-length", "2")]));
}

#[test]
fn unreachable_upstream_is_answered_with_500_and_the_error() {
    let r = proxy_failure_response("connection refused".to_string());
    assert_eq!(r.status, 500);
    assert!(r.headers.is_empty());
    assert_eq!(r.body, b"connection refused".to_vec());
}
