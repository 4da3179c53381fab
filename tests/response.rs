use jhttp::error::ServerError;
use jhttp::headers::Headers;
use jhttp::response::{HttpResponse, StatusCode};

#[test]
fn status_codes_and_messages() {
    assert_eq!(StatusCode::Success.code(), 200);
    assert_eq!(StatusCode::NotFound.code(), 404);
    assert_eq!(StatusCode::NotImplemented.code(), 501);
    assert_eq!(StatusCode::Success.message(), "Success");
    assert_eq!(StatusCode::NotFound.message(), "Not Found");
    assert_eq!(StatusCode::NotImplemented.message(), "Not Implemented");
}

#[test]
fn serialize_hello() {
    let mut h = Headers::new();
    h.insert("Content-Length".to_string(), "5".to_string());
    let r = HttpResponse::new(StatusCode::Success, h, Some("hello".to_string()));
    assert_eq!(r.to_string(), "HTTP/1.1 200 Success\nContent-Length: 5\n\nhello");
}

#[test]
fn content_length_overrides_the_callers_value() {
    let mut h = Headers::new();
    h.insert("Content-Length".to_string(), "999".to_string());
    let r = HttpResponse::new(StatusCode::Success, h, Some("abc".to_string()));
    assert_eq!(r.headers().get("Content-Length"), Some(&"3".to_string()));
    assert_eq!(r.headers().len(), 1);
}

#[test]
fn content_length_counts_utf8_bytes() {
    let r = HttpResponse::new(StatusCode::Success, Headers::new(), Some("héllo wörld €".to_string()));
    assert_eq!(r.headers().get("Content-Length"), Some(&"17".to_string()));
    let big = "x".repeat(12345);
    let r = HttpResponse::new(StatusCode::Success, Headers::new(), Some(big));
    assert_eq!(r.headers().get("Content-Length"), Some(&"12345".to_string()));
}

#[test]
fn no_body_no_content_length() {
    let r = HttpResponse::new(StatusCode::NotFound, Headers::new(), None);
    assert_eq!(r.headers().len(), 0);
    assert_eq!(r.body(), None);
    assert_eq!(r.status(), StatusCode::NotFound);
    assert_eq!(r.to_string(), "HTTP/1.1 404 Not Found\n\n\n");
}

#[test]
fn empty_body_has_zero_length() {
    let r = HttpResponse::new(StatusCode::Success, Headers::new(), Some(String::new()));
    assert_eq!(r.to_string(), "HTTP/1.1 200 Success\nContent-Length: 0\n\n");
}

#[test]
fn headers_serialize_in_insertion_order() {
    let mut h = Headers::new();
    h.insert("A".to_string(), "1".to_string());
    h.insert("B".to_string(), "2".to_string());
    h.insert("A".to_string(), "3".to_string());
    let r = HttpResponse::new(StatusCode::NotImplemented, h, None);
    assert_eq!(r.to_string(), "HTTP/1.1 501 Not Implemented\nA: 3\nB: 2\n\n");
}

#[test]
fn default_response_has_default_headers() {
    let r = HttpResponse::default();
    assert_eq!(r.status(), StatusCode::Success);
    assert_eq!(r.body(), None);
    let h = r.headers();
    assert_eq!(h.len(), 4);
    assert_eq!(h.get("Server"), Some(&"jhttp/0.1".to_string()));
    assert_eq!(h.get("Content-Type"), Some(&"text/html".to_string()));
    assert_eq!(h.get("Content-Length"), Some(&"0".to_string()));
    let date = h.get("Date").expect("a date header");
    assert!(date.contains(":"));
    assert!(date.ends_with("+0000"));
}

#[test]
fn server_error_names() {
    assert_eq!(ServerError::NotFound.to_string(), "NotFound");
    assert_eq!(ServerError::NotImplemented.to_string(), "NotImplemented");
}
