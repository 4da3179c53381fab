use jhttp::error::ServerError;
use jhttp::request::{HttpRequest, Method, ParseError};

fn expect_request(
    req: &HttpRequest,
    path: &str,
    protocol: &str,
    headers: &[(&str, &str)],
    body: &str,
) {
    assert_eq!(req.method, Method::GET);
    assert_eq!(req.path, path);
    assert_eq!(req.protocol, protocol);
    assert_eq!(req.headers.len(), headers.len());
    for (k, v) in headers {
        assert_eq!(req.headers.get(k), Some(&v.to_string()));
    }
    assert_eq!(req.body, body);
}

fn test_headers() -> Vec<(&'static str, &'static str)> {
    vec![("User-Agent", "curl/7.76.1"), ("Host", "127.0.0.1:8001")]
}

#[test]
fn test_from_str_simple() {
    // Only GET is implemented: a POST request line is classified, not parsed.
    let http_form_data = HttpRequest::from_str(
        "POST /somewhere HTTP/1.1\n\
         Host: 127.0.0.1:8001\n\
         User-Agent: curl/7.76.1\n\
         \n\
         tempting=isn't it",
    );
    assert!(matches!(
        http_form_data,
        Err(ParseError::Server(ServerError::NotImplemented))
    ));
}

#[test]
fn from_str_simple_get_form_data() {
    let http_form_data = HttpRequest::from_str(
        "GET /somewhere HTTP/1.1\n\
         Host: 127.0.0.1:8001\n\
         User-Agent: curl/7.76.1\n\
         \n\
         tempting=isn't it",
    )
    .expect("http data should be properly translated");
    expect_request(
        &http_form_data,
        "/somewhere",
        "HTTP/1.1",
        &test_headers(),
        "tempting=isn't it",
    );
}

#[test]
fn test_from_str_no_body() {
    let http_no_body = HttpRequest::from_str(
        "GET /v1/test HTTP/1.1\n\
         Host: 127.0.0.1:8001\n\
         User-Agent: curl/7.76.1\n",
    )
    .expect("http data should be properly translated");
    expect_request(&http_no_body, "/v1/test", "HTTP/1.1", &test_headers(), "");
}

#[test]
fn test_from_str_new_lines_start_body() {
    let http_new_lines_start_body = HttpRequest::from_str(
        "GET /v1/test HTTP/1.1\n\
         Host: 127.0.0.1:8001\n\
         User-Agent: curl/7.76.1\n\
         \n\
         \n\
         \n\
         yeah=yeah\n",
    )
    .expect("http data should be properly translated");
    expect_request(
        &http_new_lines_start_body,
        "/v1/test",
        "HTTP/1.1",
        &test_headers(),
        "\n\nyeah=yeah",
    );
}

#[test]
fn test_from_str_space_after_header_value() {
    let http_header_space = HttpRequest::from_str(
        "GET /v1/test HTTP/1.1\n\
         User-Agent:       curl/7.76.1    \n",
    )
    .expect("http data should be properly translated");
    expect_request(
        &http_header_space,
        "/v1/test",
        "HTTP/1.1",
        &[("User-Agent", "curl/7.76.1    ")],
        "",
    );
}

#[test]
fn test_from_str_no_content() {
    let http_no_content = HttpRequest::from_str("");
    assert!(http_no_content.is_err());
}

#[test]
fn test_from_str_invalid_method() {
    let http_invalid_method = HttpRequest::from_str(
        "GET /v1/test\n\
        Test: test\n",
    );
    assert!(http_invalid_method.is_err());
}

#[test]
fn empty_input_is_the_empty_error() {
    assert!(matches!(HttpRequest::from_str(""), Err(ParseError::Empty)));
}

#[test]
fn request_line_with_two_tokens_names_the_line() {
    match HttpRequest::from_str("GET /x\n") {
        Err(ParseError::InvalidRequestLine(l)) => assert_eq!(l, "GET /x"),
        other => panic!("unexpected {:?}", other),
    }
}

#[test]
fn request_line_with_four_tokens_fails() {
    match HttpRequest::from_str("GET /x HTTP/1.1 extra\n\n") {
        Err(ParseError::InvalidRequestLine(l)) => assert_eq!(l, "GET /x HTTP/1.1 extra"),
        other => panic!("unexpected {:?}", other),
    }
}

#[test]
fn post_is_not_implemented() {
    assert!(matches!(
        HttpRequest::from_str("POST /x HTTP/1.1\n\n"),
        Err(ParseError::Server(ServerError::NotImplemented))
    ));
}

#[test]
fn method_is_case_insensitive() {
    let req = HttpRequest::from_str("get /x HTTP/1.1\n\n").expect("lower-case get parses");
    assert_eq!(req.method, Method::GET);
    assert_eq!(Method::from_str("gEt"), Ok(Method::GET));
    assert_eq!(Method::from_str("PUT"), Err(ServerError::NotImplemented));
    assert_eq!(Method::from_canonical("GET"), Ok(Method::GET));
    assert_eq!(Method::from_canonical("get"), Err(ServerError::NotImplemented));
}

#[test]
fn no_blank_line_means_all_headers_and_empty_body() {
    let req = HttpRequest::from_str("GET /x HTTP/1.1\nA: 1\nB: 2\nC: 3").expect("parses");
    expect_request(&req, "/x", "HTTP/1.1", &[("A", "1"), ("B", "2"), ("C", "3")], "");
}

#[test]
fn extra_blank_lines_start_the_body() {
    let req = HttpRequest::from_str("GET /x HTTP/1.1\nA: 1\n\n\n\nfoo=bar\n").expect("parses");
    expect_request(&req, "/x", "HTTP/1.1", &[("A", "1")], "\n\nfoo=bar");
}

#[test]
fn later_duplicate_header_overrides() {
    let req = HttpRequest::from_str("GET /x HTTP/1.1\nA: 1\nA: 2\n\n").expect("parses");
    expect_request(&req, "/x", "HTTP/1.1", &[("A", "2")], "");
}

#[test]
fn header_line_without_colon_is_dropped() {
    let req = HttpRequest::from_str("GET /x HTTP/1.1\nnot a header\nA:b:c\n\nbody").expect("parses");
    expect_request(&req, "/x", "HTTP/1.1", &[("A", "b:c")], "body");
}

#[test]
fn crlf_line_endings_are_lines() {
    let req = HttpRequest::from_str("GET /x HTTP/1.1\r\nHost: h\r\n\r\nline1\r\nline2").expect("parses");
    expect_request(&req, "/x", "HTTP/1.1", &[("Host", "h")], "line1\nline2");
}

#[test]
fn body_keeps_inner_blank_lines() {
    let req = HttpRequest::from_str("GET /x HTTP/1.1\nH: v\n\na\n\nb").expect("parses");
    expect_request(&req, "/x", "HTTP/1.1", &[("H", "v")], "a\n\nb");
}

#[test]
fn round_trip_of_three_headers_and_body() {
    let text = "GET /index.html HTTP/1.1\nHost: example\nAccept: */*\nX-Note: a b  \n\nname=value\nsecond";
    let req = HttpRequest::from_str(text).expect("parses");
    expect_request(
        &req,
        "/index.html",
        "HTTP/1.1",
        &[("Host", "example"), ("Accept", "*/*"), ("X-Note", "a b  ")],
        "name=value\nsecond",
    );
}
