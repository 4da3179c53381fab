use jhttp::connection::{step, ConnAction, ConnEvent, ConnState};
use jhttp::error::ServerError;
use jhttp::request::HttpRequest;
use jhttp::response::StatusCode;
use jhttp::router::{error_response, file_path, route_result, route_target};

#[test]
fn root_maps_to_default_page() {
    assert_eq!(file_path("/", "index.html"), "index.html");
    assert_eq!(file_path("/a/b.txt", "index.html"), "a/b.txt");
    assert_eq!(file_path("", "index.html"), "");
    assert_eq!(file_path("x", "index.html"), "x");
}

#[test]
fn get_root_serves_index_contents() {
    let req = HttpRequest::from_str("GET / HTTP/1.1\n\n").expect("parses");
    assert_eq!(route_target(&req, "index.html"), "index.html");
    let contents = "<h1>héllo</h1>\n".to_string();
    let resp = route_result(Some(contents.clone())).expect("served");
    assert_eq!(resp.status(), StatusCode::Success);
    assert_eq!(resp.body(), Some(&contents));
    assert_eq!(
        resp.headers().get("Content-Length"),
        Some(&contents.as_bytes().len().to_string())
    );
    assert_eq!(resp.headers().len(), 1);
}

#[test]
fn missing_file_is_not_found_and_maps_to_404() {
    let req = HttpRequest::from_str("GET /missing.txt HTTP/1.1\n\n").expect("parses");
    assert_eq!(route_target(&req, "index.html"), "missing.txt");
    let e = route_result(None).expect_err("not found");
    assert_eq!(e, ServerError::NotFound);
    let resp = error_response(e);
    assert_eq!(resp.status().code(), 404);
    assert_eq!(resp.body(), None);
    assert_eq!(resp.to_string(), "HTTP/1.1 404 Not Found\n\n\n");
}

#[test]
fn not_implemented_maps_to_501() {
    let resp = error_response(ServerError::NotImplemented);
    assert_eq!(resp.status().code(), 501);
    assert_eq!(resp.body(), None);
}

fn write_of(a: ConnAction) -> String {
    match a {
        ConnAction::Write(w) => w,
        other => panic!("expected a write, got {:?}", other),
    }
}

#[test]
fn connection_serves_a_file() {
    let (s, a) = step(
        ConnState::AwaitingRead,
        ConnEvent::Received("GET /page.html HTTP/1.1\nHost: h\n\n".to_string()),
        "index.html",
    );
    assert_eq!(s, ConnState::Routing);
    match a {
        ConnAction::ReadFile(f) => assert_eq!(f, "page.html"),
        other => panic!("expected a file read, got {:?}", other),
    }
    let (s, a) = step(s, ConnEvent::FileRead("hi".to_string()), "index.html");
    assert_eq!(s, ConnState::Writing);
    assert_eq!(write_of(a), "HTTP/1.1 200 Success\nContent-Length: 2\n\nhi");
    let (s, a) = step(s, ConnEvent::WriteFinished, "index.html");
    assert_eq!(s, ConnState::Closed);
    assert!(matches!(a, ConnAction::Shutdown));
}

#[test]
fn connection_reports_missing_file() {
    let (s, a) = step(ConnState::Routing, ConnEvent::FileUnreadable, "index.html");
    assert_eq!(s, ConnState::Writing);
    assert_eq!(write_of(a), "HTTP/1.1 404 Not Found\n\n\n");
}

#[test]
fn connection_answers_unimplemented_method() {
    let (s, a) = step(
        ConnState::AwaitingRead,
        ConnEvent::Received("DELETE /x HTTP/1.1\n\n".to_string()),
        "index.html",
    );
    assert_eq!(s, ConnState::Writing);
    assert_eq!(write_of(a), "HTTP/1.1 501 Not Implemented\n\n\n");
}

#[test]
fn connection_drops_malformed_and_failed_reads() {
    let (s, a) = step(ConnState::AwaitingRead, ConnEvent::Received("GET /x\n".to_string()), "i");
    assert_eq!(s, ConnState::Closed);
    assert!(matches!(a, ConnAction::Shutdown));
    let (s, a) = step(ConnState::AwaitingRead, ConnEvent::Received(String::new()), "i");
    assert_eq!(s, ConnState::Closed);
    assert!(matches!(a, ConnAction::Shutdown));
    let (s, a) = step(ConnState::AwaitingRead, ConnEvent::ReadFailed, "i");
    assert_eq!(s, ConnState::Closed);
    assert!(matches!(a, ConnAction::Shutdown));
}

#[test]
fn closed_connection_ignores_events() {
    let (s, a) = step(ConnState::Closed, ConnEvent::WriteFinished, "i");
    assert_eq!(s, ConnState::Closed);
    assert!(matches!(a, ConnAction::Nothing));
}
