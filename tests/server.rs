use std::collections::HashMap;

use http_server::request::{head_complete, parse_request, ParseError, Request, Verb};
use http_server::response::{Response, ReturnCode};
use http_server::router::{
    get_file_content, handle_request, post_file_content, respond, route, Action, FileRead,
    Route,
};

fn message(raw: &[u8], files: bool) -> Vec<u8> {
    match respond(raw, files) {
        Action::Respond(r) => r.get_message(),
        _ => panic!("expected a response"),
    }
}

/// Serves one request against an in-memory directory.
fn serve(dir: &mut HashMap<Vec<u8>, Vec<u8>>, raw: &[u8]) -> Vec<u8> {
    match respond(raw, true) {
        Action::Respond(r) => r.get_message(),
        Action::ReadFile(name) => {
            let outcome = match dir.get(&name) {
                Some(b) => FileRead::Found(b.clone()),
                None => FileRead::Missing,
            };
            get_file_content(outcome).get_message()
        }
        Action::WriteFile(name, body) => {
            dir.insert(name, body);
            post_file_content(true).get_message()
        }
        Action::Close => Vec::new(),
    }
}

#[test]
fn echo_returns_text_with_length() {
    let out = message(b"GET /echo/abc HTTP/1.1\r\nHost: localhost:4221\r\n\r\n", false);
    assert_eq!(
        out,
        b"HTTP/1.1 200 OK\r\nContent-Type: text/plain\r\nContent-Length: 3\r\n\r\nabc".to_vec()
    );
}

#[test]
fn echo_keeps_slashes_and_long_lengths() {
    let out = message(b"GET /echo/a/b/c-0123456789 HTTP/1.1\r\n\r\n", false);
    assert_eq!(
        out,
        b"HTTP/1.1 200 OK\r\nContent-Type: text/plain\r\nContent-Length: 16\r\n\r\na/b/c-0123456789"
            .to_vec()
    );
}

#[test]
fn root_is_ok_with_empty_body() {
    assert_eq!(message(b"GET / HTTP/1.1\r\n\r\n", false), b"HTTP/1.1 200 OK\r\n\r\n".to_vec());
    let with_headers = b"GET / HTTP/1.1\r\nHost: x\r\nUser-Agent: y\r\nAccept: */*\r\n\r\n";
    assert_eq!(message(with_headers, true), b"HTTP/1.1 200 OK\r\n\r\n".to_vec());
}

#[test]
fn root_with_query_string_is_not_root() {
    assert_eq!(
        message(b"GET /?x=1 HTTP/1.1\r\n\r\n", false),
        b"HTTP/1.1 404 Not Found\r\n\r\n".to_vec()
    );
}

#[test]
fn unknown_path_is_not_found() {
    assert_eq!(
        message(b"GET /nonexistent HTTP/1.1\r\n\r\n", true),
        b"HTTP/1.1 404 Not Found\r\n\r\n".to_vec()
    );
}

#[test]
fn user_agent_is_reflected() {
    let out = message(b"GET /user-agent HTTP/1.1\r\nHost: x\r\nUser-Agent: curl/8.0\r\n\r\n", false);
    assert_eq!(
        out,
        b"HTTP/1.1 200 OK\r\nContent-Type: text/plain\r\nContent-Length: 8\r\n\r\ncurl/8.0".to_vec()
    );
}

#[test]
fn missing_user_agent_is_bad_request() {
    assert_eq!(
        message(b"GET /user-agent HTTP/1.1\r\nHost: x\r\n\r\n", false),
        b"HTTP/1.1 400 Bad Request\r\n\r\n".to_vec()
    );
}

#[test]
fn last_header_wins_and_names_are_case_sensitive() {
    let raw = b"GET /user-agent HTTP/1.1\r\nUser-Agent: a\r\nuser-agent: b\r\nUser-Agent:   c  \r\n\r\n";
    let req = parse_request(raw).unwrap();
    assert_eq!(req.user_agent(), Some(b"c".to_vec()));
    assert_eq!(req.header(b"user-agent"), Some(b"b".to_vec()));
    assert_eq!(req.header(b"Accept"), None);
}

#[test]
fn post_then_get_round_trips() {
    let mut dir = HashMap::new();
    let body: &[u8] = b"\x00\x01binary\xff data";
    let mut post = b"POST /files/blob HTTP/1.1\r\nContent-Length: 14\r\n\r\n".to_vec();
    post.extend_from_slice(body);
    assert_eq!(serve(&mut dir, &post), b"HTTP/1.1 201 Created\r\n\r\n".to_vec());
    let mut expected =
        b"HTTP/1.1 200 OK\r\nContent-Type: application/octet-stream\r\nContent-Length: 14\r\n\r\n"
            .to_vec();
    expected.extend_from_slice(body);
    assert_eq!(serve(&mut dir, b"GET /files/blob HTTP/1.1\r\n\r\n"), expected);
}

#[test]
fn get_before_post_is_not_found() {
    let mut dir = HashMap::new();
    assert_eq!(
        serve(&mut dir, b"GET /files/never HTTP/1.1\r\n\r\n"),
        b"HTTP/1.1 404 Not Found\r\n\r\n".to_vec()
    );
}

#[test]
fn dot_dot_is_forbidden() {
    let raw = b"GET /files/../../etc/passwd HTTP/1.1\r\n\r\n";
    assert_eq!(message(raw, true), b"HTTP/1.1 403 Forbidden\r\n\r\n".to_vec());
    let raw = b"POST /files/a..b HTTP/1.1\r\nContent-Length: 1\r\n\r\nx";
    assert_eq!(message(raw, true), b"HTTP/1.1 403 Forbidden\r\n\r\n".to_vec());
    let raw = b"GET /files//etc/passwd HTTP/1.1\r\n\r\n";
    assert_eq!(message(raw, true), b"HTTP/1.1 403 Forbidden\r\n\r\n".to_vec());
}

#[test]
fn files_without_directory_or_name_are_not_found() {
    assert_eq!(
        message(b"GET /files/a.txt HTTP/1.1\r\n\r\n", false),
        b"HTTP/1.1 404 Not Found\r\n\r\n".to_vec()
    );
    assert_eq!(
        message(b"GET /files/ HTTP/1.1\r\n\r\n", true),
        b"HTTP/1.1 404 Not Found\r\n\r\n".to_vec()
    );
    assert_eq!(
        message(b"GET /files HTTP/1.1\r\n\r\n", true),
        b"HTTP/1.1 404 Not Found\r\n\r\n".to_vec()
    );
}

#[test]
fn distinct_posts_are_independent() {
    let mut dir = HashMap::new();
    let a = b"POST /files/a HTTP/1.1\r\nContent-Length: 3\r\n\r\none";
    let b = b"POST /files/b HTTP/1.1\r\nContent-Length: 3\r\n\r\ntwo";
    assert_eq!(serve(&mut dir, b), b"HTTP/1.1 201 Created\r\n\r\n".to_vec());
    assert_eq!(serve(&mut dir, a), b"HTTP/1.1 201 Created\r\n\r\n".to_vec());
    let head = b"HTTP/1.1 200 OK\r\nContent-Type: application/octet-stream\r\nContent-Length: 3\r\n\r\n";
    let mut one = head.to_vec();
    one.extend_from_slice(b"one");
    let mut two = head.to_vec();
    two.extend_from_slice(b"two");
    assert_eq!(serve(&mut dir, b"GET /files/a HTTP/1.1\r\n\r\n"), one);
    assert_eq!(serve(&mut dir, b"GET /files/b HTTP/1.1\r\n\r\n"), two);
}

#[test]
fn parses_start_line_headers_and_body() {
    let raw = b"POST /files/x?y=1 HTTP/1.1\nHost :  h \r\nno colon here\r\nContent-Length: 5\n\nhello trailing";
    let req = parse_request(raw).unwrap();
    assert_eq!(req.verb, Verb::POST);
    assert_eq!(req.path, b"/files/x?y=1".to_vec());
    assert_eq!(
        req.headers,
        vec![
            (b"Host".to_vec(), b"h".to_vec()),
            (b"Content-Length".to_vec(), b"5".to_vec())
        ]
    );
    assert_eq!(req.body, b"hello".to_vec());
    assert_eq!(req.content_length(), Ok(5));
}

#[test]
fn get_ignores_content_length() {
    let req = parse_request(b"GET /x HTTP/1.1\r\nContent-Length: 4\r\n\r\n").unwrap();
    assert_eq!(req.body, Vec::<u8>::new());
    assert_eq!(req.content_length(), Ok(0));
}

#[test]
fn post_without_length_has_empty_body() {
    let req = parse_request(b"POST /files/x HTTP/1.1\r\n\r\nignored").unwrap();
    assert_eq!(req.body, Vec::<u8>::new());
}

#[test]
fn malformed_start_lines() {
    assert_eq!(parse_request(b"").unwrap_err(), ParseError::MalformedStartLine);
    assert_eq!(parse_request(b"\r\n\r\n").unwrap_err(), ParseError::MalformedStartLine);
    assert_eq!(parse_request(b"GET\r\n\r\n").unwrap_err(), ParseError::MalformedStartLine);
    assert_eq!(parse_request(b"GET index HTTP/1.1\r\n\r\n").unwrap_err(), ParseError::MalformedStartLine);
}

#[test]
fn two_tokens_are_enough() {
    let req = parse_request(b"GET /echo/hi\r\n\r\n").unwrap();
    assert_eq!(req.path, b"/echo/hi".to_vec());
    assert_eq!(req.verb, Verb::GET);
}

#[test]
fn unsupported_method() {
    assert_eq!(parse_request(b"PUT / HTTP/1.1\r\n\r\n").unwrap_err(), ParseError::UnsupportedMethod);
    assert_eq!(parse_request(b"get / HTTP/1.1\r\n\r\n").unwrap_err(), ParseError::UnsupportedMethod);
}

#[test]
fn invalid_content_length() {
    let raw = b"POST /files/x HTTP/1.1\r\nContent-Length: 1a\r\n\r\nx";
    assert_eq!(parse_request(raw).unwrap_err(), ParseError::InvalidContentLength);
    let raw = b"POST /files/x HTTP/1.1\r\nContent-Length: 99999999999999999999999\r\n\r\nx";
    assert_eq!(parse_request(raw).unwrap_err(), ParseError::InvalidContentLength);
}

#[test]
fn truncated_body() {
    let raw = b"POST /files/x HTTP/1.1\r\nContent-Length: 10\r\n\r\nshort";
    assert_eq!(parse_request(raw).unwrap_err(), ParseError::TruncatedBody);
}

#[test]
fn body_cut_short_closes_the_connection() {
    let raw = b"POST /files/x HTTP/1.1\r\nContent-Length: 10\r\n\r\nshort";
    assert!(matches!(respond(raw, true), Action::Close));
}

#[test]
fn parse_errors_are_bad_request() {
    assert_eq!(message(b"PUT / HTTP/1.1\r\n\r\n", true), b"HTTP/1.1 400 Bad Request\r\n\r\n".to_vec());
}

#[test]
fn routes_in_order() {
    assert_eq!(route(b"/"), Route::Root);
    assert_eq!(route(b"/echo/"), Route::Echo);
    assert_eq!(route(b"/echo"), Route::NotFound);
    assert_eq!(route(b"/user-agent"), Route::UserAgent);
    assert_eq!(route(b"/user-agent/x"), Route::NotFound);
    assert_eq!(route(b"/files/f"), Route::Files);
    assert_eq!(route(b"/other"), Route::NotFound);
}

#[test]
fn handler_hands_back_file_work() {
    let req = parse_request(b"POST /files/dir/f.bin HTTP/1.1\r\nContent-Length: 2\r\n\r\nab").unwrap();
    match handle_request(&req, true) {
        Action::WriteFile(name, body) => {
            assert_eq!(name, b"dir/f.bin".to_vec());
            assert_eq!(body, b"ab".to_vec());
        }
        _ => panic!("expected a write"),
    }
    let req = parse_request(b"GET /files/f.bin HTTP/1.1\r\n\r\n").unwrap();
    match handle_request(&req, true) {
        Action::ReadFile(name) => assert_eq!(name, b"f.bin".to_vec()),
        _ => panic!("expected a read"),
    }
}

#[test]
fn file_outcomes() {
    assert_eq!(
        get_file_content(FileRead::Failed).get_message(),
        b"HTTP/1.1 500 Internal Server Error\r\n\r\n".to_vec()
    );
    assert_eq!(
        get_file_content(FileRead::Missing).get_message(),
        b"HTTP/1.1 404 Not Found\r\n\r\n".to_vec()
    );
    assert_eq!(post_file_content(false).get_message(), b"HTTP/1.1 404 Not Found\r\n\r\n".to_vec());
    assert_eq!(post_file_content(true).code, ReturnCode::Created);
}

#[test]
fn status_lines() {
    assert_eq!(ReturnCode::OK.get_message(), b"HTTP/1.1 200 OK\r\n".to_vec());
    assert_eq!(ReturnCode::Created.get_message(), b"HTTP/1.1 201 Created\r\n".to_vec());
    assert_eq!(ReturnCode::NotFound.get_message(), b"HTTP/1.1 404 Not Found\r\n".to_vec());
    assert_eq!(ReturnCode::Forbidden.code(), 403);
}

#[test]
fn response_builders() {
    let r = Response::new(ReturnCode::OK, b"hi".to_vec());
    assert_eq!(
        r.get_message(),
        b"HTTP/1.1 200 OK\r\nContent-Type: text/plain\r\nContent-Length: 2\r\n\r\nhi".to_vec()
    );
    let r = Response::new_partial(ReturnCode::NotFound);
    assert_eq!(r.get_message(), b"HTTP/1.1 404 Not Found\r\n\r\n".to_vec());
    let r = Response::new_octets(ReturnCode::OK, vec![0u8; 100]);
    let msg = r.get_message();
    assert!(msg.starts_with(
        b"HTTP/1.1 200 OK\r\nContent-Type: application/octet-stream\r\nContent-Length: 100\r\n\r\n"
    ));
    assert_eq!(msg.len(), 80 + 100);
}

#[test]
fn head_completeness() {
    assert!(!head_complete(b""));
    assert!(!head_complete(b"GET / HTTP/1.1\r\nHost: x\r\n"));
    assert!(!head_complete(b"GET / HTTP/1.1\r\nHost: x\r\n\r"));
    assert!(head_complete(b"GET / HTTP/1.1\r\nHost: x\r\n\r\n"));
    assert!(head_complete(b"GET / HTTP/1.1\n\nbody"));
}

#[test]
fn request_from_parts() {
    let req = Request::new(
        b"/user-agent".to_vec(),
        Verb::GET,
        vec![(b"User-Agent".to_vec(), b"agent".to_vec())],
        Vec::new(),
    );
    match handle_request(&req, false) {
        Action::Respond(r) => {
            assert_eq!(r.code, ReturnCode::OK);
            assert_eq!(r.body, b"agent".to_vec());
        }
        _ => panic!("expected a response"),
    }
}
