use simple_http_server::request::{get_uri, parse_request_line, ParseError};

#[test]
fn get_line_parses_to_method_and_target() {
    let line = parse_request_line(b"GET /x HTTP/1.1").unwrap();
    assert_eq!(line.method, b"GET".to_vec());
    assert_eq!(line.target, b"/x".to_vec());
}

#[test]
fn post_line_is_refused() {
    assert_eq!(parse_request_line(b"POST / HTTP/1.1").unwrap_err(), ParseError::MethodNotSupported);
}

#[test]
fn empty_input_has_no_headers() {
    assert_eq!(parse_request_line(b"").unwrap_err(), ParseError::NoHeaders);
    assert_eq!(get_uri(b""), Err(ParseError::NoHeaders));
}

#[test]
fn blank_first_line_has_no_headers() {
    assert_eq!(get_uri(b"\n"), Err(ParseError::NoHeaders));
    assert_eq!(get_uri(b"\r\n"), Err(ParseError::NoHeaders));
    assert_eq!(get_uri(b"\r\nGET / HTTP/1.1\r\n"), Err(ParseError::NoHeaders));
}

#[test]
fn white_space_only_line_misses_the_method() {
    assert_eq!(get_uri(b"   \r\nGET / HTTP/1.1\r\n"), Err(ParseError::MissingMethod));
    assert_eq!(get_uri(b"\r"), Err(ParseError::MissingMethod));
}

#[test]
fn formatted_request_line_parses_back_to_its_target() {
    for target in ["/", "/x", "/favicon.ico", "/dbg_long_2s", "/a/b?c=d"] {
        let request = format!("GET {target} HTTP/1.1\r\nHost: localhost\r\n\r\n");
        assert_eq!(get_uri(request.as_bytes()), Ok(target.as_bytes().to_vec()));
    }
}

#[test]
fn method_alone_misses_the_target() {
    assert_eq!(get_uri(b"GET\r\nHost: /x\r\n\r\n"), Err(ParseError::MissingUri));
    assert_eq!(get_uri(b"POST   \r\n"), Err(ParseError::MissingUri));
}

#[test]
fn target_must_start_with_a_slash() {
    assert_eq!(get_uri(b"GET x HTTP/1.1\r\n"), Err(ParseError::InvalidUri));
}

#[test]
fn method_is_case_sensitive() {
    assert_eq!(get_uri(b"get / HTTP/1.1\r\n"), Err(ParseError::MethodNotSupported));
    assert_eq!(get_uri(b"GETS / HTTP/1.1\r\n"), Err(ParseError::MethodNotSupported));
}

#[test]
fn whole_request_yields_the_target_of_its_first_line() {
    let uri = get_uri(b"GET /favicon.ico HTTP/1.1\r\nHost: localhost\r\n\r\n").unwrap();
    assert_eq!(uri, b"/favicon.ico".to_vec());
}

#[test]
fn words_may_be_separated_by_tabs_and_runs_of_spaces() {
    let line = parse_request_line(b"  GET \t /dbg_long_2s   HTTP/1.1\r\n").unwrap();
    assert_eq!(line.method, b"GET".to_vec());
    assert_eq!(line.target, b"/dbg_long_2s".to_vec());
}

#[test]
fn target_without_version_is_accepted() {
    assert_eq!(get_uri(b"GET /only"), Ok(b"/only".to_vec()));
}
