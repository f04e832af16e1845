use simple_http_server::connection::{client_error, complete_response, route_request};
use simple_http_server::request::ParseError;
use simple_http_server::response::{
    not_found_html, ok_html, ok_icon, Handler, HandlerDbgLong, HandlerError, HandlerFavicon,
    HandlerHome, HandlerNotFound,
};
use simple_http_server::router::{Matcher, Router};

const HELLO_PAGE: &str = "<!DOCTYPE html>\n<html lang=\"en\">\n  <head>\n    <meta charset=\"utf-8\">\n    <title>Hello!</title>\n  </head>\n  <body>\n    <h1>Hello!</h1>\n    <p>Hi from Rust</p>\n  </body>\n</html>\n";

const NOT_FOUND_PAGE: &str = "<!DOCTYPE html>\n<html lang=\"en\">\n  <head>\n    <meta charset=\"utf-8\">\n    <title>Hello!</title>\n  </head>\n  <body>\n    <h1>Oops!</h1>\n    <p>Sorry, I don't know what you're asking for.</p>\n  </body>\n</html>\n";

const ICON: [u8; 8] = [0, 0, 1, 0, 1, 0, 16, 16];

#[test]
fn test_handler_home() {
    let handler = HandlerHome;
    let result = handler.handle(Some(HELLO_PAGE.as_bytes()));
    assert!(result.is_ok());
    let response = result.unwrap();
    let response_str = String::from_utf8(response).unwrap();
    assert!(response_str.starts_with("HTTP/1.1 200 OK"));
    assert!(response_str.contains("Content-Type: text/html"));
    assert!(response_str.contains("Hello"));
}

#[test]
fn test_handler_not_found() {
    let handler = HandlerNotFound;
    let result = handler.handle(Some(NOT_FOUND_PAGE.as_bytes()));
    assert!(result.is_ok());
    let response = result.unwrap();
    let response_str = String::from_utf8(response).unwrap();
    assert!(response_str.starts_with("HTTP/1.1 404 NOT FOUND"));
    assert!(response_str.contains("Content-Type: text/html"));
}

#[test]
fn test_handler_favicon() {
    let handler = HandlerFavicon;
    let result = handler.handle(Some(&ICON));
    assert!(result.is_ok());
    let response = result.unwrap();
    let response_str = String::from_utf8_lossy(&response);
    assert!(response_str.starts_with("HTTP/1.1 200 OK"));
    assert!(response_str.contains("Content-Type: image/x-icon"));
}

#[test]
fn html_response_is_framed_exactly() {
    let r = ok_html(b"hi");
    assert_eq!(
        r,
        b"HTTP/1.1 200 OK\r\nContent-Type: text/html\r\nContent-Length: 2\r\n\r\nhi".to_vec()
    );
}

#[test]
fn not_found_response_is_framed_exactly() {
    let r = not_found_html(b"gone");
    assert_eq!(
        r,
        b"HTTP/1.1 404 NOT FOUND\r\nContent-Type: text/html\r\nContent-Length: 4\r\n\r\ngone".to_vec()
    );
}

#[test]
fn icon_response_keeps_binary_body() {
    let r = ok_icon(&ICON);
    let mut expected =
        b"HTTP/1.1 200 OK\r\nContent-Type: image/x-icon\r\nContent-Length: 8\r\n\r\n".to_vec();
    expected.extend_from_slice(&ICON);
    assert_eq!(r, expected);
}

#[test]
fn content_length_of_empty_and_multi_digit_bodies() {
    let empty = ok_html(b"");
    assert!(String::from_utf8(empty).unwrap().contains("Content-Length: 0\r\n\r\n"));
    let body = vec![b'x'; 1234];
    let long = ok_html(&body);
    let text = String::from_utf8(long).unwrap();
    assert!(text.contains("Content-Length: 1234\r\n\r\n"));
    let ten = ok_html(&vec![b'y'; 10]);
    assert!(String::from_utf8(ten).unwrap().contains("Content-Length: 10\r\n\r\n"));
}

#[test]
fn not_found_without_page_is_plain_text() {
    let r = HandlerNotFound.handle(None).unwrap();
    assert_eq!(
        r,
        b"HTTP/1.1 404 NOT FOUND\r\nContent-Type: text/plain\r\n\r\n404 Not Found".to_vec()
    );
}

#[test]
fn missing_resource_is_a_handler_error() {
    assert_eq!(HandlerHome.handle(None), Err(HandlerError::ResourceMissing));
    assert_eq!(HandlerFavicon.handle(None), Err(HandlerError::ResourceMissing));
    assert_eq!(HandlerDbgLong::new(2).handle(None), Err(HandlerError::ResourceMissing));
}

#[test]
fn handlers_name_their_resources() {
    assert_eq!(HandlerHome.resource(), "resources/hello.html");
    assert_eq!(HandlerFavicon.resource(), "resources/favicon.ico");
    assert_eq!(HandlerNotFound.resource(), "resources/404.html");
    assert_eq!(HandlerDbgLong::new(2).resource(), "resources/debug.html");
}

#[test]
fn dbg_long_keeps_its_delay() {
    let h = HandlerDbgLong::new(5);
    assert_eq!(h.delay_secs(), 5);
    assert_eq!(HandlerHome.delay_secs(), 0);
    let r = String::from_utf8(h.handle(Some(b"<p>slow</p>")).unwrap()).unwrap();
    assert!(r.starts_with("HTTP/1.1 200 OK"));
    assert!(r.ends_with("<p>slow</p>"));
}

#[test]
fn failed_handler_falls_back_to_not_found() {
    let r = complete_response(HandlerHome.handle(None), Some(b"missing"));
    assert_eq!(
        r,
        b"HTTP/1.1 404 NOT FOUND\r\nContent-Type: text/html\r\nContent-Length: 7\r\n\r\nmissing"
            .to_vec()
    );
    let plain = complete_response(Err(HandlerError::ResourceMissing), None);
    assert!(plain.ends_with(b"404 Not Found"));
    let ok = complete_response(Ok(b"as is".to_vec()), None);
    assert_eq!(ok, b"as is".to_vec());
}

#[test]
fn client_errors_are_status_lines() {
    assert_eq!(
        client_error(ParseError::MethodNotSupported),
        b"HTTP/1.1 405 METHOD NOT ALLOWED\r\n\r\n".to_vec()
    );
    assert_eq!(client_error(ParseError::NoHeaders), b"HTTP/1.1 400 BAD REQUEST\r\n\r\n".to_vec());
    assert_eq!(client_error(ParseError::InvalidUri), b"HTTP/1.1 400 BAD REQUEST\r\n\r\n".to_vec());
}

#[test]
fn request_is_routed_by_its_target() {
    let mut router = Router::new('C');
    router.add_route(Matcher::Exact(b"/".to_vec()), 'A');
    router.add_route(Matcher::Exact(b"/favicon.ico".to_vec()), 'B');
    assert_eq!(route_request(&router, b"GET / HTTP/1.1\r\nHost: localhost\r\n\r\n"), Ok(&'A'));
    assert_eq!(
        route_request(&router, b"GET /favicon.ico HTTP/1.1\r\nHost: localhost\r\n\r\n"),
        Ok(&'B')
    );
    assert_eq!(
        route_request(&router, b"GET /nonexistent HTTP/1.1\r\nHost: localhost\r\n\r\n"),
        Ok(&'C')
    );
    assert_eq!(route_request(&router, b"POST / HTTP/1.1\r\n"), Err(ParseError::MethodNotSupported));
}
