use std::io::Read;

use http_server::error::Error;
use http_server::header::HTTPHeader;
use http_server::method::HTTPMethod;
use http_server::payload::HTTPPayload;
use http_server::request::HTTPRequest;
use http_server::response::HTTPResponse;
use http_server::router::{finish_response, param, HTTPHandler, HTTPRouter};
use http_server::status::{HTTPStatus, HTTPStatusCode};

enum Handler {
    Root,
    Echo,
    Widgets,
    Files,
}

fn text_response(body: &str) -> HTTPResponse {
    HTTPResponse::new(
        HTTPStatus::new(HTTPStatusCode::OK, "1.1".to_string()),
        vec![HTTPHeader::new("Content-Type".to_string(), "text/plain".to_string())],
        Some(HTTPPayload::new(body.to_string())),
    )
}

impl HTTPHandler for Handler {
    fn handle(
        &self,
        params: &Vec<(String, String)>,
        _request: &HTTPRequest,
        directory: &Option<String>,
    ) -> Result<HTTPResponse, Error> {
        match self {
            Handler::Root => Ok(HTTPResponse::new(
                HTTPStatus::new(HTTPStatusCode::OK, "1.1".to_string()),
                vec![],
                None,
            )),
            Handler::Echo => Ok(text_response(&param(params, "message").unwrap())),
            Handler::Widgets => Ok(text_response("widgets")),
            Handler::Files => match directory {
                Some(d) => Ok(text_response(&format!("{}/{}", d, param(params, "file").unwrap()))),
                None => Err(Error::DirectoryNotSet),
            },
        }
    }
}

fn router() -> HTTPRouter<Handler> {
    let mut r = HTTPRouter::new(None);
    r.add_route(HTTPMethod::GET, "/", Handler::Root);
    r.add_route(HTTPMethod::GET, "/echo/{message}", Handler::Echo);
    r.add_route(HTTPMethod::GET, "/widgets", Handler::Widgets);
    r.add_route(HTTPMethod::GET, "/files/{file}", Handler::Files);
    r
}

fn serve(router: &HTTPRouter<Handler>, input: &str) -> Vec<u8> {
    let request = HTTPRequest::parse(input).unwrap();
    router.handle_request(&request).encode()
}

fn gunzip(data: &[u8]) -> Vec<u8> {
    let mut out = Vec::new();
    flate2::read::GzDecoder::new(data).read_to_end(&mut out).unwrap();
    out
}

#[test]
fn end_to_end_echo() {
    let out = serve(&router(), "GET /echo/abc HTTP/1.1\r\nHost: x\r\n\r\n");
    assert_eq!(
        String::from_utf8(out).unwrap(),
        "HTTP/1.1 200 OK\r\nContent-Type: text/plain\r\nContent-Length: 3\r\n\r\nabc"
    );
}

#[test]
fn no_match_is_404() {
    let out = serve(&router(), "GET /nope HTTP/1.1\r\n\r\n");
    assert_eq!(String::from_utf8(out).unwrap(), "HTTP/1.1 404 Not Found\r\nContent-Length: 0\r\n\r\n");
    let empty: HTTPRouter<Handler> = HTTPRouter::new(None);
    let out = serve(&empty, "GET /nope HTTP/1.1\r\n\r\n");
    assert_eq!(String::from_utf8(out).unwrap(), "HTTP/1.1 404 Not Found\r\nContent-Length: 0\r\n\r\n");
}

#[test]
fn parameter_extraction() {
    let r = router();
    let request = HTTPRequest::parse("GET /echo/hello HTTP/1.1\r\n\r\n").unwrap();
    let k = r.find_route(&request).unwrap();
    assert_eq!(k, 1);
    let params = r.routes[k].parse_params(&request.path);
    assert_eq!(params, vec![("message".to_string(), "hello".to_string())]);
    assert_eq!(param(&params, "message"), Some("hello".to_string()));
    assert_eq!(param(&params, "other"), None);
}

#[test]
fn literal_segment_must_match() {
    let mut r: HTTPRouter<Handler> = HTTPRouter::new(None);
    r.add_route(HTTPMethod::GET, "/files/{file}", Handler::Files);
    let request = HTTPRequest::parse("GET /user-agent HTTP/1.1\r\n\r\n").unwrap();
    assert_eq!(r.find_route(&request), None);
    let out = r.handle_request(&request).encode();
    assert!(String::from_utf8(out).unwrap().starts_with("HTTP/1.1 404 Not Found\r\n"));
}

#[test]
fn method_isolation() {
    let mut r: HTTPRouter<Handler> = HTTPRouter::new(None);
    r.add_route(HTTPMethod::GET, "/widgets", Handler::Widgets);
    let out = serve(&r, "POST /widgets HTTP/1.1\r\n\r\n");
    assert_eq!(String::from_utf8(out).unwrap(), "HTTP/1.1 404 Not Found\r\nContent-Length: 0\r\n\r\n");
    let out = serve(&r, "GET /widgets HTTP/1.1\r\n\r\n");
    assert!(String::from_utf8(out).unwrap().starts_with("HTTP/1.1 200 OK\r\n"));
}

#[test]
fn first_matching_route_wins_every_time() {
    let mut r: HTTPRouter<Handler> = HTTPRouter::new(None);
    r.add_route(HTTPMethod::GET, "/echo/{message}", Handler::Echo);
    r.add_route(HTTPMethod::GET, "/echo/fixed", Handler::Widgets);
    let request = HTTPRequest::parse("GET /echo/fixed HTTP/1.1\r\n\r\n").unwrap();
    assert_eq!(r.find_route(&request), Some(0));
    assert_eq!(r.find_route(&request), Some(0));
    let a = r.handle_request(&request).encode();
    let b = r.handle_request(&request).encode();
    assert_eq!(a, b);
    assert!(String::from_utf8(a).unwrap().ends_with("\r\n\r\nfixed"));
}

#[test]
fn gzip_body_round_trips() {
    let out = serve(&router(), "GET /echo/hello HTTP/1.1\r\nAccept-Encoding: gzip\r\n\r\n");
    let split = out.windows(4).position(|w| w == b"\r\n\r\n").unwrap();
    let head = String::from_utf8(out[..split].to_vec()).unwrap();
    let body = &out[split + 4..];
    assert!(head.contains("\r\nContent-Encoding: gzip"));
    let len_line = head.lines().find(|l| l.starts_with("Content-Length: ")).unwrap();
    let len: usize = len_line["Content-Length: ".len()..].parse().unwrap();
    assert_eq!(len, body.len());
    assert_ne!(len, 5);
    assert_eq!(gunzip(body), b"hello".to_vec());
}

#[test]
fn gzip_header_added_once() {
    let request = HTTPRequest::parse("GET / HTTP/1.1\r\nAccept-Encoding: gzip\r\n\r\n").unwrap();
    let response = HTTPResponse::new(
        HTTPStatus::new(HTTPStatusCode::OK, "1.1".to_string()),
        vec![HTTPHeader::new("Content-Encoding".to_string(), "gzip".to_string())],
        None,
    );
    let done = finish_response(&request, Ok(response));
    assert_eq!(done.headers.len(), 1);
    let request = HTTPRequest::parse("GET / HTTP/1.1\r\nAccept-Encoding: br\r\n\r\n").unwrap();
    let done = finish_response(&request, Ok(text_response("x")));
    assert_eq!(done.headers.len(), 1);
    assert!(!done.wants_gzip());
}

#[test]
fn handler_error_becomes_500() {
    let out = serve(&router(), "GET /files/a.txt HTTP/1.1\r\n\r\n");
    assert_eq!(
        String::from_utf8(out).unwrap(),
        "HTTP/1.1 500 Internal Server Error\r\nContent-Length: 17\r\n\r\nDirectory not set"
    );
}

#[test]
fn directory_reaches_handler() {
    let mut r = HTTPRouter::new(Some("/tmp".to_string()));
    r.add_route(HTTPMethod::GET, "/files/{file}", Handler::Files);
    let out = serve(&r, "GET /files/a.txt HTTP/1.1\r\n\r\n");
    assert!(String::from_utf8(out).unwrap().ends_with("\r\n\r\n/tmp/a.txt"));
}

#[test]
fn unknown_status_rejected() {
    assert_eq!(HTTPStatusCode::from_code(299).unwrap_err(), Error::InvalidStatusCode(299));
    assert_eq!(HTTPStatusCode::from_code(404).unwrap(), HTTPStatusCode::NotFound);
    assert_eq!(HTTPStatusCode::from_code(201).unwrap().code(), 201);
}

#[test]
fn status_line_rendering() {
    let s = HTTPStatus::new(HTTPStatusCode::InternalServerError, "1.1".to_string());
    assert_eq!(s.to_string(), "HTTP/1.1 500 Internal Server Error");
    assert_eq!(HTTPStatusCode::Created.as_str(), "201 Created");
}

#[test]
fn parse_full_request() {
    let req = HTTPRequest::parse("POST /files/x HTTP/1.1\r\nHost: a\r\nUser-Agent: b: c\r\n\r\nbody text").unwrap();
    assert_eq!(req.method, HTTPMethod::POST);
    assert_eq!(req.path, "/files/x");
    assert_eq!(req.version, "HTTP/1.1");
    assert_eq!(req.headers.len(), 2);
    assert_eq!(req.get_header("User-Agent").unwrap().value, "b: c");
    assert!(req.get_header("user-agent").is_none());
    assert_eq!(req.body.as_ref().unwrap().to_string(), "body text");
    assert_eq!(req.get_path_parts(), vec!["", "files", "x"]);
}

#[test]
fn parse_without_body() {
    let req = HTTPRequest::parse("GET / HTTP/1.1\r\nHost: a\r\n\r\n").unwrap();
    assert!(req.body.is_none());
    let req = HTTPRequest::parse("DELETE /x HTTP/1.0").unwrap();
    assert_eq!(req.method, HTTPMethod::DELETE);
    assert!(req.headers.is_empty());
}

#[test]
fn parse_errors() {
    assert_eq!(HTTPRequest::parse("GET /x\r\n\r\n").unwrap_err(), Error::ParseError);
    assert_eq!(HTTPRequest::parse("GET /x HTTP/1.1 extra\r\n\r\n").unwrap_err(), Error::ParseError);
    assert_eq!(HTTPRequest::parse("PATCH /x HTTP/1.1\r\n\r\n").unwrap_err(), Error::InvalidMethod);
    assert_eq!(HTTPRequest::parse("GET /x HTTP/1.1\r\nBroken\r\n\r\n").unwrap_err(), Error::ParseError);
}

#[test]
fn method_tokens() {
    assert_eq!(HTTPMethod::from_str("PUT").unwrap(), HTTPMethod::PUT);
    assert_eq!(HTTPMethod::from_str("get").unwrap_err(), Error::InvalidMethod);
}

#[test]
fn header_parse_and_render() {
    let h = HTTPHeader::parse("Content-Type: text/html").unwrap();
    assert_eq!(h.name, "Content-Type");
    assert_eq!(h.value, "text/html");
    assert_eq!(h.to_string(), "Content-Type: text/html");
    assert_eq!(HTTPHeader::parse("NoSeparator").unwrap_err(), Error::ParseError);
    assert_eq!(HTTPHeader::parse("A:b").unwrap_err(), Error::ParseError);
}

#[test]
fn payload_compress_leaves_content() {
    let p = HTTPPayload::new("héllo".to_string());
    assert_eq!(p.as_bytes(), "héllo".as_bytes().to_vec());
    let z = p.compress().unwrap();
    assert_ne!(z, p.as_bytes());
    assert_eq!(gunzip(&z), "héllo".as_bytes().to_vec());
    assert_eq!(p.to_string(), "héllo");
}

#[test]
fn response_round_trip() {
    let response = HTTPResponse::new(
        HTTPStatus::new(HTTPStatusCode::Created, "1.1".to_string()),
        vec![
            HTTPHeader::new("X-One".to_string(), "1".to_string()),
            HTTPHeader::new("X-Two".to_string(), "two".to_string()),
        ],
        Some(HTTPPayload::new("the body".to_string())),
    );
    let text = String::from_utf8(response.encode()).unwrap();
    let mut lines = text.split("\r\n");
    assert_eq!(lines.next().unwrap(), "HTTP/1.1 201 Created");
    let mut headers = Vec::new();
    for line in lines.by_ref() {
        if line.is_empty() {
            break;
        }
        let h = HTTPHeader::parse(line).unwrap();
        headers.push((h.name, h.value));
    }
    assert_eq!(
        headers,
        vec![
            ("X-One".to_string(), "1".to_string()),
            ("X-Two".to_string(), "two".to_string()),
            ("Content-Length".to_string(), "8".to_string()),
        ]
    );
    assert_eq!(lines.next().unwrap(), "the body");
}

#[test]
fn long_body_length() {
    let body = "a".repeat(12345);
    let response = HTTPResponse::new(
        HTTPStatus::new(HTTPStatusCode::OK, "1.1".to_string()),
        vec![],
        Some(HTTPPayload::new(body)),
    );
    let out = response.encode();
    let text = String::from_utf8(out).unwrap();
    assert!(text.starts_with("HTTP/1.1 200 OK\r\nContent-Length: 12345\r\n\r\naaa"));
    assert_eq!(response.frame(&vec![]), b"HTTP/1.1 200 OK\r\nContent-Length: 0\r\n\r\n".to_vec());
}

#[test]
fn error_messages() {
    assert_eq!(Error::InvalidMethod.message(), "Invalid method");
    assert_eq!(Error::FailedToCompressPayload.message(), "Failed to compress payload");
}

#[test]
fn text_form_plain_and_hex() {
    let plain = text_response("hi");
    assert_eq!(plain.to_string(), "HTTP/1.1 200 OK\r\nContent-Type: text/plain\r\n\r\nhi");
    let zipped = HTTPResponse::new(
        HTTPStatus::new(HTTPStatusCode::OK, "1.1".to_string()),
        vec![HTTPHeader::new("Content-Encoding".to_string(), "gzip".to_string())],
        Some(HTTPPayload::new("hi".to_string())),
    );
    let text = zipped.to_string();
    let prefix = "HTTP/1.1 200 OK\r\nContent-Encoding: gzip\r\n\r\n";
    assert!(text.starts_with(prefix));
    let hex_body = &text[prefix.len()..];
    let compressed = HTTPPayload::new("hi".to_string()).compress().unwrap();
    assert_eq!(hex_body.len(), 2 * compressed.len());
    let expected: String = compressed.iter().map(|b| format!("{:02x}", b)).collect();
    assert_eq!(hex_body, expected);
    assert!(hex_body.starts_with("1f8b"));
}

#[test]
fn empty_route_segment_parameters() {
    let mut r: HTTPRouter<Handler> = HTTPRouter::new(None);
    r.add_route(HTTPMethod::GET, "/a/{x}/b/{y}", Handler::Root);
    assert_eq!(r.routes[0].params, vec![("x".to_string(), 2), ("y".to_string(), 4)]);
    let params = r.routes[0].parse_params("/a/1/b/2");
    assert_eq!(param(&params, "x"), Some("1".to_string()));
    assert_eq!(param(&params, "y"), Some("2".to_string()));
    let request = HTTPRequest::parse("GET /a/1/c/2 HTTP/1.1\r\n\r\n").unwrap();
    assert_eq!(r.find_route(&request), None);
}

#[test]
fn parse_from_bytes() {
    let req = HTTPRequest::from_bytes(b"GET /echo/caf\xc3\xa9 HTTP/1.1\r\n\r\n").unwrap();
    assert_eq!(req.path, "/echo/café");
    assert_eq!(HTTPRequest::from_bytes(b"GET /\xff HTTP/1.1\r\n\r\n").unwrap_err(), Error::ParseError);
}

#[test]
fn only_named_parameters_are_wildcards() {
    let mut r: HTTPRouter<Handler> = HTTPRouter::new(None);
    r.add_route(HTTPMethod::GET, "/a/{}", Handler::Root);
    r.add_route(HTTPMethod::GET, "/b/{x-y}", Handler::Root);
    assert!(r.routes[0].params.is_empty());
    let request = HTTPRequest::parse("GET /a/z HTTP/1.1\r\n\r\n").unwrap();
    assert_eq!(r.find_route(&request), None);
    let request = HTTPRequest::parse("GET /a/{} HTTP/1.1\r\n\r\n").unwrap();
    assert_eq!(r.find_route(&request), Some(0));
    let request = HTTPRequest::parse("GET /b/z HTTP/1.1\r\n\r\n").unwrap();
    assert_eq!(r.find_route(&request), None);
}

#[test]
fn params_from_longer_path() {
    let mut r: HTTPRouter<Handler> = HTTPRouter::new(None);
    r.add_route(HTTPMethod::GET, "/echo/{message}", Handler::Echo);
    let params = r.routes[0].parse_params("/echo/hi/more");
    assert_eq!(params, vec![("message".to_string(), "hi".to_string())]);
}
