use tinyhttp::error::{build_internal_server_error, build_not_found_error, ParseError};
use tinyhttp::http::{
    handle_get, handle_post, handle_response, parse_request, route_get, Asset, HttpType, Request,
    Response, StatusCode, Step,
};
use tinyhttp::utils::FileReadError;

fn plain_response(code: u16, status: StatusCode, body: Vec<u8>) -> Response {
    Response { status_code: code, status_line: status, headers: Vec::new(), body }
}

#[test]
fn parse_get_request() {
    let buf = b"GET /index.html HTTP/1.1\r\nHost: localhost\r\n\r\n";
    let req = parse_request(buf).unwrap();
    assert_eq!(req.method, HttpType::GET);
    assert_eq!(req.path, "/index.html");
    assert!(req.data.is_none());
}

#[test]
fn parse_post_request_with_body() {
    let buf = b"POST / HTTP/1.1\r\nHost: localhost\r\n\r\n{\"data\": 7}";
    let req = parse_request(buf).unwrap();
    assert_eq!(req.method, HttpType::POST);
    assert_eq!(req.path, "/");
    assert_eq!(req.data.as_deref(), Some("{\"data\": 7}"));
}

#[test]
fn parse_post_request_without_separator() {
    let buf = b"POST / HTTP/1.1";
    let req = parse_request(buf).unwrap();
    assert_eq!(req.method, HttpType::POST);
    assert_eq!(req.data.as_deref(), Some(""));
}

#[test]
fn parse_rejects_invalid_encoding() {
    let buf = [0xffu8, 0xfe, 0x41];
    assert!(matches!(parse_request(&buf), Err(ParseError::InvalidEncoding)));
}

#[test]
fn parse_rejects_short_request_line() {
    assert!(matches!(parse_request(b"GET /\r\n\r\n"), Err(ParseError::MalformedRequestLine)));
    assert!(matches!(parse_request(b""), Err(ParseError::MalformedRequestLine)));
}

#[test]
fn parse_rejects_unknown_method() {
    assert!(matches!(parse_request(b"PUT / HTTP/1.1\r\n\r\n"), Err(ParseError::UnsupportedMethod)));
    assert!(matches!(parse_request(b"get / HTTP/1.1\r\n\r\n"), Err(ParseError::UnsupportedMethod)));
}

#[test]
fn routes_known_paths() {
    assert_eq!(route_get("/"), Asset::Index);
    assert_eq!(route_get("/main.js"), Asset::MainJs);
    assert_eq!(route_get("/favicon.ico"), Asset::Favicon);
    assert_eq!(route_get("/styles.css"), Asset::Styles);
    assert_eq!(route_get(" / "), Asset::Index);
}

#[test]
fn routes_unknown_path_to_not_found() {
    assert_eq!(route_get("/missing"), Asset::NotFound);
    assert_eq!(route_get(""), Asset::NotFound);
}

#[test]
fn served_file_is_returned_verbatim() {
    let contents = vec![0x89u8, 0x50, 0x4e, 0x47, 0x00, 0xff];
    let r = handle_get(Ok(contents.clone()));
    assert_eq!(r.status_code, 200);
    assert_eq!(r.body, contents);
    assert!(r.headers.is_empty());
}

#[test]
fn missing_file_yields_not_found() {
    let r = handle_get(Err(FileReadError::FileNotFound(String::from("client/404.html"))));
    assert_eq!(r.status_code, 404);
    assert_eq!(r.body, b"Not Found".to_vec());
}

#[test]
fn file_io_error_yields_internal_error() {
    let r = handle_get(Err(FileReadError::IOError));
    assert_eq!(r.status_code, 500);
    assert_eq!(r.body, b"Internal Server Error".to_vec());
}

#[test]
fn canonical_error_builders() {
    let nf = build_not_found_error();
    assert_eq!(nf.status_code, 404);
    assert_eq!(nf.body, b"Not Found".to_vec());
    assert!(nf.headers.is_empty());
    let ise = build_internal_server_error();
    assert_eq!(ise.status_code, 500);
    assert_eq!(ise.body, b"Internal Server Error".to_vec());
    assert!(ise.headers.is_empty());
}

#[test]
fn format_not_found_wire_bytes() {
    let bytes = build_not_found_error().format();
    assert_eq!(bytes, b"HTTP/1.1 404 Not Found\r\n\r\nNot Found".to_vec());
}

#[test]
fn format_internal_error_wire_bytes() {
    let bytes = build_internal_server_error().format();
    assert_eq!(bytes, b"HTTP/1.1 500 InternalServerError\r\n\r\nInternal Server Error".to_vec());
}

#[test]
fn format_with_header_line() {
    let mut r = plain_response(200, StatusCode::Okay, b"hi".to_vec());
    r.headers.push((String::from("Content-Type"), String::from("text/html")));
    let bytes = r.format();
    assert_eq!(bytes, b"HTTP/1.1 200 OK\r\nContent-Type: text/html\r\n\r\nhi".to_vec());
}

#[test]
fn format_keeps_binary_body_intact() {
    let body = vec![0xffu8, 0x00, 0x9c, 0x0d, 0x0a, 0x7f];
    let r = plain_response(200, StatusCode::Okay, body.clone());
    let bytes = r.format();
    let sep = b"\r\n\r\n";
    let pos = bytes.windows(4).position(|w| w == sep).unwrap();
    assert_eq!(&bytes[pos + 4..], &body[..]);
    let status_line = &bytes[..pos];
    assert_eq!(status_line, b"HTTP/1.1 200 OK");
}

#[test]
fn format_round_trip_recovers_status_and_body() {
    let body = vec![0xf0u8, 0x28, 0x8c, 0x28];
    let r = plain_response(404, StatusCode::NotFound, body.clone());
    let bytes = r.format();
    let text_end = bytes.windows(4).position(|w| w == b"\r\n\r\n").unwrap();
    let status_line = std::str::from_utf8(&bytes[..text_end]).unwrap();
    let mut parts = status_line.splitn(3, ' ');
    assert_eq!(parts.next(), Some("HTTP/1.1"));
    assert_eq!(parts.next(), Some("404"));
    assert_eq!(parts.next(), Some("Not Found"));
    assert_eq!(&bytes[text_end + 4..], &body[..]);
}

#[test]
fn format_is_idempotent() {
    let r = plain_response(500, StatusCode::InternalServerError, vec![1u8, 2, 3, 0xff]);
    let first = r.format();
    let second = r.format();
    assert_eq!(first, second);
}

#[test]
fn post_to_other_path_is_not_found() {
    let req = Request {
        method: HttpType::POST,
        path: String::from("/elsewhere"),
        data: Some(String::from("{\"data\": 1}")),
    };
    let r = handle_post(req, 50);
    assert_eq!(r.status_code, 404);
    assert_eq!(r.body, b"Not Found".to_vec());
}

#[test]
fn post_without_body_is_internal_error() {
    let req = Request { method: HttpType::POST, path: String::from("/"), data: None };
    let r = handle_post(req, 50);
    assert_eq!(r.status_code, 500);
}

#[test]
fn post_with_malformed_json_is_internal_error() {
    let req = Request {
        method: HttpType::POST,
        path: String::from("/"),
        data: Some(String::from("{\"data\": ")),
    };
    let r = handle_post(req, 50);
    assert_eq!(r.status_code, 500);
    assert_eq!(r.body, b"Internal Server Error".to_vec());
}

#[test]
fn post_matching_guess_says_equal() {
    let req = Request {
        method: HttpType::POST,
        path: String::from("/"),
        data: Some(String::from("{\"data\": 42}")),
    };
    let r = handle_post(req, 42);
    assert_eq!(r.status_code, 200);
    assert_eq!(r.body, b"{\"message\":\"equal\",\"rand\":42}".to_vec());
}

#[test]
fn post_missing_guess_says_not_equal() {
    let req = Request {
        method: HttpType::POST,
        path: String::from("/"),
        data: Some(String::from("{\"data\": 41}")),
    };
    let r = handle_post(req, 42);
    assert_eq!(r.status_code, 200);
    assert_eq!(r.body, b"{\"message\":\"not equal\",\"rand\":42}".to_vec());
}

#[test]
fn post_body_with_nul_padding_still_decodes() {
    let req = Request {
        method: HttpType::POST,
        path: String::from("/"),
        data: Some(String::from("\u{0}\u{0} {\"data\": 9} \u{0}\u{0}")),
    };
    let r = handle_post(req, 9);
    assert_eq!(r.status_code, 200);
    assert_eq!(r.body, b"{\"message\":\"equal\",\"rand\":9}".to_vec());
}

#[test]
fn dispatch_get_asks_for_routed_asset() {
    match handle_response(b"GET /main.js HTTP/1.1\r\n\r\n", 10) {
        Step::Read(a) => assert_eq!(a, Asset::MainJs),
        Step::Done(_) => panic!("expected a file read"),
    }
}

#[test]
fn dispatch_get_unknown_path_asks_for_not_found_asset() {
    match handle_response(b"GET /nope HTTP/1.1\r\n\r\n", 10) {
        Step::Read(a) => assert_eq!(a, Asset::NotFound),
        Step::Done(_) => panic!("expected a file read"),
    }
}

#[test]
fn dispatch_post_answers_outright() {
    match handle_response(b"POST / HTTP/1.1\r\nHost: x\r\n\r\n{\"data\": 3}", 3) {
        Step::Done(r) => {
            assert_eq!(r.status_code, 200);
            assert_eq!(r.body, b"{\"message\":\"equal\",\"rand\":3}".to_vec());
        },
        Step::Read(_) => panic!("expected a finished response"),
    }
}

#[test]
fn dispatch_parse_failure_answers_500() {
    let bad_encoding = [0xc3u8, 0x28];
    for buf in [&bad_encoding[..], b"GET\r\n\r\n", b"DELETE / HTTP/1.1\r\n\r\n"] {
        match handle_response(buf, 10) {
            Step::Done(r) => {
                assert_eq!(r.status_code, 500);
                assert_eq!(r.body, b"Internal Server Error".to_vec());
            },
            Step::Read(_) => panic!("expected a finished response"),
        }
    }
}

#[test]
fn status_phrases() {
    assert_eq!(StatusCode::Okay.phrase(), "OK");
    assert_eq!(StatusCode::NotFound.phrase(), "Not Found");
    assert_eq!(StatusCode::BadRequest.phrase(), "Bad Request");
    assert_eq!(StatusCode::InternalServerError.phrase(), "InternalServerError");
}
