use mini_http::router::{
    echo_response, error_response, file_read_response, file_write_response, get_file, has_prefix, post_file, route,
    strip_prefix, user_agent_response,
};
use mini_http::connection::answer;
use mini_http::{
    respond_to_text, respond_via_http, Action, DecodeError, HttpRequest, HttpResponse, ReadOutcome, WriteOutcome,
};

fn request(text: &str) -> HttpRequest {
    HttpRequest::from_str(text).unwrap()
}

fn response(action: Action) -> HttpResponse {
    match action {
        Action::Respond(r) => r,
        other => panic!("expected a response, got {:?}", other),
    }
}

fn empty(status_code: u16, phrase: &str) -> HttpResponse {
    HttpResponse {
        status_code,
        phrase: phrase.as_bytes().to_vec(),
        headers: vec![b"Content-Length: 0".to_vec(), b"Connection: close".to_vec()],
        body: vec![],
    }
}

fn text(status_code: u16, phrase: &str, body: &str) -> HttpResponse {
    HttpResponse {
        status_code,
        phrase: phrase.as_bytes().to_vec(),
        headers: vec![
            format!("Content-Length: {}", body.len()).into_bytes(),
            b"Connection: close".to_vec(),
            b"Content-Type: text/plain".to_vec(),
        ],
        body: body.as_bytes().to_vec(),
    }
}

#[test]
fn root_gets_an_empty_200_whatever_the_method() {
    for method in ["GET", "PUT", "POST", "PATCH", "DELETE", "HEAD", "OPTIONS", "CONNECT"] {
        let r = response(route(&request(&format!("{} / HTTP/1.1\r\n\r\n", method)), None));
        assert_eq!(r, empty(200, "OK"));
    }
}

#[test]
fn user_agent_is_reflected() {
    let r = response(route(&request("GET /user-agent HTTP/1.1\r\nUser-Agent: test-client/1.0\r\n\r\n"), None));
    assert_eq!(r, text(200, "OK", "test-client/1.0"));
    assert_eq!(r.body, b"test-client/1.0".to_vec());
}

#[test]
fn missing_user_agent_gives_an_empty_body() {
    let r = response(route(&request("GET /user-agent HTTP/1.1\r\nHost: h\r\n\r\n"), None));
    assert_eq!(r.status_code, 200);
    assert_eq!(r, text(200, "OK", ""));
    assert!(r.body.is_empty());
}

#[test]
fn user_agent_header_name_is_matched_exactly() {
    let r = response(route(&request("GET /user-agent HTTP/1.1\r\nuser-agent: x\r\n\r\n"), None));
    assert_eq!(r, text(200, "OK", ""));
}

#[test]
fn user_agent_handler_reads_the_header() {
    let r = user_agent_response(&request("POST /elsewhere HTTP/1.1\r\nUser-Agent: curl/8\r\n\r\n"));
    assert_eq!(r, text(200, "OK", "curl/8"));
}

#[test]
fn user_agent_route_is_for_get_only() {
    let r = response(route(&request("POST /user-agent HTTP/1.1\r\nUser-Agent: x\r\n\r\n"), None));
    assert_eq!(r, empty(404, "Not Found"));
}

#[test]
fn echo_gives_back_the_suffix() {
    let r = response(route(&request("GET /echo/abc HTTP/1.1\r\n\r\n"), None));
    assert_eq!(r, text(200, "OK", "abc"));
    assert_eq!(r.headers[0], b"Content-Length: 3".to_vec());
}

#[test]
fn echo_counts_bytes_not_characters() {
    let r = response(route(&request("GET /echo/\u{e9}\u{20ac} HTTP/1.1\r\n\r\n"), None));
    assert_eq!(r.body, "\u{e9}\u{20ac}".as_bytes().to_vec());
    assert_eq!(r.headers[0], b"Content-Length: 5".to_vec());
}

#[test]
fn echo_of_nothing_is_empty() {
    let r = response(route(&request("GET /echo/ HTTP/1.1\r\n\r\n"), None));
    assert_eq!(r, text(200, "OK", ""));
}

#[test]
fn echo_keeps_further_slashes() {
    let r = response(route(&request("DELETE /echo/a/b/../c HTTP/1.1\r\n\r\n"), None));
    assert_eq!(r, text(200, "OK", "a/b/../c"));
}

#[test]
fn echo_handler_rejects_other_paths() {
    assert_eq!(echo_response("/echo"), empty(400, "Bad Request"));
    assert_eq!(echo_response("/ech0/x"), empty(400, "Bad Request"));
    assert_eq!(echo_response(""), empty(400, "Bad Request"));
    assert_eq!(echo_response("/echo/x"), text(200, "OK", "x"));
}

#[test]
fn unknown_paths_get_an_empty_404() {
    for path in ["/nope", "/echo", "/files", "/user-agent/", "/User-Agent", "//", "x", "/ECHO/a"] {
        let r = response(route(&request(&format!("GET {} HTTP/1.1\r\n\r\n", path)), Some("/tmp")));
        assert_eq!(r.status_code, 404);
        assert!(r.body.is_empty());
        assert!(r.headers.contains(&b"Content-Length: 0".to_vec()));
        assert_eq!(r, empty(404, "Not Found"));
    }
}

#[test]
fn file_routes_with_other_methods_get_an_empty_404() {
    for method in ["PUT", "PATCH", "DELETE", "HEAD", "OPTIONS", "CONNECT"] {
        let r = response(route(&request(&format!("{} /files/a HTTP/1.1\r\n\r\n", method)), Some("/tmp")));
        assert_eq!(r, empty(404, "Not Found"));
    }
}

#[test]
fn get_on_a_file_route_asks_for_the_file() {
    let action = route(&request("GET /files/foo.txt HTTP/1.1\r\n\r\n"), Some("/srv/data"));
    match action {
        Action::ReadFile { path } => assert_eq!(path, "/srv/data/foo.txt"),
        other => panic!("{:?}", other),
    }
}

#[test]
fn post_on_a_file_route_asks_to_write_the_body() {
    let action = route(&request("POST /files/foo.txt HTTP/1.1\r\nContent-Length: 5\r\n\r\nhello"), Some("/srv/data"));
    match action {
        Action::WriteFile { path, body } => {
            assert_eq!(path, "/srv/data/foo.txt");
            assert_eq!(body, b"hello".to_vec());
        }
        other => panic!("{:?}", other),
    }
}

#[test]
fn file_paths_are_joined_as_written() {
    match route(&request("GET /files/../etc/passwd HTTP/1.1\r\n\r\n"), Some("dir/")) {
        Action::ReadFile { path } => assert_eq!(path, "dir//../etc/passwd"),
        other => panic!("{:?}", other),
    }
    match route(&request("GET /files/ HTTP/1.1\r\n\r\n"), Some("")) {
        Action::ReadFile { path } => assert_eq!(path, "/"),
        other => panic!("{:?}", other),
    }
}

#[test]
fn file_routes_without_a_directory_fail_descriptively() {
    let want = text(500, "Internal Server Error", "No directory is configured for file routes");
    assert_eq!(response(route(&request("GET /files/a HTTP/1.1\r\n\r\n"), None)), want);
    assert_eq!(response(route(&request("POST /files/a HTTP/1.1\r\n\r\nx"), None)), want);
}

#[test]
fn file_handlers_reject_other_paths() {
    let r = request("GET /other HTTP/1.1\r\n\r\n");
    assert_eq!(response(get_file(&r, Some("d"))), empty(400, "Bad Request"));
    assert_eq!(response(post_file(&r, Some("d"))), empty(400, "Bad Request"));
    assert_eq!(response(get_file(&r, None)), empty(400, "Bad Request"));
}

#[test]
fn write_then_read_gives_the_body_back() {
    let directory = Some("/base");
    let written = match route(&request("POST /files/foo.txt HTTP/1.1\r\n\r\nhello"), directory) {
        Action::WriteFile { path, body } => (path, body),
        other => panic!("{:?}", other),
    };
    let created = file_write_response(&written.0, WriteOutcome::Written);
    assert_eq!(created.status_code, 201);
    assert_eq!(created.phrase, b"Created".to_vec());
    assert!(created.body.is_empty());
    let asked = match route(&request("GET /files/foo.txt HTTP/1.1\r\n\r\n"), directory) {
        Action::ReadFile { path } => path,
        other => panic!("{:?}", other),
    };
    assert_eq!(asked, written.0);
    let read = file_read_response(&asked, ReadOutcome::Found(written.1));
    assert_eq!(read.status_code, 200);
    assert_eq!(read.body, b"hello".to_vec());
    assert!(read.headers.contains(&b"Content-Type: application/octet-stream".to_vec()));
    assert!(read.headers.contains(&b"Content-Length: 5".to_vec()));
}

#[test]
fn missing_file_gets_404_with_a_message() {
    let asked = match route(&request("GET /files/does-not-exist HTTP/1.1\r\n\r\n"), Some("/empty")) {
        Action::ReadFile { path } => path,
        other => panic!("{:?}", other),
    };
    let r = file_read_response(&asked, ReadOutcome::NotFound);
    assert_eq!(r, text(404, "Not Found", "File not found"));
    assert_eq!(r.body, b"File not found".to_vec());
}

#[test]
fn failed_read_gets_500_with_path_and_error() {
    let r = file_read_response("/d/f", ReadOutcome::Failed("permission denied".to_string()));
    assert_eq!(
        r,
        text(
            500,
            "Internal Server Error",
            "Encountered error while trying to read file (/d/f): permission denied"
        )
    );
}

#[test]
fn written_file_gets_201_without_body() {
    let r = file_write_response("/d/f", WriteOutcome::Written);
    assert_eq!(
        r,
        HttpResponse {
            status_code: 201,
            phrase: b"Created".to_vec(),
            headers: vec![
                b"Content-Length: 0".to_vec(),
                b"Connection: close".to_vec(),
                b"Content-Type: application/octet-stream".to_vec()
            ],
            body: vec![],
        }
    );
}

#[test]
fn write_into_missing_directory_gets_404() {
    let r = file_write_response("/d/f", WriteOutcome::NotFound);
    assert_eq!(r, text(404, "Not Found", "File not found"));
}

#[test]
fn failed_write_gets_500_with_path_and_error() {
    let r = file_write_response("/d/f", WriteOutcome::Failed("disk full".to_string()));
    assert_eq!(
        r,
        text(500, "Internal Server Error", "Encountered error while trying to write to file (/d/f): disk full")
    );
}

#[test]
fn error_response_carries_the_message() {
    assert_eq!(error_response("boom"), text(500, "Internal Server Error", "boom"));
}

#[test]
fn prefixes_are_compared_by_characters() {
    assert!(has_prefix("/files/x", "/files/"));
    assert!(has_prefix("/files/", "/files/"));
    assert!(has_prefix("anything", ""));
    assert!(!has_prefix("/files", "/files/"));
    assert!(!has_prefix("", "/"));
    assert_eq!(strip_prefix("\u{e9}\u{e9}x", "\u{e9}"), Some("\u{e9}x".to_string()));
    assert_eq!(strip_prefix("abc", "abd"), None);
    assert_eq!(strip_prefix("abc", "abc"), Some(String::new()));
}

#[test]
fn malformed_requests_get_an_empty_400() {
    for received in ["", "GET /", "GET / HTTP/1.1 x", "FETCH / HTTP/1.1\r\n\r\n", "GET / HTTP/1.1\r\nbad\r\n\r\n", "\0\0\0"] {
        let r = response(respond_to_text(received, Some("/tmp")));
        assert_eq!(r, empty(400, "Bad Request"), "{:?}", received);
        assert_eq!(r.status_code, 400);
        assert!(r.body.is_empty());
    }
}

#[test]
fn padding_after_the_request_does_not_count() {
    let r = response(respond_to_text("GET /echo/abc HTTP/1.1\r\n\r\n\0\0\u{3}\u{4}\0", None));
    assert_eq!(r, text(200, "OK", "abc"));
    let r = response(respond_to_text("POST /echo/abc HTTP/1.1\r\n\r\nbody\u{4}", None));
    assert_eq!(r, text(200, "OK", "abc"));
}

#[test]
fn padding_inside_the_request_stays() {
    match respond_to_text("POST /files/f HTTP/1.1\r\n\r\na\0b\0", Some("d")) {
        Action::WriteFile { path, body } => {
            assert_eq!(path, "d/f");
            assert_eq!(body, b"a\0b".to_vec());
        }
        other => panic!("{:?}", other),
    }
}

#[test]
fn a_zero_filled_buffer_is_read_up_to_the_request() {
    let mut buffer = vec![0u8; 16 * 1024];
    let text_in = b"GET /user-agent HTTP/1.1\r\nHost: localhost:4221\r\nUser-Agent: test-client/1.0\r\n\r\n";
    buffer[..text_in.len()].copy_from_slice(text_in);
    let r = response(respond_via_http(&buffer, None));
    assert_eq!(r, text(200, "OK", "test-client/1.0"));
}

#[test]
fn an_empty_buffer_is_a_bad_request() {
    assert_eq!(response(respond_via_http(&[0u8; 1024], None)), empty(400, "Bad Request"));
    assert_eq!(response(respond_via_http(&[], None)), empty(400, "Bad Request"));
}

#[test]
fn bytes_that_are_not_text_are_read_as_replacement_characters() {
    let r = response(respond_via_http(b"GET /echo/a\xffb HTTP/1.1\r\n\r\n", None));
    assert_eq!(r.status_code, 200);
    assert_eq!(r.body, "a\u{fffd}b".as_bytes().to_vec());
    assert_eq!(r.headers[0], b"Content-Length: 5".to_vec());
}

#[test]
fn text_bytes_are_read_as_they_are() {
    let r = response(respond_via_http("GET /echo/\u{e9} HTTP/1.1\r\n\r\n".as_bytes(), None));
    assert_eq!(r.body, vec![0xC3, 0xA9]);
}

fn read_back(bytes: &[u8]) -> (u16, Vec<u8>, Vec<Vec<u8>>, Vec<u8>) {
    let find = |from: usize| (from..bytes.len() - 1).find(|&i| bytes[i] == 13 && bytes[i + 1] == 10).unwrap();
    let end = find(0);
    let status = &bytes[..end];
    assert!(status.starts_with(b"HTTP/1.1 "));
    let rest = &status[9..];
    let space = rest.iter().position(|&b| b == b' ').unwrap();
    let code: u16 = String::from_utf8(rest[..space].to_vec()).unwrap().parse().unwrap();
    let phrase = rest[space + 1..].to_vec();
    let mut headers = Vec::new();
    let mut at = end + 2;
    loop {
        let next = find(at);
        if next == at {
            return (code, phrase, headers, bytes[at + 2..].to_vec());
        }
        headers.push(bytes[at..next].to_vec());
        at = next + 2;
    }
}

#[test]
fn encoded_responses_are_read_back_as_they_were() {
    let samples = vec![
        empty(200, "OK"),
        text(404, "Not Found", "File not found"),
        HttpResponse::with_data(200, b"OK".to_vec(), b"\r\n\r\nbinary\0\r\n".to_vec()),
        HttpResponse { status_code: 0, phrase: vec![], headers: vec![b"\r".to_vec(), b"\n".to_vec()], body: vec![13, 10] },
        HttpResponse { status_code: 65535, phrase: b"two words\r".to_vec(), headers: vec![], body: vec![] },
    ];
    for r in samples {
        let (code, phrase, headers, body) = read_back(&r.to_byte_string());
        assert_eq!(code, r.status_code);
        assert_eq!(phrase, r.phrase);
        assert_eq!(headers, r.headers);
        assert_eq!(body, r.body);
    }
}

#[test]
fn buffers_are_decoded_up_to_the_padding() {
    let mut buffer = vec![0u8; 1024];
    let text_in = b"POST /files/a HTTP/1.1\r\nContent-Length: 3\r\n\r\nabc";
    buffer[..text_in.len()].copy_from_slice(text_in);
    let request = mini_http::decode(&buffer).unwrap();
    assert_eq!(request, HttpRequest::from_str("POST /files/a HTTP/1.1\r\nContent-Length: 3\r\n\r\nabc").unwrap());
    assert_eq!(request.body, b"abc".to_vec());
    assert_eq!(mini_http::decode_text("GET / HTTP/1.1\r\n\r\n\u{3}\u{4}\0").unwrap().path, "/");
}

#[test]
fn buffers_that_hold_no_request_give_the_reason() {
    assert_eq!(mini_http::decode(&[0u8; 64]).unwrap_err(), DecodeError::MalformedStatusLine);
    assert_eq!(mini_http::decode(b"GET /\r\n\r\n").unwrap_err(), DecodeError::MalformedStatusLine);
    assert_eq!(mini_http::decode(b"\xff / HTTP/1.1\r\n\r\n").unwrap_err(), DecodeError::UnsupportedMethod);
    assert_eq!(mini_http::decode(b"GET / HTTP/1.1\r\n\xff\r\n\r\n").unwrap_err(), DecodeError::MalformedHeader);
    assert_eq!(mini_http::decode_text("GET / HTTP/1.1\r\nx\r\n").unwrap_err(), DecodeError::MalformedHeader);
}

#[test]
fn decoded_requests_are_routed_and_errors_answered_with_400() {
    let r = response(answer(Ok(request("GET /echo/x HTTP/1.1\r\n\r\n")), None));
    assert_eq!(r, text(200, "OK", "x"));
    for e in [DecodeError::MalformedStatusLine, DecodeError::UnsupportedMethod, DecodeError::MalformedHeader] {
        assert_eq!(response(answer(Err(e), Some("d"))), empty(400, "Bad Request"));
    }
}
