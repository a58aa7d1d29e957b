use mini_http::HttpResponse;

#[test]
fn encodes_status_line_headers_and_body() {
    let response = HttpResponse {
        status_code: 200,
        phrase: b"OK".to_vec(),
        headers: vec![b"Content-Length: 5".to_vec(), b"Connection: close".to_vec()],
        body: b"hello".to_vec(),
    };
    assert_eq!(
        response.to_byte_string(),
        b"HTTP/1.1 200 OK\r\nContent-Length: 5\r\nConnection: close\r\n\r\nhello".to_vec()
    );
}

#[test]
fn encodes_without_headers_or_body() {
    let response = HttpResponse {
        status_code: 404,
        phrase: b"Not Found".to_vec(),
        headers: vec![],
        body: vec![],
    };
    assert_eq!(response.to_byte_string(), b"HTTP/1.1 404 Not Found\r\n\r\n".to_vec());
}

#[test]
fn encodes_nothing_after_the_body() {
    let response = HttpResponse::with_text(200, b"OK".to_vec(), b"a\r\nb".to_vec());
    let bytes = response.to_byte_string();
    assert!(bytes.ends_with(b"\r\n\r\na\r\nb"));
}

#[test]
fn encodes_status_codes_in_decimal() {
    for (code, digits) in [(0u16, "0"), (7, "7"), (100, "100"), (599, "599"), (65535, "65535")] {
        let response = HttpResponse { status_code: code, phrase: vec![], headers: vec![], body: vec![] };
        assert_eq!(response.to_byte_string(), format!("HTTP/1.1 {} \r\n\r\n", digits).into_bytes());
    }
}

#[test]
fn empty_response_announces_no_body() {
    let response = HttpResponse::empty(404, b"Not Found".to_vec());
    assert_eq!(response.status_code, 404);
    assert_eq!(response.phrase, b"Not Found".to_vec());
    assert_eq!(
        response.headers,
        vec![b"Content-Length: 0".to_vec(), b"Connection: close".to_vec()]
    );
    assert!(response.body.is_empty());
}

#[test]
fn text_response_announces_length_and_kind() {
    let response = HttpResponse::with_text(200, b"OK".to_vec(), b"hello world!".to_vec());
    assert_eq!(
        response.headers,
        vec![
            b"Content-Length: 12".to_vec(),
            b"Connection: close".to_vec(),
            b"Content-Type: text/plain".to_vec()
        ]
    );
    assert_eq!(response.body, b"hello world!".to_vec());
}

#[test]
fn data_response_announces_length_and_kind() {
    let response = HttpResponse::with_data(200, b"OK".to_vec(), vec![0u8; 1024]);
    assert_eq!(
        response.headers,
        vec![
            b"Content-Length: 1024".to_vec(),
            b"Connection: close".to_vec(),
            b"Content-Type: application/octet-stream".to_vec()
        ]
    );
    assert_eq!(response.body.len(), 1024);
}
