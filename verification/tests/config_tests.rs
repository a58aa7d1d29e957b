use mini_http::config::{directory_argument, MissingValue};
use mini_http::HttpResponse;

fn arguments(words: &[&str]) -> Vec<String> {
    words.iter().map(|w| w.to_string()).collect()
}

#[test]
fn directory_follows_the_flag() {
    let r = directory_argument(&arguments(&["server", "--directory", "/tmp/data"]));
    assert_eq!(r, Ok(Some("/tmp/data".to_string())));
}

#[test]
fn no_flag_means_no_directory() {
    assert_eq!(directory_argument(&arguments(&["server"])), Ok(None));
    assert_eq!(directory_argument(&arguments(&[])), Ok(None));
    assert_eq!(directory_argument(&arguments(&["server", "-directory", "x", "--Directory", "y"])), Ok(None));
}

#[test]
fn the_first_flag_counts() {
    let r = directory_argument(&arguments(&["server", "-v", "--directory", "a", "--directory", "b"]));
    assert_eq!(r, Ok(Some("a".to_string())));
}

#[test]
fn the_word_after_the_flag_is_the_directory_whatever_it_is() {
    let r = directory_argument(&arguments(&["--directory", "--directory"]));
    assert_eq!(r, Ok(Some("--directory".to_string())));
}

#[test]
fn flag_without_directory_is_a_mistake() {
    assert_eq!(directory_argument(&arguments(&["server", "--directory"])), Err(MissingValue));
    assert_eq!(directory_argument(&arguments(&["--directory"])), Err(MissingValue));
}

#[test]
fn response_is_shown_for_a_log() {
    let r = HttpResponse {
        status_code: 200,
        phrase: b"OK".to_vec(),
        headers: vec![b"A: b".to_vec(), vec![]],
        body: b"hi".to_vec(),
    };
    assert_eq!(r.to_string(), "HTTP/1.1 200 OK \\r\\n [[65, 58, 32, 98], []] \\r\\n hi \\r\\n");
    assert_eq!(
        r.to_string(),
        format!(
            "HTTP/1.1 {} {} \\r\\n {:?} \\r\\n {} \\r\\n",
            r.status_code,
            String::from_utf8_lossy(&r.phrase),
            r.headers,
            String::from_utf8_lossy(&r.body)
        )
    );
}

#[test]
fn shown_response_replaces_bytes_that_are_no_text() {
    let r = HttpResponse { status_code: 65535, phrase: vec![0xff], headers: vec![], body: vec![b'a', 0x80, b'b'] };
    assert_eq!(r.to_string(), "HTTP/1.1 65535 \u{fffd} \\r\\n [] \\r\\n a\u{fffd}b \\r\\n");
}

#[test]
fn shown_status_codes_are_decimal() {
    for code in [0u16, 9, 10, 99, 100, 404, 1000, 65535] {
        let r = HttpResponse { status_code: code, phrase: vec![], headers: vec![], body: vec![] };
        assert_eq!(r.to_string(), format!("HTTP/1.1 {}  \\r\\n [] \\r\\n  \\r\\n", code));
    }
}
