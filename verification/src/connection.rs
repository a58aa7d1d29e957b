//! From the bytes read from a connection to what the server does next.

use crate::lossy::{decode_lossy, lossy_text};
use crate::error::DecodeError;
use crate::request::{outcome_view, parse_request, HttpRequest, RequestView};
use crate::response::{bytes_of, HttpResponse};
use crate::router::{bad_request, route, route_view, text_view, Action, ActionView};
use crate::text::chars_of;
use vstd::prelude::*;
use vstd::string::StrSliceExecFns;
use vstd::utf8::{decode_utf8, valid_utf8};

verus! {

/// Whether `c` is one of the characters that fill the unused end of a
/// read buffer: NUL, end of text, end of transmission.
pub open spec fn is_padding(c: char) -> bool {
    c == '\0' || c == '\u{3}' || c == '\u{4}'
}

/// `s` without the padding at its end.
pub open spec fn strip_padding(s: Seq<char>) -> Seq<char>
    decreases s.len(),
{
    if s.len() > 0 && is_padding(s.last()) {
        strip_padding(s.drop_last())
    } else {
        s
    }
}

/// The request that the text `received` holds: the padding at its end
/// does not count.
pub open spec fn decode_view(received: Seq<char>) -> Result<RequestView, DecodeError> {
    parse_request(strip_padding(received))
}

/// What the server does for the text `received`: a request is routed;
/// anything else gets an empty 400.
pub open spec fn answer_view(received: Seq<char>, directory: Option<Seq<char>>) -> ActionView {
    match decode_view(received) {
        Ok(request) => route_view(request, directory),
        Err(_) => ActionView::Respond(bad_request()),
    }
}

/// Decodes a request from the text that was received.
pub fn decode_text(received: &str) -> (r: Result<HttpRequest, DecodeError>)
    ensures
        outcome_view(r) == decode_view(received@),
{
    let chars = chars_of(received);
    let mut end: usize = chars.len();
    assert(received@.subrange(0, end as int) =~= received@);
    while end > 0 && (chars[end - 1] == '\0' || chars[end - 1] == '\u{3}' || chars[end - 1]
        == '\u{4}')
        invariant
            chars@ == received@,
            end <= chars@.len(),
            strip_padding(received@.subrange(0, end as int)) == strip_padding(received@),
        decreases end,
    {
        assert(received@.subrange(0, end as int).drop_last() =~= received@.subrange(0, end - 1));
        end = end - 1;
    }
    HttpRequest::from_str(received.substring_char(0, end))
}

/// Decodes a request from the bytes that were read from a connection.
/// Bytes that are no text are read as replacement characters.
pub fn decode(buffer: &[u8]) -> (r: Result<HttpRequest, DecodeError>)
    ensures
        outcome_view(r) == decode_view(lossy_text(buffer@)),
        valid_utf8(buffer@) ==> outcome_view(r) == decode_view(decode_utf8(buffer@)),
{
    let received = decode_lossy(buffer);
    decode_text(received.as_str())
}

/// Decides what the server does once the bytes received were decoded.
pub fn answer(decoded: Result<HttpRequest, DecodeError>, directory: Option<&str>) -> (a: Action)
    ensures
        a@ == match outcome_view(decoded) {
            Ok(request) => route_view(request, text_view(directory)),
            Err(_) => ActionView::Respond(bad_request()),
        },
        a matches Action::Respond(r) ==> r@.framed(),
{
    match decoded {
        Ok(request) => route(&request, directory),
        Err(_) => Action::Respond(HttpResponse::empty(400, bytes_of("Bad Request"))),
    }
}

/// Decides what the server does for the text that was received.
pub fn respond_to_text(received: &str, directory: Option<&str>) -> (a: Action)
    ensures
        a@ == answer_view(received@, text_view(directory)),
        a matches Action::Respond(r) ==> r@.framed(),
{
    answer(decode_text(received), directory)
}

/// Decides what the server does for the bytes that were read from a
/// connection. Bytes that are no text are read as replacement characters.
pub fn respond_via_http(buffer: &[u8], directory: Option<&str>) -> (a: Action)
    ensures
        a@ == answer_view(lossy_text(buffer@), text_view(directory)),
        valid_utf8(buffer@) ==> a@ == answer_view(decode_utf8(buffer@), text_view(directory)),
        a matches Action::Respond(r) ==> r@.framed(),
{
    answer(decode(buffer), directory)
}

} // verus!
