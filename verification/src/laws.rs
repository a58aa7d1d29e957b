//! What holds of the library as a whole.

use crate::connection::{answer_view, strip_padding};
use crate::framing::{
    lemma_line_end_after, lemma_read_lines, lemma_read_status_line, lemma_status_line_unbroken,
    read_response, unbroken,
};
use crate::headers::lemma_store_all_last;
use crate::method::{ascii_upper, parse_method, HttpMethod};
use crate::request::{
    body_lines, filled, header_lines, header_pair, header_pairs, parse_request, RequestView,
};
use crate::response::{content_length_line, crlf, decimal, join_lines, text, ResponseView};
use crate::router::{
    bad_request, not_found, read_view, route_view, user_agent_view, write_view, ActionView,
    ReadOutcome, WriteOutcome,
};
use crate::text::{
    concat, is_space, lemma_prefix_len_is, lemma_split_lines_first, lemma_split_lines_single,
    lemma_split_whitespace_blank, lemma_split_whitespace_first, lemma_trim_tight, split_lines,
    split_whitespace, strip_cr,
};
use vstd::prelude::*;
use vstd::utf8::{
    decode_utf8, encode_utf8, encode_utf8_decode_utf8, encode_utf8_valid_utf8, is_ascii_chars,
    is_ascii_chars_encode_utf8, valid_utf8,
};

verus! {

/// The header line of a body of no bytes is `Content-Length: 0`.
pub proof fn law_content_length_zero()
    ensures
        content_length_line(0) == text("Content-Length: 0"),
{
    reveal_strlit("Content-Length: ");
    reveal_strlit("Content-Length: 0");
    let a = "Content-Length: "@;
    let b = "Content-Length: 0"@;
    assert(is_ascii_chars(a));
    assert(is_ascii_chars(b));
    is_ascii_chars_encode_utf8(a);
    is_ascii_chars_encode_utf8(b);
    assert(decimal(0) =~= seq![48u8]);
    assert(encode_utf8(a) + decimal(0) =~= encode_utf8(b));
}

/// A request that no route matches gets the status 404, no body, and the
/// header line `Content-Length: 0`. No route matches when the path is not
/// `/`, the request is not `GET /user-agent`, the path does not start with
/// `/echo/`, and either the path does not start with `/files/` or the
/// method is neither `GET` nor `POST`.
pub proof fn law_unknown_route(request: RequestView, directory: Option<Seq<char>>)
    requires
        request.path != "/"@,
        !(request.path == "/user-agent"@ && request.method == HttpMethod::Get),
        !"/echo/"@.is_prefix_of(request.path),
        !"/files/"@.is_prefix_of(request.path) || (request.method != HttpMethod::Get
            && request.method != HttpMethod::Post),
    ensures
        route_view(request, directory) == ActionView::Respond(not_found()),
        not_found().status_code == 404,
        not_found().body.len() == 0,
        not_found().headers.contains(text("Content-Length: 0")),
{
    law_content_length_zero();
    assert(not_found().headers[0] == text("Content-Length: 0"));
}

/// Text whose first line does not consist of exactly three words, or
/// whose first word names no method, is no request, and gets the status
/// 400 and no body.
pub proof fn law_malformed_request(received: Seq<char>, directory: Option<Seq<char>>)
    requires
        ({
            let lines = split_lines(strip_padding(received));
            ||| lines.len() == 0
            ||| split_whitespace(lines[0]).len() != 3
            ||| parse_method(split_whitespace(lines[0])[0]) is None
        }),
    ensures
        parse_request(strip_padding(received)) is Err,
        answer_view(received, directory) == ActionView::Respond(bad_request()),
        bad_request().status_code == 400,
        bad_request().body.len() == 0,
{
}

/// Whatever the reason for which text is no request, the answer is the
/// status 400 with no body.
pub proof fn law_decode_error(received: Seq<char>, directory: Option<Seq<char>>)
    requires
        parse_request(strip_padding(received)) is Err,
    ensures
        answer_view(received, directory) == ActionView::Respond(bad_request()),
        bad_request().status_code == 400,
        bad_request().body.len() == 0,
{
}

/// Of the header lines of a request that have the same name, the last
/// gives the value: if line `j` of the header section is the last of its
/// name, the request holds the value of line `j` under that name,
/// whatever the lines before it say.
pub proof fn law_header_overwrite(s: Seq<char>, j: int)
    requires
        parse_request(s) is Ok,
        0 <= j < header_lines(split_lines(s)).len(),
        ({
            let head = header_lines(split_lines(s));
            forall|k: int|
                j < k < head.len() ==> header_pair(#[trigger] head[k]).0 != header_pair(head[j]).0
        }),
    ensures
        ({
            let head = header_lines(split_lines(s));
            let request = parse_request(s)->Ok_0;
            &&& request.headers.contains_key(header_pair(head[j]).0)
            &&& request.headers[header_pair(head[j]).0] == header_pair(head[j]).1
        }),
{
    let head = header_lines(split_lines(s));
    let pairs = header_pairs(head);
    assert forall|k: int| j < k < pairs.len() implies (#[trigger] pairs[k]).0 != pairs[j].0 by {
        assert(pairs[k] == header_pair(head[k]));
    }
    lemma_store_all_last(pairs, j);
}

/// The text of the request for the echo of `suffix`: the request line
/// `GET /echo/<suffix> HTTP/1.1` and an empty line.
pub open spec fn echo_request(suffix: Seq<char>) -> Seq<char> {
    "GET /echo/"@ + suffix + " HTTP/1.1\r\n\r\n"@
}

/// The request for the echo of a suffix without white space decodes to a
/// `GET` request for the path `/echo/<suffix>` with no header fields and
/// no body.
pub proof fn law_echo_request_decodes(suffix: Seq<char>)
    requires
        forall|i: int| 0 <= i < suffix.len() ==> !is_space(#[trigger] suffix[i]),
    ensures
        strip_padding(echo_request(suffix)) == echo_request(suffix),
        parse_request(echo_request(suffix)) is Ok,
        parse_request(echo_request(suffix))->Ok_0.method == HttpMethod::Get,
        parse_request(echo_request(suffix))->Ok_0.path == "/echo/"@ + suffix,
        parse_request(echo_request(suffix))->Ok_0.version == "HTTP/1.1"@,
        parse_request(echo_request(suffix))->Ok_0.headers == Map::<Seq<char>, Seq<char>>::empty(),
        parse_request(echo_request(suffix))->Ok_0.body == Seq::<u8>::empty(),
{
    reveal_strlit("GET /echo/");
    reveal_strlit(" HTTP/1.1\r\n\r\n");
    reveal_strlit("GET");
    reveal_strlit("/echo/");
    reveal_strlit("HTTP/1.1");
    let t = echo_request(suffix);
    let path = "/echo/"@ + suffix;
    let blank = Seq::<char>::empty();
    let line = "GET"@ + seq![' '] + path + seq![' '] + "HTTP/1.1"@;
    let raw = line + seq!['\r'];
    let last = seq!['\r', '\n'];
    assert(t =~= raw + seq!['\n'] + last);
    assert(t.last() == '\n');

    assert(split_lines(t) == seq![line, blank]) by {
        lemma_split_lines_first(raw, last);
        assert(strip_cr(raw) =~= line);
        lemma_split_lines_first(seq!['\r'], blank);
        assert(seq!['\r'] + seq!['\n'] + blank =~= last);
        assert(strip_cr(seq!['\r']) =~= blank);
        lemma_split_lines_single(blank);
        assert(seq![line] + (seq![blank] + Seq::<Seq<char>>::empty()) =~= seq![line, blank]);
    }
    let lines = split_lines(t);

    assert(split_whitespace(line) == seq!["GET"@, path, "HTTP/1.1"@]) by {
        let after_method = seq![' '] + path + seq![' '] + "HTTP/1.1"@;
        let after_path = seq![' '] + "HTTP/1.1"@;
        lemma_split_whitespace_first(blank, "GET"@, after_method);
        assert(blank + "GET"@ + after_method =~= line);
        lemma_split_whitespace_first(seq![' '], path, after_path);
        assert(seq![' '] + path + after_path =~= after_method);
        lemma_split_whitespace_first(seq![' '], "HTTP/1.1"@, blank);
        assert(seq![' '] + "HTTP/1.1"@ + blank =~= after_path);
        lemma_split_whitespace_blank(blank);
        assert(seq!["GET"@] + (seq![path] + (seq!["HTTP/1.1"@] + Seq::<Seq<char>>::empty()))
            =~= seq!["GET"@, path, "HTTP/1.1"@]);
    }

    assert(parse_method("GET"@) == Some(HttpMethod::Get)) by {
        lemma_trim_tight("GET"@);
        assert(ascii_upper("GET"@) =~= "GET"@);
    }

    let rest = lines.skip(1);
    assert(rest =~= seq![blank]);
    lemma_prefix_len_is(rest, filled(), 0);
    assert(header_lines(lines) =~= Seq::empty());
    assert(body_lines(lines) =~= Seq::empty());
    assert(header_pairs(header_lines(lines)) =~= Seq::empty());
    assert(encode_utf8(concat(body_lines(lines))) =~= Seq::empty());
}

/// The echo route gives back what follows `/echo/`: the request for the
/// echo of a suffix without white space is answered with the status 200,
/// the bytes of the suffix as the body, and their number as the announced
/// length.
pub proof fn law_echo(suffix: Seq<char>, directory: Option<Seq<char>>)
    requires
        forall|i: int| 0 <= i < suffix.len() ==> !is_space(#[trigger] suffix[i]),
    ensures
        answer_view(echo_request(suffix), directory) == ActionView::Respond(
            ResponseView::with_text(200, text("OK"), encode_utf8(suffix)),
        ),
        ResponseView::with_text(200, text("OK"), encode_utf8(suffix)).body == encode_utf8(suffix),
        ResponseView::with_text(200, text("OK"), encode_utf8(suffix)).headers.contains(
            content_length_line(encode_utf8(suffix).len()),
        ),
{
    law_echo_request_decodes(suffix);
    reveal_strlit("/");
    reveal_strlit("/user-agent");
    reveal_strlit("/files/");
    reveal_strlit("/echo/");
    let path = "/echo/"@ + suffix;
    assert(path[1] == 'e');
    assert("/echo/"@.is_prefix_of(path));
    assert(path.skip("/echo/"@.len() as int) =~= suffix);
    let r = ResponseView::with_text(200, text("OK"), encode_utf8(suffix));
    assert(r.headers[0] == content_length_line(encode_utf8(suffix).len()));
}

/// The same holds of the bytes of such a request: they are text, and the
/// text that they encode is answered with the echo of the suffix.
pub proof fn law_echo_bytes(suffix: Seq<char>, directory: Option<Seq<char>>)
    requires
        forall|i: int| 0 <= i < suffix.len() ==> !is_space(#[trigger] suffix[i]),
    ensures
        valid_utf8(encode_utf8(echo_request(suffix))),
        answer_view(decode_utf8(encode_utf8(echo_request(suffix))), directory)
            == ActionView::Respond(ResponseView::with_text(200, text("OK"), encode_utf8(suffix))),
{
    encode_utf8_valid_utf8(echo_request(suffix));
    encode_utf8_decode_utf8(echo_request(suffix));
    law_echo(suffix, directory);
}

/// A `GET` request for `/user-agent` is answered with the status 200 and
/// the value of its header field `User-Agent` as the body; without such a
/// field the body is empty.
pub proof fn law_user_agent(request: RequestView, directory: Option<Seq<char>>)
    requires
        request.path == "/user-agent"@,
        request.method == HttpMethod::Get,
    ensures
        route_view(request, directory) == ActionView::Respond(user_agent_view(request)),
        user_agent_view(request).status_code == 200,
        request.headers.contains_key("User-Agent"@) ==> user_agent_view(request).body
            == encode_utf8(request.headers["User-Agent"@]),
        !request.headers.contains_key("User-Agent"@) ==> user_agent_view(request).body
            == Seq::<u8>::empty(),
{
    reveal_strlit("/");
    reveal_strlit("/user-agent");
    assert("/user-agent"@.len() != "/"@.len());
    assert(encode_utf8(Seq::<char>::empty()) =~= Seq::<u8>::empty());
}

/// Every response that the server sends announces the length of its body
/// and that the connection closes: the response that answers the text
/// received, and the responses after a file was read or written.
pub proof fn law_responses_framed(
    received: Seq<char>,
    directory: Option<Seq<char>>,
    path: Seq<char>,
    read: ReadOutcome,
    written: WriteOutcome,
)
    ensures
        answer_view(received, directory) matches ActionView::Respond(r) ==> r.framed(),
        read_view(path, read).framed(),
        write_view(path, written).framed(),
{
    lemma_content_framed();
    match answer_view(received, directory) {
        ActionView::Respond(r) => {
            assert(r.framed());
        },
        _ => {},
    }
}

/// The responses that the builders describe announce the length of their
/// body and that the connection closes.
pub proof fn lemma_content_framed()
    ensures
        forall|status_code: nat, phrase: Seq<u8>|
            (#[trigger] ResponseView::empty(status_code, phrase)).framed(),
        forall|status_code: nat, phrase: Seq<u8>, kind: Seq<u8>, body: Seq<u8>|
            (#[trigger] ResponseView::with_content(status_code, phrase, kind, body)).framed(),
{
    assert forall|status_code: nat, phrase: Seq<u8>|
        (#[trigger] ResponseView::empty(status_code, phrase)).framed() by {
        let r = ResponseView::empty(status_code, phrase);
        assert(r.headers[0] == content_length_line(0));
        assert(r.headers[1] == text("Connection: close"));
    }
    assert forall|status_code: nat, phrase: Seq<u8>, kind: Seq<u8>, body: Seq<u8>|
        (#[trigger] ResponseView::with_content(status_code, phrase, kind, body)).framed() by {
        let r = ResponseView::with_content(status_code, phrase, kind, body);
        assert(r.headers[0] == content_length_line(body.len()));
        assert(r.headers[1] == text("Connection: close"));
    }
}

/// An encoded response is read back as it was: the same status code,
/// phrase, header lines and body. This holds of every response whose
/// phrase and header lines hold no line break and whose header lines are
/// not empty; with a line break inside one of them, or an empty header
/// line, the bytes read as another response.
pub proof fn law_round_trip(r: ResponseView)
    requires
        unbroken(r.phrase),
        forall|i: int|
            0 <= i < r.headers.len() ==> unbroken(#[trigger] r.headers[i]) && r.headers[i].len()
                > 0,
    ensures
        read_response(r.wire()) == Some(r),
{
    let rest = join_lines(r.headers) + crlf() + r.body;
    assert(r.wire() =~= r.status_line() + crlf() + rest);
    lemma_status_line_unbroken(r.status_code, r.phrase);
    lemma_line_end_after(r.status_line(), rest);
    lemma_read_status_line(r.status_code, r.phrase);
    lemma_read_lines(r.headers, r.body);
}

} // verus!
