//! Responses and their wire encoding.

use crate::lossy::{debug_lines, debug_text, decode_lossy, lines_view, lossy_text};
use vstd::prelude::*;
use vstd::string::StringExecFns;
use vstd::utf8::encode_utf8;

verus! {

/// The two bytes that end every line of the head of a message.
pub open spec fn crlf() -> Seq<u8> {
    seq![13u8, 10u8]
}

/// The bytes of a piece of text, in UTF-8.
pub open spec fn text(s: &str) -> Seq<u8> {
    encode_utf8(s@)
}

/// The decimal digits of `n` as ASCII bytes, most significant first,
/// without leading zeros (`0` is the single digit `0`).
pub open spec fn decimal(n: nat) -> Seq<u8>
    decreases n,
{
    if n < 10 {
        seq![(48 + n) as u8]
    } else {
        decimal(n / 10).push((48 + n % 10) as u8)
    }
}

/// Every line of `lines` followed by a line break, in order.
pub open spec fn join_lines(lines: Seq<Seq<u8>>) -> Seq<u8>
    decreases lines.len(),
{
    if lines.len() == 0 {
        Seq::empty()
    } else {
        join_lines(lines.drop_last()) + lines.last() + crlf()
    }
}

/// The decimal digits of `n` as text.
pub open spec fn decimal_text(n: nat) -> Seq<char>
    decreases n,
{
    if n < 10 {
        seq![digit_char(n)]
    } else {
        decimal_text(n / 10).push(digit_char(n % 10))
    }
}

/// The character that writes the digit `d`.
pub open spec fn digit_char(d: nat) -> char {
    if d == 0 {
        '0'
    } else if d == 1 {
        '1'
    } else if d == 2 {
        '2'
    } else if d == 3 {
        '3'
    } else if d == 4 {
        '4'
    } else if d == 5 {
        '5'
    } else if d == 6 {
        '6'
    } else if d == 7 {
        '7'
    } else if d == 8 {
        '8'
    } else {
        '9'
    }
}

/// A response as a handler builds it. The header lines are already
/// formatted as `Name: value`; nothing is added when it is encoded.
#[derive(Debug, PartialEq, Eq, Clone, Hash)]
pub struct HttpResponse {
    pub status_code: u16,
    pub phrase: Vec<u8>,
    pub headers: Vec<Vec<u8>>,
    pub body: Vec<u8>,
}

/// The mathematical value of a response.
pub struct ResponseView {
    pub status_code: nat,
    pub phrase: Seq<u8>,
    pub headers: Seq<Seq<u8>>,
    pub body: Seq<u8>,
}

impl ResponseView {
    /// `HTTP/1.1 <code> <phrase>`, without the line break.
    pub open spec fn status_line(self) -> Seq<u8> {
        text("HTTP/1.1 ") + decimal(self.status_code) + text(" ") + self.phrase
    }

    /// The response as text for a log: status line, header lines as
    /// lists of numbers, and body, with bytes that are no text replaced.
    /// The parts are divided by the four characters `\r\n`, written out,
    /// between spaces.
    pub open spec fn display(self) -> Seq<char> {
        "HTTP/1.1 "@ + decimal_text(self.status_code) + " "@ + lossy_text(self.phrase)
            + " \\r\\n "@ + debug_text(self.headers) + " \\r\\n "@ + lossy_text(self.body)
            + " \\r\\n"@
    }

    /// The exact bytes sent for this response: status line, header lines,
    /// an empty line, and the body with nothing after it.
    pub open spec fn wire(self) -> Seq<u8> {
        self.status_line() + crlf() + join_lines(self.headers) + crlf() + self.body
    }
}

/// The header line that announces a body of `n` bytes.
pub open spec fn content_length_line(n: nat) -> Seq<u8> {
    text("Content-Length: ") + decimal(n)
}

/// The header line that announces a body of the kind `content_type`.
pub open spec fn content_type_line(content_type: Seq<u8>) -> Seq<u8> {
    text("Content-Type: ") + content_type
}

impl ResponseView {
    /// Whether the header lines announce the length of the body and that
    /// the connection closes after it.
    pub open spec fn framed(self) -> bool {
        &&& self.headers.contains(content_length_line(self.body.len()))
        &&& self.headers.contains(text("Connection: close"))
    }

    /// The response without a body.
    pub open spec fn empty(status_code: nat, phrase: Seq<u8>) -> ResponseView {
        ResponseView {
            status_code,
            phrase,
            headers: seq![content_length_line(0), text("Connection: close")],
            body: Seq::empty(),
        }
    }

    /// The response with the body `body` of the kind `content_type`.
    pub open spec fn with_content(
        status_code: nat,
        phrase: Seq<u8>,
        content_type: Seq<u8>,
        body: Seq<u8>,
    ) -> ResponseView {
        ResponseView {
            status_code,
            phrase,
            headers: seq![
                content_length_line(body.len()),
                text("Connection: close"),
                content_type_line(content_type),
            ],
            body,
        }
    }

    /// The response with a body of plain text.
    pub open spec fn with_text(status_code: nat, phrase: Seq<u8>, body: Seq<u8>) -> ResponseView {
        ResponseView::with_content(status_code, phrase, text("text/plain"), body)
    }

    /// The response with a body of arbitrary bytes.
    pub open spec fn with_data(status_code: nat, phrase: Seq<u8>, body: Seq<u8>) -> ResponseView {
        ResponseView::with_content(status_code, phrase, text("application/octet-stream"), body)
    }
}

impl View for HttpResponse {
    type V = ResponseView;

    open spec fn view(&self) -> ResponseView {
        ResponseView {
            status_code: self.status_code as nat,
            phrase: self.phrase@,
            headers: Seq::new(self.headers@.len(), |i: int| self.headers@[i]@),
            body: self.body@,
        }
    }
}

/// Appends the decimal digits of `n` to `out`.
pub fn push_decimal(out: &mut Vec<u8>, n: usize)
    ensures
        final(out)@ == old(out)@ + decimal(n as nat),
    decreases n,
{
    if n < 10 {
        let d: u8 = 48 + (n as u8);
        out.push(d);
        assert(final(out)@ =~= old(out)@ + decimal(n as nat));
    } else {
        push_decimal(out, n / 10);
        let d: u8 = 48 + ((n % 10) as u8);
        out.push(d);
        assert(out@ =~= old(out)@ + decimal(n as nat));
    }
}

/// The text that writes the digit `d`.
fn digit_text(d: usize) -> (s: &'static str)
    requires
        d < 10,
    ensures
        s@ == seq![digit_char(d as nat)],
{
    proof {
        reveal_strlit("0");
        reveal_strlit("1");
        reveal_strlit("2");
        reveal_strlit("3");
        reveal_strlit("4");
        reveal_strlit("5");
        reveal_strlit("6");
        reveal_strlit("7");
        reveal_strlit("8");
        reveal_strlit("9");
    }
    let s = if d == 0 {
        "0"
    } else if d == 1 {
        "1"
    } else if d == 2 {
        "2"
    } else if d == 3 {
        "3"
    } else if d == 4 {
        "4"
    } else if d == 5 {
        "5"
    } else if d == 6 {
        "6"
    } else if d == 7 {
        "7"
    } else if d == 8 {
        "8"
    } else {
        "9"
    };
    assert(s@ =~= seq![digit_char(d as nat)]);
    s
}

/// Appends the decimal digits of `n` to `out`.
pub fn push_decimal_text(out: &mut String, n: usize)
    ensures
        final(out)@ == old(out)@ + decimal_text(n as nat),
    decreases n,
{
    if n < 10 {
        out.append(digit_text(n));
    } else {
        push_decimal_text(out, n / 10);
        out.append(digit_text(n % 10));
        assert(out@ =~= old(out)@ + decimal_text(n as nat));
    }
}

/// Appends a copy of `bytes` to `out`.
pub fn push_bytes(out: &mut Vec<u8>, bytes: &[u8])
    ensures
        final(out)@ == old(out)@ + bytes@,
{
    let mut i: usize = 0;
    while i < bytes.len()
        invariant
            i <= bytes.len(),
            out@ == old(out)@ + bytes@.subrange(0, i as int),
        decreases bytes.len() - i,
    {
        out.push(bytes[i]);
        i = i + 1;
        assert(out@ =~= old(out)@ + bytes@.subrange(0, i as int));
    }
    assert(bytes@.subrange(0, i as int) =~= bytes@);
}

/// Appends the bytes of `s` to `out`.
pub fn push_text(out: &mut Vec<u8>, s: &str)
    ensures
        final(out)@ == old(out)@ + text(s),
{
    push_bytes(out, s.as_bytes());
}

/// The bytes of `s`.
pub fn bytes_of(s: &str) -> (bytes: Vec<u8>)
    ensures
        bytes@ == text(s),
{
    s.as_bytes_vec()
}

/// The header line that announces a body of `n` bytes.
pub fn content_length(n: usize) -> (line: Vec<u8>)
    ensures
        line@ == content_length_line(n as nat),
{
    let mut line = bytes_of("Content-Length: ");
    push_decimal(&mut line, n);
    line
}

/// The header line that announces a body of the kind `content_type`.
pub fn content_type(kind: &str) -> (line: Vec<u8>)
    ensures
        line@ == content_type_line(text(kind)),
{
    let mut line = bytes_of("Content-Type: ");
    push_text(&mut line, kind);
    line
}

impl HttpResponse {
    /// A response without a body.
    pub fn empty(status_code: u16, phrase: Vec<u8>) -> (r: HttpResponse)
        ensures
            r@ == ResponseView::empty(status_code as nat, phrase@),
            r@.framed(),
    {
        let mut headers: Vec<Vec<u8>> = Vec::new();
        headers.push(content_length(0));
        headers.push(bytes_of("Connection: close"));
        let r = HttpResponse { status_code, phrase, headers, body: Vec::new() };
        proof {
            let v = ResponseView::empty(status_code as nat, phrase@);
            assert(r@.headers =~= v.headers);
            assert(v.headers[0] == content_length_line(0));
            assert(v.headers[1] == text("Connection: close"));
        }
        r
    }

    /// A response with the body `body` of the kind `kind`.
    fn with_content(status_code: u16, phrase: Vec<u8>, kind: &str, body: Vec<u8>) -> (r:
        HttpResponse)
        ensures
            r@ == ResponseView::with_content(status_code as nat, phrase@, text(kind), body@),
            r@.framed(),
    {
        let mut headers: Vec<Vec<u8>> = Vec::new();
        headers.push(content_length(body.len()));
        headers.push(bytes_of("Connection: close"));
        headers.push(content_type(kind));
        let r = HttpResponse { status_code, phrase, headers, body };
        proof {
            let v = ResponseView::with_content(status_code as nat, phrase@, text(kind), body@);
            assert(r@.headers =~= v.headers);
            assert(v.headers[0] == content_length_line(body@.len()));
            assert(v.headers[1] == text("Connection: close"));
        }
        r
    }

    /// A response with a body of plain text.
    pub fn with_text(status_code: u16, phrase: Vec<u8>, body: Vec<u8>) -> (r: HttpResponse)
        ensures
            r@ == ResponseView::with_text(status_code as nat, phrase@, body@),
            r@.framed(),
    {
        HttpResponse::with_content(status_code, phrase, "text/plain", body)
    }

    /// A response with a body of arbitrary bytes.
    pub fn with_data(status_code: u16, phrase: Vec<u8>, body: Vec<u8>) -> (r: HttpResponse)
        ensures
            r@ == ResponseView::with_data(status_code as nat, phrase@, body@),
            r@.framed(),
    {
        HttpResponse::with_content(status_code, phrase, "application/octet-stream", body)
    }

    /// The response as text for a log.
    pub fn to_string(&self) -> (s: String)
        ensures
            s@ == self@.display(),
    {
        let mut s = String::from_str("HTTP/1.1 ");
        push_decimal_text(&mut s, self.status_code as usize);
        s.append(" ");
        s.append(decode_lossy(self.phrase.as_slice()).as_str());
        s.append(" \\r\\n ");
        assert(lines_view(self.headers@) =~= self@.headers);
        s.append(debug_lines(&self.headers).as_str());
        s.append(" \\r\\n ");
        s.append(decode_lossy(self.body.as_slice()).as_str());
        s.append(" \\r\\n");
        s
    }

    /// Encodes the response as the bytes to send.
    pub fn to_byte_string(&self) -> (out: Vec<u8>)
        ensures
            out@ == self@.wire(),
    {
        let mut result: Vec<u8> = Vec::new();
        push_text(&mut result, "HTTP/1.1 ");
        push_decimal(&mut result, self.status_code as usize);
        push_text(&mut result, " ");
        push_bytes(&mut result, self.phrase.as_slice());
        assert(result@ =~= self@.status_line());
        result.push(13u8);
        result.push(10u8);
        assert(result@ =~= self@.status_line() + crlf());
        let ghost head = result@;
        let mut i: usize = 0;
        while i < self.headers.len()
            invariant
                i <= self.headers.len(),
                result@ == head + join_lines(self@.headers.subrange(0, i as int)),
            decreases self.headers.len() - i,
        {
            let ghost before = result@;
            push_bytes(&mut result, self.headers[i].as_slice());
            result.push(13u8);
            result.push(10u8);
            i = i + 1;
            proof {
                let now = self@.headers.subrange(0, i as int);
                assert(now.drop_last() =~= self@.headers.subrange(0, i - 1));
                assert(now.last() == self.headers@[i - 1]@);
                assert(result@ =~= before + self.headers@[i - 1]@ + crlf());
                assert(result@ =~= head + join_lines(now));
            }
        }
        assert(self@.headers.subrange(0, i as int) =~= self@.headers);
        result.push(13u8);
        result.push(10u8);
        push_bytes(&mut result, self.body.as_slice());
        assert(result@ =~= self@.wire());
        result
    }
}

} // verus!
