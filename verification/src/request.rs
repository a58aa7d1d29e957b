//! Requests and their decoding from text.

use crate::error::DecodeError;
use crate::headers::{store_all, Headers};
use crate::method::{method_in, parse_method, HttpMethod};
use crate::text::{
    all_within, chars_of, concat, lemma_prefix_len, lemma_prefix_len_is, line_spans, pieces,
    prefix_len, split_lines, split_whitespace, trim, trim_span, word_spans, Span,
};
use vstd::prelude::*;
use vstd::string::{StrSliceExecFns, StringExecFns};
use vstd::utf8::encode_utf8;

verus! {

/// A request as it was read from a connection.
#[derive(Debug, Clone, PartialEq, Eq)]
pub struct HttpRequest {
    pub method: HttpMethod,
    /// The request target as it was written.
    pub path: String,
    /// The version as it was written; any word is taken.
    pub version: String,
    pub headers: Headers,
    pub body: Vec<u8>,
}

/// The mathematical value of a request.
pub struct RequestView {
    pub method: HttpMethod,
    pub path: Seq<char>,
    pub version: Seq<char>,
    pub headers: Map<Seq<char>, Seq<char>>,
    pub body: Seq<u8>,
}

impl View for HttpRequest {
    type V = RequestView;

    open spec fn view(&self) -> RequestView {
        RequestView {
            method: self.method,
            path: self.path@,
            version: self.version@,
            headers: self.headers@,
            body: self.body@,
        }
    }
}

/// The predicate "is not a colon".
pub open spec fn before_colon() -> spec_fn(char) -> bool {
    |c: char| c != ':'
}

/// The predicate "is not empty".
pub open spec fn filled() -> spec_fn(Seq<char>) -> bool {
    |line: Seq<char>| line.len() > 0
}

/// Whether `line` holds a colon.
pub open spec fn has_colon(line: Seq<char>) -> bool {
    prefix_len(line, before_colon()) < line.len()
}

/// The name and the value of a header line: what stands before its
/// first colon and what stands after it, each without the white space
/// around it.
pub open spec fn header_pair(line: Seq<char>) -> (Seq<char>, Seq<char>) {
    let at = prefix_len(line, before_colon()) as int;
    (trim(line.take(at)), trim(line.skip(at + 1)))
}

/// The names and values of the header lines `lines`.
pub open spec fn header_pairs(lines: Seq<Seq<char>>) -> Seq<(Seq<char>, Seq<char>)> {
    Seq::new(lines.len(), |i: int| header_pair(lines[i]))
}

/// The lines of the header section: those that follow the first line,
/// up to the first empty one.
pub open spec fn header_lines(lines: Seq<Seq<char>>) -> Seq<Seq<char>> {
    let rest = lines.skip(1);
    rest.take(prefix_len(rest, filled()) as int)
}

/// The lines of the body: those that follow the empty line which ends
/// the header section.
pub open spec fn body_lines(lines: Seq<Seq<char>>) -> Seq<Seq<char>> {
    let rest = lines.skip(1);
    let n = prefix_len(rest, filled());
    if n < rest.len() {
        rest.skip(n as int + 1)
    } else {
        Seq::empty()
    }
}

/// The request that the text `s` holds, or why it holds none.
///
/// The first line must consist of three words: method, path and version.
/// The lines after it, up to the first empty one, are header fields; a
/// later field replaces an earlier one of the same name. The body is the
/// text of the remaining lines without their line ends.
pub open spec fn parse_request(s: Seq<char>) -> Result<RequestView, DecodeError> {
    let lines = split_lines(s);
    if lines.len() == 0 {
        Err(DecodeError::MalformedStatusLine)
    } else {
        let words = split_whitespace(lines[0]);
        if words.len() != 3 {
            Err(DecodeError::MalformedStatusLine)
        } else {
            match parse_method(words[0]) {
                None => Err(DecodeError::UnsupportedMethod),
                Some(method) => {
                    let head = header_lines(lines);
                    if exists|i: int| 0 <= i < head.len() && !has_colon(#[trigger] head[i]) {
                        Err(DecodeError::MalformedHeader)
                    } else {
                        Ok(
                            RequestView {
                                method,
                                path: words[1],
                                version: words[2],
                                headers: store_all(header_pairs(head)),
                                body: encode_utf8(concat(body_lines(lines))),
                            },
                        )
                    }
                },
            }
        }
    }
}

/// The value of the outcome of decoding.
pub open spec fn outcome_view(r: Result<HttpRequest, DecodeError>) -> Result<
    RequestView,
    DecodeError,
> {
    match r {
        Ok(request) => Ok(request@),
        Err(e) => Err(e),
    }
}

/// The place of the first colon from `sp.start` on, or `sp.end`.
pub fn find_colon(cs: &[char], sp: Span) -> (r: usize)
    requires
        sp.within(cs@),
    ensures
        r == sp.start + prefix_len(sp.of(cs@), before_colon()),
        sp.start <= r <= sp.end,
{
    let mut i: usize = sp.start;
    while i < sp.end && cs[i] != ':'
        invariant
            sp.within(cs@),
            sp.start <= i <= sp.end,
            forall|j: int| sp.start <= j < i ==> #[trigger] cs@[j] != ':',
        decreases sp.end - i,
    {
        i = i + 1;
    }
    proof {
        lemma_prefix_len_is(sp.of(cs@), before_colon(), (i - sp.start) as nat);
    }
    i
}

/// The text of the stretch `sp` of `s`.
pub fn cut(s: &str, sp: Span) -> (piece: String)
    requires
        sp.within(s@),
    ensures
        piece@ == sp.of(s@),
{
    s.substring_char(sp.start, sp.end).to_owned()
}

impl HttpRequest {
    /// Decodes a request from the text that was read.
    pub fn from_str(s: &str) -> (r: Result<HttpRequest, DecodeError>)
        ensures
            outcome_view(r) == parse_request(s@),
    {
        let chars = chars_of(s);
        let cs = chars.as_slice();
        let lines = line_spans(cs);
        let ghost all = split_lines(s@);
        if lines.len() == 0 {
            return Err(DecodeError::MalformedStatusLine);
        }
        assert(pieces(lines@, cs@)[0] == lines@[0].of(cs@));
        let words = word_spans(cs, lines[0]);
        if words.len() != 3 {
            return Err(DecodeError::MalformedStatusLine);
        }
        assert(pieces(words@, cs@)[0] == words@[0].of(cs@));
        assert(pieces(words@, cs@)[1] == words@[1].of(cs@));
        assert(pieces(words@, cs@)[2] == words@[2].of(cs@));
        let method = match method_in(cs, words[0]) {
            Some(m) => m,
            None => {
                return Err(DecodeError::UnsupportedMethod);
            },
        };
        let path = cut(s, words[1]);
        let version = cut(s, words[2]);

        let ghost rest = all.skip(1);
        let mut headers = Headers::new();
        let mut i: usize = 1;
        assert(header_pairs(rest.take(0)) =~= Seq::empty());
        while i < lines.len() && lines[i].start != lines[i].end
            invariant
                cs@ == s@,
                all == split_lines(s@),
                rest == all.skip(1),
                all.len() > 0,
                split_whitespace(all[0]).len() == 3,
                parse_method(split_whitespace(all[0])[0]) == Some(method),
                all_within(lines@, cs@),
                pieces(lines@, cs@) == all,
                1 <= i <= lines.len(),
                forall|j: int| 0 <= j < i - 1 ==> (#[trigger] rest[j]).len() > 0,
                forall|j: int| 0 <= j < i - 1 ==> has_colon(#[trigger] rest[j]),
                headers@ == store_all(header_pairs(rest.take(i - 1))),
            decreases lines.len() - i,
        {
            let line = lines[i];
            let ghost text = rest[i - 1];
            assert(text == pieces(lines@, cs@)[i as int]);
            assert(text == line.of(cs@));
            let at = find_colon(cs, line);
            if at == line.end {
                proof {
                    lemma_prefix_len(rest, filled());
                    let n = prefix_len(rest, filled());
                    assert(rest[i - 1].len() > 0);
                    assert(n > i - 1) by {
                        if n <= i - 1 {
                            assert(!filled()(rest[n as int]));
                        }
                    }
                    let head = header_lines(all);
                    assert(head[i - 1] == rest[i - 1]);
                    assert(!has_colon(head[i - 1]));
                }
                return Err(DecodeError::MalformedHeader);
            }
            let name = trim_span(cs, Span { start: line.start, end: at });
            let value = trim_span(cs, Span { start: at + 1, end: line.end });
            proof {
                let k = (at - line.start) as int;
                assert(text.take(k) =~= cs@.subrange(line.start as int, at as int));
                assert(text.skip(k + 1) =~= cs@.subrange(at + 1, line.end as int));
                assert(header_pair(text) == (name.of(cs@), value.of(cs@)));
                let now = header_pairs(rest.take(i as int));
                assert(now.drop_last() =~= header_pairs(rest.take(i - 1)));
                assert(now.last() == header_pair(text));
            }
            headers.insert(cut(s, name), cut(s, value));
            i = i + 1;
        }
        proof {
            if i < lines.len() {
                assert(rest[i - 1] == pieces(lines@, cs@)[i as int]);
                assert(rest[i - 1] == lines@[i as int].of(cs@));
            }
            lemma_prefix_len_is(rest, filled(), (i - 1) as nat);
            assert(header_lines(all) =~= rest.take(i - 1));
        }
        let ghost tail = body_lines(all);
        let mut text = String::new();
        let mut j: usize = if i < lines.len() {
            i + 1
        } else {
            i
        };
        let first = j;
        assert(tail =~= all.subrange(first as int, all.len() as int));
        assert(all.subrange(first as int, first as int) =~= Seq::empty());
        while j < lines.len()
            invariant
                cs@ == s@,
                all_within(lines@, cs@),
                pieces(lines@, cs@) == all,
                first <= j <= lines.len(),
                text@ == concat(all.subrange(first as int, j as int)),
            decreases lines.len() - j,
        {
            let line = lines[j];
            assert(line.of(cs@) == pieces(lines@, cs@)[j as int]);
            text.append(s.substring_char(line.start, line.end));
            j = j + 1;
            proof {
                let now = all.subrange(first as int, j as int);
                assert(now.drop_last() =~= all.subrange(first as int, j - 1));
            }
        }
        let body = text.as_str().as_bytes_vec();
        Ok(HttpRequest { method, path, version, headers, body })
    }
}

} // verus!
