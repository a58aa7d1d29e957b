//! Reading an encoded response back: the status line, the header lines
//! and the body are found again by their line breaks alone.

use crate::response::{crlf, decimal, join_lines, text, ResponseView};
use crate::text::{lemma_prefix_len_is, prefix_len};
use vstd::prelude::*;
use vstd::utf8::{is_ascii_chars, is_ascii_chars_encode_utf8};

verus! {

/// The place of the first line break in `b`, or the length of `b` if it
/// holds none.
pub open spec fn line_end(b: Seq<u8>) -> nat
    decreases b.len(),
{
    if b.len() < 2 {
        b.len()
    } else if b[0] == 13 && b[1] == 10 {
        0
    } else {
        1 + line_end(b.drop_first())
    }
}

/// Whether `line` holds no line break.
pub open spec fn unbroken(line: Seq<u8>) -> bool {
    forall|i: int| 0 <= i < line.len() - 1 ==> !(#[trigger] line[i] == 13 && line[i + 1] == 10)
}

/// The predicate "is a decimal digit".
pub open spec fn digit() -> spec_fn(u8) -> bool {
    |b: u8| 48 <= b <= 57
}

/// The number that the decimal digits `digits` write.
pub open spec fn number(digits: Seq<u8>) -> nat
    decreases digits.len(),
{
    if digits.len() == 0 {
        0
    } else {
        (10 * number(digits.drop_last()) + (digits.last() - 48)) as nat
    }
}

/// The status code and the phrase of a status line, if it is one:
/// `HTTP/1.1 `, decimal digits, a space, and the phrase.
pub open spec fn read_status_line(line: Seq<u8>) -> Option<(nat, Seq<u8>)> {
    let version = text("HTTP/1.1 ");
    if !version.is_prefix_of(line) {
        None
    } else {
        let rest = line.skip(version.len() as int);
        let n = prefix_len(rest, digit()) as int;
        if n == 0 || n >= rest.len() || rest[n] != 32 {
            None
        } else {
            Some((number(rest.take(n)), rest.skip(n + 1)))
        }
    }
}

/// The header lines and the body of what follows a status line: each
/// line up to the first empty one is a header line, and what follows the
/// empty line is the body. `None` if no empty line ends the header lines.
pub open spec fn read_lines(b: Seq<u8>) -> Option<(Seq<Seq<u8>>, Seq<u8>)>
    decreases b.len(),
{
    let n = line_end(b) as int;
    if n + 2 > b.len() {
        None
    } else if n == 0 {
        Some((Seq::empty(), b.skip(2)))
    } else {
        match read_lines(b.skip(n + 2)) {
            Some((lines, body)) => Some((seq![b.take(n)] + lines, body)),
            None => None,
        }
    }
}

/// The response that the bytes `b` encode, if they encode one.
pub open spec fn read_response(b: Seq<u8>) -> Option<ResponseView> {
    let n = line_end(b) as int;
    if n + 2 > b.len() {
        None
    } else {
        match (read_status_line(b.take(n)), read_lines(b.skip(n + 2))) {
            (Some((status_code, phrase)), Some((headers, body))) => Some(
                ResponseView { status_code, phrase, headers, body },
            ),
            _ => None,
        }
    }
}

/// Where a line break stands with none before it, there `line_end` is.
pub proof fn lemma_line_end_is(b: Seq<u8>, n: nat)
    requires
        n + 2 <= b.len(),
        b[n as int] == 13,
        b[n as int + 1] == 10,
        forall|i: int| 0 <= i < n ==> !(#[trigger] b[i] == 13 && b[i + 1] == 10),
    ensures
        line_end(b) == n,
    decreases n,
{
    if n > 0 {
        let t = b.drop_first();
        assert(!(b[0] == 13 && b[1] == 10));
        assert forall|i: int| 0 <= i < n - 1 implies !(#[trigger] t[i] == 13 && t[i + 1] == 10) by {
            assert(t[i] == b[i + 1]);
            assert(t[i + 1] == b[i + 2]);
        }
        lemma_line_end_is(t, (n - 1) as nat);
    }
}

/// An unbroken line ends where the line break after it stands.
pub proof fn lemma_line_end_after(line: Seq<u8>, rest: Seq<u8>)
    requires
        unbroken(line),
    ensures
        line_end(line + crlf() + rest) == line.len(),
        (line + crlf() + rest).take(line.len() as int) == line,
        (line + crlf() + rest).skip(line.len() as int + 2) == rest,
{
    let b = line + crlf() + rest;
    let n = line.len();
    assert forall|i: int| 0 <= i < n implies !(#[trigger] b[i] == 13 && b[i + 1] == 10) by {
        if i < n - 1 {
            assert(b[i] == line[i]);
            assert(b[i + 1] == line[i + 1]);
        } else {
            assert(b[i + 1] == 13);
        }
    }
    lemma_line_end_is(b, n);
    assert(b.take(n as int) =~= line);
    assert(b.skip(n as int + 2) =~= rest);
}

/// The lines joined are the first line, a line break, and the other
/// lines joined.
pub proof fn lemma_join_lines_first(lines: Seq<Seq<u8>>)
    requires
        lines.len() > 0,
    ensures
        join_lines(lines) == lines[0] + crlf() + join_lines(lines.drop_first()),
    decreases lines.len(),
{
    if lines.len() == 1 {
        assert(lines.drop_last() =~= Seq::empty());
        assert(lines.drop_first() =~= Seq::empty());
        assert(join_lines(lines) =~= lines[0] + crlf() + join_lines(lines.drop_first()));
    } else {
        let init = lines.drop_last();
        lemma_join_lines_first(init);
        assert(init.drop_first() =~= lines.drop_first().drop_last());
        assert(lines.drop_first().last() == lines.last());
        assert(join_lines(lines) =~= lines[0] + crlf() + join_lines(lines.drop_first()));
    }
}

/// Header lines that are unbroken and not empty, joined and followed by
/// an empty line and a body, are read back as they were.
pub proof fn lemma_read_lines(lines: Seq<Seq<u8>>, body: Seq<u8>)
    requires
        forall|i: int| 0 <= i < lines.len() ==> unbroken(#[trigger] lines[i]) && lines[i].len() > 0,
    ensures
        read_lines(join_lines(lines) + crlf() + body) == Some((lines, body)),
    decreases lines.len(),
{
    let b = join_lines(lines) + crlf() + body;
    if lines.len() == 0 {
        assert(b =~= crlf() + body);
        assert(b.skip(2) =~= body);
    } else {
        let first = lines[0];
        let others = lines.drop_first();
        let rest = join_lines(others) + crlf() + body;
        lemma_join_lines_first(lines);
        assert(b =~= first + crlf() + rest);
        lemma_line_end_after(first, rest);
        assert forall|i: int| 0 <= i < others.len() implies unbroken(#[trigger] others[i])
            && others[i].len() > 0 by {
            assert(others[i] == lines[i + 1]);
        }
        lemma_read_lines(others, body);
        assert(seq![first] + others =~= lines);
    }
}

/// The decimal digits of a number are digits, at least one, and write
/// that number.
pub proof fn lemma_decimal(n: nat)
    ensures
        decimal(n).len() > 0,
        forall|i: int| 0 <= i < decimal(n).len() ==> 48 <= #[trigger] decimal(n)[i] <= 57,
        number(decimal(n)) == n,
    decreases n,
{
    if n < 10 {
        let d = decimal(n);
        assert(d.drop_last() =~= Seq::empty());
        assert(number(d.drop_last()) == 0);
    } else {
        lemma_decimal(n / 10);
        let d = decimal(n);
        assert(d.drop_last() =~= decimal(n / 10));
    }
}

/// A status line is read back as it was written.
pub proof fn lemma_read_status_line(status_code: nat, phrase: Seq<u8>)
    ensures
        read_status_line(text("HTTP/1.1 ") + decimal(status_code) + text(" ") + phrase) == Some(
            (status_code, phrase),
        ),
{
    let version = text("HTTP/1.1 ");
    let digits = decimal(status_code);
    let line = version + digits + text(" ") + phrase;
    reveal_strlit(" ");
    assert(is_ascii_chars(" "@));
    is_ascii_chars_encode_utf8(" "@);
    assert(text(" ") =~= seq![32u8]);
    lemma_decimal(status_code);
    assert(version.is_prefix_of(line)) by {
        assert(line.subrange(0, version.len() as int) =~= version);
    }
    let rest = line.skip(version.len() as int);
    assert(rest =~= digits + seq![32u8] + phrase);
    assert forall|i: int| 0 <= i < digits.len() implies digit()(#[trigger] rest[i]) by {
        assert(rest[i] == digits[i]);
    }
    assert(rest[digits.len() as int] == 32);
    lemma_prefix_len_is(rest, digit(), digits.len());
    assert(rest.take(digits.len() as int) =~= digits);
    assert(rest.skip(digits.len() as int + 1) =~= phrase);
}

/// A status line with an unbroken phrase is unbroken.
pub proof fn lemma_status_line_unbroken(status_code: nat, phrase: Seq<u8>)
    requires
        unbroken(phrase),
    ensures
        unbroken(text("HTTP/1.1 ") + decimal(status_code) + text(" ") + phrase),
{
    let version = text("HTTP/1.1 ");
    let digits = decimal(status_code);
    let line = version + digits + text(" ") + phrase;
    reveal_strlit(" ");
    reveal_strlit("HTTP/1.1 ");
    assert(is_ascii_chars(" "@));
    assert(is_ascii_chars("HTTP/1.1 "@));
    is_ascii_chars_encode_utf8(" "@);
    is_ascii_chars_encode_utf8("HTTP/1.1 "@);
    lemma_decimal(status_code);
    let start = version.len() + digits.len() + 1;
    assert forall|i: int| 0 <= i < line.len() - 1 implies !(#[trigger] line[i] == 13 && line[i + 1]
        == 10) by {
        if i < version.len() {
            assert(line[i] == version[i]);
            assert(version[i] == "HTTP/1.1 "@[i] as u8);
        } else if i < version.len() + digits.len() {
            assert(line[i] == digits[i - version.len()]);
        } else if i < start {
            assert(line[i] == 32);
        } else {
            assert(line[i] == phrase[i - start]);
            assert(line[i + 1] == phrase[i - start + 1]);
        }
    }
}

} // verus!
