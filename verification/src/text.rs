//! Scanning of text: white space, words and lines.

use vstd::prelude::*;

verus! {

/// Whether `c` is white space in the sense of Unicode's `White_Space`
/// property.
pub open spec fn is_space(c: char) -> bool {
    let u = c as u32;
    ||| 0x09 <= u <= 0x0D
    ||| u == 0x20
    ||| u == 0x85
    ||| u == 0xA0
    ||| u == 0x1680
    ||| 0x2000 <= u <= 0x200A
    ||| u == 0x2028
    ||| u == 0x2029
    ||| u == 0x202F
    ||| u == 0x205F
    ||| u == 0x3000
}

/// The predicate "is white space".
pub open spec fn space() -> spec_fn(char) -> bool {
    |c: char| is_space(c)
}

/// The predicate "is not white space".
pub open spec fn ink() -> spec_fn(char) -> bool {
    |c: char| !is_space(c)
}

/// The predicate "is not a line feed".
pub open spec fn within_line() -> spec_fn(char) -> bool {
    |c: char| c != '\n'
}

/// The length of the longest prefix of `s` all of whose items satisfy
/// `p`.
pub open spec fn prefix_len<A>(s: Seq<A>, p: spec_fn(A) -> bool) -> nat
    decreases s.len(),
{
    if s.len() > 0 && p(s[0]) {
        1 + prefix_len(s.drop_first(), p)
    } else {
        0
    }
}

/// `prefix_len` stays within the sequence, covers only items that
/// satisfy `p`, and stops at the first one that does not.
pub proof fn lemma_prefix_len<A>(s: Seq<A>, p: spec_fn(A) -> bool)
    ensures
        prefix_len(s, p) <= s.len(),
        forall|i: int| 0 <= i < prefix_len(s, p) ==> p(#[trigger] s[i]),
        prefix_len(s, p) < s.len() ==> !p(s[prefix_len(s, p) as int]),
    decreases s.len(),
{
    if s.len() > 0 && p(s[0]) {
        let t = s.drop_first();
        lemma_prefix_len(t, p);
        assert forall|i: int| 0 <= i < prefix_len(s, p) implies p(#[trigger] s[i]) by {
            if i > 0 {
                assert(s[i] == t[i - 1]);
            }
        }
        if prefix_len(s, p) < s.len() {
            assert(s[prefix_len(s, p) as int] == t[prefix_len(t, p) as int]);
        }
    }
}

/// The only number of which what `lemma_prefix_len` states holds is
/// `prefix_len` itself.
pub proof fn lemma_prefix_len_is<A>(s: Seq<A>, p: spec_fn(A) -> bool, n: nat)
    requires
        n <= s.len(),
        forall|i: int| 0 <= i < n ==> p(#[trigger] s[i]),
        n < s.len() ==> !p(s[n as int]),
    ensures
        prefix_len(s, p) == n,
    decreases s.len(),
{
    if n > 0 {
        let t = s.drop_first();
        assert(p(s[0]));
        assert forall|i: int| 0 <= i < n - 1 implies p(#[trigger] t[i]) by {
            assert(t[i] == s[i + 1]);
        }
        lemma_prefix_len_is(t, p, (n - 1) as nat);
    }
}

/// `s` without its leading white space.
pub open spec fn trim_start(s: Seq<char>) -> Seq<char> {
    s.skip(prefix_len(s, space()) as int)
}

/// `s` without its trailing white space.
pub open spec fn trim_end(s: Seq<char>) -> Seq<char>
    decreases s.len(),
{
    if s.len() > 0 && is_space(s.last()) {
        trim_end(s.drop_last())
    } else {
        s
    }
}

/// `s` without the white space at either end.
pub open spec fn trim(s: Seq<char>) -> Seq<char> {
    trim_end(trim_start(s))
}

/// The maximal runs of characters of `s` that are not white space, in
/// order.
pub open spec fn split_whitespace(s: Seq<char>) -> Seq<Seq<char>>
    decreases s.len(),
{
    let t = trim_start(s);
    let n = prefix_len(t, ink());
    if n == 0 {
        Seq::empty()
    } else {
        proof {
            lemma_prefix_len(s, space());
            lemma_prefix_len(t, ink());
        }
        seq![t.take(n as int)] + split_whitespace(t.skip(n as int))
    }
}

/// `s` without one carriage return at its end, if it has one.
pub open spec fn strip_cr(s: Seq<char>) -> Seq<char> {
    if s.len() > 0 && s.last() == '\r' {
        s.drop_last()
    } else {
        s
    }
}

/// The lines of `s`. A line ends at a line feed; the line feed, and a
/// carriage return directly before it, are not part of the line. What
/// follows the last line feed is a line too, unless it is empty.
pub open spec fn split_lines(s: Seq<char>) -> Seq<Seq<char>>
    decreases s.len(),
{
    let n = prefix_len(s, within_line());
    if s.len() == 0 {
        Seq::empty()
    } else if n >= s.len() {
        seq![s]
    } else {
        seq![strip_cr(s.take(n as int))] + split_lines(s.skip(n as int + 1))
    }
}

/// All of `parts` one after the other.
pub open spec fn concat(parts: Seq<Seq<char>>) -> Seq<char>
    decreases parts.len(),
{
    if parts.len() == 0 {
        Seq::empty()
    } else {
        concat(parts.drop_last()) + parts.last()
    }
}

/// Text that starts with a line and its line feed splits into that
/// line and the lines of what follows.
pub proof fn lemma_split_lines_first(line: Seq<char>, rest: Seq<char>)
    requires
        forall|i: int| 0 <= i < line.len() ==> #[trigger] line[i] != '\n',
    ensures
        split_lines(line + seq!['\n'] + rest) == seq![strip_cr(line)] + split_lines(rest),
{
    let s = line + seq!['\n'] + rest;
    lemma_prefix_len_is(s, within_line(), line.len());
    assert(s.take(line.len() as int) =~= line);
    assert(s.skip(line.len() as int + 1) =~= rest);
}

/// Text without a line feed is one line, unless it is empty.
pub proof fn lemma_split_lines_single(line: Seq<char>)
    requires
        forall|i: int| 0 <= i < line.len() ==> #[trigger] line[i] != '\n',
    ensures
        split_lines(line) == if line.len() == 0 {
            Seq::<Seq<char>>::empty()
        } else {
            seq![line]
        },
{
    lemma_prefix_len_is(line, within_line(), line.len());
}

/// Text that starts with white space, then a word, then either nothing
/// or more white space, splits into that word and the words of what
/// follows it.
pub proof fn lemma_split_whitespace_first(gap: Seq<char>, word: Seq<char>, rest: Seq<char>)
    requires
        forall|i: int| 0 <= i < gap.len() ==> is_space(#[trigger] gap[i]),
        word.len() > 0,
        forall|i: int| 0 <= i < word.len() ==> !is_space(#[trigger] word[i]),
        rest.len() > 0 ==> is_space(rest[0]),
    ensures
        split_whitespace(gap + word + rest) == seq![word] + split_whitespace(rest),
{
    let s = gap + word + rest;
    lemma_prefix_len_is(s, space(), gap.len());
    let t = trim_start(s);
    assert(t =~= word + rest);
    lemma_prefix_len_is(t, ink(), word.len());
    assert(t.take(word.len() as int) =~= word);
    assert(t.skip(word.len() as int) =~= rest);
}

/// White space alone holds no word.
pub proof fn lemma_split_whitespace_blank(gap: Seq<char>)
    requires
        forall|i: int| 0 <= i < gap.len() ==> is_space(#[trigger] gap[i]),
    ensures
        split_whitespace(gap) == Seq::<Seq<char>>::empty(),
{
    lemma_prefix_len_is(gap, space(), gap.len());
    let t = trim_start(gap);
    assert(t =~= Seq::empty());
}

/// Text that neither starts nor ends with white space is its own trim.
pub proof fn lemma_trim_tight(s: Seq<char>)
    requires
        s.len() > 0 ==> !is_space(s[0]) && !is_space(s.last()),
    ensures
        trim(s) == s,
{
    lemma_prefix_len_is(s, space(), 0);
    assert(trim_start(s) =~= s);
}

/// Whether `c` is white space.
pub fn is_space_char(c: char) -> (b: bool)
    ensures
        b == is_space(c),
{
    let u: u32 = c as u32;
    (0x09 <= u && u <= 0x0D) || u == 0x20 || u == 0x85 || u == 0xA0 || u == 0x1680 || (0x2000 <= u
        && u <= 0x200A) || u == 0x2028 || u == 0x2029 || u == 0x202F || u == 0x205F || u == 0x3000
}

/// The characters of `s`, one by one.
pub fn chars_of(s: &str) -> (v: Vec<char>)
    ensures
        v@ == s@,
{
    let mut v: Vec<char> = Vec::new();
    for c in it: s.chars()
        invariant
            it.seq() == s@,
            v@ == s@.take(it.index() as int),
    {
        v.push(c);
        assert(v@ =~= s@.take(it.index() + 1));
    }
    assert(s@.take(s@.len() as int) =~= s@);
    v
}

/// A stretch of a text: the characters from `start` up to, not
/// including, `end`.
#[derive(Debug, Clone, Copy)]
pub struct Span {
    pub start: usize,
    pub end: usize,
}

impl Span {
    /// Whether the stretch lies inside `s`.
    pub open spec fn within(self, s: Seq<char>) -> bool {
        self.start <= self.end <= s.len()
    }

    /// The characters of `s` that the stretch covers.
    pub open spec fn of(self, s: Seq<char>) -> Seq<char> {
        s.subrange(self.start as int, self.end as int)
    }
}

/// Whether every stretch of `spans` lies inside `s`.
pub open spec fn all_within(spans: Seq<Span>, s: Seq<char>) -> bool {
    forall|i: int| 0 <= i < spans.len() ==> (#[trigger] spans[i]).within(s)
}

/// The pieces of `s` that `spans` covers, in order.
pub open spec fn pieces(spans: Seq<Span>, s: Seq<char>) -> Seq<Seq<char>> {
    Seq::new(spans.len(), |i: int| spans[i].of(s))
}

/// The end of the white space that starts at `sp.start`.
pub fn skip_spaces(cs: &[char], sp: Span) -> (r: usize)
    requires
        sp.within(cs@),
    ensures
        r == sp.start + prefix_len(sp.of(cs@), space()),
        sp.start <= r <= sp.end,
{
    let mut i: usize = sp.start;
    while i < sp.end && is_space_char(cs[i])
        invariant
            sp.within(cs@),
            sp.start <= i <= sp.end,
            forall|j: int| sp.start <= j < i ==> is_space(#[trigger] cs@[j]),
        decreases sp.end - i,
    {
        i = i + 1;
    }
    proof {
        lemma_prefix_len_is(sp.of(cs@), space(), (i - sp.start) as nat);
    }
    i
}

/// The end of the word that starts at `sp.start`.
pub fn skip_word(cs: &[char], sp: Span) -> (r: usize)
    requires
        sp.within(cs@),
    ensures
        r == sp.start + prefix_len(sp.of(cs@), ink()),
        sp.start <= r <= sp.end,
{
    let mut i: usize = sp.start;
    while i < sp.end && !is_space_char(cs[i])
        invariant
            sp.within(cs@),
            sp.start <= i <= sp.end,
            forall|j: int| sp.start <= j < i ==> !is_space(#[trigger] cs@[j]),
        decreases sp.end - i,
    {
        i = i + 1;
    }
    proof {
        lemma_prefix_len_is(sp.of(cs@), ink(), (i - sp.start) as nat);
    }
    i
}

/// The place of the first line feed from `sp.start` on, or `sp.end`.
pub fn skip_line(cs: &[char], sp: Span) -> (r: usize)
    requires
        sp.within(cs@),
    ensures
        r == sp.start + prefix_len(sp.of(cs@), within_line()),
        sp.start <= r <= sp.end,
{
    let mut i: usize = sp.start;
    while i < sp.end && cs[i] != '\n'
        invariant
            sp.within(cs@),
            sp.start <= i <= sp.end,
            forall|j: int| sp.start <= j < i ==> #[trigger] cs@[j] != '\n',
        decreases sp.end - i,
    {
        i = i + 1;
    }
    proof {
        lemma_prefix_len_is(sp.of(cs@), within_line(), (i - sp.start) as nat);
    }
    i
}

/// The stretch without the white space at either end.
pub fn trim_span(cs: &[char], sp: Span) -> (r: Span)
    requires
        sp.within(cs@),
    ensures
        r.within(cs@),
        sp.start <= r.start,
        r.end <= sp.end,
        r.of(cs@) == trim(sp.of(cs@)),
{
    let start = skip_spaces(cs, sp);
    let mut end: usize = sp.end;
    assert(cs@.subrange(start as int, end as int) =~= trim_start(sp.of(cs@)));
    while end > start && is_space_char(cs[end - 1])
        invariant
            sp.within(cs@),
            sp.start <= start <= end <= sp.end,
            trim_end(cs@.subrange(start as int, end as int)) == trim(sp.of(cs@)),
        decreases end - start,
    {
        assert(cs@.subrange(start as int, end as int).drop_last() =~= cs@.subrange(
            start as int,
            end - 1,
        ));
        end = end - 1;
    }
    Span { start, end }
}

/// The words of the stretch `sp`.
pub fn word_spans(cs: &[char], sp: Span) -> (spans: Vec<Span>)
    requires
        sp.within(cs@),
    ensures
        all_within(spans@, cs@),
        pieces(spans@, cs@) == split_whitespace(sp.of(cs@)),
{
    let mut spans: Vec<Span> = Vec::new();
    let mut pos: usize = sp.start;
    assert(pieces(spans@, cs@) + split_whitespace(sp.of(cs@)) =~= split_whitespace(sp.of(cs@)));
    loop
        invariant
            sp.within(cs@),
            sp.start <= pos <= sp.end,
            all_within(spans@, cs@),
            split_whitespace(sp.of(cs@)) == pieces(spans@, cs@) + split_whitespace(
                cs@.subrange(pos as int, sp.end as int),
            ),
        ensures
            all_within(spans@, cs@),
            pieces(spans@, cs@) == split_whitespace(sp.of(cs@)),
        decreases sp.end - pos,
    {
        let rest = Span { start: pos, end: sp.end };
        let a = skip_spaces(cs, rest);
        let b = skip_word(cs, Span { start: a, end: sp.end });
        let ghost r = rest.of(cs@);
        let ghost t = trim_start(r);
        assert(t =~= cs@.subrange(a as int, sp.end as int));
        if b == a {
            assert(split_whitespace(r) =~= Seq::empty());
            assert(pieces(spans@, cs@) + split_whitespace(r) =~= pieces(spans@, cs@));
            break;
        }
        let ghost before = spans@;
        spans.push(Span { start: a, end: b });
        proof {
            let n = (b - a) as nat;
            assert(t.take(n as int) =~= cs@.subrange(a as int, b as int));
            assert(t.skip(n as int) =~= cs@.subrange(b as int, sp.end as int));
            assert(split_whitespace(r) == seq![t.take(n as int)] + split_whitespace(
                t.skip(n as int),
            ));
            assert(pieces(spans@, cs@) =~= pieces(before, cs@) + seq![t.take(n as int)]);
            assert(pieces(spans@, cs@) + split_whitespace(t.skip(n as int)) =~= pieces(before, cs@)
                + split_whitespace(r));
        }
        pos = b;
    }
    spans
}

/// The lines of `cs`.
pub fn line_spans(cs: &[char]) -> (spans: Vec<Span>)
    ensures
        all_within(spans@, cs@),
        pieces(spans@, cs@) == split_lines(cs@),
{
    let len = cs.len();
    let mut spans: Vec<Span> = Vec::new();
    let mut pos: usize = 0;
    assert(cs@.subrange(0, len as int) =~= cs@);
    assert(pieces(spans@, cs@) + split_lines(cs@) =~= split_lines(cs@));
    while pos < len
        invariant
            len == cs@.len(),
            pos <= len,
            all_within(spans@, cs@),
            split_lines(cs@) == pieces(spans@, cs@) + split_lines(
                cs@.subrange(pos as int, len as int),
            ),
        decreases len - pos,
    {
        let rest = Span { start: pos, end: len };
        let e = skip_line(cs, rest);
        let ghost r = rest.of(cs@);
        let ghost before = spans@;
        if e == len {
            spans.push(rest);
            pos = len;
            proof {
                assert(split_lines(r) =~= seq![r]);
                assert(split_lines(cs@.subrange(len as int, len as int)) =~= Seq::empty());
                assert(pieces(spans@, cs@) =~= pieces(before, cs@) + seq![r]);
            }
        } else {
            let end = if e > pos && cs[e - 1] == '\r' {
                e - 1
            } else {
                e
            };
            spans.push(Span { start: pos, end });
            pos = e + 1;
            proof {
                let n = e - rest.start;
                let line = r.take(n);
                assert(line =~= cs@.subrange(rest.start as int, e as int));
                assert(strip_cr(line) =~= cs@.subrange(rest.start as int, end as int));
                assert(r.skip(n + 1) =~= cs@.subrange(pos as int, len as int));
                assert(split_lines(r) == seq![strip_cr(line)] + split_lines(r.skip(n + 1)));
                assert(pieces(spans@, cs@) =~= pieces(before, cs@) + seq![strip_cr(line)]);
                assert(pieces(spans@, cs@) + split_lines(r.skip(n + 1)) =~= pieces(before, cs@)
                    + split_lines(r));
            }
        }
    }
    assert(split_lines(cs@.subrange(pos as int, len as int)) =~= Seq::empty());
    assert(pieces(spans@, cs@) + Seq::<Seq<char>>::empty() =~= pieces(spans@, cs@));
    spans
}

} // verus!
