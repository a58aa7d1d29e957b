//! Request methods.

use crate::error::DecodeError;
use crate::text::{chars_of, trim, trim_span, Span};
use vstd::prelude::*;
use vstd::string::StrSliceExecFns;

verus! {

/// The methods that a request may name.
#[derive(Debug, PartialEq, Eq, Copy, Clone, Hash, Structural)]
pub enum HttpMethod {
    Get,
    Put,
    Post,
    Patch,
    Delete,
    Head,
    Options,
    Connect,
}

/// `c` as a capital letter if it is one of `a` to `z`, else `c` itself.
pub open spec fn upper(c: char) -> char {
    if 'a' <= c <= 'z' {
        ((c as u32) - 32) as char
    } else {
        c
    }
}

/// `s` with each of its letters `a` to `z` as a capital.
pub open spec fn ascii_upper(s: Seq<char>) -> Seq<char> {
    Seq::new(s.len(), |i: int| upper(s[i]))
}

/// The method that `s` names: white space around the name and the case
/// of its letters do not count.
pub open spec fn parse_method(s: Seq<char>) -> Option<HttpMethod> {
    let name = ascii_upper(trim(s));
    if name == "GET"@ {
        Some(HttpMethod::Get)
    } else if name == "PUT"@ {
        Some(HttpMethod::Put)
    } else if name == "POST"@ {
        Some(HttpMethod::Post)
    } else if name == "PATCH"@ {
        Some(HttpMethod::Patch)
    } else if name == "DELETE"@ {
        Some(HttpMethod::Delete)
    } else if name == "HEAD"@ {
        Some(HttpMethod::Head)
    } else if name == "OPTIONS"@ {
        Some(HttpMethod::Options)
    } else if name == "CONNECT"@ {
        Some(HttpMethod::Connect)
    } else {
        None
    }
}

/// Whether `c`, taken as a capital, is `w`.
pub fn upper_is(c: char, w: char) -> (b: bool)
    ensures
        b == (upper(c) == w),
{
    let u: u32 = c as u32;
    let v: u32 = if 97 <= u && u <= 122 {
        u - 32
    } else {
        u
    };
    v == w as u32
}

/// Whether the stretch `sp`, taken in capitals, is `word`.
pub fn spells(cs: &[char], sp: Span, word: &str) -> (b: bool)
    requires
        sp.within(cs@),
    ensures
        b == (ascii_upper(sp.of(cs@)) == word@),
{
    let n = word.unicode_len();
    if sp.end - sp.start != n {
        return false;
    }
    let mut i: usize = 0;
    while i < n
        invariant
            sp.within(cs@),
            n == word@.len(),
            sp.end - sp.start == n,
            i <= n,
            forall|j: int| 0 <= j < i ==> upper(#[trigger] cs@[sp.start + j]) == word@[j],
        decreases n - i,
    {
        if !upper_is(cs[sp.start + i], word.get_char(i)) {
            assert(ascii_upper(sp.of(cs@))[i as int] != word@[i as int]);
            return false;
        }
        i = i + 1;
    }
    assert forall|j: int| 0 <= j < n implies ascii_upper(sp.of(cs@))[j] == word@[j] by {
        assert(sp.of(cs@)[j] == cs@[sp.start + j]);
    }
    assert(ascii_upper(sp.of(cs@)) =~= word@);
    true
}

/// The method that the stretch `sp` names.
pub fn method_in(cs: &[char], sp: Span) -> (m: Option<HttpMethod>)
    requires
        sp.within(cs@),
    ensures
        m == parse_method(sp.of(cs@)),
{
    let name = trim_span(cs, sp);
    if spells(cs, name, "GET") {
        Some(HttpMethod::Get)
    } else if spells(cs, name, "PUT") {
        Some(HttpMethod::Put)
    } else if spells(cs, name, "POST") {
        Some(HttpMethod::Post)
    } else if spells(cs, name, "PATCH") {
        Some(HttpMethod::Patch)
    } else if spells(cs, name, "DELETE") {
        Some(HttpMethod::Delete)
    } else if spells(cs, name, "HEAD") {
        Some(HttpMethod::Head)
    } else if spells(cs, name, "OPTIONS") {
        Some(HttpMethod::Options)
    } else if spells(cs, name, "CONNECT") {
        Some(HttpMethod::Connect)
    } else {
        None
    }
}

impl HttpMethod {
    /// Reads a method from its name.
    pub fn from_str(s: &str) -> (r: Result<HttpMethod, DecodeError>)
        ensures
            r == match parse_method(s@) {
                Some(m) => Ok::<HttpMethod, DecodeError>(m),
                None => Err(DecodeError::UnsupportedMethod),
            },
    {
        let cs = chars_of(s);
        let whole = Span { start: 0, end: cs.len() };
        assert(whole.of(cs@) =~= s@);
        match method_in(cs.as_slice(), whole) {
            Some(m) => Ok(m),
            None => Err(DecodeError::UnsupportedMethod),
        }
    }
}

} // verus!
