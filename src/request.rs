use vstd::prelude::*;
use vstd::slice::{slice_subrange, slice_to_vec};

verus! {

/// ASCII whitespace, which separates the tokens of a request line.
pub open spec fn is_space(b: u8) -> bool {
    b == 0x20 || b == 0x09 || b == 0x0a || b == 0x0b || b == 0x0c || b == 0x0d
}

/// Index of the first CRLF in `s`, at or after `i`; -1 where there is none.
pub open spec fn crlf_from(s: Seq<u8>, i: int) -> int
    decreases s.len() - i,
{
    if i < 0 || i + 1 >= s.len() {
        -1
    } else if s[i] == 0x0d && s[i + 1] == 0x0a {
        i
    } else {
        crlf_from(s, i + 1)
    }
}

/// First index at or after `i` that does not hold whitespace (`s.len()` if none).
pub open spec fn skip_space(s: Seq<u8>, i: int) -> int
    decreases s.len() - i,
{
    if i < 0 || i >= s.len() {
        s.len() as int
    } else if is_space(s[i]) {
        skip_space(s, i + 1)
    } else {
        i
    }
}

/// First index at or after `i` that holds whitespace (`s.len()` if none).
pub open spec fn skip_word(s: Seq<u8>, i: int) -> int
    decreases s.len() - i,
{
    if i < 0 || i >= s.len() {
        s.len() as int
    } else if is_space(s[i]) {
        i
    } else {
        skip_word(s, i + 1)
    }
}

/// The second whitespace-separated token of `line`, if it has one.
pub open spec fn second_token(line: Seq<u8>) -> Option<Seq<u8>> {
    let a = skip_space(line, 0);
    let b = skip_word(line, a);
    let c = skip_space(line, b);
    let d = skip_word(line, c);
    if c < line.len() {
        Some(line.subrange(c, d))
    } else {
        None
    }
}

/// `t` without its leading `/`, if it has one.
pub open spec fn strip_slash(t: Seq<u8>) -> Seq<u8> {
    if t.len() > 0 && t[0] == 0x2f {
        t.subrange(1, t.len() as int)
    } else {
        t
    }
}

/// The root-relative target that a raw request names: the second token of
/// its first line, without the leading `/`. None where the buffer holds no
/// CRLF or its first line has fewer than two tokens.
pub open spec fn request_target(buf: Seq<u8>) -> Option<Seq<u8>> {
    let end = crlf_from(buf, 0);
    if end < 0 {
        None
    } else {
        match second_token(buf.subrange(0, end)) {
            Some(t) => Some(strip_slash(t)),
            None => None,
        }
    }
}

proof fn lemma_crlf_from_bounds(s: Seq<u8>, i: int)
    requires
        0 <= i,
    ensures
        crlf_from(s, i) == -1 || (i <= crlf_from(s, i) && crlf_from(s, i) + 1 < s.len()),
    decreases s.len() - i,
{
    if i + 1 < s.len() && !(s[i] == 0x0d && s[i + 1] == 0x0a) {
        lemma_crlf_from_bounds(s, i + 1);
    }
}

proof fn lemma_skip_bounds(s: Seq<u8>, i: int)
    requires
        0 <= i <= s.len(),
    ensures
        i <= skip_space(s, i) <= s.len(),
        i <= skip_word(s, i) <= s.len(),
    decreases s.len() - i,
{
    if i < s.len() {
        lemma_skip_bounds(s, i + 1);
    }
}

/// A request's target is no longer than the request.
pub proof fn lemma_target_shorter(buf: Seq<u8>)
    ensures
        request_target(buf) matches Some(t) ==> t.len() <= buf.len(),
{
    lemma_crlf_from_bounds(buf, 0);
    let end = crlf_from(buf, 0);
    if end >= 0 {
        let line = buf.subrange(0, end);
        lemma_skip_bounds(line, 0);
        let a = skip_space(line, 0);
        lemma_skip_bounds(line, a);
        let b = skip_word(line, a);
        lemma_skip_bounds(line, b);
        let c = skip_space(line, b);
        lemma_skip_bounds(line, c);
    }
}

fn find_crlf(s: &[u8]) -> (r: Option<usize>)
    ensures
        match r {
            Some(i) => i as int == crlf_from(s@, 0),
            None => crlf_from(s@, 0) == -1,
        },
{
    let mut i: usize = 0;
    while i < s.len() && i + 1 < s.len()
        invariant
            i <= s@.len(),
            crlf_from(s@, 0) == crlf_from(s@, i as int),
        decreases s@.len() - i,
    {
        if s[i] == 0x0d && s[i + 1] == 0x0a {
            return Some(i);
        }
        i += 1;
    }
    None
}

fn is_space_byte(b: u8) -> (r: bool)
    ensures
        r == is_space(b),
{
    b == 0x20 || b == 0x09 || b == 0x0a || b == 0x0b || b == 0x0c || b == 0x0d
}

fn skip_spaces(s: &[u8], start: usize) -> (r: usize)
    requires
        start <= s@.len(),
    ensures
        r as int == skip_space(s@, start as int),
{
    let mut i: usize = start;
    while i < s.len() && is_space_byte(s[i])
        invariant
            start <= i <= s@.len(),
            skip_space(s@, start as int) == skip_space(s@, i as int),
        decreases s@.len() - i,
    {
        i += 1;
    }
    i
}

fn skip_token(s: &[u8], start: usize) -> (r: usize)
    requires
        start <= s@.len(),
    ensures
        r as int == skip_word(s@, start as int),
{
    let mut i: usize = start;
    while i < s.len() && !is_space_byte(s[i])
        invariant
            start <= i <= s@.len(),
            skip_word(s@, start as int) == skip_word(s@, i as int),
        decreases s@.len() - i,
    {
        i += 1;
    }
    i
}

/// Extracts the root-relative request target from the raw bytes read from a
/// connection; None where the request is malformed.
pub fn parse_request(buf: &[u8]) -> (r: Option<Vec<u8>>)
    ensures
        match r {
            Some(t) => request_target(buf@) == Some(t@),
            None => request_target(buf@) is None,
        },
{
    proof {
        lemma_crlf_from_bounds(buf@, 0);
    }
    let end = match find_crlf(buf) {
        Some(e) => e,
        None => return None,
    };
    let line = slice_subrange(buf, 0, end);
    proof {
        lemma_skip_bounds(line@, 0);
    }
    let a = skip_spaces(line, 0);
    proof {
        lemma_skip_bounds(line@, a as int);
    }
    let b = skip_token(line, a);
    proof {
        lemma_skip_bounds(line@, b as int);
    }
    let c = skip_spaces(line, b);
    if c >= line.len() {
        return None;
    }
    proof {
        lemma_skip_bounds(line@, c as int);
    }
    let d = skip_token(line, c);
    let tok = slice_subrange(line, c, d);
    let t = if tok.len() > 0 && tok[0] == 0x2f {
        slice_subrange(tok, 1, tok.len())
    } else {
        tok
    };
    Some(slice_to_vec(t))
}

} // verus!
