//! Requests and the parser that reads them from raw bytes.
use vstd::prelude::*;
use crate::bytes::{
    bytes_eq, copy_range, digits_value, find_byte, find_from, is_decimal, lemma_find_from_bounds,
    parse_decimal, split_tokens, tokens, trim, trim_bounds, COLON, CR, LF, SLASH,
};
use crate::response::{ascii, push_ascii};

verus! {

/// The request methods that the server accepts.
#[derive(Debug, Clone, Copy, PartialEq, Eq, Structural)]
pub enum Verb {
    GET,
    POST,
}

/// Why a request could not be read.
#[derive(Debug, Clone, Copy, PartialEq, Eq, Structural)]
pub enum ParseError {
    /// No start line, fewer than two tokens on it, or a path that does not begin with `/`.
    MalformedStartLine,
    /// A method other than `GET` or `POST`.
    UnsupportedMethod,
    /// A `Content-Length` that is not a decimal number that fits in `usize`.
    InvalidContentLength,
    /// Fewer body bytes than `Content-Length` declares.
    TruncatedBody,
}

/// A request as a value.
pub struct RequestView {
    pub verb: Verb,
    pub path: Seq<u8>,
    pub headers: Seq<(Seq<u8>, Seq<u8>)>,
    pub body: Seq<u8>,
}

/// A parsed request. Headers are kept in the order they came in; a lookup takes the last
/// one with the name asked for.
#[derive(Debug)]
pub struct Request {
    pub path: Vec<u8>,
    pub verb: Verb,
    pub headers: Vec<(Vec<u8>, Vec<u8>)>,
    pub body: Vec<u8>,
}

impl View for Request {
    type V = RequestView;

    open spec fn view(&self) -> RequestView {
        RequestView {
            verb: self.verb,
            path: self.path@,
            headers: self.headers@.map_values(|h: (Vec<u8>, Vec<u8>)| (h.0@, h.1@)),
            body: self.body@,
        }
    }
}

/// The value of the last header named `key` in `hs`; names compare case-sensitively.
pub open spec fn lookup(hs: Seq<(Seq<u8>, Seq<u8>)>, key: Seq<u8>) -> Option<Seq<u8>>
    decreases hs.len(),
{
    if hs.len() == 0 {
        None
    } else if hs.last().0 == key {
        Some(hs.last().1)
    } else {
        lookup(hs.drop_last(), key)
    }
}

/// The method a start-line token names.
pub open spec fn verb_of(tok: Seq<u8>) -> Option<Verb> {
    if tok == ascii("GET"@) {
        Some(Verb::GET)
    } else if tok == ascii("POST"@) {
        Some(Verb::POST)
    } else {
        None
    }
}

/// The line that starts at `i`, without its `\n` or `\r\n` terminator.
pub open spec fn line_at(s: Seq<u8>, i: int) -> Seq<u8> {
    let e = find_from(s, LF, i);
    if e < s.len() && e > i && s[e - 1] == CR {
        s.subrange(i, e - 1)
    } else {
        s.subrange(i, e)
    }
}

/// Where the line after the one at `i` starts.
pub open spec fn next_line(s: Seq<u8>, i: int) -> int {
    let e = find_from(s, LF, i);
    if e < s.len() {
        e + 1
    } else {
        s.len() as int
    }
}

/// The lines from `i` up to the first empty one (or the end of `s`), and where the bytes
/// after that empty line start.
pub open spec fn head_from(s: Seq<u8>, i: int) -> (Seq<Seq<u8>>, int)
    decreases s.len() - i,
{
    if i < 0 || i >= s.len() {
        (seq![], s.len() as int)
    } else if line_at(s, i).len() == 0 {
        (seq![], next_line(s, i))
    } else {
        proof {
            lemma_find_from_bounds(s, LF, i);
        }
        let rest = head_from(s, next_line(s, i));
        (seq![line_at(s, i)] + rest.0, rest.1)
    }
}

/// Whether the lines from `i` on reach an empty line that its line feed ends, so that
/// no more header bytes are to come.
pub open spec fn head_complete_from(s: Seq<u8>, i: int) -> bool
    decreases s.len() - i,
{
    if i < 0 || i >= s.len() {
        false
    } else if line_at(s, i).len() == 0 {
        find_from(s, LF, i) < s.len()
    } else {
        proof {
            lemma_find_from_bounds(s, LF, i);
        }
        head_complete_from(s, next_line(s, i))
    }
}

/// The header a line holds: split at its first `:`, both sides trimmed; none without `:`.
pub open spec fn header_of(line: Seq<u8>) -> Option<(Seq<u8>, Seq<u8>)> {
    let c = find_from(line, COLON, 0);
    if c < line.len() {
        Some((trim(line.subrange(0, c)), trim(line.subrange(c + 1, line.len() as int))))
    } else {
        None
    }
}

/// The headers that a sequence of header lines holds, in order.
pub open spec fn header_list(lines: Seq<Seq<u8>>) -> Seq<(Seq<u8>, Seq<u8>)>
    decreases lines.len(),
{
    if lines.len() == 0 {
        seq![]
    } else {
        let prev = header_list(lines.drop_last());
        match header_of(lines.last()) {
            Some(h) => prev.push(h),
            None => prev,
        }
    }
}

/// The name of the header that gives the body's length.
pub open spec fn content_length_key() -> Seq<u8> {
    ascii("Content-Length"@)
}

/// The number of body bytes a request declares; `None` where `Content-Length` is not a
/// number. Only a `POST` has a body.
pub open spec fn body_length(verb: Verb, hs: Seq<(Seq<u8>, Seq<u8>)>) -> Option<nat> {
    if verb == Verb::POST {
        match lookup(hs, content_length_key()) {
            None => Some(0),
            Some(v) => if is_decimal(v) && digits_value(v) <= usize::MAX {
                Some(digits_value(v))
            } else {
                None
            },
        }
    } else {
        Some(0)
    }
}

/// What reading the bytes `s` of a request gives.
pub open spec fn parse(s: Seq<u8>) -> Result<RequestView, ParseError> {
    let head = head_from(s, 0);
    let lines = head.0;
    if lines.len() == 0 {
        Err(ParseError::MalformedStartLine)
    } else {
        let t = tokens(lines[0]);
        if t.len() < 2 || t[1].len() == 0 || t[1][0] != SLASH {
            Err(ParseError::MalformedStartLine)
        } else if verb_of(t[0]) is None {
            Err(ParseError::UnsupportedMethod)
        } else {
            let verb = verb_of(t[0])->Some_0;
            let headers = header_list(lines.drop_first());
            match body_length(verb, headers) {
                None => Err(ParseError::InvalidContentLength),
                Some(n) => if s.len() - head.1 < n {
                    Err(ParseError::TruncatedBody)
                } else {
                    Ok(RequestView { verb, path: t[1], headers, body: s.subrange(head.1, head.1 + n) })
                },
            }
        }
    }
}

/// Bounds of the line at `i`: where its text ends, and where the next line starts.
fn line_bounds(s: &[u8], i: usize) -> (r: (usize, usize))
    requires
        i < s@.len(),
    ensures
        i <= r.0 <= s@.len(),
        i < r.1 <= s@.len(),
        s@.subrange(i as int, r.0 as int) == line_at(s@, i as int),
        r.1 == next_line(s@, i as int),
{
    let e = find_byte(s, LF, i);
    proof {
        lemma_find_from_bounds(s@, LF, i as int);
    }
    let end = if e < s.len() && e > i && s[e - 1] == CR {
        e - 1
    } else {
        e
    };
    let next = if e < s.len() {
        e + 1
    } else {
        s.len()
    };
    (end, next)
}

/// The header that the line `s[a..b]` holds, if any.
fn header_from_line(s: &[u8], a: usize, b: usize) -> (r: Option<(Vec<u8>, Vec<u8>)>)
    requires
        a <= b <= s@.len(),
    ensures
        match r {
            Some(h) => header_of(s@.subrange(a as int, b as int)) == Some((h.0@, h.1@)),
            None => header_of(s@.subrange(a as int, b as int)) is None,
        },
{
    let ghost line = s@.subrange(a as int, b as int);
    let mut c: usize = a;
    while c < b && s[c] != COLON
        invariant
            a <= c <= b <= s@.len(),
            line == s@.subrange(a as int, b as int),
            find_from(line, COLON, 0) == find_from(line, COLON, c - a),
        decreases b - c,
    {
        assert(line[c - a] == s@[c as int]);
        c += 1;
    }
    if c == b {
        return None;
    }
    let (k0, k1) = trim_bounds(s, a, c);
    let (v0, v1) = trim_bounds(s, c + 1, b);
    assert(line.subrange(0, c - a) =~= s@.subrange(a as int, c as int));
    assert(line.subrange(c - a + 1, line.len() as int) =~= s@.subrange(c + 1, b as int));
    Some((copy_range(s, k0, k1), copy_range(s, v0, v1)))
}

/// Reads a request from the bytes that came in on a connection: the start line, header
/// lines up to the first empty line, then, for a `POST` with `Content-Length`, that many
/// body bytes. Bytes after the body are ignored.
pub fn parse_request(s: &[u8]) -> (r: Result<Request, ParseError>)
    ensures
        match r {
            Ok(req) => parse(s@) == Ok::<RequestView, ParseError>(req@),
            Err(e) => parse(s@) == Err::<RequestView, ParseError>(e),
        },
{
    if s.len() == 0 {
        return Err(ParseError::MalformedStartLine);
    }
    let (end0, mut i) = line_bounds(s, 0);
    if end0 == 0 {
        assert(line_at(s@, 0).len() == 0);
        assert(head_from(s@, 0).0.len() == 0);
        return Err(ParseError::MalformedStartLine);
    }
    let ghost l0 = s@.subrange(0, end0 as int);
    assert(head_from(s@, 0).0[0] == l0);
    let toks = split_tokens(s, 0, end0);
    if toks.len() < 2 || toks[1].len() == 0 || toks[1][0] != SLASH {
        proof {
            if toks@.len() >= 2 {
                assert(toks@[1]@ == tokens(l0)[1]);
            }
        }
        return Err(ParseError::MalformedStartLine);
    }
    assert(toks@[0]@ == tokens(l0)[0]);
    assert(toks@[1]@ == tokens(l0)[1]);
    let verb = match verb_word(toks[0].as_slice()) {
        Some(v) => v,
        None => {
            return Err(ParseError::UnsupportedMethod);
        },
    };
    let mut headers: Vec<(Vec<u8>, Vec<u8>)> = Vec::new();
    let ghost mut done: Seq<Seq<u8>> = seq![];
    let mut body_at: usize = s.len();
    let mut reading = true;
    while reading
        invariant
            0 < i <= s@.len(),
            l0.len() > 0,
            head_from(s@, 0) == (seq![l0] + done + head_from(s@, i as int).0, head_from(
                s@,
                i as int,
            ).1),
            headers@.map_values(|h: (Vec<u8>, Vec<u8>)| (h.0@, h.1@)) == header_list(done),
            !reading ==> head_from(s@, i as int).0.len() == 0 && head_from(s@, i as int).1
                == body_at,
        decreases s@.len() - i + (if reading {
            1int
        } else {
            0int
        }),
    {
        if i >= s.len() {
            reading = false;
            body_at = s.len();
        } else {
            let (end, next) = line_bounds(s, i);
            if end == i {
                reading = false;
                body_at = next;
            } else {
                let ghost line = s@.subrange(i as int, end as int);
                let ghost old_headers = headers@;
                let h = header_from_line(s, i, end);
                match h {
                    Some(h) => {
                        headers.push(h);
                    },
                    None => {},
                }
                proof {
                    let rest = head_from(s@, next as int);
                    assert(head_from(s@, i as int).0 == seq![line] + rest.0);
                    assert(seq![l0] + done + (seq![line] + rest.0) =~= seq![l0] + done.push(
                        line,
                    ) + rest.0);
                    assert(done.push(line).drop_last() =~= done);
                    done = done.push(line);
                    assert(headers@.map_values(|h: (Vec<u8>, Vec<u8>)| (h.0@, h.1@))
                        =~= header_list(done));
                }
                i = next;
            }
        }
    }
    proof {
        let lines = head_from(s@, 0).0;
        assert(lines =~= seq![l0] + done);
        assert(lines[0] == l0);
        assert(lines.drop_first() =~= done);
        assert(s@.subrange(0, end0 as int) == line_at(s@, 0));
    }
    let path = copy_range(toks[1].as_slice(), 0, toks[1].len());
    assert(path@ =~= toks@[1]@);
    let req0 = Request { path, verb, headers, body: Vec::new() };
    let n: usize = match req0.content_length() {
        Ok(n) => n,
        Err(_) => {
            return Err(ParseError::InvalidContentLength);
        },
    };
    if s.len() - body_at < n {
        return Err(ParseError::TruncatedBody);
    }
    let body = copy_range(s, body_at, body_at + n);
    let req = Request { body, ..req0 };
    Ok(req)
}

/// Whether `s` holds the whole head of a request: the start line and the header lines up
/// to an empty line that its line feed ends.
pub fn head_complete(s: &[u8]) -> (r: bool)
    ensures
        r == head_complete_from(s@, 0),
{
    let mut i: usize = 0;
    while i < s.len()
        invariant
            i <= s@.len(),
            head_complete_from(s@, 0) == head_complete_from(s@, i as int),
        decreases s@.len() - i,
    {
        let (end, next) = line_bounds(s, i);
        if end == i {
            return find_byte(s, LF, i) < s.len();
        }
        i = next;
    }
    false
}

/// The method that a start-line token names.
fn verb_word(tok: &[u8]) -> (r: Option<Verb>)
    ensures
        r == verb_of(tok@),
{
    let mut get: Vec<u8> = Vec::new();
    let mut post: Vec<u8> = Vec::new();
    proof {
        reveal_strlit("GET");
        reveal_strlit("POST");
    }
    push_ascii(&mut get, "GET");
    push_ascii(&mut post, "POST");
    if bytes_eq(tok, get.as_slice()) {
        Some(Verb::GET)
    } else if bytes_eq(tok, post.as_slice()) {
        Some(Verb::POST)
    } else {
        None
    }
}

impl Request {
    /// A request from its parts.
    pub fn new(path: Vec<u8>, verb: Verb, headers: Vec<(Vec<u8>, Vec<u8>)>, body: Vec<u8>) -> (r:
        Request)
        ensures
            r.path == path,
            r.verb == verb,
            r.headers == headers,
            r.body == body,
    {
        Request { path, verb, headers, body }
    }

    /// The value of the last header named `key`.
    pub fn header(&self, key: &[u8]) -> (r: Option<Vec<u8>>)
        ensures
            match r {
                Some(v) => lookup(self@.headers, key@) == Some(v@),
                None => lookup(self@.headers, key@) is None,
            },
    {
        let ghost hs = self@.headers;
        let mut k: usize = self.headers.len();
        assert(hs.subrange(0, k as int) =~= hs);
        while k > 0
            invariant
                k <= self.headers@.len(),
                hs == self@.headers,
                lookup(hs, key@) == lookup(hs.subrange(0, k as int), key@),
            decreases k,
        {
            let pair = &self.headers[k - 1];
            let ghost sub = hs.subrange(0, k as int);
            assert(sub.last() == (pair.0@, pair.1@));
            assert(sub.drop_last() =~= hs.subrange(0, k - 1));
            if bytes_eq(pair.0.as_slice(), key) {
                return Some(copy_range(pair.1.as_slice(), 0, pair.1.len()));
            }
            k -= 1;
        }
        None
    }

    /// The `User-Agent` header's value.
    pub fn user_agent(&self) -> (r: Option<Vec<u8>>)
        ensures
            match r {
                Some(v) => lookup(self@.headers, ascii("User-Agent"@)) == Some(v@),
                None => lookup(self@.headers, ascii("User-Agent"@)) is None,
            },
    {
        let mut key: Vec<u8> = Vec::new();
        proof {
            reveal_strlit("User-Agent");
        }
        push_ascii(&mut key, "User-Agent");
        self.header(key.as_slice())
    }

    /// The number of body bytes the request declares: zero but for a `POST` with a
    /// `Content-Length`; an error where that header is not a decimal number.
    pub fn content_length(&self) -> (r: Result<usize, ParseError>)
        ensures
            match r {
                Ok(n) => body_length(self.verb, self@.headers) == Some(n as nat),
                Err(e) => body_length(self.verb, self@.headers) is None && e
                    == ParseError::InvalidContentLength,
            },
    {
        if self.verb != Verb::POST {
            return Ok(0);
        }
        let mut key: Vec<u8> = Vec::new();
        proof {
            reveal_strlit("Content-Length");
        }
        push_ascii(&mut key, "Content-Length");
        match self.header(key.as_slice()) {
            None => Ok(0),
            Some(v) => match parse_decimal(v.as_slice()) {
                Some(n) => Ok(n),
                None => Err(ParseError::InvalidContentLength),
            },
        }
    }
}

} // verus!
