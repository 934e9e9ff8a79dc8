//! Parsing an HTTP/1.1 request out of a complete byte buffer.
//!
//! The grammar is stated by spec functions over `Seq<u8>`: a request line of
//! three space-separated tokens, header lines terminated by CRLF (a bare LF is
//! tolerated) up to an empty line, and, when a `Content-Length` header was
//! seen, exactly that many body bytes.

use vstd::prelude::*;

use crate::wire::accept_encoding_name;
use crate::wire::accept_encoding_name_vec;
use crate::wire::bytes_eq;
use crate::wire::content_length_name;
use crate::wire::content_length_name_vec;
use crate::wire::host_name;
use crate::wire::host_name_vec;
use crate::wire::subvec;
use crate::wire::user_agent_name;
use crate::wire::user_agent_name_vec;

verus! {

/// Why a byte buffer failed to parse as a request.
#[derive(Clone, Copy, PartialEq, Eq, Structural, Debug)]
pub enum ParseError {
    /// The request line does not hold three space-separated tokens.
    MalformedRequestLine,
    /// A `Content-Length` header value is not a decimal number that fits.
    InvalidContentLength,
    /// The buffer ends before the declared message does.
    TruncatedBody,
}

/// The index of the first occurrence of `b` in `s` at or after `i`, or
/// `s.len()` when there is none.
pub open spec fn find_byte(s: Seq<u8>, b: u8, i: int) -> int
    decreases s.len() - i when 0 <= i <= s.len()
{
    if i >= s.len() {
        s.len() as int
    } else if s[i] == b {
        i
    } else {
        find_byte(s, b, i + 1)
    }
}

/// `find_byte` returns the least index in `[i, s.len()]` that carries `b`,
/// or `s.len()` when no index does.
pub proof fn lemma_find_byte_props(s: Seq<u8>, b: u8, i: int)
    requires
        0 <= i <= s.len(),
    ensures
        i <= find_byte(s, b, i) <= s.len(),
        find_byte(s, b, i) < s.len() ==> s[find_byte(s, b, i)] == b,
        forall|k: int| i <= k < find_byte(s, b, i) ==> s[k] != b,
    decreases s.len() - i,
{
    if i < s.len() && s[i] != b {
        lemma_find_byte_props(s, b, i + 1);
    }
}

/// Any index in `[i, s.len())` that carries `b` bounds `find_byte` above.
pub proof fn lemma_find_byte_le(s: Seq<u8>, b: u8, i: int, k: int)
    requires
        0 <= i <= k < s.len(),
        s[k] == b,
    ensures
        find_byte(s, b, i) <= k,
{
    lemma_find_byte_props(s, b, i);
    if find_byte(s, b, i) > k {
        assert(s[k] != b);
    }
}

/// While `find_byte` finds its byte inside `s`, appending more bytes after
/// `s` does not move the result.
pub proof fn lemma_find_byte_prefix(s: Seq<u8>, t: Seq<u8>, b: u8, i: int)
    requires
        0 <= i <= s.len(),
        find_byte(s, b, i) < s.len(),
    ensures
        find_byte(s + t, b, i) == find_byte(s, b, i),
    decreases s.len() - i,
{
    assert((s + t)[i] == s[i]);
    if i < s.len() && s[i] != b {
        lemma_find_byte_prefix(s, t, b, i + 1);
    }
}

/// The index of the first occurrence of `b` in `v` at or after `start`, or
/// `v.len()` when there is none.
pub fn find_byte_in(v: &Vec<u8>, b: u8, start: usize) -> (r: usize)
    requires
        start <= v@.len(),
    ensures
        r as int == find_byte(v@, b, start as int),
        start <= r <= v@.len(),
        r < v@.len() ==> v@[r as int] == b,
{
    let mut i: usize = start;
    while i < v.len()
        invariant
            start <= i <= v@.len(),
            forall|k: int| start <= k < i ==> v@[k] != b,
        decreases v@.len() - i,
    {
        if v[i] == b {
            proof {
                lemma_find_byte_props(v@, b, start as int);
                lemma_find_byte_le(v@, b, start as int, i as int);
            }
            return i;
        }
        i = i + 1;
    }
    proof {
        lemma_find_byte_props(v@, b, start as int);
        if find_byte(v@, b, start as int) < v@.len() {
            assert(v@[find_byte(v@, b, start as int)] == b);
        }
    }
    i
}

/// A line's content: the bytes up to the terminator, with a trailing
/// carriage return removed.
pub open spec fn strip_cr(l: Seq<u8>) -> Seq<u8> {
    if l.len() > 0 && l[l.len() - 1] == 13 {
        l.drop_last()
    } else {
        l
    }
}

/// The content of the line that starts at index `i` of `s`.
pub open spec fn line_at(s: Seq<u8>, i: int) -> Seq<u8> {
    strip_cr(s.subrange(i, find_byte(s, 10, i)))
}

/// The index just after the line that starts at index `i` of `s`.
pub open spec fn next_line(s: Seq<u8>, i: int) -> int {
    if find_byte(s, 10, i) < s.len() {
        find_byte(s, 10, i) + 1
    } else {
        s.len() as int
    }
}

/// Extract the line that starts at `i`, returning its content and the start
/// of the following line.
pub fn read_line(v: &Vec<u8>, i: usize) -> (r: (Vec<u8>, usize))
    requires
        i <= v@.len(),
    ensures
        r.0@ == line_at(v@, i as int),
        r.1 as int == next_line(v@, i as int),
        i <= r.1 <= v@.len(),
        (i as int) < v@.len() as int ==> i < r.1,
{
    let e = find_byte_in(v, 10, i);
    let mut line = subvec(v, i, e);
    proof {
        lemma_find_byte_props(v@, 10, i as int);
    }
    if line.len() > 0 && line[line.len() - 1] == 13 {
        line.pop();
        proof {
            assert(line@ =~= strip_cr(v@.subrange(i as int, find_byte(v@, 10, i as int))));
        }
    }
    let next = if e < v.len() { e + 1 } else { v.len() };
    (line, next)
}

/// Optional whitespace around a header value: space or horizontal tab.
pub open spec fn is_ows(b: u8) -> bool {
    b == 32 || b == 9
}

/// The first index at or after `i` whose byte is not optional whitespace,
/// or `s.len()` when all remaining bytes are.
pub open spec fn ows_front(s: Seq<u8>, i: int) -> int
    decreases s.len() - i when 0 <= i <= s.len()
{
    if i >= s.len() {
        s.len() as int
    } else if is_ows(s[i]) {
        ows_front(s, i + 1)
    } else {
        i
    }
}

/// The index just after the last byte below `j` that is not optional
/// whitespace, or `0` when all of them are.
pub open spec fn ows_back(s: Seq<u8>, j: int) -> int
    decreases j when 0 <= j <= s.len()
{
    if j <= 0 {
        0
    } else if is_ows(s[j - 1]) {
        ows_back(s, j - 1)
    } else {
        j
    }
}

/// `s` with leading and trailing optional whitespace removed.
pub open spec fn trim_ows(s: Seq<u8>) -> Seq<u8> {
    let a = ows_front(s, 0);
    if a == s.len() {
        Seq::empty()
    } else {
        s.subrange(a, ows_back(s, s.len() as int))
    }
}

proof fn lemma_ows_front_is(s: Seq<u8>, i: int, a: int)
    requires
        0 <= i <= a <= s.len(),
        forall|k: int| i <= k < a ==> is_ows(s[k]),
        a == s.len() || !is_ows(s[a]),
    ensures
        ows_front(s, i) == a,
    decreases a - i,
{
    if i < a {
        lemma_ows_front_is(s, i + 1, a);
    }
}

proof fn lemma_ows_back_is(s: Seq<u8>, j: int, b: int)
    requires
        0 <= b <= j <= s.len(),
        forall|k: int| b <= k < j ==> is_ows(s[k]),
        b == 0 || !is_ows(s[b - 1]),
    ensures
        ows_back(s, j) == b,
    decreases j - b,
{
    if j > b {
        lemma_ows_back_is(s, j - 1, b);
    }
}

/// Remove leading and trailing spaces and tabs from `v`.
pub fn trim_ows_bytes(v: &Vec<u8>) -> (r: Vec<u8>)
    ensures
        r@ == trim_ows(v@),
{
    let mut a: usize = 0;
    while a < v.len() && (v[a] == 32 || v[a] == 9)
        invariant
            a <= v@.len(),
            forall|k: int| 0 <= k < a ==> is_ows(v@[k]),
        decreases v@.len() - a,
    {
        a = a + 1;
    }
    proof {
        lemma_ows_front_is(v@, 0, a as int);
    }
    if a == v.len() {
        let r: Vec<u8> = Vec::new();
        proof {
            assert(r@ =~= trim_ows(v@));
        }
        return r;
    }
    let mut b: usize = v.len();
    while b > 0 && (v[b - 1] == 32 || v[b - 1] == 9)
        invariant
            b <= v@.len(),
            forall|k: int| b <= k < v@.len() ==> is_ows(v@[k]),
        decreases b,
    {
        b = b - 1;
    }
    proof {
        lemma_ows_back_is(v@, v@.len() as int, b as int);
        if b <= a {
            assert(is_ows(v@[a as int]));
        }
    }
    subvec(v, a, b)
}

/// A decimal digit.
pub open spec fn is_digit(b: u8) -> bool {
    48 <= b && b <= 57
}

/// Every byte of `s` is a decimal digit.
pub open spec fn all_digits(s: Seq<u8>) -> bool {
    forall|k: int| 0 <= k < s.len() ==> is_digit(s[k])
}

/// The value of `s` read as a decimal numeral.
pub open spec fn dec_value(s: Seq<u8>) -> int
    decreases s.len(),
{
    if s.len() == 0 {
        0
    } else {
        10 * dec_value(s.drop_last()) + (s[s.len() - 1] - 48)
    }
}

/// A `Content-Length` value the parser accepts: a non-empty run of digits
/// whose value fits in `usize`.
pub open spec fn valid_content_length(v: Seq<u8>) -> bool {
    v.len() > 0 && all_digits(v) && dec_value(v) <= usize::MAX as int
}

proof fn lemma_dec_value_nonneg(s: Seq<u8>)
    requires
        all_digits(s),
    ensures
        dec_value(s) >= 0,
    decreases s.len(),
{
    if s.len() > 0 {
        assert(forall|k: int| 0 <= k < s.drop_last().len() ==> is_digit(s.drop_last()[k]));
        lemma_dec_value_nonneg(s.drop_last());
    }
}

/// A decimal numeral is at least as large as any of its prefixes.
proof fn lemma_dec_value_prefix(s: Seq<u8>, i: int)
    requires
        all_digits(s),
        0 <= i <= s.len(),
    ensures
        dec_value(s.subrange(0, i)) <= dec_value(s),
    decreases s.len() - i,
{
    if i == s.len() {
        assert(s.subrange(0, i) =~= s);
    } else {
        let p = s.subrange(0, i);
        let q = s.subrange(0, i + 1);
        assert(q.drop_last() =~= p);
        assert(forall|k: int| 0 <= k < p.len() ==> is_digit(p[k]));
        lemma_dec_value_nonneg(p);
        assert(dec_value(q) == 10 * dec_value(p) + (s[i] - 48));
        lemma_dec_value_prefix(s, i + 1);
    }
}

/// Read `v` as a decimal numeral, rejecting non-digits and values that do
/// not fit in `usize`.
pub fn parse_decimal(v: &Vec<u8>) -> (r: Option<usize>)
    ensures
        match r {
            Some(n) => valid_content_length(v@) && n as int == dec_value(v@),
            None => !valid_content_length(v@),
        },
{
    if v.len() == 0 {
        return None;
    }
    let mut n: usize = 0;
    let mut i: usize = 0;
    proof {
        assert(v@.subrange(0, 0) =~= Seq::<u8>::empty());
    }
    while i < v.len()
        invariant
            i <= v@.len(),
            v@.len() > 0,
            all_digits(v@.subrange(0, i as int)),
            n as int == dec_value(v@.subrange(0, i as int)),
        decreases v@.len() - i,
    {
        let b = v[i];
        if b < 48 || b > 57 {
            assert(!is_digit(v@[i as int]));
            return None;
        }
        let d = (b - 48) as usize;
        proof {
            assert(v@.subrange(0, (i + 1) as int).drop_last() =~= v@.subrange(0, i as int));
            assert(all_digits(v@.subrange(0, (i + 1) as int)));
        }
        if n > (usize::MAX - d) / 10 {
            proof {
                assert(10 * (n as int) + d as int > usize::MAX as int) by (nonlinear_arith)
                    requires
                        n as int > (usize::MAX as int - d as int) / 10,
                        0 <= d as int <= 9,
                {
                }
                if all_digits(v@) {
                    assert(dec_value(v@.subrange(0, (i + 1) as int)) == 10 * (n as int)
                        + (v@[i as int] - 48));
                    lemma_dec_value_prefix(v@, (i + 1) as int);
                }
            }
            return None;
        }
        proof {
            assert(10 * (n as int) + d as int <= usize::MAX as int) by (nonlinear_arith)
                requires
                    n as int <= (usize::MAX as int - d as int) / 10,
                    0 <= d as int <= 9,
            {
            }
        }
        n = n * 10 + d;
        proof {
            assert(dec_value(v@.subrange(0, (i + 1) as int)) == n as int);
        }
        i = i + 1;
    }
    proof {
        assert(v@.subrange(0, v@.len() as int) =~= v@);
    }
    Some(n)
}

/// The recognized header values gathered while walking the header block.
/// `content_length` is `0` until a `Content-Length` header is seen.
pub struct HeaderFields {
    pub host: Seq<u8>,
    pub user_agent: Seq<u8>,
    pub accept_encoding: Seq<u8>,
    pub content_length: int,
}

/// The header values before any header line has been read.
pub open spec fn init_fields() -> HeaderFields {
    HeaderFields {
        host: Seq::empty(),
        user_agent: Seq::empty(),
        accept_encoding: Seq::empty(),
        content_length: 0,
    }
}

/// Fold one header line into the gathered values. A line without a colon is
/// ignored, as is one whose name is not recognized; names match the literal
/// header names exactly, and the value is taken with surrounding optional
/// whitespace removed.
pub open spec fn apply_header(h: HeaderFields, l: Seq<u8>) -> Result<HeaderFields, ParseError> {
    let c = find_byte(l, 58, 0);
    if c == l.len() {
        Ok(h)
    } else {
        let name = l.subrange(0, c);
        let value = trim_ows(l.subrange(c + 1, l.len() as int));
        if name == host_name() {
            Ok(HeaderFields {
                host: value,
                user_agent: h.user_agent,
                accept_encoding: h.accept_encoding,
                content_length: h.content_length,
            })
        } else if name == user_agent_name() {
            Ok(HeaderFields {
                host: h.host,
                user_agent: value,
                accept_encoding: h.accept_encoding,
                content_length: h.content_length,
            })
        } else if name == accept_encoding_name() {
            Ok(HeaderFields {
                host: h.host,
                user_agent: h.user_agent,
                accept_encoding: value,
                content_length: h.content_length,
            })
        } else if name == content_length_name() {
            if valid_content_length(value) {
                Ok(HeaderFields {
                    host: h.host,
                    user_agent: h.user_agent,
                    accept_encoding: h.accept_encoding,
                    content_length: dec_value(value),
                })
            } else {
                Err(ParseError::InvalidContentLength)
            }
        } else {
            Ok(h)
        }
    }
}

/// Walk the header block that starts at index `i`, folding each line into
/// `h`, until an empty line; the result carries the final values and the
/// index just after the empty line. Running out of bytes before the empty
/// line means the message was cut short.
pub open spec fn parse_headers(s: Seq<u8>, i: int, h: HeaderFields) -> Result<
    (HeaderFields, int),
    ParseError,
>
    decreases s.len() - i when 0 <= i <= s.len() via parse_headers_dec
{
    if i >= s.len() {
        Err(ParseError::TruncatedBody)
    } else {
        let l = line_at(s, i);
        if l.len() == 0 {
            Ok((h, next_line(s, i)))
        } else {
            match apply_header(h, l) {
                Ok(h2) => parse_headers(s, next_line(s, i), h2),
                Err(e) => Err(e),
            }
        }
    }
}

#[via_fn]
proof fn parse_headers_dec(s: Seq<u8>, i: int, h: HeaderFields) {
    if 0 <= i < s.len() {
        lemma_find_byte_props(s, 10, i);
    }
}

/// Split a request line into its three space-separated tokens: two spaces
/// must be present, and the third token runs to the next space or to the
/// end of the line.
pub open spec fn split3(l: Seq<u8>) -> Option<(Seq<u8>, Seq<u8>, Seq<u8>)> {
    let s1 = find_byte(l, 32, 0);
    if s1 == l.len() {
        None
    } else {
        let s2 = find_byte(l, 32, s1 + 1);
        if s2 == l.len() {
            None
        } else {
            let s3 = find_byte(l, 32, s2 + 1);
            Some((l.subrange(0, s1), l.subrange(s1 + 1, s2), l.subrange(s2 + 1, s3)))
        }
    }
}

/// Parse the request line and the header block of the message in `s`,
/// without looking at body bytes.
pub open spec fn spec_head_parse(s: Seq<u8>) -> Result<(HeaderFields, int), ParseError> {
    match split3(line_at(s, 0)) {
        None => Err(ParseError::MalformedRequestLine),
        Some(_) => parse_headers(s, next_line(s, 0), init_fields()),
    }
}

/// The mathematical image of a parsed request.
pub struct SpecRequest {
    pub http_method: Seq<u8>,
    pub path: Seq<u8>,
    pub http_version: Seq<u8>,
    pub host: Seq<u8>,
    pub user_agent: Seq<u8>,
    pub accept_encoding: Seq<u8>,
    pub content_length: int,
    pub body: Seq<u8>,
}

/// Parse a complete message held in `s`: request line, header block, and,
/// when a `Content-Length` was declared, exactly that many body bytes.
/// Bytes after the declared body are ignored.
pub open spec fn spec_parse(s: Seq<u8>) -> Result<SpecRequest, ParseError> {
    match split3(line_at(s, 0)) {
        None => Err(ParseError::MalformedRequestLine),
        Some(t) => match parse_headers(s, next_line(s, 0), init_fields()) {
            Err(e) => Err(e),
            Ok(p) => if s.len() - p.1 < p.0.content_length {
                Err(ParseError::TruncatedBody)
            } else {
                Ok(
                    SpecRequest {
                        http_method: t.0,
                        path: t.1,
                        http_version: t.2,
                        host: p.0.host,
                        user_agent: p.0.user_agent,
                        accept_encoding: p.0.accept_encoding,
                        content_length: p.0.content_length,
                        body: s.subrange(p.1, p.1 + p.0.content_length),
                    },
                )
            },
        },
    }
}

/// A request parsed out of a byte buffer.
#[derive(Debug)]
pub struct HttpRequest {
    pub http_method: Vec<u8>,
    pub path: Vec<u8>,
    pub http_version: Vec<u8>,
    pub host: Vec<u8>,
    pub user_agent: Vec<u8>,
    pub accept_encoding: Vec<u8>,
    pub content_length: usize,
    pub body: Vec<u8>,
}

impl View for HttpRequest {
    type V = SpecRequest;

    open spec fn view(&self) -> SpecRequest {
        SpecRequest {
            http_method: self.http_method@,
            path: self.path@,
            http_version: self.http_version@,
            host: self.host@,
            user_agent: self.user_agent@,
            accept_encoding: self.accept_encoding@,
            content_length: self.content_length as int,
            body: self.body@,
        }
    }
}

/// The recognized header values, as carried by the executable parser.
pub struct HeaderValues {
    pub host: Vec<u8>,
    pub user_agent: Vec<u8>,
    pub accept_encoding: Vec<u8>,
    pub content_length: usize,
}

impl View for HeaderValues {
    type V = HeaderFields;

    open spec fn view(&self) -> HeaderFields {
        HeaderFields {
            host: self.host@,
            user_agent: self.user_agent@,
            accept_encoding: self.accept_encoding@,
            content_length: self.content_length as int,
        }
    }
}

/// Read the request line of `v`: its three tokens and the index just after
/// the line.
pub fn parse_request_line(v: &Vec<u8>) -> (r: Result<(Vec<u8>, Vec<u8>, Vec<u8>, usize), ParseError>)
    ensures
        match r {
            Ok(t) => split3(line_at(v@, 0)) == Some((t.0@, t.1@, t.2@)) && t.3 as int == next_line(
                v@,
                0,
            ) && t.3 <= v@.len(),
            Err(e) => e == ParseError::MalformedRequestLine && split3(line_at(v@, 0)) is None,
        },
{
    let (line, next) = read_line(v, 0);
    let s1 = find_byte_in(&line, 32, 0);
    if s1 == line.len() {
        return Err(ParseError::MalformedRequestLine);
    }
    let s2 = find_byte_in(&line, 32, s1 + 1);
    if s2 == line.len() {
        return Err(ParseError::MalformedRequestLine);
    }
    let s3 = find_byte_in(&line, 32, s2 + 1);
    let method = subvec(&line, 0, s1);
    let path = subvec(&line, s1 + 1, s2);
    let version = subvec(&line, s2 + 1, s3);
    Ok((method, path, version, next))
}

/// Fold one header line into the gathered values.
fn apply_header_values(f: HeaderValues, line: &Vec<u8>) -> (r: Result<HeaderValues, ParseError>)
    ensures
        match r {
            Ok(f2) => apply_header(f@, line@) == Ok::<HeaderFields, ParseError>(f2@),
            Err(e) => apply_header(f@, line@) == Err::<HeaderFields, ParseError>(e),
        },
{
    let c = find_byte_in(line, 58, 0);
    if c == line.len() {
        return Ok(f);
    }
    let name = subvec(line, 0, c);
    let raw = subvec(line, c + 1, line.len());
    let value = trim_ows_bytes(&raw);
    let mut f = f;
    if bytes_eq(&name, &host_name_vec()) {
        f.host = value;
        Ok(f)
    } else if bytes_eq(&name, &user_agent_name_vec()) {
        f.user_agent = value;
        Ok(f)
    } else if bytes_eq(&name, &accept_encoding_name_vec()) {
        f.accept_encoding = value;
        Ok(f)
    } else if bytes_eq(&name, &content_length_name_vec()) {
        match parse_decimal(&value) {
            Some(n) => {
                f.content_length = n;
                Ok(f)
            },
            None => Err(ParseError::InvalidContentLength),
        }
    } else {
        Ok(f)
    }
}

/// Walk the header block of `v` from `start` until its empty line.
pub fn parse_header_block(v: &Vec<u8>, start: usize) -> (r: Result<
    (HeaderValues, usize),
    ParseError,
>)
    requires
        start <= v@.len(),
    ensures
        match r {
            Ok(p) => parse_headers(v@, start as int, init_fields()) == Ok::<
                (HeaderFields, int),
                ParseError,
            >((p.0@, p.1 as int)) && start <= p.1 <= v@.len(),
            Err(e) => parse_headers(v@, start as int, init_fields()) == Err::<
                (HeaderFields, int),
                ParseError,
            >(e),
        },
{
    let mut f = HeaderValues {
        host: Vec::new(),
        user_agent: Vec::new(),
        accept_encoding: Vec::new(),
        content_length: 0,
    };
    proof {
        assert(f@ == init_fields());
    }
    let mut i = start;
    loop
        invariant
            start <= i <= v@.len(),
            parse_headers(v@, start as int, init_fields()) == parse_headers(v@, i as int, f@),
        decreases v@.len() - i,
    {
        if i >= v.len() {
            return Err(ParseError::TruncatedBody);
        }
        let (line, next) = read_line(v, i);
        if line.len() == 0 {
            return Ok((f, next));
        }
        match apply_header_values(f, &line) {
            Ok(f2) => {
                f = f2;
                i = next;
            },
            Err(e) => {
                return Err(e);
            },
        }
    }
}

impl HttpRequest {
    /// Parse the complete message in `input`. The result mirrors
    /// `spec_parse` exactly: the request either parses to the stated model
    /// or fails with the stated error.
    pub fn new(input: &Vec<u8>) -> (r: Result<HttpRequest, ParseError>)
        ensures
            match r {
                Ok(req) => spec_parse(input@) == Ok::<SpecRequest, ParseError>(req@),
                Err(e) => spec_parse(input@) == Err::<SpecRequest, ParseError>(e),
            },
    {
        let (method, path, version, hstart) = match parse_request_line(input) {
            Ok(t) => t,
            Err(e) => {
                return Err(e);
            },
        };
        let (f, bstart) = match parse_header_block(input, hstart) {
            Ok(p) => p,
            Err(e) => {
                return Err(e);
            },
        };
        let cl = f.content_length;
        if input.len() - bstart < cl {
            return Err(ParseError::TruncatedBody);
        }
        let body = subvec(input, bstart, bstart + cl);
        Ok(
            HttpRequest {
                http_method: method,
                path,
                http_version: version,
                host: f.host,
                user_agent: f.user_agent,
                accept_encoding: f.accept_encoding,
                content_length: cl,
                body,
            },
        )
    }
}

/// The declared body length of the message whose head is in `head`:
/// the `Content-Length` value its header block carries, or `0` when none
/// does. The body bytes need not be present.
pub fn declared_body_length(head: &Vec<u8>) -> (r: Result<usize, ParseError>)
    ensures
        match r {
            Ok(n) => spec_head_parse(head@) matches Ok(p) && p.0.content_length == n as int,
            Err(e) => spec_head_parse(head@) == Err::<(HeaderFields, int), ParseError>(e),
        },
{
    let (_m, _p, _v, hstart) = match parse_request_line(head) {
        Ok(t) => t,
        Err(e) => {
            return Err(e);
        },
    };
    match parse_header_block(head, hstart) {
        Ok(p) => Ok(p.0.content_length),
        Err(e) => Err(e),
    }
}

/// A successful header walk ends past its starting point, within the
/// buffer, and never gathers a negative `Content-Length`.
pub proof fn lemma_parse_headers_ok_bounds(s: Seq<u8>, i: int, h: HeaderFields)
    requires
        0 <= i <= s.len(),
        h.content_length >= 0,
    ensures
        parse_headers(s, i, h) matches Ok(p) ==> i < p.1 <= s.len() && p.0.content_length >= 0,
    decreases s.len() - i,
{
    if i < s.len() {
        lemma_find_byte_props(s, 10, i);
        let l = line_at(s, i);
        if l.len() != 0 {
            match apply_header(h, l) {
                Ok(h2) => {
                    let c = find_byte(l, 58, 0);
                    if c != l.len() {
                        let value = trim_ows(l.subrange(c + 1, l.len() as int));
                        if valid_content_length(value) {
                            lemma_dec_value_nonneg(value);
                        }
                    }
                    lemma_parse_headers_ok_bounds(s, next_line(s, i), h2);
                },
                Err(_) => {
                },
            }
        }
    }
}

/// A parsed request satisfies the data-model invariant: the body holds
/// exactly `content_length` bytes.
pub proof fn lemma_parsed_body_matches_length(s: Seq<u8>)
    ensures
        spec_parse(s) matches Ok(r) ==> r.body.len() == r.content_length,
{
    if spec_parse(s) is Ok {
        lemma_find_byte_props(s, 10, 0);
        lemma_parse_headers_ok_bounds(s, next_line(s, 0), init_fields());
    }
}

proof fn lemma_line_at_prefix(s: Seq<u8>, t: Seq<u8>, i: int)
    requires
        0 <= i <= s.len(),
        find_byte(s, 10, i) < s.len(),
    ensures
        line_at(s + t, i) == line_at(s, i),
        next_line(s + t, i) == next_line(s, i),
{
    lemma_find_byte_prefix(s, t, 10, i);
    lemma_find_byte_props(s, 10, i);
    assert((s + t).subrange(i, find_byte(s, 10, i)) =~= s.subrange(i, find_byte(s, 10, i)));
}

/// While a header block ends inside `s` — and `s` ends with a line
/// terminator, so every line the walk reads is terminated inside `s` —
/// bytes appended after `s` change nothing about the walk.
proof fn lemma_parse_headers_prefix(s: Seq<u8>, t: Seq<u8>, i: int, h: HeaderFields)
    requires
        0 <= i <= s.len(),
        s.len() > 0,
        s[s.len() - 1] == 10,
        parse_headers(s, i, h) is Ok,
    ensures
        parse_headers(s + t, i, h) == parse_headers(s, i, h),
    decreases s.len() - i,
{
    lemma_find_byte_props(s, 10, i);
    lemma_find_byte_le(s, 10, i, s.len() - 1);
    lemma_line_at_prefix(s, t, i);
    let l = line_at(s, i);
    if l.len() != 0 {
        match apply_header(h, l) {
            Ok(h2) => {
                lemma_parse_headers_prefix(s, t, next_line(s, i), h2);
            },
            Err(_) => {
            },
        }
    }
}

/// A byte sequence that is a complete, well-formed message head: it ends
/// with a line terminator, its request line splits into three tokens, and
/// its header block ends exactly at its end.
pub open spec fn complete_head(head: Seq<u8>) -> bool {
    head.len() > 0 && head[head.len() - 1] == 10 && (spec_head_parse(head) matches Ok(p)
        && p.1 == head.len())
}

/// The `Content-Length` a complete head declares.
pub open spec fn declared_len(head: Seq<u8>) -> int {
    match spec_head_parse(head) {
        Ok(p) => p.0.content_length,
        Err(_) => 0,
    }
}

/// Decide whether `head` holds exactly a complete, well-formed message
/// head: a terminated request line of three tokens and a header block
/// whose empty line ends exactly at the end of the buffer.
pub fn is_complete_head(head: &Vec<u8>) -> (b: bool)
    ensures
        b == complete_head(head@),
{
    if head.len() == 0 {
        return false;
    }
    if head[head.len() - 1] != 10 {
        return false;
    }
    let (_method, _path, _version, hstart) = match parse_request_line(head) {
        Ok(t) => t,
        Err(_) => {
            return false;
        },
    };
    match parse_header_block(head, hstart) {
        Ok(p) => p.1 == head.len(),
        Err(_) => false,
    }
}

/// The body round-trips byte for byte: a complete head that declares
/// `Content-Length` equal to the length of `body`, followed by exactly
/// those body bytes, parses to a request whose body is `body` itself.
pub proof fn lemma_body_round_trip(head: Seq<u8>, body: Seq<u8>)
    requires
        complete_head(head),
        declared_len(head) == body.len(),
    ensures
        spec_parse(head + body) matches Ok(r) && r.body == body && r.content_length
            == body.len(),
{
    let s = head + body;
    lemma_find_byte_props(head, 10, 0);
    lemma_find_byte_le(head, 10, 0, head.len() - 1);
    lemma_line_at_prefix(head, body, 0);
    lemma_parse_headers_prefix(head, body, next_line(head, 0), init_fields());
    assert(s.subrange(head.len() as int, head.len() as int + body.len() as int) =~= body);
}

/// A declared body that is not fully present is rejected: a complete head
/// that declares more body bytes than follow it parses to `TruncatedBody`,
/// never to a silently shortened request.
pub proof fn lemma_truncated_body_rejected(head: Seq<u8>, tail: Seq<u8>)
    requires
        complete_head(head),
        declared_len(head) > tail.len(),
    ensures
        spec_parse(head + tail) == Err::<SpecRequest, ParseError>(ParseError::TruncatedBody),
{
    lemma_find_byte_props(head, 10, 0);
    lemma_find_byte_le(head, 10, 0, head.len() - 1);
    lemma_line_at_prefix(head, tail, 0);
    lemma_parse_headers_prefix(head, tail, next_line(head, 0), init_fields());
}

} // verus!
