//! Rendering HTTP/1.1 responses into bytes.
//!
//! A response is a status line, an optional `Content-Type` and
//! `Content-Length` header pair, a blank line, and the body. The exact byte
//! image of each supported response is stated by a spec function, and each
//! builder returns precisely that image.

use vstd::prelude::*;

use crate::wire::append_bytes;
use crate::wire::content_length_prefix;
use crate::wire::content_length_prefix_vec;
use crate::wire::content_type_octet;
use crate::wire::content_type_octet_vec;
use crate::wire::content_type_text;
use crate::wire::content_type_text_vec;
use crate::wire::crlf;
use crate::wire::crlf_vec;
use crate::wire::status_line_200;
use crate::wire::status_line_200_vec;
use crate::wire::status_line_404;
use crate::wire::status_line_404_vec;

verus! {

/// The decimal numeral of `n`, most significant digit first.
pub open spec fn dec_repr(n: int) -> Seq<u8>
    decreases n when n >= 0
{
    if n <= 9 {
        seq![(48 + n) as u8]
    } else {
        dec_repr(n / 10).push((48 + n % 10) as u8)
    }
}

spec fn rev_bytes(s: Seq<u8>) -> Seq<u8>
    decreases s.len(),
{
    if s.len() == 0 {
        Seq::empty()
    } else {
        seq![s[s.len() - 1]] + rev_bytes(s.drop_last())
    }
}

proof fn lemma_rev_bytes_len(s: Seq<u8>)
    ensures
        rev_bytes(s).len() == s.len(),
    decreases s.len(),
{
    if s.len() > 0 {
        lemma_rev_bytes_len(s.drop_last());
    }
}

proof fn lemma_rev_bytes_index(s: Seq<u8>, i: int)
    requires
        0 <= i < s.len(),
    ensures
        rev_bytes(s).len() == s.len(),
        rev_bytes(s)[i] == s[s.len() - 1 - i],
    decreases s.len(),
{
    lemma_rev_bytes_len(s);
    if i > 0 {
        lemma_rev_bytes_index(s.drop_last(), i - 1);
    }
}

/// Render `n` as its decimal numeral.
pub fn usize_to_dec(n: usize) -> (r: Vec<u8>)
    ensures
        r@ == dec_repr(n as int),
{
    let mut digits: Vec<u8> = Vec::new();
    let mut m = n;
    proof {
        assert(dec_repr(n as int) =~= dec_repr(m as int) + rev_bytes(digits@));
    }
    while m > 9
        invariant
            m >= 0,
            dec_repr(n as int) == dec_repr(m as int) + rev_bytes(digits@),
        decreases m,
    {
        let d: u8 = (m % 10) as u8 + 48;
        let ghost pre = digits@;
        digits.push(d);
        proof {
            assert(digits@.drop_last() =~= pre);
            assert(rev_bytes(digits@) == seq![d] + rev_bytes(pre));
            assert(d as int == 48 + (m as int) % 10);
            assert(dec_repr(m as int) == dec_repr((m as int) / 10).push(d));
            assert(dec_repr((m as int) / 10).push(d) =~= dec_repr((m as int) / 10) + seq![d]);
            assert(dec_repr(n as int) =~= dec_repr((m as int) / 10) + rev_bytes(digits@));
        }
        m = m / 10;
    }
    let d: u8 = m as u8 + 48;
    let ghost pre = digits@;
    digits.push(d);
    proof {
        assert(digits@.drop_last() =~= pre);
        assert(rev_bytes(digits@) == seq![d] + rev_bytes(pre));
        assert(d as int == 48 + m as int);
        assert(dec_repr(m as int) == seq![d]);
        assert(dec_repr(n as int) =~= rev_bytes(digits@));
    }
    let mut out: Vec<u8> = Vec::new();
    let mut k = digits.len();
    while k > 0
        invariant
            k <= digits@.len(),
            out@.len() == digits@.len() - k,
            forall|j: int| 0 <= j < out@.len() ==> out@[j] == digits@[digits@.len() - 1 - j],
        decreases k,
    {
        out.push(digits[k - 1]);
        k = k - 1;
    }
    proof {
        lemma_rev_bytes_len(digits@);
        assert forall|j: int| 0 <= j < out@.len() implies out@[j] == rev_bytes(digits@)[j] by {
            lemma_rev_bytes_index(digits@, j);
        }
        assert(out@ =~= rev_bytes(digits@));
    }
    out
}

/// The bytes of a `200 OK` response without a body: the status line and a
/// blank line.
pub open spec fn spec_ok_response() -> Seq<u8> {
    status_line_200() + crlf()
}

/// The bytes of a `404 Not Found` response: the status line and a blank
/// line, with no body.
pub open spec fn spec_not_found_response() -> Seq<u8> {
    status_line_404() + crlf()
}

/// The headers that announce a body: its content type, its exact byte
/// length, and the blank line that ends the header block.
pub open spec fn spec_body_headers(content_type: Seq<u8>, len: int) -> Seq<u8> {
    content_type + content_length_prefix() + dec_repr(len) + crlf() + crlf()
}

/// The bytes of a `200 OK` response carrying `t` as a `text/plain` body.
pub open spec fn spec_text_response(t: Seq<u8>) -> Seq<u8> {
    status_line_200() + spec_body_headers(content_type_text(), t.len() as int) + t
}

/// The bytes of a `200 OK` response carrying `b` as an
/// `application/octet-stream` body.
pub open spec fn spec_octet_response(b: Seq<u8>) -> Seq<u8> {
    status_line_200() + spec_body_headers(content_type_octet(), b.len() as int) + b
}

/// Build the `200 OK` response without a body.
pub fn respond_with_200_ok() -> (r: Vec<u8>)
    ensures
        r@ == spec_ok_response(),
{
    let r = status_line_200_vec();
    append_bytes(r, &crlf_vec())
}

/// Build the `404 Not Found` response.
pub fn respond_with_404_not_found() -> (r: Vec<u8>)
    ensures
        r@ == spec_not_found_response(),
{
    let r = status_line_404_vec();
    append_bytes(r, &crlf_vec())
}

/// Build a `200 OK` response whose `text/plain` body is `text`.
pub fn respond_with_text_content(text: &Vec<u8>) -> (r: Vec<u8>)
    ensures
        r@ == spec_text_response(text@),
{
    let mut r = status_line_200_vec();
    r = append_bytes(r, &content_type_text_vec());
    r = append_bytes(r, &content_length_prefix_vec());
    r = append_bytes(r, &usize_to_dec(text.len()));
    r = append_bytes(r, &crlf_vec());
    r = append_bytes(r, &crlf_vec());
    r = append_bytes(r, text);
    proof {
        assert(r@ =~= spec_text_response(text@));
    }
    r
}

/// Build a `200 OK` response whose `application/octet-stream` body is
/// `file`.
pub fn respond_with_octet_stream(file: &Vec<u8>) -> (r: Vec<u8>)
    ensures
        r@ == spec_octet_response(file@),
{
    let mut r = status_line_200_vec();
    r = append_bytes(r, &content_type_octet_vec());
    r = append_bytes(r, &content_length_prefix_vec());
    r = append_bytes(r, &usize_to_dec(file.len()));
    r = append_bytes(r, &crlf_vec());
    r = append_bytes(r, &crlf_vec());
    r = append_bytes(r, file);
    proof {
        assert(r@ =~= spec_octet_response(file@));
    }
    r
}

} // verus!
