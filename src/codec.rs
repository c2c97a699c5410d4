//! The wire codec: bytes of a request into a `Request`, a status and a body
//! into the bytes of a response.
use vstd::prelude::*;

use crate::error::{Error, IoFailure};
use crate::http_types::{method_from_token, Headers, Method, Request};
use vstd::slice::slice_subrange;
use vstd::string::StringSliceAdditionalSpecFns;
use vstd::utf8::*;

verus! {

broadcast use vstd::utf8::group_utf8_lib;

/// ASCII whitespace as Rust's `char::is_whitespace` has it (space, tab, line
/// feed, vertical tab, form feed, carriage return): it separates tokens and is
/// trimmed.
pub open spec fn is_ws(b: u8) -> bool {
    b == 32 || b == 9 || b == 10 || b == 11 || b == 12 || b == 13
}

fn is_space(b: u8) -> (r: bool)
    ensures
        r == is_ws(b),
{
    b == 32 || b == 9 || b == 10 || b == 11 || b == 12 || b == 13
}

/// The first index at or after `i` below `hi` whose byte is not whitespace, else `hi`.
pub open spec fn skip_ws(s: Seq<u8>, i: int, hi: int) -> int
    decreases hi - i,
{
    if i >= hi {
        hi
    } else if is_ws(s[i]) {
        skip_ws(s, i + 1, hi)
    } else {
        i
    }
}

/// The first index at or after `i` below `hi` whose byte is whitespace, else `hi`.
pub open spec fn word_end(s: Seq<u8>, i: int, hi: int) -> int
    decreases hi - i,
{
    if i >= hi {
        hi
    } else if is_ws(s[i]) {
        i
    } else {
        word_end(s, i + 1, hi)
    }
}

/// The end of `s[lo..hi]` once trailing whitespace is dropped.
pub open spec fn trim_back(s: Seq<u8>, lo: int, hi: int) -> int
    decreases hi - lo,
{
    if hi <= lo {
        lo
    } else if is_ws(s[hi - 1]) {
        trim_back(s, lo, hi - 1)
    } else {
        hi
    }
}

/// The first index at or after `i` below `hi` that holds `c`, else `hi`.
pub open spec fn find_byte(s: Seq<u8>, c: u8, i: int, hi: int) -> int
    decreases hi - i,
{
    if i >= hi {
        hi
    } else if s[i] == c {
        i
    } else {
        find_byte(s, c, i + 1, hi)
    }
}

/// `s[lo..hi]` without leading and trailing whitespace.
pub open spec fn trimmed(s: Seq<u8>, lo: int, hi: int) -> Seq<u8> {
    let a = skip_ws(s, lo, hi);
    s.subrange(a, trim_back(s, a, hi))
}

/// The end of the line that starts at `i`: the index of the next line feed, else `s.len()`.
pub open spec fn line_end(s: Seq<u8>, i: int) -> int
    decreases s.len() - i,
{
    if i >= s.len() {
        s.len() as int
    } else if s[i] == 10 {
        i
    } else {
        line_end(s, i + 1)
    }
}

/// The request line read as method and path: exactly three whitespace-separated
/// tokens (method, path, protocol version; the version is not looked at).
pub open spec fn request_line(line: Seq<u8>) -> Result<(Method, Seq<u8>), Error> {
    let hi = line.len() as int;
    let a0 = skip_ws(line, 0, hi);
    let a1 = word_end(line, a0, hi);
    let b0 = skip_ws(line, a1, hi);
    let b1 = word_end(line, b0, hi);
    let c0 = skip_ws(line, b1, hi);
    let c1 = word_end(line, c0, hi);
    if !(a0 < a1 && b0 < b1 && c0 < c1 && skip_ws(line, c1, hi) == hi) {
        Err(Error::MalformedRequest)
    } else {
        match method_from_token(line.subrange(a0, a1)) {
            Ok(m) => Ok((m, line.subrange(b0, b1))),
            Err(e) => Err(e),
        }
    }
}

/// Whether a header line holds only whitespace (it ends the header block).
pub open spec fn is_blank(line: Seq<u8>) -> bool {
    skip_ws(line, 0, line.len() as int) == line.len()
}

/// A header line split on its first colon, both sides trimmed; a line without a
/// colon gives an empty name and an empty value.
pub open spec fn header_field(line: Seq<u8>) -> (Seq<u8>, Seq<u8>) {
    let hi = line.len() as int;
    let colon = find_byte(line, 58, 0, hi);
    if colon == hi {
        (Seq::empty(), Seq::empty())
    } else {
        (trimmed(line, 0, colon), trimmed(line, colon + 1, hi))
    }
}

/// The header fields of the block that starts at `pos`, up to the first blank
/// line or the end of the input.
pub open spec fn header_fields(s: Seq<u8>, pos: int) -> Seq<(Seq<u8>, Seq<u8>)>
    decreases s.len() + 1 - pos,
{
    if pos < 0 || pos >= s.len() {
        Seq::empty()
    } else {
        let e = line_end(s, pos);
        if e < pos || e > s.len() || is_blank(s.subrange(pos, e)) {
            Seq::empty()
        } else {
            seq![header_field(s.subrange(pos, e))] + header_fields(s, e + 1)
        }
    }
}

/// Where the body starts: just past the blank line that ends the header block
/// that starts at `pos`, or the end of the input.
pub open spec fn body_start(s: Seq<u8>, pos: int) -> int
    decreases s.len() + 1 - pos,
{
    if pos < 0 || pos >= s.len() {
        s.len() as int
    } else {
        let e = line_end(s, pos);
        if e < pos || e > s.len() {
            s.len() as int
        } else if is_blank(s.subrange(pos, e)) {
            if e < s.len() {
                e + 1
            } else {
                s.len() as int
            }
        } else {
            body_start(s, e + 1)
        }
    }
}

/// Every name and value among `f` is valid UTF-8.
pub open spec fn fields_valid(f: Seq<(Seq<u8>, Seq<u8>)>) -> bool {
    forall|i: int| #![trigger f[i]] 0 <= i < f.len() ==> valid_utf8(f[i].0) && valid_utf8(f[i].1)
}

/// The header map that storing the fields `f` in order gives.
pub open spec fn fields_map(f: Seq<(Seq<u8>, Seq<u8>)>) -> Map<Seq<char>, Seq<char>>
    decreases f.len(),
{
    if f.len() == 0 {
        Map::empty()
    } else {
        fields_map(f.drop_last()).insert(decode_utf8(f.last().0), decode_utf8(f.last().1))
    }
}

/// What parsing the head of a request (request line and header block) yields.
pub struct HeadView {
    pub method: Method,
    pub path: Seq<char>,
    pub headers: Map<Seq<char>, Seq<char>>,
    pub body_start: int,
}

/// The head of the request at the start of `s`.
pub open spec fn head_spec(s: Seq<u8>) -> Result<HeadView, Error> {
    let e0 = line_end(s, 0);
    match request_line(s.subrange(0, e0)) {
        Err(e) => Err(e),
        Ok((m, path)) => {
            let f = header_fields(s, e0 + 1);
            if !valid_utf8(path) || !fields_valid(f) {
                Err(Error::IO(IoFailure::InvalidData))
            } else {
                Ok(
                    HeadView {
                        method: m,
                        path: decode_utf8(path),
                        headers: fields_map(f),
                        body_start: body_start(s, e0 + 1),
                    },
                )
            }
        },
    }
}

/// The value of a decimal numeral.
pub open spec fn digits_value(d: Seq<u8>) -> int
    decreases d.len(),
{
    if d.len() == 0 {
        0
    } else {
        digits_value(d.drop_last()) * 10 + (d.last() - 48)
    }
}

pub open spec fn all_digits(d: Seq<u8>) -> bool {
    forall|i: int| 0 <= i < d.len() ==> 48 <= #[trigger] d[i] <= 57
}

/// A `Content-Length` value read as a `usize`: an optional `+`, then decimal
/// digits; anything that is not such a numeral, or does not fit, counts as 0.
pub open spec fn content_length(v: Seq<u8>) -> int {
    let d = if v.len() > 0 && v[0] == 43 {
        v.drop_first()
    } else {
        v
    };
    if d.len() > 0 && all_digits(d) && digits_value(d) <= usize::MAX {
        digits_value(d)
    } else {
        0
    }
}

/// How long the body is, as the header map announces it: `None` where there is
/// no `Content-Length`; a `Transfer-Encoding` is refused whatever else is there.
pub open spec fn body_length_spec(h: Map<Seq<char>, Seq<char>>) -> Result<Option<int>, Error> {
    if h.contains_key("Transfer-Encoding"@) {
        Err(Error::UnsupportedTransferEncoding)
    } else if h.contains_key("Content-Length"@) {
        Ok(Some(content_length(encode_utf8(h["Content-Length"@]))))
    } else {
        Ok(None)
    }
}

/// The text of body bytes, invalid UTF-8 sequences replaced.
pub uninterp spec fn lossy_utf8(b: Seq<u8>) -> Seq<char>;

/// The text of body bytes: decoded where they are valid UTF-8, else decoded
/// with replacement.
pub open spec fn body_text(b: Seq<u8>) -> Seq<char> {
    if valid_utf8(b) {
        decode_utf8(b)
    } else {
        lossy_utf8(b)
    }
}

/// What a parsed request holds, as mathematical values.
pub struct RequestView {
    pub method: Method,
    pub path: Seq<char>,
    pub headers: Map<Seq<char>, Seq<char>>,
    pub body: Option<Seq<char>>,
}

pub open spec fn request_view(r: Request) -> RequestView {
    RequestView {
        method: r.method,
        path: r.path@,
        headers: r.headers@,
        body: match r.raw_body {
            Some(b) => Some(b@),
            None => None,
        },
    }
}

/// The request at the start of `s`: head, then as many body bytes as
/// `Content-Length` announces.
pub open spec fn parse_spec(s: Seq<u8>) -> Result<RequestView, Error> {
    match head_spec(s) {
        Err(e) => Err(e),
        Ok(h) => match body_length_spec(h.headers) {
            Err(e) => Err(e),
            Ok(None) => Ok(
                RequestView { method: h.method, path: h.path, headers: h.headers, body: None },
            ),
            Ok(Some(n)) => if h.body_start + n > s.len() {
                Err(Error::IO(IoFailure::UnexpectedEof))
            } else {
                Ok(
                    RequestView {
                        method: h.method,
                        path: h.path,
                        headers: h.headers,
                        body: Some(body_text(s.subrange(h.body_start, h.body_start + n))),
                    },
                )
            },
        },
    }
}

/// Relies on `String::from_utf8`: it succeeds exactly on valid UTF-8 and then
/// holds the decoded characters.
#[verifier::external_body]
pub(crate) fn utf8_string(b: Vec<u8>) -> (r: Option<String>)
    ensures
        match r {
            Some(s) => valid_utf8(b@) && s@ == decode_utf8(b@),
            None => !valid_utf8(b@),
        },
{
    String::from_utf8(b).ok()
}

/// Relies on `String::from_utf8_lossy`: invalid sequences become U+FFFD, and
/// valid UTF-8 comes back as it is.
#[verifier::external_body]
fn utf8_lossy(b: &[u8]) -> (r: String)
    ensures
        r@ == lossy_utf8(b@),
        valid_utf8(b@) ==> r@ == decode_utf8(b@),
{
    String::from_utf8_lossy(b).into_owned()
}

fn skip_ws_at(s: &[u8], i: usize, hi: usize) -> (r: usize)
    requires
        i <= hi <= s@.len(),
    ensures
        r == skip_ws(s@, i as int, hi as int),
        i <= r <= hi,
{
    let mut j = i;
    while j < hi && is_space(s[j])
        invariant
            i <= j <= hi <= s@.len(),
            skip_ws(s@, i as int, hi as int) == skip_ws(s@, j as int, hi as int),
        decreases hi - j,
    {
        j = j + 1;
    }
    j
}

fn word_end_at(s: &[u8], i: usize, hi: usize) -> (r: usize)
    requires
        i <= hi <= s@.len(),
    ensures
        r == word_end(s@, i as int, hi as int),
        i <= r <= hi,
{
    let mut j = i;
    while j < hi && !is_space(s[j])
        invariant
            i <= j <= hi <= s@.len(),
            word_end(s@, i as int, hi as int) == word_end(s@, j as int, hi as int),
        decreases hi - j,
    {
        j = j + 1;
    }
    j
}

fn trim_back_at(s: &[u8], lo: usize, hi: usize) -> (r: usize)
    requires
        lo <= hi <= s@.len(),
    ensures
        r == trim_back(s@, lo as int, hi as int),
        lo <= r <= hi,
{
    let mut j = hi;
    while j > lo && is_space(s[j - 1])
        invariant
            lo <= j <= hi <= s@.len(),
            trim_back(s@, lo as int, hi as int) == trim_back(s@, lo as int, j as int),
        decreases j - lo,
    {
        j = j - 1;
    }
    j
}

fn find_byte_at(s: &[u8], c: u8, i: usize, hi: usize) -> (r: usize)
    requires
        i <= hi <= s@.len(),
    ensures
        r == find_byte(s@, c, i as int, hi as int),
        i <= r <= hi,
{
    let mut j = i;
    while j < hi && s[j] != c
        invariant
            i <= j <= hi <= s@.len(),
            find_byte(s@, c, i as int, hi as int) == find_byte(s@, c, j as int, hi as int),
        decreases hi - j,
    {
        j = j + 1;
    }
    j
}

/// The index of the line feed that ends the line starting at `i`, or `s.len()`.
pub fn line_end_at(s: &[u8], i: usize) -> (r: usize)
    requires
        i <= s@.len(),
    ensures
        r == line_end(s@, i as int),
        i <= r <= s@.len(),
{
    let mut j = i;
    while j < s.len() && s[j] != 10
        invariant
            i <= j <= s@.len(),
            line_end(s@, i as int) == line_end(s@, j as int),
        decreases s@.len() - j,
    {
        j = j + 1;
    }
    j
}

/// `s[lo..hi]` trimmed, as its own vector.
fn trimmed_bytes(s: &[u8], lo: usize, hi: usize) -> (r: Vec<u8>)
    requires
        lo <= hi <= s@.len(),
    ensures
        r@ == trimmed(s@, lo as int, hi as int),
{
    let a = skip_ws_at(s, lo, hi);
    let b = trim_back_at(s, a, hi);
    copy_bytes(slice_subrange(s, a, b))
}

fn copy_bytes(b: &[u8]) -> (r: Vec<u8>)
    ensures
        r@ == b@,
{
    let mut r: Vec<u8> = Vec::new();
    let mut i: usize = 0;
    while i < b.len()
        invariant
            0 <= i <= b@.len(),
            r@ == b@.subrange(0, i as int),
        decreases b@.len() - i,
    {
        r.push(b[i]);
        i = i + 1;
        assert(r@ =~= b@.subrange(0, i as int));
    }
    assert(b@.subrange(0, b@.len() as int) =~= b@);
    r
}

/// Reads the request line: method and path. The line must hold exactly three
/// whitespace-separated tokens; the third, the protocol version, is not checked.
pub fn parse_first_line(line: &[u8]) -> (r: Result<(Method, String), Error>)
    ensures
        match request_line(line@) {
            Err(e) => r == Err::<(Method, String), Error>(e),
            Ok((m, p)) => if valid_utf8(p) {
                r is Ok && r->Ok_0.0 == m && r->Ok_0.1@ == decode_utf8(p)
            } else {
                r == Err::<(Method, String), Error>(Error::IO(IoFailure::InvalidData))
            },
        },
{
    let hi = line.len();
    let a0 = skip_ws_at(line, 0, hi);
    let a1 = word_end_at(line, a0, hi);
    let b0 = skip_ws_at(line, a1, hi);
    let b1 = word_end_at(line, b0, hi);
    let c0 = skip_ws_at(line, b1, hi);
    let c1 = word_end_at(line, c0, hi);
    let d0 = skip_ws_at(line, c1, hi);
    if !(a0 < a1 && b0 < b1 && c0 < c1 && d0 == hi) {
        return Err(Error::MalformedRequest);
    }
    let m = match Method::from_token(slice_subrange(line, a0, a1)) {
        Ok(m) => m,
        Err(e) => return Err(e),
    };
    match utf8_string(copy_bytes(slice_subrange(line, b0, b1))) {
        Some(p) => Ok((m, p)),
        None => Err(Error::IO(IoFailure::InvalidData)),
    }
}

/// Splits a header line on its first colon and trims both sides; a line
/// without a colon gives an empty name and value.
pub fn split_header_line(line: &[u8]) -> (r: (Vec<u8>, Vec<u8>))
    ensures
        (r.0@, r.1@) == header_field(line@),
{
    let hi = line.len();
    let colon = find_byte_at(line, 58, 0, hi);
    if colon == hi {
        (Vec::new(), Vec::new())
    } else {
        (trimmed_bytes(line, 0, colon), trimmed_bytes(line, colon + 1, hi))
    }
}

/// Whether a line holds only whitespace.
pub fn is_blank_line(line: &[u8]) -> (r: bool)
    ensures
        r == is_blank(line@),
{
    skip_ws_at(line, 0, line.len()) == line.len()
}

/// The head of a request: what the request line and header block say, and
/// where the body starts.
pub struct Head {
    pub method: Method,
    pub path: String,
    pub headers: Headers,
    pub body_start: usize,
}

/// Parses the head of the request at the start of `s`: the request line, then
/// header lines up to the first blank line or the end of the input.
pub fn parse_head(s: &[u8]) -> (r: Result<Head, Error>)
    ensures
        match head_spec(s@) {
            Err(e) => r == Err::<Head, Error>(e),
            Ok(h) => r is Ok && r->Ok_0.method == h.method && r->Ok_0.path@ == h.path
                && r->Ok_0.headers@ == h.headers && r->Ok_0.body_start == h.body_start,
        },
        r is Ok ==> r->Ok_0.body_start <= s@.len(),
{
    let e0 = line_end_at(s, 0);
    let (method, path) = match parse_first_line(slice_subrange(s, 0, e0)) {
        Ok(x) => x,
        Err(e) => return Err(e),
    };
    proof {
        let rl = request_line(s@.subrange(0, e0 as int));
        assert(rl is Ok);
        assert(valid_utf8(rl->Ok_0.1));
        assert(rl->Ok_0.0 == method);
        assert(path@ == decode_utf8(rl->Ok_0.1));
    }
    let mut headers = Headers::new();
    let mut pos: usize = if e0 < s.len() { e0 + 1 } else { s.len() };
    let ghost start: int = e0 + 1;
    let ghost done: Seq<(Seq<u8>, Seq<u8>)> = Seq::empty();
    assert(header_fields(s@, start) == header_fields(s@, pos as int)) by {
        if e0 >= s@.len() {
            assert(header_fields(s@, start) == Seq::<(Seq<u8>, Seq<u8>)>::empty());
        }
    }
    assert(body_start(s@, start) == body_start(s@, pos as int));
    loop
        invariant
            0 <= pos <= s@.len(),
            e0 == line_end(s@, 0),
            start == e0 + 1,
            request_line(s@.subrange(0, e0 as int)) is Ok,
            request_line(s@.subrange(0, e0 as int))->Ok_0.0 == method,
            valid_utf8(request_line(s@.subrange(0, e0 as int))->Ok_0.1),
            path@ == decode_utf8(request_line(s@.subrange(0, e0 as int))->Ok_0.1),
            header_fields(s@, start) == done + header_fields(s@, pos as int),
            body_start(s@, start) == body_start(s@, pos as int),
            fields_valid(done),
            headers@ == fields_map(done),
        decreases s@.len() - pos,
    {
        if pos >= s.len() {
            assert(header_fields(s@, pos as int) =~= Seq::<(Seq<u8>, Seq<u8>)>::empty());
            assert(done + Seq::<(Seq<u8>, Seq<u8>)>::empty() =~= done);
            return Ok(Head { method, path, headers, body_start: pos });
        }
        let e = line_end_at(s, pos);
        let line = slice_subrange(s, pos, e);
        if is_blank_line(line) {
            assert(header_fields(s@, pos as int) =~= Seq::<(Seq<u8>, Seq<u8>)>::empty());
            assert(done + Seq::<(Seq<u8>, Seq<u8>)>::empty() =~= done);
            pos = if e < s.len() { e + 1 } else { s.len() };
            assert(body_start(s@, start) == pos && header_fields(s@, start) == done);
            return Ok(Head { method, path, headers, body_start: pos });
        }
        let (k, v) = split_header_line(line);
        let ghost field = (k@, v@);
        let ghost rest = header_fields(s@, (e + 1) as int);
        assert(header_fields(s@, pos as int) == seq![field] + rest);
        let ks = match utf8_string(k) {
            Some(x) => x,
            None => {
                proof {
                    let all = header_fields(s@, start);
                    assert(all[done.len() as int] == field);
                    assert(!fields_valid(all));
                }
                return Err(Error::IO(IoFailure::InvalidData));
            },
        };
        let vs = match utf8_string(v) {
            Some(x) => x,
            None => {
                proof {
                    let all = header_fields(s@, start);
                    assert(all[done.len() as int] == field);
                    assert(!fields_valid(all));
                }
                return Err(Error::IO(IoFailure::InvalidData));
            },
        };
        headers.insert(ks, vs);
        proof {
            let nd = done.push(field);
            assert(nd.drop_last() =~= done);
            assert(done + (seq![field] + rest) =~= nd + rest);
            assert forall|i: int| #![trigger nd[i]] 0 <= i < nd.len() implies valid_utf8(nd[i].0)
                && valid_utf8(nd[i].1) by {
                if i < done.len() {
                    assert(nd[i] == done[i]);
                }
            }
            done = nd;
        }
        pos = if e < s.len() { e + 1 } else { s.len() };
        assert(header_fields(s@, (e + 1) as int) == header_fields(s@, pos as int));
        assert(body_start(s@, (e + 1) as int) == body_start(s@, pos as int));
    }
}

proof fn lemma_digits_nonneg(d: Seq<u8>)
    requires
        all_digits(d),
    ensures
        digits_value(d) >= 0,
    decreases d.len(),
{
    if d.len() > 0 {
        lemma_digits_nonneg(d.drop_last());
    }
}

/// A numeral's prefix is worth no more than the numeral.
proof fn lemma_digits_prefix(d: Seq<u8>, j: int)
    requires
        all_digits(d),
        0 <= j <= d.len(),
    ensures
        digits_value(d.subrange(0, j)) <= digits_value(d),
    decreases d.len(),
{
    if j == d.len() {
        assert(d.subrange(0, j) =~= d);
    } else {
        let p = d.drop_last();
        lemma_digits_prefix(p, j);
        lemma_digits_nonneg(p);
        assert(p.subrange(0, j) =~= d.subrange(0, j));
    }
}

/// Reads a `Content-Length` value: an optional `+` and decimal digits that fit
/// in a `usize`; anything else counts as 0.
pub fn parse_content_length(v: &[u8]) -> (r: usize)
    ensures
        r as int == content_length(v@),
{
    let start: usize = if v.len() > 0 && v[0] == 43 { 1 } else { 0 };
    let ghost d = v@.subrange(start as int, v@.len() as int);
    assert(d =~= (if v@.len() > 0 && v@[0] == 43 { v@.drop_first() } else { v@ }));
    if start == v.len() {
        return 0;
    }
    let mut acc: usize = 0;
    let mut i: usize = start;
    assert(v@.subrange(start as int, i as int) =~= Seq::<u8>::empty());
    while i < v.len()
        invariant
            start <= i <= v@.len(),
            start < v@.len(),
            d == v@.subrange(start as int, v@.len() as int),
            content_length(v@) == (if d.len() > 0 && all_digits(d) && digits_value(d) <= usize::MAX {
                digits_value(d)
            } else {
                0
            }),
            all_digits(v@.subrange(start as int, i as int)),
            acc as int == digits_value(v@.subrange(start as int, i as int)),
        decreases v@.len() - i,
    {
        let c = v[i];
        if c < 48 || c > 57 {
            assert(d[i - start] == c);
            return 0;
        }
        let dig: usize = (c - 48) as usize;
        let ghost next = v@.subrange(start as int, i + 1);
        assert(next.drop_last() =~= v@.subrange(start as int, i as int));
        assert(all_digits(next)) by {
            assert forall|k: int| 0 <= k < next.len() implies 48 <= #[trigger] next[k] <= 57 by {
                if k < next.len() - 1 {
                    assert(next[k] == v@.subrange(start as int, i as int)[k]);
                }
            }
        }
        if acc > (usize::MAX - dig) / 10 {
            proof {
                assert(acc * 10 + dig > usize::MAX) by (nonlinear_arith)
                    requires
                        acc > (usize::MAX - dig) / 10,
                        dig <= 9,
                ;
                if all_digits(d) {
                    lemma_digits_prefix(d, i + 1 - start);
                    assert(d.subrange(0, i + 1 - start) =~= next);
                }
            }
            return 0;
        }
        assert(acc * 10 + dig <= usize::MAX) by (nonlinear_arith)
            requires
                acc <= (usize::MAX - dig) / 10,
                dig <= 9,
        ;
        acc = acc * 10 + dig;
        i = i + 1;
    }
    assert(v@.subrange(start as int, i as int) =~= d);
    acc
}

/// The body length the header fields announce: `None` without a
/// `Content-Length`; any `Transfer-Encoding` is refused.
pub fn body_length(headers: &Headers) -> (r: Result<Option<usize>, Error>)
    ensures
        match body_length_spec(headers@) {
            Err(e) => r == Err::<Option<usize>, Error>(e),
            Ok(None) => r == Ok::<Option<usize>, Error>(None),
            Ok(Some(n)) => r is Ok && r->Ok_0 is Some && r->Ok_0->Some_0 == n,
        },
{
    if headers.contains_key("Transfer-Encoding") {
        return Err(Error::UnsupportedTransferEncoding);
    }
    match headers.get("Content-Length") {
        None => Ok(None),
        Some(v) => Ok(Some(parse_content_length(v.as_str().as_bytes()))),
    }
}

/// The text of a body; invalid UTF-8 sequences become U+FFFD.
pub fn decode_body(b: &[u8]) -> (r: String)
    ensures
        r@ == body_text(b@),
{
    utf8_lossy(b)
}

/// Parses the request at the start of `s`: head, then exactly `Content-Length`
/// body bytes (none without that header); bytes after them are not read.
pub fn parse_request(s: &[u8]) -> (r: Result<Request, Error>)
    ensures
        match parse_spec(s@) {
            Err(e) => r == Err::<Request, Error>(e),
            Ok(v) => r is Ok && request_view(r->Ok_0) == v,
        },
{
    let head = match parse_head(s) {
        Ok(h) => h,
        Err(e) => return Err(e),
    };
    let raw_body = match body_length(&head.headers) {
        Err(e) => return Err(e),
        Ok(None) => None,
        Ok(Some(n)) => {
            if n > s.len() - head.body_start {
                return Err(Error::IO(IoFailure::UnexpectedEof));
            }
            Some(decode_body(slice_subrange(s, head.body_start, head.body_start + n)))
        },
    };
    Ok(Request { method: head.method, path: head.path, headers: head.headers, raw_body })
}

/// The reason phrase sent for a status; codes outside the table get `OK`.
pub open spec fn reason_phrase(status: u16) -> Seq<u8> {
    if status == 500 {
        "Internal Server Error".spec_bytes()
    } else if status == 501 {
        "Not Implemented".spec_bytes()
    } else if status == 400 {
        "Bad Request".spec_bytes()
    } else if status == 404 {
        "Not Found".spec_bytes()
    } else {
        "OK".spec_bytes()
    }
}

/// The decimal digits of `n`.
pub open spec fn decimal(n: nat) -> Seq<u8>
    decreases n,
{
    if n < 10 {
        seq![(n + 48) as u8]
    } else {
        decimal(n / 10).push(((n % 10) + 48) as u8)
    }
}

/// The bytes of a response: status line, one `Content-Length` header equal to
/// the body's byte length, a blank line, then the body as it is.
pub open spec fn response_bytes(status: u16, body: Seq<u8>) -> Seq<u8> {
    "HTTP/1.1 ".spec_bytes() + decimal(status as nat) + " ".spec_bytes() + reason_phrase(status)
        + "\nContent-Length: ".spec_bytes() + decimal(body.len()) + "\n\n".spec_bytes() + body
}

/// The reason phrase for a status code.
pub fn reason(status: u16) -> (r: &'static str)
    ensures
        r.spec_bytes() == reason_phrase(status),
{
    if status == 500 {
        "Internal Server Error"
    } else if status == 501 {
        "Not Implemented"
    } else if status == 400 {
        "Bad Request"
    } else if status == 404 {
        "Not Found"
    } else {
        "OK"
    }
}

pub(crate) fn append_bytes(out: &mut Vec<u8>, b: &[u8])
    ensures
        final(out)@ == old(out)@ + b@,
{
    let mut i: usize = 0;
    while i < b.len()
        invariant
            0 <= i <= b@.len(),
            out@ == old(out)@ + b@.subrange(0, i as int),
        decreases b@.len() - i,
    {
        out.push(b[i]);
        i = i + 1;
        assert(out@ =~= old(out)@ + b@.subrange(0, i as int));
    }
    assert(b@.subrange(0, b@.len() as int) =~= b@);
}

fn append_decimal(out: &mut Vec<u8>, n: u64)
    ensures
        final(out)@ == old(out)@ + decimal(n as nat),
    decreases n,
{
    if n < 10 {
        out.push((n as u8) + 48);
        assert(out@ =~= old(out)@ + decimal(n as nat));
    } else {
        append_decimal(out, n / 10);
        out.push(((n % 10) as u8) + 48);
        assert(out@ =~= old(out)@ + decimal(n as nat));
    }
}

/// The bytes of a response with this status and body.
pub fn render(status: u16, body: &[u8]) -> (r: Vec<u8>)
    ensures
        r@ == response_bytes(status, body@),
{
    let mut out: Vec<u8> = Vec::new();
    append_bytes(&mut out, "HTTP/1.1 ".as_bytes());
    append_decimal(&mut out, status as u64);
    append_bytes(&mut out, " ".as_bytes());
    append_bytes(&mut out, reason(status).as_bytes());
    append_bytes(&mut out, "\nContent-Length: ".as_bytes());
    append_decimal(&mut out, body.len() as u64);
    append_bytes(&mut out, "\n\n".as_bytes());
    append_bytes(&mut out, body);
    assert(out@ =~= response_bytes(status, body@));
    out
}

/// The bytes of a response with this status and text body.
pub fn encode_response(status: u16, body: &str) -> (r: Vec<u8>)
    ensures
        r@ == response_bytes(status, body.spec_bytes()),
{
    render(status, body.as_bytes())
}

/// A request whose head announces a `Transfer-Encoding` fails to parse with
/// `UnsupportedTransferEncoding`, whatever its body holds.
pub proof fn lemma_transfer_encoding_refused(s: Seq<u8>)
    requires
        head_spec(s) is Ok,
        head_spec(s)->Ok_0.headers.contains_key("Transfer-Encoding"@),
    ensures
        parse_spec(s) == Err::<RequestView, Error>(Error::UnsupportedTransferEncoding),
{
}

/// In a header block, the value stored under a name is the one of the last
/// field with that name (names are compared exactly, case included).
pub proof fn lemma_last_field_wins(f: Seq<(Seq<u8>, Seq<u8>)>, i: int)
    requires
        0 <= i < f.len(),
        forall|j: int| i < j < f.len() ==> decode_utf8(#[trigger] f[j].0) != decode_utf8(f[i].0),
    ensures
        fields_map(f).contains_key(decode_utf8(f[i].0)),
        fields_map(f)[decode_utf8(f[i].0)] == decode_utf8(f[i].1),
    decreases f.len(),
{
    if i < f.len() - 1 {
        let p = f.drop_last();
        assert forall|j: int| i < j < p.len() implies decode_utf8(#[trigger] p[j].0) != decode_utf8(
            p[i].0,
        ) by {
            assert(p[j] == f[j]);
        }
        lemma_last_field_wins(p, i);
        assert(f[f.len() - 1] == f.last());
    }
}

/// Parsing a well-formed request whose `Content-Length` covers exactly the
/// rest of the input, then writing its body back out, gives back the body
/// bytes exactly (for a body that is valid UTF-8).
pub proof fn lemma_body_round_trip(s: Seq<u8>, status: u16)
    requires
        head_spec(s) is Ok,
        body_length_spec(head_spec(s)->Ok_0.headers) is Ok,
        body_length_spec(head_spec(s)->Ok_0.headers)->Ok_0 == Some(
            s.len() - head_spec(s)->Ok_0.body_start,
        ),
        valid_utf8(s.subrange(head_spec(s)->Ok_0.body_start, s.len() as int)),
    ensures
        parse_spec(s) is Ok,
        parse_spec(s)->Ok_0.body is Some,
        ({
            let b = s.subrange(head_spec(s)->Ok_0.body_start, s.len() as int);
            let out = response_bytes(status, encode_utf8(parse_spec(s)->Ok_0.body->Some_0));
            out.subrange(out.len() - b.len(), out.len() as int) == b
        }),
{
    let h = head_spec(s)->Ok_0;
    let b = s.subrange(h.body_start, s.len() as int);
    assert(h.body_start + (s.len() - h.body_start) == s.len());
    assert(parse_spec(s)->Ok_0.body->Some_0 == decode_utf8(b));
    assert(encode_utf8(decode_utf8(b)) == b);
    let out = response_bytes(status, b);
    assert(out.subrange(out.len() - b.len(), out.len() as int) =~= b);
}

} // verus!
