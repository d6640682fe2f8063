//! The control plane's HTTP/1.1 wire format: request-head and request parsing
//! over the bytes a connection delivered, target and query decoding, the
//! `/field` proxy classification and head rewrite, and response framing.
//! Sockets, threads and TLS stay with the caller; everything here is pure.
use vstd::prelude::*;
use vstd::slice::slice_subrange;
use vstd::utf8::{decode_utf8, encode_utf8, valid_utf8};
use crate::keyed::{key_get, key_put, key_remove, keys_sorted, text_map_get, text_map_put, text_map_remove, text_pairs};
use crate::proxy::{hex_byte_value, index_of_byte, is_hex_byte, lemma_index_of_byte};
use crate::text::{
    dec_value, is_digit_seq, parse_decimal, all_digits,
    chars_eq_str, chars_of, copy_range, find_char, index_of_char, is_ascii_alphanumeric,
    lemma_index_of_char, lemma_tok_end, lemma_ws_end, lower_chars, lower_seq, string_of,
    tok_end, tok_end_exec, trim, trim_chars, utf8_string, ws_end, ws_end_exec,
};

verus! {

/// Requests larger than this are refused with `413`.
pub const MAX_REQUEST_BODY_BYTES: usize = 1048576;

/// Ceiling on the request line and headers combined.
pub const MAX_HEAD: usize = 32768;

/// Why a request could not be parsed.
#[derive(Debug, Clone, Copy, PartialEq, Eq)]
pub enum ParseError {
    /// The connection closed before sending anything.
    Empty,
    /// Not a request this server answers.
    Malformed,
    /// The head or the declared body exceeds its budget.
    TooLarge,
    /// The bytes could not be read as a request: a line that is not UTF-8, or
    /// a body cut short by the end of the stream.
    Io,
}

/// An RFC 9110 `tchar`.
pub open spec fn is_tchar(c: char) -> bool {
    is_ascii_alphanumeric(c) || c == '!' || c == '#' || c == '$' || c == '%' || c == '&' || c
        == '\'' || c == '*' || c == '+' || c == '-' || c == '.' || c == '^' || c == '_' || c
        == '`' || c == '|' || c == '~'
}

/// A non-empty run of `tchar`s: a method or a header name.
pub open spec fn is_token(s: Seq<char>) -> bool {
    s.len() > 0 && forall|i: int| 0 <= i < s.len() ==> is_tchar(#[trigger] s[i])
}

/// A character a header value may not hold: controls other than tab.
pub open spec fn bad_value_char(c: char) -> bool {
    (c as u32) < 0x20 && c != '\t'
}

/// A character a request target may not hold: space, controls and DEL.
pub open spec fn bad_target_char(c: char) -> bool {
    (c as u32) < 0x21 || (c as u32) == 0x7f
}

pub open spec fn ends_crlf(l: Seq<u8>) -> bool {
    l.len() >= 2 && l[l.len() - 2] == 13 && l[l.len() - 1] == 10
}

/// The index just after the first LF at or after `p`, or the end: where the
/// line `read_line` returns from `p` stops.
pub open spec fn line_stop(h: Seq<u8>, p: int) -> int
    decreases h.len() - p,
{
    if p < 0 || p >= h.len() {
        h.len() as int
    } else if h[p] == 10 {
        p + 1
    } else {
        line_stop(h, p + 1)
    }
}

/// The bytes the head may be read from: at most [`MAX_HEAD`] of them.
pub open spec fn head_window(buf: Seq<u8>) -> Seq<u8> {
    if buf.len() <= MAX_HEAD {
        buf
    } else {
        buf.take(MAX_HEAD as int)
    }
}

/// A line that ended without CR LF after `consumed` head bytes: the budget ran
/// out, or the request is malformed.
pub open spec fn unterminated(consumed: int) -> ParseError {
    if consumed == MAX_HEAD {
        ParseError::TooLarge
    } else {
        ParseError::Malformed
    }
}

/// `str::trim_end_matches(['\r', '\n'])`.
pub open spec fn strip_line_end(l: Seq<char>) -> Seq<char>
    decreases l.len(),
{
    if l.len() > 0 && (l.last() == '\r' || l.last() == '\n') {
        strip_line_end(l.drop_last())
    } else {
        l
    }
}

pub type HeaderList = Seq<(Seq<char>, Seq<char>)>;

pub open spec fn has_key(hs: HeaderList, k: Seq<char>) -> bool {
    exists|i: int| 0 <= i < hs.len() && (#[trigger] hs[i]).0 == k
}

/// The value stored under `k`, if any.
pub open spec fn lookup(hs: HeaderList, k: Seq<char>) -> Option<Seq<char>>
    decreases hs.len(),
{
    if hs.len() == 0 {
        None
    } else if hs.last().0 == k {
        Some(hs.last().1)
    } else {
        lookup(hs.drop_last(), k)
    }
}

/// A header line (line end already stripped) as a lower-cased name and a
/// trimmed value, when the name is a token and the value holds no controls.
pub open spec fn header_of(l: Seq<char>) -> Option<(Seq<char>, Seq<char>)> {
    match index_of_char(l, ':', 0) {
        None => None,
        Some(k) => {
            let key = lower_seq(trim(l.take(k)));
            let value = trim(l.skip(k + 1));
            if !is_token(key) || (exists|i: int| 0 <= i < value.len() && bad_value_char(#[trigger] value[i])) {
                None
            } else {
                Some((key, value))
            }
        },
    }
}

/// The header lines of the head window `h` from `p` on, collected into `hs`;
/// on success, the headers and the index just past the blank line.
pub open spec fn header_lines(h: Seq<u8>, p: int, hs: HeaderList) -> Result<(HeaderList, int), ParseError>
    decreases h.len() - p,
{
    if p < 0 || p > h.len() {
        Err(ParseError::Malformed)
    } else if p == h.len() {
        Err(unterminated(p))
    } else {
        let q = line_stop(h, p);
        let line = h.subrange(p, q);
        if q <= p || q > h.len() {
            Err(ParseError::Malformed)
        } else if !valid_utf8(line) {
            Err(ParseError::Io)
        } else if !ends_crlf(line) {
            Err(unterminated(q))
        } else {
            let t = strip_line_end(decode_utf8(line));
            if t.len() == 0 {
                Ok((hs, q))
            } else {
                match header_of(t) {
                    None => Err(ParseError::Malformed),
                    Some(kv) => if has_key(hs, kv.0) {
                        Err(ParseError::Malformed)
                    } else {
                        header_lines(h, q, hs.push(kv))
                    },
                }
            }
        }
    }
}

/// The request line: exactly three white-space separated tokens, a token
/// method, an origin-form target without fragment or controls, and HTTP/1.0
/// or HTTP/1.1.
pub open spec fn request_line(l: Seq<char>) -> Option<(Seq<char>, Seq<char>, Seq<char>)> {
    let a0 = ws_end(l, 0);
    let b0 = tok_end(l, a0);
    let a1 = ws_end(l, b0);
    let b1 = tok_end(l, a1);
    let a2 = ws_end(l, b1);
    let b2 = tok_end(l, a2);
    let a3 = ws_end(l, b2);
    if a0 >= l.len() || a1 >= l.len() || a2 >= l.len() || a3 < l.len() {
        None
    } else {
        let method = l.subrange(a0, b0);
        let target = l.subrange(a1, b1);
        let version = l.subrange(a2, b2);
        if !(version == "HTTP/1.0"@ || version == "HTTP/1.1"@) || !is_token(method) || !(
        target.len() > 0 && target[0] == '/') || target.contains('#') || (exists|i: int|
            0 <= i < target.len() && bad_target_char(#[trigger] target[i])) {
            None
        } else {
            Some((method, target, version))
        }
    }
}

/// A parsed request head: method, raw target, version, and the headers in
/// arrival order (names lower-cased, no name twice).
pub type HeadView = (Seq<char>, Seq<char>, Seq<char>, HeaderList);

/// The head at the start of `buf`, and the index where the body starts.
pub open spec fn head_spec(buf: Seq<u8>) -> Result<(HeadView, int), ParseError> {
    let h = head_window(buf);
    if h.len() == 0 {
        Err(ParseError::Empty)
    } else {
        let q = line_stop(h, 0);
        let line = h.take(q);
        if !valid_utf8(line) {
            Err(ParseError::Io)
        } else if !ends_crlf(line) {
            Err(unterminated(q))
        } else {
            match request_line(decode_utf8(line)) {
                None => Err(ParseError::Malformed),
                Some(rl) => match header_lines(h, q, Seq::empty()) {
                    Err(e) => Err(e),
                    Ok(res) => if rl.2 == "HTTP/1.1"@ && !has_key(res.0, "host"@) {
                        Err(ParseError::Malformed)
                    } else {
                        Ok(((rl.0, rl.1, rl.2, res.0), res.1))
                    },
                },
            }
        }
    }
}

pub open spec fn pairs_view(v: Seq<(String, String)>) -> HeaderList {
    v.map_values(|p: (String, String)| (p.0@, p.1@))
}

/// The request line and headers, before any body is read.
pub struct Head {
    pub method: String,
    /// Raw request target (path plus query, undecoded) as the client sent it.
    pub target: String,
    pub version: String,
    /// Lower-cased names in arrival order; no name occurs twice.
    pub headers: Vec<(String, String)>,
}

impl Head {
    pub open spec fn view_of(&self) -> HeadView {
        (self.method@, self.target@, self.version@, pairs_view(self.headers@))
    }
}

fn line_stop_exec(h: &[u8], p: usize) -> (r: usize)
    requires
        p <= h@.len(),
    ensures
        r as int == line_stop(h@, p as int),
        p <= r <= h@.len(),
        p < h@.len() ==> p < r,
{
    let n = h.len();
    let mut j = p;
    while j < n
        invariant
            n == h@.len(),
            p <= j <= n,
            line_stop(h@, p as int) == line_stop(h@, j as int),
        decreases n - j,
    {
        if h[j] == 10u8 {
            return j + 1;
        }
        j += 1;
    }
    n
}

proof fn lemma_strip_line_end_len(l: Seq<char>)
    ensures
        strip_line_end(l).len() <= l.len(),
        strip_line_end(l) == l.take(strip_line_end(l).len() as int),
    decreases l.len(),
{
    if l.len() > 0 && (l.last() == '\r' || l.last() == '\n') {
        lemma_strip_line_end_len(l.drop_last());
        assert(l.drop_last().take(strip_line_end(l).len() as int) =~= l.take(strip_line_end(l).len() as int));
    } else {
        assert(l.take(l.len() as int) =~= l);
    }
}

fn strip_line_end_exec(l: &[char]) -> (r: Vec<char>)
    ensures
        r@ == strip_line_end(l@),
{
    let mut e = l.len();
    assert(l@.take(e as int) =~= l@);
    while e > 0 && (l[e - 1] == '\r' || l[e - 1] == '\n')
        invariant
            e <= l@.len(),
            strip_line_end(l@) == strip_line_end(l@.take(e as int)),
        decreases e,
    {
        assert(l@.take(e as int).drop_last() =~= l@.take(e - 1));
        e -= 1;
    }
    assert(!(l@.take(e as int).len() > 0 && (l@.take(e as int).last() == '\r' || l@.take(e as int).last() == '\n')));
    copy_range(l, 0, e)
}

fn is_tchar_exec(c: char) -> (r: bool)
    ensures
        r == is_tchar(c),
{
    ('0' <= c && c <= '9') || ('a' <= c && c <= 'z') || ('A' <= c && c <= 'Z') || c == '!' || c
        == '#' || c == '$' || c == '%' || c == '&' || c == '\'' || c == '*' || c == '+' || c
        == '-' || c == '.' || c == '^' || c == '_' || c == '`' || c == '|' || c == '~'
}

fn is_token_exec(s: &[char]) -> (r: bool)
    ensures
        r == is_token(s@),
{
    if s.len() == 0 {
        return false;
    }
    let mut i: usize = 0;
    while i < s.len()
        invariant
            i <= s@.len(),
            forall|j: int| 0 <= j < i ==> is_tchar(#[trigger] s@[j]),
        decreases s.len() - i,
    {
        if !is_tchar_exec(s[i]) {
            return false;
        }
        i += 1;
    }
    true
}

fn has_bad_value_char(s: &[char]) -> (r: bool)
    ensures
        r == exists|i: int| 0 <= i < s@.len() && bad_value_char(#[trigger] s@[i]),
{
    let mut i: usize = 0;
    while i < s.len()
        invariant
            i <= s@.len(),
            forall|j: int| 0 <= j < i ==> !bad_value_char(#[trigger] s@[j]),
        decreases s.len() - i,
    {
        if (s[i] as u32) < 0x20 && s[i] != '\t' {
            assert(bad_value_char(s@[i as int]));
            return true;
        }
        i += 1;
    }
    false
}

fn has_bad_target_char(s: &[char]) -> (r: bool)
    ensures
        r == exists|i: int| 0 <= i < s@.len() && bad_target_char(#[trigger] s@[i]),
{
    let mut i: usize = 0;
    while i < s.len()
        invariant
            i <= s@.len(),
            forall|j: int| 0 <= j < i ==> !bad_target_char(#[trigger] s@[j]),
        decreases s.len() - i,
    {
        if (s[i] as u32) < 0x21 || (s[i] as u32) == 0x7f {
            assert(bad_target_char(s@[i as int]));
            return true;
        }
        i += 1;
    }
    false
}

fn contains_char(s: &[char], c: char) -> (r: bool)
    ensures
        r == s@.contains(c),
{
    let mut i: usize = 0;
    while i < s.len()
        invariant
            i <= s@.len(),
            forall|j: int| 0 <= j < i ==> s@[j] != c,
        decreases s.len() - i,
    {
        if s[i] == c {
            assert(s@[i as int] == c);
            return true;
        }
        i += 1;
    }
    false
}

/// One header line as name and value (see [`header_of`]).
fn header_of_exec(l: &[char]) -> (r: Option<(Vec<char>, Vec<char>)>)
    ensures
        match r {
            Some(kv) => header_of(l@) == Some((kv.0@, kv.1@)),
            None => header_of(l@) is None,
        },
{
    let k = match find_char(l, ':') {
        None => return None,
        Some(k) => k,
    };
    proof {
        lemma_index_of_char(l@, ':', 0);
    }
    let n = l.len();
    assert(k < n);
    let name = copy_range(l, 0, k);
    let rest = copy_range(l, k + 1, n);
    assert(name@ =~= l@.take(k as int));
    assert(rest@ =~= l@.skip(k + 1));
    let trimmed = trim_chars(&name);
    let key = lower_chars(&trimmed);
    let value = trim_chars(&rest);
    if !is_token_exec(&key) || has_bad_value_char(&value) {
        return None;
    }
    Some((key, value))
}

/// Whether a header name is already present.
fn has_key_exec(hs: &Vec<(String, String)>, k: &[char]) -> (r: bool)
    ensures
        r == has_key(pairs_view(hs@), k@),
{
    let mut i: usize = 0;
    while i < hs.len()
        invariant
            i <= hs@.len(),
            forall|j: int| 0 <= j < i ==> (#[trigger] hs@[j]).0@ != k@,
        decreases hs.len() - i,
    {
        let name = chars_of(hs[i].0.as_str());
        if crate::text::chars_eq(&name, k) {
            assert(pairs_view(hs@)[i as int].0 == k@);
            return true;
        }
        i += 1;
    }
    assert forall|j: int| 0 <= j < pairs_view(hs@).len() implies (#[trigger] pairs_view(hs@)[j]).0 != k@ by {
        assert(hs@[j].0@ != k@);
    }
    false
}

/// The request line (see [`request_line`]).
fn request_line_exec(l: &[char]) -> (r: Option<(Vec<char>, Vec<char>, Vec<char>)>)
    ensures
        match r {
            Some(t) => request_line(l@) == Some((t.0@, t.1@, t.2@)),
            None => request_line(l@) is None,
        },
{
    let n = l.len();
    let a0 = ws_end_exec(l, 0);
    proof { lemma_ws_end(l@, 0); }
    let b0 = tok_end_exec(l, a0);
    proof { lemma_tok_end(l@, a0 as int); }
    let a1 = ws_end_exec(l, b0);
    proof { lemma_ws_end(l@, b0 as int); }
    let b1 = tok_end_exec(l, a1);
    proof { lemma_tok_end(l@, a1 as int); }
    let a2 = ws_end_exec(l, b1);
    proof { lemma_ws_end(l@, b1 as int); }
    let b2 = tok_end_exec(l, a2);
    proof { lemma_tok_end(l@, a2 as int); }
    let a3 = ws_end_exec(l, b2);
    if a0 >= n || a1 >= n || a2 >= n || a3 < n {
        return None;
    }
    let method = copy_range(l, a0, b0);
    let target = copy_range(l, a1, b1);
    let version = copy_range(l, a2, b2);
    let version_ok = chars_eq_str(&version, "HTTP/1.0") || chars_eq_str(&version, "HTTP/1.1");
    let target_ok = target.len() > 0 && target[0] == '/';
    if !version_ok || !is_token_exec(&method) || !target_ok || contains_char(&target, '#')
        || has_bad_target_char(&target) {
        return None;
    }
    Some((method, target, version))
}

fn decode_line(line: &[u8]) -> (r: Option<Vec<char>>)
    ensures
        match r {
            Some(c) => valid_utf8(line@) && c@ == decode_utf8(line@),
            None => !valid_utf8(line@),
        },
{
    match utf8_string(line) {
        None => None,
        Some(text) => Some(chars_of(text.as_str())),
    }
}

/// Reads and validates the request line and headers at the start of `buf`,
/// within the [`MAX_HEAD`] budget. On success, also returns where the body
/// starts.
pub fn parse_head(buf: &[u8]) -> (r: Result<(Head, usize), ParseError>)
    ensures
        match r {
            Ok((head, end)) => head_spec(buf@) == Ok::<(HeadView, int), ParseError>((head.view_of(), end as int)) && end <= buf@.len(),
            Err(e) => head_spec(buf@) == Err::<(HeadView, int), ParseError>(e),
        },
{
    let limit = if buf.len() <= MAX_HEAD { buf.len() } else { MAX_HEAD };
    let h = slice_subrange(buf, 0, limit);
    assert(h@ =~= head_window(buf@));
    let n = h.len();
    if n == 0 {
        return Err(ParseError::Empty);
    }
    let q = line_stop_exec(h, 0);
    let first = slice_subrange(h, 0, q);
    assert(first@ =~= h@.take(q as int));
    let first_chars = match decode_line(first) {
        None => return Err(ParseError::Io),
        Some(c) => c,
    };
    let ends = q >= 2 && first[q - 2] == 13u8 && first[q - 1] == 10u8;
    if !ends {
        return Err(if q == MAX_HEAD { ParseError::TooLarge } else { ParseError::Malformed });
    }
    let (method, target, version) = match request_line_exec(&first_chars) {
        None => return Err(ParseError::Malformed),
        Some(t) => t,
    };
    let mut headers: Vec<(String, String)> = Vec::new();
    assert(pairs_view(headers@) =~= Seq::<(Seq<char>, Seq<char>)>::empty());
    let ghost rl = (method@, target@, version@);
    assert(h@.len() > 0 && head_window(buf@) == h@);
    assert(request_line(decode_utf8(h@.take(q as int))) == Some(rl));
    assert(head_spec(buf@) == match header_lines(h@, q as int, Seq::empty()) {
        Err(e) => Err(e),
        Ok(res) => if rl.2 == "HTTP/1.1"@ && !has_key(res.0, "host"@) {
            Err(ParseError::Malformed)
        } else {
            Ok(((rl.0, rl.1, rl.2, res.0), res.1))
        },
    });
    let mut p = q;
    let end: usize;
    loop
        invariant_except_break
            n == h@.len(),
            0 < p <= n,
            head_spec(buf@) == match header_lines(h@, q as int, Seq::empty()) {
                Err(e) => Err(e),
                Ok(res) => if rl.2 == "HTTP/1.1"@ && !has_key(res.0, "host"@) {
                    Err(ParseError::Malformed)
                } else {
                    Ok(((rl.0, rl.1, rl.2, res.0), res.1))
                },
            },
            header_lines(h@, q as int, Seq::empty()) == header_lines(h@, p as int, pairs_view(headers@)),
        ensures
            header_lines(h@, q as int, Seq::empty()) == Ok::<(HeaderList, int), ParseError>((pairs_view(headers@), end as int)),
            end <= n,
        decreases n - p,
    {
        if p == n {
            return Err(if p == MAX_HEAD { ParseError::TooLarge } else { ParseError::Malformed });
        }
        let next = line_stop_exec(h, p);
        let line = slice_subrange(h, p, next);
        assert(line@ =~= h@.subrange(p as int, next as int));
        let chars = match decode_line(line) {
            None => return Err(ParseError::Io),
            Some(c) => c,
        };
        let len = line.len();
        let ends = len >= 2 && line[len - 2] == 13u8 && line[len - 1] == 10u8;
        if !ends {
            return Err(if next == MAX_HEAD { ParseError::TooLarge } else { ParseError::Malformed });
        }
        let t = strip_line_end_exec(&chars);
        if t.len() == 0 {
            end = next;
            break;
        }
        let (k, v) = match header_of_exec(&t) {
            None => return Err(ParseError::Malformed),
            Some(kv) => kv,
        };
        if has_key_exec(&headers, &k) {
            return Err(ParseError::Malformed);
        }
        let ghost before = headers@;
        headers.push((string_of(&k), string_of(&v)));
        assert(pairs_view(headers@) =~= pairs_view(before).push((k@, v@)));
        p = next;
    }
    let host = chars_of("host");
    if chars_eq_str(&version, "HTTP/1.1") && !has_key_exec(&headers, &host) {
        return Err(ParseError::Malformed);
    }
    let head = Head {
        method: string_of(&method),
        target: string_of(&target),
        version: string_of(&version),
        headers,
    };
    Ok((head, end))
}

/// `%XX` decoding (and `+` as a space when `plus` is set) of `b[i..]`,
/// appended to `out`; `None` on a `%` without two hex digits after it.
pub open spec fn pct_from(b: Seq<u8>, plus: bool, i: int, out: Seq<u8>) -> Option<Seq<u8>>
    decreases b.len() - i,
{
    if i < 0 || i >= b.len() {
        Some(out)
    } else if b[i] == 37 {
        if i + 2 < b.len() && is_hex_byte(b[i + 1]) && is_hex_byte(b[i + 2]) {
            pct_from(b, plus, i + 3, out.push((hex_byte_value(b[i + 1]) * 16 + hex_byte_value(b[i + 2])) as u8))
        } else {
            None
        }
    } else if b[i] == 43 && plus {
        pct_from(b, plus, i + 1, out.push(32u8))
    } else {
        pct_from(b, plus, i + 1, out.push(b[i]))
    }
}

/// A decoded byte that may never reach a path, key or value.
pub open spec fn forbidden_decoded(b: u8) -> bool {
    b == 0 || b == 13 || b == 10 || b == 127
}

/// Minimal `application/x-www-form-urlencoded` decoding of `b` to text:
/// refused when a `%` escape is incomplete, when the result holds NUL, CR, LF
/// or DEL, or when it is not UTF-8.
pub open spec fn pct_decode(b: Seq<u8>, plus: bool) -> Option<Seq<u8>> {
    match pct_from(b, plus, 0, Seq::empty()) {
        None => None,
        Some(out) => if (exists|i: int| 0 <= i < out.len() && forbidden_decoded(#[trigger] out[i]))
            || !valid_utf8(out) {
            None
        } else {
            Some(out)
        },
    }
}

/// One `key=value` (or bare `key`) query segment, decoded.
pub open spec fn query_pair(seg: Seq<u8>) -> Option<(Seq<char>, Seq<char>)> {
    let kv = match index_of_byte(seg, 61u8, 0) {
        Some(e) => (seg.take(e), seg.skip(e + 1)),
        None => (seg, Seq::empty()),
    };
    match (pct_decode(kv.0, true), pct_decode(kv.1, true)) {
        (Some(k), Some(v)) => Some((decode_utf8(k), decode_utf8(v))),
        _ => None,
    }
}

/// The `&`-separated, non-empty segments of a query, decoded and appended to
/// `acc` in order.
pub open spec fn query_pairs(q: Seq<u8>, acc: HeaderList) -> Option<HeaderList>
    decreases q.len(),
{
    let cut = index_of_byte(q, 38u8, 0);
    let seg = match cut {
        Some(j) => q.take(j),
        None => q,
    };
    let next = if seg.len() == 0 {
        Some(acc)
    } else {
        match query_pair(seg) {
            None => None,
            Some(kv) => Some(acc.push(kv)),
        }
    };
    match next {
        None => None,
        Some(a) => match cut {
            None => Some(a),
            Some(j) => if 0 <= j < q.len() {
                query_pairs(q.skip(j + 1), a)
            } else {
                None
            },
        },
    }
}

/// The outcome of a target split, from its decoded query and path.
pub open spec fn target_result(query: Option<HeaderList>, path: Option<Seq<u8>>) -> Option<(Seq<char>, HeaderList)> {
    match query {
        None => None,
        Some(query) => match path {
            None => None,
            Some(path) => if exists|i: int| 0 <= i < path.len() && ((#[trigger] path[i]) < 32
                || path[i] == 127) {
                None
            } else {
                Some((decode_utf8(path), query))
            },
        },
    }
}

/// A target split at its first `?` into a decoded path (no controls or DEL
/// in it) and the decoded query pairs.
pub open spec fn split_target_spec(t: Seq<u8>) -> Option<(Seq<char>, HeaderList)> {
    let parts = match index_of_byte(t, 63u8, 0) {
        Some(k) => (t.take(k), t.skip(k + 1)),
        None => (t, Seq::empty()),
    };
    target_result(query_pairs(parts.1, Seq::empty()), pct_decode(parts.0, false))
}

fn hex_nibble(b: u8) -> (r: Option<u8>)
    ensures
        match r {
            Some(v) => is_hex_byte(b) && v as nat == hex_byte_value(b),
            None => !is_hex_byte(b),
        },
{
    if 48 <= b && b <= 57 {
        Some(b - 48)
    } else if 97 <= b && b <= 102 {
        Some(b - 87)
    } else if 65 <= b && b <= 70 {
        Some(b - 55)
    } else {
        None
    }
}

/// Percent-decoding of raw bytes (see [`pct_decode`]).
fn percent_decode_bytes(b: &[u8], plus_as_space: bool) -> (r: Result<String, ParseError>)
    ensures
        match r {
            Ok(s) => pct_decode(b@, plus_as_space) matches Some(out) && s@ == decode_utf8(out),
            Err(e) => e == ParseError::Malformed && pct_decode(b@, plus_as_space) is None,
        },
{
    let n = b.len();
    let mut out: Vec<u8> = Vec::new();
    let mut i: usize = 0;
    while i < n
        invariant
            n == b@.len(),
            i <= n,
            pct_from(b@, plus_as_space, 0, Seq::empty()) == pct_from(b@, plus_as_space, i as int, out@),
        decreases n - i,
    {
        if b[i] == 37u8 {
            if n - i > 2 {
                match (hex_nibble(b[i + 1]), hex_nibble(b[i + 2])) {
                    (Some(hi), Some(lo)) => {
                        out.push(hi * 16 + lo);
                        i += 3;
                        continue;
                    },
                    _ => {},
                }
            }
            return Err(ParseError::Malformed);
        } else if b[i] == 43u8 && plus_as_space {
            out.push(32u8);
        } else {
            out.push(b[i]);
        }
        i += 1;
    }
    assert(pct_from(b@, plus_as_space, 0, Seq::empty()) == Some(out@));
    let mut j: usize = 0;
    while j < out.len()
        invariant
            pct_from(b@, plus_as_space, 0, Seq::empty()) == Some(out@),
            j <= out@.len(),
            forall|k: int| 0 <= k < j ==> !forbidden_decoded(#[trigger] out@[k]),
        decreases out.len() - j,
    {
        let c = out[j];
        if c == 0 || c == 13 || c == 10 || c == 127 {
            assert(forbidden_decoded(out@[j as int]));
            return Err(ParseError::Malformed);
        }
        j += 1;
    }
    match utf8_string(out.as_slice()) {
        None => Err(ParseError::Malformed),
        Some(s) => Ok(s),
    }
}

/// Minimal `application/x-www-form-urlencoded` decode: `%XX`, and `+` as a
/// space when `plus_as_space` is set.
pub fn percent_decode(s: &str, plus_as_space: bool) -> (r: Result<String, ParseError>)
    ensures
        match r {
            Ok(d) => pct_decode(encode_utf8(s@), plus_as_space) matches Some(out) && d@ == decode_utf8(out),
            Err(e) => e == ParseError::Malformed && pct_decode(encode_utf8(s@), plus_as_space) is None,
        },
{
    percent_decode_bytes(s.as_bytes(), plus_as_space)
}

fn find_byte_from(s: &[u8], b: u8) -> (r: Option<usize>)
    ensures
        match r {
            Some(i) => index_of_byte(s@, b, 0) == Some(i as int),
            None => index_of_byte(s@, b, 0) is None,
        },
{
    let n = s.len();
    let mut i: usize = 0;
    while i < n
        invariant
            n == s@.len(),
            i <= n,
            index_of_byte(s@, b, 0) == index_of_byte(s@, b, i as int),
        decreases n - i,
    {
        if s[i] == b {
            return Some(i);
        }
        i += 1;
    }
    None
}

fn query_pair_exec(seg: &[u8]) -> (r: Option<(String, String)>)
    ensures
        match r {
            Some(kv) => query_pair(seg@) == Some((kv.0@, kv.1@)),
            None => query_pair(seg@) is None,
        },
{
    let n = seg.len();
    let empty: [u8; 0] = [];
    let (k, v) = match find_byte_from(seg, 61u8) {
        Some(e) => {
            proof {
                lemma_index_of_byte(seg@, 61u8, 0);
            }
            (slice_subrange(seg, 0, e), slice_subrange(seg, e + 1, n))
        },
        None => (seg, slice_subrange(seg, n, n)),
    };
    proof {
        let kv = match index_of_byte(seg@, 61u8, 0) {
            Some(e) => (seg@.take(e), seg@.skip(e + 1)),
            None => (seg@, Seq::<u8>::empty()),
        };
        assert(k@ =~= kv.0);
        assert(v@ =~= kv.1);
    }
    let kd = match percent_decode_bytes(k, true) {
        Err(_) => return None,
        Ok(kd) => kd,
    };
    let vd = match percent_decode_bytes(v, true) {
        Err(_) => return None,
        Ok(vd) => vd,
    };
    Some((kd, vd))
}

/// Splits a request target into a decoded path and its decoded query pairs.
pub fn split_target(target: &str) -> (r: Result<(String, Vec<(String, String)>), ParseError>)
    ensures
        match r {
            Ok((path, query)) => split_target_spec(encode_utf8(target@)) == Some((path@, pairs_view(query@))),
            Err(e) => e == ParseError::Malformed && split_target_spec(encode_utf8(target@)) is None,
        },
{
    let t = target.as_bytes();
    let n = t.len();
    let (path_bytes, query_bytes) = match find_byte_from(t, 63u8) {
        Some(k) => {
            proof {
                lemma_index_of_byte(t@, 63u8, 0);
            }
            (slice_subrange(t, 0, k), slice_subrange(t, k + 1, n))
        },
        None => (t, slice_subrange(t, n, n)),
    };
    proof {
        let parts = match index_of_byte(t@, 63u8, 0) {
            Some(k) => (t@.take(k), t@.skip(k + 1)),
            None => (t@, Seq::<u8>::empty()),
        };
        assert(path_bytes@ =~= parts.0);
        assert(query_bytes@ =~= parts.1);
    }
    assert(split_target_spec(encode_utf8(target@)) == target_result(
        query_pairs(query_bytes@, Seq::empty()),
        pct_decode(path_bytes@, false),
    ));
    let mut query: Vec<(String, String)> = Vec::new();
    assert(pairs_view(query@) =~= Seq::<(Seq<char>, Seq<char>)>::empty());
    let qn = query_bytes.len();
    let mut p: usize = 0;
    assert(query_bytes@.skip(0) =~= query_bytes@);
    loop
        invariant_except_break
            split_target_spec(encode_utf8(target@)) == target_result(
                query_pairs(query_bytes@, Seq::empty()),
                pct_decode(path_bytes@, false),
            ),
            qn == query_bytes@.len(),
            p <= qn,
            query_pairs(query_bytes@, Seq::empty()) == query_pairs(query_bytes@.skip(p as int), pairs_view(query@)),
        ensures
            query_pairs(query_bytes@, Seq::empty()) == Some(pairs_view(query@)),
            split_target_spec(encode_utf8(target@)) == target_result(
                query_pairs(query_bytes@, Seq::empty()),
                pct_decode(path_bytes@, false),
            ),
        decreases qn - p,
    {
        let rest = slice_subrange(query_bytes, p, qn);
        assert(rest@ =~= query_bytes@.skip(p as int));
        let cut = find_byte_from(rest, 38u8);
        proof {
            lemma_index_of_byte(rest@, 38u8, 0);
        }
        let seg = match cut {
            Some(j) => slice_subrange(rest, 0, j),
            None => rest,
        };
        assert(seg@ =~= match index_of_byte(rest@, 38u8, 0) {
            Some(j) => rest@.take(j),
            None => rest@,
        });
        if seg.len() > 0 {
            match query_pair_exec(seg) {
                None => {
                    assert(query_pairs(rest@, pairs_view(query@)) is None);
                    return Err(ParseError::Malformed);
                },
                Some(kv) => {
                    let ghost before = query@;
                    proof {
                        assert(query_pair(seg@) == Some((kv.0@, kv.1@)));
                    }
                    query.push(kv);
                    assert(pairs_view(query@) =~= pairs_view(before).push(
                        (query@.last().0@, query@.last().1@),
                    ));
                },
            }
        }
        match cut {
            None => break,
            Some(j) => {
                assert(rest@.skip(j + 1) =~= query_bytes@.skip(p + j + 1));
                p = p + j + 1;
            },
        }
    }
    let path = match percent_decode_bytes(path_bytes, false) {
        Err(e) => return Err(e),
        Ok(path) => path,
    };
    let pb = path.as_str().as_bytes();
    let ghost out = pct_decode(path_bytes@, false).unwrap();
    proof {
        vstd::utf8::decode_utf8_encode_utf8(out);
        assert(pb@ == out);
    }
    let mut i: usize = 0;
    while i < pb.len()
        invariant
            split_target_spec(encode_utf8(target@)) == target_result(
                Some(pairs_view(query@)),
                Some(out),
            ),
            pb@ == out,
            pct_decode(path_bytes@, false) == Some(out),
            i <= pb@.len(),
            forall|k: int| 0 <= k < i ==> !((#[trigger] pb@[k]) < 32 || pb@[k] == 127),
        decreases pb.len() - i,
    {
        if pb[i] < 32 || pb[i] == 127 {
            assert(pb@[i as int] < 32 || pb@[i as int] == 127);
            return Err(ParseError::Malformed);
        }
        i += 1;
    }
    Ok((path, query))
}

/// Where a request target falls relative to the `/field` prefix.
#[derive(Debug, Clone, PartialEq, Eq)]
pub enum FieldRoute {
    /// `/field` (optionally with a query): send the browser to `/field/`.
    Redirect(String),
    /// `/field/...`: forward with the prefix stripped.
    Forward(String),
}

/// `/field` classification of a raw target: `Some((true, location))` for a
/// redirect, `Some((false, target))` for a forward, `None` for anything else
/// (including `/fieldx`).
pub open spec fn field_route_spec(t: Seq<char>) -> Option<(bool, Seq<char>)> {
    if t.len() >= 6 && t.take(6) == "/field"@ {
        let rest = t.skip(6);
        if rest.len() == 0 {
            Some((true, "/field/"@))
        } else if rest[0] == '?' {
            Some((true, "/field/"@ + rest))
        } else if rest[0] == '/' {
            Some((false, rest))
        } else {
            None
        }
    } else {
        None
    }
}

/// Classifies a raw request target (path plus query, undecoded) against the
/// `/field` prefix.
pub fn field_route(target: &str) -> (r: Option<FieldRoute>)
    ensures
        match r {
            None => field_route_spec(target@) is None,
            Some(FieldRoute::Redirect(loc)) => field_route_spec(target@) == Some((true, loc@)),
            Some(FieldRoute::Forward(t)) => field_route_spec(target@) == Some((false, t@)),
        },
{
    let t = chars_of(target);
    let n = t.len();
    if n < 6 {
        return None;
    }
    let prefix = copy_range(&t, 0, 6);
    assert(prefix@ =~= t@.take(6));
    if !chars_eq_str(&prefix, "/field") {
        return None;
    }
    let rest = copy_range(&t, 6, n);
    assert(rest@ =~= t@.skip(6));
    if rest.len() == 0 {
        Some(FieldRoute::Redirect(String::from_str("/field/")))
    } else if rest[0] == '?' {
        let mut v = chars_of("/field/");
        crate::text::push_chars(&mut v, &rest);
        Some(FieldRoute::Redirect(string_of(&v)))
    } else if rest[0] == '/' {
        Some(FieldRoute::Forward(string_of(&rest)))
    } else {
        None
    }
}

/// The text of an unsigned integer as `usize::from_str` reads it: an
/// optional `+`, then one or more decimal digits.
pub open spec fn uint_text(v: Seq<char>) -> Option<nat> {
    let digits = if v.len() > 0 && v[0] == '+' {
        v.drop_first()
    } else {
        v
    };
    if digits.len() == 0 || !is_digit_seq(digits) {
        None
    } else {
        Some(dec_value(digits))
    }
}

/// The body that follows a head ending at `end`: as many bytes as
/// `Content-Length` declares, or none without it.
pub open spec fn request_body(buf: Seq<u8>, end: int, hs: HeaderList) -> Result<Seq<u8>, ParseError> {
    match lookup(hs, "content-length"@) {
        None => Ok(Seq::empty()),
        Some(v) => match uint_text(v) {
            None => Err(ParseError::Malformed),
            Some(n) => if n > usize::MAX {
                Err(ParseError::Malformed)
            } else if n > MAX_REQUEST_BODY_BYTES {
                Err(ParseError::TooLarge)
            } else if end + n > buf.len() {
                Err(ParseError::Io)
            } else {
                Ok(buf.subrange(end, end + n))
            },
        },
    }
}

/// What arrived on a connection, as far as the server needs to know.
pub enum IncomingView {
    /// A complete request: head, decoded path, query pairs and body.
    Request(HeadView, Seq<char>, HeaderList, Seq<u8>),
    /// `/field` without the trailing slash: redirect there.
    Redirect(Seq<char>),
    /// `/field/...`: the head, the stripped target, and where the head ended.
    Field(HeadView, Seq<char>, int),
}

/// The parse of a connection's bytes. With the proxy on, `/field` routes stop
/// at the head; everything else must be a `GET`, `POST` or `DELETE` without
/// `Transfer-Encoding`, with a decodable target and a complete
/// `Content-Length` body.
pub open spec fn incoming_spec(buf: Seq<u8>, field: bool) -> Result<IncomingView, ParseError> {
    match head_spec(buf) {
        Err(e) => Err(e),
        Ok((hv, end)) => {
            let fr = field_route_spec(hv.1);
            if field && fr is Some && fr.unwrap().0 {
                Ok(IncomingView::Redirect(fr.unwrap().1))
            } else if field && fr is Some {
                Ok(IncomingView::Field(hv, fr.unwrap().1, end))
            } else if !(hv.0 == "GET"@ || hv.0 == "POST"@ || hv.0 == "DELETE"@) {
                Err(ParseError::Malformed)
            } else if has_key(hv.3, "transfer-encoding"@) {
                Err(ParseError::Malformed)
            } else {
                match split_target_spec(encode_utf8(hv.1)) {
                    None => Err(ParseError::Malformed),
                    Some((path, query)) => match request_body(buf, end, hv.3) {
                        Err(e) => Err(e),
                        Ok(body) => Ok(IncomingView::Request(hv, path, query, body)),
                    },
                }
            }
        },
    }
}

/// A parsed HTTP request. Header names are lower-cased; the path is already
/// decoded and split from the query string.
pub struct Request {
    pub method: String,
    pub path: String,
    /// Decoded query pairs in order; a later pair shadows an earlier one.
    pub query: Vec<(String, String)>,
    pub headers: Vec<(String, String)>,
    pub body: Vec<u8>,
    /// True when this request arrived on the host-only operator socket.
    pub from_unix: bool,
    /// The remote address, for per-client admission. The Unix socket has none.
    pub peer_ip: Option<String>,
}

/// What arrived on a connection.
pub enum Parsed {
    Request(Request),
    FieldRedirect(String),
    /// The head and stripped target of a `/field/...` request; `consumed` is
    /// where the head ended, so the caller forwards what follows verbatim.
    Field { head: Head, target: String, consumed: usize },
}

/// The segments of `p` between `/`, empty ones dropped, appended to `acc`.
pub open spec fn segments_from(p: Seq<char>, acc: Seq<Seq<char>>) -> Seq<Seq<char>>
    decreases p.len(),
{
    match index_of_char(p, '/', 0) {
        None => if p.len() > 0 {
            acc.push(p)
        } else {
            acc
        },
        Some(j) => if 0 <= j < p.len() {
            let seg = p.take(j);
            segments_from(p.skip(j + 1), if seg.len() > 0 {
                acc.push(seg)
            } else {
                acc
            })
        } else {
            acc
        },
    }
}

pub open spec fn segments_of(p: Seq<char>) -> Seq<Seq<char>> {
    segments_from(p, Seq::empty())
}

pub open spec fn strings_view(v: Seq<String>) -> Seq<Seq<char>> {
    v.map_values(|s: String| s@)
}

/// The non-empty `/`-separated segments of a path.
pub fn path_segments(path: &str) -> (r: Vec<String>)
    ensures
        strings_view(r@) == segments_of(path@),
{
    let p = chars_of(path);
    let n = p.len();
    let mut out: Vec<String> = Vec::new();
    let mut i: usize = 0;
    assert(p@.skip(0) =~= p@);
    assert(strings_view(out@) =~= Seq::<Seq<char>>::empty());
    loop
        invariant_except_break
            n == p@.len(),
            i <= n,
            segments_of(path@) == segments_from(p@.skip(i as int), strings_view(out@)),
        ensures
            segments_of(path@) == strings_view(out@),
        decreases n - i,
    {
        let rest = copy_range(&p, i, n);
        assert(rest@ =~= p@.skip(i as int));
        match find_char(&rest, '/') {
            None => {
                if rest.len() > 0 {
                    let ghost before = out@;
                    out.push(string_of(&rest));
                    assert(strings_view(out@) =~= strings_view(before).push(rest@));
                }
                break;
            },
            Some(j) => {
                proof {
                    lemma_index_of_char(rest@, '/', 0);
                }
                let seg = copy_range(&rest, 0, j);
                assert(seg@ =~= rest@.take(j as int));
                if seg.len() > 0 {
                    let ghost before = out@;
                    out.push(string_of(&seg));
                    assert(strings_view(out@) =~= strings_view(before).push(seg@));
                }
                assert(rest@.skip(j + 1) =~= p@.skip(i + j + 1));
                i = i + j + 1;
            },
        }
    }
    out
}

/// The value stored under `k` in a pair list, searched from the end so that a
/// later pair shadows an earlier one (see [`lookup`]).
pub fn lookup_pairs<'a>(pairs: &'a Vec<(String, String)>, k: &[char]) -> (r: Option<&'a str>)
    ensures
        match r {
            Some(v) => lookup(pairs_view(pairs@), k@) == Some(v@),
            None => lookup(pairs_view(pairs@), k@) is None,
        },
{
    let mut i = pairs.len();
    assert(pairs_view(pairs@).take(i as int) =~= pairs_view(pairs@));
    while i > 0
        invariant
            i <= pairs@.len(),
            lookup(pairs_view(pairs@), k@) == lookup(pairs_view(pairs@).take(i as int), k@),
        decreases i,
    {
        let name = chars_of(pairs[i - 1].0.as_str());
        assert(pairs_view(pairs@).take(i as int).last() == (pairs@[i - 1].0@, pairs@[i - 1].1@));
        if crate::text::chars_eq(&name, k) {
            return Some(pairs[i - 1].1.as_str());
        }
        assert(pairs_view(pairs@).take(i as int).drop_last() =~= pairs_view(pairs@).take(i - 1));
        i -= 1;
    }
    None
}

impl Request {
    pub open spec fn headers_view(&self) -> HeaderList {
        pairs_view(self.headers@)
    }

    /// A request header by (case-insensitive) name.
    pub fn header(&self, name: &str) -> (r: Option<&str>)
        ensures
            match r {
                Some(v) => lookup(self.headers_view(), lower_seq(name@)) == Some(v@),
                None => lookup(self.headers_view(), lower_seq(name@)) is None,
            },
    {
        let n = chars_of(name);
        let lowered = lower_chars(&n);
        lookup_pairs(&self.headers, &lowered)
    }

    /// The path's non-empty `/`-separated segments.
    pub fn segments(&self) -> (r: Vec<String>)
        ensures
            strings_view(r@) == segments_of(self.path@),
    {
        path_segments(self.path.as_str())
    }
}

fn usize_text_exec(v: &[char]) -> (r: Result<usize, ParseError>)
    ensures
        match r {
            Ok(n) => uint_text(v@) == Some(n as nat),
            Err(e) => e == ParseError::Malformed && (uint_text(v@) is None || uint_text(v@).unwrap() > usize::MAX),
        },
{
    let digits: Vec<char> = if v.len() > 0 && v[0] == '+' {
        copy_range(v, 1, v.len())
    } else {
        copy_range(v, 0, v.len())
    };
    assert(v@.len() > 0 && v@[0] == '+' ==> digits@ =~= v@.drop_first());
    assert(!(v@.len() > 0 && v@[0] == '+') ==> digits@ =~= v@);
    if digits.len() == 0 || !all_digits(&digits) {
        return Err(ParseError::Malformed);
    }
    match parse_decimal(&digits) {
        None => Err(ParseError::Malformed),
        Some(n) => Ok(n),
    }
}

/// Parses the head and, unless it is a `/field` route with the proxy on, the
/// body too, from the bytes a connection delivered.
pub fn parse_incoming(buf: &[u8], field: bool) -> (r: Result<Parsed, ParseError>)
    ensures
        match r {
            Err(e) => incoming_spec(buf@, field) == Err::<IncomingView, ParseError>(e),
            Ok(Parsed::Request(req)) => {
                &&& incoming_spec(buf@, field) matches Ok(IncomingView::Request(hv, path, query, body))
                &&& req.method@ == hv.0
                &&& req.headers_view() == hv.3
                &&& req.path@ == path
                &&& pairs_view(req.query@) == query
                &&& req.body@ == body
                &&& !req.from_unix
                &&& req.peer_ip is None
            },
            Ok(Parsed::FieldRedirect(loc)) => incoming_spec(buf@, field) == Ok::<IncomingView, ParseError>(IncomingView::Redirect(loc@)),
            Ok(Parsed::Field { head, target, consumed }) => incoming_spec(buf@, field)
                == Ok::<IncomingView, ParseError>(IncomingView::Field(head.view_of(), target@, consumed as int)),
        },
{
    let (head, end) = match parse_head(buf) {
        Err(e) => return Err(e),
        Ok(h) => h,
    };
    if field {
        match field_route(head.target.as_str()) {
            Some(FieldRoute::Redirect(location)) => return Ok(Parsed::FieldRedirect(location)),
            Some(FieldRoute::Forward(target)) => return Ok(Parsed::Field { head, target, consumed: end }),
            None => {},
        }
    }
    let m = chars_of(head.method.as_str());
    if !(chars_eq_str(&m, "GET") || chars_eq_str(&m, "POST") || chars_eq_str(&m, "DELETE")) {
        return Err(ParseError::Malformed);
    }
    let te = chars_of("transfer-encoding");
    if has_key_exec(&head.headers, &te) {
        return Err(ParseError::Malformed);
    }
    let (path, query) = match split_target(head.target.as_str()) {
        Err(e) => return Err(e),
        Ok(pq) => pq,
    };
    let cl = chars_of("content-length");
    let body: Vec<u8> = match lookup_pairs(&head.headers, &cl) {
        None => Vec::new(),
        Some(v) => {
            let vc = chars_of(v);
            let len = match usize_text_exec(&vc) {
                Err(e) => return Err(e),
                Ok(len) => len,
            };
            if len > MAX_REQUEST_BODY_BYTES {
                return Err(ParseError::TooLarge);
            }
            if buf.len() - end < len {
                return Err(ParseError::Io);
            }
            let slice = slice_subrange(buf, end, end + len);
            let mut copy: Vec<u8> = Vec::new();
            copy.extend_from_slice(slice);
            copy
        },
    };
    Ok(Parsed::Request(Request {
        method: head.method,
        path,
        query,
        headers: head.headers,
        body,
        from_unix: false,
        peer_ip: None,
    }))
}

/// The reason phrase written after a status code.
pub open spec fn reason_text(status: u16) -> Seq<char> {
    if status == 200 { "OK"@ }
    else if status == 201 { "Created"@ }
    else if status == 202 { "Accepted"@ }
    else if status == 204 { "No Content"@ }
    else if status == 307 { "Temporary Redirect"@ }
    else if status == 400 { "Bad Request"@ }
    else if status == 401 { "Unauthorized"@ }
    else if status == 403 { "Forbidden"@ }
    else if status == 404 { "Not Found"@ }
    else if status == 405 { "Method Not Allowed"@ }
    else if status == 409 { "Conflict"@ }
    else if status == 413 { "Payload Too Large"@ }
    else if status == 429 { "Too Many Requests"@ }
    else if status == 500 { "Internal Server Error"@ }
    else if status == 501 { "Not Implemented"@ }
    else if status == 502 { "Bad Gateway"@ }
    else if status == 503 { "Service Unavailable"@ }
    else if status == 507 { "Insufficient Storage"@ }
    else { "OK"@ }
}

/// The reason phrase for a status code (`OK` for codes this server never
/// sends).
pub fn reason_phrase(status: u16) -> (r: &'static str)
    ensures
        r@ == reason_text(status),
{
    match status {
        200 => "OK",
        201 => "Created",
        202 => "Accepted",
        204 => "No Content",
        307 => "Temporary Redirect",
        400 => "Bad Request",
        401 => "Unauthorized",
        403 => "Forbidden",
        404 => "Not Found",
        405 => "Method Not Allowed",
        409 => "Conflict",
        413 => "Payload Too Large",
        429 => "Too Many Requests",
        500 => "Internal Server Error",
        501 => "Not Implemented",
        502 => "Bad Gateway",
        503 => "Service Unavailable",
        507 => "Insufficient Storage",
        _ => "OK",
    }
}

/// A header name that can be written as is: a token.
pub open spec fn safe_name(v: Seq<char>) -> bool {
    is_token(v)
}

/// A header value that can be written as is: no CR, LF or other control
/// except tab, so it can never start a new header line.
pub open spec fn safe_value(v: Seq<char>) -> bool {
    !(exists|i: int| 0 <= i < v.len() && bad_value_char(#[trigger] v[i]))
}

/// `Some(value)` when it is a safe header name.
pub fn safe_header_name(value: &str) -> (r: Option<&str>)
    ensures
        match r {
            Some(v) => safe_name(value@) && v@ == value@,
            None => !safe_name(value@),
        },
{
    let c = chars_of(value);
    if is_token_exec(&c) {
        Some(value)
    } else {
        None
    }
}

/// `Some(value)` when it is a safe header value.
pub fn safe_header_value(value: &str) -> (r: Option<&str>)
    ensures
        match r {
            Some(v) => safe_value(value@) && v@ == value@,
            None => !safe_value(value@),
        },
{
    let c = chars_of(value);
    if has_bad_value_char(&c) {
        None
    } else {
        Some(value)
    }
}

/// A response to write back. When `stream` is set, it owns the connection
/// and writes the whole response itself; the other fields are then ignored.
pub struct Response<S> {
    pub status: u16,
    pub content_type: String,
    pub body: Vec<u8>,
    pub extra_headers: Vec<(String, String)>,
    pub stream: Option<S>,
}

impl<S> Response<S> {
    pub fn new(status: u16, content_type: &str, body: Vec<u8>) -> (r: Self)
        ensures
            r.status == status,
            r.content_type@ == content_type@,
            r.body@ == body@,
            r.extra_headers@.len() == 0,
            r.stream is None,
    {
        Response {
            status,
            content_type: String::from_str(content_type),
            body,
            extra_headers: Vec::new(),
            stream: None,
        }
    }

    /// A streaming response: `f` receives the client connection and writes a
    /// complete HTTP/1.1 response to it.
    pub fn streaming(f: S) -> (r: Self)
        ensures
            r.status == 200,
            r.content_type@.len() == 0,
            r.body@.len() == 0,
            r.extra_headers@.len() == 0,
            r.stream == Some(f),
    {
        Response {
            status: 200,
            content_type: String::new(),
            body: Vec::new(),
            extra_headers: Vec::new(),
            stream: Some(f),
        }
    }

    pub fn html(body: Vec<u8>) -> (r: Self)
        ensures
            r.status == 200,
            r.content_type@ == "text/html; charset=utf-8"@,
            r.body@ == body@,
            r.extra_headers@.len() == 0,
            r.stream is None,
    {
        Self::new(200, "text/html; charset=utf-8", body)
    }

    /// A `text/plain` response.
    pub fn text(status: u16, body: &str) -> (r: Self)
        ensures
            r.status == status,
            r.content_type@ == "text/plain; charset=utf-8"@,
            r.body@ == encode_utf8(body@),
            r.extra_headers@.len() == 0,
            r.stream is None,
    {
        let mut bytes: Vec<u8> = Vec::new();
        bytes.extend_from_slice(body.as_bytes());
        Self::new(status, "text/plain; charset=utf-8", bytes)
    }

    pub fn with_header(self, k: &str, v: &str) -> (r: Self)
        ensures
            r.status == self.status,
            r.content_type == self.content_type,
            r.body == self.body,
            pairs_view(r.extra_headers@) == pairs_view(self.extra_headers@).push((k@, v@)),
            r.stream == self.stream,
    {
        let mut me = self;
        let ghost before = me.extra_headers@;
        me.extra_headers.push((String::from_str(k), String::from_str(v)));
        assert(pairs_view(me.extra_headers@) =~= pairs_view(before).push((k@, v@)));
        me
    }

    /// A `307 Temporary Redirect` to `location` with an empty body.
    pub fn redirect(location: &str) -> (r: Self)
        ensures
            r.status == 307,
            r.content_type@ == "text/plain; charset=utf-8"@,
            r.body@.len() == 0,
            pairs_view(r.extra_headers@) == seq![("Location"@, location@)],
            r.stream is None,
    {
        let r = Self::new(307, "text/plain; charset=utf-8", Vec::new()).with_header("Location", location);
        assert(pairs_view(r.extra_headers@) =~= seq![("Location"@, location@)]);
        r
    }

    /// Marks a response as never-cache.
    pub fn no_store(self) -> (r: Self)
        ensures
            r.status == self.status,
            r.content_type == self.content_type,
            r.body == self.body,
            pairs_view(r.extra_headers@) == pairs_view(self.extra_headers@).push(("Cache-Control"@, "no-store"@)),
            r.stream == self.stream,
    {
        self.with_header("Cache-Control", "no-store")
    }
}

/// The extra header lines that are written: unsafe names or values are
/// dropped rather than written.
pub open spec fn extra_lines(hs: HeaderList) -> Seq<char>
    decreases hs.len(),
{
    if hs.len() == 0 {
        Seq::empty()
    } else {
        let (k, v) = hs.last();
        extra_lines(hs.drop_last()) + if safe_name(k) && safe_value(v) {
            k + ": "@ + v + "\r\n"@
        } else {
            Seq::empty()
        }
    }
}

/// The framed head of a buffered response: status line, content type (or
/// `application/octet-stream` when unsafe), the exact body length,
/// `Connection: close`, the hardening headers, the safe extra headers, and
/// the blank line.
pub open spec fn response_head_text(status: u16, content_type: Seq<char>, body_len: nat, extra: HeaderList) -> Seq<char> {
    "HTTP/1.1 "@ + crate::text::dec_string(status as nat) + " "@ + reason_text(status)
        + "\r\nContent-Type: "@ + (if safe_value(content_type) {
        content_type
    } else {
        "application/octet-stream"@
    }) + "\r\nContent-Length: "@ + crate::text::dec_string(body_len)
        + "\r\nConnection: close\r\nX-Content-Type-Options: nosniff\r\nX-Frame-Options: DENY\r\nReferrer-Policy: no-referrer\r\n"@
        + extra_lines(extra) + "\r\n"@
}

/// The head of a buffered response (see [`response_head_text`]).
pub fn response_head<S>(resp: &Response<S>) -> (r: String)
    ensures
        r@ == response_head_text(resp.status, resp.content_type@, resp.body@.len(), pairs_view(resp.extra_headers@)),
{
    let mut v: Vec<char> = Vec::new();
    crate::text::push_str_chars(&mut v, "HTTP/1.1 ");
    let code = crate::text::decimal_chars(resp.status as u64);
    crate::text::push_chars(&mut v, &code);
    crate::text::push_str_chars(&mut v, " ");
    crate::text::push_str_chars(&mut v, reason_phrase(resp.status));
    crate::text::push_str_chars(&mut v, "\r\nContent-Type: ");
    match safe_header_value(resp.content_type.as_str()) {
        Some(ct) => crate::text::push_str_chars(&mut v, ct),
        None => crate::text::push_str_chars(&mut v, "application/octet-stream"),
    }
    crate::text::push_str_chars(&mut v, "\r\nContent-Length: ");
    let len = crate::text::decimal_chars(resp.body.len() as u64);
    crate::text::push_chars(&mut v, &len);
    crate::text::push_str_chars(&mut v, "\r\nConnection: close\r\nX-Content-Type-Options: nosniff\r\nX-Frame-Options: DENY\r\nReferrer-Policy: no-referrer\r\n");
    let ghost fixed = v@;
    let mut i: usize = 0;
    assert(pairs_view(resp.extra_headers@).take(0) =~= Seq::<(Seq<char>, Seq<char>)>::empty());
    while i < resp.extra_headers.len()
        invariant
            i <= resp.extra_headers@.len(),
            v@ == fixed + extra_lines(pairs_view(resp.extra_headers@).take(i as int)),
        decreases resp.extra_headers.len() - i,
    {
        let k = resp.extra_headers[i].0.as_str();
        let val = resp.extra_headers[i].1.as_str();
        let ghost before = v@;
        match (safe_header_name(k), safe_header_value(val)) {
            (Some(k), Some(val)) => {
                crate::text::push_str_chars(&mut v, k);
                crate::text::push_str_chars(&mut v, ": ");
                crate::text::push_str_chars(&mut v, val);
                crate::text::push_str_chars(&mut v, "\r\n");
            },
            _ => {},
        }
        proof {
            let hs = pairs_view(resp.extra_headers@).take(i + 1);
            assert(hs.drop_last() =~= pairs_view(resp.extra_headers@).take(i as int));
            assert(hs.last() == (k@, val@));
        }
        i += 1;
    }
    assert(pairs_view(resp.extra_headers@).take(resp.extra_headers@.len() as int) =~= pairs_view(resp.extra_headers@));
    crate::text::push_str_chars(&mut v, "\r\n");
    string_of(&v)
}

/// Writes a response to `out`. A streaming response hands `out` to its
/// closure, which owns the framing entirely; any other is written as its
/// framed head (see [`response_head_text`]) followed by its body.
pub fn write_response<E, S: FnOnce(&mut Vec<u8>) -> Result<(), E>>(out: &mut Vec<u8>, resp: Response<S>) -> (r: Result<(), E>)
    requires
        resp.stream matches Some(f) ==> forall|w: &mut Vec<u8>| call_requires(f, (w,)),
    ensures
        resp.stream is None ==> r is Ok && final(out)@ == old(out)@ + encode_utf8(response_head_text(
            resp.status,
            resp.content_type@,
            resp.body@.len(),
            pairs_view(resp.extra_headers@),
        )) + resp.body@,
{
    let head = response_head(&resp);
    match resp.stream {
        Some(f) => f(out),
        None => {
            out.extend_from_slice(head.as_str().as_bytes());
            out.extend_from_slice(resp.body.as_slice());
            Ok(())
        },
    }
}

/// The headers as a map: sorted by name, a later header replacing an
/// earlier one of the same name.
pub open spec fn header_map(hs: HeaderList) -> Seq<(Seq<char>, Seq<char>)>
    decreases hs.len(),
{
    if hs.len() == 0 {
        Seq::empty()
    } else {
        key_put(header_map(hs.drop_last()), hs.last().0, hs.last().1)
    }
}

/// Whether a `Connection` value lists the `upgrade` token (comma-separated,
/// trimmed, ASCII case ignored).
pub open spec fn lists_upgrade(v: Seq<char>) -> bool
    decreases v.len(),
{
    match index_of_char(v, ',', 0) {
        None => lower_seq(trim(v)) == "upgrade"@,
        Some(j) => if 0 <= j < v.len() {
            lower_seq(trim(v.take(j))) == "upgrade"@ || lists_upgrade(v.skip(j + 1))
        } else {
            false
        },
    }
}

/// The headers forwarded to Field: every client header, with `Host` set to
/// the loopback authority Field expects and the original host, protocol and
/// peer in `X-Forwarded-*` headers of our own (a client's claims are
/// dropped); `Connection: close` unless the request upgrades.
pub open spec fn field_headers(hs: HeaderList, upstream: Seq<char>, secure: bool, peer_ip: Option<Seq<char>>) -> Seq<(Seq<char>, Seq<char>)> {
    let m0 = header_map(hs);
    let m1 = key_put(m0, "host"@, upstream);
    let m2 = match key_get(m0, "host"@) {
        Some(original) => key_put(m1, "x-forwarded-host"@, original),
        None => key_remove(m1, "x-forwarded-host"@),
    };
    let m3 = key_put(m2, "x-forwarded-proto"@, if secure { "https"@ } else { "http"@ });
    let m4 = match peer_ip {
        Some(ip) => key_put(m3, "x-forwarded-for"@, ip),
        None => key_remove(m3, "x-forwarded-for"@),
    };
    let upgrade = match key_get(m4, "connection"@) {
        Some(c) => lists_upgrade(c),
        None => false,
    };
    if upgrade { m4 } else { key_put(m4, "connection"@, "close"@) }
}

/// `name: value` lines, each ended by CR LF.
pub open spec fn header_lines_text(m: Seq<(Seq<char>, Seq<char>)>) -> Seq<char>
    decreases m.len(),
{
    if m.len() == 0 {
        Seq::empty()
    } else {
        header_lines_text(m.drop_last()) + m.last().0 + ": "@ + m.last().1 + "\r\n"@
    }
}

/// The head of a request forwarded to Field: the request line with the
/// stripped target, the headers in name order, and the blank line.
pub open spec fn field_head_text(method: Seq<char>, target: Seq<char>, version: Seq<char>, headers: Seq<(Seq<char>, Seq<char>)>) -> Seq<char> {
    method + " "@ + target + " "@ + version + "\r\n"@ + header_lines_text(headers) + "\r\n"@
}

fn lists_upgrade_exec(v: &[char]) -> (r: bool)
    ensures
        r == lists_upgrade(v@),
    decreases v.len(),
{
    proof {
        crate::text::lemma_index_of_char(v@, ',', 0);
    }
    match find_char(v, ',') {
        None => {
            let t = lower_chars(&trim_chars(v));
            chars_eq_str(&t, "upgrade")
        },
        Some(j) => {
            let head = copy_range(v, 0, j);
            assert(head@ =~= v@.take(j as int));
            let t = lower_chars(&trim_chars(&head));
            if chars_eq_str(&t, "upgrade") {
                return true;
            }
            let rest = copy_range(v, j + 1, v.len());
            assert(rest@ =~= v@.skip(j + 1));
            lists_upgrade_exec(&rest)
        },
    }
}

/// Re-serializes a `/field` request head for Field (see [`field_headers`]).
/// `upstream` is Field's loopback address and `peer_ip` the client's, both
/// as text.
pub fn field_request_head(head: &Head, target: &str, upstream: &str, secure: bool, peer_ip: Option<&str>) -> (r: String)
    ensures
        r@ == field_head_text(head.method@, target@, head.version@,
            field_headers(pairs_view(head.headers@), upstream@, secure, match peer_ip { Some(p) => Some(p@), None => None })),
{
    let ghost hs = pairs_view(head.headers@);
    let mut m: Vec<(String, String)> = Vec::new();
    let mut i: usize = 0;
    assert(text_pairs(m@) =~= header_map(hs.take(0)));
    while i < head.headers.len()
        invariant
            i <= head.headers@.len(),
            hs == pairs_view(head.headers@),
            keys_sorted(text_pairs(m@)),
            text_pairs(m@) == header_map(hs.take(i as int)),
        decreases head.headers.len() - i,
    {
        assert(hs.take(i + 1).drop_last() =~= hs.take(i as int));
        assert(hs.take(i + 1).last() == hs[i as int]);
        text_map_put(&mut m, head.headers[i].0.clone(), head.headers[i].1.clone());
        i += 1;
    }
    assert(hs.take(hs.len() as int) =~= hs);
    let original: Option<String> = match text_map_get(&m, "host") {
        Some(h) => Some(String::from_str(h)),
        None => None,
    };
    text_map_put(&mut m, String::from_str("host"), String::from_str(upstream));
    match original {
        Some(h) => text_map_put(&mut m, String::from_str("x-forwarded-host"), h),
        None => text_map_remove(&mut m, "x-forwarded-host"),
    }
    text_map_put(&mut m, String::from_str("x-forwarded-proto"), String::from_str(if secure { "https" } else { "http" }));
    match peer_ip {
        Some(ip) => text_map_put(&mut m, String::from_str("x-forwarded-for"), String::from_str(ip)),
        None => text_map_remove(&mut m, "x-forwarded-for"),
    }
    let upgrade = match text_map_get(&m, "connection") {
        Some(c) => lists_upgrade_exec(&chars_of(c)),
        None => false,
    };
    if !upgrade {
        text_map_put(&mut m, String::from_str("connection"), String::from_str("close"));
    }
    let ghost hv = text_pairs(m@);
    let mut out = chars_of(head.method.as_str());
    crate::text::push_str_chars(&mut out, " ");
    crate::text::push_str_chars(&mut out, target);
    crate::text::push_str_chars(&mut out, " ");
    crate::text::push_str_chars(&mut out, head.version.as_str());
    crate::text::push_str_chars(&mut out, "\r\n");
    let ghost start = out@;
    let mut k: usize = 0;
    while k < m.len()
        invariant
            k <= m@.len(),
            hv == text_pairs(m@),
            out@ == start + header_lines_text(hv.take(k as int)),
        decreases m.len() - k,
    {
        assert(hv.take(k + 1).drop_last() =~= hv.take(k as int));
        assert(hv.take(k + 1).last() == hv[k as int]);
        crate::text::push_str_chars(&mut out, m[k].0.as_str());
        crate::text::push_str_chars(&mut out, ": ");
        crate::text::push_str_chars(&mut out, m[k].1.as_str());
        crate::text::push_str_chars(&mut out, "\r\n");
        assert(out@ =~= start + header_lines_text(hv.take(k + 1)));
        k += 1;
    }
    assert(hv.take(hv.len() as int) =~= hv);
    crate::text::push_str_chars(&mut out, "\r\n");
    string_of(&out)
}

} // verus!
