//! The `/v1` gateway's upstream wire format: the request head the proxy sends
//! to a supervised `llama-server`, and the parser for the buffered response it
//! reads back (status, content type, and a `Content-Length`, `chunked` or
//! close-delimited body). Sockets stay with the caller; everything here is
//! pure.
use vstd::prelude::*;
use vstd::slice::slice_subrange;
use vstd::utf8::{decode_utf8, valid_utf8};
use crate::bytes::{crlf, crlfcrlf, find_subslice, first_occurrence, lemma_find_from};
use crate::text::{
    dec_string, decimal_chars, push_chars, push_str_chars, string_of,
    chars_eq_str, chars_of, copy_range, dec_value, find_char, index_of_char, is_digit_seq,
    all_digits, lemma_index_of_char, lemma_line_end, lemma_tok_end, lemma_ws_end, line_end,
    line_end_exec, lower_chars, lower_seq, parse_decimal, tok_end, tok_end_exec, trim,
    trim_chars, utf8_string, ws_end, ws_end_exec,
};

verus! {

/// Upper bound on a buffered upstream response.
pub const MAX_BUFFERED_RESPONSE: usize = 32 * 1024 * 1024;

/// Upper bound on the upstream response head.
pub const MAX_RESPONSE_HEADERS: usize = 64 * 1024;

/// The single failure the parser reports: the upstream bytes are not a
/// well-framed, bounded HTTP/1.x response.
#[derive(Debug, PartialEq, Eq, Clone, Copy)]
pub struct InvalidResponse;

pub open spec fn is_hex_byte(b: u8) -> bool {
    (48 <= b && b <= 57) || (97 <= b && b <= 102) || (65 <= b && b <= 70)
}

pub open spec fn hex_byte_value(b: u8) -> nat {
    if 48 <= b && b <= 57 {
        (b - 48) as nat
    } else if 97 <= b && b <= 102 {
        (b - 87) as nat
    } else {
        (b - 55) as nat
    }
}

pub open spec fn all_hex(s: Seq<u8>) -> bool {
    forall|i: int| 0 <= i < s.len() ==> is_hex_byte(#[trigger] s[i])
}

/// The number a string of hexadecimal digits denotes.
pub open spec fn hex_value(s: Seq<u8>) -> nat
    decreases s.len(),
{
    if s.len() == 0 {
        0
    } else {
        hex_value(s.drop_last()) * 16 + hex_byte_value(s.last())
    }
}

/// The first index holding byte `b`.
pub open spec fn index_of_byte(s: Seq<u8>, b: u8, i: int) -> Option<int>
    decreases s.len() - i,
{
    if i < 0 || i >= s.len() {
        None
    } else if s[i] == b {
        Some(i)
    } else {
        index_of_byte(s, b, i + 1)
    }
}

pub proof fn lemma_index_of_byte(s: Seq<u8>, b: u8, i: int)
    requires
        0 <= i,
    ensures
        match index_of_byte(s, b, i) {
            Some(j) => i <= j < s.len() && s[j] == b && forall|k: int| i <= k < j ==> s[k] != b,
            None => forall|k: int| i <= k < s.len() ==> s[k] != b,
        },
    decreases s.len() - i,
{
    if i < s.len() && s[i] != b {
        lemma_index_of_byte(s, b, i + 1);
    }
}

/// A chunk-size line with any `;extension` removed.
pub open spec fn chunk_size_text(line: Seq<u8>) -> Seq<u8> {
    match index_of_byte(line, 59u8, 0) {
        Some(i) => line.take(i),
        None => line,
    }
}

/// The trailer section after the zero-size chunk: `name: value` lines, then one
/// empty line that ends the input exactly.
pub open spec fn trailer_ok(data: Seq<u8>) -> bool
    decreases data.len(),
{
    match first_occurrence(data, crlf()) {
        None => false,
        Some(end) => {
            if end == 0 {
                data.len() == 2
            } else if 0 < end && end + 2 <= data.len() {
                data.take(end).contains(58u8) && trailer_ok(data.skip(end + 2))
            } else {
                false
            }
        },
    }
}

/// Decoding of a `chunked` transfer body, appending to `out`.
pub open spec fn dechunk_spec(data: Seq<u8>, out: Seq<u8>) -> Option<Seq<u8>>
    decreases data.len(),
{
    match first_occurrence(data, crlf()) {
        None => None,
        Some(nl) => {
            let text = chunk_size_text(data.take(nl));
            if !(0 <= nl && nl + 2 <= data.len()) || text.len() == 0 || !all_hex(text)
                || hex_value(text) > usize::MAX {
                None
            } else {
                let size = hex_value(text);
                let rest = data.skip(nl + 2);
                if size == 0 {
                    if trailer_ok(rest) {
                        Some(out)
                    } else {
                        None
                    }
                } else if rest.len() < size || out.len() + size > MAX_BUFFERED_RESPONSE {
                    None
                } else {
                    let after = rest.skip(size as int);
                    if after.len() >= 2 && after.take(2) == crlf() {
                        dechunk_spec(after.skip(2), out + rest.take(size as int))
                    } else {
                        None
                    }
                }
            }
        },
    }
}

proof fn lemma_hex_value_step(s: Seq<u8>, i: int)
    requires
        0 <= i < s.len(),
    ensures
        hex_value(s.take(i + 1)) == hex_value(s.take(i)) * 16 + hex_byte_value(s[i]),
{
    assert(s.take(i + 1).drop_last() =~= s.take(i));
}

fn hex_digit(b: u8) -> (v: u8)
    requires
        is_hex_byte(b),
    ensures
        v as nat == hex_byte_value(b),
        v < 16,
{
    if 48 <= b && b <= 57 {
        b - 48
    } else if 97 <= b && b <= 102 {
        b - 87
    } else {
        b - 55
    }
}

/// `usize::from_str_radix(text, 16)` for a run of hex digits: `None` exactly
/// when the value does not fit.
fn parse_hex(text: &[u8]) -> (r: Option<usize>)
    requires
        all_hex(text@),
    ensures
        match r {
            Some(v) => v as nat == hex_value(text@),
            None => hex_value(text@) > usize::MAX,
        },
{
    let n = text.len();
    let mut value: usize = 0;
    let mut i: usize = 0;
    while i < n
        invariant
            n == text@.len(),
            i <= n,
            all_hex(text@),
            value as nat == hex_value(text@.take(i as int)),
        decreases n - i,
    {
        let d = hex_digit(text[i]) as usize;
        proof {
            lemma_hex_value_step(text@, i as int);
        }
        match value.checked_mul(16) {
            Some(m) => match m.checked_add(d) {
                Some(v) => {
                    value = v;
                },
                None => {
                    proof {
                        lemma_hex_prefix_monotone(text@, i + 1);
                    }
                    return None;
                },
            },
            None => {
                proof {
                    lemma_hex_prefix_monotone(text@, i + 1);
                }
                return None;
            },
        }
        i += 1;
    }
    assert(text@.take(n as int) =~= text@);
    Some(value)
}

/// A longer prefix of hex digits never denotes a smaller number.
proof fn lemma_hex_prefix_monotone(s: Seq<u8>, k: int)
    requires
        0 <= k <= s.len(),
    ensures
        hex_value(s.take(k)) <= hex_value(s),
    decreases s.len() - k,
{
    if k < s.len() {
        lemma_hex_prefix_monotone(s, k + 1);
        lemma_hex_value_step(s, k);
    } else {
        assert(s.take(k) =~= s);
    }
}

/// The index of the first `b` in `s`.
fn find_byte(s: &[u8], b: u8) -> (r: Option<usize>)
    ensures
        match r {
            Some(i) => index_of_byte(s@, b, 0) == Some(i as int),
            None => index_of_byte(s@, b, 0) is None,
        },
{
    let n = s.len();
    let mut i: usize = 0;
    while i < n
        invariant
            n == s@.len(),
            i <= n,
            index_of_byte(s@, b, 0) == index_of_byte(s@, b, i as int),
        decreases n - i,
    {
        if s[i] == b {
            return Some(i);
        }
        i += 1;
    }
    None
}

fn all_hex_exec(s: &[u8]) -> (r: bool)
    ensures
        r == all_hex(s@),
{
    let n = s.len();
    let mut i: usize = 0;
    while i < n
        invariant
            n == s@.len(),
            i <= n,
            forall|j: int| 0 <= j < i ==> is_hex_byte(#[trigger] s@[j]),
        decreases n - i,
    {
        let b = s[i];
        if !((48 <= b && b <= 57) || (97 <= b && b <= 102) || (65 <= b && b <= 70)) {
            return false;
        }
        i += 1;
    }
    true
}

fn contains_byte(s: &[u8], b: u8) -> (r: bool)
    ensures
        r == s@.contains(b),
{
    let n = s.len();
    let mut i: usize = 0;
    while i < n
        invariant
            n == s@.len(),
            i <= n,
            forall|j: int| 0 <= j < i ==> s@[j] != b,
        decreases n - i,
    {
        if s[i] == b {
            assert(s@[i as int] == b);
            return true;
        }
        i += 1;
    }
    false
}

fn crlf_exec() -> (v: Vec<u8>)
    ensures
        v@ == crlf(),
{
    let mut v = Vec::new();
    v.push(13u8);
    v.push(10u8);
    assert(v@ =~= crlf());
    v
}

/// Checks the trailer section that follows the zero-size chunk.
fn trailer_exec(data: &[u8]) -> (r: bool)
    ensures
        r == trailer_ok(data@),
{
    let line_end = crlf_exec();
    let n = data.len();
    let mut p: usize = 0;
    assert(data@.skip(0) =~= data@);
    while p <= n
        invariant
            n == data@.len(),
            p <= n,
            line_end@ == crlf(),
            trailer_ok(data@) == trailer_ok(data@.skip(p as int)),
        decreases n - p,
    {
        let rest = slice_subrange(data, p, n);
        assert(rest@ =~= data@.skip(p as int));
        match find_subslice(rest, line_end.as_slice()) {
            None => return false,
            Some(end) => {
                proof {
                    lemma_find_from(rest@, crlf(), 0);
                }
                if end == 0 {
                    return rest.len() == 2;
                }
                let line = slice_subrange(rest, 0, end);
                assert(line@ =~= rest@.take(end as int));
                if !contains_byte(line, 58u8) {
                    return false;
                }
                assert(data@.skip(p as int).skip(end + 2) =~= data@.skip(p + end + 2));
                p = p + end + 2;
            },
        }
    }
    false
}

/// Decodes an HTTP `chunked` transfer body.
pub fn dechunk(data: &[u8]) -> (r: Result<Vec<u8>, InvalidResponse>)
    ensures
        match r {
            Ok(body) => dechunk_spec(data@, seq![]) == Some(body@),
            Err(_) => dechunk_spec(data@, seq![]) is None,
        },
{
    let line_end = crlf_exec();
    let n = data.len();
    let mut out: Vec<u8> = Vec::new();
    let mut p: usize = 0;
    assert(data@.skip(0) =~= data@);
    while p <= n
        invariant
            n == data@.len(),
            p <= n,
            line_end@ == crlf(),
            out@.len() <= MAX_BUFFERED_RESPONSE,
            dechunk_spec(data@, seq![]) == dechunk_spec(data@.skip(p as int), out@),
        decreases n - p,
    {
        let rest = slice_subrange(data, p, n);
        assert(rest@ =~= data@.skip(p as int));
        let nl = match find_subslice(rest, line_end.as_slice()) {
            None => return Err(InvalidResponse),
            Some(nl) => nl,
        };
        proof {
            lemma_find_from(rest@, crlf(), 0);
        }
        let line = slice_subrange(rest, 0, nl);
        assert(line@ =~= rest@.take(nl as int));
        proof {
            lemma_index_of_byte(line@, 59u8, 0);
        }
        let text = match find_byte(line, 59u8) {
            Some(i) => slice_subrange(line, 0, i),
            None => line,
        };
        assert(text@ =~= chunk_size_text(rest@.take(nl as int)));
        if text.len() == 0 || !all_hex_exec(text) {
            return Err(InvalidResponse);
        }
        let size = match parse_hex(text) {
            Some(size) => size,
            None => return Err(InvalidResponse),
        };
        let body_start = p + nl + 2;
        assert(data@.skip(p as int).skip(nl + 2) =~= data@.skip(body_start as int));
        if size == 0 {
            let tail = slice_subrange(data, body_start, n);
            assert(tail@ =~= data@.skip(body_start as int));
            if trailer_exec(tail) {
                return Ok(out);
            } else {
                return Err(InvalidResponse);
            }
        }
        if n - body_start < size || size > MAX_BUFFERED_RESPONSE - out.len() {
            return Err(InvalidResponse);
        }
        let chunk = slice_subrange(data, body_start, body_start + size);
        let ghost old_out = out@;
        out.extend_from_slice(chunk);
        let after = body_start + size;
        assert(data@.skip(body_start as int).take(size as int) =~= chunk@);
        assert(data@.skip(body_start as int).skip(size as int) =~= data@.skip(after as int));
        if n - after >= 2 && data[after] == 13u8 && data[after + 1] == 10u8 {
            assert(data@.skip(after as int).take(2) =~= crlf());
            assert(data@.skip(after as int).skip(2) =~= data@.skip(after + 2));
            proof {
                let r = data@.skip(p as int);
                assert(r == rest@);
                assert(r.skip(nl + 2) =~= data@.skip(body_start as int));
                assert(r.skip(nl + 2).skip(size as int) =~= data@.skip(after as int));
                assert(r.skip(nl + 2).take(size as int) =~= chunk@);
                assert(out@ =~= old_out + chunk@);
                assert(dechunk_spec(r, old_out) == dechunk_spec(data@.skip(after + 2), out@));
            }
            p = after + 2;
        } else {
            proof {
                if data@.skip(after as int).len() >= 2 && data@.skip(after as int).take(2)
                    == crlf() {
                    assert(data@.skip(after as int).take(2)[0] == data@[after as int]);
                    assert(data@.skip(after as int).take(2)[1] == data@[after + 1]);
                }
            }
            return Err(InvalidResponse);
        }
    }
    Err(InvalidResponse)
}

/// A backend response, reduced to what the gateway re-emits to the client.
pub struct BackendResponse {
    pub status: u16,
    pub content_type: String,
    pub body: Vec<u8>,
}

/// The status code token of a status line: decimal digits (a leading `+` is
/// tolerated, as `u16::from_str` does) denoting a code from 200 to 599.
pub open spec fn status_code_value(tok: Seq<char>) -> Option<u16> {
    let digits = if tok.len() > 0 && tok[0] == '+' {
        tok.drop_first()
    } else {
        tok
    };
    if digits.len() == 0 || !is_digit_seq(digits) {
        None
    } else if 200 <= dec_value(digits) && dec_value(digits) <= 599 {
        Some(dec_value(digits) as u16)
    } else {
        None
    }
}

/// The status of a response's first line: an `HTTP/1.1` or `HTTP/1.0`
/// token, then the code token; anything after it is ignored.
pub open spec fn status_of(line: Seq<char>) -> Option<u16> {
    let a = ws_end(line, 0);
    let b = tok_end(line, a);
    let c = ws_end(line, b);
    let d = tok_end(line, c);
    if a >= line.len() {
        None
    } else if line.subrange(a, b) != "HTTP/1.1"@ && line.subrange(a, b) != "HTTP/1.0"@ {
        None
    } else if c >= line.len() {
        None
    } else {
        status_code_value(line.subrange(c, d))
    }
}

/// What the header lines say about the body: the content type (the last one
/// wins), whether it is `chunked`, and its declared `Content-Length`.
pub type HeadFacts = (Seq<char>, bool, Option<usize>);

pub open spec fn initial_head_facts() -> HeadFacts {
    ("application/json"@, false, None)
}

/// One header line folded into the facts; `None` when the line is not
/// `name: value`, repeats a framing header, or carries an unusable value.
pub open spec fn header_step(st: HeadFacts, line: Seq<char>) -> Option<HeadFacts> {
    match index_of_char(line, ':', 0) {
        None => None,
        Some(k) => {
            let key = lower_seq(trim(line.take(k)));
            let val = trim(line.skip(k + 1));
            if key == "content-type"@ {
                Some((val, st.1, st.2))
            } else if key == "transfer-encoding"@ {
                if st.1 || lower_seq(val) != "chunked"@ {
                    None
                } else {
                    Some((st.0, true, st.2))
                }
            } else if key == "content-length"@ {
                if st.2 is Some || val.len() == 0 || !is_digit_seq(val) || dec_value(val)
                    > usize::MAX {
                    None
                } else {
                    Some((st.0, st.1, Some(dec_value(val) as usize)))
                }
            } else {
                Some(st)
            }
        },
    }
}

/// The header lines of `s` from index `i` on, folded into `st`.
pub open spec fn scan_headers(s: Seq<char>, i: int, st: HeadFacts) -> Option<HeadFacts>
    decreases s.len() - i,
{
    let e = line_end(s, i);
    if i < 0 || i > s.len() || e < i || e > s.len() {
        None
    } else {
        match header_step(st, s.subrange(i, e)) {
            None => None,
            Some(next) => if e + 2 > s.len() {
                Some(next)
            } else {
                scan_headers(s, e + 2, next)
            },
        }
    }
}

/// The facts of a whole (decoded) response head.
pub open spec fn head_facts(s: Seq<char>) -> Option<(u16, HeadFacts)> {
    let e0 = line_end(s, 0);
    match status_of(s.take(e0)) {
        None => None,
        Some(code) => {
            let scanned = if e0 < s.len() {
                scan_headers(s, e0 + 2, initial_head_facts())
            } else {
                Some(initial_head_facts())
            };
            match scanned {
                None => None,
                Some(facts) => Some((code, facts)),
            }
        },
    }
}

/// The parse of a buffered upstream response: status, content type and body.
/// The head ends at the first blank line and must be bounded UTF-8; a body is
/// `chunked` (decoded), carries an exact `Content-Length`, or runs to the end.
pub open spec fn parse_response(raw: Seq<u8>) -> Option<(u16, Seq<char>, Seq<u8>)> {
    match first_occurrence(raw, crlfcrlf()) {
        None => None,
        Some(i) => {
            let head = raw.take(i);
            let body_raw = raw.skip(i + 4);
            if head.len() > MAX_RESPONSE_HEADERS || raw.len() > MAX_BUFFERED_RESPONSE {
                None
            } else if !valid_utf8(head) {
                None
            } else {
                match head_facts(decode_utf8(head)) {
                    None => None,
                    Some((code, facts)) => {
                        if facts.1 && facts.2 is Some {
                            None
                        } else if facts.1 {
                            match dechunk_spec(body_raw, seq![]) {
                                None => None,
                                Some(body) => Some((code, facts.0, body)),
                            }
                        } else if facts.2 is Some && facts.2.unwrap() != body_raw.len() {
                            None
                        } else {
                            Some((code, facts.0, body_raw))
                        }
                    },
                }
            }
        },
    }
}

fn crlfcrlf_exec() -> (v: Vec<u8>)
    ensures
        v@ == crlfcrlf(),
{
    let mut v = Vec::new();
    v.push(13u8);
    v.push(10u8);
    v.push(13u8);
    v.push(10u8);
    assert(v@ =~= crlfcrlf());
    v
}

/// The code token of a status line.
fn status_code_exec(tok: &[char]) -> (r: Option<u16>)
    ensures
        r == status_code_value(tok@),
{
    let digits: Vec<char> = if tok.len() > 0 && tok[0] == '+' {
        copy_range(tok, 1, tok.len())
    } else {
        copy_range(tok, 0, tok.len())
    };
    assert(tok@.len() > 0 && tok@[0] == '+' ==> digits@ =~= tok@.drop_first());
    assert(!(tok@.len() > 0 && tok@[0] == '+') ==> digits@ =~= tok@);
    if digits.len() == 0 || !all_digits(&digits) {
        return None;
    }
    match parse_decimal(&digits) {
        None => None,
        Some(v) => {
            if 200 <= v && v <= 599 {
                Some(v as u16)
            } else {
                None
            }
        },
    }
}

/// The status of a response's first line (see [`status_of`]).
fn status_line_exec(line: &[char]) -> (r: Option<u16>)
    ensures
        r == status_of(line@),
{
    let n = line.len();
    let a = ws_end_exec(line, 0);
    proof {
        lemma_ws_end(line@, 0);
    }
    if a >= n {
        return None;
    }
    let b = tok_end_exec(line, a);
    proof {
        lemma_tok_end(line@, a as int);
    }
    let version = copy_range(line, a, b);
    if !chars_eq_str(&version, "HTTP/1.1") && !chars_eq_str(&version, "HTTP/1.0") {
        return None;
    }
    let c = ws_end_exec(line, b);
    proof {
        lemma_ws_end(line@, b as int);
    }
    if c >= n {
        return None;
    }
    let d = tok_end_exec(line, c);
    proof {
        lemma_tok_end(line@, c as int);
    }
    let code = copy_range(line, c, d);
    status_code_exec(&code)
}

/// One header line folded into the facts (see [`header_step`]).
fn header_step_exec(
    content_type: Vec<char>,
    chunked: bool,
    length: Option<usize>,
    line: &[char],
) -> (r: Option<(Vec<char>, bool, Option<usize>)>)
    ensures
        match r {
            Some(next) => header_step((content_type@, chunked, length), line@) == Some(
                (next.0@, next.1, next.2),
            ),
            None => header_step((content_type@, chunked, length), line@) is None,
        },
{
    let k = match find_char(line, ':') {
        None => return None,
        Some(k) => k,
    };
    proof {
        lemma_index_of_char(line@, ':', 0);
    }
    let n = line.len();
    assert(k < n);
    let name = copy_range(line, 0, k);
    let rest = copy_range(line, k + 1, n);
    assert(name@ =~= line@.take(k as int));
    assert(rest@ =~= line@.skip(k + 1));
    let trimmed = trim_chars(&name);
    let key = lower_chars(&trimmed);
    let val = trim_chars(&rest);
    if chars_eq_str(&key, "content-type") {
        Some((val, chunked, length))
    } else if chars_eq_str(&key, "transfer-encoding") {
        let lowered = lower_chars(&val);
        if chunked || !chars_eq_str(&lowered, "chunked") {
            None
        } else {
            Some((content_type, true, length))
        }
    } else if chars_eq_str(&key, "content-length") {
        if length.is_some() || val.len() == 0 || !all_digits(&val) {
            return None;
        }
        match parse_decimal(&val) {
            None => None,
            Some(v) => Some((content_type, chunked, Some(v))),
        }
    } else {
        Some((content_type, chunked, length))
    }
}

/// The facts of a decoded response head (see [`head_facts`]).
fn head_facts_exec(s: &[char]) -> (r: Option<(u16, Vec<char>, bool, Option<usize>)>)
    ensures
        match r {
            Some(v) => head_facts(s@) == Some((v.0, (v.1@, v.2, v.3))),
            None => head_facts(s@) is None,
        },
{
    let n = s.len();
    let e0 = line_end_exec(s, 0);
    proof {
        lemma_line_end(s@, 0);
    }
    let first = copy_range(s, 0, e0);
    assert(first@ =~= s@.take(e0 as int));
    let code = match status_line_exec(&first) {
        None => return None,
        Some(code) => code,
    };
    let mut content_type = chars_of("application/json");
    let mut chunked = false;
    let mut length: Option<usize> = None;
    if e0 < n {
        let mut p = e0 + 2;
        loop
            invariant_except_break
                n == s@.len(),
                e0 < n,
                p <= n,
                head_facts(s@) == match scan_headers(s@, p as int, (content_type@, chunked, length)) {
                    None => None,
                    Some(facts) => Some((code, facts)),
                },
            ensures
                head_facts(s@) == Some((code, (content_type@, chunked, length))),
            decreases n - p,
        {
            let e = line_end_exec(s, p);
            proof {
                lemma_line_end(s@, p as int);
            }
            let line = copy_range(s, p, e);
            match header_step_exec(content_type, chunked, length, &line) {
                None => return None,
                Some(next) => {
                    content_type = next.0;
                    chunked = next.1;
                    length = next.2;
                },
            }
            if e >= n {
                break;
            }
            p = e + 2;
        }
    }
    Some((code, content_type, chunked, length))
}

/// Parses a raw, fully buffered backend HTTP response into status, content
/// type and body. Handles `Content-Length`, `chunked` and close-delimited
/// bodies, and refuses anything ambiguous, truncated or oversized.
pub fn parse_backend_response(raw: &[u8]) -> (r: Result<BackendResponse, InvalidResponse>)
    ensures
        match r {
            Ok(resp) => parse_response(raw@) == Some((resp.status, resp.content_type@, resp.body@)),
            Err(_) => parse_response(raw@) is None,
        },
{
    let sep = crlfcrlf_exec();
    let i = match find_subslice(raw, sep.as_slice()) {
        None => return Err(InvalidResponse),
        Some(i) => i,
    };
    proof {
        lemma_find_from(raw@, crlfcrlf(), 0);
        assert(crlfcrlf().len() == 4);
        assert(crate::bytes::occurs_at(raw@, crlfcrlf(), i as int));
    }
    let total = raw.len();
    assert(i + 4 <= total);
    let head = slice_subrange(raw, 0, i);
    let body_raw = slice_subrange(raw, i + 4, total);
    assert(head@ =~= raw@.take(i as int));
    assert(body_raw@ =~= raw@.skip(i + 4));
    if head.len() > MAX_RESPONSE_HEADERS || raw.len() > MAX_BUFFERED_RESPONSE {
        return Err(InvalidResponse);
    }
    let text = match utf8_string(head) {
        None => return Err(InvalidResponse),
        Some(text) => text,
    };
    let chars = chars_of(text.as_str());
    let (status, content_type, chunked, length) = match head_facts_exec(&chars) {
        None => return Err(InvalidResponse),
        Some(facts) => facts,
    };
    if chunked && length.is_some() {
        return Err(InvalidResponse);
    }
    let body = if chunked {
        match dechunk(body_raw) {
            Err(e) => return Err(e),
            Ok(body) => body,
        }
    } else {
        match length {
            Some(len) => {
                if len != body_raw.len() {
                    return Err(InvalidResponse);
                }
            },
            None => {},
        }
        let mut copy: Vec<u8> = Vec::new();
        copy.extend_from_slice(body_raw);
        copy
    };
    let content_type = string_of(&content_type);
    Ok(BackendResponse { status, content_type, body })
}

/// One upstream request, shared by the buffered and streaming forwarders.
/// `path` is passed through unchanged; `backend_key`, when set, is injected as
/// a bearer token so clients present one key to one door.
pub struct ProxyRequest<'a> {
    pub host: &'a str,
    pub port: u16,
    pub method: &'a str,
    pub path: &'a str,
    pub content_type: &'a str,
    pub body: &'a [u8],
    pub backend_key: Option<&'a str>,
}

/// The request head sent upstream: request line, `Host`, the body's type and
/// exact length, `Connection: close`, the injected bearer token if any, and the
/// blank line.
pub open spec fn request_head_text(
    method: Seq<char>,
    path: Seq<char>,
    host: Seq<char>,
    port: nat,
    content_type: Seq<char>,
    body_len: nat,
    key: Option<Seq<char>>,
) -> Seq<char> {
    let base = method + " "@ + path + " HTTP/1.1\r\nHost: "@ + host + ":"@ + dec_string(port)
        + "\r\nContent-Type: "@ + content_type + "\r\nContent-Length: "@ + dec_string(body_len)
        + "\r\nConnection: close\r\n"@;
    let auth = match key {
        Some(k) => "Authorization: Bearer "@ + k + "\r\n"@,
        None => Seq::empty(),
    };
    base + auth + "\r\n"@
}

/// Law of the request head: a backend key adds exactly one line,
/// `Authorization: Bearer <key>`, just before the blank line that ends the
/// head; everything else is the head sent without a key, which ends with
/// `Connection: close` and the blank line.
pub proof fn law_backend_key_adds_the_bearer_line(
    method: Seq<char>,
    path: Seq<char>,
    host: Seq<char>,
    port: nat,
    content_type: Seq<char>,
    body_len: nat,
    key: Seq<char>,
)
    ensures
        ({
            let plain = request_head_text(method, path, host, port, content_type, body_len, None);
            let keyed = request_head_text(method, path, host, port, content_type, body_len, Some(key));
            let line = "Authorization: Bearer "@ + key + "\r\n"@;
            &&& plain.len() >= 4
            &&& plain.skip(plain.len() - 4) == "\r\n\r\n"@
            &&& keyed == plain.take(plain.len() - 2) + line + "\r\n"@
            &&& keyed.len() == plain.len() + 24 + key.len()
        }),
{
    reveal_strlit("\r\n");
    reveal_strlit("\r\nConnection: close\r\n");
    reveal_strlit("Authorization: Bearer ");
    reveal_strlit("\r\n\r\n");
    let base = method + " "@ + path + " HTTP/1.1\r\nHost: "@ + host + ":"@ + dec_string(port)
        + "\r\nContent-Type: "@ + content_type + "\r\nContent-Length: "@ + dec_string(body_len)
        + "\r\nConnection: close\r\n"@;
    let plain = request_head_text(method, path, host, port, content_type, body_len, None);
    assert(plain =~= base + Seq::<char>::empty() + "\r\n"@);
    assert(plain.take(plain.len() - 2) =~= base);
    assert(plain.skip(plain.len() - 4) =~= "\r\n\r\n"@);
}

/// The head the proxy writes before the body.
pub fn request_head(req: &ProxyRequest) -> (r: String)
    ensures
        r@ == request_head_text(
            req.method@,
            req.path@,
            req.host@,
            req.port as nat,
            req.content_type@,
            req.body@.len(),
            match req.backend_key {
                Some(k) => Some(k@),
                None => None,
            },
        ),
{
    let mut v: Vec<char> = Vec::new();
    push_str_chars(&mut v, req.method);
    push_str_chars(&mut v, " ");
    push_str_chars(&mut v, req.path);
    push_str_chars(&mut v, " HTTP/1.1\r\nHost: ");
    push_str_chars(&mut v, req.host);
    push_str_chars(&mut v, ":");
    let port = decimal_chars(req.port as u64);
    push_chars(&mut v, &port);
    push_str_chars(&mut v, "\r\nContent-Type: ");
    push_str_chars(&mut v, req.content_type);
    push_str_chars(&mut v, "\r\nContent-Length: ");
    let len = decimal_chars(req.body.len() as u64);
    push_chars(&mut v, &len);
    push_str_chars(&mut v, "\r\nConnection: close\r\n");
    let ghost base = v@;
    match req.backend_key {
        Some(key) => {
            push_str_chars(&mut v, "Authorization: Bearer ");
            push_str_chars(&mut v, key);
            push_str_chars(&mut v, "\r\n");
        },
        None => {},
    }
    push_str_chars(&mut v, "\r\n");
    proof {
        let key_view = match req.backend_key {
            Some(k) => Some(k@),
            None => None::<Seq<char>>,
        };
        let expected = request_head_text(
            req.method@,
            req.path@,
            req.host@,
            req.port as nat,
            req.content_type@,
            req.body@.len(),
            key_view,
        );
        assert(v@ =~= expected);
    }
    string_of(&v)
}

/// Folds one read from the upstream socket into the buffered response,
/// refusing a response that outgrows [`MAX_BUFFERED_RESPONSE`] or whose head
/// (everything before the first blank line, or all of it while none has
/// arrived) outgrows [`MAX_RESPONSE_HEADERS`].
pub fn accept_read(raw: &mut Vec<u8>, chunk: &[u8]) -> (r: Result<(), InvalidResponse>)
    requires
        old(raw)@.len() <= MAX_BUFFERED_RESPONSE,
    ensures
        old(raw)@.len() + chunk@.len() > MAX_BUFFERED_RESPONSE ==> r is Err && final(raw)@
            == old(raw)@,
        old(raw)@.len() + chunk@.len() <= MAX_BUFFERED_RESPONSE ==> {
            &&& final(raw)@ == old(raw)@ + chunk@
            &&& (r is Err <==> match first_occurrence(final(raw)@, crlfcrlf()) {
                Some(i) => i > MAX_RESPONSE_HEADERS,
                None => final(raw)@.len() > MAX_RESPONSE_HEADERS,
            })
        },
{
    if chunk.len() > MAX_BUFFERED_RESPONSE - raw.len() {
        return Err(InvalidResponse);
    }
    raw.extend_from_slice(chunk);
    let sep = crlfcrlf_exec();
    let head_len = match find_subslice(raw.as_slice(), sep.as_slice()) {
        Some(i) => i,
        None => raw.len(),
    };
    if head_len > MAX_RESPONSE_HEADERS {
        Err(InvalidResponse)
    } else {
        Ok(())
    }
}

/// The complete `503` a streaming client receives when a drain cancels its
/// request before any upstream byte was relayed.
pub open spec fn drain_error_text() -> Seq<char> {
    let body = "{\"error\":{\"message\":\"drain deadline exceeded\",\"type\":\"server_error\",\"code\":\"node_draining\"}}"@;
    "HTTP/1.1 503 Service Unavailable\r\nContent-Type: application/json\r\nContent-Length: "@
        + dec_string(body.len()) + "\r\nConnection: close\r\nRetry-After: 5\r\n\r\n"@ + body
}

/// The complete `502` a streaming client receives when its upstream cannot be
/// reached before any byte was relayed.
pub open spec fn gateway_error_text() -> Seq<char> {
    let body = "{\"error\":{\"message\":\"upstream unavailable\",\"type\":\"server_error\",\"code\":\"upstream_unavailable\"}}"@;
    "HTTP/1.1 502 Bad Gateway\r\nContent-Type: application/json\r\nContent-Length: "@
        + dec_string(body.len()) + "\r\nConnection: close\r\n\r\n"@ + body
}

/// The drain `503` (see [`drain_error_text`]).
pub fn drain_error_response() -> (r: String)
    ensures
        r@ == drain_error_text(),
{
    let body = "{\"error\":{\"message\":\"drain deadline exceeded\",\"type\":\"server_error\",\"code\":\"node_draining\"}}";
    let body_chars = chars_of(body);
    let mut v: Vec<char> = Vec::new();
    push_str_chars(&mut v, "HTTP/1.1 503 Service Unavailable\r\nContent-Type: application/json\r\nContent-Length: ");
    let len = decimal_chars(body_chars.len() as u64);
    push_chars(&mut v, &len);
    push_str_chars(&mut v, "\r\nConnection: close\r\nRetry-After: 5\r\n\r\n");
    push_chars(&mut v, &body_chars);
    assert(v@ =~= drain_error_text());
    string_of(&v)
}

/// The gateway `502` (see [`gateway_error_text`]).
pub fn gateway_error_response() -> (r: String)
    ensures
        r@ == gateway_error_text(),
{
    let body = "{\"error\":{\"message\":\"upstream unavailable\",\"type\":\"server_error\",\"code\":\"upstream_unavailable\"}}";
    let body_chars = chars_of(body);
    let mut v: Vec<char> = Vec::new();
    push_str_chars(&mut v, "HTTP/1.1 502 Bad Gateway\r\nContent-Type: application/json\r\nContent-Length: ");
    let len = decimal_chars(body_chars.len() as u64);
    push_chars(&mut v, &len);
    push_str_chars(&mut v, "\r\nConnection: close\r\n\r\n");
    push_chars(&mut v, &body_chars);
    assert(v@ =~= gateway_error_text());
    string_of(&v)
}

/// What one read from the upstream socket produced.
#[derive(Debug, Clone, Copy, PartialEq, Eq)]
pub enum ReadOutcome {
    /// Some bytes arrived.
    Data,
    /// A clean end of stream.
    Eof,
    /// The peer reset the connection: on some platforms that is how a
    /// `Connection: close` backend ends its response.
    Reset,
    /// The per-read timeout (or a would-block) fired.
    Stalled,
    /// Any other transport error.
    Failed,
}

/// What the relay loop does next.
#[derive(Debug, Clone, Copy, PartialEq, Eq)]
pub enum RelayAction {
    /// Read again.
    Retry,
    /// Pass the bytes just read on (relay them, or buffer them).
    Take,
    /// The upstream response is complete.
    Finish,
    /// Nothing was sent yet: answer the client with the drain `503`.
    WriteDrainError,
    /// Stop with an interruption: the drain deadline passed.
    Cancel,
    /// Stop with the transport error.
    Fail,
}

/// One step of the proxy's read loop. A cancelled request stops first; a
/// stall is retried while the upstream made progress within the proxy
/// timeout; EOF and a reset end the response. Only a streaming relay that has
/// sent nothing yet may still answer with the drain `503`: once upstream bytes
/// reached the client, a second response would corrupt the stream.
pub fn relay_step(
    streaming: bool,
    cancelled: bool,
    relayed: bool,
    read: ReadOutcome,
    within_timeout: bool,
) -> (a: RelayAction)
    ensures
        cancelled ==> a == (if streaming && !relayed {
            RelayAction::WriteDrainError
        } else {
            RelayAction::Cancel
        }),
        !cancelled ==> a == match read {
            ReadOutcome::Stalled => if within_timeout {
                RelayAction::Retry
            } else {
                RelayAction::Fail
            },
            ReadOutcome::Data => RelayAction::Take,
            ReadOutcome::Eof => RelayAction::Finish,
            ReadOutcome::Reset => RelayAction::Finish,
            ReadOutcome::Failed => RelayAction::Fail,
        },
{
    if cancelled {
        if streaming && !relayed {
            return RelayAction::WriteDrainError;
        }
        return RelayAction::Cancel;
    }
    match read {
        ReadOutcome::Stalled => if within_timeout {
            RelayAction::Retry
        } else {
            RelayAction::Fail
        },
        ReadOutcome::Data => RelayAction::Take,
        ReadOutcome::Eof => RelayAction::Finish,
        ReadOutcome::Reset => RelayAction::Finish,
        ReadOutcome::Failed => RelayAction::Fail,
    }
}

} // verus!
